//! Replacing a voter's ballot in the store, as one transaction.
//!
//! The store does the writing; this module decides what it is asked to do.
//! A [`Submission`] names the next operation, is told whether the store
//! carried it out, and moves on: open a transaction, delete the voter's rows,
//! insert the new rows in order, commit. Once an operation inside the
//! transaction fails the transaction is rolled back and the submission has
//! failed. Against a store whose transactions are all-or-nothing, the voter's
//! ballot is afterwards either the old one or the new one, whichever
//! operations failed.

use crate::vote::{ballot_rows, Ballot, SubmissionError, Vote, MAX_BALLOT_LEN};
use vstd::prelude::*;

verus! {

/// What the store is asked to do.
#[derive(Debug, Clone, Copy, PartialEq, Eq)]
pub enum StoreOp {
    /// Open a transaction.
    Begin,
    /// Delete every row of this voter.
    DeleteBallot(i32),
    /// Insert this row.
    Insert(Vote),
    /// Commit the open transaction.
    Commit,
    /// Roll the open transaction back.
    Rollback,
}

/// How far a submission has come.
#[derive(Debug, Clone, Copy, PartialEq, Eq)]
pub enum Phase {
    /// The transaction is to be opened.
    Opening,
    /// The voter's rows are to be deleted.
    Deleting,
    /// The row with this index is to be inserted.
    Inserting(usize),
    /// The transaction is to be committed.
    Committing,
    /// The transaction is to be rolled back.
    Undoing,
    /// The new ballot is stored.
    Saved,
    /// The submission failed; the old ballot stands.
    Failed,
}

/// A ballot on its way into the store.
#[derive(Debug)]
pub struct Submission {
    uid: i32,
    rows: Vec<Vote>,
    phase: Phase,
}

/// A submission as a mathematical value.
pub struct Progress {
    pub uid: i32,
    pub rows: Seq<Vote>,
    pub phase: Phase,
}

impl View for Submission {
    type V = Progress;

    closed spec fn view(&self) -> Progress {
        Progress { uid: self.uid, rows: self.rows@, phase: self.phase }
    }
}

/// A row index that is being inserted lies within the rows.
pub open spec fn in_range(p: Progress) -> bool {
    match p.phase {
        Phase::Inserting(k) => k < p.rows.len(),
        _ => true,
    }
}

/// A fresh submission of the ranking `items` by voter `uid`.
pub open spec fn fresh(uid: i32, items: Seq<i32>) -> Progress {
    Progress { uid, rows: ballot_rows(uid, items), phase: Phase::Opening }
}

/// The operation that the store is to carry out next, if any is left.
pub open spec fn pending_op(p: Progress) -> Option<StoreOp> {
    match p.phase {
        Phase::Opening => Some(StoreOp::Begin),
        Phase::Deleting => Some(StoreOp::DeleteBallot(p.uid)),
        Phase::Inserting(k) => Some(StoreOp::Insert(p.rows[k as int])),
        Phase::Committing => Some(StoreOp::Commit),
        Phase::Undoing => Some(StoreOp::Rollback),
        Phase::Saved => None,
        Phase::Failed => None,
    }
}

/// The phase that follows once the store has answered: `done` says whether
/// it carried the pending operation out.
pub open spec fn next_phase(p: Progress, done: bool) -> Phase {
    match p.phase {
        Phase::Opening => if done {
            Phase::Deleting
        } else {
            Phase::Failed
        },
        Phase::Deleting => if !done {
            Phase::Undoing
        } else if p.rows.len() == 0 {
            Phase::Committing
        } else {
            Phase::Inserting(0)
        },
        Phase::Inserting(k) => if !done {
            Phase::Undoing
        } else if k + 1 < p.rows.len() {
            Phase::Inserting((k + 1) as usize)
        } else {
            Phase::Committing
        },
        Phase::Committing => if done {
            Phase::Saved
        } else {
            Phase::Failed
        },
        Phase::Undoing => Phase::Failed,
        Phase::Saved => Phase::Saved,
        Phase::Failed => Phase::Failed,
    }
}

/// The submission after the store's answer.
pub open spec fn step(p: Progress, done: bool) -> Progress {
    Progress { uid: p.uid, rows: p.rows, phase: next_phase(p, done) }
}

impl Submission {
    /// A row that is being inserted is one of the submission's rows.
    #[verifier::type_invariant]
    spec fn well_formed(self) -> bool {
        in_range(self@)
    }

    /// Starts the submission of `ballot` for voter `uid`. A ballot that
    /// cannot be stored is refused here, before the store is asked anything.
    pub fn begin(uid: i32, ballot: &Ballot) -> (r: Result<Submission, SubmissionError>)
        ensures
            match r {
                Ok(s) => ballot.votes.len() <= MAX_BALLOT_LEN && ballot.votes@.no_duplicates()
                    && s@ == fresh(uid, ballot.votes@),
                Err(SubmissionError::TooManyItems) => ballot.votes.len() > MAX_BALLOT_LEN,
                Err(SubmissionError::DuplicateItem) => ballot.votes.len() <= MAX_BALLOT_LEN
                    && !ballot.votes@.no_duplicates(),
                Err(SubmissionError::StoreUnavailable) => false,
            },
    {
        match Vote::save_ballot(uid, ballot) {
            Ok(rows) => Ok(Submission { uid, rows, phase: Phase::Opening }),
            Err(e) => Err(e),
        }
    }

    /// How far the submission has come.
    pub fn phase(&self) -> (r: Phase)
        ensures
            r == self@.phase,
            in_range(self@),
    {
        proof {
            use_type_invariant(self);
        }
        self.phase
    }

    /// The operation that the store is to carry out next; none once the
    /// submission is saved or has failed.
    pub fn pending(&self) -> (r: Option<StoreOp>)
        ensures
            r == pending_op(self@),
    {
        proof {
            use_type_invariant(self);
        }
        match self.phase {
            Phase::Opening => Some(StoreOp::Begin),
            Phase::Deleting => Some(StoreOp::DeleteBallot(self.uid)),
            Phase::Inserting(k) => Some(StoreOp::Insert(self.rows[k])),
            Phase::Committing => Some(StoreOp::Commit),
            Phase::Undoing => Some(StoreOp::Rollback),
            Phase::Saved => None,
            Phase::Failed => None,
        }
    }

    /// Takes the store's answer to the pending operation: `done` says
    /// whether the store carried it out.
    pub fn advance(&mut self, done: bool)
        ensures
            final(self)@ == step(old(self)@, done),
    {
        proof {
            use_type_invariant(&*self);
        }
        let phase = self.phase;
        let len = self.rows.len();
        let next = match phase {
            Phase::Opening => if done {
                Phase::Deleting
            } else {
                Phase::Failed
            },
            Phase::Deleting => if !done {
                Phase::Undoing
            } else if len == 0 {
                Phase::Committing
            } else {
                Phase::Inserting(0)
            },
            Phase::Inserting(k) => if !done {
                Phase::Undoing
            } else if k + 1 < len {
                Phase::Inserting(k + 1)
            } else {
                Phase::Committing
            },
            Phase::Committing => if done {
                Phase::Saved
            } else {
                Phase::Failed
            },
            Phase::Undoing => Phase::Failed,
            Phase::Saved => Phase::Saved,
            Phase::Failed => Phase::Failed,
        };
        self.phase = next;
    }

    /// How the submission ended; nothing while an operation is pending.
    pub fn outcome(&self) -> (r: Option<Result<(), SubmissionError>>)
        ensures
            r == match self@.phase {
                Phase::Saved => Some(Ok::<(), SubmissionError>(())),
                Phase::Failed => Some(Err::<(), SubmissionError>(SubmissionError::StoreUnavailable)),
                _ => None,
            },
    {
        match self.phase {
            Phase::Saved => Some(Ok(())),
            Phase::Failed => Some(Err(SubmissionError::StoreUnavailable)),
            _ => None,
        }
    }
}

/// Holds of the rows of voter `uid`.
pub open spec fn is_voter(uid: i32) -> spec_fn(Vote) -> bool {
    |v: Vote| v.user_id == uid
}

/// Holds of the rows of all voters but `uid`.
pub open spec fn not_voter(uid: i32) -> spec_fn(Vote) -> bool {
    |v: Vote| v.user_id != uid
}

/// The stored rows once the voter's ballot has been replaced: the other
/// voters' rows as they were, then the new rows.
pub open spec fn replaced(rows: Seq<Vote>, uid: i32, items: Seq<i32>) -> Seq<Vote> {
    rows.filter(not_voter(uid)) + ballot_rows(uid, items)
}

/// The ranking that the rows hold for voter `uid`, in the rows' order.
pub open spec fn stored_ballot(rows: Seq<Vote>, uid: i32) -> Seq<i32> {
    rows.filter(is_voter(uid)).map_values(|v: Vote| v.item_id)
}

/// A store with transactions, as far as a submission can tell: the rows
/// that every reader sees, and the rows of the open transaction, if one is
/// open.
pub struct StoreModel {
    pub committed: Seq<Vote>,
    pub working: Option<Seq<Vote>>,
}

/// The store after it was asked for `op`. A failed operation changes no
/// rows; a transaction that fails to commit is gone.
pub open spec fn store_after(s: StoreModel, op: StoreOp, done: bool) -> StoreModel {
    match op {
        StoreOp::Begin => if done {
            StoreModel { committed: s.committed, working: Some(s.committed) }
        } else {
            s
        },
        StoreOp::DeleteBallot(uid) => match s.working {
            Some(w) if done => StoreModel {
                committed: s.committed,
                working: Some(w.filter(not_voter(uid))),
            },
            _ => s,
        },
        StoreOp::Insert(row) => match s.working {
            Some(w) if done => StoreModel { committed: s.committed, working: Some(w.push(row)) },
            _ => s,
        },
        StoreOp::Commit => match s.working {
            Some(w) if done => StoreModel { committed: w, working: None },
            _ => StoreModel { committed: s.committed, working: None },
        },
        StoreOp::Rollback => StoreModel { committed: s.committed, working: None },
    }
}

/// The submission and the store after the store has answered the pending
/// operations one after the other, as `answers` says.
pub open spec fn run(p: Progress, s: StoreModel, answers: Seq<bool>) -> (Progress, StoreModel)
    decreases answers.len(),
{
    if answers.len() == 0 {
        (p, s)
    } else {
        match pending_op(p) {
            None => (p, s),
            Some(op) => run(step(p, answers[0]), store_after(s, op, answers[0]), answers.drop_first()),
        }
    }
}

/// What holds of store and submission at every step of replacing the ballot
/// of `uid` by `items`, when the store held `before`.
pub open spec fn consistent(
    p: Progress,
    s: StoreModel,
    before: Seq<Vote>,
    uid: i32,
    items: Seq<i32>,
) -> bool {
    &&& p.uid == uid
    &&& p.rows == ballot_rows(uid, items)
    &&& items.len() <= MAX_BALLOT_LEN
    &&& match p.phase {
        Phase::Opening => s.committed == before && s.working is None,
        Phase::Deleting => s.committed == before && s.working == Some(before),
        Phase::Inserting(k) => k < p.rows.len() && s.committed == before && s.working == Some(
            before.filter(not_voter(uid)) + p.rows.take(k as int),
        ),
        Phase::Committing => s.committed == before && s.working == Some(
            replaced(before, uid, items),
        ),
        Phase::Undoing => s.committed == before,
        Phase::Saved => s.committed == replaced(before, uid, items) && s.working is None,
        Phase::Failed => s.committed == before && s.working is None,
    }
}

/// One answer of the store keeps store and submission consistent.
pub proof fn lemma_step_consistent(
    p: Progress,
    s: StoreModel,
    before: Seq<Vote>,
    uid: i32,
    items: Seq<i32>,
    done: bool,
)
    requires
        consistent(p, s, before, uid, items),
        pending_op(p) is Some,
    ensures
        consistent(step(p, done), store_after(s, pending_op(p).unwrap(), done), before, uid, items),
{
    let kept = before.filter(not_voter(uid));
    match p.phase {
        Phase::Deleting => {
            assert(kept + p.rows.take(0) =~= kept);
            if p.rows.len() == 0 {
                assert(kept =~= kept + p.rows);
            }
        },
        Phase::Inserting(k) => {
            assert((kept + p.rows.take(k as int)).push(p.rows[k as int]) =~= kept + p.rows.take(
                k + 1,
            ));
            if k + 1 >= p.rows.len() {
                assert(p.rows.take(k + 1) =~= p.rows);
            }
        },
        _ => {},
    }
}

/// Atomicity. However the store answers, and wherever a submission is cut
/// short, readers of the store see either the rows from before the
/// submission or the rows with the voter's ballot replaced in full: the
/// latter exactly when the submission is saved. Once it is saved or has
/// failed, no transaction is left open.
pub proof fn lemma_submission_atomic(
    before: Seq<Vote>,
    uid: i32,
    items: Seq<i32>,
    answers: Seq<bool>,
)
    requires
        items.len() <= MAX_BALLOT_LEN,
    ensures
        ({
            let start = StoreModel { committed: before, working: None };
            let (p, s) = run(fresh(uid, items), start, answers);
            &&& p.phase == Phase::Saved ==> s.committed == replaced(before, uid, items)
            &&& p.phase != Phase::Saved ==> s.committed == before
            &&& pending_op(p) is None ==> s.working is None
        }),
{
    let start = StoreModel { committed: before, working: None };
    lemma_run_consistent(fresh(uid, items), start, before, uid, items, answers);
}

proof fn lemma_run_consistent(
    p: Progress,
    s: StoreModel,
    before: Seq<Vote>,
    uid: i32,
    items: Seq<i32>,
    answers: Seq<bool>,
)
    requires
        consistent(p, s, before, uid, items),
    ensures
        consistent(run(p, s, answers).0, run(p, s, answers).1, before, uid, items),
    decreases answers.len(),
{
    if answers.len() > 0 && pending_op(p) is Some {
        lemma_step_consistent(p, s, before, uid, items, answers[0]);
        lemma_run_consistent(
            step(p, answers[0]),
            store_after(s, pending_op(p).unwrap(), answers[0]),
            before,
            uid,
            items,
            answers.drop_first(),
        );
    }
}

/// The number of answers that a submission still needs when none fails.
pub open spec fn steps_left(p: Progress) -> nat {
    match p.phase {
        Phase::Opening => p.rows.len() + 3,
        Phase::Deleting => p.rows.len() + 2,
        Phase::Inserting(k) => (p.rows.len() - k + 1) as nat,
        Phase::Committing => 1,
        Phase::Undoing => 1,
        Phase::Saved => 0,
        Phase::Failed => 0,
    }
}

/// A submission that the store never fails is saved: after the transaction
/// is opened, the old rows are deleted, each new row is inserted and the
/// transaction is committed.
pub proof fn lemma_submission_completes(
    before: Seq<Vote>,
    uid: i32,
    items: Seq<i32>,
    answers: Seq<bool>,
)
    requires
        items.len() <= MAX_BALLOT_LEN,
        answers.len() >= items.len() + 3,
        forall|i: int| 0 <= i < answers.len() ==> answers[i],
    ensures
        ({
            let start = StoreModel { committed: before, working: None };
            let (p, s) = run(fresh(uid, items), start, answers);
            p.phase == Phase::Saved && s.committed == replaced(before, uid, items)
        }),
{
    let start = StoreModel { committed: before, working: None };
    lemma_run_completes(fresh(uid, items), start, answers);
    lemma_submission_atomic(before, uid, items, answers);
}

proof fn lemma_run_completes(p: Progress, s: StoreModel, answers: Seq<bool>)
    requires
        in_range(p),
        p.rows.len() <= MAX_BALLOT_LEN,
        p.phase != Phase::Undoing,
        p.phase != Phase::Failed,
        answers.len() >= steps_left(p),
        forall|i: int| 0 <= i < answers.len() ==> answers[i],
    ensures
        run(p, s, answers).0.phase == Phase::Saved,
    decreases answers.len(),
{
    if answers.len() > 0 && pending_op(p) is Some {
        let rest = answers.drop_first();
        assert forall|i: int| 0 <= i < rest.len() implies rest[i] by {
            assert(rest[i] == answers[i + 1]);
        }
        lemma_run_completes(step(p, true), store_after(s, pending_op(p).unwrap(), true), rest);
    }
}

/// A sequence all of whose entries meet the condition is kept whole.
pub proof fn lemma_filter_all<A>(s: Seq<A>, pred: spec_fn(A) -> bool)
    requires
        forall|i: int| 0 <= i < s.len() ==> pred(s[i]),
    ensures
        s.filter(pred) == s,
    decreases s.len(),
{
    reveal(Seq::filter);
    if s.len() > 0 {
        lemma_filter_all(s.drop_last(), pred);
        assert(s.drop_last().push(s.last()) =~= s);
    }
}

/// Of a sequence none of whose entries meets the condition nothing is kept.
pub proof fn lemma_filter_none<A>(s: Seq<A>, pred: spec_fn(A) -> bool)
    requires
        forall|i: int| 0 <= i < s.len() ==> !pred(s[i]),
    ensures
        s.filter(pred) == Seq::<A>::empty(),
    decreases s.len(),
{
    reveal(Seq::filter);
    if s.len() > 0 {
        lemma_filter_none(s.drop_last(), pred);
    }
}

/// Filtering by a weaker condition first does not change what a stronger
/// one keeps.
pub proof fn lemma_filter_twice<A>(s: Seq<A>, weak: spec_fn(A) -> bool, strong: spec_fn(A) -> bool)
    requires
        forall|x: A| #[trigger] strong(x) ==> weak(x),
    ensures
        s.filter(weak).filter(strong) == s.filter(strong),
    decreases s.len(),
{
    reveal(Seq::filter);
    if s.len() > 0 {
        lemma_filter_twice(s.drop_last(), weak, strong);
        if weak(s.last()) {
            s.drop_last().filter(weak).lemma_filter_push(s.last(), strong);
        }
    }
}

/// What a filter keeps meets the condition.
pub proof fn lemma_filter_keeps<A>(s: Seq<A>, pred: spec_fn(A) -> bool)
    ensures
        forall|i: int| 0 <= i < s.filter(pred).len() ==> pred(#[trigger] s.filter(pred)[i]),
    decreases s.len(),
{
    reveal(Seq::filter);
    if s.len() > 0 {
        lemma_filter_keeps(s.drop_last(), pred);
    }
}

/// Resubmission. Replacing a voter's ballot by the same ranking a second
/// time leaves the store as the first time left it.
pub proof fn lemma_resubmission(rows: Seq<Vote>, uid: i32, items: Seq<i32>)
    ensures
        replaced(replaced(rows, uid, items), uid, items) == replaced(rows, uid, items),
{
    let kept = rows.filter(not_voter(uid));
    let fresh_rows = ballot_rows(uid, items);
    Seq::filter_distributes_over_add(kept, fresh_rows, not_voter(uid));
    lemma_filter_twice(rows, not_voter(uid), not_voter(uid));
    lemma_filter_none(fresh_rows, not_voter(uid));
    assert(kept + Seq::<Vote>::empty() =~= kept);
}

/// After a voter's ballot is replaced the store holds the submitted ranking
/// for that voter, and for every other voter what it held before.
pub proof fn lemma_replaced_ballots(rows: Seq<Vote>, uid: i32, items: Seq<i32>, other: i32)
    requires
        other != uid,
    ensures
        stored_ballot(replaced(rows, uid, items), uid) == items,
        stored_ballot(replaced(rows, uid, items), other) == stored_ballot(rows, other),
{
    let kept = rows.filter(not_voter(uid));
    let fresh_rows = ballot_rows(uid, items);
    Seq::filter_distributes_over_add(kept, fresh_rows, is_voter(uid));
    lemma_filter_keeps(rows, not_voter(uid));
    lemma_filter_none(kept, is_voter(uid));
    lemma_filter_all(fresh_rows, is_voter(uid));
    assert(Seq::<Vote>::empty() + fresh_rows =~= fresh_rows);
    assert(fresh_rows.map_values(|v: Vote| v.item_id) =~= items);
    Seq::filter_distributes_over_add(kept, fresh_rows, is_voter(other));
    lemma_filter_twice(rows, not_voter(uid), is_voter(other));
    lemma_filter_none(fresh_rows, is_voter(other));
    assert(rows.filter(is_voter(other)) + Seq::<Vote>::empty() =~= rows.filter(is_voter(other)));
}

} // verus!
