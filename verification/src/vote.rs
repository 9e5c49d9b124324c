//! Ballots as stored rows, and the two elections that are run over them.
//!
//! A voter's ballot is kept as one row per ranked item, with the item's rank
//! as the row's ordinal. The rows of all voters, by voter and then by
//! ordinal, are the input of every election. The primary election tallies
//! them over the undecided items. The second election takes the winner's
//! entries out of every ballot, so that each later preference moves up, and
//! tallies what is left over the other undecided items.

use crate::tally::{
    irv, lemma_ballot_views, lemma_excluded_is_passed_over, not_id, tally, without_item,
    ElectionResult, Outcome,
};
use itertools::Itertools;
use vstd::prelude::*;

verus! {

/// One ranked preference of one voter.
#[derive(Debug, Clone, Copy, PartialEq, Eq)]
pub struct Vote {
    pub user_id: i32,
    pub item_id: i32,
    pub ordinal: i32,
}

/// A voter's submitted ranking, most preferred item first.
#[derive(Debug, Clone)]
pub struct Ballot {
    pub votes: Vec<i32>,
}

/// The ballot store could not be read or written.
#[derive(Debug, Clone, Copy, PartialEq, Eq)]
pub enum StoreError {
    Unavailable,
}

/// What was read from the ballot store for one election: every stored row,
/// by voter and then by ordinal, and the ids of the undecided items.
#[derive(Debug, Clone)]
pub struct Snapshot {
    pub votes: Vec<Vote>,
    pub undecided: Vec<i32>,
}

/// Why a submitted ballot was not stored.
#[derive(Debug, Clone, Copy, PartialEq, Eq)]
pub enum SubmissionError {
    /// The ballot ranks an item more than once.
    DuplicateItem,
    /// The ballot has more entries than an ordinal can number.
    TooManyItems,
    /// The store failed; the voter's earlier ballot stands.
    StoreUnavailable,
}

/// The most entries a ballot can have: ordinals are `i32` and start at 0.
pub const MAX_BALLOT_LEN: usize = 0x7fff_ffff;

/// The rows that store the ranking `items` of voter `uid`: one row per
/// entry, whose ordinal is the entry's position.
pub open spec fn ballot_rows(uid: i32, items: Seq<i32>) -> Seq<Vote> {
    Seq::new(items.len(), |i: int| Vote { user_id: uid, item_id: items[i], ordinal: i as i32 })
}

/// The rows of a ballot are the voter's, and their ordinals count up from 0
/// without a gap; a ballot without repetition has a row for each item once.
pub proof fn lemma_ballot_rows_ranked(uid: i32, items: Seq<i32>)
    requires
        items.len() <= MAX_BALLOT_LEN,
    ensures
        ballot_rows(uid, items).len() == items.len(),
        forall|i: int|
            0 <= i < items.len() ==> {
                let row = #[trigger] ballot_rows(uid, items)[i];
                row.user_id == uid && row.item_id == items[i] && row.ordinal == i
            },
        items.no_duplicates() ==> forall|i: int, j: int|
            0 <= i < j < items.len() ==> ballot_rows(uid, items)[i].item_id != ballot_rows(
                uid,
                items,
            )[j].item_id,
{
}

/// The runs of consecutive rows of one voter, each run as its item ids in
/// the rows' order.
pub open spec fn grouped(rows: Seq<Vote>) -> Seq<Seq<i32>>
    decreases rows.len(),
{
    if rows.len() == 0 {
        Seq::empty()
    } else {
        let before = grouped(rows.drop_last());
        let row = rows.last();
        if rows.len() >= 2 && rows[rows.len() - 2].user_id == row.user_id {
            before.drop_last().push(before.last().push(row.item_id))
        } else {
            before.push(seq![row.item_id])
        }
    }
}

/// The result of the primary election.
pub open spec fn primary_outcome(rows: Seq<Vote>, undecided: Set<i32>) -> Outcome {
    irv(grouped(rows), undecided)
}

/// The result of the second election: none without an item to exclude,
/// else the tally of the ballots, each without its entries for the excluded
/// item, over the other undecided items.
pub open spec fn runoff_outcome(rows: Seq<Vote>, undecided: Set<i32>, excluded: Option<i32>) -> Outcome {
    match excluded {
        None => Outcome::NoResult,
        Some(x) => irv(grouped(rows).map_values(without_item(x)), undecided.remove(x)),
    }
}

/// The second election comes to what the primary election would come to if
/// the excluded item were no candidate: its entries count for nothing,
/// whether they are taken out of the ballots or passed over.
pub proof fn lemma_runoff_passes_over(rows: Seq<Vote>, undecided: Set<i32>, x: i32)
    requires
        undecided.finite(),
    ensures
        runoff_outcome(rows, undecided, Some(x)) == primary_outcome(rows, undecided.remove(x)),
{
    lemma_excluded_is_passed_over(grouped(rows), undecided.remove(x), x);
}

/// Groups the rows into ballots with itertools' `group_by`, keyed by the
/// voter. Claimed of it: consecutive rows with the same voter form one group,
/// groups come in the rows' order, and within a group the items keep the
/// rows' order.
#[verifier::external_body]
fn group_by_voter(votes: &Vec<Vote>) -> (r: Vec<Vec<i32>>)
    ensures
        r.deep_view() == grouped(votes@),
{
    votes.iter().group_by(|v| v.user_id).into_iter().map(
        |(_, ballot)| ballot.map(|v| v.item_id).collect(),
    ).collect()
}

/// The ballots, each without its entries for item `x`.
fn ballots_without(ballots: &Vec<Vec<i32>>, x: i32) -> (r: Vec<Vec<i32>>)
    ensures
        r.deep_view() == ballots.deep_view().map_values(without_item(x)),
{
    let mut pruned: Vec<Vec<i32>> = Vec::new();
    let mut i: usize = 0;
    proof {
        lemma_ballot_views(ballots);
    }
    while i < ballots.len()
        invariant
            i <= ballots.len(),
            pruned.len() == i,
            forall|k: int| 0 <= k < i ==> (#[trigger] pruned[k])@ == ballots[k]@.filter(not_id(x)),
        decreases ballots.len() - i,
    {
        pruned.push(ids_without(&ballots[i], x));
        i += 1;
    }
    proof {
        lemma_ballot_views(&pruned);
        assert(pruned.deep_view() =~= ballots.deep_view().map_values(without_item(x)));
    }
    pruned
}

/// The ids other than `x`, in their order.
fn ids_without(ids: &Vec<i32>, x: i32) -> (r: Vec<i32>)
    ensures
        r@ == ids@.filter(not_id(x)),
        r@.to_set() == ids@.to_set().remove(x),
{
    let mut kept: Vec<i32> = Vec::new();
    let mut i: usize = 0;
    proof {
        assert(ids@.take(0).filter(not_id(x)) =~= kept@);
        assert(kept@.to_set() =~= ids@.take(0).to_set().remove(x));
    }
    while i < ids.len()
        invariant
            i <= ids.len(),
            kept@ == ids@.take(i as int).filter(not_id(x)),
            kept@.to_set() == ids@.take(i as int).to_set().remove(x),
        decreases ids.len() - i,
    {
        let c = ids[i];
        proof {
            let shorter = ids@.take(i as int);
            assert(ids@.take(i + 1) =~= shorter.push(c));
            shorter.lemma_filter_push(c, not_id(x));
            shorter.lemma_push_to_set_commute(c);
            kept@.lemma_push_to_set_commute(c);
            if c != x {
                assert(shorter.to_set().remove(x).insert(c) =~= shorter.to_set().insert(c).remove(
                    x,
                ));
            } else {
                assert(shorter.to_set().remove(x) =~= shorter.to_set().insert(c).remove(x));
            }
        }
        if c != x {
            kept.push(c);
        }
        i += 1;
    }
    proof {
        assert(ids@.take(ids.len() as int) =~= ids@);
    }
    kept
}

impl Ballot {
    /// Whether the ballot ranks some item more than once.
    pub fn has_duplicates(&self) -> (r: bool)
        ensures
            r == !self.votes@.no_duplicates(),
    {
        let mut i: usize = 0;
        while i < self.votes.len()
            invariant
                i <= self.votes.len(),
                forall|a: int, b: int| 0 <= a < b < i ==> self.votes[a] != self.votes[b],
            decreases self.votes.len() - i,
        {
            let mut j: usize = 0;
            while j < i
                invariant
                    j <= i < self.votes.len(),
                    forall|a: int| 0 <= a < j ==> self.votes[a] != self.votes[i as int],
                decreases i - j,
            {
                if self.votes[j] == self.votes[i] {
                    proof {
                        assert(self.votes@[j as int] == self.votes@[i as int] && j != i);
                    }
                    return true;
                }
                j += 1;
            }
            i += 1;
        }
        false
    }
}

impl Vote {
    /// The rows that are to replace whatever the store holds for voter
    /// `uid`. A ballot that cannot be stored is refused as a whole.
    pub fn save_ballot(uid: i32, ballot: &Ballot) -> (r: Result<Vec<Vote>, SubmissionError>)
        ensures
            match r {
                Ok(rows) => ballot.votes.len() <= MAX_BALLOT_LEN && ballot.votes@.no_duplicates()
                    && rows@ == ballot_rows(uid, ballot.votes@),
                Err(SubmissionError::TooManyItems) => ballot.votes.len() > MAX_BALLOT_LEN,
                Err(SubmissionError::DuplicateItem) => ballot.votes.len() <= MAX_BALLOT_LEN
                    && !ballot.votes@.no_duplicates(),
                Err(SubmissionError::StoreUnavailable) => false,
            },
    {
        if ballot.votes.len() > MAX_BALLOT_LEN {
            return Err(SubmissionError::TooManyItems);
        }
        if ballot.has_duplicates() {
            return Err(SubmissionError::DuplicateItem);
        }
        let mut rows: Vec<Vote> = Vec::new();
        let mut i: usize = 0;
        while i < ballot.votes.len()
            invariant
                i <= ballot.votes.len() <= MAX_BALLOT_LEN,
                rows@ == ballot_rows(uid, ballot.votes@.take(i as int)),
            decreases ballot.votes.len() - i,
        {
            rows.push(Vote { user_id: uid, item_id: ballot.votes[i], ordinal: i as i32 });
            proof {
                assert(rows@ =~= ballot_rows(uid, ballot.votes@.take(i + 1)));
            }
            i += 1;
        }
        proof {
            assert(ballot.votes@.take(ballot.votes.len() as int) =~= ballot.votes@);
        }
        Ok(rows)
    }

    /// Groups the rows into ballots and tallies them over the candidates.
    pub fn election_driver(votes: &Vec<Vote>, candidates: &Vec<i32>) -> (r: ElectionResult)
        ensures
            r.well_formed(),
            r@ == irv(grouped(votes@), candidates@.to_set()),
    {
        let ballots = group_by_voter(votes);
        tally(&ballots, candidates)
    }

    /// The primary election over what was read from the store. A store that
    /// could not be read is reported as such, never as an election without
    /// result.
    pub fn run_election(loaded: &Result<Snapshot, StoreError>) -> (r: Result<
        ElectionResult,
        StoreError,
    >)
        ensures
            match (loaded, r) {
                (Ok(s), Ok(e)) => e.well_formed() && e@ == primary_outcome(
                    s.votes@,
                    s.undecided@.to_set(),
                ),
                (Err(f), Err(g)) => f == g,
                _ => false,
            },
    {
        match loaded {
            Ok(s) => Ok(Vote::election_driver(&s.votes, &s.undecided)),
            Err(f) => Err(*f),
        }
    }

    /// The second election, run off against the item `winner`. Without such
    /// an item there is nothing to run off against, and nothing is asked of
    /// the store.
    pub fn run_second_election(loaded: &Result<Snapshot, StoreError>, winner: Option<i32>) -> (r:
        Result<ElectionResult, StoreError>)
        ensures
            match (winner, loaded, r) {
                (None, _, Ok(e)) => e == ElectionResult::NoResult,
                (Some(x), Ok(s), Ok(e)) => e.well_formed() && e@ == runoff_outcome(
                    s.votes@,
                    s.undecided@.to_set(),
                    winner,
                ),
                (Some(x), Err(f), Err(g)) => f == g,
                _ => false,
            },
    {
        match winner {
            None => Ok(ElectionResult::NoResult),
            Some(x) => match loaded {
                Ok(s) => {
                    let ballots = ballots_without(&group_by_voter(&s.votes), x);
                    let others = ids_without(&s.undecided, x);
                    Ok(tally(&ballots, &others))
                },
                Err(f) => Err(*f),
            },
        }
    }
}

} // verus!
