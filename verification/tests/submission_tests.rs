use prank::submission::{Phase, StoreOp, Submission};
use prank::vote::{Ballot, SubmissionError, Vote};

/// A store with transactions, of which the operation with a given number
/// fails.
struct MemStore {
    committed: Vec<Vote>,
    working: Option<Vec<Vote>>,
    fail_at: Option<usize>,
    asked: Vec<StoreOp>,
}

impl MemStore {
    fn holding(rows: Vec<Vote>, fail_at: Option<usize>) -> MemStore {
        MemStore { committed: rows, working: None, fail_at, asked: Vec::new() }
    }

    fn perform(&mut self, op: StoreOp) -> bool {
        let number = self.asked.len();
        self.asked.push(op);
        let done = self.fail_at != Some(number);
        match op {
            StoreOp::Begin => {
                if done {
                    self.working = Some(self.committed.clone());
                }
            }
            StoreOp::DeleteBallot(uid) => {
                if let (true, Some(w)) = (done, self.working.as_mut()) {
                    w.retain(|v| v.user_id != uid);
                }
            }
            StoreOp::Insert(row) => {
                if let (true, Some(w)) = (done, self.working.as_mut()) {
                    w.push(row);
                }
            }
            StoreOp::Commit => {
                let w = self.working.take();
                if let (true, Some(w)) = (done, w) {
                    self.committed = w;
                }
            }
            StoreOp::Rollback => {
                self.working = None;
            }
        }
        done
    }

    fn ballot_of(&self, uid: i32) -> Vec<i32> {
        let mut rows: Vec<Vote> =
            self.committed.iter().filter(|v| v.user_id == uid).cloned().collect();
        rows.sort_by_key(|v| v.ordinal);
        rows.iter().map(|v| v.item_id).collect()
    }
}

fn submit(store: &mut MemStore, uid: i32, items: Vec<i32>) -> Result<(), SubmissionError> {
    let mut submission = Submission::begin(uid, &Ballot { votes: items })?;
    while let Some(op) = submission.pending() {
        let done = store.perform(op);
        submission.advance(done);
    }
    submission.outcome().unwrap()
}

fn earlier_rows() -> Vec<Vote> {
    vec![
        Vote { user_id: 1, item_id: 5, ordinal: 0 },
        Vote { user_id: 1, item_id: 6, ordinal: 1 },
        Vote { user_id: 2, item_id: 6, ordinal: 0 },
    ]
}

#[test]
fn submission_asks_for_one_transaction() {
    let mut store = MemStore::holding(earlier_rows(), None);
    assert_eq!(submit(&mut store, 1, vec![7, 8]), Ok(()));
    assert_eq!(
        store.asked,
        vec![
            StoreOp::Begin,
            StoreOp::DeleteBallot(1),
            StoreOp::Insert(Vote { user_id: 1, item_id: 7, ordinal: 0 }),
            StoreOp::Insert(Vote { user_id: 1, item_id: 8, ordinal: 1 }),
            StoreOp::Commit,
        ]
    );
}

#[test]
fn submission_replaces_the_voters_ballot_only() {
    let mut store = MemStore::holding(earlier_rows(), None);
    assert_eq!(submit(&mut store, 1, vec![7, 8, 5]), Ok(()));
    assert_eq!(store.ballot_of(1), vec![7, 8, 5]);
    assert_eq!(store.ballot_of(2), vec![6]);
    assert_eq!(store.working, None);
}

#[test]
fn first_submission_of_a_voter_is_stored() {
    let mut store = MemStore::holding(earlier_rows(), None);
    assert_eq!(submit(&mut store, 3, vec![9]), Ok(()));
    assert_eq!(store.ballot_of(3), vec![9]);
    assert_eq!(store.ballot_of(1), vec![5, 6]);
}

#[test]
fn empty_submission_clears_the_ballot() {
    let mut store = MemStore::holding(earlier_rows(), None);
    assert_eq!(submit(&mut store, 1, Vec::new()), Ok(()));
    assert_eq!(store.ballot_of(1), Vec::<i32>::new());
    assert_eq!(store.asked, vec![StoreOp::Begin, StoreOp::DeleteBallot(1), StoreOp::Commit]);
}

#[test]
fn failed_submission_leaves_the_earlier_ballot() {
    // Begin, DeleteBallot, three inserts, Commit: each in turn fails
    for fail_at in 0..6 {
        let mut store = MemStore::holding(earlier_rows(), Some(fail_at));
        assert_eq!(
            submit(&mut store, 1, vec![7, 8, 9]),
            Err(SubmissionError::StoreUnavailable),
            "operation {} failed",
            fail_at
        );
        assert_eq!(store.committed, earlier_rows(), "operation {} failed", fail_at);
        assert_eq!(store.ballot_of(1), vec![5, 6]);
        assert_eq!(store.working, None);
    }
}

#[test]
fn failed_first_submission_leaves_no_ballot() {
    for fail_at in 0..5 {
        let mut store = MemStore::holding(earlier_rows(), Some(fail_at));
        assert_eq!(submit(&mut store, 3, vec![7, 8]), Err(SubmissionError::StoreUnavailable));
        assert_eq!(store.ballot_of(3), Vec::<i32>::new());
        assert_eq!(store.committed, earlier_rows());
    }
}

#[test]
fn failure_inside_the_transaction_is_rolled_back() {
    // the second insert fails
    let mut store = MemStore::holding(earlier_rows(), Some(3));
    assert_eq!(submit(&mut store, 1, vec![7, 8, 9]), Err(SubmissionError::StoreUnavailable));
    assert_eq!(store.asked.len(), 5);
    assert_eq!(store.asked[4], StoreOp::Rollback);
}

#[test]
fn failure_to_open_the_transaction_asks_nothing_more() {
    let mut store = MemStore::holding(earlier_rows(), Some(0));
    assert_eq!(submit(&mut store, 1, vec![7]), Err(SubmissionError::StoreUnavailable));
    assert_eq!(store.asked, vec![StoreOp::Begin]);
}

#[test]
fn failed_rollback_is_still_a_failed_submission() {
    let mut submission = Submission::begin(1, &Ballot { votes: vec![7] }).unwrap();
    submission.advance(true);
    submission.advance(false);
    assert_eq!(submission.pending(), Some(StoreOp::Rollback));
    submission.advance(false);
    assert_eq!(submission.phase(), Phase::Failed);
    assert_eq!(submission.outcome(), Some(Err(SubmissionError::StoreUnavailable)));
}

#[test]
fn resubmission_stores_the_same_ranks() {
    let mut store = MemStore::holding(earlier_rows(), None);
    assert_eq!(submit(&mut store, 1, vec![8, 7]), Ok(()));
    let once = store.committed.clone();
    assert_eq!(submit(&mut store, 1, vec![8, 7]), Ok(()));
    assert_eq!(store.committed, once);
    assert_eq!(store.ballot_of(1), vec![8, 7]);
}

#[test]
fn duplicate_is_refused_before_the_store_is_asked() {
    let mut store = MemStore::holding(earlier_rows(), None);
    assert_eq!(submit(&mut store, 1, vec![7, 8, 7]), Err(SubmissionError::DuplicateItem));
    assert_eq!(store.asked, Vec::new());
    assert_eq!(store.committed, earlier_rows());
}

#[test]
fn submission_moves_through_its_phases() {
    let mut submission = Submission::begin(4, &Ballot { votes: vec![1, 2] }).unwrap();
    assert_eq!(submission.phase(), Phase::Opening);
    assert_eq!(submission.outcome(), None);
    submission.advance(true);
    assert_eq!(submission.phase(), Phase::Deleting);
    submission.advance(true);
    assert_eq!(submission.phase(), Phase::Inserting(0));
    submission.advance(true);
    assert_eq!(submission.phase(), Phase::Inserting(1));
    submission.advance(true);
    assert_eq!(submission.phase(), Phase::Committing);
    submission.advance(true);
    assert_eq!(submission.phase(), Phase::Saved);
    assert_eq!(submission.pending(), None);
    assert_eq!(submission.outcome(), Some(Ok(())));
    submission.advance(false);
    assert_eq!(submission.phase(), Phase::Saved);
}

#[test]
fn failed_commit_is_a_failed_submission() {
    let mut submission = Submission::begin(4, &Ballot { votes: Vec::new() }).unwrap();
    submission.advance(true);
    submission.advance(true);
    assert_eq!(submission.pending(), Some(StoreOp::Commit));
    submission.advance(false);
    assert_eq!(submission.phase(), Phase::Failed);
}
