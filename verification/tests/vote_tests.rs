use prank::tally::ElectionResult;
use prank::vote::{Ballot, Snapshot, StoreError, SubmissionError, Vote};

fn rows(ballots: &[(i32, &[i32])]) -> Vec<Vote> {
    let mut out = Vec::new();
    for (uid, items) in ballots {
        for (rank, item) in items.iter().enumerate() {
            out.push(Vote { user_id: *uid, item_id: *item, ordinal: rank as i32 });
        }
    }
    out
}

const A: i32 = 1;
const B: i32 = 2;
const C: i32 = 3;

#[test]
fn driver_groups_consecutive_rows_of_a_voter() {
    // three voters; were the rows not grouped, each row would be a ballot
    // of its own and 2 would hold three of six
    let votes = rows(&[(10, &[A, B]), (11, &[A, B]), (12, &[B, A])]);
    assert_eq!(Vote::election_driver(&votes, &vec![A, B]), ElectionResult::Winner(A));
}

#[test]
fn driver_keeps_the_order_within_a_ballot() {
    let votes = rows(&[(10, &[B, A]), (11, &[B, A]), (12, &[A, B])]);
    assert_eq!(Vote::election_driver(&votes, &vec![A, B]), ElectionResult::Winner(B));
}

#[test]
fn driver_starts_a_new_ballot_where_the_voter_changes() {
    // voter 10 comes twice, apart: two runs, two ballots
    let votes = vec![
        Vote { user_id: 10, item_id: A, ordinal: 0 },
        Vote { user_id: 11, item_id: B, ordinal: 0 },
        Vote { user_id: 10, item_id: A, ordinal: 1 },
    ];
    assert_eq!(Vote::election_driver(&votes, &vec![A, B]), ElectionResult::Winner(A));
}

#[test]
fn driver_without_rows_has_no_result() {
    assert_eq!(Vote::election_driver(&Vec::new(), &vec![A, B]), ElectionResult::NoResult);
}

#[test]
fn primary_election_tallies_over_the_undecided_items() {
    let loaded = Ok(Snapshot {
        votes: rows(&[(1, &[A, B, C]), (2, &[A, B, C]), (3, &[B, A, C])]),
        undecided: vec![A, B, C],
    });
    assert_eq!(Vote::run_election(&loaded), Ok(ElectionResult::Winner(A)));
}

#[test]
fn primary_election_passes_over_decided_items() {
    // A is decided: every ballot counts for its next entry
    let loaded = Ok(Snapshot {
        votes: rows(&[(1, &[A, B, C]), (2, &[A, C, B]), (3, &[C, A, B])]),
        undecided: vec![B, C],
    });
    assert_eq!(Vote::run_election(&loaded), Ok(ElectionResult::Winner(C)));
}

#[test]
fn unreadable_store_is_no_election_result() {
    let loaded: Result<Snapshot, StoreError> = Err(StoreError::Unavailable);
    assert_eq!(Vote::run_election(&loaded), Err(StoreError::Unavailable));
    assert_eq!(Vote::run_second_election(&loaded, Some(A)), Err(StoreError::Unavailable));
}

#[test]
fn runoff_without_a_winner_has_no_result() {
    let loaded = Ok(Snapshot { votes: rows(&[(1, &[A, B])]), undecided: vec![A, B] });
    assert_eq!(Vote::run_second_election(&loaded, None), Ok(ElectionResult::NoResult));
    let unread: Result<Snapshot, StoreError> = Err(StoreError::Unavailable);
    assert_eq!(Vote::run_second_election(&unread, None), Ok(ElectionResult::NoResult));
}

#[test]
fn runoff_takes_the_winner_out_of_every_ballot() {
    let loaded = Ok(Snapshot {
        votes: rows(&[(1, &[A, B, C]), (2, &[A, B, C]), (3, &[B, A, C])]),
        undecided: vec![A, B, C],
    });
    assert_eq!(Vote::run_election(&loaded), Ok(ElectionResult::Winner(A)));
    // without A the ballots read [B, C], [B, C], [B, C]
    assert_eq!(Vote::run_second_election(&loaded, Some(A)), Ok(ElectionResult::Winner(B)));
}

#[test]
fn runoff_moves_later_preferences_up() {
    // A wins with three of five. Without A: [C], [C, B], [B], [B, C], [C]
    let loaded = Ok(Snapshot {
        votes: rows(&[(1, &[A, C]), (2, &[A, C, B]), (3, &[B, A]), (4, &[B, C]), (5, &[A, C])]),
        undecided: vec![A, B, C],
    });
    assert_eq!(Vote::run_election(&loaded), Ok(ElectionResult::Winner(A)));
    assert_eq!(Vote::run_second_election(&loaded, Some(A)), Ok(ElectionResult::Winner(C)));
}

#[test]
fn runoff_drops_voters_who_ranked_only_the_winner() {
    // voters 1 and 2 ranked A alone: without A, B holds the one ballot left
    let loaded = Ok(Snapshot {
        votes: rows(&[(1, &[A]), (2, &[A]), (3, &[B])]),
        undecided: vec![A, B],
    });
    assert_eq!(Vote::run_election(&loaded), Ok(ElectionResult::Winner(A)));
    assert_eq!(Vote::run_second_election(&loaded, Some(A)), Ok(ElectionResult::Winner(B)));
}

#[test]
fn runoff_never_returns_the_excluded_item() {
    let loaded = Ok(Snapshot { votes: rows(&[(1, &[A]), (2, &[A])]), undecided: vec![A] });
    assert_eq!(Vote::run_second_election(&loaded, Some(A)), Ok(ElectionResult::NoResult));
}

#[test]
fn runoff_is_the_same_as_passing_over_the_winner() {
    // taking the entries out and passing them over while counting agree
    let votes = rows(&[(1, &[A, B, C]), (2, &[C, A, B]), (3, &[B, A, C]), (4, &[A, C])]);
    let loaded = Ok(Snapshot { votes: votes.clone(), undecided: vec![A, B, C] });
    let excluded = Vote::run_second_election(&loaded, Some(A)).unwrap();
    let passed_over = Vote::election_driver(&votes, &vec![B, C]);
    assert_eq!(excluded, passed_over);
    assert_eq!(excluded, ElectionResult::Tie(vec![B, C]));
}

#[test]
fn saved_ballot_has_one_row_per_entry_ranked_by_position() {
    let ballot = Ballot { votes: vec![30, 10, 20] };
    assert_eq!(
        Vote::save_ballot(7, &ballot),
        Ok(vec![
            Vote { user_id: 7, item_id: 30, ordinal: 0 },
            Vote { user_id: 7, item_id: 10, ordinal: 1 },
            Vote { user_id: 7, item_id: 20, ordinal: 2 },
        ])
    );
}

#[test]
fn empty_ballot_is_saved_as_no_rows() {
    assert_eq!(Vote::save_ballot(7, &Ballot { votes: Vec::new() }), Ok(Vec::new()));
}

#[test]
fn ballot_with_a_repeated_item_is_refused() {
    let ballot = Ballot { votes: vec![A, B, A] };
    assert!(ballot.has_duplicates());
    assert_eq!(Vote::save_ballot(7, &ballot), Err(SubmissionError::DuplicateItem));
}

#[test]
fn ballot_without_repetition_has_no_duplicates() {
    assert!(!Ballot { votes: vec![A, B, C] }.has_duplicates());
    assert!(!Ballot { votes: vec![A] }.has_duplicates());
    assert!(!Ballot { votes: Vec::new() }.has_duplicates());
    assert!(Ballot { votes: vec![C, C] }.has_duplicates());
    assert!(Ballot { votes: vec![A, B, C, B] }.has_duplicates());
}

#[test]
fn saving_the_same_ballot_twice_gives_the_same_rows() {
    let ballot = Ballot { votes: vec![C, A, B] };
    assert_eq!(Vote::save_ballot(4, &ballot), Vote::save_ballot(4, &ballot));
}
