//! Instant-runoff tallying with a remaining majority.
//!
//! A ballot is a sequence of item ids, most preferred first. In every round a
//! ballot counts for the first of its entries that is still an active
//! candidate; a ballot without such an entry is exhausted and does not count
//! towards the total. A candidate with more than half of the counted ballots
//! wins. Without a winner the candidate with the fewest ballots leaves, and
//! among several with the fewest, the one with the lowest id. When all
//! remaining candidates hold equally many ballots, they tie.

use vstd::prelude::*;
use vstd::seq_lib::seq_to_set_is_finite;

verus! {

/// What an election comes to, as a mathematical value.
pub enum Outcome {
    /// One candidate holds more than half of the counted ballots.
    Winner(i32),
    /// The remaining candidates hold equally many ballots each.
    Tie(Set<i32>),
    /// No ballot names an active candidate.
    NoResult,
}

/// The first entry of `ballot` that is an active candidate.
pub open spec fn top_choice(ballot: Seq<i32>, active: Set<i32>) -> Option<i32>
    decreases ballot.len(),
{
    if ballot.len() == 0 {
        None
    } else if active.contains(ballot[0]) {
        Some(ballot[0])
    } else {
        top_choice(ballot.drop_first(), active)
    }
}

/// The number of ballots whose top choice is `c`.
pub open spec fn votes_for(ballots: Seq<Seq<i32>>, active: Set<i32>, c: i32) -> nat
    decreases ballots.len(),
{
    if ballots.len() == 0 {
        0
    } else {
        let rest = votes_for(ballots.drop_last(), active, c);
        if top_choice(ballots.last(), active) == Some(c) {
            rest + 1
        } else {
            rest
        }
    }
}

/// The number of ballots that are not exhausted.
pub open spec fn live_ballots(ballots: Seq<Seq<i32>>, active: Set<i32>) -> nat
    decreases ballots.len(),
{
    if ballots.len() == 0 {
        0
    } else {
        let rest = live_ballots(ballots.drop_last(), active);
        if top_choice(ballots.last(), active).is_some() {
            rest + 1
        } else {
            rest
        }
    }
}

/// The number of ballots a candidate needs to win among `total` counted ones.
pub open spec fn majority_threshold(total: nat) -> nat {
    total / 2 + 1
}

/// `c` is an active candidate that reaches the majority threshold.
pub open spec fn has_majority(ballots: Seq<Seq<i32>>, active: Set<i32>, c: i32) -> bool {
    active.contains(c) && votes_for(ballots, active, c) >= majority_threshold(
        live_ballots(ballots, active),
    )
}

/// All active candidates hold equally many ballots.
pub open spec fn all_level(ballots: Seq<Seq<i32>>, active: Set<i32>) -> bool {
    forall|c: i32, d: i32|
        active.contains(c) && active.contains(d) ==> votes_for(ballots, active, c) == votes_for(
            ballots,
            active,
            d,
        )
}

/// `c` comes before `d` when candidates are ordered by ballots held, then by id.
pub open spec fn ranks_below(ballots: Seq<Seq<i32>>, active: Set<i32>, c: i32, d: i32) -> bool {
    votes_for(ballots, active, c) < votes_for(ballots, active, d) || (votes_for(ballots, active, c)
        == votes_for(ballots, active, d) && c <= d)
}

/// `c` is the candidate that leaves this round: it holds the fewest ballots,
/// and among those with the fewest it has the lowest id.
pub open spec fn is_lowest(ballots: Seq<Seq<i32>>, active: Set<i32>, c: i32) -> bool {
    active.contains(c) && forall|d: i32|
        active.contains(d) ==> ranks_below(ballots, active, c, d)
}

/// The candidate that leaves this round.
pub open spec fn lowest(ballots: Seq<Seq<i32>>, active: Set<i32>) -> i32 {
    choose|c: i32| is_lowest(ballots, active, c)
}

/// Among finitely many candidates, one at least, some candidate is the lowest.
pub proof fn lemma_lowest_exists(ballots: Seq<Seq<i32>>, active: Set<i32>)
    requires
        active.finite(),
        !active.is_empty(),
    ensures
        is_lowest(ballots, active, lowest(ballots, active)),
        active.contains(lowest(ballots, active)),
{
    lemma_least_in(ballots, active, active);
    let c = choose|c: i32| least_in(ballots, active, active, c);
    assert(is_lowest(ballots, active, c));
}

/// `c` is in `part` and ranks below every member of `part`, counting over `active`.
pub open spec fn least_in(
    ballots: Seq<Seq<i32>>,
    active: Set<i32>,
    part: Set<i32>,
    c: i32,
) -> bool {
    part.contains(c) && forall|d: i32| part.contains(d) ==> ranks_below(ballots, active, c, d)
}

proof fn lemma_least_in(ballots: Seq<Seq<i32>>, active: Set<i32>, part: Set<i32>)
    requires
        part.finite(),
        !part.is_empty(),
    ensures
        exists|c: i32| least_in(ballots, active, part, c),
    decreases part.len(),
{
    let x = part.choose();
    let rest = part.remove(x);
    if rest.is_empty() {
        assert forall|d: i32| part.contains(d) implies d == x by {
            if d != x {
                assert(rest.contains(d));
            }
        }
        assert(least_in(ballots, active, part, x));
    } else {
        lemma_least_in(ballots, active, rest);
        let m = choose|c: i32| least_in(ballots, active, rest, c);
        if ranks_below(ballots, active, x, m) {
            assert forall|d: i32| part.contains(d) implies ranks_below(
                ballots,
                active,
                x,
                d,
            ) by {
                if d != x {
                    assert(rest.contains(d));
                    assert(ranks_below(ballots, active, m, d));
                }
            }
            assert(least_in(ballots, active, part, x));
        } else {
            assert forall|d: i32| part.contains(d) implies ranks_below(
                ballots,
                active,
                m,
                d,
            ) by {
                if d != x {
                    assert(rest.contains(d));
                }
            }
            assert(least_in(ballots, active, part, m));
        }
    }
}

/// The result of instant-runoff tallying over the active candidates.
pub open spec fn irv(ballots: Seq<Seq<i32>>, active: Set<i32>) -> Outcome
    decreases active.len(),
    when active.finite()
{
    if live_ballots(ballots, active) == 0 {
        Outcome::NoResult
    } else if exists|c: i32| has_majority(ballots, active, c) {
        Outcome::Winner(choose|c: i32| has_majority(ballots, active, c))
    } else if all_level(ballots, active) {
        Outcome::Tie(active)
    } else {
        proof {
            if active.is_empty() {
                assert(all_level(ballots, active));
            }
            lemma_lowest_exists(ballots, active);
        }
        irv(ballots, active.remove(lowest(ballots, active)))
    }
}


/// Strictly ascending, hence without repetition.
pub open spec fn ascending(s: Seq<i32>) -> bool {
    forall|i: int, j: int| 0 <= i < j < s.len() ==> s[i] < s[j]
}

/// A ballot none of whose entries is active is exhausted.
pub proof fn lemma_top_choice_none(ballot: Seq<i32>, active: Set<i32>)
    requires
        forall|k: int| 0 <= k < ballot.len() ==> !active.contains(ballot[k]),
    ensures
        top_choice(ballot, active) is None,
    decreases ballot.len(),
{
    if ballot.len() > 0 {
        let rest = ballot.drop_first();
        assert forall|k: int| 0 <= k < rest.len() implies !active.contains(rest[k]) by {
            assert(rest[k] == ballot[k + 1]);
        }
        lemma_top_choice_none(rest, active);
    }
}

/// The first active entry of a ballot is its top choice.
pub proof fn lemma_top_choice_at(ballot: Seq<i32>, active: Set<i32>, j: int)
    requires
        0 <= j < ballot.len(),
        active.contains(ballot[j]),
        forall|k: int| 0 <= k < j ==> !active.contains(ballot[k]),
    ensures
        top_choice(ballot, active) == Some(ballot[j]),
    decreases j,
{
    if j > 0 {
        let rest = ballot.drop_first();
        assert(rest[j - 1] == ballot[j]);
        assert forall|k: int| 0 <= k < j - 1 implies !active.contains(rest[k]) by {
            assert(rest[k] == ballot[k + 1]);
        }
        lemma_top_choice_at(rest, active, j - 1);
    }
}

/// A top choice is an active candidate.
pub proof fn lemma_top_choice_active(ballot: Seq<i32>, active: Set<i32>)
    ensures
        top_choice(ballot, active) matches Some(c) ==> active.contains(c),
    decreases ballot.len(),
{
    if ballot.len() > 0 && !active.contains(ballot[0]) {
        lemma_top_choice_active(ballot.drop_first(), active);
    }
}

/// No candidate holds more ballots than are counted, and only active
/// candidates hold any.
pub proof fn lemma_votes_bounded(ballots: Seq<Seq<i32>>, active: Set<i32>, c: i32)
    ensures
        votes_for(ballots, active, c) <= live_ballots(ballots, active) <= ballots.len(),
        votes_for(ballots, active, c) > 0 ==> active.contains(c),
    decreases ballots.len(),
{
    if ballots.len() > 0 {
        lemma_votes_bounded(ballots.drop_last(), active, c);
        lemma_top_choice_active(ballots.last(), active);
    }
}

/// Two candidates never share a ballot.
pub proof fn lemma_votes_disjoint(ballots: Seq<Seq<i32>>, active: Set<i32>, c: i32, d: i32)
    requires
        c != d,
    ensures
        votes_for(ballots, active, c) + votes_for(ballots, active, d) <= live_ballots(
            ballots,
            active,
        ),
    decreases ballots.len(),
{
    if ballots.len() > 0 {
        lemma_votes_disjoint(ballots.drop_last(), active, c, d);
    }
}

/// At most one candidate reaches the majority threshold.
pub proof fn lemma_majority_unique(ballots: Seq<Seq<i32>>, active: Set<i32>, c: i32, d: i32)
    requires
        has_majority(ballots, active, c),
        has_majority(ballots, active, d),
    ensures
        c == d,
{
    if c != d {
        lemma_votes_disjoint(ballots, active, c, d);
    }
}

/// The ballots as sequences of item ids.
pub proof fn lemma_ballot_views(ballots: &Vec<Vec<i32>>)
    ensures
        ballots.deep_view().len() == ballots.len(),
        forall|i: int| 0 <= i < ballots.len() ==> #[trigger] ballots.deep_view()[i] == ballots[i]@,
{
    assert forall|i: int| 0 <= i < ballots.len() implies #[trigger] ballots.deep_view()[i]
        == ballots[i]@ by {
        assert(ballots@[i].deep_view() =~= ballots@[i]@);
    }
}

/// The place of `c` among the active candidates.
fn position_in(active: &Vec<i32>, c: i32) -> (r: Option<usize>)
    ensures
        match r {
            Some(p) => p < active.len() && active[p as int] == c,
            None => !active@.to_set().contains(c),
        },
{
    let mut p: usize = 0;
    while p < active.len()
        invariant
            p <= active.len(),
            forall|k: int| 0 <= k < p ==> active[k] != c,
        decreases active.len() - p,
    {
        if active[p] == c {
            return Some(p);
        }
        p += 1;
    }
    None
}

/// The place, among the active candidates, of the ballot's top choice.
fn first_active(ballot: &Vec<i32>, active: &Vec<i32>) -> (r: Option<usize>)
    ensures
        match r {
            Some(p) => p < active.len() && top_choice(ballot@, active@.to_set()) == Some(
                active[p as int],
            ),
            None => top_choice(ballot@, active@.to_set()) is None,
        },
{
    let mut j: usize = 0;
    while j < ballot.len()
        invariant
            j <= ballot.len(),
            forall|k: int| 0 <= k < j ==> !active@.to_set().contains(ballot[k]),
        decreases ballot.len() - j,
    {
        match position_in(active, ballot[j]) {
            Some(p) => {
                proof {
                    assert(active@.contains(ballot[j as int]));
                    lemma_top_choice_at(ballot@, active@.to_set(), j as int);
                }
                return Some(p);
            },
            None => {},
        }
        j += 1;
    }
    proof {
        lemma_top_choice_none(ballot@, active@.to_set());
    }
    None
}

/// One round of counting: the ballots held by each active candidate, in the
/// candidates' order, and the number of ballots counted.
fn count_round(ballots: &Vec<Vec<i32>>, active: &Vec<i32>) -> (r: (Vec<usize>, usize))
    requires
        ascending(active@),
    ensures
        r.0.len() == active.len(),
        forall|k: int|
            0 <= k < active.len() ==> r.0[k] == votes_for(
                ballots.deep_view(),
                active@.to_set(),
                #[trigger] active[k],
            ),
        r.1 == live_ballots(ballots.deep_view(), active@.to_set()),
{
    let ghost all = ballots.deep_view();
    let ghost set = active@.to_set();
    proof {
        lemma_ballot_views(ballots);
    }
    let mut counts: Vec<usize> = Vec::new();
    let mut k: usize = 0;
    while k < active.len()
        invariant
            k <= active.len(),
            counts.len() == k,
            forall|i: int| 0 <= i < k ==> counts[i] == 0,
        decreases active.len() - k,
    {
        counts.push(0);
        k += 1;
    }
    let mut total: usize = 0;
    let mut i: usize = 0;
    while i < ballots.len()
        invariant
            i <= ballots.len(),
            ascending(active@),
            all == ballots.deep_view(),
            set == active@.to_set(),
            all.len() == ballots.len(),
            forall|n: int| 0 <= n < ballots.len() ==> #[trigger] all[n] == ballots[n]@,
            counts.len() == active.len(),
            forall|k: int|
                0 <= k < active.len() ==> counts[k] == votes_for(
                    all.take(i as int),
                    set,
                    #[trigger] active[k],
                ),
            total == live_ballots(all.take(i as int), set),
            total <= i,
        decreases ballots.len() - i,
    {
        let ghost before = all.take(i as int);
        let ghost after = all.take(i + 1);
        proof {
            assert(after.drop_last() =~= before);
            assert(after.last() == ballots[i as int]@);
        }
        match first_active(&ballots[i], active) {
            Some(p) => {
                proof {
                    lemma_votes_bounded(before, set, active[p as int]);
                }
                let held = counts[p];
                counts.set(p, held + 1);
                total += 1;
            },
            None => {},
        }
        i += 1;
    }
    proof {
        assert(all.take(ballots.len() as int) =~= all);
    }
    (counts, total)
}


/// What an election comes to.
#[derive(Debug, Clone, PartialEq, Eq)]
pub enum ElectionResult {
    /// One candidate holds more than half of the counted ballots.
    Winner(i32),
    /// The remaining candidates, by ascending id, hold equally many ballots each.
    Tie(Vec<i32>),
    /// No ballot names an active candidate.
    NoResult,
}

impl View for ElectionResult {
    type V = Outcome;

    open spec fn view(&self) -> Outcome {
        match self {
            ElectionResult::Winner(c) => Outcome::Winner(*c),
            ElectionResult::Tie(v) => Outcome::Tie(v@.to_set()),
            ElectionResult::NoResult => Outcome::NoResult,
        }
    }
}

/// `c` is one of the ids, and none of them is lower.
pub open spec fn is_least(ids: Set<i32>, c: i32) -> bool {
    ids.contains(c) && forall|d: i32| ids.contains(d) ==> c <= d
}

/// The lowest of the ids.
pub open spec fn least(ids: Set<i32>) -> i32 {
    choose|c: i32| is_least(ids, c)
}

/// The first of an ascending list is the lowest of its ids.
pub proof fn lemma_first_is_least(v: Seq<i32>)
    requires
        ascending(v),
        v.len() > 0,
    ensures
        least(v.to_set()) == v[0],
{
    let ids = v.to_set();
    assert(v.contains(v[0]));
    assert forall|d: i32| ids.contains(d) implies v[0] <= d by {
        let k = choose|k: int| 0 <= k < v.len() && v[k] == d;
        if k > 0 {
            assert(v[0] < v[k]);
        }
    }
    assert(is_least(ids, v[0]));
    assert(is_least(ids, least(ids)));
}

impl Outcome {
    /// The item to put forward: the winner, or of tied candidates the one
    /// with the lowest id.
    pub open spec fn choice(self) -> Option<i32> {
        match self {
            Outcome::Winner(c) => Some(c),
            Outcome::Tie(ids) => Some(least(ids)),
            Outcome::NoResult => None,
        }
    }
}

impl ElectionResult {
    /// A tie lists two candidates at least, by strictly ascending id.
    pub open spec fn well_formed(&self) -> bool {
        match self {
            ElectionResult::Tie(v) => ascending(v@) && v.len() >= 2,
            _ => true,
        }
    }

    /// The item to put forward: the winner, or of tied candidates the first
    /// listed, which in a well-formed result is the one with the lowest id.
    pub fn choice(&self) -> (r: Option<i32>)
        ensures
            r == match self {
                ElectionResult::Winner(c) => Some(*c),
                ElectionResult::Tie(v) => if v.len() > 0 {
                    Some(v[0])
                } else {
                    None
                },
                ElectionResult::NoResult => None,
            },
            self.well_formed() ==> r == self@.choice(),
    {
        proof {
            if let ElectionResult::Tie(v) = self {
                if self.well_formed() {
                    lemma_first_is_least(v@);
                }
            }
        }
        match self {
            ElectionResult::Winner(c) => Some(*c),
            ElectionResult::Tie(v) => if v.len() > 0 {
                Some(v[0])
            } else {
                None
            },
            ElectionResult::NoResult => None,
        }
    }
}

/// Puts `c` in its place in an ascending list, unless it is there already.
fn insert_ascending(v: &mut Vec<i32>, c: i32)
    requires
        ascending(old(v)@),
    ensures
        ascending(final(v)@),
        final(v)@.to_set() == old(v)@.to_set().insert(c),
{
    let ghost before = v@;
    let mut p: usize = 0;
    while p < v.len() && v[p] < c
        invariant
            p <= v.len(),
            v@ == before,
            forall|k: int| 0 <= k < p ==> v[k] < c,
        decreases v.len() - p,
    {
        p += 1;
    }
    if p < v.len() && v[p] == c {
        proof {
            assert(before.contains(c));
            assert(before.to_set().insert(c) =~= before.to_set());
        }
        return ;
    }
    v.insert(p, c);
    proof {
        let after = v@;
        assert(after == before.insert(p as int, c));
        assert forall|i: int, j: int| 0 <= i < j < after.len() implies after[i] < after[j] by {
            if j < p {
            } else if j == p {
            } else if i < p {
                assert(after[j] == before[j - 1]);
                assert(before[p as int] <= before[j - 1]);
            } else if i == p {
                assert(after[j] == before[j - 1]);
                assert(before[p as int] <= before[j - 1]);
            } else {
                assert(after[i] == before[i - 1]);
                assert(after[j] == before[j - 1]);
            }
        }
        assert forall|x: i32| after.to_set().contains(x) <==> before.to_set().insert(c).contains(
            x,
        ) by {
            if before.contains(x) {
                let k = choose|k: int| 0 <= k < before.len() && before[k] == x;
                if k < p {
                    assert(after[k] == x);
                } else {
                    assert(after[k + 1] == x);
                }
            }
            if x == c {
                assert(after[p as int] == x);
            }
            if after.contains(x) {
                let k = choose|k: int| 0 <= k < after.len() && after[k] == x;
                if k < p {
                    assert(before[k] == x);
                } else if k > p {
                    assert(before[k - 1] == x);
                }
            }
        }
        assert(after.to_set() =~= before.to_set().insert(c));
    }
}

/// The candidates by strictly ascending id, each listed once.
pub fn candidate_list(candidates: &Vec<i32>) -> (r: Vec<i32>)
    ensures
        ascending(r@),
        r@.to_set() == candidates@.to_set(),
{
    let mut list: Vec<i32> = Vec::new();
    let mut i: usize = 0;
    proof {
        assert(list@.to_set() =~= candidates@.take(0).to_set());
    }
    while i < candidates.len()
        invariant
            i <= candidates.len(),
            ascending(list@),
            list@.to_set() == candidates@.take(i as int).to_set(),
        decreases candidates.len() - i,
    {
        insert_ascending(&mut list, candidates[i]);
        proof {
            let shorter = candidates@.take(i as int);
            assert(candidates@.take(i + 1) =~= shorter.push(candidates[i as int]));
            shorter.lemma_push_to_set_commute(candidates[i as int]);
        }
        i += 1;
    }
    proof {
        assert(candidates@.take(candidates.len() as int) =~= candidates@);
    }
    list
}

/// The place of a count that reaches the threshold.
fn find_majority(counts: &Vec<usize>, threshold: usize) -> (r: Option<usize>)
    ensures
        match r {
            Some(w) => w < counts.len() && counts[w as int] >= threshold,
            None => forall|k: int| 0 <= k < counts.len() ==> counts[k] < threshold,
        },
{
    let mut w: usize = 0;
    while w < counts.len()
        invariant
            w <= counts.len(),
            forall|k: int| 0 <= k < w ==> counts[k] < threshold,
        decreases counts.len() - w,
    {
        if counts[w] >= threshold {
            return Some(w);
        }
        w += 1;
    }
    None
}

/// The first place of the smallest count, and whether all counts are equal.
fn find_lowest(counts: &Vec<usize>) -> (r: (usize, bool))
    requires
        counts.len() > 0,
    ensures
        r.0 < counts.len(),
        forall|k: int| 0 <= k < counts.len() ==> counts[r.0 as int] <= #[trigger] counts[k],
        forall|k: int| 0 <= k < r.0 ==> counts[r.0 as int] < #[trigger] counts[k],
        r.1 <==> forall|k: int|
            0 <= k < counts.len() ==> #[trigger] counts[k] == counts[r.0 as int],
{
    let mut lo: usize = 0;
    let mut hi: usize = 0;
    let mut k: usize = 1;
    while k < counts.len()
        invariant
            1 <= k <= counts.len(),
            lo < k,
            hi < k,
            forall|n: int|
                0 <= n < k ==> counts[lo as int] <= #[trigger] counts[n] <= counts[hi as int],
            forall|n: int| 0 <= n < lo ==> counts[lo as int] < #[trigger] counts[n],
        decreases counts.len() - k,
    {
        if counts[k] < counts[lo] {
            lo = k;
        }
        if counts[k] > counts[hi] {
            hi = k;
        }
        k += 1;
    }
    (lo, counts[hi] == counts[lo])
}

/// Without an active candidate every ballot is exhausted.
pub proof fn lemma_no_candidates(ballots: Seq<Seq<i32>>, active: Set<i32>)
    requires
        active.is_empty(),
    ensures
        live_ballots(ballots, active) == 0,
    decreases ballots.len(),
{
    if ballots.len() > 0 {
        lemma_no_candidates(ballots.drop_last(), active);
        lemma_top_choice_active(ballots.last(), active);
    }
}

/// A single active candidate holds every counted ballot.
pub proof fn lemma_single_candidate(ballots: Seq<Seq<i32>>, active: Set<i32>, c: i32)
    requires
        forall|x: i32| active.contains(x) ==> x == c,
    ensures
        votes_for(ballots, active, c) == live_ballots(ballots, active),
    decreases ballots.len(),
{
    if ballots.len() > 0 {
        lemma_single_candidate(ballots.drop_last(), active, c);
        lemma_top_choice_active(ballots.last(), active);
    }
}

/// Only one candidate is the lowest.
pub proof fn lemma_lowest_unique(ballots: Seq<Seq<i32>>, active: Set<i32>, c: i32)
    requires
        is_lowest(ballots, active, c),
    ensures
        lowest(ballots, active) == c,
{
    let d = lowest(ballots, active);
    assert(is_lowest(ballots, active, d));
    assert(ranks_below(ballots, active, c, d));
    assert(ranks_below(ballots, active, d, c));
}

/// Resolves an election by instant-runoff tallying. Entries of a ballot that
/// are no candidates are passed over; `candidates` may list an id more than
/// once and in any order.
pub fn tally(ballots: &Vec<Vec<i32>>, candidates: &Vec<i32>) -> (r: ElectionResult)
    ensures
        r.well_formed(),
        r@ == irv(ballots.deep_view(), candidates@.to_set()),
{
    let ghost all = ballots.deep_view();
    let mut active = candidate_list(candidates);
    loop
        invariant
            all == ballots.deep_view(),
            ascending(active@),
            irv(all, active@.to_set()) == irv(all, candidates@.to_set()),
        decreases active.len(),
    {
        let ghost set = active@.to_set();
        proof {
            seq_to_set_is_finite(active@);
        }
        let (counts, total) = count_round(ballots, &active);
        if total == 0 {
            return ElectionResult::NoResult;
        }
        proof {
            if active.len() == 0 {
                assert(set.is_empty()) by {
                    assert forall|x: i32| !set.contains(x) by {
                        assert(!active@.contains(x));
                    }
                }
                lemma_no_candidates(all, set);
            }
            lemma_votes_bounded(all, set, active[0]);
        }
        let threshold = total / 2 + 1;
        match find_majority(&counts, threshold) {
            Some(w) => {
                proof {
                    assert(active@.contains(active[w as int]));
                    assert(has_majority(all, set, active[w as int]));
                    let c = choose|c: i32| has_majority(all, set, c);
                    lemma_majority_unique(all, set, c, active[w as int]);
                }
                return ElectionResult::Winner(active[w]);
            },
            None => {},
        }
        proof {
            assert forall|c: i32| !has_majority(all, set, c) by {
                if set.contains(c) {
                    let k = choose|k: int| 0 <= k < active.len() && active[k] == c;
                    assert(counts[k] < threshold);
                }
            }
        }
        let (lo, level) = find_lowest(&counts);
        if level {
            proof {
                assert forall|c: i32, d: i32| set.contains(c) && set.contains(d) implies votes_for(
                    all,
                    set,
                    c,
                ) == votes_for(all, set, d) by {
                    let k = choose|k: int| 0 <= k < active.len() && active[k] == c;
                    let n = choose|n: int| 0 <= n < active.len() && active[n] == d;
                    assert(counts[k] == counts[n]);
                }
                if active.len() == 1 {
                    assert forall|x: i32| set.contains(x) implies x == active[0] by {
                        let k = choose|k: int| 0 <= k < active.len() && active[k] == x;
                    }
                    lemma_single_candidate(all, set, active[0]);
                    assert(counts[0] >= threshold);
                }
            }
            return ElectionResult::Tie(active);
        }
        proof {
            let out = active[lo as int];
            assert(active@.contains(out));
            assert forall|d: i32| set.contains(d) implies ranks_below(all, set, out, d) by {
                let n = choose|n: int| 0 <= n < active.len() && active[n] == d;
                assert(counts[lo as int] <= counts[n]);
                if counts[lo as int] == counts[n] {
                    assert(lo <= n);
                }
            }
            assert(is_lowest(all, set, out));
            lemma_lowest_unique(all, set, out);
            let n = choose|n: int| 0 <= n < counts.len() && counts[n] != counts[lo as int];
            assert(set.contains(active[n])) by {
                assert(active@.contains(active[n]));
            }
            assert(votes_for(all, set, active[n]) != votes_for(all, set, out));
            assert(!all_level(all, set));
            let rest = active@.remove(lo as int);
            assert forall|x: i32| rest.to_set().contains(x) <==> set.remove(out).contains(x) by {
                if rest.contains(x) {
                    let k = choose|k: int| 0 <= k < rest.len() && rest[k] == x;
                    if k < lo {
                        assert(active[k] == x);
                    } else {
                        assert(active[k + 1] == x);
                    }
                }
                if set.contains(x) && x != out {
                    let k = choose|k: int| 0 <= k < active.len() && active[k] == x;
                    if k < lo {
                        assert(rest[k] == x);
                    } else {
                        assert(rest[k - 1] == x);
                    }
                }
            }
            assert(rest.to_set() =~= set.remove(out));
            assert forall|i: int, j: int| 0 <= i < j < rest.len() implies rest[i] < rest[j] by {
                let a = if i < lo { i } else { i + 1 };
                let b = if j < lo { j } else { j + 1 };
                assert(rest[i] == active[a] && rest[j] == active[b]);
            }
        }
        active.remove(lo);
    }
}


/// The number of ballots that name `c` first.
pub open spec fn first_preferences(ballots: Seq<Seq<i32>>, c: i32) -> nat
    decreases ballots.len(),
{
    if ballots.len() == 0 {
        0
    } else {
        let rest = first_preferences(ballots.drop_last(), c);
        if ballots.last().len() > 0 && ballots.last()[0] == c {
            rest + 1
        } else {
            rest
        }
    }
}

/// A candidate holds at least the ballots that name it first.
pub proof fn lemma_first_preferences_count(ballots: Seq<Seq<i32>>, active: Set<i32>, c: i32)
    requires
        active.contains(c),
    ensures
        first_preferences(ballots, c) <= votes_for(ballots, active, c),
    decreases ballots.len(),
{
    if ballots.len() > 0 {
        lemma_first_preferences_count(ballots.drop_last(), active, c);
    }
}

/// A candidate that more than half of all voters name first wins at once:
/// it holds a majority in the first round, and the election is resolved for it.
pub proof fn lemma_majority_short_circuit(ballots: Seq<Seq<i32>>, candidates: Set<i32>, c: i32)
    requires
        candidates.finite(),
        candidates.contains(c),
        2 * first_preferences(ballots, c) > ballots.len(),
    ensures
        has_majority(ballots, candidates, c),
        irv(ballots, candidates) == Outcome::Winner(c),
{
    lemma_first_preferences_count(ballots, candidates, c);
    lemma_votes_bounded(ballots, candidates, c);
    assert(has_majority(ballots, candidates, c));
    let w = choose|w: i32| has_majority(ballots, candidates, w);
    lemma_majority_unique(ballots, candidates, w, c);
}

/// Without ballots there is no result, whoever stands.
pub proof fn lemma_no_ballots(candidates: Set<i32>)
    requires
        candidates.finite(),
    ensures
        irv(Seq::<Seq<i32>>::empty(), candidates) == Outcome::NoResult,
{
}

/// Without candidates there is no result, whatever the ballots say.
pub proof fn lemma_no_candidates_no_result(ballots: Seq<Seq<i32>>)
    ensures
        irv(ballots, Set::<i32>::empty()) == Outcome::NoResult,
{
    lemma_no_candidates(ballots, Set::<i32>::empty());
}

/// A winner is a candidate, and those who tie are two candidates at least.
pub proof fn lemma_outcome_among_candidates(ballots: Seq<Seq<i32>>, active: Set<i32>)
    requires
        active.finite(),
    ensures
        match irv(ballots, active) {
            Outcome::Winner(c) => active.contains(c),
            Outcome::Tie(s) => s.subset_of(active) && s.finite() && s.len() >= 2,
            Outcome::NoResult => true,
        },
    decreases active.len(),
{
    if live_ballots(ballots, active) == 0 {
    } else if exists|c: i32| has_majority(ballots, active, c) {
    } else if all_level(ballots, active) {
        if active.is_empty() {
            lemma_no_candidates(ballots, active);
        }
        let c = active.choose();
        if active.len() == 1 {
            assert forall|x: i32| active.contains(x) implies x == c by {
                if x != c {
                    assert(active.remove(c).contains(x));
                }
            }
            lemma_single_candidate(ballots, active, c);
            assert(has_majority(ballots, active, c));
        }
    } else {
        lemma_lowest_exists(ballots, active);
        let rest = active.remove(lowest(ballots, active));
        lemma_outcome_among_candidates(ballots, rest);
    }
}

/// Two strictly ascending lists of the same ids are the same list.
pub proof fn lemma_ascending_determined(a: Seq<i32>, b: Seq<i32>)
    requires
        ascending(a),
        ascending(b),
        a.to_set() == b.to_set(),
    ensures
        a == b,
    decreases a.len(),
{
    if a.len() == 0 {
        if b.len() > 0 {
            assert(b.contains(b[0]));
            assert(a.to_set().contains(b[0]));
            assert(a.contains(b[0]));
        }
        assert(a =~= b);
    } else {
        assert(a.contains(a[0]));
        assert(b.to_set().contains(a[0]));
        assert(b.contains(a[0]));
        let k = choose|k: int| 0 <= k < b.len() && b[k] == a[0];
        assert(b.contains(b[0]));
        assert(a.to_set().contains(b[0]));
        assert(a.contains(b[0]));
        let n = choose|n: int| 0 <= n < a.len() && a[n] == b[0];
        assert(a[0] == b[0]) by {
            if k > 0 {
                assert(b[0] < b[k]);
            }
            if n > 0 {
                assert(a[0] < a[n]);
            }
        }
        let ra = a.drop_first();
        let rb = b.drop_first();
        assert forall|x: i32| ra.to_set().contains(x) <==> rb.to_set().contains(x) by {
            if ra.contains(x) {
                let i = choose|i: int| 0 <= i < ra.len() && ra[i] == x;
                assert(a[i + 1] == x);
                assert(a[0] < a[i + 1]);
                assert(a.contains(x));
                assert(b.to_set().contains(x));
                assert(b.contains(x));
                let j = choose|j: int| 0 <= j < b.len() && b[j] == x;
                assert(rb[j - 1] == x);
            }
            if rb.contains(x) {
                let i = choose|i: int| 0 <= i < rb.len() && rb[i] == x;
                assert(b[i + 1] == x);
                assert(b[0] < b[i + 1]);
                assert(b.contains(x));
                assert(a.to_set().contains(x));
                assert(a.contains(x));
                let j = choose|j: int| 0 <= j < a.len() && a[j] == x;
                assert(ra[j - 1] == x);
            }
        }
        assert(ra.to_set() =~= rb.to_set());
        assert forall|i: int, j: int| 0 <= i < j < ra.len() implies ra[i] < ra[j] by {
            assert(ra[i] == a[i + 1] && ra[j] == a[j + 1]);
        }
        assert forall|i: int, j: int| 0 <= i < j < rb.len() implies rb[i] < rb[j] by {
            assert(rb[i] == b[i + 1] && rb[j] == b[j + 1]);
        }
        lemma_ascending_determined(ra, rb);
        assert(a =~= seq![a[0]] + ra);
        assert(b =~= seq![b[0]] + rb);
    }
}

/// Two results list the same thing: the same winner, or the same tied
/// candidates in the same order.
pub open spec fn same_result(r1: ElectionResult, r2: ElectionResult) -> bool {
    match (r1, r2) {
        (ElectionResult::Winner(c), ElectionResult::Winner(d)) => c == d,
        (ElectionResult::Tie(v), ElectionResult::Tie(w)) => v@ == w@,
        (ElectionResult::NoResult, ElectionResult::NoResult) => true,
        _ => false,
    }
}

/// An election has one result: whatever two runs of [`tally`] on the same
/// ballots and candidates return, it is the same, ties included.
pub proof fn lemma_tally_deterministic(
    ballots: Seq<Seq<i32>>,
    candidates: Set<i32>,
    r1: ElectionResult,
    r2: ElectionResult,
)
    requires
        r1.well_formed(),
        r1@ == irv(ballots, candidates),
        r2.well_formed(),
        r2@ == irv(ballots, candidates),
    ensures
        same_result(r1, r2),
{
    match (r1, r2) {
        (ElectionResult::Tie(v), ElectionResult::Tie(w)) => {
            lemma_ascending_determined(v@, w@);
        },
        _ => {},
    }
}


/// Holds of the ids other than `x`.
pub open spec fn not_id(x: i32) -> spec_fn(i32) -> bool {
    |c: i32| c != x
}

/// Takes the entries for item `x` out of a ballot: the later entries move up.
pub open spec fn without_item(x: i32) -> spec_fn(Seq<i32>) -> Seq<i32> {
    |ballot: Seq<i32>| ballot.filter(not_id(x))
}

/// A ballot's top choice is the same with and without its entries for an
/// item that is no candidate.
pub proof fn lemma_top_choice_without(ballot: Seq<i32>, active: Set<i32>, x: i32)
    requires
        !active.contains(x),
    ensures
        top_choice(without_item(x)(ballot), active) == top_choice(ballot, active),
    decreases ballot.len(),
{
    if ballot.len() == 0 {
        assert(ballot.filter(not_id(x)) =~= ballot) by {
            reveal(Seq::filter);
        }
    } else {
        let rest = ballot.drop_first();
        assert(ballot =~= seq![ballot[0]] + rest);
        rest.lemma_filter_prepend(ballot[0], not_id(x));
        lemma_top_choice_without(rest, active, x);
        let pruned = rest.filter(not_id(x));
        if ballot[0] != x {
            assert((seq![ballot[0]] + pruned).drop_first() =~= pruned);
        } else {
            assert(Seq::<i32>::empty() + pruned =~= pruned);
        }
    }
}

/// The counts of a round are the same with and without the ballots'
/// entries for an item that is no candidate.
pub proof fn lemma_votes_without(ballots: Seq<Seq<i32>>, active: Set<i32>, x: i32, c: i32)
    requires
        !active.contains(x),
    ensures
        votes_for(ballots.map_values(without_item(x)), active, c) == votes_for(ballots, active, c),
        live_ballots(ballots.map_values(without_item(x)), active) == live_ballots(ballots, active),
    decreases ballots.len(),
{
    if ballots.len() > 0 {
        let pruned = ballots.map_values(without_item(x));
        assert(pruned.drop_last() =~= ballots.drop_last().map_values(without_item(x)));
        assert(pruned.last() == without_item(x)(ballots.last()));
        lemma_votes_without(ballots.drop_last(), active, x, c);
        lemma_top_choice_without(ballots.last(), active, x);
    }
}

/// To take an item out of every ballot, or to pass it over while counting,
/// comes to the same: the tally over candidates that do not include the item
/// is the same with and without the ballots' entries for it.
pub proof fn lemma_excluded_is_passed_over(ballots: Seq<Seq<i32>>, active: Set<i32>, x: i32)
    requires
        active.finite(),
        !active.contains(x),
    ensures
        irv(ballots.map_values(without_item(x)), active) == irv(ballots, active),
    decreases active.len(),
{
    let pruned = ballots.map_values(without_item(x));
    assert forall|c: i32|
        votes_for(pruned, active, c) == #[trigger] votes_for(ballots, active, c) by {
        lemma_votes_without(ballots, active, x, c);
    }
    lemma_votes_without(ballots, active, x, 0);
    assert forall|c: i32| has_majority(pruned, active, c) == has_majority(ballots, active, c) by {
        assert(votes_for(pruned, active, c) == votes_for(ballots, active, c));
    }
    assert(all_level(pruned, active) == all_level(ballots, active)) by {
        if all_level(ballots, active) {
            assert forall|c: i32, d: i32|
                active.contains(c) && active.contains(d) implies votes_for(pruned, active, c)
                == votes_for(pruned, active, d) by {
                assert(votes_for(ballots, active, c) == votes_for(ballots, active, d));
            }
        }
        if all_level(pruned, active) {
            assert forall|c: i32, d: i32|
                active.contains(c) && active.contains(d) implies votes_for(ballots, active, c)
                == votes_for(ballots, active, d) by {
                assert(votes_for(pruned, active, c) == votes_for(pruned, active, d));
            }
        }
    }
    if live_ballots(ballots, active) == 0 {
    } else if exists|c: i32| has_majority(ballots, active, c) {
        let w = choose|c: i32| has_majority(ballots, active, c);
        assert(has_majority(pruned, active, w));
        let v = choose|c: i32| has_majority(pruned, active, c);
        lemma_majority_unique(ballots, active, v, w);
    } else if all_level(ballots, active) {
        assert(!exists|c: i32| has_majority(pruned, active, c));
    } else {
        assert(!exists|c: i32| has_majority(pruned, active, c));
        if active.is_empty() {
            assert(all_level(ballots, active));
        }
        lemma_lowest_exists(ballots, active);
        let out = lowest(ballots, active);
        assert(is_lowest(pruned, active, out)) by {
            assert forall|d: i32| active.contains(d) implies ranks_below(
                pruned,
                active,
                out,
                d,
            ) by {
                assert(ranks_below(ballots, active, out, d));
                assert(votes_for(pruned, active, out) == votes_for(ballots, active, out));
                assert(votes_for(pruned, active, d) == votes_for(ballots, active, d));
            }
        }
        lemma_lowest_unique(pruned, active, out);
        lemma_excluded_is_passed_over(ballots, active.remove(out), x);
    }
}

} // verus!
