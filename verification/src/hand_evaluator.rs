use vstd::prelude::*;
use vstd::multiset::Multiset;
use itertools::Itertools;
use crate::card::{Card, Rank, Suit, rank_value, rank_of_value};

verus! {

/// How often rank `r` occurs among `ranks`.
pub open spec fn count_rank(ranks: Seq<Rank>, r: Rank) -> nat {
    ranks.to_multiset().count(r)
}

/// The ranks of a sequence of cards, in the same order.
pub open spec fn ranks_of(cards: Seq<Card>) -> Seq<Rank> {
    cards.map_values(|c: Card| c.rank)
}

/// No rank occurs twice.
pub open spec fn all_distinct(ranks: Seq<Rank>) -> bool {
    forall|i: int, j: int| 0 <= i < j < ranks.len() ==> ranks[i] != ranks[j]
}

/// Every rank's value lies in the window from `lo` up to, not including,
/// `lo` plus the number of ranks.
pub open spec fn within_window(ranks: Seq<Rank>, lo: int) -> bool {
    forall|i: int| 0 <= i < ranks.len() ==> lo <= #[trigger] rank_value(ranks[i]) < lo + ranks.len()
}

/// The ranks, put in order, are consecutive values: they are distinct and
/// all lie in a window of as many values as there are ranks.
pub open spec fn consecutive(ranks: Seq<Rank>) -> bool {
    &&& all_distinct(ranks)
    &&& exists|lo: int| #[trigger] within_window(ranks, lo)
}

/// The ranks are exactly ten, jack, queen, king and ace.
pub open spec fn royal_ranks(ranks: Seq<Rank>) -> bool {
    &&& ranks.len() == 5
    &&& all_distinct(ranks)
    &&& forall|i: int| 0 <= i < ranks.len() ==> 10 <= #[trigger] rank_value(ranks[i]) <= 14
}

/// Some rank occurs exactly `n` times. (A run-length count over the sorted
/// ranks also reports a group of one for an empty sequence, hence the last
/// case.)
pub open spec fn n_of_a_kind(ranks: Seq<Rank>, n: nat) -> bool {
    ||| (n >= 1 && exists|r: Rank| #[trigger] count_rank(ranks, r) == n)
    ||| (ranks.len() == 0 && n == 1)
}

/// The number of ranks with value below `v` that occur exactly twice.
pub open spec fn pairs_below(ranks: Seq<Rank>, v: int) -> nat
    decreases v,
{
    if v <= 2 {
        0
    } else {
        pairs_below(ranks, v - 1) + if count_rank(ranks, rank_of_value(v - 1)) == 2 {
            1nat
        } else {
            0nat
        }
    }
}

/// Exactly two ranks occur exactly twice.
pub open spec fn two_pairs(ranks: Seq<Rank>) -> bool {
    pairs_below(ranks, 16) == 2
}

/// Every card has the suit of the first card.
pub open spec fn same_suit(cards: Seq<Card>) -> bool {
    forall|i: int| 0 <= i < cards.len() ==> #[trigger] cards[i].suit == cards[0].suit
}

/// The category of a hand, lower being better: 1 royal flush, 2 straight
/// flush, 3 four of a kind, 4 full house, 5 flush, 6 straight, 7 three of a
/// kind, 8 two pair, 9 one pair, 10 high card.
pub open spec fn five_card_score(cards: Seq<Card>) -> u32 {
    let ranks = ranks_of(cards);
    if same_suit(cards) && royal_ranks(ranks) {
        1
    } else if same_suit(cards) && consecutive(ranks) {
        2
    } else if n_of_a_kind(ranks, 4) {
        3
    } else if n_of_a_kind(ranks, 3) && n_of_a_kind(ranks, 2) {
        4
    } else if same_suit(cards) {
        5
    } else if consecutive(ranks) {
        6
    } else if n_of_a_kind(ranks, 3) {
        7
    } else if two_pairs(ranks) {
        8
    } else if n_of_a_kind(ranks, 2) {
        9
    } else {
        10
    }
}

/// `idx` picks `k` distinct positions below `n`, in increasing order.
pub open spec fn is_combination(idx: Seq<usize>, n: int, k: int) -> bool {
    &&& idx.len() == k
    &&& forall|i: int, j: int| 0 <= i < j < idx.len() ==> idx[i] < idx[j]
    &&& forall|i: int| 0 <= i < idx.len() ==> idx[i] < n
}

/// The cards of `hand` at the positions `idx`.
pub open spec fn pick(hand: Seq<Card>, idx: Seq<usize>) -> Seq<Card> {
    idx.map_values(|i: usize| hand[i as int])
}

/// `s` is the best (lowest) score of the five-card hands that can be picked
/// from `hand`.
pub open spec fn is_best_score(hand: Seq<Card>, s: u32) -> bool {
    &&& exists|idx: Seq<usize>| #[trigger]
        is_combination(idx, hand.len() as int, 5) && s == five_card_score(pick(hand, idx))
    &&& forall|idx: Seq<usize>| #[trigger]
        is_combination(idx, hand.len() as int, 5) ==> s <= five_card_score(pick(hand, idx))
}

/// The strength of a hand: the best score of its five-card hands, or 10
/// (high card) for a hand of fewer than five cards.
pub open spec fn hand_strength(hand: Seq<Card>) -> u32 {
    if hand.len() < 5 {
        10
    } else {
        choose|s: u32| is_best_score(hand, s)
    }
}

/// Calls itertools' `combinations` on the positions `0..n`. Its documentation
/// and source give every `k`-length combination of the items, each as the
/// items at increasing positions; the claim is that every result is such a
/// combination and that every such combination is among the results. The
/// order of the results (lexicographic in the source) is left unsaid.
#[verifier::external_body]
fn index_combinations(n: usize, k: usize) -> (res: Vec<Vec<usize>>)
    ensures
        forall|j: int| 0 <= j < res@.len() ==> is_combination(#[trigger] res@[j]@, n as int, k as int),
        forall|c: Seq<usize>| #[trigger]
            is_combination(c, n as int, k as int) ==> exists|j: int|
                0 <= j < res@.len() && res@[j]@ == c,
{
    (0..n).combinations(k).collect()
}

proof fn lemma_best_score_unique(hand: Seq<Card>, s: u32)
    requires
        is_best_score(hand, s),
    ensures
        hand_strength(hand) == s,
        hand.len() >= 5,
{
    let idx = choose|idx: Seq<usize>| #[trigger]
        is_combination(idx, hand.len() as int, 5) && s == five_card_score(pick(hand, idx));
    assert(idx[0] < idx[1] < idx[2] < idx[3] < idx[4] < hand.len());
    let t = choose|t: u32| is_best_score(hand, t);
    assert(is_best_score(hand, t));
    let idx2 = choose|idx: Seq<usize>| #[trigger]
        is_combination(idx, hand.len() as int, 5) && t == five_card_score(pick(hand, idx));
    assert(s <= t);
    assert(t <= s);
}

proof fn lemma_rank_values()
    ensures
        forall|r: Rank| 2 <= #[trigger] rank_value(r) <= 15,
        forall|r: Rank| rank_of_value(#[trigger] rank_value(r) as int) == r,
{
}

/// Evaluates poker hands.
pub struct HandEvaluator;

impl HandEvaluator {
    /// Evaluates a poker hand and returns its strength (lower is better): the
    /// best category among all five-card hands that can be picked from it, or
    /// 10 (high card) for a hand of fewer than five cards.
    pub fn evaluate_hand_strength(hand: &[Card]) -> (s: u32)
        ensures
            s == hand_strength(hand@),
            hand@.len() < 5 ==> s == 10,
            hand@.len() >= 5 ==> is_best_score(hand@, s),
            1 <= s <= 10,
    {
        if hand.len() < 5 {
            return 10;
        }
        let n = hand.len();
        let combos = index_combinations(n, 5);
        let ghost first: Seq<usize> = seq![0usize, 1, 2, 3, 4];
        assert(is_combination(first, n as int, 5));
        let mut best_score: u32 = u32::MAX;
        let mut j: usize = 0;
        while j < combos.len()
            invariant
                n == hand@.len(),
                n >= 5,
                0 <= j <= combos@.len(),
                forall|m: int| 0 <= m < combos@.len() ==> is_combination(#[trigger] combos@[m]@, n as int, 5),
                j == 0 ==> best_score == u32::MAX,
                j > 0 ==> 1 <= best_score <= 10,
                j > 0 ==> exists|m: int|
                    0 <= m < j && best_score == five_card_score(pick(hand@, #[trigger] combos@[m]@)),
                forall|m: int| 0 <= m < j ==> best_score <= five_card_score(pick(hand@, #[trigger] combos@[m]@)),
            decreases combos@.len() - j,
        {
            let c = &combos[j];
            assert(is_combination(combos@[j as int]@, n as int, 5));
            let five_card_hand: Vec<Card> = vec![hand[c[0]], hand[c[1]], hand[c[2]], hand[c[3]], hand[c[4]]];
            assert(five_card_hand@ =~= pick(hand@, c@));
            let score = Self::evaluate_five_card_hand(five_card_hand.as_slice());
            if score < best_score {
                best_score = score;
            }
            j = j + 1;
        }
        proof {
            let m0 = choose|m: int| 0 <= m < combos@.len() && combos@[m]@ == first;
            assert forall|idx: Seq<usize>| #[trigger]
                is_combination(idx, hand@.len() as int, 5) implies best_score <= five_card_score(pick(hand@, idx)) by {
                let m = choose|m: int| 0 <= m < combos@.len() && combos@[m]@ == idx;
                assert(combos@[m]@ == idx);
            }
            let m1 = choose|m: int|
                0 <= m < j && best_score == five_card_score(pick(hand@, #[trigger] combos@[m]@));
            assert(is_combination(combos@[m1]@, hand@.len() as int, 5));
            lemma_best_score_unique(hand@, best_score);
        }
        best_score
    }

    fn evaluate_five_card_hand(hand: &[Card]) -> (s: u32)
        requires
            hand@.len() >= 1,
        ensures
            s == five_card_score(hand@),
            1 <= s <= 10,
    {
        let mut ranks: Vec<Rank> = Vec::new();
        let mut flush = true;
        let first_suit = hand[0].suit;
        let mut i: usize = 0;
        while i < hand.len()
            invariant
                0 <= i <= hand@.len(),
                first_suit == hand@[0].suit,
                ranks@ == ranks_of(hand@.take(i as int)),
                flush == (forall|m: int| 0 <= m < i ==> #[trigger] hand@[m].suit == first_suit),
            decreases hand@.len() - i,
        {
            ranks.push(hand[i].rank);
            if !same_suit_value(hand[i].suit, first_suit) {
                flush = false;
            }
            assert(ranks@ =~= ranks_of(hand@.take(i + 1 as int)));
            i = i + 1;
        }
        assert(hand@.take(hand@.len() as int) =~= hand@);
        assert(ranks@ == ranks_of(hand@));
        assert(flush == same_suit(hand@));
        // Royal Flush
        if flush && Self::is_royal(&ranks) {
            return 1;
        }
        // Straight Flush
        if flush && Self::is_consecutive(&ranks) {
            return 2;
        }
        // Four of a Kind
        if Self::has_n_of_a_kind(&ranks, 4) {
            return 3;
        }
        // Full House
        if Self::has_full_house(&ranks) {
            return 4;
        }
        // Flush
        if flush {
            return 5;
        }
        // Straight
        if Self::is_consecutive(&ranks) {
            return 6;
        }
        // Three of a Kind
        if Self::has_n_of_a_kind(&ranks, 3) {
            return 7;
        }
        // Two Pair
        if Self::two_pair(&ranks) {
            return 8;
        }
        // One Pair
        if Self::has_n_of_a_kind(&ranks, 2) {
            return 9;
        }
        // High Card
        10
    }

    fn is_royal(ranks: &Vec<Rank>) -> (b: bool)
        ensures
            b == royal_ranks(ranks@),
    {
        if ranks.len() != 5 {
            return false;
        }
        if !Self::is_consecutive(ranks) {
            proof {
                if royal_ranks(ranks@) {
                    assert(within_window(ranks@, 10));
                }
            }
            return false;
        }
        let mut i: usize = 0;
        while i < ranks.len()
            invariant
                0 <= i <= ranks@.len(),
                ranks@.len() == 5,
                consecutive(ranks@),
                forall|m: int| 0 <= m < i ==> 10 <= #[trigger] rank_value(ranks@[m]) <= 14,
            decreases ranks@.len() - i,
        {
            let v = ranks[i].value();
            if v < 10 || v > 14 {
                return false;
            }
            i = i + 1;
        }
        true
    }

    fn is_consecutive(ranks: &[Rank]) -> (b: bool)
        ensures
            b == consecutive(ranks@),
    {
        let n = ranks.len();
        if n == 0 {
            assert(within_window(ranks@, 0));
            return true;
        }
        // the lowest value

        let mut lo: u8 = ranks[0].value();
        let mut i: usize = 1;
        while i < n
            invariant
                n == ranks@.len(),
                1 <= i <= n,
                forall|m: int| 0 <= m < i ==> lo <= #[trigger] rank_value(ranks@[m]),
                exists|m: int| 0 <= m < n && lo == #[trigger] rank_value(ranks@[m]),
            decreases n - i,
        {
            let v = ranks[i].value();
            if v < lo {
                lo = v;
            }
            i = i + 1;
        }
        // no rank occurs twice

        let mut a: usize = 0;
        while a < n
            invariant
                n == ranks@.len(),
                0 <= a <= n,
                forall|x: int, y: int| 0 <= x < a && x < y < n ==> ranks@[x] != ranks@[y],
            decreases n - a,
        {
            let mut b = a + 1;
            while b < n
                invariant
                    n == ranks@.len(),
                    0 <= a < n,
                    a + 1 <= b <= n,
                    forall|x: int, y: int| 0 <= x < a && x < y < n ==> ranks@[x] != ranks@[y],
                    forall|y: int| a < y < b ==> ranks@[a as int] != ranks@[y],
                decreases n - b,
            {
                if ranks[a] == ranks[b] {
                    assert(!all_distinct(ranks@));
                    return false;
                }
                b = b + 1;
            }
            a = a + 1;
        }
        assert(all_distinct(ranks@));
        // every value lies below lo + n

        let mut k: usize = 0;
        while k < n
            invariant
                n == ranks@.len(),
                0 <= k <= n,
                forall|m: int| 0 <= m < n ==> lo <= #[trigger] rank_value(ranks@[m]),
                exists|m: int| 0 <= m < n && lo == #[trigger] rank_value(ranks@[m]),
                forall|m: int| 0 <= m < k ==> #[trigger] rank_value(ranks@[m]) < lo + n,
            decreases n - k,
        {
            let v = ranks[k].value();
            assert(lo <= rank_value(ranks@[k as int]));
            let diff: u8 = v - lo;
            if diff as usize >= n {
                proof {
                    assert forall|lo2: int| !#[trigger] within_window(ranks@, lo2) by {
                        let w = choose|m: int| 0 <= m < n && lo == #[trigger] rank_value(ranks@[m]);
                        if within_window(ranks@, lo2) {
                            assert(lo2 <= rank_value(ranks@[w]));
                            assert(rank_value(ranks@[k as int]) < lo2 + n);
                        }
                    }
                }
                return false;
            }
            k = k + 1;
        }
        assert(within_window(ranks@, lo as int));
        true
    }

    fn count_rank_in(ranks: &[Rank], r: Rank) -> (c: usize)
        ensures
            c == count_rank(ranks@, r),
    {
        let mut c: usize = 0;
        let mut i: usize = 0;
        proof {
            ranks@.take(0).to_multiset_ensures();
        }
        while i < ranks.len()
            invariant
                0 <= i <= ranks@.len(),
                c == count_rank(ranks@.take(i as int), r),
                c <= i,
            decreases ranks@.len() - i,
        {
            proof {
                assert(ranks@.take(i + 1 as int) =~= ranks@.take(i as int).push(ranks@[i as int]));
                ranks@.take(i as int).to_multiset_ensures();
            }
            if ranks[i] == r {
                c = c + 1;
            }
            i = i + 1;
        }
        assert(ranks@.take(ranks@.len() as int) =~= ranks@);
        c
    }

    fn has_n_of_a_kind(ranks: &[Rank], n: usize) -> (b: bool)
        ensures
            b == n_of_a_kind(ranks@, n as nat),
    {
        if ranks.len() == 0 {
            proof {
                assert forall|r: Rank| #[trigger] count_rank(ranks@, r) == 0 by {
                    ranks@.to_multiset_ensures();
                }
            }
            return n == 1;
        }
        if n == 0 {
            return false;
        }
        proof {
            lemma_rank_values();
        }
        let mut v: u8 = 2;
        while v <= 15
            invariant
                2 <= v <= 16,
                n >= 1,
                ranks@.len() > 0,
                forall|r: Rank| rank_value(r) < v ==> #[trigger] count_rank(ranks@, r) != n,
            decreases 16 - v,
        {
            let r = Rank::from_value(v);
            if Self::count_rank_in(ranks, r) == n {
                return true;
            }
            v = v + 1;
        }
        false
    }

    fn has_full_house(ranks: &[Rank]) -> (b: bool)
        ensures
            b == (n_of_a_kind(ranks@, 3) && n_of_a_kind(ranks@, 2)),
    {
        let has_three_of_a_kind = Self::has_n_of_a_kind(ranks, 3);
        let has_pair = Self::has_n_of_a_kind(ranks, 2);
        has_three_of_a_kind && has_pair
    }

    fn two_pair(ranks: &[Rank]) -> (b: bool)
        ensures
            b == two_pairs(ranks@),
    {
        let mut pair_count: usize = 0;
        let mut v: u8 = 2;
        while v <= 15
            invariant
                2 <= v <= 16,
                pair_count == pairs_below(ranks@, v as int),
                pair_count <= v,
            decreases 16 - v,
        {
            let r = Rank::from_value(v);
            if Self::count_rank_in(ranks, r) == 2 {
                pair_count = pair_count + 1;
            }
            v = v + 1;
        }
        pair_count == 2
    }
}

fn same_suit_value(a: Option<Suit>, b: Option<Suit>) -> (r: bool)
    ensures
        r == (a == b),
{
    match (a, b) {
        (None, None) => true,
        (Some(x), Some(y)) => x == y,
        _ => false,
    }
}

proof fn lemma_score_range(cards: Seq<Card>)
    ensures
        1 <= five_card_score(cards) <= 10,
{
}

proof fn lemma_first_five(n: int)
    requires
        n >= 5,
    ensures
        is_combination(seq![0usize, 1, 2, 3, 4], n, 5),
{
}

proof fn lemma_best_from(hand: Seq<Card>, v: u32)
    requires
        hand.len() >= 5,
        1 <= v <= 11,
        forall|idx: Seq<usize>| #[trigger]
            is_combination(idx, hand.len() as int, 5) ==> v <= five_card_score(pick(hand, idx)),
    ensures
        exists|s: u32| is_best_score(hand, s),
    decreases 11 - v,
{
    let first: Seq<usize> = seq![0usize, 1, 2, 3, 4];
    lemma_first_five(hand.len() as int);
    lemma_score_range(pick(hand, first));
    if exists|idx: Seq<usize>| #[trigger]
        is_combination(idx, hand.len() as int, 5) && v == five_card_score(pick(hand, idx)) {
        assert(is_best_score(hand, v));
    } else {
        assert(v <= 10);
        lemma_best_from(hand, (v + 1) as u32);
    }
}

/// A hand of five cards or more has a best score, and its strength is that
/// score.
proof fn lemma_strength_is_best(hand: Seq<Card>)
    requires
        hand.len() >= 5,
    ensures
        is_best_score(hand, hand_strength(hand)),
{
    assert forall|idx: Seq<usize>| #[trigger]
        is_combination(idx, hand.len() as int, 5) implies 1 <= five_card_score(pick(hand, idx)) by {
        lemma_score_range(pick(hand, idx));
    }
    lemma_best_from(hand, 1);
}

/// The strength of any hand is between 1 (royal flush) and 10 (high card).
pub proof fn lemma_strength_range(hand: Seq<Card>)
    ensures
        1 <= hand_strength(hand) <= 10,
{
    if hand.len() >= 5 {
        lemma_strength_is_best(hand);
        let idx = choose|idx: Seq<usize>| #[trigger]
            is_combination(idx, hand.len() as int, 5) && hand_strength(hand) == five_card_score(pick(hand, idx));
        lemma_score_range(pick(hand, idx));
    }
}

/// More cards never make a hand weaker: adding cards to a hand never raises
/// its strength (lower is better).
pub proof fn lemma_more_cards_never_weaker(hand: Seq<Card>, extra: Seq<Card>)
    ensures
        hand_strength(hand + extra) <= hand_strength(hand),
{
    let big = hand + extra;
    lemma_strength_range(big);
    if hand.len() >= 5 {
        lemma_strength_is_best(hand);
        lemma_strength_is_best(big);
        let idx = choose|idx: Seq<usize>| #[trigger]
            is_combination(idx, hand.len() as int, 5) && hand_strength(hand) == five_card_score(pick(hand, idx));
        assert(is_combination(idx, big.len() as int, 5));
        assert(pick(big, idx) =~= pick(hand, idx));
    }
}

proof fn lemma_ranks_same_multiset(c1: Seq<Card>, c2: Seq<Card>)
    requires
        c1.to_multiset() == c2.to_multiset(),
    ensures
        ranks_of(c1).to_multiset() == ranks_of(c2).to_multiset(),
    decreases c1.len(),
{
    broadcast use vstd::seq_lib::group_to_multiset_ensures;
    broadcast use vstd::multiset::group_multiset_axioms;

    if c1.len() == 0 {
        assert(c1.to_multiset().len() == c1.len());
        assert(c2.to_multiset().len() == c2.len());
        assert(c2.len() == 0);
        assert(ranks_of(c1) =~= ranks_of(c2));
    } else {
        let x = c1.last();
        let a = c1.drop_last();
        assert(c1 =~= a.push(x));
        assert(c1.to_multiset() == a.to_multiset().insert(x));
        assert(c2.to_multiset().count(x) > 0);
        assert(c2.contains(x));
        let i = choose|i: int| 0 <= i < c2.len() && c2[i] == x;
        let b = c2.remove(i);
        assert(b.to_multiset() == c2.to_multiset().remove(x));
        assert(b.to_multiset() =~= a.to_multiset());
        lemma_ranks_same_multiset(a, b);
        assert(ranks_of(c1) =~= ranks_of(a).push(x.rank));
        assert(ranks_of(b) =~= ranks_of(c2).remove(i));
        assert(ranks_of(c2)[i] == x.rank);
        assert(ranks_of(b).to_multiset() == ranks_of(c2).to_multiset().remove(x.rank));
        assert(ranks_of(c2).to_multiset().count(x.rank) > 0) by {
            assert(ranks_of(c2).contains(x.rank));
        }
        assert(ranks_of(c1).to_multiset() =~= ranks_of(c2).to_multiset());
    }
}

proof fn lemma_same_members<A>(s1: Seq<A>, s2: Seq<A>)
    requires
        s1.to_multiset() == s2.to_multiset(),
    ensures
        s1.len() == s2.len(),
        forall|x: A| s1.contains(x) <==> s2.contains(x),
{
    broadcast use vstd::seq_lib::group_to_multiset_ensures;

    assert(s1.to_multiset().len() == s1.len());
    assert(s2.to_multiset().len() == s2.len());
    assert forall|x: A| s1.contains(x) <==> s2.contains(x) by {
        assert(s1.contains(x) <==> s1.to_multiset().count(x) > 0);
        assert(s2.contains(x) <==> s2.to_multiset().count(x) > 0);
    }
}

proof fn lemma_distinct_by_counts(r: Seq<Rank>)
    ensures
        all_distinct(r) <==> forall|x: Rank| r.to_multiset().count(x) <= 1,
{
    broadcast use vstd::seq_lib::group_to_multiset_ensures;

    if all_distinct(r) {
        assert(r.no_duplicates()) by {
            assert forall|i: int, j: int| 0 <= i < r.len() && 0 <= j < r.len() && i != j implies r[i] != r[j] by {
                if i < j {
                    assert(r[i] != r[j]);
                } else {
                    assert(r[j] != r[i]);
                }
            }
        }
        r.lemma_multiset_has_no_duplicates();
        assert forall|x: Rank| r.to_multiset().count(x) <= 1 by {
            if r.to_multiset().count(x) > 0 {
                assert(r.to_multiset().contains(x));
            }
        }
    }
    if forall|x: Rank| r.to_multiset().count(x) <= 1 {
        assert forall|x: Rank| r.to_multiset().contains(x) implies r.to_multiset().count(x) == 1 by {
            assert(r.to_multiset().count(x) <= 1);
        }
        r.lemma_multiset_has_no_duplicates_conv();
    }
}

proof fn lemma_window_transfer(r1: Seq<Rank>, r2: Seq<Rank>, lo: int)
    requires
        r1.len() == r2.len(),
        forall|x: Rank| r1.contains(x) <==> r2.contains(x),
        within_window(r1, lo),
    ensures
        within_window(r2, lo),
{
    assert forall|j: int| 0 <= j < r2.len() implies lo <= #[trigger] rank_value(r2[j]) < lo + r2.len() by {
        assert(r2.contains(r2[j]));
        assert(r1.contains(r2[j]));
        let i = choose|i: int| 0 <= i < r1.len() && r1[i] == r2[j];
        assert(lo <= rank_value(r1[i]) < lo + r1.len());
    }
}

proof fn lemma_high_transfer(r1: Seq<Rank>, r2: Seq<Rank>)
    requires
        forall|x: Rank| r1.contains(x) <==> r2.contains(x),
        forall|i: int| 0 <= i < r1.len() ==> 10 <= #[trigger] rank_value(r1[i]) <= 14,
    ensures
        forall|i: int| 0 <= i < r2.len() ==> 10 <= #[trigger] rank_value(r2[i]) <= 14,
{
    assert forall|j: int| 0 <= j < r2.len() implies 10 <= #[trigger] rank_value(r2[j]) <= 14 by {
        assert(r2.contains(r2[j]));
        let i = choose|i: int| 0 <= i < r1.len() && r1[i] == r2[j];
        assert(10 <= rank_value(r1[i]) <= 14);
    }
}

proof fn lemma_suit_transfer(c1: Seq<Card>, c2: Seq<Card>)
    requires
        c1.len() == c2.len(),
        forall|x: Card| c1.contains(x) <==> c2.contains(x),
        same_suit(c1),
    ensures
        same_suit(c2),
{
    if c2.len() > 0 {
        assert(c2.contains(c2[0]));
        let k = choose|k: int| 0 <= k < c1.len() && c1[k] == c2[0];
        assert(c1[k].suit == c1[0].suit);
        assert forall|j: int| 0 <= j < c2.len() implies #[trigger] c2[j].suit == c2[0].suit by {
            assert(c2.contains(c2[j]));
            let i = choose|i: int| 0 <= i < c1.len() && c1[i] == c2[j];
            assert(c1[i].suit == c1[0].suit);
        }
    }
}

proof fn lemma_pairs_below_same(r1: Seq<Rank>, r2: Seq<Rank>, v: int)
    requires
        r1.to_multiset() == r2.to_multiset(),
    ensures
        pairs_below(r1, v) == pairs_below(r2, v),
    decreases v,
{
    if v > 2 {
        lemma_pairs_below_same(r1, r2, v - 1);
    }
}

/// The category of five cards depends only on which cards they are, not on
/// their order.
pub proof fn lemma_score_ignores_order(c1: Seq<Card>, c2: Seq<Card>)
    requires
        c1.to_multiset() == c2.to_multiset(),
    ensures
        five_card_score(c1) == five_card_score(c2),
{
    lemma_ranks_same_multiset(c1, c2);
    let r1 = ranks_of(c1);
    let r2 = ranks_of(c2);
    lemma_same_members(c1, c2);
    lemma_same_members(r1, r2);
    lemma_same_members(c2, c1);
    lemma_same_members(r2, r1);
    lemma_distinct_by_counts(r1);
    lemma_distinct_by_counts(r2);
    assert(all_distinct(r1) == all_distinct(r2));
    if same_suit(c1) {
        lemma_suit_transfer(c1, c2);
    }
    if same_suit(c2) {
        lemma_suit_transfer(c2, c1);
    }
    if royal_ranks(r1) {
        lemma_high_transfer(r1, r2);
    }
    if royal_ranks(r2) {
        lemma_high_transfer(r2, r1);
    }
    if consecutive(r1) {
        let lo = choose|lo: int| #[trigger] within_window(r1, lo);
        lemma_window_transfer(r1, r2, lo);
    }
    if consecutive(r2) {
        let lo = choose|lo: int| #[trigger] within_window(r2, lo);
        lemma_window_transfer(r2, r1, lo);
    }
    assert forall|r: Rank| #[trigger] count_rank(r1, r) == count_rank(r2, r) by {}
    assert forall|n: nat| #[trigger] n_of_a_kind(r1, n) == n_of_a_kind(r2, n) by {
        if n >= 1 && exists|r: Rank| #[trigger] count_rank(r1, r) == n {
            let w = choose|r: Rank| #[trigger] count_rank(r1, r) == n;
            assert(count_rank(r2, w) == n);
        }
        if n >= 1 && exists|r: Rank| #[trigger] count_rank(r2, r) == n {
            let w = choose|r: Rank| #[trigger] count_rank(r2, r) == n;
            assert(count_rank(r1, w) == n);
        }
    }
    lemma_pairs_below_same(r1, r2, 16);
    assert(n_of_a_kind(r1, 4) == n_of_a_kind(r2, 4));
    assert(n_of_a_kind(r1, 3) == n_of_a_kind(r2, 3));
    assert(n_of_a_kind(r1, 2) == n_of_a_kind(r2, 2));
}

/// The positions of `s` that pick out the cards of `need`: going through
/// `s`, a card is taken while `need` still asks for it (the last copies
/// are taken first).
spec fn select(s: Seq<Card>, need: Multiset<Card>) -> Seq<usize>
    decreases s.len(),
{
    if s.len() == 0 {
        seq![]
    } else if need.count(s.last()) > 0 {
        select(s.drop_last(), need.remove(s.last())).push((s.len() - 1) as usize)
    } else {
        select(s.drop_last(), need)
    }
}

proof fn lemma_select(s: Seq<Card>, need: Multiset<Card>)
    requires
        s.len() <= usize::MAX,
        forall|x: Card| need.count(x) <= s.to_multiset().count(x),
    ensures
        select(s, need).len() == need.len(),
        forall|i: int, j: int| 0 <= i < j < select(s, need).len() ==> select(s, need)[i] < select(s, need)[j],
        forall|i: int| 0 <= i < select(s, need).len() ==> select(s, need)[i] < s.len(),
        pick(s, select(s, need)).to_multiset() == need,
    decreases s.len(),
{
    broadcast use vstd::seq_lib::group_to_multiset_ensures;
    broadcast use vstd::multiset::group_multiset_axioms;

    if s.len() == 0 {
        assert(need =~= Multiset::<Card>::empty()) by {
            assert forall|x: Card| need.count(x) == 0 by {
                assert(s.to_multiset().count(x) == 0);
            }
        }
        assert(pick(s, select(s, need)) =~= Seq::<Card>::empty());
    } else {
        let t = s.drop_last();
        let x = s.last();
        assert(s =~= t.push(x));
        assert(s.to_multiset() == t.to_multiset().insert(x));
        if need.count(x) > 0 {
            let n2 = need.remove(x);
            assert forall|y: Card| n2.count(y) <= t.to_multiset().count(y) by {
                assert(need.count(y) <= s.to_multiset().count(y));
            }
            lemma_select(t, n2);
            let sel = select(t, n2);
            assert(select(s, need) == sel.push((s.len() - 1) as usize));
            assert(pick(s, sel) =~= pick(t, sel));
            assert(pick(s, select(s, need)) =~= pick(t, sel).push(x));
            assert(n2.insert(x) =~= need);
            assert(n2.len() + 1 == need.len()) by {
                assert(need =~= n2.add(Multiset::singleton(x)));
            }
        } else {
            assert forall|y: Card| need.count(y) <= t.to_multiset().count(y) by {
                assert(need.count(y) <= s.to_multiset().count(y));
            }
            lemma_select(t, need);
            let sel = select(t, need);
            assert(pick(s, sel) =~= pick(t, sel));
        }
    }
}

proof fn lemma_pick_within(h: Seq<Card>, idx: Seq<usize>, n: int)
    requires
        is_combination(idx, h.len() as int, n),
    ensures
        forall|x: Card| pick(h, idx).to_multiset().count(x) <= h.to_multiset().count(x),
    decreases idx.len(),
{
    broadcast use vstd::seq_lib::group_to_multiset_ensures;
    broadcast use vstd::multiset::group_multiset_axioms;

    if idx.len() == 0 {
        assert(pick(h, idx) =~= Seq::<Card>::empty());
    } else {
        let p = idx.last() as int;
        let rest = idx.drop_last();
        let hp = h.take(p);
        assert(is_combination(rest, hp.len() as int, n - 1)) by {
            assert forall|i: int| 0 <= i < rest.len() implies rest[i] < p by {
                assert(idx[i] < idx[idx.len() - 1]);
            }
        }
        lemma_pick_within(hp, rest, n - 1);
        assert(pick(h, rest) =~= pick(hp, rest));
        assert(pick(h, idx) =~= pick(h, rest).push(h[p]));
        assert(h.take(p + 1) =~= hp.push(h[p]));
        assert(h =~= h.take(p + 1) + h.skip(p + 1));
        vstd::seq_lib::lemma_multiset_commutative(h.take(p + 1), h.skip(p + 1));
    }
}

proof fn lemma_combo_found(h1: Seq<Card>, h2: Seq<Card>, idx1: Seq<usize>)
    requires
        h1.to_multiset() == h2.to_multiset(),
        h2.len() <= usize::MAX,
        is_combination(idx1, h1.len() as int, 5),
    ensures
        exists|idx2: Seq<usize>| #[trigger]
            is_combination(idx2, h2.len() as int, 5) && five_card_score(pick(h2, idx2)) == five_card_score(
                pick(h1, idx1),
            ),
{
    broadcast use vstd::seq_lib::group_to_multiset_ensures;

    let need = pick(h1, idx1).to_multiset();
    lemma_pick_within(h1, idx1, 5);
    lemma_select(h2, need);
    let idx2 = select(h2, need);
    assert(need.len() == 5) by {
        assert(pick(h1, idx1).len() == 5);
    }
    assert(is_combination(idx2, h2.len() as int, 5));
    lemma_score_ignores_order(pick(h2, idx2), pick(h1, idx1));
}

/// The strength of a hand does not depend on the order of its cards: two
/// hands made of the same cards are equally strong.
pub proof fn lemma_strength_ignores_order(h1: Seq<Card>, h2: Seq<Card>)
    requires
        h1.to_multiset() == h2.to_multiset(),
        h1.len() <= usize::MAX,
    ensures
        hand_strength(h1) == hand_strength(h2),
{
    broadcast use vstd::seq_lib::group_to_multiset_ensures;

    assert(h1.to_multiset().len() == h1.len());
    assert(h2.to_multiset().len() == h2.len());
    if h1.len() >= 5 {
        lemma_strength_is_best(h1);
        lemma_strength_is_best(h2);
        let s1 = hand_strength(h1);
        let s2 = hand_strength(h2);
        let i1 = choose|idx: Seq<usize>| #[trigger]
            is_combination(idx, h1.len() as int, 5) && s1 == five_card_score(pick(h1, idx));
        lemma_combo_found(h1, h2, i1);
        let i2 = choose|idx: Seq<usize>| #[trigger]
            is_combination(idx, h2.len() as int, 5) && s2 == five_card_score(pick(h2, idx));
        lemma_combo_found(h2, h1, i2);
    }
}

/// The ranks that occur exactly twice.
pub open spec fn ranks_twice(ranks: Seq<Rank>) -> Set<Rank> {
    Set::new(|r: Rank| count_rank(ranks, r) == 2)
}

/// The ranks below value `v` that occur exactly twice.
spec fn ranks_twice_below(ranks: Seq<Rank>, v: int) -> Set<Rank> {
    Set::new(|r: Rank| count_rank(ranks, r) == 2 && rank_value(r) < v)
}

proof fn lemma_ranks_twice_below(ranks: Seq<Rank>, v: int)
    requires
        v <= 16,
    ensures
        ranks_twice_below(ranks, v).finite(),
        ranks_twice_below(ranks, v).len() == pairs_below(ranks, v),
    decreases v,
{
    lemma_rank_values();
    if v <= 2 {
        assert(ranks_twice_below(ranks, v) =~= Set::<Rank>::empty());
    } else {
        lemma_ranks_twice_below(ranks, v - 1);
        let r = rank_of_value(v - 1);
        assert(rank_value(r) == v - 1);
        let prev = ranks_twice_below(ranks, v - 1);
        if count_rank(ranks, r) == 2 {
            assert(ranks_twice_below(ranks, v) =~= prev.insert(r));
            assert(!prev.contains(r));
        } else {
            assert(ranks_twice_below(ranks, v) =~= prev);
        }
    }
}

/// Two pair means exactly two ranks occur exactly twice.
pub proof fn lemma_two_pairs_means_two_ranks_twice(ranks: Seq<Rank>)
    ensures
        ranks_twice(ranks).finite(),
        two_pairs(ranks) <==> ranks_twice(ranks).len() == 2,
{
    lemma_rank_values();
    lemma_ranks_twice_below(ranks, 16);
    assert(ranks_twice_below(ranks, 16) =~= ranks_twice(ranks));
}

/// The ranks are in increasing order of value (equal values side by side).
pub open spec fn ranks_sorted(r: Seq<Rank>) -> bool {
    forall|i: int, j: int| 0 <= i < j < r.len() ==> rank_value(r[i]) <= rank_value(r[j])
}

/// Each rank is one value above the one before it.
pub open spec fn rising_by_one(r: Seq<Rank>) -> bool {
    forall|i: int| 0 <= i < r.len() - 1 ==> #[trigger] rank_value(r[i + 1]) == rank_value(r[i]) + 1
}

/// The category of five cards told from their ranks in increasing order
/// (`sorted`) and their suits: royal flush when they all have one suit and
/// the ranks are ten to ace; straight flush when they all have one suit and
/// the ranks rise one at a time; then four of a kind, full house, flush,
/// straight (rising one at a time), three of a kind, two pair, one pair,
/// and high card.
pub open spec fn ladder_score(cards: Seq<Card>, sorted: Seq<Rank>) -> u32 {
    let f = same_suit(cards);
    if f && sorted == seq![Rank::Ten, Rank::Jack, Rank::Queen, Rank::King, Rank::Ace] {
        1
    } else if f && rising_by_one(sorted) {
        2
    } else if n_of_a_kind(sorted, 4) {
        3
    } else if n_of_a_kind(sorted, 3) && n_of_a_kind(sorted, 2) {
        4
    } else if f {
        5
    } else if rising_by_one(sorted) {
        6
    } else if n_of_a_kind(sorted, 3) {
        7
    } else if two_pairs(sorted) {
        8
    } else if n_of_a_kind(sorted, 2) {
        9
    } else {
        10
    }
}

proof fn lemma_sorted_distinct_increasing(r: Seq<Rank>)
    requires
        r.len() == 5,
        ranks_sorted(r),
        all_distinct(r),
    ensures
        rank_value(r[0]) < rank_value(r[1]) < rank_value(r[2]) < rank_value(r[3]) < rank_value(r[4]),
{
    lemma_rank_values();
    assert(r[0] != r[1] && r[1] != r[2] && r[2] != r[3] && r[3] != r[4]);
    assert(rank_value(r[0]) <= rank_value(r[1]) && rank_value(r[1]) <= rank_value(r[2]));
    assert(rank_value(r[2]) <= rank_value(r[3]) && rank_value(r[3]) <= rank_value(r[4]));
    assert(rank_of_value(rank_value(r[0]) as int) == r[0]);
    assert(rank_of_value(rank_value(r[1]) as int) == r[1]);
    assert(rank_of_value(rank_value(r[2]) as int) == r[2]);
    assert(rank_of_value(rank_value(r[3]) as int) == r[3]);
    assert(rank_of_value(rank_value(r[4]) as int) == r[4]);
}

proof fn lemma_sorted_consecutive(r: Seq<Rank>)
    requires
        r.len() == 5,
        ranks_sorted(r),
    ensures
        consecutive(r) <==> rising_by_one(r),
{
    lemma_rank_values();
    if consecutive(r) {
        lemma_sorted_distinct_increasing(r);
        let lo = choose|lo: int| #[trigger] within_window(r, lo);
        assert(lo <= rank_value(r[0]) && rank_value(r[4]) < lo + 5);
        assert forall|i: int| 0 <= i < r.len() - 1 implies #[trigger] rank_value(r[i + 1]) == rank_value(r[i]) + 1 by {
            assert(0 <= i <= 3);
        }
    }
    if rising_by_one(r) {
        let (a, b, c, d): (int, int, int, int) = (0, 1, 2, 3);
        assert(rank_value(r[a + 1]) == rank_value(r[a]) + 1);
        assert(rank_value(r[b + 1]) == rank_value(r[b]) + 1);
        assert(rank_value(r[c + 1]) == rank_value(r[c]) + 1);
        assert(rank_value(r[d + 1]) == rank_value(r[d]) + 1);
        assert(within_window(r, rank_value(r[0]) as int));
        assert(all_distinct(r)) by {
            assert forall|i: int, j: int| 0 <= i < j < r.len() implies r[i] != r[j] by {
                assert(rank_value(r[i]) < rank_value(r[j]));
            }
        }
    }
}

proof fn lemma_sorted_royal(r: Seq<Rank>)
    requires
        r.len() == 5,
        ranks_sorted(r),
    ensures
        royal_ranks(r) <==> r == seq![Rank::Ten, Rank::Jack, Rank::Queen, Rank::King, Rank::Ace],
{
    lemma_rank_values();
    let royal = seq![Rank::Ten, Rank::Jack, Rank::Queen, Rank::King, Rank::Ace];
    if royal_ranks(r) {
        lemma_sorted_distinct_increasing(r);
        assert(10 <= rank_value(r[0]) && rank_value(r[4]) <= 14);
        assert(rank_of_value(rank_value(r[0]) as int) == r[0]);
        assert(rank_of_value(rank_value(r[1]) as int) == r[1]);
        assert(rank_of_value(rank_value(r[2]) as int) == r[2]);
        assert(rank_of_value(rank_value(r[3]) as int) == r[3]);
        assert(rank_of_value(rank_value(r[4]) as int) == r[4]);
        assert(r =~= royal);
    }
    if r == royal {
        assert(all_distinct(r)) by {
            assert forall|i: int, j: int| 0 <= i < j < r.len() implies r[i] != r[j] by {
                assert(rank_value(r[i]) < rank_value(r[j]));
            }
        }
    }
}

/// The category of five cards, told from their ranks put in increasing
/// order (see `ladder_score`), is their category (see `five_card_score`).
pub proof fn lemma_five_card_ladder(cards: Seq<Card>, sorted: Seq<Rank>)
    requires
        cards.len() == 5,
        sorted.to_multiset() == ranks_of(cards).to_multiset(),
        ranks_sorted(sorted),
    ensures
        five_card_score(cards) == ladder_score(cards, sorted),
{
    let r = ranks_of(cards);
    lemma_same_members(r, sorted);
    lemma_same_members(sorted, r);
    assert(sorted.len() == 5);
    lemma_distinct_by_counts(r);
    lemma_distinct_by_counts(sorted);
    assert(all_distinct(r) == all_distinct(sorted));
    lemma_sorted_royal(sorted);
    lemma_sorted_consecutive(sorted);
    if royal_ranks(r) {
        lemma_high_transfer(r, sorted);
    }
    if royal_ranks(sorted) {
        lemma_high_transfer(sorted, r);
    }
    if consecutive(r) {
        let lo = choose|lo: int| #[trigger] within_window(r, lo);
        lemma_window_transfer(r, sorted, lo);
    }
    if consecutive(sorted) {
        let lo = choose|lo: int| #[trigger] within_window(sorted, lo);
        lemma_window_transfer(sorted, r, lo);
    }
    assert forall|x: Rank| #[trigger] count_rank(r, x) == count_rank(sorted, x) by {}
    assert forall|n: nat| #[trigger] n_of_a_kind(r, n) == n_of_a_kind(sorted, n) by {
        if n >= 1 && exists|x: Rank| #[trigger] count_rank(r, x) == n {
            let w = choose|x: Rank| #[trigger] count_rank(r, x) == n;
            assert(count_rank(sorted, w) == n);
        }
        if n >= 1 && exists|x: Rank| #[trigger] count_rank(sorted, x) == n {
            let w = choose|x: Rank| #[trigger] count_rank(sorted, x) == n;
            assert(count_rank(r, w) == n);
        }
    }
    lemma_pairs_below_same(r, sorted, 16);
    assert(n_of_a_kind(r, 4) == n_of_a_kind(sorted, 4));
    assert(n_of_a_kind(r, 3) == n_of_a_kind(sorted, 3));
    assert(n_of_a_kind(r, 2) == n_of_a_kind(sorted, 2));
}

} // verus!
