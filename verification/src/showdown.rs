//! Choosing the winners of a showdown: the active players with the best
//! (lowest) hand strength, narrowed by high cards when they tie.

use vstd::prelude::*;
use crate::card::{Card, rank_value};
use crate::hand_evaluator::ranks_of;
use crate::card::Rank;

verus! {

/// The lowest score of an active entry among the first `n`, or `u32::MAX`
/// when none of them is active.
pub open spec fn min_active_score(scores: Seq<u32>, active: Seq<bool>, n: int) -> u32
    decreases n,
{
    if n <= 0 {
        u32::MAX
    } else {
        let m = min_active_score(scores, active, n - 1);
        if active[n - 1] && scores[n - 1] < m {
            scores[n - 1]
        } else {
            m
        }
    }
}

/// The positions, in increasing order, of the active entries among the
/// first `n` whose score is `target`.
pub open spec fn active_with_score(scores: Seq<u32>, active: Seq<bool>, target: u32, n: int) -> Seq<usize>
    decreases n,
{
    if n <= 0 {
        seq![]
    } else {
        let prev = active_with_score(scores, active, target, n - 1);
        if active[n - 1] && scores[n - 1] == target {
            prev.push((n - 1) as usize)
        } else {
            prev
        }
    }
}

/// The positions, in increasing order, of the active entries whose score is
/// the lowest among the active entries.
pub open spec fn lowest_scorers(scores: Seq<u32>, active: Seq<bool>) -> Seq<usize> {
    active_with_score(scores, active, min_active_score(scores, active, scores.len() as int), scores.len() as int)
}

/// The highest of the first `n` keys, or 0 when `n` is 0.
pub open spec fn max_key(keys: Seq<u32>, n: int) -> u32
    decreases n,
{
    if n <= 0 {
        0
    } else {
        let m = max_key(keys, n - 1);
        if keys[n - 1] > m {
            keys[n - 1]
        } else {
            m
        }
    }
}

/// The candidates among the first `n` whose key (`keys[k]` belongs to
/// `cands[k]`) is `target`, in their order.
pub open spec fn with_key(cands: Seq<usize>, keys: Seq<u32>, target: u32, n: int) -> Seq<usize>
    decreases n,
{
    if n <= 0 {
        seq![]
    } else {
        let prev = with_key(cands, keys, target, n - 1);
        if keys[n - 1] == target {
            prev.push(cands[n - 1])
        } else {
            prev
        }
    }
}

/// The candidates whose key is the highest key, in their order.
pub open spec fn keep_highest(cands: Seq<usize>, keys: Seq<u32>) -> Seq<usize> {
    with_key(cands, keys, max_key(keys, keys.len() as int), keys.len() as int)
}

/// How many of the ranks have value `v` or more.
pub open spec fn count_at_least(ranks: Seq<Rank>, v: int) -> nat
    decreases ranks.len(),
{
    if ranks.len() == 0 {
        0
    } else {
        count_at_least(ranks.drop_last(), v) + if rank_value(ranks.last()) >= v {
            1nat
        } else {
            0nat
        }
    }
}

/// `v` is the value of the card at position `n` when the cards are put in
/// order from the highest rank down (position 0 being the highest card): at
/// most `n` cards rank above `v`, and more than `n` rank at `v` or above.
pub open spec fn is_nth_highest(ranks: Seq<Rank>, n: nat, v: u32) -> bool {
    2 <= v <= 15 && count_at_least(ranks, v + 1) <= n < count_at_least(ranks, v as int)
}

/// The rank value at position `n` (0 for the highest card) of the cards put
/// in order from the highest rank down.
pub open spec fn nth_highest(cards: Seq<Card>, n: nat) -> u32 {
    choose|v: u32| is_nth_highest(ranks_of(cards), n, v)
}

/// Counting the cards ranked at `v` or above gives fewer cards as `v`
/// rises: all of them at 2 or below, none above the joker.
pub proof fn lemma_count_at_least_bounds(ranks: Seq<Rank>, v: int, w: int)
    ensures
        v <= w ==> count_at_least(ranks, w) <= count_at_least(ranks, v),
        count_at_least(ranks, v) <= ranks.len(),
        v <= 2 ==> count_at_least(ranks, v) == ranks.len(),
        v >= 16 ==> count_at_least(ranks, v) == 0,
    decreases ranks.len(),
{
    if ranks.len() > 0 {
        lemma_count_at_least_bounds(ranks.drop_last(), v, w);
        let r = ranks.last();
        assert(2 <= rank_value(r) <= 15) by {
            match r {
                _ => {},
            }
        }
    }
}

proof fn lemma_nth_highest_unique(ranks: Seq<Rank>, n: nat, v: u32, w: u32)
    requires
        is_nth_highest(ranks, n, v),
        is_nth_highest(ranks, n, w),
    ensures
        v == w,
{
    if v < w {
        lemma_count_at_least_bounds(ranks, v + 1, w as int);
    } else if w < v {
        lemma_count_at_least_bounds(ranks, w + 1, v as int);
    }
}

/// How many cards have rank value `v` or more.
fn count_at_least_exec(cards: &[Card], v: u8) -> (c: usize)
    ensures
        c == count_at_least(ranks_of(cards@), v as int),
{
    let mut c: usize = 0;
    let mut i: usize = 0;
    while i < cards.len()
        invariant
            0 <= i <= cards@.len(),
            c == count_at_least(ranks_of(cards@.take(i as int)), v as int),
            c <= i,
        decreases cards@.len() - i,
    {
        assert(ranks_of(cards@.take(i + 1 as int)).drop_last() =~= ranks_of(cards@.take(i as int)));
        if cards[i].rank.value() >= v {
            c = c + 1;
        }
        i = i + 1;
    }
    assert(cards@.take(cards@.len() as int) =~= cards@);
    c
}

/// The rank value of the card at position `n` (0 for the highest) when the
/// cards are put in order from the highest rank down.
pub fn nth_highest_rank(cards: &[Card], n: usize) -> (v: u32)
    requires
        n < cards@.len(),
    ensures
        v == nth_highest(cards@, n as nat),
        is_nth_highest(ranks_of(cards@), n as nat, v),
{
    let ghost ranks = ranks_of(cards@);
    let mut v: u8 = 15;
    proof {
        lemma_count_at_least_bounds(ranks, 16, 16);
    }
    while v >= 2
        invariant
            1 <= v <= 15,
            n < cards@.len(),
            ranks == ranks_of(cards@),
            count_at_least(ranks, v + 1) <= n,
        decreases v,
    {
        let c = count_at_least_exec(cards, v);
        if c > n {
            proof {
                let w = nth_highest(cards@, n as nat);
                assert(is_nth_highest(ranks, n as nat, v as u32));
                lemma_nth_highest_unique(ranks, n as nat, w, v as u32);
            }
            return v as u32;
        }
        v = v - 1;
    }
    proof {
        lemma_count_at_least_bounds(ranks, 2, 2);
    }
    0
}

proof fn lemma_min_is_lowest(scores: Seq<u32>, active: Seq<bool>, n: int, k: int)
    requires
        0 <= k < n <= scores.len(),
        n <= active.len(),
        active[k],
    ensures
        min_active_score(scores, active, n) <= scores[k],
    decreases n,
{
    if k < n - 1 {
        lemma_min_is_lowest(scores, active, n - 1, k);
    }
}

proof fn lemma_none_below_min(scores: Seq<u32>, active: Seq<bool>, target: u32, n: int)
    requires
        0 <= n <= scores.len(),
        n <= active.len(),
        target < min_active_score(scores, active, n),
    ensures
        active_with_score(scores, active, target, n) == Seq::<usize>::empty(),
    decreases n,
{
    if n > 0 {
        lemma_none_below_min(scores, active, target, n - 1);
    }
}

/// The positions, in increasing order, of the active entries with the
/// lowest score among the active entries.
pub fn lowest_scorers_exec(scores: &Vec<u32>, active: &Vec<bool>) -> (r: Vec<usize>)
    requires
        scores@.len() == active@.len(),
    ensures
        r@ == lowest_scorers(scores@, active@),
{
    let mut best: u32 = u32::MAX;
    let mut r: Vec<usize> = Vec::new();
    let mut i: usize = 0;
    while i < scores.len()
        invariant
            scores@.len() == active@.len(),
            0 <= i <= scores@.len(),
            best == min_active_score(scores@, active@, i as int),
            r@ == active_with_score(scores@, active@, best, i as int),
        decreases scores@.len() - i,
    {
        if active[i] {
            let s = scores[i];
            if s < best {
                proof {
                    lemma_none_below_min(scores@, active@, s, i as int);
                }
                best = s;
                r = Vec::new();
                r.push(i);
                assert(r@ =~= active_with_score(scores@, active@, best, i + 1 as int));
            } else if s == best {
                r.push(i);
            }
        }
        i = i + 1;
    }
    r
}

/// The candidates whose key is the highest (`keys[k]` belongs to
/// `cands[k]`), in their order.
pub fn keep_highest_exec(cands: &Vec<usize>, keys: &Vec<u32>) -> (r: Vec<usize>)
    requires
        cands@.len() == keys@.len(),
    ensures
        r@ == keep_highest(cands@, keys@),
{
    let mut highest: u32 = 0;
    let mut i: usize = 0;
    while i < keys.len()
        invariant
            0 <= i <= keys@.len(),
            highest == max_key(keys@, i as int),
        decreases keys@.len() - i,
    {
        if keys[i] > highest {
            highest = keys[i];
        }
        i = i + 1;
    }
    let mut r: Vec<usize> = Vec::new();
    let mut k: usize = 0;
    while k < keys.len()
        invariant
            cands@.len() == keys@.len(),
            0 <= k <= keys@.len(),
            highest == max_key(keys@, keys@.len() as int),
            r@ == with_key(cands@, keys@, highest, k as int),
        decreases keys@.len() - k,
    {
        if keys[k] == highest {
            r.push(cands[k]);
        }
        k = k + 1;
    }
    r
}

/// The lowest scorers are active, have the lowest score among the active
/// entries, and appear in increasing order; each active entry with that
/// score is among them; and there is at least one when any entry is active.
pub proof fn lemma_lowest_scorers(scores: Seq<u32>, active: Seq<bool>)
    requires
        scores.len() == active.len(),
        scores.len() <= usize::MAX,
    ensures
        forall|k: int| 0 <= k < lowest_scorers(scores, active).len() ==> {
            let i = #[trigger] lowest_scorers(scores, active)[k] as int;
            &&& 0 <= i < scores.len()
            &&& active[i]
            &&& forall|j: int| 0 <= j < scores.len() && active[j] ==> scores[i] <= scores[j]
        },
        forall|j: int|
            0 <= j < scores.len() && active[j] && (forall|m: int|
                0 <= m < scores.len() && active[m] ==> scores[j] <= scores[m]) ==> lowest_scorers(
                scores,
                active,
            ).contains(j as usize),
        (exists|j: int| 0 <= j < scores.len() && active[j]) ==> lowest_scorers(scores, active).len() > 0,
{
    let n = scores.len() as int;
    let m = min_active_score(scores, active, n);
    lemma_active_with_score_props(scores, active, m, n);
    assert forall|j: int| 0 <= j < n && active[j] implies m <= scores[j] by {
        lemma_min_is_lowest(scores, active, n, j);
    }
    if exists|j: int| 0 <= j < n && active[j] {
        lemma_min_attained(scores, active, n);
        let w = choose|w: int| 0 <= w < n && active[w] && scores[w] == m;
        assert(lowest_scorers(scores, active).contains(w as usize));
    }
    assert forall|j: int|
        0 <= j < n && active[j] && (forall|k: int| 0 <= k < n && active[k] ==> scores[j] <= scores[k])
        implies lowest_scorers(scores, active).contains(j as usize) by {
        lemma_min_attained(scores, active, n);
        let w = choose|w: int| 0 <= w < n && active[w] && scores[w] == m;
        assert(scores[j] <= scores[w]);
    }
}

/// The first of the lowest scorers comes no later than any other.
pub proof fn lemma_lowest_first(scores: Seq<u32>, active: Seq<bool>, j: int)
    requires
        scores.len() == active.len(),
        scores.len() <= usize::MAX,
        lowest_scorers(scores, active).contains(j as usize),
        0 <= j,
    ensures
        lowest_scorers(scores, active)[0] <= j,
{
    let n = scores.len() as int;
    lemma_active_with_score_props(scores, active, min_active_score(scores, active, n), n);
    let best = lowest_scorers(scores, active);
    let k = choose|k: int| 0 <= k < best.len() && best[k] == j as usize;
    if k > 0 {
        assert(best[0] < best[k]);
    }
}

proof fn lemma_min_attained(scores: Seq<u32>, active: Seq<bool>, n: int)
    requires
        0 <= n <= scores.len(),
        n <= active.len(),
        exists|j: int| 0 <= j < n && active[j],
    ensures
        exists|w: int| 0 <= w < n && active[w] && scores[w] == min_active_score(scores, active, n),
    decreases n,
{
    if exists|j: int| 0 <= j < n - 1 && active[j] {
        lemma_min_attained(scores, active, n - 1);
        let w = choose|w: int| 0 <= w < n - 1 && active[w] && scores[w] == min_active_score(scores, active, n - 1);
        if active[n - 1] && scores[n - 1] < min_active_score(scores, active, n - 1) {
            assert(active[n - 1] && scores[n - 1] == min_active_score(scores, active, n));
        } else {
            assert(active[w] && scores[w] == min_active_score(scores, active, n));
        }
    } else {
        let j = choose|j: int| 0 <= j < n && active[j];
        assert(j == n - 1);
        lemma_no_active_max(scores, active, n - 1);
        assert(active[n - 1] && scores[n - 1] == min_active_score(scores, active, n));
    }
}

proof fn lemma_no_active_max(scores: Seq<u32>, active: Seq<bool>, n: int)
    requires
        0 <= n <= scores.len(),
        n <= active.len(),
        forall|j: int| 0 <= j < n ==> !active[j],
    ensures
        min_active_score(scores, active, n) == u32::MAX,
    decreases n,
{
    if n > 0 {
        lemma_no_active_max(scores, active, n - 1);
    }
}

proof fn lemma_active_with_score_props(scores: Seq<u32>, active: Seq<bool>, target: u32, n: int)
    requires
        0 <= n <= scores.len(),
        scores.len() <= usize::MAX,
        n <= active.len(),
    ensures
        forall|k: int| 0 <= k < active_with_score(scores, active, target, n).len() ==> {
            let i = #[trigger] active_with_score(scores, active, target, n)[k] as int;
            0 <= i < n && active[i] && scores[i] == target
        },
        forall|j: int|
            0 <= j < n && active[j] && scores[j] == target ==> active_with_score(scores, active, target, n).contains(
                j as usize,
            ),
        forall|a: int, b: int|
            0 <= a < b < active_with_score(scores, active, target, n).len() ==> active_with_score(
                scores,
                active,
                target,
                n,
            )[a] < active_with_score(scores, active, target, n)[b],
        active_with_score(scores, active, target, n).len() <= n,
    decreases n,
{
    if n > 0 {
        lemma_active_with_score_props(scores, active, target, n - 1);
        let prev = active_with_score(scores, active, target, n - 1);
        let cur = active_with_score(scores, active, target, n);
        assert forall|j: int| 0 <= j < n && active[j] && scores[j] == target implies cur.contains(j as usize) by {
            if j < n - 1 {
                let k = choose|k: int| 0 <= k < prev.len() && prev[k] == j as usize;
                assert(cur[k] == j as usize);
            } else {
                assert(cur[cur.len() - 1] == j as usize);
            }
        }
    }
}

/// The candidates kept by `keep_highest` have the highest key, every
/// candidate with the highest key is kept, and at least one is kept when
/// there is any candidate.
pub proof fn lemma_keep_highest(cands: Seq<usize>, keys: Seq<u32>)
    requires
        cands.len() == keys.len(),
    ensures
        forall|x: usize| #[trigger]
            keep_highest(cands, keys).contains(x) ==> exists|k: int|
                0 <= k < cands.len() && cands[k] == x && forall|m: int| 0 <= m < keys.len() ==> keys[m] <= keys[k],
        forall|k: int|
            0 <= k < cands.len() && (forall|m: int| 0 <= m < keys.len() ==> keys[m] <= keys[k])
                ==> keep_highest(cands, keys).contains(cands[k]),
        cands.len() > 0 ==> keep_highest(cands, keys).len() > 0,
        keep_highest(cands, keys).len() <= cands.len(),
{
    let n = keys.len() as int;
    let h = max_key(keys, n);
    lemma_max_key(keys, n);
    lemma_with_key_props(cands, keys, h, n);
}

proof fn lemma_max_key(keys: Seq<u32>, n: int)
    requires
        0 <= n <= keys.len(),
    ensures
        forall|m: int| 0 <= m < n ==> keys[m] <= max_key(keys, n),
        n > 0 ==> exists|k: int| 0 <= k < n && keys[k] == max_key(keys, n),
    decreases n,
{
    if n > 0 {
        lemma_max_key(keys, n - 1);
        if n - 1 > 0 {
            let k = choose|k: int| 0 <= k < n - 1 && keys[k] == max_key(keys, n - 1);
            if keys[n - 1] > max_key(keys, n - 1) {
                assert(keys[n - 1] == max_key(keys, n));
            } else {
                assert(keys[k] == max_key(keys, n));
            }
        } else {
            if keys[n - 1] > max_key(keys, n - 1) {
                assert(keys[n - 1] == max_key(keys, n));
            } else {
                assert(keys[n - 1] == max_key(keys, n));
            }
        }
    }
}

proof fn lemma_with_key_props(cands: Seq<usize>, keys: Seq<u32>, target: u32, n: int)
    requires
        0 <= n <= cands.len(),
        cands.len() == keys.len(),
    ensures
        forall|x: usize| #[trigger]
            with_key(cands, keys, target, n).contains(x) ==> exists|k: int|
                0 <= k < n && cands[k] == x && keys[k] == target,
        forall|k: int| 0 <= k < n && keys[k] == target ==> with_key(cands, keys, target, n).contains(cands[k]),
        with_key(cands, keys, target, n).len() <= n,
    decreases n,
{
    if n > 0 {
        lemma_with_key_props(cands, keys, target, n - 1);
        let prev = with_key(cands, keys, target, n - 1);
        let cur = with_key(cands, keys, target, n);
        assert forall|x: usize| #[trigger] cur.contains(x) implies exists|k: int|
            0 <= k < n && cands[k] == x && keys[k] == target by {
            let j = choose|j: int| 0 <= j < cur.len() && cur[j] == x;
            if j < prev.len() {
                assert(prev.contains(x));
            } else {
                assert(cands[n - 1] == x && keys[n - 1] == target);
            }
        }
        assert forall|k: int| 0 <= k < n && keys[k] == target implies cur.contains(cands[k]) by {
            if k < n - 1 {
                let j = choose|j: int| 0 <= j < prev.len() && prev[j] == cands[k];
                assert(cur[j] == cands[k]);
            } else {
                assert(cur[cur.len() - 1] == cands[k]);
            }
        }
    }
}

/// The views of a sequence of card vectors.
pub open spec fn card_views(v: Seq<Vec<Card>>) -> Seq<Seq<Card>> {
    v.map_values(|c: Vec<Card>| c@)
}

/// The tie-break keys of the candidates at `level`: for each candidate, the
/// value of its card at that position from the top of its key cards.
pub open spec fn high_card_keys(key_cards: Seq<Seq<Card>>, cands: Seq<usize>, level: nat) -> Seq<u32> {
    Seq::new(cands.len(), |k: int| nth_highest(key_cards[cands[k] as int], level))
}

/// Narrows tied candidates by their high cards: at each level from `level`
/// up to `levels`, while more than one candidate is left, only those whose
/// card at that position from the top is the highest stay.
pub open spec fn narrow(key_cards: Seq<Seq<Card>>, cands: Seq<usize>, level: nat, levels: nat) -> Seq<usize>
    decreases levels - level,
{
    if level >= levels || cands.len() <= 1 {
        cands
    } else {
        narrow(
            key_cards,
            keep_highest(cands, high_card_keys(key_cards, cands, level)),
            level + 1,
            levels,
        )
    }
}

/// Every candidate whose key is looked at while narrowing has a card at
/// that position.
pub open spec fn narrow_ok(key_cards: Seq<Seq<Card>>, cands: Seq<usize>, level: nat, levels: nat) -> bool
    decreases levels - level,
{
    if level >= levels || cands.len() <= 1 {
        true
    } else {
        &&& forall|k: int| 0 <= k < cands.len() ==> #[trigger] cands[k] < key_cards.len()
            && level < key_cards[cands[k] as int].len()
        &&& narrow_ok(
            key_cards,
            keep_highest(cands, high_card_keys(key_cards, cands, level)),
            level + 1,
            levels,
        )
    }
}

/// The winners of a showdown: the active players with the lowest score,
/// narrowed by high cards over `levels` positions.
pub open spec fn showdown_winners(scores: Seq<u32>, active: Seq<bool>, key_cards: Seq<Seq<Card>>, levels: nat) -> Seq<usize> {
    narrow(key_cards, lowest_scorers(scores, active), 0, levels)
}

/// The showdown can be decided without looking at a card that is not there.
pub open spec fn showdown_ok(scores: Seq<u32>, active: Seq<bool>, key_cards: Seq<Seq<Card>>, levels: nat) -> bool {
    narrow_ok(key_cards, lowest_scorers(scores, active), 0, levels)
}

/// Narrows tied candidates by their high cards (see `narrow`).
pub fn narrow_by_high_cards(key_cards: &Vec<Vec<Card>>, cands: Vec<usize>, levels: usize) -> (r: Vec<usize>)
    requires
        narrow_ok(card_views(key_cards@), cands@, 0, levels as nat),
    ensures
        r@ == narrow(card_views(key_cards@), cands@, 0, levels as nat),
{
    let ghost kc = card_views(key_cards@);
    let ghost target = narrow(kc, cands@, 0, levels as nat);
    let mut cur = cands;
    let mut level: usize = 0;
    while level < levels && cur.len() > 1
        invariant
            kc == card_views(key_cards@),
            level <= levels,
            narrow(kc, cur@, level as nat, levels as nat) == target,
            narrow_ok(kc, cur@, level as nat, levels as nat),
        decreases levels - level,
    {
        let mut keys: Vec<u32> = Vec::new();
        let mut k: usize = 0;
        while k < cur.len()
            invariant
                kc == card_views(key_cards@),
                level < levels,
                cur@.len() > 1,
                narrow_ok(kc, cur@, level as nat, levels as nat),
                0 <= k <= cur@.len(),
                keys@ == high_card_keys(kc, cur@, level as nat).take(k as int),
            decreases cur@.len() - k,
        {
            let idx = cur[k];
            assert(cur@[k as int] < kc.len() && level < kc[cur@[k as int] as int].len());
            let v = nth_highest_rank(key_cards[idx].as_slice(), level);
            keys.push(v);
            assert(keys@ =~= high_card_keys(kc, cur@, level as nat).take(k + 1 as int));
            k = k + 1;
        }
        assert(keys@ =~= high_card_keys(kc, cur@, level as nat));
        cur = keep_highest_exec(&cur, &keys);
        level = level + 1;
    }
    cur
}

/// Narrows tied candidates by their high cards (see `narrow`), when that
/// can be done without looking at a card that is not there
/// (`narrow_ok`); otherwise gives `None`.
pub fn try_narrow_by_high_cards(key_cards: &Vec<Vec<Card>>, cands: Vec<usize>, levels: usize) -> (r: Option<
    Vec<usize>,
>)
    ensures
        r is Some <==> narrow_ok(card_views(key_cards@), cands@, 0, levels as nat),
        r matches Some(v) ==> v@ == narrow(card_views(key_cards@), cands@, 0, levels as nat),
{
    let ghost kc = card_views(key_cards@);
    let ghost c0 = cands@;
    let mut cur = cands;
    let mut level: usize = 0;
    while level < levels && cur.len() > 1
        invariant
            kc == card_views(key_cards@),
            c0 == cands@,
            level <= levels,
            narrow(kc, cur@, level as nat, levels as nat) == narrow(kc, c0, 0, levels as nat),
            narrow_ok(kc, cur@, level as nat, levels as nat) == narrow_ok(kc, c0, 0, levels as nat),
        decreases levels - level,
    {
        let mut k: usize = 0;
        while k < cur.len()
            invariant
                kc == card_views(key_cards@),
                c0 == cands@,
                level < levels,
                cur@.len() > 1,
                narrow(kc, cur@, level as nat, levels as nat) == narrow(kc, c0, 0, levels as nat),
                narrow_ok(kc, cur@, level as nat, levels as nat) == narrow_ok(kc, c0, 0, levels as nat),
                0 <= k <= cur@.len(),
                forall|m: int| 0 <= m < k ==> #[trigger] cur@[m] < kc.len() && level < kc[cur@[m] as int].len(),
            decreases cur@.len() - k,
        {
            if cur[k] >= key_cards.len() || level >= key_cards[cur[k]].len() {
                assert(!(cur@[k as int] < kc.len() && level < kc[cur@[k as int] as int].len()));
                assert(!narrow_ok(kc, cur@, level as nat, levels as nat));
                assert(!narrow_ok(card_views(key_cards@), c0, 0, levels as nat));
                return None;
            }
            k = k + 1;
        }
        let mut keys: Vec<u32> = Vec::new();
        let mut k: usize = 0;
        while k < cur.len()
            invariant
                kc == card_views(key_cards@),
                c0 == cands@,
                level < levels,
                cur@.len() > 1,
                narrow(kc, cur@, level as nat, levels as nat) == narrow(kc, c0, 0, levels as nat),
                narrow_ok(kc, cur@, level as nat, levels as nat) == narrow_ok(kc, c0, 0, levels as nat),
                0 <= k <= cur@.len(),
                forall|m: int| 0 <= m < cur@.len() ==> #[trigger] cur@[m] < kc.len() && level < kc[cur@[m] as int].len(),
                keys@ == high_card_keys(kc, cur@, level as nat).take(k as int),
            decreases cur@.len() - k,
        {
            let idx = cur[k];
            assert(cur@[k as int] < kc.len() && level < kc[cur@[k as int] as int].len());
            let v = nth_highest_rank(key_cards[idx].as_slice(), level);
            keys.push(v);
            assert(keys@ =~= high_card_keys(kc, cur@, level as nat).take(k + 1 as int));
            k = k + 1;
        }
        assert(keys@ =~= high_card_keys(kc, cur@, level as nat));
        cur = keep_highest_exec(&cur, &keys);
        level = level + 1;
    }
    Some(cur)
}

/// Narrowing keeps only candidates, and keeps at least one when there is
/// one.
pub proof fn lemma_narrow_subset(key_cards: Seq<Seq<Card>>, cands: Seq<usize>, level: nat, levels: nat)
    ensures
        forall|x: usize| #[trigger] narrow(key_cards, cands, level, levels).contains(x) ==> cands.contains(x),
        cands.len() > 0 ==> narrow(key_cards, cands, level, levels).len() > 0,
        narrow(key_cards, cands, level, levels).len() <= cands.len(),
    decreases levels - level,
{
    if !(level >= levels || cands.len() <= 1) {
        let keys = high_card_keys(key_cards, cands, level);
        let next = keep_highest(cands, keys);
        lemma_keep_highest(cands, keys);
        lemma_narrow_subset(key_cards, next, level + 1, levels);
        assert forall|x: usize| #[trigger] narrow(key_cards, cands, level, levels).contains(x) implies cands.contains(x) by {
            assert(next.contains(x));
            let k = choose|k: int| 0 <= k < cands.len() && cands[k] == x && forall|m: int| 0 <= m < keys.len() ==> keys[m] <= keys[k];
        }
    }
}

/// The winners of a showdown are active players with the lowest score among
/// the active players; there is at least one winner exactly when some player
/// is active; and an active player with a strictly lower score than another
/// never loses to them.
pub proof fn lemma_showdown_winners(scores: Seq<u32>, active: Seq<bool>, key_cards: Seq<Seq<Card>>, levels: nat)
    requires
        scores.len() == active.len(),
        scores.len() <= usize::MAX,
    ensures
        forall|x: usize| #[trigger] showdown_winners(scores, active, key_cards, levels).contains(x) ==> {
            &&& x < scores.len()
            &&& active[x as int]
            &&& forall|j: int| 0 <= j < scores.len() && active[j] ==> scores[x as int] <= scores[j]
        },
        (exists|j: int| 0 <= j < scores.len() && active[j]) <==> showdown_winners(scores, active, key_cards, levels).len() > 0,
        showdown_winners(scores, active, key_cards, levels).len() <= scores.len(),
{
    let t1 = lowest_scorers(scores, active);
    lemma_lowest_scorers(scores, active);
    lemma_active_with_score_props(scores, active, min_active_score(scores, active, scores.len() as int), scores.len() as int);
    lemma_narrow_subset(key_cards, t1, 0, levels);
    assert forall|x: usize| #[trigger] showdown_winners(scores, active, key_cards, levels).contains(x) implies {
        &&& x < scores.len()
        &&& active[x as int]
        &&& forall|j: int| 0 <= j < scores.len() && active[j] ==> scores[x as int] <= scores[j]
    } by {
        assert(t1.contains(x));
        let k = choose|k: int| 0 <= k < t1.len() && t1[k] == x;
        assert(t1[k] == x);
    }
    if showdown_winners(scores, active, key_cards, levels).len() > 0 {
        let x = showdown_winners(scores, active, key_cards, levels)[0];
        assert(showdown_winners(scores, active, key_cards, levels).contains(x));
        assert(active[x as int]);
    }
}

/// `winners` are the winners of a showdown among the active players, where
/// a lower `strength` is better and ties are broken by the highest and then
/// the second-highest card of each player's `key_cards`:
/// - each winner is an active player whose strength is the best of all the
///   active players;
/// - a winner's highest card is as high as that of every active player of
///   the same strength, and where the highest cards are equal, so is the
///   second-highest;
/// - an active player of the same strength as a winner whose highest and
///   second-highest cards are those of the winner is a winner too;
/// - there is a winner when some player is active.
pub open spec fn decided_by_high_cards(
    strength: Seq<u32>,
    active: Seq<bool>,
    key_cards: Seq<Seq<Card>>,
    winners: Seq<usize>,
) -> bool {
    &&& forall|m: int| #![trigger winners[m]] 0 <= m < winners.len() ==> winners[m] < strength.len() && active[winners[m] as int]
    &&& forall|m: int, j: int|
        #![trigger winners[m], active[j]]
        0 <= m < winners.len() && 0 <= j < strength.len() && active[j] ==> strength[winners[m] as int] <= strength[j]
    &&& forall|m: int, j: int|
        #![trigger winners[m], active[j]]
        0 <= m < winners.len() && 0 <= j < strength.len() && active[j] && strength[j] == strength[winners[m] as int]
            ==> {
            let w = winners[m] as int;
            &&& nth_highest(key_cards[j], 0) <= nth_highest(key_cards[w], 0)
            &&& nth_highest(key_cards[j], 0) == nth_highest(key_cards[w], 0) ==> nth_highest(key_cards[j], 1)
                <= nth_highest(key_cards[w], 1)
            &&& nth_highest(key_cards[j], 0) == nth_highest(key_cards[w], 0) && nth_highest(key_cards[j], 1)
                == nth_highest(key_cards[w], 1) ==> winners.contains(j as usize)
        }
    &&& (exists|j: int| 0 <= j < strength.len() && active[j]) ==> winners.len() > 0
}

/// The winners of a showdown decided over two high cards are the best
/// active players, ties broken by the highest and then the second-highest
/// key card (see `decided_by_high_cards`).
pub proof fn lemma_two_card_showdown(scores: Seq<u32>, active: Seq<bool>, key_cards: Seq<Seq<Card>>)
    requires
        scores.len() == active.len(),
        scores.len() <= usize::MAX,
        showdown_ok(scores, active, key_cards, 2),
    ensures
        decided_by_high_cards(scores, active, key_cards, showdown_winners(scores, active, key_cards, 2)),
{
    let n = scores.len() as int;
    let w = showdown_winners(scores, active, key_cards, 2);
    let t = lowest_scorers(scores, active);
    lemma_showdown_winners(scores, active, key_cards, 2);
    lemma_lowest_scorers(scores, active);
    lemma_narrow_subset(key_cards, t, 0, 2);
    assert forall|m: int| #![trigger w[m]] 0 <= m < w.len() implies w[m] < n && active[w[m] as int] by {
        assert(w.contains(w[m]));
    }
    assert forall|m: int, j: int|
        #![trigger w[m], active[j]]
        0 <= m < w.len() && 0 <= j < n && active[j] implies scores[w[m] as int] <= scores[j] by {
        assert(w.contains(w[m]));
    }
    assert forall|m: int, j: int|
        #![trigger w[m], active[j]]
        0 <= m < w.len() && 0 <= j < n && active[j] && scores[j] == scores[w[m] as int] implies {
        let x = w[m] as int;
        &&& nth_highest(key_cards[j], 0) <= nth_highest(key_cards[x], 0)
        &&& nth_highest(key_cards[j], 0) == nth_highest(key_cards[x], 0) ==> nth_highest(key_cards[j], 1)
            <= nth_highest(key_cards[x], 1)
        &&& nth_highest(key_cards[j], 0) == nth_highest(key_cards[x], 0) && nth_highest(key_cards[j], 1)
            == nth_highest(key_cards[x], 1) ==> w.contains(j as usize)
    } by {
        let x = w[m] as int;
        assert(w.contains(w[m]));
        assert(t.contains(x as usize));
        // j ties with the best, so it is one of the lowest scorers
        assert(t.contains(j as usize));
        lemma_tie_break_step(key_cards, t, x as usize, j as usize);
    }
    if exists|j: int| 0 <= j < n && active[j] {
        assert(w.len() > 0);
    }
}

/// One winner `x` and one tied candidate `j` among `t`, after narrowing `t`
/// over two high cards.
proof fn lemma_tie_break_step(key_cards: Seq<Seq<Card>>, t: Seq<usize>, x: usize, j: usize)
    requires
        narrow_ok(key_cards, t, 0, 2),
        narrow(key_cards, t, 0, 2).contains(x),
        t.contains(j),
    ensures
        nth_highest(key_cards[j as int], 0) <= nth_highest(key_cards[x as int], 0),
        nth_highest(key_cards[j as int], 0) == nth_highest(key_cards[x as int], 0) ==> nth_highest(
            key_cards[j as int],
            1,
        ) <= nth_highest(key_cards[x as int], 1),
        nth_highest(key_cards[j as int], 0) == nth_highest(key_cards[x as int], 0) && nth_highest(
            key_cards[j as int],
            1,
        ) == nth_highest(key_cards[x as int], 1) ==> narrow(key_cards, t, 0, 2).contains(j),
{
    if t.len() <= 1 {
        let a = choose|a: int| 0 <= a < t.len() && t[a] == j;
        let b = choose|b: int| 0 <= b < t.len() && t[b] == x;
        assert(a == 0 && b == 0);
    } else {
        let keys0 = high_card_keys(key_cards, t, 0);
        let t1 = keep_highest(t, keys0);
        lemma_keep_highest(t, keys0);
        lemma_narrow_subset(key_cards, t1, 1, 2);
        assert(t1.contains(x));
        let kx = choose|k: int| 0 <= k < t.len() && t[k] == x && forall|m: int| 0 <= m < keys0.len() ==> keys0[m] <= keys0[k];
        let kj = choose|k: int| 0 <= k < t.len() && t[k] == j;
        assert(keys0[kj] == nth_highest(key_cards[j as int], 0));
        assert(keys0[kx] == nth_highest(key_cards[x as int], 0));
        assert(keys0[kj] <= keys0[kx]);
        if keys0[kj] == keys0[kx] {
            assert forall|m: int| 0 <= m < keys0.len() implies keys0[m] <= keys0[kj] by {}
            assert(t1.contains(t[kj]));
            if t1.len() <= 1 {
                let a = choose|a: int| 0 <= a < t1.len() && t1[a] == j;
                let b = choose|b: int| 0 <= b < t1.len() && t1[b] == x;
                assert(a == 0 && b == 0);
                assert(narrow(key_cards, t, 0, 2) == t1);
            } else {
                let keys1 = high_card_keys(key_cards, t1, 1);
                let t2 = keep_highest(t1, keys1);
                lemma_keep_highest(t1, keys1);
                assert(narrow(key_cards, t1, 1, 2) == narrow(key_cards, t2, 2, 2));
                assert(narrow(key_cards, t, 0, 2) == t2);
                assert(t2.contains(x));
                let lx = choose|k: int| 0 <= k < t1.len() && t1[k] == x && forall|m: int| 0 <= m < keys1.len() ==> keys1[m] <= keys1[k];
                let lj = choose|k: int| 0 <= k < t1.len() && t1[k] == j;
                assert(keys1[lj] == nth_highest(key_cards[j as int], 1));
                assert(keys1[lx] == nth_highest(key_cards[x as int], 1));
                assert(keys1[lj] <= keys1[lx]);
                if keys1[lj] == keys1[lx] {
                    assert forall|m: int| 0 <= m < keys1.len() implies keys1[m] <= keys1[lj] by {}
                    assert(t2.contains(t1[lj]));
                }
            }
        }
    }
}

/// Comparing cards from the highest down, at positions `level` up to
/// `levels`, the cards `a` do not beat the cards `b`: at the first position
/// where they differ, `b`'s card is higher (or they never differ).
pub open spec fn high_cards_at_most(a: Seq<Card>, b: Seq<Card>, level: nat, levels: nat) -> bool
    decreases levels - level,
{
    if level >= levels {
        true
    } else {
        ||| nth_highest(a, level) < nth_highest(b, level)
        ||| nth_highest(a, level) == nth_highest(b, level) && high_cards_at_most(a, b, level + 1, levels)
    }
}

/// The cards `a` and `b` have cards of the same ranks at the positions
/// `level` up to `levels`, from the highest down.
pub open spec fn same_high_cards(a: Seq<Card>, b: Seq<Card>, level: nat, levels: nat) -> bool {
    forall|l: nat| level <= l < levels ==> #[trigger] nth_highest(a, l) == nth_highest(b, l)
}

/// `winners` are the winners of a showdown among the active players, where
/// a lower `strength` is better and ties are broken by comparing each
/// player's `key_cards` from the highest down, over `levels` positions:
/// each winner is an active player of the best strength; no active player
/// of that strength has better high cards than a winner; one with the same
/// high cards as a winner is a winner too; and there is a winner when some
/// player is active.
pub open spec fn decided_by_high_card_order(
    strength: Seq<u32>,
    active: Seq<bool>,
    key_cards: Seq<Seq<Card>>,
    levels: nat,
    winners: Seq<usize>,
) -> bool {
    &&& forall|m: int| #![trigger winners[m]] 0 <= m < winners.len() ==> winners[m] < strength.len() && active[winners[m] as int]
    &&& forall|m: int, j: int|
        #![trigger winners[m], active[j]]
        0 <= m < winners.len() && 0 <= j < strength.len() && active[j] ==> strength[winners[m] as int] <= strength[j]
    &&& forall|m: int, j: int|
        #![trigger winners[m], active[j]]
        0 <= m < winners.len() && 0 <= j < strength.len() && active[j] && strength[j] == strength[winners[m] as int]
            ==> high_cards_at_most(key_cards[j], key_cards[winners[m] as int], 0, levels) && (same_high_cards(
            key_cards[j],
            key_cards[winners[m] as int],
            0,
            levels,
        ) ==> winners.contains(j as usize))
    &&& (exists|j: int| 0 <= j < strength.len() && active[j]) ==> winners.len() > 0
}

proof fn lemma_high_cards_at_most_refl(a: Seq<Card>, level: nat, levels: nat)
    ensures
        high_cards_at_most(a, a, level, levels),
    decreases levels - level,
{
    if level < levels {
        lemma_high_cards_at_most_refl(a, level + 1, levels);
    }
}

proof fn lemma_narrow_order(key_cards: Seq<Seq<Card>>, t: Seq<usize>, level: nat, levels: nat, x: usize, j: usize)
    requires
        narrow_ok(key_cards, t, level, levels),
        narrow(key_cards, t, level, levels).contains(x),
        t.contains(j),
    ensures
        high_cards_at_most(key_cards[j as int], key_cards[x as int], level, levels),
        same_high_cards(key_cards[j as int], key_cards[x as int], level, levels) ==> narrow(
            key_cards,
            t,
            level,
            levels,
        ).contains(j),
    decreases levels - level,
{
    if level >= levels {
    } else if t.len() <= 1 {
        let a = choose|a: int| 0 <= a < t.len() && t[a] == j;
        let b = choose|b: int| 0 <= b < t.len() && t[b] == x;
        assert(a == 0 && b == 0);
        lemma_high_cards_at_most_refl(key_cards[j as int], level, levels);
    } else {
        let keys = high_card_keys(key_cards, t, level);
        let t1 = keep_highest(t, keys);
        lemma_keep_highest(t, keys);
        lemma_narrow_subset(key_cards, t1, level + 1, levels);
        assert(t1.contains(x));
        let kx = choose|k: int| 0 <= k < t.len() && t[k] == x && forall|m: int| 0 <= m < keys.len() ==> keys[m] <= keys[k];
        let kj = choose|k: int| 0 <= k < t.len() && t[k] == j;
        assert(keys[kj] == nth_highest(key_cards[j as int], level));
        assert(keys[kx] == nth_highest(key_cards[x as int], level));
        assert(keys[kj] <= keys[kx]);
        if keys[kj] == keys[kx] {
            assert forall|m: int| 0 <= m < keys.len() implies keys[m] <= keys[kj] by {}
            assert(t1.contains(t[kj]));
            lemma_narrow_order(key_cards, t1, level + 1, levels, x, j);
            if same_high_cards(key_cards[j as int], key_cards[x as int], level, levels) {
                assert forall|l: nat| level + 1 <= l < levels implies #[trigger] nth_highest(key_cards[j as int], l)
                    == nth_highest(key_cards[x as int], l) by {}
            }
        } else {
            if same_high_cards(key_cards[j as int], key_cards[x as int], level, levels) {
                assert(nth_highest(key_cards[j as int], level) == nth_highest(key_cards[x as int], level));
            }
        }
    }
}

/// The winners of a showdown are the best active players, ties broken by
/// comparing their key cards from the highest down over `levels` positions
/// (see `decided_by_high_card_order`).
pub proof fn lemma_showdown_order(scores: Seq<u32>, active: Seq<bool>, key_cards: Seq<Seq<Card>>, levels: nat)
    requires
        scores.len() == active.len(),
        scores.len() <= usize::MAX,
        showdown_ok(scores, active, key_cards, levels),
    ensures
        decided_by_high_card_order(scores, active, key_cards, levels, showdown_winners(scores, active, key_cards, levels)),
{
    let n = scores.len() as int;
    let w = showdown_winners(scores, active, key_cards, levels);
    let t = lowest_scorers(scores, active);
    lemma_showdown_winners(scores, active, key_cards, levels);
    lemma_lowest_scorers(scores, active);
    lemma_narrow_subset(key_cards, t, 0, levels);
    assert forall|m: int| #![trigger w[m]] 0 <= m < w.len() implies w[m] < n && active[w[m] as int] by {
        assert(w.contains(w[m]));
    }
    assert forall|m: int, j: int|
        #![trigger w[m], active[j]]
        0 <= m < w.len() && 0 <= j < n && active[j] implies scores[w[m] as int] <= scores[j] by {
        assert(w.contains(w[m]));
    }
    assert forall|m: int, j: int|
        #![trigger w[m], active[j]]
        0 <= m < w.len() && 0 <= j < n && active[j] && scores[j] == scores[w[m] as int] implies high_cards_at_most(
        key_cards[j],
        key_cards[w[m] as int],
        0,
        levels,
    ) && (same_high_cards(key_cards[j], key_cards[w[m] as int], 0, levels) ==> w.contains(j as usize)) by {
        assert(w.contains(w[m]));
        assert(t.contains(w[m]));
        assert(t.contains(j as usize));
        lemma_narrow_order(key_cards, t, 0, levels, w[m], j as usize);
    }
    if exists|j: int| 0 <= j < n && active[j] {
        assert(w.len() > 0);
    }
}

proof fn lemma_count_positions(ranks: Seq<Rank>, v: int)
    ensures
        count_at_least(ranks, v) >= 1 ==> exists|i: int| 0 <= i < ranks.len() && rank_value(#[trigger] ranks[i]) >= v,
        count_at_least(ranks, v) >= 2 ==> exists|i: int, k: int|
            0 <= i < k < ranks.len() && rank_value(#[trigger] ranks[i]) >= v && rank_value(#[trigger] ranks[k]) >= v,
        forall|i: int| 0 <= i < ranks.len() && rank_value(#[trigger] ranks[i]) >= v ==> count_at_least(ranks, v) >= 1,
        forall|i: int, k: int|
            0 <= i < k < ranks.len() && rank_value(#[trigger] ranks[i]) >= v && rank_value(#[trigger] ranks[k]) >= v
                ==> count_at_least(ranks, v) >= 2,
    decreases ranks.len(),
{
    if ranks.len() > 0 {
        let p = ranks.drop_last();
        let last = ranks.len() - 1;
        lemma_count_positions(p, v);
        if count_at_least(ranks, v) >= 1 {
            if count_at_least(p, v) >= 1 {
                let i = choose|i: int| 0 <= i < p.len() && rank_value(#[trigger] p[i]) >= v;
                assert(ranks[i] == p[i]);
            } else {
                assert(rank_value(ranks[last]) >= v);
            }
        }
        if count_at_least(ranks, v) >= 2 {
            if count_at_least(p, v) >= 2 {
                let (i, k) = choose|i: int, k: int|
                    0 <= i < k < p.len() && rank_value(#[trigger] p[i]) >= v && rank_value(#[trigger] p[k]) >= v;
                assert(ranks[i] == p[i] && ranks[k] == p[k]);
            } else {
                let i = choose|i: int| 0 <= i < p.len() && rank_value(#[trigger] p[i]) >= v;
                assert(ranks[i] == p[i]);
                assert(rank_value(ranks[last]) >= v);
            }
        }
        assert forall|i: int| 0 <= i < ranks.len() && rank_value(#[trigger] ranks[i]) >= v implies count_at_least(
            ranks,
            v,
        ) >= 1 by {
            if i < last {
                assert(ranks[i] == p[i]);
            }
        }
        assert forall|i: int, k: int|
            0 <= i < k < ranks.len() && rank_value(#[trigger] ranks[i]) >= v && rank_value(#[trigger] ranks[k]) >= v
            implies count_at_least(ranks, v) >= 2 by {
            assert(ranks[i] == p[i]);
            if k < last {
                assert(ranks[k] == p[k]);
            }
        }
    }
}

proof fn lemma_nth_exists(ranks: Seq<Rank>, n: nat, v: int)
    requires
        n < ranks.len(),
        1 <= v <= 15,
        count_at_least(ranks, v + 1) <= n,
    ensures
        exists|w: u32| is_nth_highest(ranks, n, w),
    decreases v,
{
    lemma_count_at_least_bounds(ranks, v, v);
    lemma_count_at_least_bounds(ranks, 2, 2);
    if count_at_least(ranks, v) > n {
        assert(v >= 2);
        assert(is_nth_highest(ranks, n, v as u32));
    } else {
        lemma_count_at_least_bounds(ranks, 2, 2);
        lemma_nth_exists(ranks, n, v - 1);
    }
}

/// The rank value at the top of a hand is its highest card's, and the one
/// after it is its second-highest card's: it is the highest value that two
/// different cards of the hand both reach.
pub proof fn lemma_high_card_values(cards: Seq<Card>)
    ensures
        cards.len() >= 1 ==> {
            &&& exists|i: int| 0 <= i < cards.len() && rank_value(#[trigger] cards[i].rank) == nth_highest(cards, 0)
            &&& forall|i: int| 0 <= i < cards.len() ==> rank_value(#[trigger] cards[i].rank) <= nth_highest(cards, 0)
        },
        cards.len() >= 2 ==> {
            &&& exists|i: int, k: int|
                0 <= i < k < cards.len() && rank_value(#[trigger] cards[i].rank) >= nth_highest(cards, 1)
                    && rank_value(#[trigger] cards[k].rank) >= nth_highest(cards, 1)
            &&& forall|i: int, k: int|
                0 <= i < k < cards.len() ==> rank_value(#[trigger] cards[i].rank) <= nth_highest(cards, 1)
                    || rank_value(#[trigger] cards[k].rank) <= nth_highest(cards, 1)
        },
{
    let ranks = ranks_of(cards);
    assert forall|i: int| 0 <= i < cards.len() implies ranks[i] == #[trigger] cards[i].rank by {}
    lemma_count_at_least_bounds(ranks, 16, 16);
    if cards.len() >= 1 {
        lemma_nth_exists(ranks, 0, 15);
        let v = nth_highest(cards, 0);
        assert(is_nth_highest(ranks, 0, v));
        lemma_count_positions(ranks, v as int);
        lemma_count_positions(ranks, v + 1);
        let i = choose|i: int| 0 <= i < ranks.len() && rank_value(#[trigger] ranks[i]) >= v;
        assert(rank_value(cards[i].rank) == v);
    }
    if cards.len() >= 2 {
        lemma_nth_exists(ranks, 1, 15);
        let v = nth_highest(cards, 1);
        assert(is_nth_highest(ranks, 1, v));
        lemma_count_positions(ranks, v as int);
        lemma_count_positions(ranks, v + 1);
        let (i, k) = choose|i: int, k: int|
            0 <= i < k < ranks.len() && rank_value(#[trigger] ranks[i]) >= v && rank_value(#[trigger] ranks[k]) >= v;
        assert(rank_value(cards[i].rank) >= v && rank_value(cards[k].rank) >= v);
    }
}

} // verus!
