//! The 1326 two-card hands, numbered, and card removal among them.
//!
//! A belief over an opponent's hole cards is a weight per hand.  This module
//! holds its combinatorial half: the numbering of the hands, and which of them
//! survive when cards become known.

use crate::engine::DECK_SIZE;
use crate::util::card_set::CardSet;
use vstd::prelude::*;

verus! {

/// Number of distinct two-card combinations: `C(52, 2)`.
pub const NUM_COMBOS: usize = 1326;

/// Combinations whose smaller card is below `a`.
pub open spec fn combos_before(a: nat) -> nat
    decreases a,
{
    if a == 0 {
        0
    } else {
        (combos_before((a - 1) as nat) + 51 - (a - 1)) as nat
    }
}

/// The place of the pair `a < b` when pairs are listed by smaller card, then by
/// larger card.
pub open spec fn combo_rank(a: u8, b: u8) -> int {
    combos_before(a as nat) + (b - a - 1)
}

/// A pair of cards in ascending order.
pub open spec fn is_combo(a: u8, b: u8) -> bool {
    a < b < DECK_SIZE
}

proof fn lemma_combos_before(a: nat)
    requires
        a <= 52,
    ensures
        2 * combos_before(a) == a * (103 - a),
    decreases a,
{
    if a == 0 {
        assert(a * (103 - a) == 0) by (nonlinear_arith)
            requires
                a == 0,
        ;
    } else {
        lemma_combos_before((a - 1) as nat);
        let p = (a - 1) as nat;
        assert(a * (103 - a) == p * (103 - p) + 2 * (51 - p)) by (nonlinear_arith)
            requires
                a == p + 1,
        ;
    }
}

proof fn lemma_combos_before_monotone(a: nat, b: nat)
    requires
        a <= b <= 52,
    ensures
        combos_before(a) <= combos_before(b),
    decreases b,
{
    if a < b {
        lemma_combos_before_monotone(a, (b - 1) as nat);
    }
}

/// Ranks are below [`NUM_COMBOS`], and distinct pairs have distinct ranks.
pub proof fn law_combo_rank_injective(a: u8, b: u8, c: u8, d: u8)
    requires
        is_combo(a, b),
        is_combo(c, d),
    ensures
        0 <= combo_rank(a, b) < NUM_COMBOS,
        combo_rank(a, b) == combo_rank(c, d) ==> a == c && b == d,
{
    lemma_combos_before_monotone(a as nat + 1, 51);
    assert(combos_before(51) == 1326) by {
        lemma_combos_before(51);
    }
    if a < c {
        lemma_combos_before_monotone(a as nat + 1, c as nat);
    } else if c < a {
        lemma_combos_before_monotone(c as nat + 1, a as nat);
    }
}

/// The `i`-th two-card combination in canonical `(a < b)` order.
pub fn combo_cards(index: usize) -> (cards: [u8; 2])
    requires
        index < NUM_COMBOS,
    ensures
        is_combo(cards[0], cards[1]),
        combo_rank(cards[0], cards[1]) == index,
{
    let mut i: usize = index;
    let mut a: u8 = 0;
    while a < 51
        invariant
            a <= 51,
            index < NUM_COMBOS,
            index == combos_before(a as nat) + i,
        ensures
            a == 51,
            index < NUM_COMBOS,
            index >= combos_before(51),
        decreases 51 - a,
    {
        let span: usize = 51 - a as usize;
        if i < span {
            return [a, a + 1 + i as u8];
        }
        i -= span;
        a += 1;
    }
    proof {
        lemma_combos_before(51);
    }
    assert(false);
    [0, 1]
}

/// Index of the combination `{c0, c1}` (order-independent) in `0..NUM_COMBOS`.
pub fn combo_index(c0: u8, c1: u8) -> (index: usize)
    requires
        c0 < DECK_SIZE,
        c1 < DECK_SIZE,
        c0 != c1,
    ensures
        index == if c0 < c1 { combo_rank(c0, c1) } else { combo_rank(c1, c0) },
        index < NUM_COMBOS,
{
    let (lo, hi): (u8, u8) = if c0 < c1 { (c0, c1) } else { (c1, c0) };
    let a: usize = lo as usize;
    let b: usize = hi as usize;
    proof {
        lemma_combos_before(a as nat);
        law_combo_rank_injective(lo, hi, lo, hi);
        assert(0 <= a * (103 - a) <= 52 * 103) by (nonlinear_arith)
            requires
                a <= 51,
        ;
    }
    let before: usize = a * (103 - a) / 2;
    before + (b - a - 1)
}

/// The numbering goes both ways: a pair's index leads back to the pair, and an
/// index is that of the pair it names.
pub proof fn law_combo_round_trip(index: usize, a: u8, b: u8)
    requires
        index < NUM_COMBOS,
        is_combo(a, b),
    ensures
        exists|x: u8, y: u8| is_combo(x, y) && #[trigger] combo_rank(x, y) == index,
        forall|x: u8, y: u8| is_combo(x, y) && #[trigger] combo_rank(x, y) == combo_rank(a, b) ==> x
            == a && y == b,
{
    lemma_combo_exists(index as int, 0);
    assert forall|x: u8, y: u8|
        is_combo(x, y) && #[trigger] combo_rank(x, y) == combo_rank(a, b) implies x == a && y
        == b by {
        law_combo_rank_injective(x, y, a, b);
    }
}

proof fn lemma_combo_exists(index: int, a: u8)
    requires
        a <= 51,
        combos_before(a as nat) <= index < NUM_COMBOS,
    ensures
        exists|x: u8, y: u8| is_combo(x, y) && #[trigger] combo_rank(x, y) == index,
    decreases 51 - a,
{
    if a == 51 {
        lemma_combos_before(51);
    } else if index < combos_before(a as nat) + (51 - a) {
        let y = (a + 1 + (index - combos_before(a as nat))) as u8;
        assert(is_combo(a, y) && combo_rank(a, y) == index);
    } else {
        lemma_combo_exists(index, (a + 1) as u8);
    }
}

/// `live` marks exactly the hands that share no card with `dead`.
pub open spec fn marks_live(live: Seq<bool>, dead: spec_fn(u8) -> bool) -> bool {
    &&& live.len() == NUM_COMBOS
    &&& forall|a: u8, b: u8|
        is_combo(a, b) ==> (live[#[trigger] combo_rank(a, b)] <==> !dead(a) && !dead(b))
}

/// Which hands avoid every card of `dead`.
pub fn live_combos(dead: CardSet) -> (live: Vec<bool>)
    ensures
        marks_live(live@, |card: u8| dead.has(card)),
{
    let mut live: Vec<bool> = Vec::new();
    let mut i: usize = 0;
    while i < NUM_COMBOS
        invariant
            i <= NUM_COMBOS,
            live@.len() == i,
            forall|a: u8, b: u8|
                is_combo(a, b) && #[trigger] combo_rank(a, b) < i ==> (live@[combo_rank(a, b)] <==> !dead.has(a)
                    && !dead.has(b)),
        decreases NUM_COMBOS - i,
    {
        let cards: [u8; 2] = combo_cards(i);
        let ghost before = live@;
        live.push(!dead.contains(cards[0]) && !dead.contains(cards[1]));
        i += 1;
        assert forall|a: u8, b: u8|
            is_combo(a, b) && #[trigger] combo_rank(a, b) < i implies (live@[combo_rank(a, b)] <==> !dead.has(a)
            && !dead.has(b)) by {
            law_combo_rank_injective(a, b, cards[0], cards[1]);
            if combo_rank(a, b) < i - 1 {
                assert(live@[combo_rank(a, b)] == before[combo_rank(a, b)]);
            }
        }
    }
    assert forall|a: u8, b: u8| is_combo(a, b) implies (live@[#[trigger] combo_rank(a, b)] <==> !dead.has(a)
        && !dead.has(b)) by {
        law_combo_rank_injective(a, b, a, b);
    }
    live
}

/// Card removal: which hands share no card with the known `cards` (empty board
/// slots say nothing).
pub fn surviving_combos(cards: &[u8]) -> (live: Vec<bool>)
    ensures
        marks_live(live@, |card: u8| cards@.contains(card)),
{
    let dead = CardSet::of_cards(cards);
    let live = live_combos(dead);
    assert forall|a: u8, b: u8| is_combo(a, b) implies (live@[#[trigger] combo_rank(a, b)] <==> !cards@.contains(
        a,
    ) && !cards@.contains(b)) by {
        assert((|card: u8| dead.has(card))(a) == dead.has(a));
    }
    live
}

/// Whether the `i`-th hand shares a card with `cards`.
pub open spec fn is_blocked(cards: Seq<u8>, i: int) -> bool {
    exists|a: u8, b: u8|
        is_combo(a, b) && #[trigger] combo_rank(a, b) == i && (cards.contains(a) || cards.contains(
            b,
        ))
}

/// Weights by hand after card removal: `zero` for every hand that shares a card
/// with `cards`, and the others as they were.
pub open spec fn without_cards<T>(weights: Seq<T>, zero: T, cards: Seq<u8>) -> Seq<T> {
    Seq::new(
        weights.len(),
        |i: int|
            if is_blocked(cards, i) {
                zero
            } else {
                weights[i]
            },
    )
}

/// Card removal on weights of any kind: hands that share a card with `cards`
/// become impossible, and nothing else changes (empty board slots say nothing).
pub fn remove_cards<T: Copy>(weights: &mut Vec<T>, zero: T, cards: &[u8])
    requires
        old(weights)@.len() == NUM_COMBOS,
    ensures
        final(weights)@ == without_cards(old(weights)@, zero, cards@),
{
    let live: Vec<bool> = surviving_combos(cards);
    let ghost before = weights@;
    let mut i: usize = 0;
    while i < NUM_COMBOS
        invariant
            i <= NUM_COMBOS,
            weights@.len() == before.len() == NUM_COMBOS,
            marks_live(live@, |card: u8| cards@.contains(card)),
            forall|k: int| i <= k < NUM_COMBOS ==> #[trigger] weights@[k] == before[k],
            forall|k: int|
                0 <= k < i ==> #[trigger] weights@[k] == without_cards(before, zero, cards@)[k],
        decreases NUM_COMBOS - i,
    {
        proof {
            lemma_live_or_blocked(live@, cards@, i as int);
        }
        if !live[i] {
            weights.set(i, zero);
        }
        i += 1;
    }
    assert(weights@ =~= without_cards(before, zero, cards@));
}

proof fn lemma_live_or_blocked(live: Seq<bool>, cards: Seq<u8>, i: int)
    requires
        marks_live(live, |card: u8| cards.contains(card)),
        0 <= i < NUM_COMBOS,
    ensures
        live[i] <==> !is_blocked(cards, i),
{
    lemma_combo_exists(i, 0);
    let (x, y): (u8, u8) = choose|x: u8, y: u8| is_combo(x, y) && #[trigger] combo_rank(x, y) == i;
    assert(live[combo_rank(x, y)] <==> !cards.contains(x) && !cards.contains(y));
    assert forall|a: u8, b: u8| is_combo(a, b) && #[trigger] combo_rank(a, b) == i implies a == x
        && b == y by {
        law_combo_rank_injective(a, b, x, y);
    }
}

/// Card removal, hand by hand: a hand with a removed card has weight zero, any
/// other keeps its weight.
pub proof fn law_removal_by_hand<T>(weights: Seq<T>, zero: T, cards: Seq<u8>, a: u8, b: u8)
    requires
        weights.len() == NUM_COMBOS,
        is_combo(a, b),
    ensures
        without_cards(weights, zero, cards)[combo_rank(a, b)] == if cards.contains(a)
            || cards.contains(b) {
            zero
        } else {
            weights[combo_rank(a, b)]
        },
{
    law_combo_rank_injective(a, b, a, b);
    assert forall|x: u8, y: u8|
        is_combo(x, y) && #[trigger] combo_rank(x, y) == combo_rank(a, b) implies x == a && y
        == b by {
        law_combo_rank_injective(x, y, a, b);
    }
}

/// Removing the same cards again changes nothing.
pub proof fn law_removal_idempotent<T>(weights: Seq<T>, zero: T, cards: Seq<u8>)
    ensures
        without_cards(without_cards(weights, zero, cards), zero, cards) == without_cards(
            weights,
            zero,
            cards,
        ),
{
    assert(without_cards(without_cards(weights, zero, cards), zero, cards) =~= without_cards(
        weights,
        zero,
        cards,
    ));
}

/// Only the cards of the deck among those removed count: neither their order,
/// nor empty slots among them, change anything.
pub proof fn law_removal_reads_the_deck<T>(weights: Seq<T>, zero: T, cards: Seq<u8>, other: Seq<u8>)
    requires
        forall|c: u8| c < DECK_SIZE ==> (#[trigger] cards.contains(c) <==> other.contains(c)),
    ensures
        without_cards(weights, zero, cards) == without_cards(weights, zero, other),
{
    assert forall|i: int| is_blocked(cards, i) == is_blocked(other, i) by {
        if is_blocked(cards, i) {
            let (a, b): (u8, u8) = choose|a: u8, b: u8|
                is_combo(a, b) && #[trigger] combo_rank(a, b) == i && (cards.contains(a)
                    || cards.contains(b));
            assert(cards.contains(a) <==> other.contains(a));
            assert(cards.contains(b) <==> other.contains(b));
        }
        if is_blocked(other, i) {
            let (a, b): (u8, u8) = choose|a: u8, b: u8|
                is_combo(a, b) && #[trigger] combo_rank(a, b) == i && (other.contains(a)
                    || other.contains(b));
            assert(cards.contains(a) <==> other.contains(a));
            assert(cards.contains(b) <==> other.contains(b));
        }
    }
    assert(without_cards(weights, zero, cards) =~= without_cards(weights, zero, other));
}

/// The hands of a list, marked: the support of a range made of exactly them.
pub fn listed_combos(hands: &[[u8; 2]]) -> (listed: Vec<bool>)
    requires
        forall|k: int|
            0 <= k < hands@.len() ==> (#[trigger] hands@[k])[0] < DECK_SIZE && hands@[k][1]
                < DECK_SIZE && hands@[k][0] != hands@[k][1],
    ensures
        listed@.len() == NUM_COMBOS,
        forall|a: u8, b: u8|
            is_combo(a, b) ==> (listed@[#[trigger] combo_rank(a, b)] <==> lists_hand(hands@, a, b)),
{
    let mut listed: Vec<bool> = vec![false; NUM_COMBOS];
    let mut k: usize = 0;
    proof {
        assert forall|a: u8, b: u8| is_combo(a, b) implies (listed@[#[trigger] combo_rank(a, b)]
            <==> lists_hand(hands@.take(0), a, b)) by {
            law_combo_rank_injective(a, b, a, b);
        }
    }
    while k < hands.len()
        invariant
            k <= hands@.len(),
            listed@.len() == NUM_COMBOS,
            forall|m: int|
                0 <= m < hands@.len() ==> (#[trigger] hands@[m])[0] < DECK_SIZE && hands@[m][1]
                    < DECK_SIZE && hands@[m][0] != hands@[m][1],
            forall|a: u8, b: u8|
                is_combo(a, b) ==> (listed@[#[trigger] combo_rank(a, b)] <==> lists_hand(
                    hands@.take(k as int),
                    a,
                    b,
                )),
        decreases hands@.len() - k,
    {
        let hand: [u8; 2] = hands[k];
        let i: usize = combo_index(hand[0], hand[1]);
        let ghost before = listed@;
        listed.set(i, true);
        k += 1;
        assert forall|a: u8, b: u8| is_combo(a, b) implies (listed@[#[trigger] combo_rank(a, b)]
            <==> lists_hand(hands@.take(k as int), a, b)) by {
            let shorter = hands@.take(k - 1);
            let longer = hands@.take(k as int);
            let lo = if hand[0] < hand[1] { hand[0] } else { hand[1] };
            let hi = if hand[0] < hand[1] { hand[1] } else { hand[0] };
            law_combo_rank_injective(a, b, lo, hi);
            assert(longer[k - 1] == hand);
            if lists_hand(shorter, a, b) {
                let m = choose|m: int| 0 <= m < shorter.len() && same_hand(#[trigger] shorter[m], a, b);
                assert(same_hand(longer[m], a, b));
            }
            if lists_hand(longer, a, b) {
                let m = choose|m: int| 0 <= m < longer.len() && same_hand(#[trigger] longer[m], a, b);
                if m < k - 1 {
                    assert(same_hand(shorter[m], a, b));
                }
            }
            if a == lo && b == hi {
                assert(same_hand(longer[k - 1], a, b));
            }
        }
    }
    assert(hands@.take(k as int) =~= hands@);
    listed
}

/// Whether `hand` is the pair `{a, b}`.
pub open spec fn same_hand(hand: [u8; 2], a: u8, b: u8) -> bool {
    (hand[0] == a && hand[1] == b) || (hand[0] == b && hand[1] == a)
}

/// Whether `hands` lists the pair `{a, b}`.
pub open spec fn lists_hand(hands: Seq<[u8; 2]>, a: u8, b: u8) -> bool {
    exists|m: int| 0 <= m < hands.len() && same_hand(#[trigger] hands[m], a, b)
}

/// Hands are numbered in the order of their lower card, and of their higher card
/// where the lower is the same, from 0 up to 1325.
pub proof fn law_hands_are_numbered_in_order(a: u8, b: u8, c: u8, d: u8)
    requires
        a < b < 52,
        c < d < 52,
    ensures
        is_combo(a, b),
        0 <= combo_rank(a, b) < 1326,
        combo_rank(a, b) < combo_rank(c, d) <==> a < c || (a == c && b < d),
        combo_rank(0, 1) == 0,
        combo_rank(50, 51) == 1325,
{
    law_combo_rank_injective(a, b, c, d);
    lemma_combos_before(0);
    lemma_combos_before(50);
    if a < c {
        lemma_combos_before_monotone(a as nat + 1, c as nat);
    } else if c < a {
        lemma_combos_before_monotone(c as nat + 1, a as nat);
    }
}

/// A hand is a pair of a lower and a higher card of the deck.
pub proof fn law_hands_are_ordered_pairs(a: u8, b: u8)
    ensures
        is_combo(a, b) <==> a < b && b <= 51,
{
}

/// A listed pair is one of the hands, whichever card comes first.
pub proof fn law_listed_either_way(hands: Seq<[u8; 2]>, a: u8, b: u8)
    ensures
        lists_hand(hands, a, b) <==> hands.contains([a, b]) || hands.contains([b, a]),
        lists_hand(hands, a, b) == lists_hand(hands, b, a),
{
    if lists_hand(hands, a, b) {
        let m = choose|m: int| 0 <= m < hands.len() && same_hand(#[trigger] hands[m], a, b);
        assert(hands[m]@ =~= seq![hands[m][0], hands[m][1]]);
        assert([a, b]@ =~= seq![a, b]);
        assert([b, a]@ =~= seq![b, a]);
        assert(same_hand(hands[m], b, a));
        assert(hands[m] == [a, b] || hands[m] == [b, a]);
    }
    if lists_hand(hands, b, a) {
        let m = choose|m: int| 0 <= m < hands.len() && same_hand(#[trigger] hands[m], b, a);
        assert(same_hand(hands[m], a, b));
    }
    if hands.contains([a, b]) {
        let m = choose|m: int| 0 <= m < hands.len() && hands[m] == [a, b];
        assert(same_hand(hands[m], a, b));
    }
    if hands.contains([b, a]) {
        let m = choose|m: int| 0 <= m < hands.len() && hands[m] == [b, a];
        assert(same_hand(hands[m], a, b));
    }
}

/// The marks of live hands: a hand is live exactly where neither card is dead.
pub proof fn law_live_hands_are_marked(live: Seq<bool>, dead: spec_fn(u8) -> bool, a: u8, b: u8)
    requires
        marks_live(live, dead),
        a < b < 52,
    ensures
        live.len() == 1326,
        live[combo_rank(a, b)] <==> !(dead(a) || dead(b)),
{
}

} // verus!
