//! Sets of cards as 64-bit masks.

use crate::engine::DECK_SIZE;
use vstd::prelude::*;

verus! {

/// A set of card numbers below 64, one bit each.
#[derive(Debug, Clone, Copy, PartialEq, Eq, Structural)]
pub struct CardSet {
    pub bits: u64,
}

/// Whether bit `card` of `bits` is set.
pub open spec fn bit_set(bits: u64, card: u8) -> bool {
    bits & (1u64 << (card as u64)) != 0
}

proof fn lemma_insert_bit(bits: u64, card: u8, other: u8)
    requires
        card < 64,
        other < 64,
    ensures
        bit_set(bits | (1u64 << (card as u64)), other) <==> bit_set(bits, other) || other == card,
{
    let c = card as u64;
    let d = other as u64;
    assert((bits | (1u64 << c)) & (1u64 << d) != 0 <==> bits & (1u64 << d) != 0 || c == d)
        by (bit_vector)
        requires
            c < 64,
            d < 64,
    ;
}

impl CardSet {
    /// Whether the set holds `card`.
    pub open spec fn has(self, card: u8) -> bool {
        card < 64 && bit_set(self.bits, card)
    }

    /// The empty set.
    pub fn new() -> (set: CardSet)
        ensures
            forall|card: u8| !set.has(card),
    {
        let set = CardSet { bits: 0 };
        assert forall|card: u8| !set.has(card) by {
            if card < 64 {
                let d = card as u64;
                assert(0u64 & (1u64 << d) == 0) by (bit_vector);
            }
        }
        set
    }

    /// Add `card`.
    pub fn insert(&mut self, card: u8)
        requires
            card < 64,
        ensures
            forall|other: u8| final(self).has(other) <==> old(self).has(other) || other == card,
    {
        let ghost before = *self;
        self.bits = self.bits | (1u64 << (card as u64));
        assert forall|other: u8| self.has(other) <==> before.has(other) || other == card by {
            if other < 64 {
                lemma_insert_bit(before.bits, card, other);
            }
        }
    }

    /// Whether the set holds `card`.
    pub fn contains(&self, card: u8) -> (held: bool)
        requires
            card < 64,
        ensures
            held == self.has(card),
    {
        self.bits & (1u64 << (card as u64)) != 0
    }

    /// The real cards of a slice: empty slots are left out.
    pub fn of_cards(cards: &[u8]) -> (set: CardSet)
        ensures
            forall|card: u8| set.has(card) <==> card < DECK_SIZE && cards@.contains(card),
    {
        let mut set = CardSet::new();
        let mut i: usize = 0;
        while i < cards.len()
            invariant
                i <= cards@.len(),
                forall|card: u8|
                    set.has(card) <==> card < DECK_SIZE && cards@.take(i as int).contains(card),
            decreases cards@.len() - i,
        {
            let ghost before = set;
            if cards[i] < DECK_SIZE {
                set.insert(cards[i]);
            }
            i += 1;
            assert forall|card: u8|
                set.has(card) <==> card < DECK_SIZE && cards@.take(i as int).contains(card) by {
                let shorter = cards@.take(i - 1);
                let longer = cards@.take(i as int);
                assert(longer =~= shorter.push(cards@[i - 1]));
                if shorter.contains(card) {
                    let k = choose|k: int| 0 <= k < shorter.len() && shorter[k] == card;
                    assert(longer[k] == card);
                }
                if longer.contains(card) {
                    let k = choose|k: int| 0 <= k < longer.len() && longer[k] == card;
                    if k < i - 1 {
                        assert(shorter[k] == card);
                    }
                }
                if card == cards@[i - 1] {
                    assert(longer[i - 1] == card);
                }
            }
        }
        assert(cards@.take(i as int) =~= cards@);
        set
    }
}

} // verus!
