//! Laws of the blueprint's game, told card by card and action by action: what a
//! draw deals, which actions the cap leaves, and what counts as a raise.

use super::{capped_menu, is_sized_raise, law_shuffle_keeps_the_deck, raises_after, shuffled};
use crate::engine::{Action, GameState};
use crate::util::filter::lemma_filter_agree;
use vstd::prelude::*;

verus! {

/// Draws that lie among the cards left: 52 before the first draw, one fewer
/// before each later one.
pub open spec fn in_range(draws: Seq<usize>) -> bool {
    &&& draws.len() == 9
    &&& forall|i: int| 0 <= i < 9 ==> (#[trigger] draws[i]) < 52 - i
}

proof fn lemma_dealt_stays(draws: Seq<usize>, k: nat, m: nat, i: int)
    requires
        i < k <= m <= 9,
        0 <= i,
        m <= draws.len(),
    ensures
        shuffled(draws, m)[i] == shuffled(draws, k)[i],
    decreases m,
{
    law_shuffle_keeps_the_deck(draws, m);
    if k < m {
        law_shuffle_keeps_the_deck(draws, (m - 1) as nat);
        lemma_dealt_stays(draws, k, (m - 1) as nat, i);
    }
}

/// The deck starts in card order; the `i`-th draw deals the card that lies
/// `draws[i]` places behind the top of the cards left, which changes places with
/// that top card; and a dealt card stays dealt.  A draw beyond the last card
/// deals the last card.
pub proof fn law_draws_deal_their_card(draws: Seq<usize>, i: int, j: int)
    requires
        draws.len() == 9,
        0 <= i < 9,
        0 <= j < 52,
    ensures
        ({
            let before = shuffled(draws, i as nat);
            let after = shuffled(draws, (i + 1) as nat);
            let place = if draws[i] < 52 - i {
                i + draws[i]
            } else {
                51
            };
            &&& shuffled(draws, 0)[j] == j
            &&& shuffled(draws, 9)[i] == before[place]
            &&& after[j] == if j == i {
                before[place]
            } else if j == place {
                before[i]
            } else {
                before[j]
            }
        }),
{
    law_shuffle_keeps_the_deck(draws, i as nat);
    lemma_dealt_stays(draws, (i + 1) as nat, 9, i);
}

proof fn lemma_same_draws(d: Seq<usize>, e: Seq<usize>, k: nat)
    requires
        k <= d.len(),
        k <= e.len(),
        forall|i: int| 0 <= i < k ==> d[i] == e[i],
    ensures
        shuffled(d, k) == shuffled(e, k),
    decreases k,
{
    if k > 0 {
        lemma_same_draws(d, e, (k - 1) as nat);
    }
}

/// Different draws give different deals.
pub proof fn law_different_draws_differ(d: Seq<usize>, e: Seq<usize>)
    requires
        in_range(d),
        in_range(e),
        forall|i: int| 0 <= i < 9 ==> #[trigger] shuffled(d, 9)[i] == shuffled(e, 9)[i],
    ensures
        d == e,
{
    lemma_draws_agree(d, e, 9);
    assert(d =~= e);
}

proof fn lemma_draws_agree(d: Seq<usize>, e: Seq<usize>, k: nat)
    requires
        in_range(d),
        in_range(e),
        k <= 9,
        forall|i: int| 0 <= i < 9 ==> #[trigger] shuffled(d, 9)[i] == shuffled(e, 9)[i],
    ensures
        forall|i: int| 0 <= i < k ==> d[i] == e[i],
    decreases k,
{
    if k > 0 {
        let m = (k - 1) as nat;
        lemma_draws_agree(d, e, m);
        lemma_same_draws(d, e, m);
        law_draws_deal_their_card(d, m as int, 0);
        law_draws_deal_their_card(e, m as int, 0);
        law_shuffle_keeps_the_deck(d, m);
        let deck = shuffled(d, m);
        assert(shuffled(d, 9)[m as int] == shuffled(e, 9)[m as int]);
        assert(d[m as int] < 52 - m && e[m as int] < 52 - m);
        assert(deck[m + d[m as int]] == deck[m + e[m as int]]);
    }
}

proof fn lemma_deck_complete(draws: Seq<usize>, k: nat, c: u8) -> (j: int)
    requires
        k <= 9,
        k <= draws.len(),
        c < 52,
    ensures
        0 <= j < 52,
        shuffled(draws, k)[j] == c,
    decreases k,
{
    law_shuffle_keeps_the_deck(draws, k);
    if k == 0 {
        c as int
    } else {
        law_shuffle_keeps_the_deck(draws, (k - 1) as nat);
        let i = lemma_deck_complete(draws, (k - 1) as nat, c);
        let place = super::swap_place(k - 1, draws[k - 1] as int);
        if i == k - 1 {
            place
        } else if i == place {
            k - 1
        } else {
            i
        }
    }
}

/// Every deal can be drawn: whatever nine distinct cards are wished for, in
/// whatever order, there are draws that deal exactly them.
pub proof fn law_every_deal_can_be_drawn(cards: Seq<u8>) -> (draws: Seq<usize>)
    requires
        cards.len() == 9,
        cards.no_duplicates(),
        forall|i: int| 0 <= i < 9 ==> (#[trigger] cards[i]) < 52,
    ensures
        in_range(draws),
        forall|i: int| 0 <= i < 9 ==> #[trigger] shuffled(draws, 9)[i] == cards[i],
{
    lemma_drawn_prefix(cards, 9)
}

proof fn lemma_drawn_prefix(cards: Seq<u8>, k: nat) -> (draws: Seq<usize>)
    requires
        k <= 9,
        cards.len() == 9,
        cards.no_duplicates(),
        forall|i: int| 0 <= i < 9 ==> (#[trigger] cards[i]) < 52,
    ensures
        draws.len() == k,
        forall|i: int| 0 <= i < k ==> (#[trigger] draws[i]) < 52 - i,
        forall|i: int| 0 <= i < k ==> #[trigger] shuffled(draws, k)[i] == cards[i],
    decreases k,
{
    if k == 0 {
        Seq::empty()
    } else {
        let m = (k - 1) as nat;
        let shorter = lemma_drawn_prefix(cards, m);
        let c = cards[m as int];
        let j = lemma_deck_complete(shorter, m, c);
        law_shuffle_keeps_the_deck(shorter, m);
        if j < m {
            assert(shuffled(shorter, m)[j] == cards[j]);
        }
        let draws = shorter.push((j - m) as usize);
        lemma_same_draws(shorter, draws, m);
        law_shuffle_keeps_the_deck(draws, k);
        assert(super::swap_place(m as int, draws[m as int] as int) == j);
        assert forall|i: int| 0 <= i < k implies #[trigger] shuffled(draws, k)[i] == cards[i] by {
            if i < m {
                assert(shuffled(shorter, m)[i] == cards[i]);
            }
        }
        draws
    }
}

/// The capped menu is the engine's, in the engine's order: all of it while
/// raises may still be made on the street, and from the cap on all but the sized
/// raises.
pub proof fn law_capped_menu(full: Seq<Action>, street_raises: u8, raise_cap: u32)
    ensures
        street_raises < raise_cap ==> capped_menu(full, street_raises, raise_cap) == full,
        street_raises >= raise_cap ==> capped_menu(full, street_raises, raise_cap) == full.filter(
            not_a_raise(),
        ),
{
    if street_raises >= raise_cap {
        lemma_filter_agree(full, |a: Action| !is_sized_raise(a), not_a_raise());
    }
}

/// Being a fold, a check, a call or an all-in.
pub open spec fn not_a_raise() -> spec_fn(Action) -> bool {
    |a: Action|
        match a {
            Action::Fold | Action::Check | Action::Call | Action::AllIn => true,
            Action::Raise(_) => false,
        }
}

/// The raise count starts over on a new street, goes up by one (and no further
/// than 255) where the bet level rose, and stays where it did not.
pub proof fn law_raises_are_counted(prev: u8, old_street: u8, old_bet: u32, gs: GameState)
    ensures
        gs.street != old_street ==> raises_after(prev, old_street, old_bet, gs) == 0,
        gs.street == old_street && gs.current_bet > old_bet && prev < 255 ==> raises_after(
            prev,
            old_street,
            old_bet,
            gs,
        ) == prev + 1,
        gs.street == old_street && (gs.current_bet <= old_bet || prev == 255) ==> raises_after(
            prev,
            old_street,
            old_bet,
            gs,
        ) == prev,
{
}

} // verus!
