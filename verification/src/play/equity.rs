//! The cards behind all-in equity: the unseen deck, the boards it can still
//! make, and the generator that draws among them.
//!
//! Equity is needed exactly when the abstract tracker has desynced: the
//! opponent raised past the blueprint's raise cap and the abstraction has no
//! node for the spot.  The value is *all-in* equity — the board runs out with no
//! further betting — so it is an average over completed boards.  Which boards
//! those are is settled here; a river board is complete, a turn or flop is
//! completed in every possible way, and preflop a few completions are drawn.

use crate::engine::DECK_SIZE;
use crate::util::card_set::CardSet;
use vstd::prelude::*;

verus! {

/// Runouts drawn when the remaining board is too wide to enumerate (preflop).
/// Each sample already averages over the opponent's whole range, so the
/// residual noise is in the runout only and 200 draws put it well under 1%.
pub const PREFLOP_SAMPLES: usize = 200;

/// The multiplier of the generator's output.
pub const RNG_MULTIPLIER: u64 = 0x2545_F491_4F6C_DD1D;

/// One step of the xorshift64* generator's state.
pub open spec fn xorshift(x: u64) -> u64 {
    let a = x ^ (x >> 12);
    let b = a ^ (a << 25);
    b ^ (b >> 27)
}

/// What the generator yields in state `x`: the numerator of a fraction of
/// `2^53`.
pub open spec fn unit_numerator(x: u64) -> u64 {
    ((x * RNG_MULTIPLIER) % 0x1_0000_0000_0000_0000) as u64 >> 11
}

/// Advance the generator and draw: a uniform `n`, for the number `n / 2^53` in
/// `[0, 1)`.
pub fn next_unit(rng: &mut u64) -> (n: u64)
    ensures
        *final(rng) == xorshift(*old(rng)),
        n == unit_numerator(*final(rng)),
        n < 0x20_0000_0000_0000,
{
    let mut x: u64 = *rng;
    x = x ^ (x >> 12);
    x = x ^ (x << 25);
    x = x ^ (x >> 27);
    *rng = x;
    let product: u64 = x.wrapping_mul(RNG_MULTIPLIER);
    assert(product >> 11 < 0x20_0000_0000_0000) by (bit_vector);
    product >> 11
}

/// A generator that starts off nonzero never gets stuck at zero, and no two
/// states lead to the same next one.
pub proof fn law_generator_never_sticks(x: u64, y: u64)
    ensures
        x != 0 ==> xorshift(x) != 0,
        xorshift(x) == xorshift(y) ==> x == y,
{
    assert(x != 0 ==> ({
        let a = x ^ (x >> 12);
        let b = a ^ (a << 25);
        b ^ (b >> 27)
    }) != 0) by (bit_vector);
    let a = x ^ (x >> 12);
    let b = a ^ (a << 25);
    let c = y ^ (y >> 12);
    let d = c ^ (c << 25);
    assert(b ^ (b >> 27) == d ^ (d >> 27) ==> b == d) by (bit_vector);
    assert(a ^ (a << 25) == c ^ (c << 25) ==> a == c) by (bit_vector);
    assert(x ^ (x >> 12) == y ^ (y >> 12) ==> x == y) by (bit_vector);
}

/// Where a generator starts for a seed: an odd state, so never zero.
pub fn seeded(seed: u64) -> (rng: u64)
    ensures
        rng == seed | 1,
        rng != 0,
{
    assert(seed | 1 != 0) by (bit_vector);
    seed | 1
}

/// `deck` lists the cards outside `known`, in ascending order.
pub open spec fn is_live_deck(deck: Seq<u8>, known: Seq<u8>) -> bool {
    &&& forall|i: int, j: int| 0 <= i < j < deck.len() ==> deck[i] < deck[j]
    &&& forall|c: u8| #[trigger] deck.contains(c) <==> c < DECK_SIZE && !known.contains(c)
}

/// The known cards leave one live deck.
pub proof fn law_live_deck_unique(deck: Seq<u8>, other: Seq<u8>, known: Seq<u8>)
    requires
        is_live_deck(deck, known),
        is_live_deck(other, known),
    ensures
        deck == other,
{
    assert forall|c: u8| deck.contains(c) <==> other.contains(c) by {}
    lemma_ascending_unique(deck, other);
}

proof fn lemma_ascending_unique(a: Seq<u8>, b: Seq<u8>)
    requires
        forall|i: int, j: int| 0 <= i < j < a.len() ==> a[i] < a[j],
        forall|i: int, j: int| 0 <= i < j < b.len() ==> b[i] < b[j],
        forall|c: u8| a.contains(c) <==> b.contains(c),
    ensures
        a == b,
    decreases a.len(),
{
    if a.len() == 0 {
        if b.len() > 0 {
            assert(b.contains(b[0]));
        }
    } else {
        assert(a.contains(a.last()));
        let k = choose|k: int| 0 <= k < b.len() && b[k] == a.last();
        assert(b.contains(b.last()));
        let m = choose|m: int| 0 <= m < a.len() && a[m] == b.last();
        assert(a.last() == b.last());
        let (x, y) = (a.drop_last(), b.drop_last());
        assert forall|c: u8| x.contains(c) <==> y.contains(c) by {
            if x.contains(c) {
                let i = choose|i: int| 0 <= i < x.len() && x[i] == c;
                assert(a[i] == c);
                assert(a.contains(c));
                assert(c < a.last());
                let j = choose|j: int| 0 <= j < b.len() && b[j] == c;
                assert(y[j] == c);
            }
            if y.contains(c) {
                let i = choose|i: int| 0 <= i < y.len() && y[i] == c;
                assert(b[i] == c);
                assert(b.contains(c));
                assert(c < b.last());
                let j = choose|j: int| 0 <= j < a.len() && a[j] == c;
                assert(x[j] == c);
            }
        }
        lemma_ascending_unique(x, y);
        assert(a =~= x.push(a.last()));
        assert(b =~= y.push(b.last()));
    }
    assert(a =~= b);
}

/// The cards outside `known`, in ascending order.
pub fn live_deck(known: &[u8]) -> (deck: Vec<u8>)
    ensures
        is_live_deck(deck@, known@),
{
    let used = CardSet::of_cards(known);
    let mut deck: Vec<u8> = Vec::new();
    let mut c: u8 = 0;
    while c < DECK_SIZE
        invariant
            c <= DECK_SIZE,
            forall|card: u8| used.has(card) <==> card < DECK_SIZE && known@.contains(card),
            forall|i: int, j: int| 0 <= i < j < deck@.len() ==> deck@[i] < deck@[j],
            forall|i: int| 0 <= i < deck@.len() ==> #[trigger] deck@[i] < c,
            forall|x: u8| #[trigger] deck@.contains(x) <==> x < c && !known@.contains(x),
        decreases DECK_SIZE - c,
    {
        let ghost before = deck@;
        if !used.contains(c) {
            deck.push(c);
            assert forall|x: u8| #[trigger] deck@.contains(x) <==> x < c + 1 && !known@.contains(
                x,
            ) by {
                if before.contains(x) {
                    let k = choose|k: int| 0 <= k < before.len() && before[k] == x;
                    assert(deck@[k] == x);
                }
                if deck@.contains(x) {
                    let k = choose|k: int| 0 <= k < deck@.len() && deck@[k] == x;
                    if k < before.len() {
                        assert(before[k] == x);
                    }
                }
                if x == c {
                    assert(deck@[before.len() as int] == x);
                }
            }
        }
        c += 1;
    }
    deck
}

/// Every distinct known card is missing from the deck, and no other.
pub proof fn law_deck_size(deck: Seq<u8>, known: Seq<u8>)
    requires
        is_live_deck(deck, known),
        known.no_duplicates(),
        forall|i: int| 0 <= i < known.len() ==> #[trigger] known[i] < DECK_SIZE,
    ensures
        deck.len() + known.len() == DECK_SIZE,
{
    let all = Seq::new(DECK_SIZE as nat, |i: int| i as u8);
    let joined = deck + known;
    assert(deck.no_duplicates());
    assert forall|c: u8| #[trigger] all.contains(c) <==> joined.contains(c) by {
        if c < DECK_SIZE {
            assert(all[c as int] == c);
            assert(deck.contains(c) || known.contains(c));
            if deck.contains(c) {
                let k = choose|k: int| 0 <= k < deck.len() && deck[k] == c;
                assert(joined[k] == c);
            } else {
                let k = choose|k: int| 0 <= k < known.len() && known[k] == c;
                assert(joined[deck.len() + k] == c);
            }
        } else if joined.contains(c) {
            let k = choose|k: int| 0 <= k < joined.len() && joined[k] == c;
            if k < deck.len() {
                assert(deck.contains(c));
            }
        }
    }
    assert(joined.no_duplicates()) by {
        assert forall|i: int, j: int| 0 <= i < j < joined.len() implies joined[i] != joined[j] by {
            if i < deck.len() {
                assert(deck.contains(joined[i]));
                if j >= deck.len() {
                    assert(known.contains(known[j - deck.len()]));
                }
            }
        }
    }
    assert(all.no_duplicates());
    all.unique_seq_to_set();
    joined.unique_seq_to_set();
    assert(all.to_set() =~= joined.to_set());
}

/// The completions of a flop by the pairs of deck cards whose first card is
/// among the first `i`: smaller card by smaller card.
pub open spec fn flop_runouts(board: Seq<u8>, deck: Seq<u8>, i: nat) -> Seq<Seq<u8>>
    decreases i,
{
    if i == 0 {
        Seq::empty()
    } else {
        flop_runouts(board, deck, (i - 1) as nat) + Seq::new(
            (deck.len() - i) as nat,
            |k: int| board + seq![deck[i - 1], deck[i + k]],
        )
    }
}

/// Every way to complete a board of three cards or more out of `deck`.
pub open spec fn runouts_of(board: Seq<u8>, deck: Seq<u8>) -> Seq<Seq<u8>> {
    if board.len() == 5 {
        seq![board]
    } else if board.len() == 4 {
        Seq::new(deck.len(), |i: int| board.push(deck[i]))
    } else {
        flop_runouts(board, deck, deck.len())
    }
}

/// Boards as sequences.
pub open spec fn board_views(boards: Seq<[u8; 5]>) -> Seq<Seq<u8>> {
    Seq::new(boards.len(), |i: int| boards[i]@)
}

/// Every way to complete a board of three, four or five cards out of `deck`.
pub fn runouts(board: &[u8], deck: &[u8]) -> (boards: Vec<[u8; 5]>)
    requires
        3 <= board@.len() <= 5,
    ensures
        board_views(boards@) == runouts_of(board@, deck@),
{
    let mut boards: Vec<[u8; 5]> = Vec::new();
    if board.len() == 5 {
        let full: [u8; 5] = [board[0], board[1], board[2], board[3], board[4]];
        assert(full@ =~= board@);
        boards.push(full);
        assert(board_views(boards@) =~= runouts_of(board@, deck@));
    } else if board.len() == 4 {
        let mut i: usize = 0;
        while i < deck.len()
            invariant
                i <= deck@.len(),
                board@.len() == 4,
                boards@.len() == i,
                forall|k: int| 0 <= k < i ==> (#[trigger] boards@[k])@ == board@.push(deck@[k]),
            decreases deck@.len() - i,
        {
            let full: [u8; 5] = [board[0], board[1], board[2], board[3], deck[i]];
            assert(full@ =~= board@.push(deck@[i as int]));
            boards.push(full);
            i += 1;
        }
        assert(board_views(boards@) =~= runouts_of(board@, deck@));
    } else {
        let mut i: usize = 0;
        assert(board_views(boards@) =~= flop_runouts(board@, deck@, 0));
        while i < deck.len()
            invariant
                i <= deck@.len(),
                board@.len() == 3,
                board_views(boards@) == flop_runouts(board@, deck@, i as nat),
            decreases deck@.len() - i,
        {
            let ghost before = boards@;
            let mut j: usize = i + 1;
            while j < deck.len()
                invariant
                    i < j <= deck@.len(),
                    board@.len() == 3,
                    before.len() <= boards@.len(),
                    boards@.len() == before.len() + (j - i - 1),
                    board_views(before) == flop_runouts(board@, deck@, i as nat),
                    forall|k: int| 0 <= k < before.len() ==> #[trigger] boards@[k] == before[k],
                    forall|k: int|
                        before.len() <= k < boards@.len() ==> (#[trigger] boards@[k])@ == board@
                            + seq![deck@[i as int], deck@[i + 1 + (k - before.len())]],
                decreases deck@.len() - j,
            {
                let full: [u8; 5] = [board[0], board[1], board[2], deck[i], deck[j]];
                assert(full@ =~= board@ + seq![deck@[i as int], deck@[j as int]]);
                boards.push(full);
                j += 1;
            }
            assert(board_views(boards@) =~= flop_runouts(board@, deck@, (i + 1) as nat));
            i += 1;
        }
    }
    boards
}

/// A flop's completions are the pairs of deck cards, each once: there are
/// `n(n-1)/2` of them, and every pair is among them.
pub proof fn law_flop_runouts_are_pairs(board: Seq<u8>, deck: Seq<u8>, x: int, y: int)
    requires
        0 <= x < y < deck.len(),
    ensures
        2 * flop_runouts(board, deck, deck.len()).len() == deck.len() * (deck.len() - 1),
        flop_runouts(board, deck, deck.len()).contains(board + seq![deck[x], deck[y]]),
{
    lemma_flop_count(board, deck, deck.len());
    lemma_flop_contains(board, deck, deck.len(), x, y);
    let n = deck.len() as int;
    assert(2 * n * n - n * (n + 1) == n * (n - 1)) by (nonlinear_arith);
}

proof fn lemma_flop_count(board: Seq<u8>, deck: Seq<u8>, i: nat)
    requires
        i <= deck.len(),
    ensures
        2 * flop_runouts(board, deck, i).len() == 2 * i * deck.len() - i * (i + 1),
    decreases i,
{
    let n = deck.len() as int;
    if i == 0 {
        assert(2 * i * n - i * (i + 1) == 0) by (nonlinear_arith)
            requires
                i == 0,
        ;
    } else {
        lemma_flop_count(board, deck, (i - 1) as nat);
        let p = i - 1;
        assert(2 * i * n - i * (i + 1) == 2 * p * n - p * (p + 1) + 2 * (n - i))
            by (nonlinear_arith)
            requires
                p == i - 1,
        ;
    }
}

proof fn lemma_flop_contains(board: Seq<u8>, deck: Seq<u8>, i: nat, x: int, y: int)
    requires
        0 <= x < y < deck.len(),
        x < i <= deck.len(),
    ensures
        flop_runouts(board, deck, i).contains(board + seq![deck[x], deck[y]]),
    decreases i,
{
    let shorter = flop_runouts(board, deck, (i - 1) as nat);
    let longer = flop_runouts(board, deck, i);
    if x < i - 1 {
        lemma_flop_contains(board, deck, (i - 1) as nat, x, y);
        let k = choose|k: int|
            0 <= k < shorter.len() && shorter[k] == board + seq![deck[x], deck[y]];
        assert(longer[k] == shorter[k]);
    } else {
        assert(longer[shorter.len() + (y - i)] == board + seq![deck[x], deck[y]]);
    }
}

/// A deck after its `k`-th card is drawn, the last card taking its place.
pub open spec fn deck_after(deck: Seq<u8>, k: int) -> Seq<u8> {
    deck.update(k, deck.last()).drop_last()
}

/// The place that a draw picks: at most the last one.
pub open spec fn place_of(draw: usize, left: nat) -> int {
    if draw < left {
        draw as int
    } else {
        left - 1
    }
}

/// The cards that `draws` take out of a deck, one after the other.
pub open spec fn drawn_cards(deck: Seq<u8>, draws: Seq<usize>) -> Seq<u8>
    decreases draws.len(),
{
    if draws.len() == 0 || deck.len() == 0 {
        Seq::empty()
    } else {
        let k = place_of(draws[0], deck.len());
        seq![deck[k]] + drawn_cards(deck_after(deck, k), draws.skip(1))
    }
}

/// Draw one card out of a deck, the last card taking its place.
fn draw_card(deck: &mut Vec<u8>, draw: usize) -> (card: u8)
    requires
        old(deck)@.len() > 0,
    ensures
        card == old(deck)@[place_of(draw, old(deck)@.len())],
        final(deck)@ == deck_after(old(deck)@, place_of(draw, old(deck)@.len())),
{
    let last: usize = deck.len() - 1;
    let k: usize = if draw < deck.len() {
        draw
    } else {
        last
    };
    deck.swap_remove(k)
}

/// A whole board drawn from a deck; `draws` are the five drawn places.
pub fn sampled_runout(deck: &[u8], draws: &[usize; 5]) -> (board: [u8; 5])
    requires
        deck@.len() >= 5,
    ensures
        board@ == drawn_cards(deck@, draws@),
{
    let mut left: Vec<u8> = Vec::new();
    left.extend_from_slice(deck);
    assert(left@ =~= deck@);
    let mut board: [u8; 5] = [0, 0, 0, 0, 0];
    let mut i: usize = 0;
    assert(draws@.skip(0) =~= draws@);
    assert(board@.take(0) + drawn_cards(left@, draws@.skip(0)) =~= drawn_cards(deck@, draws@));
    while i < 5
        invariant
            i <= 5,
            left@.len() >= 5 - i,
            draws@.len() == 5,
            board@.take(i as int) + drawn_cards(left@, draws@.skip(i as int)) == drawn_cards(
                deck@,
                draws@,
            ),
        decreases 5 - i,
    {
        let ghost before = left@;
        let ghost shorter = board@.take(i as int);
        let card: u8 = draw_card(&mut left, draws[i]);
        board[i] = card;
        proof {
            let rest = draws@.skip(i as int);
            assert(rest[0] == draws@[i as int]);
            assert(rest.skip(1) =~= draws@.skip(i + 1));
            assert(board@.take(i + 1) =~= shorter.push(card));
            assert(drawn_cards(before, rest) == seq![card] + drawn_cards(
                left@,
                draws@.skip(i + 1),
            ));
            assert(board@.take(i + 1) + drawn_cards(left@, draws@.skip(i + 1)) =~= shorter
                + drawn_cards(before, rest));
        }
        i += 1;
    }
    assert(drawn_cards(left@, draws@.skip(5)) =~= Seq::empty());
    assert(board@.take(5) =~= board@);
    board
}

/// However the draws fall, a drawn board is made of distinct cards of the deck.
pub proof fn law_drawn_cards_are_distinct(deck: Seq<u8>, draws: Seq<usize>)
    requires
        deck.no_duplicates(),
        draws.len() <= deck.len(),
    ensures
        drawn_cards(deck, draws).len() == draws.len(),
        drawn_cards(deck, draws).no_duplicates(),
        forall|c: u8| #[trigger] drawn_cards(deck, draws).contains(c) ==> deck.contains(c),
    decreases draws.len(),
{
    if draws.len() > 0 {
        let k = place_of(draws[0], deck.len());
        let rest = deck_after(deck, k);
        let tail = drawn_cards(rest, draws.skip(1));
        assert forall|i: int, j: int| 0 <= i < j < rest.len() implies rest[i] != rest[j] by {}
        assert(forall|c: u8| #[trigger] rest.contains(c) ==> deck.contains(c) && c != deck[k]) by {
            assert forall|c: u8| #[trigger] rest.contains(c) implies deck.contains(c) && c
                != deck[k] by {
                let i = choose|i: int| 0 <= i < rest.len() && rest[i] == c;
                if i == k {
                    assert(c == deck[deck.len() - 1]);
                } else {
                    assert(c == deck[i]);
                }
            }
        }
        law_drawn_cards_are_distinct(rest, draws.skip(1));
        let all = drawn_cards(deck, draws);
        assert(all =~= seq![deck[k]] + tail);
        assert forall|i: int, j: int| 0 <= i < j < all.len() implies all[i] != all[j] by {
            assert(all[j] == tail[j - 1]);
            assert(tail.contains(tail[j - 1]));
            if i > 0 {
                assert(all[i] == tail[i - 1]);
            }
        }
        assert forall|c: u8| #[trigger] all.contains(c) implies deck.contains(c) by {
            let i = choose|i: int| 0 <= i < all.len() && all[i] == c;
            if i > 0 {
                assert(tail[i - 1] == c);
                assert(tail.contains(c));
            }
        }
    }
}

/// What the generator yields is the top 53 bits of the state times the
/// multiplier, in 64 bits: the quotient by 2048.
pub proof fn law_units_are_the_top_bits(x: u64)
    ensures
        ({
            let product = (x * 0x2545_F491_4F6C_DD1D) % 0x1_0000_0000_0000_0000;
            unit_numerator(x) * 2048 <= product < (unit_numerator(x) + 1) * 2048
        }),
{
    let product = ((x * RNG_MULTIPLIER) % 0x1_0000_0000_0000_0000) as u64;
    assert(product >> 11 == product / 2048) by (bit_vector);
}

/// The generator's state is mixed by three shifts: undoing the last two leaves
/// the state with its own bits 12 places down mixed in.
pub proof fn law_generator_mixes_three_shifts(x: u64, low: u64, mid: u64)
    requires
        low == x ^ (x >> 12),
        mid == low ^ (low << 25),
    ensures
        xorshift(x) ^ (mid >> 27) == mid,
{
    let a = x ^ (x >> 12);
    let b = a ^ (a << 25);
    assert((b ^ (b >> 27)) ^ (b >> 27) == b) by (bit_vector);
}

/// A draw takes the card at its place (the last one where it lies beyond), and
/// the deck goes on with the last card in that place.
pub proof fn law_draws_take_their_card(deck: Seq<u8>, draws: Seq<usize>, rest: Seq<u8>)
    requires
        deck.len() > 0,
        draws.len() > 0,
        rest.len() == deck.len() - 1,
        forall|j: int|
            0 <= j < rest.len() ==> #[trigger] rest[j] == if j == draws[0] {
                deck[deck.len() - 1]
            } else {
                deck[j]
            },
    ensures
        drawn_cards(deck, draws).len() > 0,
        drawn_cards(deck, draws)[0] == if draws[0] < deck.len() {
            deck[draws[0] as int]
        } else {
            deck[deck.len() - 1]
        },
        drawn_cards(deck, draws).skip(1) == drawn_cards(rest, draws.skip(1)),
{
    let k = place_of(draws[0], deck.len());
    assert(deck_after(deck, k) =~= rest);
    assert(drawn_cards(deck, draws).skip(1) =~= drawn_cards(rest, draws.skip(1)));
}

/// Draws that lie among the cards left of a deck of `n`.
pub open spec fn draws_fit(draws: Seq<usize>, n: nat) -> bool {
    draws.len() <= n && forall|i: int| 0 <= i < draws.len() ==> (#[trigger] draws[i]) < n - i
}

proof fn lemma_rest_distinct(deck: Seq<u8>, k: int)
    requires
        deck.no_duplicates(),
        0 <= k < deck.len(),
    ensures
        deck_after(deck, k).no_duplicates(),
        forall|c: u8| deck.contains(c) && c != deck[k] ==> #[trigger] deck_after(deck, k).contains(c),
{
    let rest = deck_after(deck, k);
    assert forall|i: int, j: int| 0 <= i < j < rest.len() implies rest[i] != rest[j] by {}
    assert forall|c: u8| deck.contains(c) && c != deck[k] implies #[trigger] rest.contains(c) by {
        let i = choose|i: int| 0 <= i < deck.len() && deck[i] == c;
        if i == deck.len() - 1 {
            assert(rest[k] == c);
        } else {
            assert(rest[i] == c);
        }
    }
}

/// Every completion can be drawn: whatever distinct cards of the deck are wished
/// for, in whatever order, there are draws that take exactly them.
pub proof fn law_every_completion_can_be_drawn(deck: Seq<u8>, cards: Seq<u8>) -> (draws: Seq<usize>)
    requires
        deck.no_duplicates(),
        deck.len() <= usize::MAX,
        cards.no_duplicates(),
        forall|i: int| 0 <= i < cards.len() ==> deck.contains(#[trigger] cards[i]),
    ensures
        draws.len() == cards.len(),
        draws_fit(draws, deck.len()),
        drawn_cards(deck, draws) == cards,
    decreases cards.len(),
{
    if cards.len() == 0 {
        assert(cards =~= Seq::<u8>::empty());
        Seq::empty()
    } else {
        assert(deck.contains(cards[0]));
        let k = choose|k: int| 0 <= k < deck.len() && deck[k] == cards[0];
        let rest = deck_after(deck, k);
        let others = cards.skip(1);
        lemma_rest_distinct(deck, k);
        assert forall|i: int| 0 <= i < others.len() implies rest.contains(#[trigger] others[i]) by {
            assert(others[i] == cards[i + 1]);
            assert(deck.contains(cards[i + 1]));
        }
        assert forall|i: int, j: int| 0 <= i < j < others.len() implies others[i] != others[j] by {}
        let later = law_every_completion_can_be_drawn(rest, others);
        let draws = seq![k as usize] + later;
        assert(draws.skip(1) =~= later);
        assert(drawn_cards(deck, draws) =~= cards);
        assert forall|i: int| 0 <= i < draws.len() implies (#[trigger] draws[i]) < deck.len()
            - i by {
            if i > 0 {
                assert(draws[i] == later[i - 1]);
            }
        }
        draws
    }
}

/// Different draws take different cards.
pub proof fn law_different_draws_take_different_cards(deck: Seq<u8>, d: Seq<usize>, e: Seq<usize>)
    requires
        deck.no_duplicates(),
        d.len() == e.len(),
        draws_fit(d, deck.len()),
        draws_fit(e, deck.len()),
        drawn_cards(deck, d) == drawn_cards(deck, e),
    ensures
        d == e,
    decreases d.len(),
{
    if d.len() > 0 {
        let (x, y) = (drawn_cards(deck, d), drawn_cards(deck, e));
        assert(d[0] < deck.len() && e[0] < deck.len());
        assert(x[0] == deck[d[0] as int]);
        assert(y[0] == deck[e[0] as int]);
        assert(d[0] == e[0]);
        let k = d[0] as int;
        let rest = deck_after(deck, k);
        lemma_rest_distinct(deck, k);
        assert(x.skip(1) =~= drawn_cards(rest, d.skip(1)));
        assert(y.skip(1) =~= drawn_cards(rest, e.skip(1)));
        assert forall|i: int| 0 <= i < d.len() - 1 implies (#[trigger] d.skip(1)[i]) < rest.len()
            - i by {
            assert(d[i + 1] < deck.len() - (i + 1));
        }
        assert forall|i: int| 0 <= i < e.len() - 1 implies (#[trigger] e.skip(1)[i]) < rest.len()
            - i by {
            assert(e[i + 1] < deck.len() - (i + 1));
        }
        law_different_draws_take_different_cards(rest, d.skip(1), e.skip(1));
        assert forall|i: int| 0 <= i < d.len() implies d[i] == e[i] by {
            if i > 0 {
                assert(d.skip(1)[i - 1] == e.skip(1)[i - 1]);
            }
        }
    }
    assert(d =~= e);
}

proof fn lemma_flop_only_pairs(board: Seq<u8>, deck: Seq<u8>, i: nat, r: int)
    requires
        i <= deck.len(),
        0 <= r < flop_runouts(board, deck, i).len(),
    ensures
        exists|x: int, y: int|
            0 <= x < y < deck.len() && #[trigger] flop_runouts(board, deck, i)[r] == board + seq![
                #[trigger] deck[x],
                #[trigger] deck[y],
            ],
    decreases i,
{
    let shorter = flop_runouts(board, deck, (i - 1) as nat);
    let longer = flop_runouts(board, deck, i);
    if r < shorter.len() {
        lemma_flop_only_pairs(board, deck, (i - 1) as nat, r);
        let (x, y): (int, int) = choose|x: int, y: int|
            0 <= x < y < deck.len() && #[trigger] shorter[r] == board + seq![
                #[trigger] deck[x],
                #[trigger] deck[y],
            ];
        assert(longer[r] == board + seq![deck[x], deck[y]]);
    } else {
        let y = i + (r - shorter.len());
        assert(longer[r] == board + seq![deck[i - 1], deck[y]]);
    }
}

/// A run-out goes on from the board with cards of the deck: a complete board is
/// its own only one, a turn has one per card, and a flop's are pairs.
pub proof fn law_runouts_complete_the_board(board: Seq<u8>, deck: Seq<u8>, r: int)
    requires
        3 <= board.len() <= 5,
        0 <= r < runouts_of(board, deck).len(),
    ensures
        board.len() == 5 ==> runouts_of(board, deck) == seq![board],
        board.len() == 4 ==> runouts_of(board, deck).len() == deck.len() && runouts_of(board, deck)[r]
            == board + seq![deck[r]],
        board.len() == 3 ==> 2 * runouts_of(board, deck).len() == deck.len() * (deck.len() - 1)
            && exists|x: int, y: int|
            0 <= x < y < deck.len() && #[trigger] runouts_of(board, deck)[r] == board + seq![
                #[trigger] deck[x],
                #[trigger] deck[y],
            ],
{
    if board.len() == 4 {
        assert(board.push(deck[r]) =~= board + seq![deck[r]]);
    }
    if board.len() == 3 {
        lemma_flop_only_pairs(board, deck, deck.len(), r);
        lemma_flop_count(board, deck, deck.len());
        let n = deck.len() as int;
        assert(2 * n * n - n * (n + 1) == n * (n - 1)) by (nonlinear_arith);
    }
}

/// The live deck is the 52 cards without the known ones, in ascending order.
pub proof fn law_live_cards_are_the_unknown(deck: Seq<u8>, known: Seq<u8>, c: u8)
    requires
        is_live_deck(deck, known),
    ensures
        c < 52 ==> (deck.contains(c) <==> !known.contains(c)),
        c >= 52 ==> !deck.contains(c),
        forall|i: int| 0 <= i < deck.len() - 1 ==> #[trigger] deck[i] < deck[i + 1],
        deck.no_duplicates(),
{
}

/// Sampled and listed boards are the very cards, board by board.
pub proof fn law_boards_keep_their_cards(boards: Seq<[u8; 5]>, i: int, j: int)
    requires
        0 <= i < boards.len(),
        0 <= j < 5,
    ensures
        board_views(boards).len() == boards.len(),
        board_views(boards)[i].len() == 5,
        board_views(boards)[i][j] == boards[i][j],
{
}

proof fn lemma_flop_in_order(board: Seq<u8>, deck: Seq<u8>, i: nat)
    requires
        board.len() == 3,
        i <= deck.len(),
        forall|a: int, b: int| 0 <= a < b < deck.len() ==> deck[a] < deck[b],
    ensures
        forall|r: int|
            0 <= r < flop_runouts(board, deck, i).len() ==> i > 0 && (#[trigger] flop_runouts(
                board,
                deck,
                i,
            )[r]).len() == 5 && flop_runouts(board, deck, i)[r][3] <= deck[i - 1],
        forall|r: int, s: int|
            0 <= r < s < flop_runouts(board, deck, i).len() ==> {
                let (a, b) = (
                    #[trigger] flop_runouts(board, deck, i)[r],
                    #[trigger] flop_runouts(board, deck, i)[s],
                );
                a[3] < b[3] || a[3] == b[3] && a[4] < b[4]
            },
    decreases i,
{
    if i > 0 {
        lemma_flop_in_order(board, deck, (i - 1) as nat);
        let shorter = flop_runouts(board, deck, (i - 1) as nat);
        let longer = flop_runouts(board, deck, i);
        assert forall|r: int| 0 <= r < longer.len() implies i > 0 && (#[trigger] longer[r]).len()
            == 5 && longer[r][3] <= deck[i - 1] by {
            if r < shorter.len() {
                assert(longer[r] == shorter[r]);
            } else {
                assert(longer[r] == board + seq![deck[i - 1], deck[i + (r - shorter.len())]]);
            }
        }
        assert forall|r: int, s: int| 0 <= r < s < longer.len() implies {
            let (a, b) = (#[trigger] longer[r], #[trigger] longer[s]);
            a[3] < b[3] || a[3] == b[3] && a[4] < b[4]
        } by {
            if s < shorter.len() {
                assert(longer[r] == shorter[r] && longer[s] == shorter[s]);
            } else {
                assert(longer[s] == board + seq![deck[i - 1], deck[i + (s - shorter.len())]]);
                if r < shorter.len() {
                    assert(longer[r] == shorter[r]);
                    assert(shorter[r][3] <= deck[i - 2]);
                } else {
                    assert(longer[r] == board + seq![deck[i - 1], deck[i + (r - shorter.len())]]);
                }
            }
        }
    }
}

/// A flop's run-outs come in the order of their turn cards, and of their river
/// cards where the turn is the same; in each the turn is the lower card.
pub proof fn law_flop_runouts_ascend(board: Seq<u8>, deck: Seq<u8>, known: Seq<u8>, r: int, s: int)
    requires
        board.len() == 3,
        is_live_deck(deck, known),
        0 <= r < s < runouts_of(board, deck).len(),
    ensures
        ({
            let (a, b) = (runouts_of(board, deck)[r], runouts_of(board, deck)[s]);
            &&& a[3] < b[3] || a[3] == b[3] && a[4] < b[4]
            &&& a[3] < a[4] && b[3] < b[4]
        }),
{
    lemma_flop_in_order(board, deck, deck.len());
    law_runouts_complete_the_board(board, deck, r);
    law_runouts_complete_the_board(board, deck, s);
}

} // verus!
