//! Luck-adjusted match scoring: what each board reveal weighs.
//!
//! At each board reveal the pot is fixed and the reveal is uniform over the
//! unseen cards, so the term
//!
//! ```text
//!   c_street = pot_at_reveal · (equity_after_reveal − equity_before_reveal)
//! ```
//!
//! has zero mean given everything that happened before the reveal.  Subtracting
//! the summed corrections from the raw winnings cancels run-out luck in
//! proportion to the pot it swung.  This module finds the reveals of a hand and
//! the pot at each; the equities are the evaluator's.

use crate::play::event_laws::{chips_of, law_events_tell_the_hand, pot_then, put_in, tells};
use crate::play::protocol::{
    lemma_parse_wf, parse_action, parse_model, Betting, Event, Parsed, ParsedModel, BIG_BLIND,
    SMALL_BLIND,
};
use vstd::prelude::*;
use vstd::string::*;

verus! {

/// Board-prefix length that street `s` (1 = flop, 2 = turn, 3 = river) reveals.
pub open spec fn prefix_of(street: u8) -> usize {
    if street == 1 {
        3
    } else if street == 2 {
        4
    } else {
        5
    }
}

/// Board-prefix length that street `s` (1 = flop, 2 = turn, 3 = river) reveals.
pub fn prefix_len(street: u8) -> (len: usize)
    ensures
        len == prefix_of(street),
{
    if street == 1 {
        3
    } else if street == 2 {
        4
    } else {
        5
    }
}

/// The pot before the first event at or after place `i` on a street no earlier
/// than `street`; `last` if there is none.
pub open spec fn pot_from(events: Seq<Event>, street: u8, i: int, last: u32) -> u32
    decreases events.len() - i,
{
    if i < 0 || i >= events.len() {
        last
    } else if events[i].street >= street {
        events[i].pot_before
    } else {
        pot_from(events, street, i + 1, last)
    }
}

/// Total pot at the moment `street`'s cards were revealed.
pub open spec fn reveal_pot(p: ParsedModel, street: u8) -> u32 {
    pot_from(p.events, street, 0, p.pot() as u32)
}

/// Total pot at the moment street `s`'s cards were revealed: commitments never
/// change between streets, so it is the pot before the first action on any
/// street ≥ `s` — or the final pot if the hand had no further actions
/// (all-in run-out, empty trailing streets).
pub fn pot_at_reveal(parsed: &Parsed, street: u8) -> (pot: u32)
    requires
        parsed.total_committed[0] + parsed.total_committed[1] <= u32::MAX,
    ensures
        pot == reveal_pot(parsed@, street),
{
    let last: u32 = parsed.pot();
    let mut i: usize = 0;
    while i < parsed.events.len()
        invariant
            i <= parsed.events@.len(),
            last == parsed@.pot(),
            reveal_pot(parsed@, street) == pot_from(parsed.events@, street, i as int, last),
        decreases parsed.events@.len() - i,
    {
        let event: Event = parsed.events[i];
        if event.street >= street {
            return event.pot_before;
        }
        i += 1;
    }
    last
}

/// A board reveal: how many board cards are out after it, and the pot it swung.
#[derive(Debug, Clone, Copy, PartialEq, Eq, Structural)]
pub struct Reveal {
    pub prefix: usize,
    pub pot: u32,
}

/// How many of the three reveals a board of `board_len` cards has seen.
pub open spec fn reveals_seen(board_len: int) -> nat {
    if board_len < 3 {
        0
    } else if board_len < 4 {
        1
    } else if board_len < 5 {
        2
    } else {
        3
    }
}

/// The reveals of a hand whose final board has `board_len` cards.
pub open spec fn reveals_of(p: ParsedModel, board_len: int) -> Seq<Reveal> {
    Seq::new(
        reveals_seen(board_len),
        |i: int| Reveal { prefix: prefix_of((i + 1) as u8), pot: reveal_pot(p, (i + 1) as u8) },
    )
}

/// The reveals of one hand, for its luck adjustment: each correction is its
/// pot times the equity gained from the previous prefix to its own.
/// `board_len` counts the board cards actually revealed; `action` is the full
/// action string.
pub fn luck_reveals(board_len: usize, action: &str) -> (r: Result<Vec<Reveal>, String>)
    ensures
        match r {
            Ok(reveals) => parse_model(action.spec_bytes()) matches Ok(p) && reveals@
                == reveals_of(p, board_len as int),
            Err(text) => parse_model(action.spec_bytes()) is Err && text@ == parse_model(
                action.spec_bytes(),
            )->Err_0.text(),
        },
{
    match parse_action(action) {
        Err(text) => Err(text),
        Ok(parsed) => {
            let mut reveals: Vec<Reveal> = Vec::new();
            let mut street: u8 = 1;
            while street <= 3 && board_len >= prefix_len(street)
                invariant
                    1 <= street <= 4,
                    parsed.wf(),
                    street - 1 <= reveals_seen(board_len as int),
                    reveals@.len() == street - 1,
                    forall|i: int|
                        0 <= i < reveals@.len() ==> #[trigger] reveals@[i] == reveals_of(
                            parsed@,
                            board_len as int,
                        )[i],
                decreases 4 - street,
            {
                reveals.push(
                    Reveal { prefix: prefix_len(street), pot: pot_at_reveal(&parsed, street) },
                );
                street += 1;
            }
            assert(reveals@ =~= reveals_of(parsed@, board_len as int));
            Ok(reveals)
        },
    }
}

/// Pots only grow from reveal to reveal, up to the final pot.
pub proof fn law_reveal_pots_grow(p: ParsedModel, street: u8, later: u8)
    requires
        p.wf(),
        street <= later,
    ensures
        reveal_pot(p, street) <= reveal_pot(p, later) <= p.pot(),
{
    lemma_pots_grow(p, street, later, 0);
}

proof fn lemma_pots_grow(p: ParsedModel, street: u8, later: u8, i: int)
    requires
        p.wf(),
        street <= later,
        0 <= i <= p.events.len(),
    ensures
        pot_from(p.events, street, i, p.pot() as u32) <= pot_from(
            p.events,
            later,
            i,
            p.pot() as u32,
        ) <= p.pot(),
        i < p.events.len() ==> p.events[i].pot_before <= pot_from(
            p.events,
            street,
            i,
            p.pot() as u32,
        ) && p.events[i].pot_before <= pot_from(p.events, later, i, p.pot() as u32),
    decreases p.events.len() - i,
{
    if i < p.events.len() {
        lemma_pots_grow(p, street, later, i + 1);
        if i + 1 < p.events.len() {
            assert(p.events[i].pot_before <= p.events[i + 1].pot_before);
        }
    }
}

/// Where the betting ended before `street` — an all-in run out — every later
/// reveal swings the whole pot, so the corrections telescope to the equity at
/// the all-in.
pub proof fn law_run_out_swings_the_pot(p: ParsedModel, street: u8)
    requires
        p.wf(),
        forall|i: int| 0 <= i < p.events.len() ==> (#[trigger] p.events[i]).street < street,
    ensures
        reveal_pot(p, street) == p.pot(),
{
    lemma_run_out(p, street, 0);
}

proof fn lemma_run_out(p: ParsedModel, street: u8, i: int)
    requires
        p.wf(),
        forall|k: int| 0 <= k < p.events.len() ==> (#[trigger] p.events[k]).street < street,
        0 <= i <= p.events.len(),
    ensures
        pot_from(p.events, street, i, p.pot() as u32) == p.pot(),
    decreases p.events.len() - i,
{
    if i < p.events.len() {
        lemma_run_out(p, street, i + 1);
    }
}

/// The pot at a reveal is the pot before the first action on that street or a
/// later one.
pub proof fn law_reveal_pot_is_the_pot_before(p: ParsedModel, street: u8, k: int)
    requires
        0 <= k < p.events.len(),
        p.events[k].street >= street,
        forall|j: int| 0 <= j < k ==> (#[trigger] p.events[j]).street < street,
    ensures
        reveal_pot(p, street) == p.events[k].pot_before,
{
    lemma_pot_before(p, street, k, 0);
}

proof fn lemma_pot_before(p: ParsedModel, street: u8, k: int, i: int)
    requires
        0 <= i <= k < p.events.len(),
        p.events[k].street >= street,
        forall|j: int| 0 <= j < k ==> (#[trigger] p.events[j]).street < street,
    ensures
        pot_from(p.events, street, i, p.pot() as u32) == p.events[k].pot_before,
    decreases k - i,
{
    if i < k {
        assert(p.events[i].street < street);
        lemma_pot_before(p, street, k, i + 1);
    }
}

/// The chips that the first `k` events put in.
pub open spec fn chips_before(events: Seq<Event>, k: nat) -> int
    decreases k,
{
    if k == 0 {
        0
    } else {
        chips_before(events, (k - 1) as nat) + chips_of(events, k - 1)
    }
}

proof fn lemma_pot_told(events: Seq<Event>, pot: int, k: nat)
    requires
        tells(events, pot),
        k <= events.len(),
    ensures
        SMALL_BLIND + BIG_BLIND + chips_before(events, k) == if k < events.len() {
            events[k as int].pot_before as int
        } else {
            pot
        },
    decreases k,
{
    if k > 0 {
        lemma_pot_told(events, pot, (k - 1) as nat);
        assert(pot_then(events, k - 1) == if k < events.len() {
            events[k as int].pot_before as int
        } else {
            pot
        });
    }
}

/// The pot at a reveal is the blinds and what was bet before it: the chips that
/// the events of the earlier streets put in, and no other.
pub proof fn law_reveal_pot_counts_earlier_betting(s: Seq<u8>, street: u8, k: nat)
    requires
        parse_model(s) matches Ok(p) && k <= p.events.len() && (forall|j: int|
            0 <= j < k ==> (#[trigger] p.events[j]).street < street) && (forall|j: int|
            k <= j < p.events.len() ==> (#[trigger] p.events[j]).street >= street),
    ensures
        reveal_pot(parse_model(s)->Ok_0, street) == 150 + chips_before(
            parse_model(s)->Ok_0.events,
            k,
        ),
{
    let p = parse_model(s)->Ok_0;
    law_events_tell_the_hand(s);
    lemma_parse_wf(s, 0, Betting::opening(), Seq::empty());
    lemma_pot_told(p.events, p.pot(), k);
    if k < p.events.len() {
        law_reveal_pot_is_the_pot_before(p, street, k as int);
    } else {
        law_run_out_swings_the_pot(p, street);
    }
}

proof fn lemma_same_chips(a: Seq<Event>, b: Seq<Event>, k: nat)
    requires
        k <= a.len(),
        k <= b.len(),
        forall|j: int| 0 <= j < k ==> a[j] == b[j],
    ensures
        chips_before(a, k) == chips_before(b, k),
    decreases k,
{
    if k > 0 {
        lemma_same_chips(a, b, (k - 1) as nat);
        let e = a[k - 1];
        lemma_same_put(a, b, e.street, e.pos, k);
        lemma_same_put(a, b, e.street, e.pos, (k - 1) as nat);
    }
}

proof fn lemma_same_put(a: Seq<Event>, b: Seq<Event>, street: u8, pos: u8, k: nat)
    requires
        k <= a.len(),
        k <= b.len(),
        forall|j: int| 0 <= j < k ==> a[j] == b[j],
    ensures
        put_in(a, street, pos, k) == put_in(b, street, pos, k),
    decreases k,
{
    if k > 0 {
        assert(a[k - 1] == b[k - 1]);
        lemma_same_put(a, b, street, pos, (k - 1) as nat);
    }
}

/// Betting on a street or after it never changes the pot at its reveal: two
/// hands that went the same way up to the reveal have the same pot there.
pub proof fn law_later_betting_does_not_count(s: Seq<u8>, t: Seq<u8>, street: u8, k: nat)
    requires
        parse_model(s) matches Ok(p) && k <= p.events.len() && (forall|j: int|
            0 <= j < k ==> (#[trigger] p.events[j]).street < street) && (forall|j: int|
            k <= j < p.events.len() ==> (#[trigger] p.events[j]).street >= street),
        parse_model(t) matches Ok(q) && k <= q.events.len() && (forall|j: int|
            k <= j < q.events.len() ==> (#[trigger] q.events[j]).street >= street),
        forall|j: int|
            0 <= j < k ==> parse_model(s)->Ok_0.events[j] == #[trigger] parse_model(
                t,
            )->Ok_0.events[j],
    ensures
        reveal_pot(parse_model(s)->Ok_0, street) == reveal_pot(parse_model(t)->Ok_0, street),
{
    let (p, q) = (parse_model(s)->Ok_0, parse_model(t)->Ok_0);
    assert forall|j: int| 0 <= j < k implies (#[trigger] q.events[j]).street < street by {
        assert(p.events[j].street < street);
    }
    law_reveal_pot_counts_earlier_betting(s, street, k);
    law_reveal_pot_counts_earlier_betting(t, street, k);
    lemma_same_chips(p.events, q.events, k);
}

/// A board of three cards has seen the flop, of four the turn too, of five the
/// river too, and each reveal comes with its street's cards and pot.
pub proof fn law_each_street_is_revealed_once(p: ParsedModel, cards: int, i: int)
    requires
        0 <= cards,
    ensures
        reveals_of(p, cards).len() == if cards < 3 {
            0
        } else if cards > 5 {
            3
        } else {
            cards - 2
        },
        0 <= i < reveals_of(p, cards).len() ==> reveals_of(p, cards)[i].prefix == 3 + i
            && reveals_of(p, cards)[i].pot == reveal_pot(p, (i + 1) as u8),
{
}

/// The flop shows three cards, and each later street one more.
pub proof fn law_streets_show_their_cards(street: u8)
    requires
        1 <= street <= 3,
    ensures
        prefix_of(street) == street + 2,
{
}

} // verus!
