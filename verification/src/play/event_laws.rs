//! Laws of the event list: it is the action string, action by action, and it
//! tells the whole hand — the chips, whose turn it was, and how it stands.

use crate::play::protocol::{
    digits_end, parse_after, parse_from, parse_model, run_out_error, Betting, Event, EventKind,
    ParsedModel, BIG_BLIND, NOBODY, SMALL_BLIND, STACK_SIZE,
};
use crate::play::protocol_laws::{lemma_digits_end, lemma_separators};
use crate::util::decimal::{digits_value, is_digit};
use vstd::prelude::*;

verus! {

/// The number that follows the byte at `i`.
pub open spec fn size_at(s: Seq<u8>, i: int) -> nat {
    digits_value(s.subrange(i + 1, digits_end(s, i + 1)))
}

/// Every bet among the first `n` bytes is to a 32-bit number.
pub open spec fn sizes_fit(s: Seq<u8>, n: int) -> bool {
    forall|i: int| 0 <= i < n && #[trigger] s[i] == 98 ==> size_at(s, i) <= u32::MAX
}

/// The action that the byte at `i` stands for, `None` for the digits of a bet
/// and for separators.
pub open spec fn action_at(s: Seq<u8>, i: int) -> Option<EventKind> {
    if s[i] == 107 {
        Some(EventKind::Check)
    } else if s[i] == 99 {
        Some(EventKind::Call)
    } else if s[i] == 102 {
        Some(EventKind::Fold)
    } else if s[i] == 98 {
        Some(EventKind::BetTo(size_at(s, i) as u32))
    } else {
        None
    }
}

/// The actions of the first `n` bytes, in order.
pub open spec fn actions_of(s: Seq<u8>, n: nat) -> Seq<EventKind>
    decreases n,
{
    if n == 0 {
        Seq::empty()
    } else {
        let before = actions_of(s, (n - 1) as nat);
        match action_at(s, n - 1) {
            Some(kind) => before.push(kind),
            None => before,
        }
    }
}

/// What the players did, in order.
pub open spec fn kinds_of(events: Seq<Event>) -> Seq<EventKind> {
    Seq::new(events.len(), |i: int| events[i].kind)
}

proof fn lemma_no_actions(s: Seq<u8>, from: nat, to: nat)
    requires
        from <= to <= s.len(),
        forall|k: int| from <= k < to ==> is_digit(#[trigger] s[k]) || s[k] == 47,
    ensures
        actions_of(s, to) == actions_of(s, from),
    decreases to,
{
    if from < to {
        assert(is_digit(s[to - 1]) || s[to - 1] == 47);
        lemma_no_actions(s, from, (to - 1) as nat);
    }
}

proof fn lemma_kinds_push(events: Seq<Event>, e: Event)
    ensures
        kinds_of(events.push(e)) == kinds_of(events).push(e.kind),
{
    assert(kinds_of(events.push(e)) =~= kinds_of(events).push(e.kind));
}

proof fn lemma_kinds_after(s: Seq<u8>, i: int, b: Betting, events: Seq<Event>)
    requires
        0 <= i <= s.len(),
        kinds_of(events) == actions_of(s, i as nat),
        sizes_fit(s, i),
    ensures
        parse_after(s, i, b, events) matches Ok(p) ==> kinds_of(p.events) == actions_of(s, s.len())
            && sizes_fit(s, s.len() as int),
    decreases s.len() - i, 1int,
{
    if !b.closing {
        lemma_kinds_from(s, i, b.passed(), events);
    } else if b.street < 3 && i < s.len() {
        if s[i] == 47 {
            lemma_no_actions(s, i as nat, (i + 1) as nat);
            lemma_kinds_from(s, i + 1, b.next_street(), events);
        }
    } else {
        lemma_kinds_from(s, i, b.next_street(), events);
    }
}

proof fn lemma_kinds_from(s: Seq<u8>, i: int, b: Betting, events: Seq<Event>)
    requires
        0 <= i <= s.len(),
        kinds_of(events) == actions_of(s, i as nat),
        sizes_fit(s, i),
    ensures
        parse_from(s, i, b, events) matches Ok(p) ==> kinds_of(p.events) == actions_of(s, s.len())
            && sizes_fit(s, s.len() as int),
    decreases s.len() - i, 0int,
{
    if i < s.len() {
        if s[i] == 107 {
            lemma_kinds_push(events, b.event(EventKind::Check));
            lemma_kinds_after(s, i + 1, b, events.push(b.event(EventKind::Check)));
        } else if s[i] == 99 {
            lemma_kinds_push(events, b.event(EventKind::Call));
            if b.remaining() == 0 {
                if run_out_error(s, i + 1, 3 - b.street) is None && i + 1 < s.len() {
                    if b.street <= 3 {
                        lemma_separators(s, i + 1, 3 - b.street);
                    }
                    lemma_no_actions(s, (i + 1) as nat, s.len());
                }
            } else {
                lemma_kinds_after(s, i + 1, b.matched(), events.push(b.event(EventKind::Call)));
            }
        } else if s[i] == 102 {
            lemma_kinds_push(events, b.event(EventKind::Fold));
        } else if s[i] == 98 {
            let j = digits_end(s, i + 1);
            let to = size_at(s, i);
            lemma_digits_end(s, i + 1);
            if i + 1 < j && to <= u32::MAX {
                let kind = EventKind::BetTo(to as u32);
                lemma_kinds_push(events, b.event(kind));
                lemma_no_actions(s, (i + 1) as nat, j as nat);
                lemma_kinds_from(s, j, b.after_bet(to as u32), events.push(b.event(kind)));
            }
        }
    }
}

/// The events of an accepted string are its action characters, one for one and
/// in order: `k` a check, `c` a call, `f` a fold, and `b` a bet to the number
/// that follows it.
pub proof fn law_events_are_the_actions(s: Seq<u8>)
    requires
        parse_model(s) is Ok,
    ensures
        kinds_of(parse_model(s)->Ok_0.events) == actions_of(s, s.len()),
        sizes_fit(s, s.len() as int),
{
    assert(kinds_of(Seq::<Event>::empty()) =~= actions_of(s, 0));
    lemma_kinds_from(s, 0, Betting::opening(), Seq::empty());
}

/// What `pos` has put in on `street` after the first `n` events: the blinds
/// preflop, then the level of its last bet or call there.
pub open spec fn put_in(events: Seq<Event>, street: u8, pos: u8, n: nat) -> u32
    decreases n,
{
    if n == 0 {
        if street > 0 {
            0
        } else if pos == 0 {
            BIG_BLIND
        } else {
            SMALL_BLIND
        }
    } else {
        let e = events[n - 1];
        if e.street == street && e.pos == pos {
            match e.kind {
                EventKind::BetTo(to) => to,
                EventKind::Call => e.bet_before,
                _ => put_in(events, street, pos, (n - 1) as nat),
            }
        } else {
            put_in(events, street, pos, (n - 1) as nat)
        }
    }
}

/// What `pos` has put in over the hand after the first `n` events.
pub open spec fn put_in_all(events: Seq<Event>, pos: u8, n: nat) -> int {
    put_in(events, 0, pos, n) + put_in(events, 1, pos, n) + put_in(events, 2, pos, n) + put_in(
        events,
        3,
        pos,
        n,
    )
}

/// Whether a report's chips are those of its events: what each player has put in
/// on the street and over the hand, and who is ahead by how much.
pub open spec fn balances(p: ParsedModel) -> bool {
    let n = p.events.len();
    &&& p.street_committed.len() == 2
    &&& p.total_committed.len() == 2
    &&& p.street_committed[0] == put_in(p.events, p.street, 0, n)
    &&& p.street_committed[1] == put_in(p.events, p.street, 1, n)
    &&& p.total_committed[0] == put_in_all(p.events, 0, n)
    &&& p.total_committed[1] == put_in_all(p.events, 1, n)
    &&& p.last_bettor == 0 ==> p.street_committed[0] - p.street_committed[1] == p.last_bet_size
    &&& p.last_bettor == 1 ==> p.street_committed[1] - p.street_committed[0] == p.last_bet_size
    &&& p.last_bettor == -1 ==> p.street_committed[0] == p.street_committed[1]
        && p.last_bet_size == 0
}

/// The chips that the `k`-th event puts in.
pub open spec fn chips_of(events: Seq<Event>, k: int) -> int {
    let e = events[k];
    put_in(events, e.street, e.pos, (k + 1) as nat) - put_in(events, e.street, e.pos, k as nat)
}

/// The pot after the `k`-th event.
pub open spec fn pot_then(events: Seq<Event>, k: int) -> int {
    events[k].pot_before + chips_of(events, k)
}

/// Whether the `k`-th event is the first of its street.
pub open spec fn opens_street(events: Seq<Event>, k: int) -> bool {
    k == 0 || events[k - 1].street != events[k].street
}

/// Whether the `k`-th event is made in turn, over the right level, and puts in
/// what its kind says: the small blind opens preflop and the big blind every
/// later street, then the players alternate; the level is what the other player
/// has put in; a check or fold adds nothing, a call what is missing to the
/// level, and a bet what is missing to its own.
pub open spec fn in_turn(events: Seq<Event>, k: int) -> bool {
    let e = events[k];
    let (mine, theirs) = (
        put_in(events, e.street, e.pos, k as nat),
        put_in(events, e.street, (1 - e.pos) as u8, k as nat),
    );
    &&& e.pos < 2
    &&& e.street < 4
    &&& e.pos == if opens_street(events, k) {
        if e.street == 0 {
            1
        } else {
            0
        }
    } else {
        1 - events[k - 1].pos
    }
    &&& e.bet_before == theirs
    &&& mine <= theirs
    &&& e.kind is Check || e.kind is Fold ==> chips_of(events, k) == 0
    &&& e.kind is Check ==> mine == theirs
    &&& e.kind is Call ==> chips_of(events, k) == theirs - mine > 0
    &&& e.kind matches EventKind::BetTo(to) ==> chips_of(events, k) == to - mine && to >= theirs
}

/// Whether events tell a hand that has come to a pot of `pot` chips: the blinds
/// are in, every action is in turn, and each pot is the one before and what the
/// action in between put in.
pub open spec fn tells(events: Seq<Event>, pot: int) -> bool {
    &&& (if events.len() > 0 {
        events[0].pot_before as int
    } else {
        pot
    }) == SMALL_BLIND + BIG_BLIND
    &&& forall|k: int| 0 <= k < events.len() ==> #[trigger] in_turn(events, k)
    &&& forall|k: int|
        0 <= k < events.len() ==> #[trigger] pot_then(events, k) == if k + 1 < events.len() {
            events[k + 1].pot_before as int
        } else {
            pot
        }
}

/// Whether the last event closes its street: a check or call that is not the
/// street's first action.
pub open spec fn closes(events: Seq<Event>) -> bool {
    let last = events.len() - 1;
    &&& events[last].kind is Check || events[last].kind is Call
    &&& !opens_street(events, last)
}

/// Whether the last event ends the hand: a fold, the call of an all-in, or the
/// close of the river.
pub open spec fn ends(events: Seq<Event>, called_to: u32) -> bool {
    let e = events.last();
    ||| e.kind is Fold
    ||| e.kind is Call && called_to == STACK_SIZE
    ||| closes(events) && e.street == 3
}

/// Whether a report says where its events leave the hand.
pub open spec fn stands(p: ParsedModel) -> bool {
    let e = p.events.last();
    if p.events.len() == 0 {
        p.street == 0 && p.next_pos == 1
    } else if ends(p.events, p.total_last_bet_to) {
        &&& p.next_pos == NOBODY
        &&& p.street == if e.kind is Fold {
            e.street
        } else {
            3
        }
    } else if closes(p.events) {
        p.street == e.street + 1 && p.next_pos == 0
    } else {
        p.street == e.street && p.next_pos == 1 - e.pos
    }
}

proof fn lemma_put_push(events: Seq<Event>, e: Event, street: u8, pos: u8, n: nat)
    requires
        n <= events.len(),
    ensures
        put_in(events.push(e), street, pos, n) == put_in(events, street, pos, n),
    decreases n,
{
    if n > 0 {
        assert(events.push(e)[n - 1] == events[n - 1]);
        lemma_put_push(events, e, street, pos, (n - 1) as nat);
    }
}

proof fn lemma_put_nothing(events: Seq<Event>, street: u8, pos: u8, n: nat)
    requires
        n <= events.len(),
        street > 0,
        forall|k: int| 0 <= k < n ==> (#[trigger] events[k]).street < street,
    ensures
        put_in(events, street, pos, n) == 0,
    decreases n,
{
    if n > 0 {
        assert(events[n - 1].street < street);
        lemma_put_nothing(events, street, pos, (n - 1) as nat);
    }
}

/// The betting is where the events leave the street: what each player has put
/// in, and no event of a later one.
spec fn level_with(b: Betting, events: Seq<Event>) -> bool {
    &&& b.wf()
    &&& tells(events, b.pot() as int)
    &&& forall|k: int| 0 <= k < events.len() ==> (#[trigger] events[k]).street <= b.street
    &&& forall|q: u8|
        q < 2 ==> #[trigger] put_in(events, b.street, q, events.len()) == b.street_in(q as int)
    &&& forall|q: u8|
        q < 2 ==> #[trigger] put_in_all(events, q, events.len()) == b.total_in(q as int)
}

/// The betting goes on from the last event.
spec fn goes_on(b: Betting, events: Seq<Event>) -> bool {
    &&& level_with(b, events)
    &&& b.size > 0 ==> b.bettor == 1 - b.pos
    &&& if events.len() == 0 {
        b.street == 0 && b.pos == 1 && b.closed is None && !b.closing
    } else {
        let e = events.last();
        &&& !(e.kind is Fold)
        &&& !(e.kind is Call && b.base + b.level == STACK_SIZE)
        &&& if b.closed is Some {
            closes(events) && e.street == 3
        } else if e.street == b.street {
            !closes(events) && b.pos == 1 - e.pos && b.closing
        } else {
            closes(events) && b.street == e.street + 1 && b.pos == 0 && !b.closing
        }
    }
}

/// A check or call has just left the betting at `b`, before the turn passes.
spec fn just_passed(b: Betting, events: Seq<Event>) -> bool {
    &&& level_with(b, events)
    &&& b.closed is None
    &&& b.size == 0
    &&& events.len() > 0
    &&& events.last().street == b.street
    &&& events.last().pos == b.pos
    &&& events.last().kind is Check || events.last().kind is Call
    &&& !(events.last().kind is Call && b.base + b.level == STACK_SIZE)
    &&& b.closing == closes(events)
}

/// Recording an action that puts `chips` in.
proof fn lemma_record(b: Betting, events: Seq<Event>, kind: EventKind, chips: int)
    requires
        goes_on(b, events),
        b.closed is None,
        chips == match kind {
            EventKind::Call => b.size as int,
            EventKind::BetTo(to) => to - b.street_in(b.pos as int),
            _ => 0,
        },
        chips >= 0,
        kind is Check ==> b.size == 0,
        kind is Call ==> b.size > 0,
        kind matches EventKind::BetTo(to) ==> to >= b.level,
    ensures
        tells(events.push(b.event(kind)), b.pot() + chips),
        ({
            let more = events.push(b.event(kind));
            &&& forall|k: int| 0 <= k < more.len() ==> (#[trigger] more[k]).street <= b.street
            &&& put_in(more, b.street, b.pos, more.len()) == b.street_in(b.pos as int) + chips
            &&& put_in(more, b.street, (1 - b.pos) as u8, more.len()) == b.street_in(1 - b.pos)
            &&& put_in_all(more, b.pos, more.len()) == b.total_in(b.pos as int) + chips
            &&& put_in_all(more, (1 - b.pos) as u8, more.len()) == b.total_in(1 - b.pos)
            &&& opens_street(more, events.len() as int) == !b.closing
        }),
{
    let e = b.event(kind);
    let more = events.push(e);
    let n = events.len();
    let other = (1 - b.pos) as u8;
    assert(more.last() == e);
    lemma_put_push(events, e, b.street, b.pos, n);
    lemma_put_push(events, e, b.street, other, n);
    assert(put_in(events, b.street, b.pos, n) == b.street_in(b.pos as int));
    assert(put_in(events, b.street, other, n) == b.street_in(other as int));
    assert(chips_of(more, n as int) == chips);
    assert(put_in_all(events, b.pos, n) == b.total_in(b.pos as int));
    assert(put_in_all(events, other, n) == b.total_in(other as int));
    lemma_put_push(events, e, 0, b.pos, n);
    lemma_put_push(events, e, 1, b.pos, n);
    lemma_put_push(events, e, 2, b.pos, n);
    lemma_put_push(events, e, 3, b.pos, n);
    lemma_put_push(events, e, 0, other, n);
    lemma_put_push(events, e, 1, other, n);
    lemma_put_push(events, e, 2, other, n);
    lemma_put_push(events, e, 3, other, n);
    if n > 0 {
        assert(more[n - 1] == events[n - 1]);
        assert(pot_then(events, n - 1) == b.pot());
    }
    assert forall|k: int| 0 <= k < more.len() implies #[trigger] in_turn(more, k) by {
        if k < n {
            let x = events[k];
            assert(more[k] == x);
            assert(in_turn(events, k));
            lemma_put_push(events, e, x.street, x.pos, k as nat);
            lemma_put_push(events, e, x.street, x.pos, (k + 1) as nat);
            lemma_put_push(events, e, x.street, (1 - x.pos) as u8, k as nat);
            if k > 0 {
                assert(more[k - 1] == events[k - 1]);
            }
        }
    }
    assert forall|k: int| 0 <= k < more.len() implies #[trigger] pot_then(more, k) == if k + 1
        < more.len() {
        more[k + 1].pot_before as int
    } else {
        b.pot() + chips
    } by {
        if k < n {
            let x = events[k];
            assert(more[k] == x);
            lemma_put_push(events, e, x.street, x.pos, k as nat);
            lemma_put_push(events, e, x.street, x.pos, (k + 1) as nat);
            assert(pot_then(events, k) == pot_then(more, k));
            if k + 1 < n {
                assert(more[k + 1] == events[k + 1]);
            }
        }
    }
}

proof fn lemma_story_after(s: Seq<u8>, i: int, b: Betting, events: Seq<Event>)
    requires
        just_passed(b, events),
    ensures
        parse_after(s, i, b, events) matches Ok(p) ==> tells(p.events, p.pot()) && stands(p)
            && balances(p),
    decreases s.len() - i, 1int,
{
    if 0 <= i <= s.len() {
        if !b.closing {
            let next = b.passed();
            assert forall|q: u8| q < 2 implies #[trigger] put_in(
                events,
                next.street,
                q,
                events.len(),
            ) == next.street_in(q as int) by {
                assert(put_in(events, b.street, q, events.len()) == b.street_in(q as int));
            }
            lemma_story_from(s, i, next, events);
        } else {
            let next = b.next_street();
            if b.street < 3 {
                assert forall|q: u8| q < 2 implies #[trigger] put_in(
                    events,
                    next.street,
                    q,
                    events.len(),
                ) == next.street_in(q as int) by {
                    lemma_put_nothing(events, next.street, q, events.len());
                }
            }
            assert(goes_on(next, events));
            if b.street < 3 && i < s.len() {
                if s[i] == 47 {
                    lemma_story_from(s, i + 1, next, events);
                }
            } else {
                lemma_story_from(s, i, next, events);
            }
        }
    }
}

proof fn lemma_story_from(s: Seq<u8>, i: int, b: Betting, events: Seq<Event>)
    requires
        goes_on(b, events),
    ensures
        parse_from(s, i, b, events) matches Ok(p) ==> tells(p.events, p.pot()) && stands(p)
            && balances(p),
    decreases s.len() - i, 0int,
{
    if 0 <= i < s.len() && b.closed is None {
        if s[i] == 107 {
            if b.size == 0 {
                let more = events.push(b.event(EventKind::Check));
                lemma_record(b, events, EventKind::Check, 0);
                assert(just_passed(b, more));
                lemma_story_after(s, i + 1, b, more);
            }
        } else if s[i] == 99 {
            if b.size > 0 {
                let more = events.push(b.event(EventKind::Call));
                lemma_record(b, events, EventKind::Call, b.size as int);
                if b.street < 3 {
                    lemma_put_nothing(more, 3, 0, more.len());
                    lemma_put_nothing(more, 3, 1, more.len());
                }
                if b.remaining() > 0 {
                    assert(just_passed(b.matched(), more));
                    lemma_story_after(s, i + 1, b.matched(), more);
                }
            }
        } else if s[i] == 102 {
            if b.size > 0 {
                lemma_record(b, events, EventKind::Fold, 0);
            }
        } else if s[i] == 98 {
            let j = digits_end(s, i + 1);
            let to = digits_value(s.subrange(i + 1, j));
            if i + 1 < j <= s.len() && to <= u32::MAX && b.bet_error(to as u32) is None {
                let kind = EventKind::BetTo(to as u32);
                let more = events.push(b.event(kind));
                lemma_record(b, events, kind, to - b.street_in(b.pos as int));
                assert(goes_on(b.after_bet(to as u32), more));
                lemma_story_from(s, j, b.after_bet(to as u32), more);
            }
        }
    }
}

/// The chips and the turns add up: the first pot is the blinds, each later one
/// the pot before it and what the action in between put in, and the last leads
/// to the final pot; every action is made in turn.
pub proof fn law_events_tell_the_hand(s: Seq<u8>)
    requires
        parse_model(s) is Ok,
    ensures
        tells(parse_model(s)->Ok_0.events, parse_model(s)->Ok_0.pot()),
{
    lemma_opening();
    lemma_story_from(s, 0, Betting::opening(), Seq::empty());
}

/// Who acts next: nobody exactly after a fold, the call of an all-in, or the
/// close of the river; the big blind on a new street; else the other player.
pub proof fn law_who_acts_next(s: Seq<u8>)
    requires
        parse_model(s) is Ok,
    ensures
        stands(parse_model(s)->Ok_0),
{
    lemma_opening();
    lemma_story_from(s, 0, Betting::opening(), Seq::empty());
}

/// The report's chips are those of its events: what each player has put in on
/// the street and over the hand is the blind and its last bet or call on each
/// street, and the outstanding bet is what the bettor is ahead by.
pub proof fn law_reports_count_the_events(s: Seq<u8>)
    requires
        parse_model(s) is Ok,
    ensures
        balances(parse_model(s)->Ok_0),
{
    lemma_opening();
    lemma_story_from(s, 0, Betting::opening(), Seq::empty());
}

proof fn lemma_opening()
    ensures
        goes_on(Betting::opening(), Seq::empty()),
{
}

} // verus!
