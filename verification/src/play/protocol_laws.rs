//! Laws of the wire protocol: what the separator at the end of a string means,
//! how a string continues another, and which moves the parser accepts.

use crate::play::protocol::{
    char_debug, digits_end, lemma_parse_wf, parse_after, parse_from, parse_model, run_out_error, separators_error, ActionError,
    Betting, Event, EventKind, Parsed, ParsedModel, NOBODY, STACK_SIZE,
};
use crate::util::decimal::{
    all_digits, decimal, digits_of, digits_value, is_digit, lemma_digits_round_trip,
};
use vstd::prelude::*;

verus! {

/// The bytes that a move adds to an action string.
pub open spec fn wire(kind: EventKind) -> Seq<u8> {
    match kind {
        EventKind::Check => seq![107u8],
        EventKind::Call => seq![99u8],
        EventKind::Fold => seq![102u8],
        EventKind::BetTo(to) => seq![98u8] + digits_of(to as nat),
    }
}

pub(crate) proof fn lemma_digits_end(s: Seq<u8>, i: int)
    requires
        0 <= i <= s.len(),
    ensures
        i <= digits_end(s, i) <= s.len(),
        forall|k: int| i <= k < digits_end(s, i) ==> is_digit(#[trigger] s[k]),
        digits_end(s, i) < s.len() ==> !is_digit(s[digits_end(s, i)]),
    decreases s.len() - i,
{
    if i < s.len() && is_digit(s[i]) {
        lemma_digits_end(s, i + 1);
    }
}

proof fn lemma_digits_end_unique(s: Seq<u8>, i: int, j: int)
    requires
        0 <= i <= j <= s.len(),
        forall|k: int| i <= k < j ==> is_digit(#[trigger] s[k]),
        j < s.len() ==> !is_digit(s[j]),
    ensures
        digits_end(s, i) == j,
    decreases j - i,
{
    if i < j {
        assert(is_digit(s[i]));
        lemma_digits_end_unique(s, i + 1, j);
    }
}

pub(crate) proof fn lemma_separators(s: Seq<u8>, i: int, count: int)
    requires
        0 <= i <= s.len(),
        0 <= count,
    ensures
        separators_error(s, i, count) is None <==> i + count == s.len() && forall|k: int|
            i <= k < s.len() ==> #[trigger] s[k] == 47,
    decreases count,
{
    if count > 0 && i < s.len() && s[i] == 47 {
        lemma_separators(s, i + 1, count - 1);
    }
}

proof fn lemma_trailing_after(s: Seq<u8>, i: int, b: Betting, events: Seq<Event>)
    requires
        0 <= i <= s.len(),
        s.len() == 0 || s.last() != 47,
        b.street <= 3,
        parse_after(s.push(47), i, b, events) is Ok,
    ensures
        parse_after(s, i, b, events) == parse_after(s.push(47), i, b, events),
    decreases s.len() - i, 1int,
{
    let t = s.push(47);
    if !b.closing {
        lemma_trailing_from(s, i, b.passed(), events);
    } else if b.street < 3 && i < s.len() {
        assert(t[i] == s[i]);
        lemma_trailing_from(s, i + 1, b.next_street(), events);
    } else if i < s.len() {
        lemma_trailing_from(s, i, b.next_street(), events);
    } else {
        assert(t[i] == 47);
        if b.street < 3 {
            assert(parse_from(t, i + 1, b.next_street(), events) == Ok::<ParsedModel, ActionError>(
                b.next_street().report(events),
            ));
        }
    }
}

proof fn lemma_trailing_from(s: Seq<u8>, i: int, b: Betting, events: Seq<Event>)
    requires
        0 <= i <= s.len(),
        s.len() == 0 || s.last() != 47,
        b.street <= 3,
        parse_from(s.push(47), i, b, events) is Ok,
    ensures
        parse_from(s, i, b, events) == parse_from(s.push(47), i, b, events),
    decreases s.len() - i, 0int,
{
    let t = s.push(47);
    if i == s.len() {
        assert(t[i] == 47);
    } else {
        assert(t[i] == s[i]);
        if s[i] == 107 {
            lemma_trailing_after(s, i + 1, b, events.push(b.event(EventKind::Check)));
        } else if s[i] == 99 {
            if b.size > 0 {
                if b.remaining() == 0 {
                    let streets = 3 - b.street;
                    lemma_separators(t, i + 1, streets);
                    if i + 1 < s.len() {
                        assert(t[s.len() - 1] == 47);
                    }
                } else {
                    lemma_trailing_after(
                        s,
                        i + 1,
                        b.matched(),
                        events.push(b.event(EventKind::Call)),
                    );
                }
            }
        } else if s[i] == 98 {
            let j = digits_end(s, i + 1);
            lemma_digits_end(s, i + 1);
            assert forall|k: int| i + 1 <= k < j implies is_digit(#[trigger] t[k]) by {
                assert(is_digit(s[k]));
            }
            lemma_digits_end_unique(t, i + 1, j);
            assert(t.subrange(i + 1, j) =~= s.subrange(i + 1, j));
            let to = digits_value(s.subrange(i + 1, j));
            lemma_trailing_from(
                s,
                j,
                b.after_bet(to as u32),
                events.push(b.event(EventKind::BetTo(to as u32))),
            );
        }
    }
}

/// A separator at the end of a string says nothing: where the string with it
/// is accepted, the string without it means the same.
pub proof fn law_trailing_separator(s: Seq<u8>)
    requires
        s.len() == 0 || s.last() != 47,
        parse_model(s.push(47)) is Ok,
    ensures
        parse_model(s) == parse_model(s.push(47)),
{
    lemma_trailing_from(s, 0, Betting::opening(), Seq::empty());
}

/// Whether the current street has seen an action.
pub open spec fn street_started(p: ParsedModel) -> bool {
    p.events.len() > 0 && p.events.last().street == p.street
}

/// The betting from which a hand goes on, read off its report.
pub open spec fn resume(p: ParsedModel) -> Betting {
    Betting {
        street: p.street,
        pos: p.next_pos as u8,
        level: p.street_last_bet_to,
        base: (p.total_last_bet_to - p.street_last_bet_to) as u32,
        size: p.last_bet_size,
        bettor: p.last_bettor,
        closing: street_started(p),
        closed: None,
    }
}

/// Whether `s` stops right where a street closed, before its separator.
pub open spec fn separator_pending(s: Seq<u8>) -> bool {
    &&& s.len() > 0
    &&& s.last() != 47
    &&& parse_model(s) matches Ok(p) && !street_started(p)
}

/// The reports of a running hand determine its betting.
spec fn consistent(b: Betting, events: Seq<Event>) -> bool {
    &&& b.wf()
    &&& b.closed is None ==> (b.closing <==> events.len() > 0 && events.last().street == b.street)
    &&& events.len() > 0 ==> events.last().street <= b.street
}

proof fn lemma_shift_separators(s: Seq<u8>, t: Seq<u8>, k: int, count: int)
    requires
        0 <= k <= t.len(),
        0 <= count,
    ensures
        separators_error(s + t, s.len() + k, count) == separators_error(t, k, count),
    decreases count,
{
    if count > 0 && k < t.len() {
        assert((s + t)[s.len() + k] == t[k]);
        lemma_shift_separators(s, t, k + 1, count - 1);
    }
}

proof fn lemma_shift_after(s: Seq<u8>, t: Seq<u8>, k: int, b: Betting, events: Seq<Event>)
    requires
        0 <= k <= t.len(),
        b.street <= 3,
    ensures
        parse_after(s + t, s.len() + k, b, events) == parse_after(t, k, b, events),
    decreases t.len() - k, 1int,
{
    let u = s + t;
    if !b.closing {
        lemma_shift_from(s, t, k, b.passed(), events);
    } else if b.street < 3 && k < t.len() {
        assert(u[s.len() + k] == t[k]);
        lemma_shift_from(s, t, k + 1, b.next_street(), events);
    } else {
        lemma_shift_from(s, t, k, b.next_street(), events);
    }
}

/// What a string means from a given betting does not depend on what stood
/// before it.
proof fn lemma_shift_from(s: Seq<u8>, t: Seq<u8>, k: int, b: Betting, events: Seq<Event>)
    requires
        0 <= k <= t.len(),
        b.street <= 3,
    ensures
        parse_from(s + t, s.len() + k, b, events) == parse_from(t, k, b, events),
    decreases t.len() - k, 0int,
{
    let u = s + t;
    if k < t.len() {
        let i = s.len() + k;
        assert(u[i] == t[k]);
        if t[k] == 107 {
            lemma_shift_after(s, t, k + 1, b, events.push(b.event(EventKind::Check)));
        } else if t[k] == 99 {
            lemma_shift_separators(s, t, k + 1, 3 - b.street);
            lemma_shift_after(s, t, k + 1, b.matched(), events.push(b.event(EventKind::Call)));
        } else if t[k] == 98 {
            let j = digits_end(t, k + 1);
            lemma_digits_end(t, k + 1);
            assert forall|m: int| i + 1 <= m < s.len() + j implies is_digit(#[trigger] u[m]) by {
                assert(is_digit(t[m - s.len()]));
            }
            if s.len() + j < u.len() {
                assert(u[s.len() + j] == t[j]);
            }
            lemma_digits_end_unique(u, i + 1, s.len() + j);
            assert(u.subrange(i + 1, s.len() + j) =~= t.subrange(k + 1, j));
            let to = digits_value(t.subrange(k + 1, j));
            if k + 1 < j && to <= u32::MAX {
                lemma_shift_from(
                    s,
                    t,
                    j,
                    b.after_bet(to as u32),
                    events.push(b.event(EventKind::BetTo(to as u32))),
                );
            }
        }
    }
}

proof fn lemma_continue_after(s: Seq<u8>, t: Seq<u8>, i: int, b: Betting, events: Seq<Event>)
    requires
        0 < i <= s.len(),
        t.len() > 0,
        !is_digit(t[0]),
        b.wf(),
        b.closed is None,
        b.size == 0,
        events.len() > 0,
        events.last().street == b.street,
        parse_after(s, i, b, events) matches Ok(p) && p.next_pos != NOBODY && (street_started(p)
            || s.last() == 47),
        s[i - 1] != 47,
    ensures
        parse_after(s + t, i, b, events) == parse_from(
            t,
            0,
            resume(parse_after(s, i, b, events)->Ok_0),
            parse_after(s, i, b, events)->Ok_0.events,
        ),
    decreases s.len() - i, 1int,
{
    let u = s + t;
    if !b.closing {
        lemma_continue_from(s, t, i, b.passed(), events);
    } else if b.street < 3 && i < s.len() {
        assert(u[i] == s[i]);
        lemma_continue_from(s, t, i + 1, b.next_street(), events);
    } else if b.street < 3 {
        // the street closed at the very end, with its separator still to come
        assert(parse_from(s, i, b.next_street(), events) == Ok::<ParsedModel, ActionError>(
            b.next_street().report(events),
        ));
        assert(false);
    } else {
        lemma_over(s, i, b.next_street(), events);
    }
}

/// Once the river has closed, nobody acts again.
proof fn lemma_over(s: Seq<u8>, i: int, b: Betting, events: Seq<Event>)
    requires
        b.wf(),
        b.closed is Some,
    ensures
        parse_from(s, i, b, events) matches Ok(p) ==> p.next_pos == NOBODY,
{
}

proof fn lemma_continue_from(s: Seq<u8>, t: Seq<u8>, i: int, b: Betting, events: Seq<Event>)
    requires
        0 <= i <= s.len(),
        t.len() > 0,
        !is_digit(t[0]),
        consistent(b, events),
        b.closed is None,
        parse_from(s, i, b, events) matches Ok(p) && p.next_pos != NOBODY && (street_started(p)
            || s.len() == 0 || s.last() == 47),
    ensures
        parse_from(s + t, i, b, events) == parse_from(
            t,
            0,
            resume(parse_from(s, i, b, events)->Ok_0),
            parse_from(s, i, b, events)->Ok_0.events,
        ),
    decreases s.len() - i, 0int,
{
    let u = s + t;
    if i == s.len() {
        let p = b.report(events);
        assert(resume(p) == b);
        lemma_shift_from(s, t, 0, b, events);
    } else {
        assert(u[i] == s[i]);
        if s[i] == 107 {
            lemma_continue_after(s, t, i + 1, b, events.push(b.event(EventKind::Check)));
        } else if s[i] == 99 {
            lemma_continue_after(s, t, i + 1, b.matched(), events.push(b.event(EventKind::Call)));
        } else if s[i] == 98 {
            let j = digits_end(s, i + 1);
            lemma_digits_end(s, i + 1);
            assert forall|m: int| i + 1 <= m < j implies is_digit(#[trigger] u[m]) by {
                assert(is_digit(s[m]));
            }
            if j < s.len() {
                assert(u[j] == s[j]);
            } else {
                assert(u[j] == t[0]);
            }
            lemma_digits_end_unique(u, i + 1, j);
            assert(u.subrange(i + 1, j) =~= s.subrange(i + 1, j));
            let to = digits_value(s.subrange(i + 1, j));
            lemma_continue_from(
                s,
                t,
                j,
                b.after_bet(to as u32),
                events.push(b.event(EventKind::BetTo(to as u32))),
            );
        }
    }
}

/// An action string goes on from where it stopped: appending `t` to an
/// accepted string `s` of a running hand means what `t` means from the betting
/// that the report of `s` shows.  (A closed street needs its separator first.)
pub proof fn law_strings_continue(s: Seq<u8>, t: Seq<u8>)
    requires
        parse_model(s) matches Ok(p) && p.next_pos != NOBODY,
        !separator_pending(s),
        t.len() > 0,
        !is_digit(t[0]),
    ensures
        parse_model(s + t) == parse_from(
            t,
            0,
            resume(parse_model(s)->Ok_0),
            parse_model(s)->Ok_0.events,
        ),
{
    lemma_continue_from(s, t, 0, Betting::opening(), Seq::empty());
}

/// The moves open to the player to act: a check with nothing to call, a call
/// or fold with something to call, a bet within the size limits.
pub open spec fn allowed(p: ParsedModel, kind: EventKind) -> bool {
    match kind {
        EventKind::Check => p.last_bet_size == 0,
        EventKind::Call => p.last_bet_size > 0,
        EventKind::Fold => p.last_bet_size > 0,
        EventKind::BetTo(to) => {
            let b = resume(p);
            p.street_last_bet_to + b.min_size() <= to <= p.street_last_bet_to + b.remaining()
        },
    }
}

/// The parser accepts exactly the allowed moves, and records each as the next
/// event of the hand.
pub proof fn law_moves_accepted(s: Seq<u8>, kind: EventKind)
    requires
        parse_model(s) matches Ok(p) && p.next_pos != NOBODY,
        !separator_pending(s),
    ensures
        parse_model(s + wire(kind)) is Ok <==> allowed(parse_model(s)->Ok_0, kind),
        parse_model(s + wire(kind)) matches Ok(q) ==> q.events == parse_model(s)->Ok_0.events.push(
            resume(parse_model(s)->Ok_0).event(kind),
        ),
{
    let p = parse_model(s)->Ok_0;
    let t = wire(kind);
    let b = resume(p);
    law_strings_continue(s, t);
    reveal_with_fuel(parse_from, 3);
    reveal_with_fuel(parse_after, 2);
    match kind {
        EventKind::BetTo(to) => {
            let digits = digits_of(to as nat);
            lemma_digits_round_trip(to as nat);
            assert forall|m: int| 1 <= m < t.len() implies is_digit(#[trigger] t[m]) by {
                assert(t[m] == digits[m - 1]);
            }
            lemma_digits_end_unique(t, 1, t.len() as int);
            assert(t.subrange(1, t.len() as int) =~= digits);
            assert(t[0] == 98);
        },
        _ => {
            assert(t.len() == 1);
        },
    }
}

/// A fold ends the hand: nothing may follow it.
pub proof fn law_fold_is_final(s: Seq<u8>, t: Seq<u8>)
    requires
        parse_model(s) matches Ok(p) && p.next_pos != NOBODY && p.last_bet_size > 0,
        !separator_pending(s),
        t.len() > 0,
    ensures
        parse_model(s + wire(EventKind::Fold) + t) == Err::<ParsedModel, ActionError>(
            ActionError::AfterFold,
        ),
{
    let u = wire(EventKind::Fold) + t;
    assert(s + wire(EventKind::Fold) + t =~= s + u);
    law_strings_continue(s, u);
    assert(u[0] == 102);
}

/// The call of an all-in runs the hand out to the river: after it comes
/// nothing, or one separator per street still to come, and both mean the same.
/// Nothing is outstanding then, and no chips go in on the streets that are run
/// out.
pub proof fn law_all_in_call_runs_out(s: Seq<u8>, t: Seq<u8>)
    requires
        parse_model(s) matches Ok(p) && p.next_pos != NOBODY && p.last_bet_size > 0
            && p.total_last_bet_to == STACK_SIZE,
        !separator_pending(s),
    ensures
        parse_model(s + wire(EventKind::Call) + t) is Ok <==> t.len() == 0 || t == Seq::new(
            (3 - parse_model(s)->Ok_0.street) as nat,
            |i: int| 47u8,
        ),
        parse_model(s + wire(EventKind::Call) + t) matches Ok(q) ==> {
            &&& q == parse_model(s + wire(EventKind::Call))->Ok_0
            &&& q.street == 3
            &&& q.next_pos == NOBODY
            &&& q.last_bet_size == 0
            &&& q.last_bettor == NOBODY
            &&& q.total_committed == seq![STACK_SIZE, STACK_SIZE]
            &&& parse_model(s)->Ok_0.street < 3 ==> q.street_last_bet_to == 0
                && q.street_committed == seq![0u32, 0u32]
        },
{
    let p = parse_model(s)->Ok_0;
    let b = resume(p);
    let c = wire(EventKind::Call);
    let u = c + t;
    lemma_parse_wf(s, 0, Betting::opening(), Seq::empty());
    assert(s + c + t =~= s + u);
    law_strings_continue(s, u);
    law_strings_continue(s, c);
    assert(u[0] == 99);
    assert(run_out_error(c, 1, 3 - b.street) is None);
    if t.len() > 0 {
        lemma_separators(u, 1, 3 - b.street);
        assert(forall|k: int| 0 <= k < t.len() ==> #[trigger] t[k] == u[k + 1]);
        if run_out_error(u, 1, 3 - b.street) is None {
            assert(t =~= Seq::new((3 - b.street) as nat, |i: int| 47u8));
        }
    } else {
        assert(u =~= c);
    }
    if parse_model(s + u) is Ok {
        assert(b.report_all_in(p.events.push(b.event(EventKind::Call))).total_committed =~= seq![
            STACK_SIZE,
            STACK_SIZE,
        ]);
        if p.street < 3 {
            assert(b.report_all_in(p.events.push(b.event(EventKind::Call))).street_committed =~= seq![
                0u32,
                0u32,
            ]);
        }
    }
}

/// The sizes that may be bet: a raise is by no more than the 20 000 chips leave,
/// and by no less than the outstanding bet and a big blind, unless it is by all
/// that is left.
pub proof fn law_bets_within_limits(p: ParsedModel, to: u32)
    requires
        p.wf(),
        p.next_pos != NOBODY,
    ensures
        allowed(p, EventKind::BetTo(to)) <==> {
            let size = to - p.street_last_bet_to;
            let left = 20_000 - p.total_last_bet_to;
            &&& 0 <= size <= left
            &&& size == left || size >= 100 && size >= p.last_bet_size
        },
{
}

/// A move that is not allowed is refused for its own reason: a check facing a
/// bet, a call or fold with nothing to call, and a bet below the smallest or
/// above the largest size.
pub proof fn law_moves_refused(s: Seq<u8>, kind: EventKind)
    requires
        parse_model(s) matches Ok(p) && p.next_pos != NOBODY,
        !separator_pending(s),
    ensures
        ({
            let p = parse_model(s)->Ok_0;
            let left = 20_000 - p.total_last_bet_to;
            parse_model(s + wire(kind)) matches Err(e) ==> match kind {
                EventKind::Check => e == ActionError::CheckFacingBet && p.last_bet_size > 0,
                EventKind::Call => e == ActionError::CallNothing && p.last_bet_size == 0,
                EventKind::Fold => e == ActionError::FoldNothing && p.last_bet_size == 0,
                EventKind::BetTo(to) => match e {
                    ActionError::TooSmall(size, min) => {
                        &&& to < p.street_last_bet_to + min
                        &&& size == if to > p.street_last_bet_to {
                            to - p.street_last_bet_to
                        } else {
                            0
                        }
                        &&& min <= left
                        &&& min == left || min == 100 || min == p.last_bet_size
                        &&& min == left || min >= 100 && min >= p.last_bet_size
                    },
                    ActionError::TooBig(size, most) => to == p.street_last_bet_to + size && most
                        == left && size > most,
                    _ => false,
                },
            }
        }),
{
    let p = parse_model(s)->Ok_0;
    let t = wire(kind);
    let b = resume(p);
    lemma_parse_wf(s, 0, Betting::opening(), Seq::empty());
    law_strings_continue(s, t);
    reveal_with_fuel(parse_from, 3);
    reveal_with_fuel(parse_after, 2);
    match kind {
        EventKind::BetTo(to) => {
            let digits = digits_of(to as nat);
            lemma_digits_round_trip(to as nat);
            assert forall|m: int| 1 <= m < t.len() implies is_digit(#[trigger] t[m]) by {
                assert(t[m] == digits[m - 1]);
            }
            lemma_digits_end_unique(t, 1, t.len() as int);
            assert(t.subrange(1, t.len() as int) =~= digits);
            assert(t[0] == 98);
        },
        _ => {
            assert(t.len() == 1);
        },
    }
}

/// A byte that starts no action is refused by name, and so is a `b` without a
/// number.
pub proof fn law_nonsense_refused(s: Seq<u8>, byte: u8)
    requires
        parse_model(s) matches Ok(p) && p.next_pos != NOBODY,
        !separator_pending(s),
        byte != 107 && byte != 99 && byte != 102 && !is_digit(byte),
    ensures
        parse_model(s.push(byte)) == Err::<ParsedModel, ActionError>(
            if byte == 98 {
                ActionError::MissingSize
            } else {
                ActionError::Unexpected(byte)
            },
        ),
{
    let t = seq![byte];
    assert(s.push(byte) =~= s + t);
    law_strings_continue(s, t);
    reveal_with_fuel(digits_end, 2);
}

/// What appending `t` to a string that reported `p` comes to: a hand that is
/// over takes nothing more, and a closed street wants its separator.
spec fn refused(p: ParsedModel, t: Seq<u8>, r: Result<ParsedModel, ActionError>) -> bool {
    &&& r is Err
    &&& p.next_pos != NOBODY ==> r == Err::<ParsedModel, ActionError>(ActionError::MissingSeparator)
    &&& p.next_pos == NOBODY ==> p.events.len() > 0
    &&& p.next_pos == NOBODY && p.events.last().kind == EventKind::Fold ==> r == Err::<
        ParsedModel,
        ActionError,
    >(ActionError::AfterFold)
    &&& p.next_pos == NOBODY && p.events.last().kind != EventKind::Fold && p.total_last_bet_to
        < 20_000 && t[0] == 107 ==> r == Err::<ParsedModel, ActionError>(ActionError::AfterRiver)
}

proof fn lemma_stops_after(s: Seq<u8>, t: Seq<u8>, i: int, b: Betting, events: Seq<Event>)
    requires
        0 < i <= s.len(),
        t.len() > 0,
        t[0] != 47,
        !is_digit(t[0]),
        b.wf(),
        b.closed is None,
        b.size == 0,
        events.len() > 0,
        events.last().street == b.street,
        events.last().kind != EventKind::Fold,
        s[i - 1] != 47,
        parse_after(s, i, b, events) matches Ok(p) && (p.next_pos == NOBODY || !street_started(p)
            && s.last() != 47),
    ensures
        refused(parse_after(s, i, b, events)->Ok_0, t, parse_after(s + t, i, b, events)),
    decreases s.len() - i, 1int,
{
    let u = s + t;
    if !b.closing {
        lemma_stops_from(s, t, i, b.passed(), events);
    } else if b.street < 3 && i < s.len() {
        assert(u[i] == s[i]);
        lemma_stops_from(s, t, i + 1, b.next_street(), events);
    } else if b.street < 3 {
        assert(u[i] == t[0]);
        assert(parse_from(s, i, b.next_street(), events) == Ok::<ParsedModel, ActionError>(
            b.next_street().report(events),
        ));
    } else {
        lemma_stops_from(s, t, i, b.next_street(), events);
    }
}

proof fn lemma_stops_from(s: Seq<u8>, t: Seq<u8>, i: int, b: Betting, events: Seq<Event>)
    requires
        0 <= i <= s.len(),
        t.len() > 0,
        t[0] != 47,
        !is_digit(t[0]),
        consistent(b, events),
        b.closed is Some ==> events.len() > 0 && events.last().kind != EventKind::Fold,
        i == s.len() && b.closed is None ==> b.closing || s.len() == 0 || s.last() == 47,
        parse_from(s, i, b, events) matches Ok(p) && (p.next_pos == NOBODY || !street_started(p)
            && s.len() > 0 && s.last() != 47),
    ensures
        refused(parse_from(s, i, b, events)->Ok_0, t, parse_from(s + t, i, b, events)),
    decreases s.len() - i, 0int,
{
    let u = s + t;
    if i == s.len() {
        assert(u[i] == t[0]);
        assert(b.closed is Some);
    } else {
        assert(u[i] == s[i]);
        if s[i] == 107 {
            lemma_stops_after(s, t, i + 1, b, events.push(b.event(EventKind::Check)));
        } else if s[i] == 99 {
            if b.remaining() == 0 {
                let streets = 3 - b.street;
                lemma_separators(s, i + 1, streets);
                lemma_separators(u, i + 1, streets);
                assert(u[s.len() as int] == t[0]);
            } else {
                lemma_stops_after(s, t, i + 1, b.matched(), events.push(b.event(EventKind::Call)));
            }
        } else if s[i] == 98 {
            let j = digits_end(s, i + 1);
            lemma_digits_end(s, i + 1);
            assert forall|m: int| i + 1 <= m < j implies is_digit(#[trigger] u[m]) by {
                assert(is_digit(s[m]));
            }
            if j < s.len() {
                assert(u[j] == s[j]);
            } else {
                assert(u[j] == t[0]);
            }
            lemma_digits_end_unique(u, i + 1, j);
            assert(u.subrange(i + 1, j) =~= s.subrange(i + 1, j));
            let to = digits_value(s.subrange(i + 1, j));
            lemma_stops_from(
                s,
                t,
                j,
                b.after_bet(to as u32),
                events.push(b.event(EventKind::BetTo(to as u32))),
            );
        }
    }
}

/// Nothing but separators may follow a hand that is over.  After a fold nothing
/// at all may, and a check after the showdown is an action after the river.
pub proof fn law_over_is_over(s: Seq<u8>, t: Seq<u8>)
    requires
        parse_model(s) matches Ok(p) && p.next_pos == NOBODY,
        t.len() > 0,
        t[0] != 47,
        !is_digit(t[0]),
    ensures
        ({
            let p = parse_model(s)->Ok_0;
            let last = p.events.last().kind;
            let r = parse_model(s + t);
            &&& r is Err
            &&& p.events.len() > 0
            &&& last == EventKind::Fold ==> r == Err::<ParsedModel, ActionError>(
                ActionError::AfterFold,
            )
            &&& last != EventKind::Fold && p.total_last_bet_to < 20_000 && t[0] == 107 ==> r == Err::<
                ParsedModel,
                ActionError,
            >(ActionError::AfterRiver)
        }),
{
    lemma_stops_from(s, t, 0, Betting::opening(), Seq::empty());
}

/// A closed street wants its separator before anything else.
pub proof fn law_streets_want_their_separator(s: Seq<u8>, t: Seq<u8>)
    requires
        separator_pending(s),
        parse_model(s)->Ok_0.next_pos != NOBODY,
        t.len() > 0,
        t[0] != 47,
        !is_digit(t[0]),
    ensures
        parse_model(s + t) == Err::<ParsedModel, ActionError>(ActionError::MissingSeparator),
{
    lemma_stops_from(s, t, 0, Betting::opening(), Seq::empty());
}

/// A bet size that does not fit in 32 bits is no size, however many digits it
/// has.
pub proof fn law_huge_sizes_are_refused(s: Seq<u8>, digits: Seq<u8>)
    requires
        parse_model(s) matches Ok(p) && p.next_pos != NOBODY,
        !separator_pending(s),
        all_digits(digits),
        digits_value(digits) >= 0x1_0000_0000,
    ensures
        parse_model(s + (seq![98u8] + digits)) == Err::<ParsedModel, ActionError>(
            ActionError::SizeNotInteger,
        ),
{
    let t = seq![98u8] + digits;
    law_strings_continue(s, t);
    assert forall|k: int| 1 <= k < t.len() implies is_digit(#[trigger] t[k]) by {
        assert(t[k] == digits[k - 1]);
        assert(is_digit(digits[k - 1]));
    }
    lemma_digits_end_unique(t, 1, t.len() as int);
    assert(t.subrange(1, t.len() as int) =~= digits);
}

/// Each error names what is wrong, with the sizes or the character where there
/// are any.
pub proof fn law_errors_name_what_is_wrong(e: ActionError)
    ensures
        match e {
            ActionError::CheckFacingBet => e.text() == "illegal check facing a bet"@,
            ActionError::CallNothing => e.text() == "illegal call with no outstanding bet"@,
            ActionError::FoldNothing => e.text() == "illegal fold with no outstanding bet"@,
            ActionError::MissingSeparator => e.text() == "missing street separator"@,
            ActionError::MissingSeparatorAtEnd => e.text() == "missing street separator at end"@,
            ActionError::AfterAllIn => e.text() == "extra characters after an all-in call"@,
            ActionError::AfterFold => e.text() == "extra characters after a fold"@,
            ActionError::AfterRiver => e.text() == "unexpected action after the river"@,
            ActionError::MissingSize => e.text() == "missing bet size"@,
            ActionError::SizeNotInteger => e.text() == "bet size not an integer"@,
            ActionError::TooSmall(size, min) => e.text() == "bet too small ("@ + decimal(size as nat)
                + " < "@ + decimal(min as nat) + ")"@,
            ActionError::TooBig(size, max) => e.text() == "bet too big ("@ + decimal(size as nat)
                + " > "@ + decimal(max as nat) + ")"@,
            ActionError::Unexpected(byte) => e.text() == "unexpected character "@ + char_debug(byte)
                + " in action"@,
        },
{
}

/// A report shows what its fields hold, and the pot is both players' chips.
pub proof fn law_reports_show_their_fields(r: Parsed)
    ensures
        r@.street == r.street,
        r@.next_pos == r.next_pos,
        r@.street_last_bet_to == r.street_last_bet_to,
        r@.total_last_bet_to == r.total_last_bet_to,
        r@.last_bet_size == r.last_bet_size,
        r@.last_bettor == r.last_bettor,
        r@.street_committed == r.street_committed@,
        r@.total_committed == r.total_committed@,
        r@.events == r.events@,
        r@.pot() == r.total_committed@[0] + r.total_committed@[1],
{
}

} // verus!
