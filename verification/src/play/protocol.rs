//! Slumbot wire protocol: action-string parsing and chip accounting.
//!
//! Slumbot (slumbot.com) encodes a hand's betting as a single string that both
//! players' actions append to, e.g. `b200c/kb400c/kk/b1000f`:
//!
//! * `k` check, `c` call, `f` fold, `b<N>` bet/raise **to** `N`
//! * `N` counts the chips the bettor has put in **on that street only**
//! * `/` separates streets; an all-in can leave empty streets (`b20000c///`)
//!
//! Positions use Slumbot's convention: **pos 0 = big blind** (second to act
//! preflop, first postflop), **pos 1 = small blind / button** (first to act
//! preflop).  Blinds 50/100, stacks 20 000 (200 bb), reset every hand.
//!
//! The betting itself is the small state [`Betting`]: one street level, what
//! was matched on earlier streets, and how much the player to act still owes.
//! Both players' commitments follow from it, so the chip accounting cannot
//! drift.  [`parse_from`] says what a string means, character by character;
//! [`parse_action`] is proved to compute exactly that.

use crate::util::decimal::{
    all_digits, decimal, digits_value, is_digit, push_decimal, read_decimal,
};
use vstd::prelude::*;
use vstd::string::*;

verus! {

/// The small blind, in chips.
pub const SMALL_BLIND: u32 = 50;

/// The big blind, in chips.
pub const BIG_BLIND: u32 = 100;

/// Each player's stack at the start of a hand, in chips.
pub const STACK_SIZE: u32 = 20_000;

/// Streets of a hand: preflop, flop, turn, river.
pub const NUM_STREETS: u8 = 4;

/// In place of a position: no player.
pub const NOBODY: i8 = -1;

/// One observed action. `pos` is in Slumbot convention (0 = BB, 1 = SB).
#[derive(Debug, Clone, Copy, PartialEq, Eq, Structural)]
pub struct Event {
    pub street: u8,
    pub pos: u8,
    pub kind: EventKind,
    /// Total pot before this action (both players, current street included).
    pub pot_before: u32,
    /// The street's outstanding bet level before this action.
    pub bet_before: u32,
}

/// What a player did.
#[derive(Debug, Clone, Copy, PartialEq, Eq, Structural)]
pub enum EventKind {
    Check,
    Call,
    Fold,
    /// Bet/raise **to** this street-cumulative level for the actor.
    BetTo(u32),
}

/// The full public state encoded by an action string.
#[derive(Debug, Clone, PartialEq, Eq)]
pub struct Parsed {
    /// Current street, `0..=3` (preflop..river).
    pub street: u8,
    /// Next player to act (Slumbot pos), `-1` if the hand needs no more actions.
    pub next_pos: i8,
    /// Current street's bet level (the amount to match).
    pub street_last_bet_to: u32,
    /// The bettor lineage's total commitment across streets.
    pub total_last_bet_to: u32,
    /// Size of the outstanding bet/raise (0 = nothing to call).
    pub last_bet_size: u32,
    /// Position of the outstanding bettor, `-1` if none.
    pub last_bettor: i8,
    /// Chips each position has put in on the current street (index = pos).
    pub street_committed: [u32; 2],
    /// Chips each position has put in over the whole hand (index = pos).
    pub total_committed: [u32; 2],
    /// Every action in order — the replay feed for the abstract tracker.
    pub events: Vec<Event>,
}

/// The mathematical content of a [`Parsed`].
#[verifier::ext_equal]
pub struct ParsedModel {
    pub street: u8,
    pub next_pos: i8,
    pub street_last_bet_to: u32,
    pub total_last_bet_to: u32,
    pub last_bet_size: u32,
    pub last_bettor: i8,
    pub street_committed: Seq<u32>,
    pub total_committed: Seq<u32>,
    pub events: Seq<Event>,
}

/// `events` is a possible record of a hand that has come to `street` with
/// `pot` chips in: streets and pots never go down, and both players act.
pub open spec fn events_ordered(events: Seq<Event>, street: u8, pot: u32) -> bool {
    &&& forall|i: int|
        0 <= i < events.len() ==> {
            &&& (#[trigger] events[i]).street <= street
            &&& events[i].pos < 2
            &&& SMALL_BLIND + BIG_BLIND <= events[i].pot_before <= pot
            &&& events[i].bet_before <= STACK_SIZE
        }
    &&& forall|i: int, j: int|
        0 <= i <= j < events.len() ==> (#[trigger] events[i]).street <= (
        #[trigger] events[j]).street && events[i].pot_before <= events[j].pot_before
}

impl ParsedModel {
    /// Both players' chips together.
    pub open spec fn pot(self) -> int {
        self.total_committed[0] + self.total_committed[1]
    }

    /// The chip accounting of a hand in progress or just over:
    ///
    /// * nobody has put in more than a stack, nor more on the street than in all;
    /// * `total_last_bet_to` is the larger of the two totals;
    /// * who is to act owes `last_bet_size`, and the other player has matched
    ///   the level;
    /// * there is a bettor exactly when a bet is outstanding;
    /// * the events tell a possible story of the hand.
    pub open spec fn wf(self) -> bool {
        &&& self.street < NUM_STREETS
        &&& -1 <= self.next_pos <= 1
        &&& -1 <= self.last_bettor <= 1
        &&& self.last_bettor == NOBODY <==> self.last_bet_size == 0
        &&& self.street_committed.len() == 2
        &&& self.total_committed.len() == 2
        &&& self.street_committed[0] <= self.total_committed[0]
        &&& self.street_committed[1] <= self.total_committed[1]
        &&& self.last_bet_size <= self.street_last_bet_to <= self.total_last_bet_to <= STACK_SIZE
        &&& self.total_committed[0] <= self.total_last_bet_to
        &&& self.total_committed[1] <= self.total_last_bet_to
        &&& self.total_committed[0] == self.total_last_bet_to || self.total_committed[1]
            == self.total_last_bet_to
        &&& self.pot() == 2 * self.total_last_bet_to - self.last_bet_size
        &&& self.next_pos >= 0 ==> {
            let me = self.next_pos as int;
            &&& self.street_committed[1 - me] == self.street_last_bet_to
            &&& self.street_committed[me] == self.street_last_bet_to - self.last_bet_size
            &&& self.total_committed[1 - me] == self.total_last_bet_to
            &&& self.total_committed[me] == self.total_last_bet_to - self.last_bet_size
        }
        &&& self.pot() >= SMALL_BLIND + BIG_BLIND
        &&& events_ordered(self.events, self.street, self.pot() as u32)
    }
}

impl View for Parsed {
    type V = ParsedModel;

    open spec fn view(&self) -> ParsedModel {
        ParsedModel {
            street: self.street,
            next_pos: self.next_pos,
            street_last_bet_to: self.street_last_bet_to,
            total_last_bet_to: self.total_last_bet_to,
            last_bet_size: self.last_bet_size,
            last_bettor: self.last_bettor,
            street_committed: self.street_committed@,
            total_committed: self.total_committed@,
            events: self.events@,
        }
    }
}

impl Parsed {
    /// The chip accounting is consistent; see [`ParsedModel::wf`].
    pub open spec fn wf(&self) -> bool {
        self@.wf()
    }

    /// Total pot (both players' commitments, current street included).
    pub fn pot(&self) -> (pot: u32)
        requires
            self.total_committed[0] + self.total_committed[1] <= u32::MAX,
        ensures
            pot == self.total_committed[0] + self.total_committed[1],
    {
        self.total_committed[0] + self.total_committed[1]
    }

    /// Remaining stack of `pos`.
    pub fn stack(&self, pos: usize) -> (stack: u32)
        requires
            pos < 2,
            self.total_committed[pos as int] <= STACK_SIZE,
        ensures
            stack == STACK_SIZE - self.total_committed[pos as int],
    {
        STACK_SIZE - self.total_committed[pos]
    }
}

/// Why an action string is rejected.
#[derive(Debug, Clone, Copy, PartialEq, Eq, Structural)]
pub enum ActionError {
    /// A check while there is a bet to call.
    CheckFacingBet,
    /// A call with nothing to call.
    CallNothing,
    /// A fold with nothing to fold to.
    FoldNothing,
    /// Something other than `/` where a street ends inside the string.
    MissingSeparator,
    /// The string ends among the separators that follow an all-in call.
    MissingSeparatorAtEnd,
    /// Characters after an all-in was called and run out.
    AfterAllIn,
    /// Characters after a fold.
    AfterFold,
    /// An action after the river betting has closed.
    AfterRiver,
    /// `b` without digits.
    MissingSize,
    /// A bet level that does not fit a 32-bit number.
    SizeNotInteger,
    /// A bet of this size, below this minimum.
    TooSmall(u32, u32),
    /// A bet of this size, above this maximum.
    TooBig(u32, u32),
    /// A byte that starts no action.
    Unexpected(u8),
}

/// The `Debug` text of the character with code `byte`, quotes and escapes
/// included, as the standard library's formatter writes it.
pub uninterp spec fn char_debug(byte: u8) -> Seq<char>;

/// The standard library's `Debug` formatting of a `char`, through `format!`.
/// Claimed: the text depends on the character alone.
#[verifier::external_body]
fn debug_char(byte: u8) -> (text: String)
    ensures
        text@ == char_debug(byte),
{
    format!("{:?}", byte as char)
}

impl ActionError {
    /// The error text for people.
    pub open spec fn text(self) -> Seq<char> {
        match self {
            ActionError::CheckFacingBet => "illegal check facing a bet"@,
            ActionError::CallNothing => "illegal call with no outstanding bet"@,
            ActionError::FoldNothing => "illegal fold with no outstanding bet"@,
            ActionError::MissingSeparator => "missing street separator"@,
            ActionError::MissingSeparatorAtEnd => "missing street separator at end"@,
            ActionError::AfterAllIn => "extra characters after an all-in call"@,
            ActionError::AfterFold => "extra characters after a fold"@,
            ActionError::AfterRiver => "unexpected action after the river"@,
            ActionError::MissingSize => "missing bet size"@,
            ActionError::SizeNotInteger => "bet size not an integer"@,
            ActionError::TooSmall(size, min) => "bet too small ("@ + decimal(size as nat) + " < "@
                + decimal(min as nat) + ")"@,
            ActionError::TooBig(size, max) => "bet too big ("@ + decimal(size as nat) + " > "@
                + decimal(max as nat) + ")"@,
            ActionError::Unexpected(byte) => "unexpected character "@ + char_debug(byte)
                + " in action"@,
        }
    }

    /// The error text for people.
    pub fn message(self) -> (message: String)
        ensures
            message@ == self.text(),
    {
        match self {
            ActionError::CheckFacingBet => "illegal check facing a bet".to_owned(),
            ActionError::CallNothing => "illegal call with no outstanding bet".to_owned(),
            ActionError::FoldNothing => "illegal fold with no outstanding bet".to_owned(),
            ActionError::MissingSeparator => "missing street separator".to_owned(),
            ActionError::MissingSeparatorAtEnd => "missing street separator at end".to_owned(),
            ActionError::AfterAllIn => "extra characters after an all-in call".to_owned(),
            ActionError::AfterFold => "extra characters after a fold".to_owned(),
            ActionError::AfterRiver => "unexpected action after the river".to_owned(),
            ActionError::MissingSize => "missing bet size".to_owned(),
            ActionError::SizeNotInteger => "bet size not an integer".to_owned(),
            ActionError::TooSmall(size, min) => {
                let mut text: String = "bet too small (".to_owned();
                push_decimal(&mut text, size as u64);
                text.append(" < ");
                push_decimal(&mut text, min as u64);
                text.append(")");
                text
            },
            ActionError::TooBig(size, max) => {
                let mut text: String = "bet too big (".to_owned();
                push_decimal(&mut text, size as u64);
                text.append(" > ");
                push_decimal(&mut text, max as u64);
                text.append(")");
                text
            },
            ActionError::Unexpected(byte) => {
                let mut text: String = "unexpected character ".to_owned();
                let shown: String = debug_char(byte);
                text.append(shown.as_str());
                text.append(" in action");
                text
            },
        }
    }
}

/// The betting of a hand at one moment.
///
/// The player to act has put in `level - size` on this street, the other
/// player `level`; on earlier streets both put in `base`.
#[derive(Debug, Clone, Copy, PartialEq, Eq, Structural)]
pub struct Betting {
    /// `0..=3`, preflop to river.
    pub street: u8,
    /// Who acts next (`0` = big blind, `1` = small blind).
    pub pos: u8,
    /// The level to match on this street.
    pub level: u32,
    /// What each player put in on the earlier streets.
    pub base: u32,
    /// What the player to act owes.
    pub size: u32,
    /// Who made the outstanding bet, `-1` for nobody.
    pub bettor: i8,
    /// Whether a check or call closes the street.
    pub closing: bool,
    /// After the river betting has closed: the level that both matched there.
    pub closed: Option<u32>,
}

impl Betting {
    /// Chips are consistent, and nobody has put in more than a stack.
    pub open spec fn wf(self) -> bool {
        &&& self.street < NUM_STREETS
        &&& self.pos < 2
        &&& self.size <= self.level
        &&& self.base + self.level <= STACK_SIZE
        &&& 2 * (self.base + self.level) - self.size >= SMALL_BLIND + BIG_BLIND
        &&& -1 <= self.bettor <= 1
        &&& self.bettor == NOBODY <==> self.size == 0
        &&& self.closed is Some ==> {
            &&& self.street == 3
            &&& self.size == 0
            &&& self.level == 0
            &&& !self.closing
            &&& self.closed->0 <= self.base
        }
    }

    /// The blinds are posted and the small blind acts.
    pub open spec fn opening() -> Betting {
        Betting {
            street: 0,
            pos: 1,
            level: BIG_BLIND,
            base: 0,
            size: (BIG_BLIND - SMALL_BLIND) as u32,
            bettor: 0,
            closing: false,
            closed: None,
        }
    }

    /// What `pos` has put in on this street.
    pub open spec fn street_in(self, pos: int) -> u32 {
        if self.closed is Some {
            self.closed->0
        } else if pos == self.pos {
            (self.level - self.size) as u32
        } else {
            self.level
        }
    }

    /// What `pos` has put in over the whole hand.
    pub open spec fn total_in(self, pos: int) -> u32 {
        if self.closed is None && pos == self.pos {
            (self.base + self.level - self.size) as u32
        } else {
            (self.base + self.level) as u32
        }
    }

    /// Both players' chips together.
    pub open spec fn pot(self) -> u32 {
        (self.total_in(0) + self.total_in(1)) as u32
    }

    /// The raise size that puts the bettor all-in.
    pub open spec fn remaining(self) -> u32 {
        (STACK_SIZE - self.base - self.level) as u32
    }

    /// The smallest legal raise size: the last one, at least a big blind, but
    /// never more than what remains.
    pub open spec fn min_size(self) -> u32 {
        let floor = if self.size > BIG_BLIND { self.size } else { BIG_BLIND };
        if floor < self.remaining() { floor } else { self.remaining() }
    }

    /// How far `to` exceeds the level (`0` when it does not).
    pub open spec fn raise_size(self, to: u32) -> u32 {
        if to >= self.level { (to - self.level) as u32 } else { 0 }
    }

    /// Why a bet to `to` is illegal, if it is.
    pub open spec fn bet_error(self, to: u32) -> Option<ActionError> {
        if to < self.level + self.min_size() {
            Some(ActionError::TooSmall(self.raise_size(to), self.min_size()))
        } else if to > self.level + self.remaining() {
            Some(ActionError::TooBig(self.raise_size(to), self.remaining()))
        } else if self.closed is Some {
            Some(ActionError::AfterRiver)
        } else {
            None
        }
    }

    /// The record of an action taken now.
    pub open spec fn event(self, kind: EventKind) -> Event {
        Event {
            street: self.street,
            pos: self.pos,
            kind,
            pot_before: self.pot(),
            bet_before: self.level,
        }
    }

    /// A bet to `to`.  With no chips left to raise by, it only matches the
    /// level, and nothing is outstanding.
    pub open spec fn after_bet(self, to: u32) -> Betting {
        Betting {
            pos: (1 - self.pos) as u8,
            level: to,
            size: self.raise_size(to),
            bettor: if self.raise_size(to) > 0 {
                self.pos as i8
            } else {
                NOBODY
            },
            closing: true,
            ..self
        }
    }

    /// The outstanding bet is matched; nothing else changes.
    pub open spec fn matched(self) -> Betting {
        Betting { size: 0, bettor: NOBODY, ..self }
    }

    /// A check or call that leaves the street open: the other player acts.
    pub open spec fn passed(self) -> Betting {
        Betting { pos: (1 - self.pos) as u8, closing: true, ..self }
    }

    /// A check or call that closes the street: the next street opens with the
    /// big blind to act, or the river ends in a showdown.
    pub open spec fn next_street(self) -> Betting {
        if self.street == 3 {
            Betting {
                level: 0,
                base: (self.base + self.level) as u32,
                closing: false,
                closed: Some(self.level),
                ..self
            }
        } else {
            Betting {
                street: (self.street + 1) as u8,
                pos: 0,
                level: 0,
                base: (self.base + self.level) as u32,
                closing: false,
                ..self
            }
        }
    }

    /// What is reported when the string ends here.
    pub open spec fn report(self, events: Seq<Event>) -> ParsedModel {
        ParsedModel {
            street: self.street,
            next_pos: if self.closed is Some { NOBODY } else { self.pos as i8 },
            street_last_bet_to: self.level,
            total_last_bet_to: (self.base + self.level) as u32,
            last_bet_size: self.size,
            last_bettor: self.bettor,
            street_committed: seq![self.street_in(0), self.street_in(1)],
            total_committed: seq![self.total_in(0), self.total_in(1)],
            events,
        }
    }

    /// What is reported when the player to act folds: nobody acts any more.
    pub open spec fn report_fold(self, events: Seq<Event>) -> ParsedModel {
        ParsedModel { next_pos: NOBODY, ..self.report(events) }
    }

    /// The board runs out after the bet is matched: no chips go in on the
    /// streets that are still to come.
    pub open spec fn run_out(self) -> Betting {
        if self.street == 3 {
            self
        } else {
            Betting { street: 3, level: 0, base: (self.base + self.level) as u32, ..self }
        }
    }

    /// What is reported when an all-in is called: nothing is outstanding, and
    /// the river is reached without another action.
    pub open spec fn report_all_in(self, events: Seq<Event>) -> ParsedModel {
        ParsedModel { next_pos: NOBODY, ..self.matched().run_out().report(events) }
    }
}

/// Where the run of digits that starts at `i` ends.
pub open spec fn digits_end(s: Seq<u8>, i: int) -> int
    decreases s.len() - i,
{
    if 0 <= i < s.len() && is_digit(s[i]) {
        digits_end(s, i + 1)
    } else {
        i
    }
}

/// Why `s[i..]` may not follow a call of an all-in, if it may not: either
/// nothing follows, or exactly one separator per street still to come.
pub open spec fn run_out_error(s: Seq<u8>, i: int, streets: int) -> Option<ActionError> {
    if i == s.len() {
        None
    } else {
        separators_error(s, i, streets)
    }
}

/// Why `s[i..]` is not exactly `count` separators, if it is not.
pub open spec fn separators_error(s: Seq<u8>, i: int, count: int) -> Option<ActionError>
    decreases count,
{
    if count <= 0 {
        if i == s.len() {
            None
        } else {
            Some(ActionError::AfterAllIn)
        }
    } else if i >= s.len() {
        Some(ActionError::MissingSeparatorAtEnd)
    } else if s[i] != 47 {
        Some(ActionError::MissingSeparator)
    } else {
        separators_error(s, i + 1, count - 1)
    }
}

/// The meaning of `s[i..]` after a check or call left the betting at `b`: it
/// passes the turn, or closes the street.  Inside the string a closed street
/// is followed by a separator (not on the river).
pub open spec fn parse_after(s: Seq<u8>, i: int, b: Betting, events: Seq<Event>) -> Result<
    ParsedModel,
    ActionError,
>
    decreases s.len() - i, 1int,
{
    if i < 0 || i > s.len() {
        Err(ActionError::MissingSeparator)
    } else if !b.closing {
        parse_from(s, i, b.passed(), events)
    } else if b.street < 3 && i < s.len() {
        if s[i] != 47 {
            Err(ActionError::MissingSeparator)
        } else {
            parse_from(s, i + 1, b.next_street(), events)
        }
    } else {
        parse_from(s, i, b.next_street(), events)
    }
}

/// The meaning of `s[i..]` when the betting stands at `b` and `events` have
/// happened.
pub open spec fn parse_from(s: Seq<u8>, i: int, b: Betting, events: Seq<Event>) -> Result<
    ParsedModel,
    ActionError,
>
    decreases s.len() - i, 0int,
{
    if i < 0 || i >= s.len() {
        Ok(b.report(events))
    } else if s[i] == 107 {
        // k
        if b.size > 0 {
            Err(ActionError::CheckFacingBet)
        } else if b.closed is Some {
            Err(ActionError::AfterRiver)
        } else {
            parse_after(s, i + 1, b, events.push(b.event(EventKind::Check)))
        }
    } else if s[i] == 99 {
        // c
        if b.size == 0 {
            Err(ActionError::CallNothing)
        } else if b.remaining() == 0 {
            match run_out_error(s, i + 1, 3 - b.street) {
                Some(e) => Err(e),
                None => Ok(b.report_all_in(events.push(b.event(EventKind::Call)))),
            }
        } else {
            parse_after(s, i + 1, b.matched(), events.push(b.event(EventKind::Call)))
        }
    } else if s[i] == 102 {
        // f
        if b.size == 0 {
            Err(ActionError::FoldNothing)
        } else if i + 1 != s.len() {
            Err(ActionError::AfterFold)
        } else {
            Ok(b.report_fold(events.push(b.event(EventKind::Fold))))
        }
    } else if s[i] == 98 {
        // b
        let j = digits_end(s, i + 1);
        let to = digits_value(s.subrange(i + 1, j));
        if j <= i + 1 || j > s.len() {
            Err(ActionError::MissingSize)
        } else if to > u32::MAX {
            Err(ActionError::SizeNotInteger)
        } else {
            match b.bet_error(to as u32) {
                Some(e) => Err(e),
                None => parse_from(
                    s,
                    j,
                    b.after_bet(to as u32),
                    events.push(b.event(EventKind::BetTo(to as u32))),
                ),
            }
        }
    } else {
        Err(ActionError::Unexpected(s[i]))
    }
}

/// The meaning of a whole action string.
pub open spec fn parse_model(s: Seq<u8>) -> Result<ParsedModel, ActionError> {
    parse_from(s, 0, Betting::opening(), Seq::empty())
}

proof fn lemma_record_grows(events: Seq<Event>, b: Betting, kind: EventKind, street: u8, pot: u32)
    requires
        b.wf(),
        events_ordered(events, b.street, b.pot()),
        b.street <= street,
        b.pot() <= pot,
    ensures
        events_ordered(events.push(b.event(kind)), street, pot),
{
}

proof fn lemma_parse_after_wf(s: Seq<u8>, i: int, b: Betting, events: Seq<Event>)
    requires
        b.wf(),
        b.closed is None,
        b.size == 0,
        events_ordered(events, b.street, b.pot()),
    ensures
        parse_after(s, i, b, events) matches Ok(p) ==> p.wf(),
    decreases s.len() - i, 1int,
{
    if 0 <= i <= s.len() {
        let street = if b.street < 3 { (b.street + 1) as u8 } else { 3 };
        assert(events_ordered(events, street, b.pot()));
        if !b.closing {
            lemma_parse_wf(s, i, b.passed(), events);
        } else if b.street < 3 && i < s.len() {
            if s[i] == 47 {
                lemma_parse_wf(s, i + 1, b.next_street(), events);
            }
        } else {
            lemma_parse_wf(s, i, b.next_street(), events);
        }
    }
}

/// Whatever a string says, the betting it leaves is consistent.
pub proof fn lemma_parse_wf(s: Seq<u8>, i: int, b: Betting, events: Seq<Event>)
    requires
        b.wf(),
        events_ordered(events, b.street, b.pot()),
    ensures
        parse_from(s, i, b, events) matches Ok(p) ==> p.wf(),
    decreases s.len() - i, 0int,
{
    if 0 <= i < s.len() {
        if s[i] == 107 {
            if b.size == 0 && b.closed is None {
                lemma_record_grows(events, b, EventKind::Check, b.street, b.pot());
                lemma_parse_after_wf(s, i + 1, b, events.push(b.event(EventKind::Check)));
            }
        } else if s[i] == 99 {
            if b.size > 0 {
                let called = b.matched();
                lemma_record_grows(events, b, EventKind::Call, b.street, called.pot());
                lemma_record_grows(events, b, EventKind::Call, 3, called.pot());
                lemma_parse_after_wf(s, i + 1, called, events.push(b.event(EventKind::Call)));
            }
        } else if s[i] == 102 {
            lemma_record_grows(events, b, EventKind::Fold, b.street, b.pot());
        } else if s[i] == 98 {
            let j = digits_end(s, i + 1);
            let to = digits_value(s.subrange(i + 1, j));
            if i + 1 < j <= s.len() && to <= u32::MAX && b.bet_error(to as u32) is None {
                let raised = b.after_bet(to as u32);
                let kind = EventKind::BetTo(to as u32);
                lemma_record_grows(events, b, kind, b.street, raised.pot());
                lemma_parse_wf(s, j, raised, events.push(b.event(kind)));
            }
        }
    }
}

/// End of the run of digits in `bytes` that starts at `from`.
fn scan_digits(bytes: &[u8], from: usize) -> (end: usize)
    requires
        from <= bytes@.len(),
    ensures
        end == digits_end(bytes@, from as int),
        from <= end <= bytes@.len(),
        all_digits(bytes@.subrange(from as int, end as int)),
{
    let mut i: usize = from;
    while i < bytes.len() && bytes[i] >= 48 && bytes[i] <= 57
        invariant
            from <= i <= bytes@.len(),
            digits_end(bytes@, from as int) == digits_end(bytes@, i as int),
            forall|k: int| from <= k < i ==> is_digit(#[trigger] bytes@[k]),
        decreases bytes@.len() - i,
    {
        i += 1;
    }
    i
}

/// What may not follow the call of an all-in on `street`, at `bytes[at..]`.
fn check_run_out(bytes: &[u8], at: usize, street: u8) -> (error: Option<ActionError>)
    requires
        at <= bytes@.len(),
        street <= 3,
    ensures
        error == run_out_error(bytes@, at as int, 3 - street),
{
    if at == bytes.len() {
        return None;
    }
    let mut i: usize = at;
    let mut st: u8 = street;
    while st < 3
        invariant
            at <= i <= bytes@.len(),
            at < bytes@.len(),
            street <= st <= 3,
            separators_error(bytes@, at as int, 3 - street) == separators_error(
                bytes@,
                i as int,
                3 - st,
            ),
        decreases 3 - st,
    {
        if i == bytes.len() {
            return Some(ActionError::MissingSeparatorAtEnd);
        }
        if bytes[i] != 47 {
            return Some(ActionError::MissingSeparator);
        }
        i += 1;
        st += 1;
    }
    if i != bytes.len() {
        Some(ActionError::AfterAllIn)
    } else {
        None
    }
}

impl Betting {
    /// The record of an action taken now.
    fn record(&self, kind: EventKind) -> (event: Event)
        requires
            self.wf(),
        ensures
            event == self.event(kind),
    {
        let total: u32 = self.base + self.level;
        Event {
            street: self.street,
            pos: self.pos,
            kind,
            pot_before: total + (total - self.size),
            bet_before: self.level,
        }
    }

    /// Why a bet to `to` is illegal, if it is.
    fn check_bet(&self, to: u32) -> (error: Option<ActionError>)
        requires
            self.wf(),
        ensures
            error == self.bet_error(to),
    {
        let size: u32 = if to >= self.level { to - self.level } else { 0 };
        let remaining: u32 = STACK_SIZE - self.base - self.level;
        let floor: u32 = if self.size > BIG_BLIND { self.size } else { BIG_BLIND };
        let min: u32 = if floor < remaining { floor } else { remaining };
        if to < self.level || size < min {
            Some(ActionError::TooSmall(size, min))
        } else if size > remaining {
            Some(ActionError::TooBig(size, remaining))
        } else if self.closed.is_some() {
            Some(ActionError::AfterRiver)
        } else {
            None
        }
    }

    /// The next street, or the showdown after the river.
    fn advance(&self) -> (next: Betting)
        requires
            self.wf(),
            self.closed is None,
            self.size == 0,
        ensures
            next == self.next_street(),
            next.wf(),
    {
        let base: u32 = self.base + self.level;
        if self.street == 3 {
            Betting {
                level: 0,
                base,
                closing: false,
                closed: Some(self.level),
                ..*self
            }
        } else {
            Betting { street: self.street + 1, pos: 0, level: 0, base, closing: false, ..*self }
        }
    }

    /// What is reported when the string ends here.
    fn finish(&self, events: Vec<Event>) -> (parsed: Parsed)
        requires
            self.wf(),
        ensures
            parsed@ == self.report(events@),
    {
        let total: u32 = self.base + self.level;
        let mut street_committed: [u32; 2] = [self.level, self.level];
        let mut total_committed: [u32; 2] = [total, total];
        let mut next_pos: i8 = NOBODY;
        match self.closed {
            Some(level) => {
                street_committed = [level, level];
            },
            None => {
                if self.pos == 0 {
                    street_committed = [self.level - self.size, self.level];
                    total_committed = [total - self.size, total];
                    next_pos = 0;
                } else {
                    street_committed = [self.level, self.level - self.size];
                    total_committed = [total, total - self.size];
                    next_pos = 1;
                }
            },
        }
        let parsed = Parsed {
            street: self.street,
            next_pos,
            street_last_bet_to: self.level,
            total_last_bet_to: total,
            last_bet_size: self.size,
            last_bettor: self.bettor,
            street_committed,
            total_committed,
            events,
        };
        assert(parsed@.street_committed =~= self.report(events@).street_committed);
        assert(parsed@.total_committed =~= self.report(events@).total_committed);
        parsed
    }
}

/// Parse the bytes of an action string.
pub fn parse_bytes(bytes: &[u8]) -> (r: Result<Parsed, ActionError>)
    ensures
        match r {
            Ok(p) => parse_model(bytes@) == Ok::<ParsedModel, ActionError>(p@),
            Err(e) => parse_model(bytes@) == Err::<ParsedModel, ActionError>(e),
        },
{
    let sz: usize = bytes.len();
    let mut b = Betting {
        street: 0,
        pos: 1,
        level: BIG_BLIND,
        base: 0,
        size: BIG_BLIND - SMALL_BLIND,
        bettor: 0,
        closing: false,
        closed: None,
    };
    let mut events: Vec<Event> = Vec::new();
    let mut i: usize = 0;
    while i < sz
        invariant
            i <= sz,
            sz == bytes@.len(),
            b.wf(),
            parse_model(bytes@) == parse_from(bytes@, i as int, b, events@),
        decreases sz - i,
    {
        let c: u8 = bytes[i];
        i += 1;
        if c == 107 || c == 99 {
            if c == 107 {
                if b.size > 0 {
                    return Err(ActionError::CheckFacingBet);
                }
                if b.closed.is_some() {
                    return Err(ActionError::AfterRiver);
                }
                events.push(b.record(EventKind::Check));
            } else {
                if b.size == 0 {
                    return Err(ActionError::CallNothing);
                }
                events.push(b.record(EventKind::Call));
                if b.base + b.level == STACK_SIZE {
                    match check_run_out(bytes, i, b.street) {
                        Some(e) => {
                            return Err(e);
                        },
                        None => {
                            let ghost called = b;
                            b.size = 0;
                            b.bettor = NOBODY;
                            if b.street < 3 {
                                b.street = 3;
                                b.base = b.base + b.level;
                                b.level = 0;
                            }
                            assert(b == called.matched().run_out());
                            let mut parsed = b.finish(events);
                            parsed.next_pos = NOBODY;
                            assert(parsed@ =~= called.report_all_in(events@));
                            return Ok(parsed);
                        },
                    }
                }
                b.size = 0;
                b.bettor = NOBODY;
            }
            assert(parse_model(bytes@) == parse_after(bytes@, i as int, b, events@));
            if b.closing {
                if b.street < 3 && i < sz {
                    if bytes[i] != 47 {
                        return Err(ActionError::MissingSeparator);
                    }
                    i += 1;
                }
                b = b.advance();
            } else {
                b.pos = 1 - b.pos;
                b.closing = true;
            }
        } else if c == 102 {
            if b.size == 0 {
                return Err(ActionError::FoldNothing);
            }
            if i != sz {
                return Err(ActionError::AfterFold);
            }
            events.push(b.record(EventKind::Fold));
            let mut parsed = b.finish(events);
            parsed.next_pos = NOBODY;
            assert(parsed@ =~= b.report_fold(events@));
            return Ok(parsed);
        } else if c == 98 {
            let j: usize = scan_digits(bytes, i);
            if j == i {
                return Err(ActionError::MissingSize);
            }
            match read_decimal(bytes, i, j) {
                None => {
                    return Err(ActionError::SizeNotInteger);
                },
                Some(to) => {
                    match b.check_bet(to) {
                        Some(e) => {
                            return Err(e);
                        },
                        None => {},
                    }
                    events.push(b.record(EventKind::BetTo(to)));
                    b.size = to - b.level;
                    b.level = to;
                    b.bettor = if b.size > 0 {
                        b.pos as i8
                    } else {
                        NOBODY
                    };
                    b.pos = 1 - b.pos;
                    b.closing = true;
                },
            }
            i = j;
        } else {
            return Err(ActionError::Unexpected(c));
        }
    }
    Ok(b.finish(events))
}

/// Parse a Slumbot action string. Returns an error string on any protocol
/// violation.
pub fn parse_action(action: &str) -> (r: Result<Parsed, String>)
    ensures
        match r {
            Ok(p) => parse_model(action.spec_bytes()) == Ok::<ParsedModel, ActionError>(p@)
                && p.wf(),
            Err(text) => parse_model(action.spec_bytes()) is Err && text@ == parse_model(
                action.spec_bytes(),
            )->Err_0.text(),
        },
{
    proof {
        lemma_parse_wf(action.spec_bytes(), 0, Betting::opening(), Seq::empty());
    }
    match parse_bytes(action.as_bytes()) {
        Ok(p) => Ok(p),
        Err(e) => Err(e.message()),
    }
}

} // verus!
