//! Laws of the translation between the real table and the abstract game, told
//! in chips: which abstract size a real bet is read as, and what an abstract
//! action costs at the table.

use crate::engine::{Action, GameState};
use crate::play::protocol::EventKind;
use crate::play::protocol_laws::wire;
use crate::play::tracker::{
    bracket_of, candidates, first_from, first_of, first_reaching, hits, is_call, lowest_spares,
    map_model, padded_board, reaches, real_move, same_as, AbstractHand, Candidate, MapOutcome, RealMove,
};
use crate::util::decimal::{decimal, digits_of, lemma_decimal_bytes};
use vstd::prelude::*;
use vstd::string::*;
use vstd::utf8::*;

verus! {

/// The level that an action bets to, where that is more than the current bet:
/// a raise its own, an all-in everything that the player to act has left and
/// has put in on the street.
pub open spec fn bets_to(gs: GameState, a: Action) -> Option<int> {
    let everything = gs.stacks@[gs.to_act as int] + gs.street_bets@[gs.to_act as int];
    match a {
        Action::Raise(level) => Some(level as int),
        Action::AllIn => if everything > gs.current_bet {
            Some(everything)
        } else {
            None
        },
        _ => None,
    }
}

/// The candidates among the first `n` actions are those that bet more than the
/// current bet, all of them, in menu order, each with its level.
spec fn lists_bets(gs: GameState, menu: Seq<Action>, cands: Seq<Candidate>, n: nat) -> bool {
    &&& forall|k: int|
        0 <= k < cands.len() ==> {
            let c = #[trigger] cands[k];
            c.index < n && bets_to(gs, menu[c.index as int]) == Some(c.level as int)
        }
    &&& forall|k: int, m: int|
        0 <= k < m < cands.len() ==> (#[trigger] cands[k]).index < (#[trigger] cands[m]).index
    &&& forall|j: int|
        0 <= j < n && bets_to(gs, #[trigger] menu[j]) is Some ==> exists|k: int|
            0 <= k < cands.len() && (#[trigger] cands[k]).index == j
}

proof fn lemma_lists_bets(gs: GameState, menu: Seq<Action>, max_bet: u32, n: nat)
    requires
        n <= menu.len() <= 256,
        max_bet == gs.stacks@[gs.to_act as int] + gs.street_bets@[gs.to_act as int],
    ensures
        lists_bets(gs, menu, candidates(menu, gs.current_bet, max_bet, n), n),
    decreases n,
{
    if n > 0 {
        let shorter = candidates(menu, gs.current_bet, max_bet, (n - 1) as nat);
        let longer = candidates(menu, gs.current_bet, max_bet, n);
        lemma_lists_bets(gs, menu, max_bet, (n - 1) as nat);
        assert forall|j: int| 0 <= j < n && bets_to(gs, #[trigger] menu[j]) is Some implies exists|
            k: int,
        |
            0 <= k < longer.len() && (#[trigger] longer[k]).index == j by {
            if j < n - 1 {
                let k = choose|k: int| 0 <= k < shorter.len() && (#[trigger] shorter[k]).index == j;
                assert(longer[k] == shorter[k]);
            } else {
                assert(longer[longer.len() - 1].index == j);
            }
        }
        assert forall|k: int| 0 <= k < longer.len() implies {
            let c = #[trigger] longer[k];
            c.index < n && bets_to(gs, menu[c.index as int]) == Some(c.level as int)
        } by {
            if k < shorter.len() {
                assert(longer[k] == shorter[k]);
            }
        }
        assert forall|k: int, m: int| 0 <= k < m < longer.len() implies (#[trigger] longer[k]).index
            < (#[trigger] longer[m]).index by {
            assert(longer[k] == shorter[k]);
            if m < shorter.len() {
                assert(longer[m] == shorter[m]);
            }
        }
    }
}

/// What the first candidate that reaches a bet is.
proof fn lemma_first_facts(
    gs: GameState,
    cands: Seq<Candidate>,
    to: u32,
    real_pot: u32,
    real_bet: u32,
    n: nat,
)
    requires
        n <= cands.len() <= usize::MAX,
    ensures
        match first_reaching(gs, cands, to, real_pot, real_bet, n) {
            Some(h) => {
                &&& h < n
                &&& reaches(gs, cands[h as int].level, to, real_pot, real_bet)
                &&& forall|j: int|
                    0 <= j < h ==> !reaches(gs, (#[trigger] cands[j]).level, to, real_pot, real_bet)
            },
            None => forall|j: int|
                0 <= j < n ==> !reaches(gs, (#[trigger] cands[j]).level, to, real_pot, real_bet),
        },
    decreases n,
{
    if n > 0 {
        lemma_first_facts(gs, cands, to, real_pot, real_bet, (n - 1) as nat);
    }
}

/// The two candidates that bracket a bet stand on either side of it.  With a
/// candidate's pot fraction `(level - current_bet) / (pot + current_bet)` and
/// the bet's `(to - real_bet) / (real_pot + real_bet)`, brought to one
/// denominator: two neighbours bracket the bet where one is below it and the
/// next is not; both are the first candidate only where the bet is not above
/// it, and both the last only where the bet is above every candidate.
pub proof fn law_brackets_enclose_the_bet(
    gs: GameState,
    cands: Seq<Candidate>,
    to: u32,
    real_pot: u32,
    real_bet: u32,
)
    requires
        0 < cands.len() <= usize::MAX,
    ensures
        ({
            let x = (to - real_bet) * (gs.pot + gs.current_bet);
            let f = |k: int| (cands[k].level - gs.current_bet) * (real_pot + real_bet);
            let (lo, hi) = bracket_of(
                cands.len(),
                first_reaching(gs, cands, to, real_pot, real_bet, cands.len()),
            );
            &&& 0 <= lo <= hi < cands.len()
            &&& lo < hi ==> hi == lo + 1 && f(lo) < x <= f(hi)
            &&& lo == hi ==> lo == 0 && x <= f(0) || lo == cands.len() - 1 && f(lo) < x
            &&& forall|k: int| 0 <= k < hi ==> #[trigger] f(k) < x
            &&& (exists|k: int| 0 <= k < cands.len() && #[trigger] f(k) >= x) ==> f(hi) >= x
        }),
{
    lemma_first_facts(gs, cands, to, real_pot, real_bet, cands.len());
    let x = (to - real_bet) * (gs.pot + gs.current_bet);
    let f = |k: int| (cands[k].level - gs.current_bet) * (real_pot + real_bet);
    let first = first_reaching(gs, cands, to, real_pot, real_bet, cands.len());
    assert forall|k: int| 0 <= k < cands.len() implies (reaches(
        gs,
        cands[k].level,
        to,
        real_pot,
        real_bet,
    ) <==> #[trigger] f(k) >= x) by {}
    match first {
        Some(h) => {
            assert forall|k: int| 0 <= k < h implies #[trigger] f(k) < x by {
                assert(!reaches(gs, cands[k].level, to, real_pot, real_bet));
            }
            assert(f(h as int) >= x);
            if h > 0 {
                assert(f(h - 1) < x);
            }
        },
        None => {
            assert forall|k: int| 0 <= k < cands.len() implies #[trigger] f(k) < x by {
                assert(!reaches(gs, cands[k].level, to, real_pot, real_bet));
            }
        },
    }
}

/// Which size of the menu a real bet is read as.  Of the actions that bet more
/// than the current bet, let `h` be the first whose pot fraction is at least the
/// bet's (fractions over one denominator, as in
/// [`law_brackets_enclose_the_bet`]).  The bet is read as `h` where its fraction
/// is exactly that of `h`, where nothing smaller is on offer, or where the draw
/// says so; else as the last such action before `h`.  Where none is as large as
/// the bet, it is read as the last one.
pub proof fn law_bets_land_beside_their_size(
    hand: AbstractHand,
    menu: Seq<Action>,
    to: u32,
    real_pot: u32,
    real_bet: u32,
    below: bool,
    h: int,
)
    requires
        hand.wf(),
        hand.max_bet() <= u32::MAX,
        menu.len() <= 256,
        exists|j: int| 0 <= j < menu.len() && bets_to(hand.now(), #[trigger] menu[j]) is Some,
    ensures
        ({
            let gs = hand.now();
            let x = (to - real_bet) * (gs.pot + gs.current_bet);
            let f = |j: int|
                (bets_to(gs, menu[j])->0 - gs.current_bet) * (real_pot + real_bet);
            let bets = |j: int| bets_to(gs, menu[j]) is Some;
            let mapped = map_model(
                gs,
                menu,
                hand.menu_candidates(menu),
                EventKind::BetTo(to),
                real_pot,
                real_bet,
                below,
            );
            &&& mapped matches MapOutcome::Index(i) && i < menu.len() && bets(i as int)
            &&& (0 <= h < menu.len() && bets(h) && f(h) >= x && forall|j: int|
                0 <= j < h && #[trigger] bets(j) ==> f(j) < x) ==> {
                let i = mapped->Index_0 as int;
                if f(h) == x || !below || !(exists|j: int| 0 <= j < h && #[trigger] bets(j)) {
                    i == h
                } else {
                    i < h && forall|j: int| i < j < h ==> !#[trigger] bets(j)
                }
            }
            &&& (forall|j: int| 0 <= j < menu.len() && #[trigger] bets(j) ==> f(j) < x) ==> {
                let i = mapped->Index_0 as int;
                forall|j: int| i < j < menu.len() ==> !#[trigger] bets(j)
            }
        }),
{
    let gs = hand.now();
    let x = (to - real_bet) * (gs.pot + gs.current_bet);
    let f = |j: int| (bets_to(gs, menu[j])->0 - gs.current_bet) * (real_pot + real_bet);
    let bets = |j: int| bets_to(gs, menu[j]) is Some;
    let cands = hand.menu_candidates(menu);
    lemma_lists_bets(gs, menu, hand.max_bet() as u32, menu.len());
    let w = choose|j: int| 0 <= j < menu.len() && bets_to(gs, #[trigger] menu[j]) is Some;
    let kw = choose|k: int| 0 <= k < cands.len() && (#[trigger] cands[k]).index == w;
    assert(cands.len() > 0);
    lemma_few(cands, menu.len());
    lemma_first_facts(gs, cands, to, real_pot, real_bet, cands.len());
    let first = first_reaching(gs, cands, to, real_pot, real_bet, cands.len());
    let mapped = map_model(
        gs,
        menu,
        cands,
        EventKind::BetTo(to),
        real_pot,
        real_bet,
        below,
    );
    assert forall|k: int| 0 <= k < cands.len() implies bets(#[trigger] cands[k].index as int) && (
    reaches(gs, cands[k].level, to, real_pot, real_bet) <==> f(cands[k].index as int) >= x) && (
    hits(gs, cands[k].level, to, real_pot, real_bet) <==> f(cands[k].index as int) == x) by {}
    // every bet of the menu is a candidate
    assert forall|j: int| 0 <= j < menu.len() && #[trigger] bets(j) implies exists|k: int|
        0 <= k < cands.len() && (#[trigger] cands[k]).index == j by {
        assert(bets_to(gs, menu[j]) is Some);
    }
    if 0 <= h < menu.len() && bets(h) && f(h) >= x && (forall|j: int|
        0 <= j < h && #[trigger] bets(j) ==> f(j) < x) {
        let kh = choose|k: int| 0 <= k < cands.len() && (#[trigger] cands[k]).index == h;
        assert(reaches(gs, cands[kh].level, to, real_pot, real_bet));
        assert forall|k: int| 0 <= k < kh implies !reaches(
            gs,
            (#[trigger] cands[k]).level,
            to,
            real_pot,
            real_bet,
        ) by {
            assert(cands[k].index < cands[kh].index);
            assert(bets(cands[k].index as int));
        }
        assert(first == Some(kh as usize));
        if kh > 0 {
            assert(bets(cands[kh - 1].index as int) && cands[kh - 1].index < cands[kh].index);
            let i = cands[kh - 1].index as int;
            assert forall|j: int| i < j < h implies !#[trigger] bets(j) by {
                if bets(j) {
                    let k = choose|k: int| 0 <= k < cands.len() && (#[trigger] cands[k]).index == j;
                    if k <= kh - 1 {
                        if k < kh - 1 {
                            assert(cands[k].index < cands[kh - 1].index);
                        }
                    } else if k > kh {
                        assert(cands[kh].index < cands[k].index);
                    }
                }
            }
        } else {
            assert forall|j: int| 0 <= j < h implies !#[trigger] bets(j) by {
                if bets(j) {
                    let k = choose|k: int| 0 <= k < cands.len() && (#[trigger] cands[k]).index == j;
                    if k > kh {
                        assert(cands[kh].index < cands[k].index);
                    }
                }
            }
        }
    }
    if forall|j: int| 0 <= j < menu.len() && #[trigger] bets(j) ==> f(j) < x {
        assert forall|k: int| 0 <= k < cands.len() implies !reaches(
            gs,
            (#[trigger] cands[k]).level,
            to,
            real_pot,
            real_bet,
        ) by {
            assert(bets(cands[k].index as int));
        }
        assert(first is None);
        let last = cands.len() - 1;
        assert(mapped == MapOutcome::Index(cands[last].index as u8));
        let i = cands[last].index as int;
        assert forall|j: int| i < j < menu.len() implies !#[trigger] bets(j) by {
            if bets(j) {
                let k = choose|k: int| 0 <= k < cands.len() && (#[trigger] cands[k]).index == j;
                if k < last {
                    assert(cands[k].index < cands[last].index);
                }
            }
        }
    }
}

/// Candidates with ascending places below `n` are at most `n`.
proof fn lemma_few(cands: Seq<Candidate>, n: nat)
    requires
        forall|k: int| 0 <= k < cands.len() ==> (#[trigger] cands[k]).index < n,
        forall|k: int, m: int|
            0 <= k < m < cands.len() ==> (#[trigger] cands[k]).index < (#[trigger] cands[m]).index,
    ensures
        cands.len() <= n,
    decreases n,
{
    if cands.len() > 0 {
        let last = cands.len() - 1;
        let shorter = cands.drop_last();
        assert(cands[last].index < n);
        assert forall|k: int| 0 <= k < shorter.len() implies (#[trigger] shorter[k]).index < (n
            - 1) as nat by {
            assert(cands[k].index < cands[last].index);
        }
        lemma_few(shorter, (n - 1) as nat);
    }
}

/// What stands first in a menu under a condition.
proof fn lemma_first_from(menu: Seq<Action>, pred: spec_fn(Action) -> bool, i: int)
    requires
        0 <= i,
    ensures
        match first_from(menu, pred, i) {
            Some(k) => i <= k < menu.len() && pred(menu[k]) && forall|j: int|
                i <= j < k ==> !pred(#[trigger] menu[j]),
            None => forall|j: int| i <= j < menu.len() ==> !pred(#[trigger] menu[j]),
        },
    decreases menu.len() - i,
{
    if i < menu.len() && !pred(menu[i]) {
        lemma_first_from(menu, pred, i + 1);
    }
}

/// Passive actions keep their kind: a check is read as the first check of the
/// menu, a call as its first call (an all-in counts as one), each as the other
/// where the menu lacks its own kind; a fold is read as a fold; and an action is
/// skipped only where the menu has nothing to read it as.
pub proof fn law_passive_actions_keep_their_kind(
    gs: GameState,
    menu: Seq<Action>,
    cands: Seq<Candidate>,
    real_pot: u32,
    real_bet: u32,
    below: bool,
)
    requires
        menu.len() <= 256,
    ensures
        ({
            let read = |kind: EventKind| map_model(gs, menu, cands, kind, real_pot, real_bet, below);
            let check = |a: Action| a == Action::Check;
            let call = |a: Action| a == Action::Call || a == Action::AllIn;
            let fold = |a: Action| a == Action::Fold;
            let offers = |p: spec_fn(Action) -> bool|
                exists|j: int| 0 <= j < menu.len() && p(#[trigger] menu[j]);
            &&& offers(check) ==> first_such(menu, check, read(EventKind::Check))
            &&& !offers(check) && offers(call) ==> first_such(menu, call, read(EventKind::Check))
            &&& !offers(check) && !offers(call) ==> read(EventKind::Check) == MapOutcome::Skip
            &&& offers(call) ==> first_such(menu, call, read(EventKind::Call))
            &&& !offers(call) && offers(check) ==> first_such(menu, check, read(EventKind::Call))
            &&& !offers(check) && !offers(call) ==> read(EventKind::Call) == MapOutcome::Skip
            &&& offers(fold) ==> first_such(menu, fold, read(EventKind::Fold))
            &&& !offers(fold) ==> read(EventKind::Fold) == MapOutcome::Skip
        }),
{
    let is = |a: Action| is_call(a);
    lemma_first_from(menu, same_as(Action::Check), 0);
    lemma_first_from(menu, same_as(Action::Fold), 0);
    lemma_first_from(menu, is, 0);
    assert(first_of(menu, Action::Check) == first_from(menu, same_as(Action::Check), 0));
    assert(first_of(menu, Action::Fold) == first_from(menu, same_as(Action::Fold), 0));
}

/// Whether an outcome is the first place of a menu where a condition holds.
pub open spec fn first_such(menu: Seq<Action>, pred: spec_fn(Action) -> bool, o: MapOutcome) -> bool {
    o matches MapOutcome::Index(i) && i < menu.len() && pred(menu[i as int]) && forall|j: int|
        0 <= j < i ==> !pred(#[trigger] menu[j])
}

/// What an abstract action costs at the table, over the level `real_bet` with
/// `remaining` chips left to raise by.  A fold, check or call adds nothing of
/// its own: it folds only where there is a bet to fold to, and calls only where
/// there is one to call.  A raise is by the size nearest to the wished one among
/// the legal sizes: the minimum and above, and the rest of the stack.  An all-in
/// bets the rest of the stack, unless it raises nothing.
pub proof fn law_real_moves_cost_what_they_say(
    gs: GameState,
    action: Action,
    wished: i64,
    real_bet: u32,
    facing: bool,
    min: u32,
    remaining: u32,
    other: int,
)
    requires
        real_bet + remaining <= u32::MAX,
    ensures
        ({
            let mv = real_move(gs, action, wished, real_bet, facing, min, remaining);
            let everything = gs.stacks@[gs.to_act as int] + gs.street_bets@[gs.to_act as int];
            let legal = |size: int| size == remaining || min <= size <= remaining;
            match action {
                Action::Fold => mv is Fold && facing || mv is Check && !facing,
                Action::Check | Action::Call => mv is Call && facing || mv is Check && !facing,
                Action::Raise(_) => mv matches RealMove::BetTo(to) && {
                    let size = to - real_bet;
                    &&& legal(size)
                    &&& legal(wished as int) ==> size == wished
                    &&& legal(other) && wished <= other ==> size <= other
                    &&& legal(other) && other <= wished ==> other <= size
                },
                Action::AllIn => if everything > gs.current_bet && remaining > 0 {
                    mv matches RealMove::BetTo(to) && to == real_bet + remaining
                } else {
                    mv is Call && facing || mv is Check && !facing
                },
            }
        }),
{
}

/// A shown board keeps its cards in their places, and the slots after them are
/// empty.
pub proof fn law_boards_are_padded(cards: Seq<u8>, i: int)
    requires
        cards.len() <= 5,
        0 <= i < 5,
    ensures
        padded_board(cards).len() == 5,
        i < cards.len() ==> padded_board(cards)[i] == cards[i],
        i >= cards.len() ==> padded_board(cards)[i] == 0xFFu8,
{
}

/// A move is written with the letter that it is read by: an action string that
/// goes on with a move's text means the move itself.
pub proof fn law_moves_are_written_as_read(mv: RealMove)
    ensures
        encode_utf8(mv.text()) == match mv {
            RealMove::Check => seq![107u8],
            RealMove::Call => seq![99u8],
            RealMove::Fold => seq![102u8],
            RealMove::BetTo(to) => seq![98u8] + digits_of(to as nat),
        },
        encode_utf8(mv.text()) == wire(mv.kind()),
        mv is Check <==> mv.kind() == EventKind::Check,
        mv is Call <==> mv.kind() == EventKind::Call,
        mv is Fold <==> mv.kind() == EventKind::Fold,
        mv matches RealMove::BetTo(to) ==> mv.kind() == EventKind::BetTo(to),
{
    reveal_strlit("f");
    reveal_strlit("k");
    reveal_strlit("c");
    reveal_strlit("b");
    let text = mv.text();
    match mv {
        RealMove::BetTo(to) => {
            let number = decimal(to as nat);
            lemma_decimal_bytes(to as nat);
            is_ascii_chars_encode_utf8(number);
            assert forall|i: int| 0 <= i < text.len() implies '\0' <= #[trigger] text[i]
                <= '\u{7f}' by {
                if i > 0 {
                    assert(text[i] == number[i - 1]);
                }
            }
            is_ascii_chars_encode_utf8(text);
            assert forall|i: int| 0 <= i < text.len() implies #[trigger] encode_utf8(text)[i] == (
            seq![98u8] + digits_of(to as nat))[i] by {
                if i > 0 {
                    assert(text[i] == number[i - 1]);
                    assert(number[i - 1] as u8 == encode_utf8(number)[i - 1]);
                }
            }
            assert(encode_utf8(text) =~= seq![98u8] + digits_of(to as nat));
        },
        _ => {
            assert(is_ascii_chars(text));
            is_ascii_chars_encode_utf8(text);
            assert(encode_utf8(text) =~= wire(mv.kind()));
        },
    }
}

/// Placeholder cards are the first two of the deck that are not known.
pub proof fn law_spares_are_the_first_unknown(known: Seq<u8>, a: u8, b: u8, c: u8)
    requires
        lowest_spares(known, a, b),
    ensures
        a < b < 52,
        !known.contains(a) && !known.contains(b),
        c < a ==> known.contains(c),
        a < c < b ==> known.contains(c),
{
}

/// A hand stands where its node does, and the player to act there can bet up to
/// its stack and what it has in on the street.
pub proof fn law_hands_stand_at_their_node(hand: AbstractHand)
    requires
        hand.wf(),
    ensures
        hand.state.gs == Some(hand.now()),
        hand.now().wf(),
        hand.max_bet() == hand.state.gs->0.stacks@[hand.state.gs->0.to_act as int]
            + hand.state.gs->0.street_bets@[hand.state.gs->0.to_act as int],
{
}

} // verus!
