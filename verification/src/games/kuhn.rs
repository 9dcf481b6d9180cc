//! Kuhn Poker — the smallest non-trivial poker game, used as the first
//! correctness oracle for the solver.
//!
//! ## Rules
//!
//! Three cards: Jack, Queen, King (encoded `0 < 1 < 2`).  Two players each ante
//! 1 chip and are dealt one private card.  Player 0 acts first.  Each decision
//! is binary:
//!
//! * **action 0** = check (when facing no bet) / fold (when facing a bet)
//! * **action 1** = bet (when facing no bet) / call (when facing a bet)
//!
//! A single bet/raise of 1 chip is allowed.  The betting histories are:
//!
//! ```text
//!   (empty)         P0 to act
//!   [check]         P1 to act
//!   [bet]           P1 to act
//!   [check,check]   showdown, pot 2
//!   [check,bet]     P0 to act
//!   [check,bet,fold] P1 wins P0's ante
//!   [check,bet,call] showdown, pot 4
//!   [bet,fold]      P0 wins P1's ante
//!   [bet,call]      showdown, pot 4
//! ```

use vstd::prelude::*;

verus! {

/// Action index for check / fold.
pub const CHECK_FOLD: usize = 0;

/// Action index for bet / call.
pub const BET_CALL: usize = 1;

/// A Kuhn Poker node.
///
/// Before the deal (`dealt == false`) the state is the single chance node.
/// After the deal, `cards[p]` holds player `p`'s card and `history` records the
/// actions taken so far.
#[derive(Clone, Debug)]
pub struct KuhnState {
    pub dealt: bool,
    pub cards: [u8; 2],
    /// Actions taken so far (each [`CHECK_FOLD`] or [`BET_CALL`]).
    pub history: Vec<u8>,
}

/// The Kuhn Poker game.
pub struct Kuhn;

/// The betting is over: both checked, or a bet was answered.
pub open spec fn is_over(history: Seq<u8>) -> bool {
    ||| history == seq![0u8, 0u8]
    ||| history == seq![0u8, 1u8, 0u8]
    ||| history == seq![0u8, 1u8, 1u8]
    ||| history == seq![1u8, 0u8]
    ||| history == seq![1u8, 1u8]
}

/// Somebody is to act.
pub open spec fn is_decision(history: Seq<u8>) -> bool {
    ||| history == Seq::<u8>::empty()
    ||| history == seq![0u8]
    ||| history == seq![1u8]
    ||| history == seq![0u8, 1u8]
}

/// Player 0's chips at the end of a hand: the other's ante where somebody
/// folded, and at a showdown ante or ante and bet to the higher card.
pub open spec fn utility_p0(cards: Seq<u8>, history: Seq<u8>) -> int {
    let stake = if history == seq![0u8, 0u8] { 1int } else { 2int };
    if history == seq![0u8, 1u8, 0u8] {
        -1
    } else if history == seq![1u8, 0u8] {
        1
    } else if cards[0] > cards[1] {
        stake
    } else {
        -stake
    }
}

/// Chips that `player` wins at the end of a hand.
pub open spec fn utility_of(cards: Seq<u8>, history: Seq<u8>, player: int) -> int {
    if player == 0 {
        utility_p0(cards, history)
    } else {
        -utility_p0(cards, history)
    }
}

/// The history as a base-3 number with a leading 1, so that distinct lengths
/// have distinct codes.
pub open spec fn history_code(history: Seq<u8>) -> nat
    decreases history.len(),
{
    if history.len() == 0 {
        1
    } else {
        history_code(history.drop_last()) * 3 + history.last() as nat + 1
    }
}

/// The cards of the `i`-th of the six deals.
pub open spec fn deal_at(i: int) -> Seq<u8> {
    if i == 0 {
        seq![0u8, 1u8]
    } else if i == 1 {
        seq![0u8, 2u8]
    } else if i == 2 {
        seq![1u8, 0u8]
    } else if i == 3 {
        seq![1u8, 2u8]
    } else if i == 4 {
        seq![2u8, 0u8]
    } else {
        seq![2u8, 1u8]
    }
}

proof fn lemma_history_cases(history: Seq<u8>)
    ensures
        is_over(history) <==> ({
            ||| history.len() == 2 && history[0] == 0 && history[1] == 0
            ||| history.len() == 3 && history[0] == 0 && history[1] == 1 && history[2] <= 1
            ||| history.len() == 2 && history[0] == 1 && history[1] <= 1
        }),
        is_decision(history) <==> ({
            ||| history.len() == 0
            ||| history.len() == 1 && history[0] <= 1
            ||| history.len() == 2 && history[0] == 0 && history[1] == 1
        }),
{
    if history.len() == 0 {
        assert(history =~= Seq::<u8>::empty());
    } else if history.len() == 1 {
        assert(history[0] == 0 ==> history =~= seq![0u8]);
        assert(history[0] == 1 ==> history =~= seq![1u8]);
    } else if history.len() == 2 {
        assert(history[0] == 0 && history[1] == 0 ==> history =~= seq![0u8, 0u8]);
        assert(history[0] == 0 && history[1] == 1 ==> history =~= seq![0u8, 1u8]);
        assert(history[0] == 1 && history[1] == 0 ==> history =~= seq![1u8, 0u8]);
        assert(history[0] == 1 && history[1] == 1 ==> history =~= seq![1u8, 1u8]);
    } else if history.len() == 3 {
        assert(history[0] == 0 && history[1] == 1 && history[2] == 0 ==> history =~= seq![
            0u8,
            1u8,
            0u8,
        ]);
        assert(history[0] == 0 && history[1] == 1 && history[2] == 1 ==> history =~= seq![
            0u8,
            1u8,
            1u8,
        ]);
    }
}

impl KuhnState {
    /// True at one of the showdown / fold terminal histories.
    pub fn is_terminal_history(&self) -> (over: bool)
        ensures
            over == is_over(self.history@),
    {
        let h: &Vec<u8> = &self.history;
        proof {
            lemma_history_cases(self.history@);
        }
        if h.len() == 2 {
            (h[0] == 0 && h[1] == 0) || (h[0] == 1 && h[1] <= 1)
        } else {
            h.len() == 3 && h[0] == 0 && h[1] == 1 && h[2] <= 1
        }
    }

    /// Player 0's utility at a terminal history (player 1's is the negation),
    /// in chips.
    pub fn terminal_utility_p0(&self) -> (utility: i32)
        requires
            is_over(self.history@),
        ensures
            utility == utility_p0(self.cards@, self.history@),
    {
        proof {
            lemma_history_cases(self.history@);
        }
        let h: &Vec<u8> = &self.history;
        let p0_wins: bool = self.cards[0] > self.cards[1];
        if h.len() == 3 {
            assert(h@[2] == 0 ==> h@ =~= seq![0u8, 1u8, 0u8]);
            if h[2] == 0 {
                -1
            } else if p0_wins {
                2
            } else {
                -2
            }
        } else if h[0] == 0 {
            if p0_wins {
                1
            } else {
                -1
            }
        } else if h[1] == 0 {
            1
        } else if p0_wins {
            2
        } else {
            -2
        }
    }
}

impl Kuhn {
    pub fn num_players(&self) -> (players: usize)
        ensures
            players == 2,
    {
        2
    }

    /// The chance node before the deal.
    pub fn root(&self) -> (state: KuhnState)
        ensures
            !state.dealt,
            state.cards@ == seq![0u8, 0u8],
            state.history@ == Seq::<u8>::empty(),
    {
        let cards: [u8; 2] = [0, 0];
        assert(cards@ =~= seq![0u8, 0u8]);
        KuhnState { dealt: false, cards, history: Vec::new() }
    }

    pub fn is_terminal(&self, state: &KuhnState) -> (over: bool)
        ensures
            over == (state.dealt && is_over(state.history@)),
    {
        state.dealt && state.is_terminal_history()
    }

    pub fn is_chance(&self, state: &KuhnState) -> (chance: bool)
        ensures
            chance == !state.dealt,
    {
        !state.dealt
    }

    /// Chips that `player` wins at a terminal state.
    pub fn utility(&self, state: &KuhnState, player: usize) -> (utility: i32)
        requires
            is_over(state.history@),
        ensures
            utility == utility_of(state.cards@, state.history@, player as int),
    {
        let u0: i32 = state.terminal_utility_p0();
        if player == 0 {
            u0
        } else {
            -u0
        }
    }

    /// All 6 ordered deals of two distinct cards from {0,1,2}, equally likely.
    pub fn chance_outcomes(&self) -> (outcomes: Vec<KuhnState>)
        ensures
            outcomes@.len() == 6,
            forall|i: int|
                0 <= i < 6 ==> (#[trigger] outcomes@[i]).dealt && outcomes@[i].history@ == Seq::<
                    u8,
                >::empty() && outcomes@[i].cards@ == deal_at(i),
    {
        let mut out: Vec<KuhnState> = Vec::new();
        let mut a: u8 = 0;
        while a < 3
            invariant
                a <= 3,
                out@.len() == 2 * a,
                forall|i: int|
                    0 <= i < out@.len() ==> (#[trigger] out@[i]).dealt && out@[i].history@ == Seq::<
                        u8,
                    >::empty() && out@[i].cards@ == deal_at(i),
            decreases 3 - a,
        {
            let mut b: u8 = 0;
            while b < 3
                invariant
                    a < 3,
                    b <= 3,
                    out@.len() == 2 * a + if b <= a { b as int } else { b - 1 },
                    forall|i: int|
                        0 <= i < out@.len() ==> (#[trigger] out@[i]).dealt && out@[i].history@
                            == Seq::<u8>::empty() && out@[i].cards@ == deal_at(i),
                decreases 3 - b,
            {
                if a != b {
                    let state = KuhnState { dealt: true, cards: [a, b], history: Vec::new() };
                    assert(state.cards@ =~= deal_at(out@.len() as int));
                    out.push(state);
                }
                b += 1;
            }
            a += 1;
        }
        out
    }

    /// Even-length histories are player 0's turn, odd are player 1's.  The only
    /// length-2 decision node is [check, bet], which is player 0 again.
    pub fn current_player(&self, state: &KuhnState) -> (player: usize)
        ensures
            player == state.history@.len() % 2,
    {
        state.history.len() % 2
    }

    pub fn num_actions(&self, _state: &KuhnState) -> (actions: usize)
        ensures
            actions == 2,
    {
        2
    }

    /// Take an action ([`CHECK_FOLD`] or [`BET_CALL`]).
    pub fn apply(&self, state: &KuhnState, action: usize) -> (next: KuhnState)
        requires
            action == CHECK_FOLD || action == BET_CALL,
        ensures
            next.dealt == state.dealt,
            next.cards == state.cards,
            next.history@ == state.history@.push(action as u8),
    {
        let mut history: Vec<u8> = state.history.clone();
        history.push(action as u8);
        KuhnState { dealt: state.dealt, cards: state.cards, history }
    }

    /// Unique per (acting player's card, public history).  The history already
    /// encodes whose turn it is, so the two players never collide.
    pub fn info_key(&self, state: &KuhnState) -> (key: u64)
        requires
            history_code(state.history@) <= u64::MAX,
        ensures
            key == info_key_model(state.cards@, state.history@),
    {
        let player: usize = self.current_player(state);
        let card: u64 = state.cards[player] as u64;
        let mut code: u64 = 1;
        let mut i: usize = 0;
        let ghost h = state.history@;
        assert(h.take(0) =~= Seq::<u8>::empty());
        while i < state.history.len()
            invariant
                i <= h.len(),
                h == state.history@,
                history_code(h) <= u64::MAX,
                code == history_code(h.take(i as int)),
            decreases h.len() - i,
        {
            proof {
                lemma_code_grows(h, i + 1);
                assert(h.take(i + 1).drop_last() =~= h.take(i as int));
            }
            code = code * 3 + (state.history[i] as u64 + 1);
            i += 1;
        }
        assert(h.take(i as int) =~= h);
        (card << 32) | code
    }
}

/// The key of the player to act: its card above the history code.
pub open spec fn info_key_model(cards: Seq<u8>, history: Seq<u8>) -> u64 {
    ((cards[(history.len() % 2) as int] as u64) << 32) | (history_code(history) as u64)
}

proof fn lemma_code_grows(h: Seq<u8>, k: int)
    requires
        0 <= k <= h.len(),
    ensures
        history_code(h.take(k)) <= history_code(h),
    decreases h.len(),
{
    if k == h.len() {
        assert(h.take(k) =~= h);
    } else {
        lemma_code_grows(h.drop_last(), k);
        assert(h.drop_last().take(k) =~= h.take(k));
    }
}

/// What one player wins the other loses, and no more than ante and bet change
/// hands.
pub proof fn law_zero_sum(cards: Seq<u8>, history: Seq<u8>)
    requires
        is_over(history),
    ensures
        utility_of(cards, history, 0) + utility_of(cards, history, 1) == 0,
        -2 <= utility_of(cards, history, 0) <= 2,
        utility_of(cards, history, 0) != 0,
{
}

/// An action at a decision leads to another decision or to the end, and no
/// hand is both over and undecided.
pub proof fn law_tree_closed(history: Seq<u8>, action: u8)
    requires
        is_decision(history),
        action <= 1,
    ensures
        !is_over(history),
        is_decision(history.push(action)) || is_over(history.push(action)),
{
    lemma_history_cases(history);
    lemma_history_cases(history.push(action));
}

/// Keys tell information sets apart: two decisions share a key exactly when
/// the player to act holds the same card after the same betting.
pub proof fn law_info_keys_injective(
    cards: Seq<u8>,
    history: Seq<u8>,
    cards2: Seq<u8>,
    history2: Seq<u8>,
)
    requires
        is_decision(history),
        is_decision(history2),
    ensures
        info_key_model(cards, history) == info_key_model(cards2, history2) <==> history == history2
            && cards[(history.len() % 2) as int] == cards2[(history2.len() % 2) as int],
{
    reveal_with_fuel(history_code, 4);
    lemma_history_cases(history);
    lemma_history_cases(history2);
    let card = cards[(history.len() % 2) as int] as u64;
    let card2 = cards2[(history2.len() % 2) as int] as u64;
    let code = history_code(history) as u64;
    let code2 = history_code(history2) as u64;
    assert(code == if history.len() == 0 {
        1
    } else if history.len() == 1 {
        4 + history[0] as int
    } else {
        14
    });
    assert(code2 == if history2.len() == 0 {
        1
    } else if history2.len() == 1 {
        4 + history2[0] as int
    } else {
        14
    });
    assert((card << 32) | code == (card2 << 32) | code2 <==> card == card2 && code == code2)
        by (bit_vector)
        requires
            card < 256,
            card2 < 256,
            code < 64,
            code2 < 64,
    ;
    if code == code2 {
        assert(history =~= history2);
    }
}

/// Chips that `player` has put in: the ante, and a chip more for each bet or
/// call.  The players act in turn, the first one at even places.
pub open spec fn put_in(history: Seq<u8>, player: int) -> int
    decreases history.len(),
{
    if history.len() == 0 {
        1
    } else {
        let before = put_in(history.drop_last(), player);
        if (history.len() - 1) % 2 == player && history.last() == 1 {
            before + 1
        } else {
            before
        }
    }
}

/// A hand ends with a fold where a check or fold answers a bet: who folds loses
/// what it put in.  Otherwise both have put in the same, and the higher card
/// takes the other's chips.
pub proof fn law_chips_go_to_the_winner(cards: Seq<u8>, history: Seq<u8>, winner: int)
    requires
        is_over(history),
        cards.len() == 2,
        cards[0] != cards[1],
        winner == 0 || winner == 1,
    ensures
        ({
            let last = history.len() - 1;
            let folded = history[last] == 0 && history[last - 1] == 1;
            &&& folded && winner != last % 2 ==> utility_of(cards, history, winner) == put_in(
                history,
                last % 2,
            ) && utility_of(cards, history, 1 - winner) == -put_in(history, last % 2)
            &&& !folded && cards[winner] > cards[1 - winner] ==> put_in(history, 0) == put_in(
                history,
                1,
            ) && utility_of(cards, history, winner) == put_in(history, 1 - winner) && utility_of(
                cards,
                history,
                1 - winner,
            ) == -put_in(history, 1 - winner)
        }),
{
    reveal_with_fuel(put_in, 4);
    let (cc, cbf, cbc, bf, bc) = (
        seq![0u8, 0u8],
        seq![0u8, 1u8, 0u8],
        seq![0u8, 1u8, 1u8],
        seq![1u8, 0u8],
        seq![1u8, 1u8],
    );
    assert(cbf.len() == 3 && cbc.len() == 3);
    assert(cc[1] == 0 && cbf[2] == 0 && cbc[2] == 1 && bf[1] == 0 && bc[1] == 1);
    assert(cc[0] == 0 && cbf[1] == 1 && cbc[1] == 1 && bf[0] == 1 && bc[0] == 1);
    assert(cc != bf && cc != bc && bf != bc && cbf != cbc);
}

/// A hand is over where both checked or a bet has been answered, and not
/// before.
pub proof fn law_hand_is_over(history: Seq<u8>)
    requires
        forall|i: int| 0 <= i < history.len() ==> #[trigger] history[i] <= 1,
    ensures
        is_over(history) <==> 2 <= history.len() <= 3 && (history.len() == 3 ==> history[0] == 0)
            && (history.len() == 2 && history[0] == 0 && history[1] == 0 || history[history.len()
            - 2] == 1),
{
    let n = history.len();
    if n == 2 {
        assert(history[0] <= 1 && history[1] <= 1);
        assert(history =~= seq![history[0], history[1]]);
    } else if n == 3 {
        assert(history[0] <= 1 && history[1] <= 1 && history[2] <= 1);
        assert(history =~= seq![history[0], history[1], history[2]]);
    }
    let (cc, cbf, cbc, bf, bc) = (
        seq![0u8, 0u8],
        seq![0u8, 1u8, 0u8],
        seq![0u8, 1u8, 1u8],
        seq![1u8, 0u8],
        seq![1u8, 1u8],
    );
    assert(cc.len() == 2 && cbf.len() == 3 && cbc.len() == 3 && bf.len() == 2 && bc.len() == 2);
    assert(cc[0] == 0 && cc[1] == 0 && cbf[0] == 0 && cbf[1] == 1 && cbc[0] == 0 && cbc[1] == 1);
    assert(bf[0] == 1 && bc[0] == 1);
}

/// The decisions are the histories that can be played on: the empty one, and
/// what an action leads to from a decision without ending the hand.
pub proof fn law_decisions_grow_from_the_root(history: Seq<u8>)
    ensures
        is_decision(Seq::<u8>::empty()),
        history.len() > 0 ==> (is_decision(history) <==> is_decision(history.drop_last())
            && history.last() <= 1 && !is_over(history)),
{
    if history.len() > 0 {
        let before = history.drop_last();
        assert(history =~= before.push(history.last()));
        if is_decision(before) && history.last() <= 1 {
            law_tree_closed(before, history.last());
        }
        if is_decision(history) {
            lemma_history_cases(history);
            if history.len() == 1 {
                assert(before =~= Seq::<u8>::empty());
            } else {
                assert(before =~= seq![0u8]);
            }
        }
    }
}

/// The deals are the ordered pairs of different cards of three, in ascending
/// order.
pub proof fn law_deals_are_the_ordered_pairs(i: int, j: int)
    requires
        0 <= i < j < 6,
    ensures
        deal_at(i).len() == 2 && deal_at(j).len() == 2,
        deal_at(i)[0] != deal_at(i)[1] && deal_at(j)[0] != deal_at(j)[1],
        deal_at(i)[0] < 3 && deal_at(i)[1] < 3 && deal_at(j)[0] < 3 && deal_at(j)[1] < 3,
        deal_at(i)[0] * 3 + deal_at(i)[1] < deal_at(j)[0] * 3 + deal_at(j)[1],
{
}

/// An information key holds the card of the player to act above its low half,
/// and there the betting: a leading one, and then a digit of one or two per
/// action, in base three.
pub proof fn law_info_key_laid_out(cards: Seq<u8>, history: Seq<u8>, action: u8)
    requires
        is_decision(history),
        cards.len() == 2,
        action <= 1,
    ensures
        info_key_model(cards, history) >> 32 == cards[(history.len() % 2) as int],
        info_key_model(cards, history) & 0xFFFF_FFFF == history_code(history),
        history_code(Seq::<u8>::empty()) == 1,
        history_code(history.push(action)) == 3 * history_code(history) + action + 1,
{
    reveal_with_fuel(history_code, 4);
    lemma_history_cases(history);
    assert(history.push(action).drop_last() =~= history);
    let card = cards[(history.len() % 2) as int] as u64;
    let code = history_code(history) as u64;
    assert(code < 64);
    assert(((card << 32) | code) >> 32 == card && ((card << 32) | code) & 0xFFFF_FFFF == code)
        by (bit_vector)
        requires
            card < 256,
            code < 64,
    ;
}

} // verus!
