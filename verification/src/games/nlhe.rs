//! Heads-up hold'em over a small **curated set of concrete deals**.
//!
//! Enumerating a few deals keeps the chance space listable while preserving the
//! essential feature of poker: **hidden information**.  A player keys
//! information sets on its *own* hole cards, so when several deals share a
//! player's hand but differ in the opponent's, that player genuinely cannot
//! tell them apart.

use crate::engine::{GameState, DECK_SIZE};
use crate::play::cards::make_card;
use crate::util::hash::{fnv1a, fnv_hash};
use vstd::prelude::*;

verus! {

/// One concrete heads-up deal: both players' hole cards and the full board.
#[derive(Clone, Debug)]
pub struct Deal {
    pub holes: [[u8; 2]; 2],
    pub board: [u8; 5],
}

impl Deal {
    /// The nine cards of the deal.
    pub open spec fn cards(&self) -> Seq<u8> {
        self.holes[0]@ + self.holes[1]@ + self.board@
    }

    /// Nine distinct cards of the deck.
    pub open spec fn of_one_deck(&self) -> bool {
        &&& self.cards().no_duplicates()
        &&& forall|i: int| 0 <= i < 9 ==> (#[trigger] self.cards()[i]) < DECK_SIZE
    }
}

/// A heads-up game over a fixed set of equally-likely deals.
pub struct HeadsUpHoldem {
    pub deals: Vec<Deal>,
    /// Each player's stack at the start of a hand.
    pub stack: u32,
    pub big_blind: u32,
    pub small_blind: u32,
    pub button: u8,
}

/// A node: the pre-deal chance root (`gs == None`) or a play node with its
/// perfect-recall action history.
#[derive(Clone, Debug)]
pub struct NlheState {
    pub gs: Option<GameState>,
    /// Legal-action indices taken so far.
    pub history: Vec<u8>,
}

/// A pair in ascending order.
pub open spec fn ascending(hole: Seq<u8>) -> Seq<u8> {
    if hole[0] <= hole[1] {
        seq![hole[0], hole[1]]
    } else {
        seq![hole[1], hole[0]]
    }
}

/// The bytes behind an information key: the acting player's own cards, the
/// visible board, and — after a separator — the action history.
pub open spec fn nlhe_key_bytes(player: u8, hole: Seq<u8>, board: Seq<u8>, history: Seq<u8>) -> Seq<u8> {
    seq![player] + ascending(hole) + seq![board.len() as u8] + board + seq![0xFFu8] + history
}

/// Different situations have different key bytes; the order of the two hole
/// cards is the only thing that does not count.
pub proof fn law_nlhe_keys_injective(
    player: u8,
    hole: Seq<u8>,
    board: Seq<u8>,
    history: Seq<u8>,
    player2: u8,
    hole2: Seq<u8>,
    board2: Seq<u8>,
    history2: Seq<u8>,
)
    requires
        board.len() <= 5,
        board2.len() <= 5,
    ensures
        nlhe_key_bytes(player, hole, board, history) == nlhe_key_bytes(
            player2,
            hole2,
            board2,
            history2,
        ) <==> player == player2 && ascending(hole) == ascending(hole2) && board == board2
            && history == history2,
{
    let x = nlhe_key_bytes(player, hole, board, history);
    let y = nlhe_key_bytes(player2, hole2, board2, history2);
    if x == y {
        assert(x[0] == player && y[0] == player2);
        assert(x.subrange(1, 3) =~= ascending(hole));
        assert(y.subrange(1, 3) =~= ascending(hole2));
        assert(x[3] == board.len() && y[3] == board2.len());
        let n = board.len() as int;
        assert(x.subrange(4, 4 + n) =~= board);
        assert(y.subrange(4, 4 + n) =~= board2);
        assert(x.skip(5 + n) =~= history);
        assert(y.skip(5 + n) =~= history2);
    }
}

impl HeadsUpHoldem {
    /// Construct from explicit deals and table parameters.
    pub fn new(deals: Vec<Deal>, stack: u32, big_blind: u32, small_blind: u32, button: u8) -> (game: Self)
        ensures
            game == (HeadsUpHoldem { deals, stack, big_blind, small_blind, button }),
    {
        HeadsUpHoldem { deals, stack, big_blind, small_blind, button }
    }

    /// A small demonstration game: each player holds one of two possible hands
    /// on a shared board, giving every player a genuine two-way uncertainty
    /// about the opponent.  Four equally-likely deals.
    pub fn demo() -> (game: Self)
        ensures
            game.stack == 40,
            game.big_blind == 10,
            game.small_blind == 5,
            game.button == 0,
            game.deals@.len() == 4,
            forall|i: int|
                0 <= i < 4 ==> {
                    &&& (#[trigger] game.deals@[i]).board@ == seq![48u8, 45u8, 22u8, 3u8, 28u8]
                    &&& game.deals@[i].holes[0]@ == if i < 2 {
                        seq![40u8, 41u8]
                    } else {
                        seq![26u8, 27u8]
                    }
                    &&& game.deals@[i].holes[1]@ == if i % 2 == 0 {
                        seq![36u8, 37u8]
                    } else {
                        seq![6u8, 7u8]
                    }
                    &&& game.deals@[i].of_one_deck()
                },
    {
        // Board: A♣ K♦ 7♥ 2♠ 9♣
        let board: [u8; 5] = [
            make_card(12, 0),
            make_card(11, 1),
            make_card(5, 2),
            make_card(0, 3),
            make_card(7, 0),
        ];
        // Player 0 holds QQ or 88; player 1 holds JJ or 33 — none collide.
        let queens: [u8; 2] = [make_card(10, 0), make_card(10, 1)];
        let eights: [u8; 2] = [make_card(6, 2), make_card(6, 3)];
        let jacks: [u8; 2] = [make_card(9, 0), make_card(9, 1)];
        let threes: [u8; 2] = [make_card(1, 2), make_card(1, 3)];
        let mut deals: Vec<Deal> = Vec::new();
        deals.push(Deal { holes: [queens, jacks], board });
        deals.push(Deal { holes: [queens, threes], board });
        deals.push(Deal { holes: [eights, jacks], board });
        deals.push(Deal { holes: [eights, threes], board });
        proof {
            assert(board@ =~= seq![48u8, 45u8, 22u8, 3u8, 28u8]);
            assert(queens@ =~= seq![40u8, 41u8]);
            assert(eights@ =~= seq![26u8, 27u8]);
            assert(jacks@ =~= seq![36u8, 37u8]);
            assert(threes@ =~= seq![6u8, 7u8]);
            let s = deals@;
            assert(s[0].cards() =~= seq![40u8, 41u8, 36u8, 37u8, 48u8, 45u8, 22u8, 3u8, 28u8]);
            assert(s[1].cards() =~= seq![40u8, 41u8, 6u8, 7u8, 48u8, 45u8, 22u8, 3u8, 28u8]);
            assert(s[2].cards() =~= seq![26u8, 27u8, 36u8, 37u8, 48u8, 45u8, 22u8, 3u8, 28u8]);
            assert(s[3].cards() =~= seq![26u8, 27u8, 6u8, 7u8, 48u8, 45u8, 22u8, 3u8, 28u8]);
        }
        Self::new(deals, 40, 10, 5, 0)
    }

    /// The pre-deal chance node.
    pub fn root(&self) -> (state: NlheState)
        ensures
            state.gs is None,
            state.history@ == Seq::<u8>::empty(),
    {
        NlheState { gs: None, history: Vec::new() }
    }

    /// Whether the hand is over at `state`.
    pub fn is_terminal(&self, state: &NlheState) -> (over: bool)
        ensures
            over == (state.gs is Some && state.gs->0.terminal),
    {
        match &state.gs {
            Some(gs) => gs.terminal,
            None => false,
        }
    }

    /// Whether `state` is the pre-deal chance node.
    pub fn is_chance(&self, state: &NlheState) -> (chance: bool)
        ensures
            chance == (state.gs is None),
    {
        state.gs.is_none()
    }

    /// The play node of a deal, as the engine sets it up.
    pub fn dealt(&self, gs: GameState) -> (state: NlheState)
        ensures
            state.gs == Some(gs),
            state.history@ == Seq::<u8>::empty(),
    {
        NlheState { gs: Some(gs), history: Vec::new() }
    }

    /// The node after the action with index `action`, which takes the engine to
    /// `next`.
    pub fn apply(&self, state: &NlheState, action: u8, next: GameState) -> (after: NlheState)
        requires
            state.gs is Some,
        ensures
            after.gs == Some(next),
            after.history@ == state.history@.push(action),
    {
        let mut history: Vec<u8> = state.history.clone();
        history.push(action);
        NlheState { gs: Some(next), history }
    }

    /// The information key of the acting player: own hole cards in either
    /// order, the public board visible on this street, and the perfect-recall
    /// action history.
    pub fn info_key(&self, state: &NlheState) -> (key: u64)
        requires
            state.gs matches Some(gs) && gs.wf(),
        ensures
            key == fnv_hash(
                nlhe_key_bytes(
                    state.gs->0.to_act,
                    state.gs->0.hole_cards[state.gs->0.to_act as int]@,
                    state.gs->0.board@.take(state.gs->0.visible as int),
                    state.history@,
                ),
            ),
    {
        let mut bytes: Vec<u8> = Vec::new();
        match &state.gs {
            Some(gs) => {
                let hole: [u8; 2] = gs.hole_cards[gs.to_act as usize];
                bytes.push(gs.to_act);
                if hole[0] <= hole[1] {
                    bytes.push(hole[0]);
                    bytes.push(hole[1]);
                } else {
                    bytes.push(hole[1]);
                    bytes.push(hole[0]);
                }
                bytes.push(gs.visible);
                let ghost head = seq![gs.to_act] + ascending(hole@) + seq![gs.visible];
                assert(bytes@ =~= head);
                let mut i: usize = 0;
                while i < gs.visible as usize
                    invariant
                        i <= gs.visible <= 5,
                        bytes@ == head + gs.board@.take(i as int),
                    decreases gs.visible - i,
                {
                    bytes.push(gs.board[i]);
                    i += 1;
                    assert(bytes@ =~= head + gs.board@.take(i as int));
                }
                bytes.push(0xFF);
                let ghost before = bytes@;
                bytes.extend_from_slice(state.history.as_slice());
                assert(bytes@ =~= before + state.history@);
                assert(bytes@ =~= nlhe_key_bytes(
                    gs.to_act,
                    hole@,
                    gs.board@.take(gs.visible as int),
                    state.history@,
                ));
            },
            None => {},
        }
        fnv1a(bytes.as_slice())
    }
}

/// Sorting a hand keeps its two cards, the lower one first.
pub proof fn law_hands_are_sorted(hole: Seq<u8>)
    requires
        hole.len() == 2,
    ensures
        ascending(hole).len() == 2,
        ascending(hole)[0] <= ascending(hole)[1],
        (ascending(hole)[0] == hole[0] && ascending(hole)[1] == hole[1]) || (ascending(hole)[0]
            == hole[1] && ascending(hole)[1] == hole[0]),
{
}

/// Where each thing stands in an information key's bytes: the player, the two
/// hole cards, the number of board cards, those cards, a byte that is no card,
/// and the history to the end.
pub proof fn law_nlhe_key_laid_out(player: u8, hole: Seq<u8>, board: Seq<u8>, history: Seq<u8>)
    requires
        hole.len() == 2,
        board.len() <= 5,
    ensures
        ({
            let bytes = nlhe_key_bytes(player, hole, board, history);
            let n = board.len() as int;
            &&& bytes.len() == n + history.len() + 5
            &&& bytes[0] == player
            &&& bytes[1] <= bytes[2]
            &&& (bytes[1] == hole[0] && bytes[2] == hole[1]) || (bytes[1] == hole[1] && bytes[2]
                == hole[0])
            &&& bytes[3] == n
            &&& forall|i: int| 0 <= i < n ==> bytes[4 + i] == #[trigger] board[i]
            &&& bytes[4 + n] == 255
            &&& forall|i: int| 0 <= i < history.len() ==> bytes[5 + n + i] == #[trigger] history[i]
        }),
{
}

/// A deal is of one deck where its nine cards, both hands' and the board's, are
/// different cards of 52.
pub proof fn law_deals_are_of_one_deck(deal: Deal)
    requires
        deal.of_one_deck(),
    ensures
        ({
            let nine = seq![
                deal.holes[0][0],
                deal.holes[0][1],
                deal.holes[1][0],
                deal.holes[1][1],
                deal.board[0],
                deal.board[1],
                deal.board[2],
                deal.board[3],
                deal.board[4],
            ];
            &&& nine.no_duplicates()
            &&& forall|i: int| 0 <= i < 9 ==> (#[trigger] nine[i]) < 52
        }),
{
    let nine = seq![
        deal.holes[0][0],
        deal.holes[0][1],
        deal.holes[1][0],
        deal.holes[1][1],
        deal.board[0],
        deal.board[1],
        deal.board[2],
        deal.board[3],
        deal.board[4],
    ];
    assert(nine =~= deal.cards());
}

} // verus!
