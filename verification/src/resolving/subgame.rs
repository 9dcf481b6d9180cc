//! Depth-limited subgames over explicit deals.
//!
//! Resolving turns the public state at the resolve root into a *subgame*:
//!
//!  * **Chance** = the deal of both players' hole cards from their ranges, with
//!    card removal ([`compatible_deals`]).
//!  * **Play** = real betting from the root public state, so any bet size is
//!    handled exactly.
//!  * **Leaves** = either a real terminal (fold/showdown) or the **depth
//!    limit**: the tree is cut where the street wants a board card the root does
//!    not have.  A river subgame has no depth cut.
//!
//! With more than one continuation a depth-limit leaf is first a choice of the
//! opponent among them, then a terminal scored by the choice.

use super::vector_cfr::keys::{
    info_bytes, info_key, law_dealt_cards_are_the_filled_slots, MARKER_CONTINUATION, MARKER_NONE,
};
use super::vector_cfr::solve::hand_key;
use super::vector_cfr::tree::{needs_runout, wants_card, NodeKind};
use crate::engine::{GameState, DECK_SIZE};
use crate::games::nlhe::ascending;
use crate::util::card_set::CardSet;
use crate::util::hash::fnv_hash;
use vstd::prelude::*;

verus! {

/// Two different cards of the deck.
pub open spec fn is_hand(hand: [u8; 2]) -> bool {
    hand[0] < DECK_SIZE && hand[1] < DECK_SIZE && hand[0] != hand[1]
}

/// Whether a hand shares no card with `cards`.
pub open spec fn avoids(hand: [u8; 2], cards: Seq<u8>) -> bool {
    !cards.contains(hand[0]) && !cards.contains(hand[1])
}

/// Whether two hands can be dealt together on a board.
pub open spec fn compatible(board: Seq<u8>, h0: [u8; 2], h1: [u8; 2]) -> bool {
    avoids(h0, board) && avoids(h1, board) && avoids(h0, h1@)
}

/// One enumerated range-vs-range deal, by the hands' places in their ranges.
#[derive(Debug, Clone, Copy, PartialEq, Eq, Structural)]
pub struct DealPair {
    pub first: usize,
    pub second: usize,
}

/// Whether a deal comes before another: by first hand, then by second.
pub open spec fn deal_before(a: DealPair, b: DealPair) -> bool {
    a.first < b.first || (a.first == b.first && a.second < b.second)
}

/// `deals` are the compatible pairs of hands, first range first.
pub open spec fn are_deals(
    deals: Seq<DealPair>,
    board: Seq<u8>,
    range0: Seq<[u8; 2]>,
    range1: Seq<[u8; 2]>,
) -> bool {
    &&& forall|i: int, j: int| 0 <= i < j < deals.len() ==> deal_before(deals[i], deals[j])
    &&& forall|d: DealPair|
        #[trigger] deals.contains(d) <==> d.first < range0.len() && d.second < range1.len()
            && compatible(board, range0[d.first as int], range1[d.second as int])
}

/// Whether a hand shares no card with a set of cards below 64.
fn hand_avoids(hand: [u8; 2], used: &CardSet) -> (clear: bool)
    requires
        is_hand(hand),
    ensures
        clear == (!used.has(hand[0]) && !used.has(hand[1])),
{
    !used.contains(hand[0]) && !used.contains(hand[1])
}

/// Whether a hand of the deck shares no card with a board.
pub fn off_board(hand: [u8; 2], board: &[u8; 5]) -> (clear: bool)
    requires
        is_hand(hand),
    ensures
        clear == avoids(hand, board@),
{
    let used = CardSet::of_cards(board);
    hand_avoids(hand, &used)
}

/// Whether two hands share no card.
pub fn disjoint_hands(h0: [u8; 2], h1: [u8; 2]) -> (disjoint: bool)
    ensures
        disjoint == avoids(h0, h1@),
{
    let disjoint: bool = h0[0] != h1[0] && h0[0] != h1[1] && h0[1] != h1[0] && h0[1] != h1[1];
    proof {
        assert(h1@[0] == h1[0] && h1@[1] == h1[1]);
    }
    disjoint
}

/// Enumerate the deals consistent with both ranges: every pair of hands with no
/// shared cards and none on the board.
pub fn compatible_deals(board: &[u8; 5], range0: &[[u8; 2]], range1: &[[u8; 2]]) -> (deals: Vec<
    DealPair,
>)
    requires
        forall|i: int| 0 <= i < range0@.len() ==> is_hand(#[trigger] range0@[i]),
        forall|i: int| 0 <= i < range1@.len() ==> is_hand(#[trigger] range1@[i]),
    ensures
        are_deals(deals@, board@, range0@, range1@),
{
    let mut deals: Vec<DealPair> = Vec::new();
    let mut i: usize = 0;
    while i < range0.len()
        invariant
            i <= range0@.len(),
            forall|k: int| 0 <= k < range0@.len() ==> is_hand(#[trigger] range0@[k]),
            forall|k: int| 0 <= k < range1@.len() ==> is_hand(#[trigger] range1@[k]),
            forall|a: int, b: int| 0 <= a < b < deals@.len() ==> deal_before(deals@[a], deals@[b]),
            forall|d: DealPair|
                #[trigger] deals@.contains(d) <==> d.first < i && d.second < range1@.len()
                    && compatible(board@, range0@[d.first as int], range1@[d.second as int]),
        decreases range0@.len() - i,
    {
        let h0: [u8; 2] = range0[i];
        let clear0: bool = off_board(h0, board);
        let mut j: usize = 0;
        while j < range1.len()
            invariant
                i < range0@.len(),
                j <= range1@.len(),
                h0 == range0@[i as int],
                clear0 == avoids(h0, board@),
                forall|k: int| 0 <= k < range1@.len() ==> is_hand(#[trigger] range1@[k]),
                forall|a: int, b: int|
                    0 <= a < b < deals@.len() ==> deal_before(deals@[a], deals@[b]),
                forall|d: DealPair|
                    #[trigger] deals@.contains(d) <==> (d.first < i && d.second < range1@.len() || d.first
                        == i && d.second < j) && compatible(
                        board@,
                        range0@[d.first as int],
                        range1@[d.second as int],
                    ),
            decreases range1@.len() - j,
        {
            let h1: [u8; 2] = range1[j];
            if clear0 && off_board(h1, board) && disjoint_hands(h0, h1) {
                let ghost before = deals@;
                let new = DealPair { first: i, second: j };
                deals.push(new);
                proof {
                    assert forall|a: int, b: int| 0 <= a < b < deals@.len() implies deal_before(
                        deals@[a],
                        deals@[b],
                    ) by {
                        if b == before.len() {
                            assert(before.contains(before[a]));
                        }
                    }
                    assert forall|d: DealPair| #[trigger] deals@.contains(d) implies (d.first < i
                        && d.second < range1@.len() || d.first == i && d.second < j + 1)
                        && compatible(board@, range0@[d.first as int], range1@[d.second as int]) by {
                        let k = choose|k: int| 0 <= k < deals@.len() && deals@[k] == d;
                        if k < before.len() {
                            assert(before[k] == d);
                            assert(before.contains(d));
                        }
                    }
                    assert forall|d: DealPair|
                        (d.first < i && d.second < range1@.len() || d.first == i && d.second < j
                            + 1) && compatible(
                            board@,
                            range0@[d.first as int],
                            range1@[d.second as int],
                        ) implies #[trigger] deals@.contains(d) by {
                        if d == new {
                            assert(deals@[before.len() as int] == d);
                        } else {
                            assert(before.contains(d));
                            let k = choose|k: int| 0 <= k < before.len() && before[k] == d;
                            assert(deals@[k] == d);
                        }
                    }
                }
            }
            j += 1;
        }
        i += 1;
    }
    deals
}

/// A node in the subgame: the pre-deal chance root (`gs == None`) or a play
/// node.
#[derive(Clone, Debug)]
pub struct SubgameNode {
    pub gs: Option<GameState>,
    /// Action indices from the resolve root.
    pub history: Vec<u8>,
    /// The continuation chosen at a depth-limit leaf, once it is.
    pub continuation: Option<u8>,
}

impl SubgameNode {
    /// A play node has a sound state.
    pub open spec fn wf(&self) -> bool {
        self.gs matches Some(gs) ==> gs.wf()
    }

    /// The initial play node for a deal: `template` with the two players' hole
    /// cards set (`holes[p]` to player `p`).
    pub fn deal(template: &GameState, holes: [[u8; 2]; 2]) -> (node: Self)
        ensures
            node.gs == Some(GameState { hole_cards: holes, ..*template }),
            node.history@ == Seq::<u8>::empty(),
            node.continuation is None,
    {
        let mut gs: GameState = *template;
        gs.hole_cards = holes;
        SubgameNode { gs: Some(gs), history: Vec::new(), continuation: None }
    }

    /// Hole cards of `player` at a play node (`None` at the pre-deal chance
    /// root).
    pub fn hole_cards(&self, player: usize) -> (hole: Option<[u8; 2]>)
        requires
            player < 2,
        ensures
            hole == match self.gs {
                Some(gs) => Some(gs.hole_cards[player as int]),
                None => None,
            },
    {
        match &self.gs {
            Some(gs) => Some(gs.hole_cards[player]),
            None => None,
        }
    }
}

/// A depth-limited heads-up subgame.
#[derive(Debug, Clone, Copy, PartialEq, Eq, Structural)]
pub struct Subgame {
    /// Opponent continuations offered at each depth-limit leaf; with one,
    /// leaves are plain terminals.
    pub k: usize,
    /// The player who chooses the continuation at a leaf: the opponent of the
    /// resolve-root actor.
    pub chooser: usize,
}

/// Whether a node is a depth-limit leaf at which the continuation is still to
/// be chosen.
pub open spec fn choice_pending(game: Subgame, node: SubgameNode) -> bool {
    game.k > 1 && node.continuation is None && node.gs is Some && wants_card(node.gs->0)
}

/// Who acts at a play node.
pub open spec fn actor(game: Subgame, node: SubgameNode) -> int {
    if choice_pending(game, node) {
        game.chooser as int
    } else {
        node.gs->0.to_act as int
    }
}

/// The bytes behind a node's key: the actor keys on its own hand.
pub open spec fn node_bytes(game: Subgame, node: SubgameNode) -> Seq<u8> {
    let player = actor(game, node);
    info_bytes(
        player as u8,
        ascending(node.gs->0.hole_cards[player]@),
        node.gs->0.board@,
        node.history@,
        if choice_pending(game, node) {
            MARKER_CONTINUATION
        } else {
            MARKER_NONE
        },
    )
}

impl Subgame {
    /// The chooser is a seat, and there is a continuation.
    pub open spec fn wf(&self) -> bool {
        self.chooser < 2 && self.k >= 1
    }

    /// The subgame rooted at `template`, with `continuations` offered at each
    /// depth-limit leaf (at least one is).
    pub fn new(template: &GameState, continuations: usize) -> (game: Self)
        requires
            template.wf(),
        ensures
            game.wf(),
            game.k == if continuations > 1 {
                continuations
            } else {
                1
            },
            game.chooser == 1 - template.to_act,
    {
        Subgame {
            k: if continuations > 1 {
                continuations
            } else {
                1
            },
            chooser: 1 - template.current_player(),
        }
    }

    /// A game of two.
    pub fn num_players(&self) -> (n: usize)
        ensures
            n == 2,
    {
        2
    }

    /// The pre-deal chance node.
    pub fn root(&self) -> (node: SubgameNode)
        ensures
            node.gs is None,
            node.history@ == Seq::<u8>::empty(),
            node.continuation is None,
    {
        SubgameNode { gs: None, history: Vec::new(), continuation: None }
    }

    /// True when the engine's current street wants a board card the template
    /// does not have.  Such a node is a leaf scored by the evaluator, since its
    /// real showdown value depends on cards that are deliberately not searched.
    pub fn needs_leaf(&self, gs: &GameState) -> (leaf: bool)
        requires
            gs.wf(),
        ensures
            leaf == wants_card(*gs),
    {
        needs_runout(gs)
    }

    /// A depth-limit leaf with more than one continuation that the opponent has
    /// not yet chosen between: a decision node, not a terminal.
    pub fn pending_continuation(&self, node: &SubgameNode) -> (pending: bool)
        requires
            node.wf(),
        ensures
            pending == choice_pending(*self, *node),
    {
        match &node.gs {
            Some(gs) => self.k > 1 && node.continuation.is_none() && needs_runout(gs),
            None => false,
        }
    }

    /// Whether the hand is over at `node`, or cut with nothing left to choose.
    pub fn is_terminal(&self, node: &SubgameNode) -> (over: bool)
        requires
            node.wf(),
        ensures
            over == (node.gs is Some && !choice_pending(*self, *node) && (node.gs->0.terminal
                || wants_card(node.gs->0))),
    {
        if self.pending_continuation(node) {
            return false;
        }
        match &node.gs {
            Some(gs) => gs.is_terminal() || needs_runout(gs),
            None => false,
        }
    }

    /// Whether `node` is the pre-deal chance node.
    pub fn is_chance(&self, node: &SubgameNode) -> (chance: bool)
        ensures
            chance == (node.gs is None),
    {
        node.gs.is_none()
    }

    /// Who acts at a play node; see [`actor`].
    pub fn current_player(&self, node: &SubgameNode) -> (player: usize)
        requires
            self.wf(),
            node.wf(),
            node.gs is Some,
        ensures
            player == actor(*self, *node),
            player < 2,
    {
        if self.pending_continuation(node) {
            return self.chooser;
        }
        match &node.gs {
            Some(gs) => gs.current_player(),
            None => 0,
        }
    }

    /// Actions at a play node that has `legal` legal bets, and as a leaf the
    /// values of `continuations` continuations.
    pub fn num_actions(&self, node: &SubgameNode, legal: usize, continuations: usize) -> (n: usize)
        requires
            node.wf(),
            node.gs is Some,
        ensures
            n == if choice_pending(*self, *node) {
                continuations
            } else {
                legal
            },
    {
        if self.pending_continuation(node) {
            continuations
        } else {
            legal
        }
    }

    /// Record the chosen continuation; the node is then terminal.
    pub fn choose_continuation(&self, node: &SubgameNode, action: u8) -> (after: SubgameNode)
        requires
            node.wf(),
            choice_pending(*self, *node),
        ensures
            after.gs == node.gs,
            after.history@ == node.history@,
            after.continuation == Some(action),
            !choice_pending(*self, after),
    {
        SubgameNode { gs: node.gs, history: node.history.clone(), continuation: Some(action) }
    }

    /// The node after the bet with index `action`, which takes the engine to
    /// `next`.
    pub fn apply(&self, node: &SubgameNode, action: u8, next: GameState) -> (after: SubgameNode)
        requires
            node.wf(),
            node.gs is Some,
            !choice_pending(*self, *node),
        ensures
            after.gs == Some(next),
            after.history@ == node.history@.push(action),
            after.continuation is None,
    {
        let mut history: Vec<u8> = node.history.clone();
        history.push(action);
        SubgameNode { gs: Some(next), history, continuation: None }
    }

    /// Which of `count` continuation values scores a leaf: the chosen one (the
    /// normal one where there was no choice), at most the last.
    pub fn scored_continuation(&self, node: &SubgameNode, count: usize) -> (i: usize)
        requires
            count > 0,
        ensures
            i == {
                let chosen = match node.continuation {
                    Some(c) => c as int,
                    None => 0,
                };
                if chosen < count {
                    chosen
                } else {
                    count - 1
                }
            },
    {
        let chosen: usize = match node.continuation {
            Some(c) => c as usize,
            None => 0,
        };
        if chosen < count {
            chosen
        } else {
            count - 1
        }
    }

    /// The information key at a play node: the actor's own hand, the dealt
    /// board, the history, and a marker at a continuation choice.
    pub fn info_key(&self, node: &SubgameNode) -> (key: u64)
        requires
            self.wf(),
            node.wf(),
            node.gs is Some,
        ensures
            key == fnv_hash(node_bytes(*self, *node)),
    {
        let continuation: bool = self.pending_continuation(node);
        let player: usize = self.current_player(node);
        match &node.gs {
            Some(gs) => {
                let held: [u8; 2] = gs.hole_cards[player];
                let hole: [u8; 2] = sorted_hand(held);
                let marker: u8 = if continuation {
                    MARKER_CONTINUATION
                } else {
                    MARKER_NONE
                };
                info_key(player, hole, &gs.board, node.history.as_slice(), marker)
            },
            None => 0,
        }
    }
}

/// A hand in ascending order.
pub fn sorted_hand(hand: [u8; 2]) -> (sorted: [u8; 2])
    ensures
        sorted@ == ascending(hand@),
{
    let sorted: [u8; 2] = if hand[0] <= hand[1] {
        hand
    } else {
        [hand[1], hand[0]]
    };
    assert(sorted@ =~= ascending(hand@));
    sorted
}

/// The explicit subgame and the vectorized tree key alike: where a decision
/// node of the tree stands for a node's situation, a hand's emitted key is the
/// node's key for that hand.
pub proof fn law_keys_agree(game: Subgame, node: SubgameNode, decision: NodeKind, a: u8, b: u8)
    requires
        game.wf(),
        node.wf(),
        node.gs is Some,
        decision is Decision,
        decision->player == actor(game, node),
        decision->board == node.gs->0.board,
        decision->history@ == node.history@,
        decision->marker == if choice_pending(game, node) {
            MARKER_CONTINUATION
        } else {
            MARKER_NONE
        },
        ascending(node.gs->0.hole_cards[actor(game, node)]@) == seq![a, b],
    ensures
        fnv_hash(node_bytes(game, node)) == hand_key(decision, a, b),
{
}

/// Which regret minimizer resolves the subgame.
///
/// The default is **predictive** (CFR⁺): in the near-two-player, full-traversal
/// regime a subgame becomes once folds collapse the active set, its fast last
/// iterate buys the best strategy per second.  The **DCFR fallback** is for a
/// multiway subgame, where the predictive guarantee erodes.
#[derive(Clone, Copy, Debug, PartialEq, Eq, Structural)]
pub enum SolverKind {
    /// CFR⁺ last iterate — the default for heads-up / near-heads-up subgames.
    Predictive,
    /// Discounted CFR average — the robust fallback for multiway subgames.
    Dcfr,
}

/// Iterations trained between two looks at the clock.
pub const TRAIN_BATCH: u64 = 32;

/// How a subgame is solved.
#[derive(Clone, Copy, Debug, PartialEq, Eq, Structural)]
pub struct SubgameSolver {
    /// Streets to solve before cutting to leaf estimates (1–2 is realistic).
    pub depth_limit: u32,
    /// Wall-clock budget per resolving call.
    pub time_budget_ms: u64,
    /// Regret minimizer used to resolve.
    pub kind: SolverKind,
}

impl SubgameSolver {
    /// A predictive (CFR⁺) subgame solver — the default.
    pub fn new(depth_limit: u32, time_budget_ms: u64) -> (solver: Self)
        ensures
            solver == (SubgameSolver { depth_limit, time_budget_ms, kind: SolverKind::Predictive }),
    {
        SubgameSolver { depth_limit, time_budget_ms, kind: SolverKind::Predictive }
    }

    /// Select the regret minimizer.
    pub fn with_solver(self, kind: SolverKind) -> (solver: Self)
        ensures
            solver == (SubgameSolver { kind, ..self }),
    {
        SubgameSolver { depth_limit: self.depth_limit, time_budget_ms: self.time_budget_ms, kind }
    }

    /// Whether to train another batch after `elapsed_ms`.
    pub fn keeps_training(&self, elapsed_ms: u128) -> (more: bool)
        ensures
            more == (elapsed_ms < self.time_budget_ms),
    {
        elapsed_ms < self.time_budget_ms as u128
    }
}

/// Two hands go together on a board where no card is in two places.
pub proof fn law_compatible_shares_nothing(board: Seq<u8>, h0: [u8; 2], h1: [u8; 2])
    ensures
        compatible(board, h0, h1) <==> (forall|i: int, j: int|
            0 <= i < 2 && 0 <= j < 2 ==> #[trigger] h0[i] != #[trigger] h1[j]) && (forall|
            i: int,
            s: int,
        |
            0 <= i < 2 && 0 <= s < board.len() ==> #[trigger] h0[i] != #[trigger] board[s]) && (
        forall|i: int, s: int|
            0 <= i < 2 && 0 <= s < board.len() ==> #[trigger] h1[i] != #[trigger] board[s]),
        compatible(board, h0, h1) == compatible(board, h1, h0),
{
    if compatible(board, h0, h1) {
        assert(h1@.contains(h1[0]) && h1@.contains(h1[1]));
    }
    if compatible(board, h1, h0) {
        assert(h0@.contains(h0[0]) && h0@.contains(h0[1]));
    }
}

/// The deals list every pair of hands that share no card with each other or
/// with the board, each once, first hand by first hand.
pub proof fn law_deals_list_every_pair(
    deals: Seq<DealPair>,
    board: Seq<u8>,
    range0: Seq<[u8; 2]>,
    range1: Seq<[u8; 2]>,
    first: usize,
    second: usize,
)
    requires
        are_deals(deals, board, range0, range1),
        first < range0.len(),
        second < range1.len(),
    ensures
        deals.no_duplicates(),
        forall|a: int, b: int|
            0 <= a < b < deals.len() ==> #[trigger] deals[a].first * 0x1_0000_0000_0000_0000
                + deals[a].second < #[trigger] deals[b].first * 0x1_0000_0000_0000_0000
                + deals[b].second,
        deals.contains(DealPair { first, second }) <==> (forall|i: int, j: int|
            0 <= i < 2 && 0 <= j < 2 ==> #[trigger] range0[first as int][i]
                != #[trigger] range1[second as int][j]) && (forall|i: int, s: int|
            0 <= i < 2 && 0 <= s < board.len() ==> #[trigger] range0[first as int][i]
                != #[trigger] board[s]) && (forall|i: int, s: int|
            0 <= i < 2 && 0 <= s < board.len() ==> #[trigger] range1[second as int][i]
                != #[trigger] board[s]),
{
    law_compatible_shares_nothing(board, range0[first as int], range1[second as int]);
    assert forall|a: int, b: int| 0 <= a < b < deals.len() implies deals[a] != deals[b] by {
        assert(deal_before(deals[a], deals[b]));
    }
    assert forall|a: int, b: int| 0 <= a < b < deals.len() implies #[trigger] deals[a].first
        * 0x1_0000_0000_0000_0000 + deals[a].second < #[trigger] deals[b].first
        * 0x1_0000_0000_0000_0000 + deals[b].second by {
        assert(deal_before(deals[a], deals[b]));
    }
}

/// A continuation is chosen where there are several, none is chosen yet, and
/// the street shows an empty slot; the chooser then acts, and otherwise whose
/// turn it is.
pub proof fn law_chooser_acts_at_the_cut(game: Subgame, node: SubgameNode)
    requires
        game.wf(),
        node.wf(),
        node.gs is Some,
    ensures
        choice_pending(game, node) <==> game.k >= 2 && node.continuation is None && exists|s: int|
            0 <= s < node.gs->0.visible && #[trigger] node.gs->0.board[s] == 255,
        actor(game, node) == if game.k >= 2 && node.continuation is None && exists|s: int|
            0 <= s < node.gs->0.visible && #[trigger] node.gs->0.board[s] == 255 {
            game.chooser as int
        } else {
            node.gs->0.to_act as int
        },
{
    let gs = node.gs->0;
    let shown = gs.board@.take(gs.visible as int);
    if shown.contains(255) {
        let s = choose|s: int| 0 <= s < shown.len() && shown[s] == 255;
        assert(gs.board[s] == 255);
    }
    if exists|s: int| 0 <= s < gs.visible && #[trigger] gs.board[s] == 255 {
        let s = choose|s: int| 0 <= s < gs.visible && #[trigger] gs.board[s] == 255;
        assert(shown[s] == 255);
    }
}

/// A node's key bytes: the player that acts and its own two cards, lower first,
/// the dealt cards, a byte that is no card, the history, and a closing byte
/// where a continuation is chosen.  The other hand is not among them.
pub proof fn law_nodes_key_on_the_own_hand(game: Subgame, node: SubgameNode)
    requires
        game.wf(),
        node.wf(),
        node.gs is Some,
    ensures
        ({
            let gs = node.gs->0;
            let player = actor(game, node);
            let own = gs.hole_cards[player];
            let dealt = gs.board@.filter(|c: u8| c != 255);
            let n = dealt.len() as int;
            let m = node.history@.len() as int;
            let bytes = node_bytes(game, node);
            &&& bytes.len() == n + m + 4 + if choice_pending(game, node) { 1int } else { 0 }
            &&& bytes[0] == player
            &&& bytes[1] <= bytes[2]
            &&& (bytes[1] == own[0] && bytes[2] == own[1]) || (bytes[1] == own[1] && bytes[2]
                == own[0])
            &&& forall|i: int| 0 <= i < n ==> bytes[3 + i] == #[trigger] dealt[i]
            &&& bytes[3 + n] == 255
            &&& forall|i: int| 0 <= i < m ==> bytes[4 + n + i] == #[trigger] node.history@[i]
            &&& choice_pending(game, node) ==> bytes[4 + n + m] == 254
        }),
{
    law_dealt_cards_are_the_filled_slots(node.gs->0.board@);
}

} // verus!
