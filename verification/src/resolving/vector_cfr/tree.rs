//! Public-tree construction: the walk that turns a public betting tree into
//! the flat node arena.
//!
//! Every leaf decision (fold / river showdown / depth-cut runout / river chance
//! reveal / continuation chooser) is made here, in one place, so the tree's
//! shape is readable without tracing the solver.
//!
//! The engine unfolds the betting; what comes back is a [`PublicTree`], whose
//! branches are the engine states after each action of the capped menu.
//! [`Arena::build`] lays it out in post-order: a subtree is a stretch of
//! the arena that ends with its own node, so siblings never touch each other's
//! nodes or regret blocks.

use super::keys::{MARKER_CONTINUATION, MARKER_NONE};
use crate::engine::{Action, GameState, NO_CARD};
use crate::play::equity::{is_live_deck, live_deck};
use vstd::prelude::*;

verus! {

/// What a subgame is built by.
#[derive(Debug, Clone, Copy, PartialEq, Eq, Structural)]
pub struct TreeRules {
    /// Maximum raises in the subgame (`u32::MAX` for no bound).
    pub raise_cap: u32,
    /// Continuations that the opponent chooses among at a depth cut.
    pub continuations: usize,
    /// Solve the river betting exactly inside a turn resolve instead of cutting
    /// at the reveal.
    pub full_river: bool,
    /// The fixed continuation chooser: the opponent of the resolve-root actor.
    pub chooser: usize,
}

impl TreeRules {
    /// There is a continuation, and a seat that chooses.
    pub open spec fn wf(self) -> bool {
        self.continuations >= 1 && self.chooser < 2
    }

    /// The rules of a subgame rooted at `root`.
    pub fn new(root: &GameState, raise_cap: u32, continuations: usize, full_river: bool) -> (rules: Self)
        requires
            root.wf(),
            continuations >= 1,
        ensures
            rules == (TreeRules {
                raise_cap,
                continuations,
                full_river,
                chooser: (1 - root.to_act) as usize,
            }),
            rules.wf(),
    {
        TreeRules { raise_cap, continuations, full_river, chooser: 1 - root.to_act as usize }
    }
}

/// Whether an action is passive: a check or a call.
pub open spec fn is_passive(a: Action) -> bool {
    a == Action::Check || a == Action::Call
}

/// Whether an action survives the cap: neither a sized raise, nor an all-in
/// that nothing forces (`passive` says whether there is a check or call).
pub open spec fn survives_cap(a: Action, passive: bool) -> bool {
    !(a is Raise) && !(a == Action::AllIn && passive)
}

/// Whether a menu offers a check or a call.
pub open spec fn has_passive(full: Seq<Action>) -> bool {
    exists|i: int| 0 <= i < full.len() && is_passive(#[trigger] full[i])
}

/// The menu of a subgame after `raises` raises: past the cap no aggression is
/// left, except an all-in that is the only way to call.
pub open spec fn subgame_menu(full: Seq<Action>, raises: u32, raise_cap: u32) -> Seq<Action> {
    if raises < raise_cap {
        full
    } else {
        let passive = has_passive(full);
        full.filter(|a: Action| survives_cap(a, passive))
    }
}

/// The subgame's legal actions under the raise cap: past `raises` ≥ cap, drop
/// every `Raise` and any *voluntary* `AllIn` (one where a passive action
/// exists).
pub fn capped_legal(full: &[Action], raises: u32, raise_cap: u32) -> (menu: Vec<Action>)
    ensures
        menu@ == subgame_menu(full@, raises, raise_cap),
{
    let mut passive: bool = false;
    let mut i: usize = 0;
    while i < full.len()
        invariant
            i <= full@.len(),
            passive <==> exists|k: int| 0 <= k < i && is_passive(#[trigger] full@[k]),
        decreases full@.len() - i,
    {
        match full[i] {
            Action::Check | Action::Call => {
                assert(is_passive(full@[i as int]));
                passive = true;
            },
            _ => {},
        }
        i += 1;
    }
    assert(passive == has_passive(full@));
    let capped: bool = raises >= raise_cap;
    let ghost keep = |a: Action| survives_cap(a, passive);
    let mut menu: Vec<Action> = Vec::new();
    let mut j: usize = 0;
    proof {
        reveal(Seq::filter);
    }
    while j < full.len()
        invariant
            j <= full@.len(),
            keep == |a: Action| survives_cap(a, passive),
            !capped ==> menu@ == full@.take(j as int),
            capped ==> menu@ == full@.take(j as int).filter(keep),
        decreases full@.len() - j,
    {
        let a: Action = full[j];
        let stays: bool = match a {
            Action::Raise(_) => false,
            Action::AllIn => !passive,
            _ => true,
        };
        if !capped || stays {
            menu.push(a);
        }
        j += 1;
        proof {
            reveal(Seq::filter);
            assert(full@.take(j as int).drop_last() =~= full@.take(j - 1));
            assert(full@.take(j as int) =~= full@.take(j - 1).push(a));
        }
    }
    assert(full@.take(j as int) =~= full@);
    menu
}

/// The action menu at the **root** of a capped subgame — index-aligned with the
/// per-hand distributions emitted at the root key.
pub fn capped_root_actions(full: &[Action], raise_cap: u32) -> (menu: Vec<Action>)
    ensures
        menu@ == subgame_menu(full@, 0, raise_cap),
{
    capped_legal(full, 0, raise_cap)
}

/// Raises in the subgame after an action that took the bet level from `old_bet`
/// to `new_bet`.
pub open spec fn raises_then(raises: u32, old_bet: u32, new_bet: u32) -> int {
    if new_bet > old_bet {
        raises + 1
    } else {
        raises as int
    }
}

/// Raises in the subgame after an action; see [`raises_then`].
pub fn subgame_raises(raises: u32, old_bet: u32, new_bet: u32) -> (after: u32)
    requires
        raises < u32::MAX,
    ensures
        after == raises_then(raises, old_bet, new_bet),
{
    if new_bet > old_bet {
        raises + 1
    } else {
        raises
    }
}

/// Dealt cards among the first `n` slots.
pub open spec fn dealt_count(board: Seq<u8>, n: nat) -> nat
    decreases n,
{
    if n == 0 {
        0
    } else {
        dealt_count(board, (n - 1) as nat) + if board[n - 1] == NO_CARD {
            0nat
        } else {
            1nat
        }
    }
}

/// Whether the current street wants a board card that is not dealt: the depth
/// cut of a turn or flop subgame, or an all-in run-out past it.
pub open spec fn wants_card(gs: GameState) -> bool {
    gs.board@.take(gs.visible as int).contains(NO_CARD)
}

/// Whether at most one player is left in the hand.
pub open spec fn someone_folded(gs: GameState) -> bool {
    gs.folded & 1 != 0 || gs.folded & 2 != 0
}

/// What a point of the public tree becomes.
#[derive(Debug, Clone, Copy, PartialEq, Eq, Structural)]
pub enum PointKind {
    /// A betting decision.
    Bets,
    /// Someone folded: the payoff is board-independent and exact.
    Fold,
    /// Complete board: exact river showdown.
    Showdown,
    /// The river is dealt as an explicit chance node, with the real river
    /// betting below.
    River,
    /// Board undealt: the opponent chooses among continuations.
    Chooser,
    /// Board undealt: a check-down showdown averaged over the runout.
    Runout,
}

/// What a point becomes.  In full-river mode a turn all-in run-out gets no
/// chooser: with no betting left the plain check-down is exact, and a
/// continuation choice would hand the opponent fictitious leverage.
pub open spec fn kind_of(rules: TreeRules, gs: GameState) -> PointKind {
    let cards = dealt_count(gs.board@, 5);
    if !gs.terminal && !wants_card(gs) {
        PointKind::Bets
    } else if someone_folded(gs) {
        PointKind::Fold
    } else if cards == 5 {
        PointKind::Showdown
    } else if rules.full_river && !gs.terminal && cards == 4 {
        PointKind::River
    } else if rules.continuations > 1 && !(rules.full_river && cards == 4) {
        PointKind::Chooser
    } else {
        PointKind::Runout
    }
}

/// Whether the street wants a board card that is not dealt.
pub fn needs_runout(gs: &GameState) -> (needs: bool)
    requires
        gs.wf(),
    ensures
        needs == wants_card(*gs),
{
    let mut i: usize = 0;
    while i < gs.board_cards_count()
        invariant
            i <= gs.visible <= 5,
            forall|k: int| 0 <= k < i ==> gs.board@[k] != NO_CARD,
        decreases gs.visible - i,
    {
        if gs.board[i] == NO_CARD {
            assert(gs.board@.take(gs.visible as int)[i as int] == NO_CARD);
            return true;
        }
        i += 1;
    }
    false
}

/// Dealt cards of a board.
pub fn count_dealt(board: &[u8; 5]) -> (n: usize)
    ensures
        n == dealt_count(board@, 5),
        n <= 5,
{
    let mut n: usize = 0;
    let mut i: usize = 0;
    while i < 5
        invariant
            i <= 5,
            board@.len() == 5,
            n == dealt_count(board@, i as nat),
            n <= i,
        decreases 5 - i,
    {
        if board[i] != NO_CARD {
            n += 1;
        }
        i += 1;
    }
    n
}

/// What a point of the public tree becomes; see [`kind_of`].
pub fn point_kind(rules: &TreeRules, gs: &GameState) -> (kind: PointKind)
    requires
        gs.wf(),
    ensures
        kind == kind_of(*rules, *gs),
{
    if !gs.is_terminal() && !needs_runout(gs) {
        return PointKind::Bets;
    }
    if gs.folded & 1 != 0 || gs.folded & 2 != 0 {
        return PointKind::Fold;
    }
    let cards: usize = count_dealt(&gs.board);
    if cards == 5 {
        return PointKind::Showdown;
    }
    if rules.full_river && !gs.is_terminal() && cards == 4 {
        return PointKind::River;
    }
    let exact_runout: bool = rules.full_river && cards == 4;
    if rules.continuations > 1 && !exact_runout {
        PointKind::Chooser
    } else {
        PointKind::Runout
    }
}

/// The cards that the river can be, in ascending order.
pub fn river_cards(gs: &GameState) -> (cards: Vec<u8>)
    ensures
        is_live_deck(cards@, gs.board@.take(4)),
{
    let known: [u8; 4] = [gs.board[0], gs.board[1], gs.board[2], gs.board[3]];
    assert(known@ =~= gs.board@.take(4));
    live_deck(&known)
}

/// The state with the river dealt.
pub fn deal_river(gs: &GameState, card: u8) -> (dealt: GameState)
    ensures
        dealt.board@ == gs.board@.update(4, card),
        dealt == (GameState { board: dealt.board, ..*gs }),
{
    let mut dealt: GameState = *gs;
    dealt.board = [gs.board[0], gs.board[1], gs.board[2], gs.board[3], card];
    assert(dealt.board@ =~= gs.board@.update(4, card));
    dealt
}

/// A public betting tree as the engine unfolds it.
pub enum PublicTree {
    /// A point where the hand is over or cut; `payoffs` are the engine's net
    /// chips by seat where someone folded.
    End { state: GameState, payoffs: [i64; 2] },
    /// The river reveal: a branch per live card, in ascending order.
    River { state: GameState, branches: Vec<PublicTree> },
    /// A betting point where the engine allows `legal` after `raises` raises on
    /// the street: a branch per action of the capped menu, in order.
    Bets { state: GameState, legal: Vec<Action>, raises: u32, branches: Vec<PublicTree> },
}

impl PublicTree {
    /// The engine state at the top.
    pub open spec fn state(self) -> GameState {
        match self {
            PublicTree::End { state, .. } => state,
            PublicTree::River { state, .. } => state,
            PublicTree::Bets { state, .. } => state,
        }
    }
}

/// Nodes that a tree takes in the arena.
pub open spec fn node_count(rules: TreeRules, tree: PublicTree) -> nat
    decreases tree, 0nat,
{
    match tree {
        PublicTree::End { state, .. } => if kind_of(rules, state) == PointKind::Chooser {
            rules.continuations as nat + 1
        } else {
            1
        },
        PublicTree::River { branches, .. } => branch_nodes(rules, branches@, branches@.len()) + 1,
        PublicTree::Bets { branches, .. } => branch_nodes(rules, branches@, branches@.len()) + 1,
    }
}

/// Nodes that the first `n` of some branches take together.
pub open spec fn branch_nodes(rules: TreeRules, branches: Seq<PublicTree>, n: nat) -> nat
    decreases branches, n,
{
    if n == 0 || n > branches.len() {
        0
    } else {
        branch_nodes(rules, branches, (n - 1) as nat) + node_count(rules, branches[n - 1])
    }
}

/// Whether the engine unfolded a tree as the rules have it: an end where the
/// hand is over or cut, a branch per live card at a river reveal, and the board
/// unchanged by betting.
pub open spec fn fits(rules: TreeRules, tree: PublicTree) -> bool
    decreases tree,
{
    let kind = kind_of(rules, tree.state());
    &&& tree.state().wf()
    &&& match tree {
        PublicTree::End { state, .. } => kind != PointKind::Bets && kind != PointKind::River,
        PublicTree::River { state, branches } => {
            &&& kind == PointKind::River
            &&& state.board[4] == NO_CARD
            &&& is_live_deck(revealed(branches@), state.board@.take(4))
            &&& forall|i: int|
                0 <= i < branches@.len() ==> {
                    &&& (#[trigger] branches@[i]).state().board@ == state.board@.update(
                        4,
                        revealed(branches@)[i],
                    )
                    &&& fits(rules, branches@[i])
                }
        },
        PublicTree::Bets { state, branches, .. } => {
            &&& kind == PointKind::Bets
            &&& branches@.len() <= 256
            &&& forall|i: int|
                0 <= i < branches@.len() ==> {
                    &&& (#[trigger] branches@[i]).state().board == state.board
                    &&& fits(rules, branches@[i])
                }
        },
    }
}

/// The river cards of some branches.
pub open spec fn revealed(branches: Seq<PublicTree>) -> Seq<u8> {
    Seq::new(branches.len(), |i: int| branches[i].state().board[4])
}

/// A node of the public betting tree.
pub enum NodeKind {
    /// River showdown for `pot` chips on the complete board `boards[prep]`.
    Showdown { pot: u32, prep: usize },
    /// Depth-limit or all-in leaf: the check-down showdown for `pot` chips,
    /// inflated by continuation `scale`, averaged over the runout.
    RunoutShowdown { pot: u32, scale: usize },
    /// A fold terminal: net chips by seat.
    Fold { payoffs: [i64; 2] },
    /// The river reveal inside a full-river turn resolve: one child per live
    /// river card.
    Chance { children: Vec<(u8, usize)> },
    /// The re-solving gadget's **Terminate** terminal: the constrained opponent
    /// banks its carried per-hand counterfactual value.
    CfvTerminal,
    /// A decision for `player`; `children[a]` is the node after action `a`,
    /// `store` the regret block.  `board`/`history` and the namespace `marker`
    /// make the emitted key.
    Decision {
        player: usize,
        store: usize,
        children: Vec<usize>,
        board: [u8; 5],
        history: Vec<u8>,
        marker: u8,
    },
}

/// Decision nodes among the first `n`.
pub open spec fn decisions_before(nodes: Seq<NodeKind>, n: nat) -> nat
    decreases n,
{
    if n == 0 {
        0
    } else {
        decisions_before(nodes, (n - 1) as nat) + if nodes[n - 1] is Decision {
            1nat
        } else {
            0nat
        }
    }
}

/// Whether node `i` fits what precedes it: its children come earlier, its
/// board is prepared, and its regret block is the next one, as wide as it has
/// actions.
pub open spec fn node_wf(nodes: Seq<NodeKind>, widths: Seq<usize>, boards: Seq<[u8; 5]>, i: int) -> bool {
    match nodes[i] {
        NodeKind::Showdown { prep, .. } => prep < boards.len(),
        NodeKind::Chance { children } => forall|k: int|
            0 <= k < children@.len() ==> (#[trigger] children@[k]).1 < i,
        NodeKind::Decision { player, store, children, .. } => {
            &&& player < 2
            &&& store == decisions_before(nodes, i as nat)
            &&& store < widths.len()
            &&& widths[store as int] == children@.len()
            &&& forall|k: int| 0 <= k < children@.len() ==> #[trigger] children@[k] < i
        },
        _ => true,
    }
}

/// The flat node arena.
pub struct Arena {
    pub nodes: Vec<NodeKind>,
    /// Actions per regret block.
    pub widths: Vec<usize>,
    /// Complete boards for `Showdown` leaves: one for a river resolve, one per
    /// live river card for a full-river turn resolve.
    pub boards: Vec<[u8; 5]>,
}

/// `after` goes on where `before` ends.
pub open spec fn extends<T>(before: Seq<T>, after: Seq<T>) -> bool {
    &&& before.len() <= after.len()
    &&& forall|k: int| 0 <= k < before.len() ==> after[k] == #[trigger] before[k]
}

proof fn lemma_decisions_extend(before: Seq<NodeKind>, after: Seq<NodeKind>, n: nat)
    requires
        extends(before, after),
        n <= before.len(),
    ensures
        decisions_before(before, n) == decisions_before(after, n),
    decreases n,
{
    if n > 0 {
        lemma_decisions_extend(before, after, (n - 1) as nat);
        assert(after[n - 1] == before[n - 1]);
    }
}

impl Arena {
    /// Every node fits what precedes it, and there is a regret block per
    /// decision and no other.
    pub open spec fn wf(&self) -> bool {
        &&& self.widths@.len() == decisions_before(self.nodes@, self.nodes@.len())
        &&& forall|i: int|
            0 <= i < self.nodes@.len() ==> #[trigger] node_wf(
                self.nodes@,
                self.widths@,
                self.boards@,
                i,
            )
    }

    /// An empty arena.
    pub fn new() -> (arena: Self)
        ensures
            arena.wf(),
            arena.nodes@.len() == 0,
            arena.widths@.len() == 0,
            arena.boards@.len() == 0,
    {
        Arena { nodes: Vec::new(), widths: Vec::new(), boards: Vec::new() }
    }

    /// Add a node that is no decision.
    pub(crate) fn push_plain(&mut self, node: NodeKind) -> (id: usize)
        requires
            old(self).wf(),
            !(node is Decision),
            node matches NodeKind::Showdown { prep, .. } ==> prep < old(self).boards@.len(),
            node matches NodeKind::Chance { children } ==> forall|k: int|
                0 <= k < children@.len() ==> (#[trigger] children@[k]).1 < old(self).nodes@.len(),
        ensures
            final(self).wf(),
            final(self).nodes@ == old(self).nodes@.push(node),
            final(self).widths@ == old(self).widths@,
            final(self).boards@ == old(self).boards@,
            id == old(self).nodes@.len(),
    {
        let ghost before = self.nodes@;
        let id: usize = self.nodes.len();
        self.nodes.push(node);
        proof {
            lemma_decisions_extend(before, self.nodes@, before.len());
            assert forall|i: int| 0 <= i < self.nodes@.len() implies #[trigger] node_wf(
                self.nodes@,
                self.widths@,
                self.boards@,
                i,
            ) by {
                if i < before.len() {
                    assert(node_wf(before, self.widths@, self.boards@, i));
                    lemma_decisions_extend(before, self.nodes@, i as nat);
                }
            }
        }
        id
    }

    /// Add a decision node with its own regret block.
    pub(crate) fn push_decision(
        &mut self,
        player: usize,
        children: Vec<usize>,
        board: [u8; 5],
        history: Vec<u8>,
        marker: u8,
    ) -> (id: usize)
        requires
            old(self).wf(),
            player < 2,
            forall|k: int|
                0 <= k < children@.len() ==> #[trigger] children@[k] < old(self).nodes@.len(),
        ensures
            final(self).wf(),
            final(self).nodes@ == old(self).nodes@.push(
                NodeKind::Decision {
                    player,
                    store: old(self).widths@.len() as usize,
                    children,
                    board,
                    history,
                    marker,
                },
            ),
            final(self).widths@ == old(self).widths@.push(children@.len() as usize),
            final(self).boards@ == old(self).boards@,
            id == old(self).nodes@.len(),
    {
        let ghost before = self.nodes@;
        let ghost widths = self.widths@;
        let store: usize = self.widths.len();
        self.widths.push(children.len());
        let id: usize = self.nodes.len();
        self.nodes.push(NodeKind::Decision { player, store, children, board, history, marker });
        proof {
            lemma_decisions_extend(before, self.nodes@, before.len());
            assert forall|i: int| 0 <= i < self.nodes@.len() implies #[trigger] node_wf(
                self.nodes@,
                self.widths@,
                self.boards@,
                i,
            ) by {
                if i < before.len() {
                    assert(node_wf(before, widths, self.boards@, i));
                    lemma_decisions_extend(before, self.nodes@, i as nat);
                }
            }
        }
        id
    }
}

/// A decision node with these properties.
pub open spec fn is_decision(
    node: NodeKind,
    player: int,
    children: Seq<int>,
    board: Seq<u8>,
    history: Seq<u8>,
    marker: u8,
) -> bool {
    node matches NodeKind::Decision { player: p, children: c, board: b, history: h, marker: m, .. }
        && p == player && ids(c@) == children && b@ == board && h@ == history && m == marker
}

/// Node ids as integers.
pub open spec fn ids(children: Seq<usize>) -> Seq<int> {
    Seq::new(children.len(), |i: int| children[i] as int)
}

/// The ids of some branches laid out one after the other from `start`: each
/// ends with its own node.
pub open spec fn branch_ids(rules: TreeRules, branches: Seq<PublicTree>, start: int) -> Seq<int> {
    Seq::new(branches.len(), |i: int| start + branch_nodes(rules, branches, (i + 1) as nat) - 1)
}

/// Whether the arena holds `tree` in the stretch that begins at `start`, its
/// own node last.
pub open spec fn laid_out(
    nodes: Seq<NodeKind>,
    boards: Seq<[u8; 5]>,
    rules: TreeRules,
    tree: PublicTree,
    start: int,
    history: Seq<u8>,
) -> bool
    decreases tree, 0nat,
{
    let id = start + node_count(rules, tree) - 1;
    &&& 0 <= start <= id < nodes.len()
    &&& match tree {
        PublicTree::End { state, payoffs } => match kind_of(rules, state) {
            PointKind::Fold => nodes[id] == (NodeKind::Fold { payoffs }),
            PointKind::Showdown => nodes[id] matches NodeKind::Showdown { pot, prep } && pot
                == state.pot && prep < boards.len() && boards[prep as int]@ == state.board@,
            PointKind::Runout => nodes[id] == (NodeKind::RunoutShowdown {
                pot: state.pot,
                scale: 0,
            }),
            PointKind::Chooser => {
                &&& is_decision(
                    nodes[id],
                    rules.chooser as int,
                    Seq::new(rules.continuations as nat, |i: int| start + i),
                    state.board@,
                    history,
                    MARKER_CONTINUATION,
                )
                &&& forall|i: int|
                    0 <= i < rules.continuations ==> #[trigger] nodes[start + i] == (
                    NodeKind::RunoutShowdown { pot: state.pot, scale: i as usize })
            },
            _ => false,
        },
        PublicTree::River { state, branches } => {
            &&& nodes[id] matches NodeKind::Chance { children } && children@.len()
                == branches@.len() && forall|i: int|
                0 <= i < branches@.len() ==> (#[trigger] children@[i]).0 == revealed(branches@)[i]
                    && children@[i].1 == branch_ids(rules, branches@, start)[i]
            &&& branches_laid(nodes, boards, rules, branches@, branches@.len(), start, history, false)
        },
        PublicTree::Bets { state, branches, .. } => {
            &&& is_decision(
                nodes[id],
                state.to_act as int,
                branch_ids(rules, branches@, start),
                state.board@,
                history,
                MARKER_NONE,
            )
            &&& branches_laid(nodes, boards, rules, branches@, branches@.len(), start, history, true)
        },
    }
}

/// The history below branch `i`: one action longer at a betting point.
pub open spec fn branch_history(history: Seq<u8>, bets: bool, i: int) -> Seq<u8> {
    if bets {
        history.push(i as u8)
    } else {
        history
    }
}

/// Whether the arena holds the first `n` of some branches one after the other
/// from `start`.
pub open spec fn branches_laid(
    nodes: Seq<NodeKind>,
    boards: Seq<[u8; 5]>,
    rules: TreeRules,
    branches: Seq<PublicTree>,
    n: nat,
    start: int,
    history: Seq<u8>,
    bets: bool,
) -> bool
    decreases branches, 0nat,
{
    forall|i: int|
        0 <= i < n && i < branches.len() ==> laid_out(
            nodes,
            boards,
            rules,
            #[trigger] branches[i],
            start + branch_nodes(rules, branches, i as nat),
            branch_history(history, bets, i),
        )
}

proof fn lemma_laid_out_extends(
    nodes: Seq<NodeKind>,
    boards: Seq<[u8; 5]>,
    more_nodes: Seq<NodeKind>,
    more_boards: Seq<[u8; 5]>,
    rules: TreeRules,
    tree: PublicTree,
    start: int,
    history: Seq<u8>,
)
    requires
        laid_out(nodes, boards, rules, tree, start, history),
        extends(nodes, more_nodes),
        extends(boards, more_boards),
    ensures
        laid_out(more_nodes, more_boards, rules, tree, start, history),
    decreases tree, 0nat,
{
    let id = start + node_count(rules, tree) - 1;
    assert(more_nodes[id] == nodes[id]);
    match tree {
        PublicTree::End { state, payoffs } => {
            match kind_of(rules, state) {
                PointKind::Chooser => {
                    assert forall|i: int| 0 <= i < rules.continuations implies #[trigger] more_nodes[start
                        + i] == (NodeKind::RunoutShowdown { pot: state.pot, scale: i as usize }) by {
                        assert(more_nodes[start + i] == nodes[start + i]);
                    }
                },
                PointKind::Showdown => {
                    let prep = nodes[id]->prep as int;
                    assert(more_boards[prep] == boards[prep]);
                },
                _ => {},
            }
        },
        PublicTree::River { branches, .. } => {
            lemma_branches_extend(
                nodes,
                boards,
                more_nodes,
                more_boards,
                rules,
                branches@,
                branches@.len(),
                start,
                history,
                false,
            );
        },
        PublicTree::Bets { branches, .. } => {
            lemma_branches_extend(
                nodes,
                boards,
                more_nodes,
                more_boards,
                rules,
                branches@,
                branches@.len(),
                start,
                history,
                true,
            );
        },
    }
}

proof fn lemma_branches_extend(
    nodes: Seq<NodeKind>,
    boards: Seq<[u8; 5]>,
    more_nodes: Seq<NodeKind>,
    more_boards: Seq<[u8; 5]>,
    rules: TreeRules,
    branches: Seq<PublicTree>,
    n: nat,
    start: int,
    history: Seq<u8>,
    bets: bool,
)
    requires
        branches_laid(nodes, boards, rules, branches, n, start, history, bets),
        extends(nodes, more_nodes),
        extends(boards, more_boards),
    ensures
        branches_laid(more_nodes, more_boards, rules, branches, n, start, history, bets),
    decreases branches, 0nat,
{
    assert forall|i: int| 0 <= i < n && i < branches.len() implies laid_out(
        more_nodes,
        more_boards,
        rules,
        #[trigger] branches[i],
        start + branch_nodes(rules, branches, i as nat),
        branch_history(history, bets, i),
    ) by {
        lemma_laid_out_extends(
            nodes,
            boards,
            more_nodes,
            more_boards,
            rules,
            branches[i],
            start + branch_nodes(rules, branches, i as nat),
            branch_history(history, bets, i),
        );
    }
}

/// Whether `arena` goes on where `before` ends.
pub open spec fn arena_extends(before: Arena, arena: Arena) -> bool {
    &&& extends(before.nodes@, arena.nodes@)
    &&& extends(before.widths@, arena.widths@)
    &&& extends(before.boards@, arena.boards@)
}

/// Whether the prepared board `prep` is the one a complete board needs.
pub open spec fn board_prepared(arena: Arena, state: GameState, prep: usize) -> bool {
    dealt_count(state.board@, 5) == 5 ==> prep < arena.boards@.len()
        && arena.boards@[prep as int]@ == state.board@
}

proof fn lemma_branch_step(rules: TreeRules, branches: Seq<PublicTree>, i: int)
    requires
        0 <= i < branches.len(),
    ensures
        branch_nodes(rules, branches, (i + 1) as nat) == branch_nodes(rules, branches, i as nat)
            + node_count(rules, branches[i]),
        node_count(rules, branches[i]) >= 1,
{
}

impl Arena {
    /// Build the depth-limit **continuation-choice** node: a decision owned by
    /// the fixed chooser with one action per continuation, whose `i`-th child is
    /// a runout showdown at the `i`-th inflated pot.
    fn build_continuation_chooser(
        &mut self,
        rules: &TreeRules,
        state: &GameState,
        history: &Vec<u8>,
    ) -> (id: usize)
        requires
            old(self).wf(),
            rules.wf(),
        ensures
            final(self).wf(),
            arena_extends(*old(self), *final(self)),
            final(self).nodes@.len() == old(self).nodes@.len() + rules.continuations + 1,
            id == final(self).nodes@.len() - 1,
            is_decision(
                final(self).nodes@[id as int],
                rules.chooser as int,
                Seq::new(rules.continuations as nat, |i: int| old(self).nodes@.len() + i),
                state.board@,
                history@,
                MARKER_CONTINUATION,
            ),
            forall|i: int|
                0 <= i < rules.continuations ==> #[trigger] final(self).nodes@[old(
                    self,
                ).nodes@.len() + i] == (NodeKind::RunoutShowdown {
                    pot: state.pot,
                    scale: i as usize,
                }),
    {
        let ghost start = self.nodes@.len();
        let ghost before = *self;
        let mut children: Vec<usize> = Vec::new();
        let mut i: usize = 0;
        while i < rules.continuations
            invariant
                i <= rules.continuations,
                self.wf(),
                start == before.nodes@.len(),
                arena_extends(before, *self),
                self.widths@ == before.widths@,
                self.boards@ == before.boards@,
                self.nodes@.len() == start + i,
                children@.len() == i,
                forall|k: int| 0 <= k < i ==> #[trigger] children@[k] == start + k,
                forall|k: int|
                    0 <= k < i ==> #[trigger] self.nodes@[start + k] == (NodeKind::RunoutShowdown {
                        pot: state.pot,
                        scale: k as usize,
                    }),
            decreases rules.continuations - i,
        {
            let child: usize = self.push_plain(
                NodeKind::RunoutShowdown { pot: state.pot, scale: i },
            );
            children.push(child);
            i += 1;
        }
        assert(ids(children@) =~= Seq::new(rules.continuations as nat, |k: int| start + k));
        self.push_decision(
            rules.chooser,
            children,
            state.board,
            history.clone(),
            MARKER_CONTINUATION,
        )
    }

    /// Lay out `tree`, whose showdowns happen on the prepared board `prep`
    /// unless a river is revealed first, and return its node.
    pub fn build(
        &mut self,
        rules: &TreeRules,
        tree: &PublicTree,
        history: &Vec<u8>,
        prep: usize,
    ) -> (id: usize)
        requires
            old(self).wf(),
            rules.wf(),
            fits(*rules, *tree),
            board_prepared(*old(self), tree.state(), prep),
        ensures
            final(self).wf(),
            arena_extends(*old(self), *final(self)),
            final(self).nodes@.len() == old(self).nodes@.len() + node_count(*rules, *tree),
            id == final(self).nodes@.len() - 1,
            laid_out(
                final(self).nodes@,
                final(self).boards@,
                *rules,
                *tree,
                old(self).nodes@.len() as int,
                history@,
            ),
        decreases tree, 1nat,
    {
        match tree {
            PublicTree::End { state, payoffs } => match point_kind(rules, state) {
                PointKind::Fold => self.push_plain(NodeKind::Fold { payoffs: *payoffs }),
                PointKind::Showdown => self.push_plain(NodeKind::Showdown { pot: state.pot, prep }),
                PointKind::Chooser => self.build_continuation_chooser(rules, state, history),
                _ => self.push_plain(NodeKind::RunoutShowdown { pot: state.pot, scale: 0 }),
            },
            PublicTree::River { .. } => self.build_river_chance(rules, tree, history),
            PublicTree::Bets { .. } => self.build_bets(rules, tree, history, prep),
        }
    }

    /// Deal the river inside a full-river turn resolve: one branch per live
    /// card, each with its own prepared showdown board and the real river
    /// betting tree below.  The action history continues across the reveal
    /// (branches are distinguished by each decision node's own `board`).
    fn build_river_chance(&mut self, rules: &TreeRules, tree: &PublicTree, history: &Vec<u8>) -> (id:
        usize)
        requires
            old(self).wf(),
            rules.wf(),
            fits(*rules, *tree),
            tree is River,
        ensures
            final(self).wf(),
            arena_extends(*old(self), *final(self)),
            final(self).nodes@.len() == old(self).nodes@.len() + node_count(*rules, *tree),
            id == final(self).nodes@.len() - 1,
            laid_out(
                final(self).nodes@,
                final(self).boards@,
                *rules,
                *tree,
                old(self).nodes@.len() as int,
                history@,
            ),
        decreases tree, 0nat,
    {
        let ghost start = self.nodes@.len() as int;
        let ghost before = *self;
        let mut children: Vec<(u8, usize)> = Vec::new();
        match tree {
            PublicTree::River { state, branches } => {
                let mut i: usize = 0;
                while i < branches.len()
                    invariant
                        i <= branches@.len(),
                        *tree == (PublicTree::River { state: *state, branches: *branches }),
                        fits(*rules, *tree),
                        rules.wf(),
                        self.wf(),
                        arena_extends(before, *self),
                        start == before.nodes@.len(),
                        self.nodes@.len() == start + branch_nodes(*rules, branches@, i as nat),
                        children@.len() == i,
                        forall|k: int|
                            0 <= k < i ==> (#[trigger] children@[k]).0 == revealed(branches@)[k]
                                && children@[k].1 == branch_ids(*rules, branches@, start)[k]
                                && children@[k].1 < self.nodes@.len(),
                        branches_laid(
                            self.nodes@,
                            self.boards@,
                            *rules,
                            branches@,
                            i as nat,
                            start,
                            history@,
                            false,
                        ),
                    decreases branches@.len() - i,
                {
                    let branch: &PublicTree = &branches[i];
                    let ghost earlier = *self;
                    let full: [u8; 5] = branch.board();
                    let river_prep: usize = self.boards.len();
                    self.boards.push(full);
                    let ghost pushed = *self;
                    proof {
                        lemma_boards_grow(earlier, pushed);
                        lemma_branch_step(*rules, branches@, i as int);
                    }
                    let child: usize = self.build(rules, branch, history, river_prep);
                    proof {
                        lemma_extends_trans(earlier, pushed, *self);
                        lemma_extends_trans(before, earlier, *self);
                        lemma_branches_extend(
                            earlier.nodes@,
                            earlier.boards@,
                            self.nodes@,
                            self.boards@,
                            *rules,
                            branches@,
                            i as nat,
                            start,
                            history@,
                            false,
                        );
                        assert(branch_history(history@, false, i as int) == history@);
                    }
                    children.push((full[4], child));
                    i += 1;
                }
                let ghost earlier = *self;
                let id: usize = self.push_plain(NodeKind::Chance { children });
                proof {
                    lemma_extends_trans(before, earlier, *self);
                    lemma_branches_extend(
                        earlier.nodes@,
                        earlier.boards@,
                        self.nodes@,
                        self.boards@,
                        *rules,
                        branches@,
                        branches@.len(),
                        start,
                        history@,
                        false,
                    );
                }
                id
            },
            _ => 0,
        }
    }

    /// Lay out a betting point: its branches, then its decision node.
    #[verifier::spinoff_prover]
    #[verifier::rlimit(100)]
    fn build_bets(
        &mut self,
        rules: &TreeRules,
        tree: &PublicTree,
        history: &Vec<u8>,
        prep: usize,
    ) -> (id: usize)
        requires
            old(self).wf(),
            rules.wf(),
            fits(*rules, *tree),
            tree is Bets,
            board_prepared(*old(self), tree.state(), prep),
        ensures
            final(self).wf(),
            arena_extends(*old(self), *final(self)),
            final(self).nodes@.len() == old(self).nodes@.len() + node_count(*rules, *tree),
            id == final(self).nodes@.len() - 1,
            laid_out(
                final(self).nodes@,
                final(self).boards@,
                *rules,
                *tree,
                old(self).nodes@.len() as int,
                history@,
            ),
        decreases tree, 0nat,
    {
        let ghost start = self.nodes@.len() as int;
        let ghost before = *self;
        let mut children: Vec<usize> = Vec::new();
        match tree {
            PublicTree::Bets { state, legal, raises, branches } => {
                let mut i: usize = 0;
                while i < branches.len()
                    invariant
                        i <= branches@.len(),
                        *tree == (PublicTree::Bets {
                            state: *state,
                            legal: *legal,
                            raises: *raises,
                            branches: *branches,
                        }),
                        fits(*rules, *tree),
                        rules.wf(),
                        self.wf(),
                        board_prepared(before, *state, prep),
                        arena_extends(before, *self),
                        start == before.nodes@.len(),
                        self.nodes@.len() == start + branch_nodes(*rules, branches@, i as nat),
                        children@.len() == i,
                        forall|k: int|
                            0 <= k < i ==> #[trigger] children@[k] == branch_ids(
                                *rules,
                                branches@,
                                start,
                            )[k] && children@[k] < self.nodes@.len(),
                        branches_laid(
                            self.nodes@,
                            self.boards@,
                            *rules,
                            branches@,
                            i as nat,
                            start,
                            history@,
                            true,
                        ),
                    decreases branches@.len() - i,
                {
                    let branch: &PublicTree = &branches[i];
                    let ghost earlier = *self;
                    let mut longer: Vec<u8> = history.clone();
                    longer.push(i as u8);
                    proof {
                        lemma_branch_step(*rules, branches@, i as int);
                        assert(longer@ =~= branch_history(history@, true, i as int));
                        if dealt_count(state.board@, 5) == 5 {
                            assert(earlier.boards@[prep as int] == before.boards@[prep as int]);
                        }
                    }
                    let child: usize = self.build(rules, branch, &longer, prep);
                    proof {
                        lemma_extends_trans(before, earlier, *self);
                        lemma_branches_extend(
                            earlier.nodes@,
                            earlier.boards@,
                            self.nodes@,
                            self.boards@,
                            *rules,
                            branches@,
                            i as nat,
                            start,
                            history@,
                            true,
                        );
                    }
                    children.push(child);
                    i += 1;
                }
                let ghost earlier = *self;
                assert(ids(children@) =~= branch_ids(*rules, branches@, start));
                let id: usize = self.push_decision(
                    state.current_player(),
                    children,
                    state.board,
                    history.clone(),
                    MARKER_NONE,
                );
                proof {
                    lemma_extends_trans(before, earlier, *self);
                    lemma_branches_extend(
                        earlier.nodes@,
                        earlier.boards@,
                        self.nodes@,
                        self.boards@,
                        *rules,
                        branches@,
                        branches@.len(),
                        start,
                        history@,
                        true,
                    );
                }
                id
            },
            _ => 0,
        }
    }
}

proof fn lemma_extends_trans(a: Arena, b: Arena, c: Arena)
    requires
        arena_extends(a, b),
        arena_extends(b, c),
    ensures
        arena_extends(a, c),
{
    assert forall|k: int| 0 <= k < a.nodes@.len() implies c.nodes@[k] == #[trigger] a.nodes@[k] by {
        assert(b.nodes@[k] == a.nodes@[k]);
    }
    assert forall|k: int| 0 <= k < a.widths@.len() implies c.widths@[k]
        == #[trigger] a.widths@[k] by {
        assert(b.widths@[k] == a.widths@[k]);
    }
    assert forall|k: int| 0 <= k < a.boards@.len() implies c.boards@[k]
        == #[trigger] a.boards@[k] by {
        assert(b.boards@[k] == a.boards@[k]);
    }
}

proof fn lemma_boards_grow(before: Arena, after: Arena)
    requires
        before.wf(),
        after.nodes == before.nodes,
        after.widths == before.widths,
        extends(before.boards@, after.boards@),
    ensures
        after.wf(),
        arena_extends(before, after),
{
    assert forall|k: int| 0 <= k < after.nodes@.len() implies #[trigger] node_wf(
        after.nodes@,
        after.widths@,
        after.boards@,
        k,
    ) by {
        assert(node_wf(before.nodes@, before.widths@, before.boards@, k));
    }
}

impl PublicTree {
    /// The board at the top.
    pub fn board(&self) -> (board: [u8; 5])
        ensures
            board == self.state().board,
    {
        match self {
            PublicTree::End { state, .. } => state.board,
            PublicTree::River { state, .. } => state.board,
            PublicTree::Bets { state, .. } => state.board,
        }
    }
}

} // verus!
