//! The solver's decisions: the root and its gadget, what each visit of a node
//! does, whose turn it is to train, and under which key a hand is emitted.
//!
//! The values themselves — reaches, regrets, averages — are the numeric
//! solver's.  It asks here what to do with them.

use super::cap::is_unfolded;
use super::keys::{
    info_bytes, info_key, law_dealt_cards_are_the_filled_slots, MARKER_GADGET,
};
use super::tree::{
    arena_extends, count_dealt, extends, ids, is_decision, laid_out, node_count, node_wf, subgame_menu,
    Arena, NodeKind, PublicTree, TreeRules,
};
use super::tree_laws::children_of;
use crate::engine::DECK_SIZE;
use crate::play::equity::{is_live_deck, law_deck_size};
use crate::resolving::belief_state::{combo_cards, combo_rank, is_combo, NUM_COMBOS};
use crate::util::hash::fnv_hash;
use vstd::prelude::*;

verus! {

/// Recursion depth below which sibling subtrees are traversed concurrently.
/// Two levels of a betting tree are enough tasks to fill a large box while
/// every task still carries a whole subtree.  It only changes *where* work runs,
/// never the result.
pub const DEFAULT_PAR_DEPTH: usize = 2;

/// Rivers consistent with any two disjoint holdings on a turn board: what the
/// sum over river branches is divided by.
pub const RIVERS_PER_PAIR: usize = 44;

/// A public tree ready to be solved.
pub struct VectorTree {
    pub arena: Arena,
    /// Where the traversal starts.
    pub root: usize,
    /// The betting-tree root *before* any gadget wrap (`== root` without one);
    /// counterfactual values are always extracted from here.
    pub inner_root: usize,
    /// The board at the resolve root.
    pub board: [u8; 5],
    /// The opponent of the resolve-root actor: continuation chooser and gadget
    /// owner.
    pub chooser: usize,
    /// Whether a gadget wraps the root.
    pub gadget: bool,
}

/// What visiting a node does, for the traverser's values.
#[derive(Debug, Clone, Copy, PartialEq, Eq, Structural)]
pub enum Visit {
    /// Score the showdown over the opponent's reach.
    Showdown,
    /// Score the check-down, averaged over the runout.
    Runout,
    /// Score the fold.
    Fold,
    /// Score the carried values: own ones where `own`, else the opponent's,
    /// negated.
    Carry { own: bool },
    /// Sum over the river branches.
    Reveal { parallel: bool },
    /// Own choice among runout leaves that differ in the pot alone: one sweep,
    /// scaled per leaf; then update the regrets.
    OwnChooser,
    /// Own decision: collect every action's values, then update the regrets.
    OwnMove { parallel: bool },
    /// The opponent's choice among runout leaves: one sweep over the blended
    /// reach.
    OtherChooser,
    /// The opponent's decision: push its reach by its strategy and sum.
    OtherMove { parallel: bool },
}

/// Whether every child is a depth-cut runout leaf — the shape of a continuation
/// chooser.
pub open spec fn all_runout(nodes: Seq<NodeKind>, children: Seq<usize>) -> bool {
    forall|k: int|
        0 <= k < children.len() ==> nodes[#[trigger] children[k] as int] is RunoutShowdown
}

/// What visiting node `id` does.  Sibling subtrees run concurrently near the
/// top only, and only where there is more than one.
pub open spec fn visit_of(
    nodes: Seq<NodeKind>,
    chooser: usize,
    id: int,
    traverser: usize,
    depth: usize,
    par_depth: usize,
) -> Visit {
    match nodes[id] {
        NodeKind::Showdown { .. } => Visit::Showdown,
        NodeKind::RunoutShowdown { .. } => Visit::Runout,
        NodeKind::Fold { .. } => Visit::Fold,
        NodeKind::CfvTerminal => Visit::Carry { own: traverser == chooser },
        NodeKind::Chance { .. } => Visit::Reveal { parallel: depth < par_depth },
        NodeKind::Decision { player, children, .. } => {
            let leaves = all_runout(nodes, children@);
            let parallel = depth < par_depth && children@.len() > 1;
            if player == traverser {
                if leaves {
                    Visit::OwnChooser
                } else {
                    Visit::OwnMove { parallel }
                }
            } else {
                if leaves {
                    Visit::OtherChooser
                } else {
                    Visit::OtherMove { parallel }
                }
            }
        },
    }
}

/// Whether a visit updates the node's regrets.
pub open spec fn updates(visit: Visit) -> bool {
    visit is OwnChooser || visit is OwnMove
}

/// Regrets are updated at the traverser's own decision nodes and nowhere else,
/// whatever runs concurrently.
pub proof fn law_updates_own_decisions(
    nodes: Seq<NodeKind>,
    chooser: usize,
    id: int,
    traverser: usize,
    depth: usize,
    par_depth: usize,
)
    ensures
        updates(visit_of(nodes, chooser, id, traverser, depth, par_depth)) <==> nodes[id] is Decision
            && nodes[id]->player == traverser,
{
}

/// A visit but for where its branches run.
pub open spec fn serial(visit: Visit) -> Visit {
    match visit {
        Visit::Reveal { .. } => Visit::Reveal { parallel: false },
        Visit::OwnMove { .. } => Visit::OwnMove { parallel: false },
        Visit::OtherMove { .. } => Visit::OtherMove { parallel: false },
        _ => visit,
    }
}

/// The depth cutoff decides where the branches of a visit run and nothing else:
/// at any depth, under any cutoff, a node is visited in the same way.
pub proof fn law_cutoff_moves_work_only(
    nodes: Seq<NodeKind>,
    chooser: usize,
    id: int,
    traverser: usize,
    depth: usize,
    par_depth: usize,
    depth2: usize,
    par_depth2: usize,
)
    ensures
        serial(visit_of(nodes, chooser, id, traverser, depth, par_depth)) == serial(
            visit_of(nodes, chooser, id, traverser, depth2, par_depth2),
        ),
        serial(visit_of(nodes, chooser, id, traverser, depth, 0)) == visit_of(
            nodes,
            chooser,
            id,
            traverser,
            depth,
            0,
        ),
{
}

/// Who trains in iteration `t`, counted from 1: the players alternate, player 0
/// first.
pub open spec fn trains(t: u64) -> int {
    (t - 1) % 2
}

/// Who trains in iteration `t`.
pub fn traverser(t: u64) -> (player: usize)
    requires
        t >= 1,
    ensures
        player == trains(t),
        player < 2,
{
    ((t - 1) % 2) as usize
}

/// Over any two iterations in a row each player trains once.
pub proof fn law_players_alternate(t: u64)
    requires
        1 <= t < u64::MAX,
    ensures
        trains(1) == 0,
        trains(t) + trains((t + 1) as u64) == 1,
{
}

/// The slot of a hand in an action-major block.
pub open spec fn slot_of(action: int, hand: int) -> int {
    action * NUM_COMBOS + hand
}

/// The slot of a hand in an action-major block of `actions` columns.
pub fn block_slot(actions: usize, action: usize, hand: usize) -> (slot: usize)
    requires
        action < actions,
        hand < NUM_COMBOS,
        actions * NUM_COMBOS <= usize::MAX,
    ensures
        slot == slot_of(action as int, hand as int),
        slot < actions * NUM_COMBOS,
{
    assert(action * 1326 + 1326 <= actions * 1326) by (nonlinear_arith)
        requires
            action < actions,
    ;
    assert(action * 1326 >= 0);
    action * NUM_COMBOS + hand
}

/// No two pairs of action and hand share a slot.
pub proof fn law_slots_differ(a: int, h: int, b: int, g: int)
    requires
        0 <= h < NUM_COMBOS,
        0 <= g < NUM_COMBOS,
        slot_of(a, h) == slot_of(b, g),
    ensures
        a == b,
        h == g,
{
}

/// Whether a node's strategy is emitted.
pub open spec fn emits(node: NodeKind) -> bool {
    node is Decision && node->marker != MARKER_GADGET
}

/// The key of the hand `{a, b}` at a decision node.
pub open spec fn hand_key(node: NodeKind, a: u8, b: u8) -> u64 {
    fnv_hash(
        info_bytes(
            node->player as u8,
            seq![a, b],
            node->board@,
            node->history@,
            node->marker,
        ),
    )
}

/// Emitting nodes among the first `n`.
pub open spec fn emitting(nodes: Seq<NodeKind>, n: nat) -> nat
    decreases n,
{
    if n == 0 {
        0
    } else {
        emitting(nodes, (n - 1) as nat) + if emits(nodes[n - 1]) {
            1nat
        } else {
            0nat
        }
    }
}

/// The keys under which the strategies of some nodes are emitted.
pub open spec fn emitted_keys(nodes: Seq<NodeKind>) -> Set<u64> {
    Set::new(
        |key: u64|
            exists|id: int, a: u8, b: u8|
                0 <= id < nodes.len() && emits(nodes[id]) && is_combo(a, b) && key
                    == #[trigger] hand_key(nodes[id], a, b),
    )
}

proof fn lemma_emitting_extends(before: Seq<NodeKind>, after: Seq<NodeKind>, n: nat)
    requires
        extends(before, after),
        n <= before.len(),
    ensures
        emitting(before, n) == emitting(after, n),
    decreases n,
{
    if n > 0 {
        lemma_emitting_extends(before, after, (n - 1) as nat);
        assert(after[n - 1] == before[n - 1]);
    }
}

/// Wrapping the root in the gadget emits nothing new: the public decision nodes
/// are as many as before, and the emitted keys the same.
pub proof fn law_gadget_emits_nothing(before: VectorTree, after: VectorTree)
    requires
        before.wf(),
        after.wf(),
        !before.gadget,
        after.gadget,
        arena_extends(before.arena, after.arena),
        after.arena.nodes@.len() == before.arena.nodes@.len() + 2,
    ensures
        emitting(after.arena.nodes@, after.arena.nodes@.len()) == emitting(
            before.arena.nodes@,
            before.arena.nodes@.len(),
        ),
        emitted_keys(after.arena.nodes@) == emitted_keys(before.arena.nodes@),
{
    let (old_nodes, nodes) = (before.arena.nodes@, after.arena.nodes@);
    let n = old_nodes.len();
    lemma_emitting_extends(old_nodes, nodes, n);
    assert(!emits(nodes[n as int]));
    assert(!emits(nodes[n as int + 1]));
    assert(emitting(nodes, n + 1) == emitting(nodes, n));
    assert(emitting(nodes, n + 2) == emitting(nodes, n + 1));
    assert forall|key: u64|
        emitted_keys(nodes).contains(key) <==> emitted_keys(old_nodes).contains(key) by {
        if emitted_keys(nodes).contains(key) {
            let (id, a, b): (int, u8, u8) = choose|id: int, a: u8, b: u8|
                0 <= id < nodes.len() && emits(nodes[id]) && is_combo(a, b) && key
                    == #[trigger] hand_key(nodes[id], a, b);
            assert(id < n);
            assert(nodes[id] == old_nodes[id]);
            assert(key == hand_key(old_nodes[id], a, b));
        }
        if emitted_keys(old_nodes).contains(key) {
            let (id, a, b): (int, u8, u8) = choose|id: int, a: u8, b: u8|
                0 <= id < old_nodes.len() && emits(old_nodes[id]) && is_combo(a, b) && key
                    == #[trigger] hand_key(old_nodes[id], a, b);
            assert(nodes[id] == old_nodes[id]);
            assert(key == hand_key(nodes[id], a, b));
        }
    }
    assert(emitted_keys(nodes) =~= emitted_keys(old_nodes));
}

/// On a turn board, 48 rivers are live; for any two hands that share no card
/// with it or with each other, exactly [`RIVERS_PER_PAIR`] of them leave both
/// hands possible.
pub proof fn law_rivers_per_pair(
    turn: Seq<u8>,
    mine: Seq<u8>,
    theirs: Seq<u8>,
    rivers: Seq<u8>,
    common: Seq<u8>,
)
    requires
        turn.len() == 4,
        mine.len() == 2,
        theirs.len() == 2,
        (turn + mine + theirs).no_duplicates(),
        forall|i: int| 0 <= i < 8 ==> #[trigger] (turn + mine + theirs)[i] < DECK_SIZE,
        is_live_deck(rivers, turn),
        is_live_deck(common, turn + mine + theirs),
    ensures
        rivers.len() == 48,
        common.len() == RIVERS_PER_PAIR,
{
    let all = turn + mine + theirs;
    assert forall|i: int, j: int| 0 <= i < j < 4 implies turn[i] != turn[j] by {
        assert(all[i] == turn[i] && all[j] == turn[j]);
    }
    assert forall|i: int| 0 <= i < 4 implies #[trigger] turn[i] < DECK_SIZE by {
        assert(all[i] == turn[i]);
    }
    law_deck_size(rivers, turn);
    law_deck_size(common, all);
}

impl VectorTree {
    /// The arena is sound and holds the roots; a gadget, where there is one, is
    /// the root and leads to the carry and to the betting tree.
    pub open spec fn wf(&self) -> bool {
        &&& self.arena.wf()
        &&& self.chooser < 2
        &&& self.root < self.arena.nodes@.len()
        &&& self.inner_root < self.arena.nodes@.len()
        &&& if self.gadget {
            &&& self.inner_root == self.arena.nodes@.len() - 3
            &&& self.root == self.arena.nodes@.len() - 1
            &&& self.arena.nodes@[self.root - 1] == NodeKind::CfvTerminal
            &&& is_decision(
                self.arena.nodes@[self.root as int],
                self.chooser as int,
                seq![self.root - 1, self.inner_root as int],
                self.board@,
                Seq::empty(),
                MARKER_GADGET,
            )
        } else {
            self.root == self.inner_root && self.root == self.arena.nodes@.len() - 1
        }
    }

    /// Build the arena of a subgame from its unfolded public tree.  The root's
    /// children line up with [`capped_root_actions`](super::tree::capped_root_actions).
    pub fn new(rules: &TreeRules, tree: &PublicTree) -> (built: Self)
        requires
            rules.wf(),
            is_unfolded(*rules, *tree),
        ensures
            built.wf(),
            !built.gadget,
            built.board == tree.state().board,
            built.chooser == rules.chooser,
            built.arena.nodes@.len() == node_count(*rules, *tree),
            built.root == node_count(*rules, *tree) - 1,
            laid_out(
                built.arena.nodes@,
                built.arena.boards@,
                *rules,
                *tree,
                0,
                Seq::<u8>::empty(),
            ),
            tree matches PublicTree::Bets { legal, .. } ==> children_of(
                built.arena.nodes@[built.root as int],
            ).len() == subgame_menu(legal@, 0, rules.raise_cap).len(),
    {
        let board: [u8; 5] = tree.board();
        let mut arena = Arena::new();
        if count_dealt(&board) == 5 {
            arena.boards.push(board);
        }
        let history: Vec<u8> = Vec::new();
        let root: usize = arena.build(rules, tree, &history, 0);
        assert(history@ =~= Seq::<u8>::empty());
        VectorTree {
            arena,
            root,
            inner_root: root,
            board,
            chooser: rules.chooser,
            gadget: false,
        }
    }

    /// Constrain this resolve with the opponent's **carried counterfactual
    /// values**: the root is wrapped in the re-solving gadget, a per-hand choice
    /// for the opponent between Terminate (action 0, banking the carry) and
    /// Follow (action 1).
    pub fn with_opponent_gadget(&mut self)
        requires
            old(self).wf(),
            !old(self).gadget,
        ensures
            final(self).wf(),
            final(self).gadget,
            arena_extends(old(self).arena, final(self).arena),
            final(self).arena.nodes@.len() == old(self).arena.nodes@.len() + 2,
            final(self).inner_root == old(self).inner_root,
            final(self).board == old(self).board,
            final(self).chooser == old(self).chooser,
            emitting(final(self).arena.nodes@, final(self).arena.nodes@.len()) == emitting(
                old(self).arena.nodes@,
                old(self).arena.nodes@.len(),
            ),
            emitted_keys(final(self).arena.nodes@) == emitted_keys(old(self).arena.nodes@),
    {
        let ghost before = *self;
        let carry: usize = self.arena.push_plain(NodeKind::CfvTerminal);
        let mut children: Vec<usize> = Vec::new();
        children.push(carry);
        children.push(self.root);
        assert(ids(children@) =~= seq![carry as int, self.root as int]);
        let history: Vec<u8> = Vec::new();
        assert(history@ =~= Seq::<u8>::empty());
        self.root = self.arena.push_decision(
            self.chooser,
            children,
            self.board,
            history,
            MARKER_GADGET,
        );
        self.gadget = true;
        proof {
            law_gadget_emits_nothing(before, *self);
        }
    }

    /// What visiting node `id` does; see [`visit_of`].
    pub fn visit(&self, id: usize, traverser: usize, depth: usize, par_depth: usize) -> (visit: Visit)
        requires
            self.wf(),
            id < self.arena.nodes@.len(),
        ensures
            visit == visit_of(
                self.arena.nodes@,
                self.chooser,
                id as int,
                traverser,
                depth,
                par_depth,
            ),
    {
        assert(node_wf(self.arena.nodes@, self.arena.widths@, self.arena.boards@, id as int));
        match &self.arena.nodes[id] {
            NodeKind::Showdown { .. } => Visit::Showdown,
            NodeKind::RunoutShowdown { .. } => Visit::Runout,
            NodeKind::Fold { .. } => Visit::Fold,
            NodeKind::CfvTerminal => Visit::Carry { own: traverser == self.chooser },
            NodeKind::Chance { .. } => Visit::Reveal { parallel: depth < par_depth },
            NodeKind::Decision { player, children, .. } => {
                let leaves: bool = self.all_runout_leaves(children);
                let parallel: bool = depth < par_depth && children.len() > 1;
                if *player == traverser {
                    if leaves {
                        Visit::OwnChooser
                    } else {
                        Visit::OwnMove { parallel }
                    }
                } else {
                    if leaves {
                        Visit::OtherChooser
                    } else {
                        Visit::OtherMove { parallel }
                    }
                }
            },
        }
    }

    /// Whether every child of a decision node is a depth-cut runout leaf.
    /// Recognised structurally rather than by marker so it cannot drift from
    /// what the builder emits.
    fn all_runout_leaves(&self, children: &Vec<usize>) -> (all: bool)
        requires
            forall|k: int|
                0 <= k < children@.len() ==> #[trigger] children@[k] < self.arena.nodes@.len(),
        ensures
            all == all_runout(self.arena.nodes@, children@),
    {
        let mut i: usize = 0;
        while i < children.len()
            invariant
                i <= children@.len(),
                forall|k: int|
                    0 <= k < children@.len() ==> #[trigger] children@[k] < self.arena.nodes@.len(),
                forall|k: int|
                    0 <= k < i ==> self.arena.nodes@[#[trigger] children@[k] as int] is RunoutShowdown,
            decreases children@.len() - i,
        {
            match &self.arena.nodes[children[i]] {
                NodeKind::RunoutShowdown { .. } => {},
                _ => {
                    return false;
                },
            }
            i += 1;
        }
        true
    }

    /// The key under which a hand's average strategy at node `id` is emitted:
    /// none at a node that is no decision, and none for the gadget, whose
    /// Follow/Terminate mix is a solving device and not a deployable strategy.
    pub fn emitted_key(&self, id: usize, hand: usize) -> (key: Option<u64>)
        requires
            id < self.arena.nodes@.len(),
            hand < NUM_COMBOS,
        ensures
            key is Some <==> emits(self.arena.nodes@[id as int]),
            key matches Some(k) ==> exists|a: u8, b: u8|
                is_combo(a, b) && #[trigger] combo_rank(a, b) == hand && k == hand_key(
                    self.arena.nodes@[id as int],
                    a,
                    b,
                ),
    {
        match &self.arena.nodes[id] {
            NodeKind::Decision { player, board, history, marker, .. } => {
                if *marker == MARKER_GADGET {
                    None
                } else {
                    let cards: [u8; 2] = combo_cards(hand);
                    let key: u64 = info_key(*player, cards, board, history.as_slice(), *marker);
                    proof {
                        assert(cards@ =~= seq![cards[0], cards[1]]);
                        assert(combo_rank(cards[0], cards[1]) == hand);
                    }
                    Some(key)
                }
            },
            _ => None,
        }
    }

    /// Public decision nodes: the betting tree size, independent of range
    /// breadth.  The gadget is not counted.
    pub fn public_nodes(&self) -> (count: usize)
        ensures
            count == emitting(self.arena.nodes@, self.arena.nodes@.len()),
    {
        let mut count: usize = 0;
        let mut i: usize = 0;
        while i < self.arena.nodes.len()
            invariant
                i <= self.arena.nodes@.len(),
                count <= i,
                count == emitting(self.arena.nodes@, i as nat),
            decreases self.arena.nodes@.len() - i,
        {
            match &self.arena.nodes[i] {
                NodeKind::Decision { marker, .. } => {
                    if *marker != MARKER_GADGET {
                        count += 1;
                    }
                },
                _ => {},
            }
            i += 1;
        }
        count
    }

    /// Total nodes in the built public tree (decisions + chance + terminals) —
    /// the per-iteration work unit.
    pub fn public_node_count(&self) -> (count: usize)
        ensures
            count == self.arena.nodes@.len(),
    {
        self.arena.nodes.len()
    }
}

/// A block holds a row of 1326 hands per action: a slot's action is its row, and
/// its hand the place in that row.
pub proof fn law_slots_read_back(action: int, hand: int)
    requires
        0 <= action,
        0 <= hand < 1326,
    ensures
        slot_of(action, hand) / 1326 == action,
        slot_of(action, hand) % 1326 == hand,
{
}

/// Strategies are emitted at the decisions of the betting and of the
/// continuations, not at the gadget's own.
pub proof fn law_gadget_choices_stay_inside(node: NodeKind)
    ensures
        emits(node) <==> node is Decision && node->marker != 166,
        node is Showdown || node is RunoutShowdown || node is Fold || node is Chance
            || node is CfvTerminal ==> !emits(node),
{
}

/// Whether a node emits, as a condition on nodes.
pub open spec fn emitter() -> spec_fn(NodeKind) -> bool {
    |node: NodeKind| node is Decision && node->marker != 166
}

/// The emitting nodes are counted one by one.
pub proof fn law_emitting_nodes_counted(nodes: Seq<NodeKind>, n: nat)
    requires
        n <= nodes.len(),
    ensures
        emitting(nodes, n) == nodes.take(n as int).filter(emitter()).len(),
    decreases n,
{
    reveal(Seq::filter);
    if n > 0 {
        law_emitting_nodes_counted(nodes, (n - 1) as nat);
        assert(nodes.take(n as int).drop_last() =~= nodes.take(n - 1));
    }
}

/// A hand's key at a decision: the player, the two cards, the dealt board, a
/// byte that is no card, the history, and the marker where there is one.
pub proof fn law_hand_keys_tell_the_node(node: NodeKind, a: u8, b: u8, bytes: Seq<u8>)
    requires
        node is Decision,
        node->player < 2,
        bytes == seq![node->player as u8, a, b] + node->board@.filter(|c: u8| c != 255) + seq![255u8]
            + node->history@ + if node->marker == 0 {
            Seq::empty()
        } else {
            seq![node->marker]
        },
    ensures
        hand_key(node, a, b) == fnv_hash(bytes),
{
    law_dealt_cards_are_the_filled_slots(node->board@);
    assert(bytes =~= info_bytes(
        node->player as u8,
        seq![a, b],
        node->board@,
        node->history@,
        node->marker,
    ));
}

/// The odd iterations train player 0 and the even ones player 1.
pub proof fn law_odd_iterations_train_the_first(t: u64)
    requires
        t >= 1,
    ensures
        trains(t) == 0 <==> t % 2 == 1,
        trains(t) == 1 <==> t % 2 == 0,
{
}

/// A gadget stands above the betting tree: its chooser first banks the carried
/// value or enters the tree, on the root's own board and before any action.
/// Without one the traversal starts at the betting tree.
pub proof fn law_gadget_stands_above_the_tree(tree: VectorTree)
    requires
        tree.wf(),
    ensures
        !tree.gadget ==> tree.root == tree.inner_root,
        tree.gadget ==> {
            &&& tree.arena.nodes@[tree.root as int] matches NodeKind::Decision {
                player,
                children,
                board,
                history,
                marker,
                ..
            } && player == tree.chooser && children@.len() == 2
                && tree.arena.nodes@[children@[0] as int] is CfvTerminal && children@[1]
                == tree.inner_root && board@ == tree.board@ && history@.len() == 0 && marker == 166
        },
        tree.chooser < 2,
        tree.root == tree.arena.nodes@.len() - 1,
{
    if tree.gadget {
        let children = tree.arena.nodes@[tree.root as int]->Decision_children;
        let expected = seq![tree.root - 1, tree.inner_root as int];
        assert(ids(children@) == expected);
        assert(ids(children@).len() == expected.len());
        assert(ids(children@)[0] == expected[0]);
        assert(ids(children@)[1] == expected[1]);
    }
}

} // verus!
