//! What holds of every laid-out public tree: subtrees keep to themselves, and
//! no two decisions share a regret block or a key.

use super::keys::dealt_cards;
use super::tree::{
    arena_extends, branch_history, branch_nodes, dealt_count, decisions_before, fits, ids,
    kind_of, laid_out, node_count, node_wf, revealed, Arena, NodeKind, PointKind, PublicTree,
    TreeRules,
};
use crate::engine::NO_CARD;
use vstd::prelude::*;

verus! {

/// The nodes that a node leads to.
pub open spec fn children_of(node: NodeKind) -> Seq<int> {
    match node {
        NodeKind::Chance { children } => Seq::new(
            children@.len(),
            |i: int| children@[i].1 as int,
        ),
        NodeKind::Decision { children, .. } => ids(children@),
        _ => Seq::empty(),
    }
}

/// The stretches of sibling subtrees follow one another without overlap.
pub proof fn law_siblings_apart(rules: TreeRules, branches: Seq<PublicTree>, i: nat, j: nat)
    requires
        i <= j <= branches.len(),
    ensures
        branch_nodes(rules, branches, i) <= branch_nodes(rules, branches, j),
        i < j ==> branch_nodes(rules, branches, i) + node_count(rules, branches[i as int])
            <= branch_nodes(rules, branches, j),
    decreases j,
{
    if i < j {
        law_siblings_apart(rules, branches, i, (j - 1) as nat);
        assert(branch_nodes(rules, branches, j) == branch_nodes(rules, branches, (j - 1) as nat)
            + node_count(rules, branches[j - 1]));
    }
}

/// The branch whose stretch holds the place `k`.
proof fn lemma_branch_at(rules: TreeRules, branches: Seq<PublicTree>, n: nat, k: int) -> (i: int)
    requires
        n <= branches.len(),
        0 <= k < branch_nodes(rules, branches, n),
    ensures
        0 <= i < n,
        branch_nodes(rules, branches, i as nat) <= k < branch_nodes(rules, branches, i as nat)
            + node_count(rules, branches[i]),
    decreases n,
{
    if k >= branch_nodes(rules, branches, (n - 1) as nat) {
        n - 1
    } else {
        lemma_branch_at(rules, branches, (n - 1) as nat, k)
    }
}

/// A subtree's stretch is closed: every node in it leads only to earlier nodes
/// of the same stretch.  So walking one branch never touches a sibling.
#[verifier::rlimit(80)]
pub proof fn law_stretch_closed(
    nodes: Seq<NodeKind>,
    boards: Seq<[u8; 5]>,
    rules: TreeRules,
    tree: PublicTree,
    start: int,
    history: Seq<u8>,
    k: int,
)
    requires
        laid_out(nodes, boards, rules, tree, start, history),
        start <= k < start + node_count(rules, tree),
    ensures
        forall|c: int|
            0 <= c < children_of(nodes[k]).len() ==> start <= #[trigger] children_of(nodes[k])[c]
                < k,
    decreases tree, 0nat,
{
    let id = start + node_count(rules, tree) - 1;
    match tree {
        PublicTree::End { state, .. } => {
            if kind_of(rules, state) == PointKind::Chooser {
                if k < id {
                    assert(nodes[start + (k - start)] == (NodeKind::RunoutShowdown {
                        pot: state.pot,
                        scale: (k - start) as usize,
                    }));
                }
            }
        },
        PublicTree::River { branches, .. } => {
            if k < id {
                let i = lemma_branch_at(rules, branches@, branches@.len(), k - start);
                law_stretch_closed(
                    nodes,
                    boards,
                    rules,
                    branches@[i],
                    start + branch_nodes(rules, branches@, i as nat),
                    branch_history(history, false, i),
                    k,
                );
            } else {
                assert forall|c: int| 0 <= c < children_of(nodes[k]).len() implies start
                    <= #[trigger] children_of(nodes[k])[c] < k by {
                    let children = nodes[k]->Chance_children;
                    assert(children@[c].1 == children_of(nodes[k])[c]);
                    law_siblings_apart(rules, branches@, (c + 1) as nat, branches@.len());
                    law_siblings_apart(rules, branches@, c as nat, (c + 1) as nat);
                }
            }
        },
        PublicTree::Bets { branches, .. } => {
            if k < id {
                let i = lemma_branch_at(rules, branches@, branches@.len(), k - start);
                law_stretch_closed(
                    nodes,
                    boards,
                    rules,
                    branches@[i],
                    start + branch_nodes(rules, branches@, i as nat),
                    branch_history(history, true, i),
                    k,
                );
            } else {
                assert forall|c: int| 0 <= c < children_of(nodes[k]).len() implies start
                    <= #[trigger] children_of(nodes[k])[c] < k by {
                    law_siblings_apart(rules, branches@, (c + 1) as nat, branches@.len());
                    law_siblings_apart(rules, branches@, c as nat, (c + 1) as nat);
                }
            }
        },
    }
}

/// Every regret block belongs to exactly one decision node.
pub proof fn law_stores_are_private(arena: Arena, i: int, j: int)
    requires
        arena.wf(),
        0 <= i < j < arena.nodes@.len(),
        arena.nodes@[i] is Decision,
        arena.nodes@[j] is Decision,
    ensures
        arena.nodes@[i]->store < arena.nodes@[j]->store < arena.widths@.len(),
{
    assert(node_wf(arena.nodes@, arena.widths@, arena.boards@, i));
    assert(node_wf(arena.nodes@, arena.widths@, arena.boards@, j));
    lemma_decisions_grow(arena.nodes@, (i + 1) as nat, j as nat);
}

proof fn lemma_decisions_grow(nodes: Seq<NodeKind>, m: nat, n: nat)
    requires
        m <= n,
    ensures
        decisions_before(nodes, m) <= decisions_before(nodes, n),
    decreases n,
{
    if m < n {
        lemma_decisions_grow(nodes, m, (n - 1) as nat);
    }
}

/// Below a tree's top, histories only grow; and on a complete board nothing
/// changes the board any more.
#[verifier::rlimit(80)]
proof fn lemma_decisions_below(
    nodes: Seq<NodeKind>,
    boards: Seq<[u8; 5]>,
    rules: TreeRules,
    tree: PublicTree,
    start: int,
    history: Seq<u8>,
    k: int,
)
    requires
        laid_out(nodes, boards, rules, tree, start, history),
        fits(rules, tree),
        start <= k < start + node_count(rules, tree),
        nodes[k] is Decision,
    ensures
        nodes[k]->history@.len() >= history.len(),
        nodes[k]->history@.take(history.len() as int) == history,
        dealt_count(tree.state().board@, 5) == 5 ==> nodes[k]->board@ == tree.state().board@,
    decreases tree, 0nat,
{
    let id = start + node_count(rules, tree) - 1;
    match tree {
        PublicTree::End { state, .. } => {
            if kind_of(rules, state) == PointKind::Chooser && k < id {
                assert(nodes[start + (k - start)] == (NodeKind::RunoutShowdown {
                    pot: state.pot,
                    scale: (k - start) as usize,
                }));
            }
            assert(history.take(history.len() as int) =~= history);
        },
        PublicTree::River { branches, .. } => {
            if k < id {
                let i = lemma_branch_at(rules, branches@, branches@.len(), k - start);
                assert(fits(rules, branches@[i]));
                lemma_decisions_below(
                    nodes,
                    boards,
                    rules,
                    branches@[i],
                    start + branch_nodes(rules, branches@, i as nat),
                    branch_history(history, false, i),
                    k,
                );
            }
        },
        PublicTree::Bets { branches, .. } => {
            if k < id {
                let i = lemma_branch_at(rules, branches@, branches@.len(), k - start);
                assert(fits(rules, branches@[i]));
                let longer = branch_history(history, true, i);
                lemma_decisions_below(
                    nodes,
                    boards,
                    rules,
                    branches@[i],
                    start + branch_nodes(rules, branches@, i as nat),
                    longer,
                    k,
                );
                let h = nodes[k]->history@;
                assert(h.take(longer.len() as int).take(history.len() as int) =~= h.take(
                    history.len() as int,
                ));
                assert(longer.take(history.len() as int) =~= history);
            } else {
                assert(history.take(history.len() as int) =~= history);
            }
        },
    }
}

proof fn lemma_dealt_full(board: Seq<u8>)
    requires
        forall|i: int| 0 <= i < board.len() ==> #[trigger] board[i] != NO_CARD,
    ensures
        dealt_cards(board) == board,
    decreases board.len(),
{
    if board.len() > 0 {
        lemma_dealt_full(board.drop_last());
        assert(board.drop_last().push(board.last()) =~= board);
    } else {
        assert(dealt_cards(board) =~= board);
    }
}

proof fn lemma_dealt_count_full(board: Seq<u8>, n: nat)
    requires
        n <= board.len(),
    ensures
        dealt_count(board, n) <= n,
        dealt_count(board, n) == n ==> forall|i: int| 0 <= i < n ==> #[trigger] board[i] != NO_CARD,
    decreases n,
{
    if n > 0 {
        lemma_dealt_count_full(board, (n - 1) as nat);
    }
}

proof fn lemma_dealt_count_same(a: Seq<u8>, b: Seq<u8>, n: nat)
    requires
        n <= a.len(),
        n <= b.len(),
        forall|i: int| 0 <= i < n ==> #[trigger] a[i] == b[i],
    ensures
        dealt_count(a, n) == dealt_count(b, n),
    decreases n,
{
    if n > 0 {
        lemma_dealt_count_same(a, b, (n - 1) as nat);
    }
}

/// No two decisions of a subgame share a situation: they differ in the dealt
/// board or in the history, so their keys' bytes differ for every hand.
#[verifier::rlimit(80)]
pub proof fn law_decisions_differ(
    nodes: Seq<NodeKind>,
    boards: Seq<[u8; 5]>,
    rules: TreeRules,
    tree: PublicTree,
    start: int,
    history: Seq<u8>,
    k: int,
    m: int,
)
    requires
        laid_out(nodes, boards, rules, tree, start, history),
        fits(rules, tree),
        start <= k < m < start + node_count(rules, tree),
        nodes[k] is Decision,
        nodes[m] is Decision,
    ensures
        nodes[k]->history@ != nodes[m]->history@ || dealt_cards(nodes[k]->board@) != dealt_cards(
            nodes[m]->board@,
        ),
    decreases tree, 0nat,
{
    let id = start + node_count(rules, tree) - 1;
    match tree {
        PublicTree::End { state, .. } => {
            if kind_of(rules, state) == PointKind::Chooser {
                assert(nodes[start + (k - start)] == (NodeKind::RunoutShowdown {
                    pot: state.pot,
                    scale: (k - start) as usize,
                }));
            }
        },
        PublicTree::River { state, branches } => {
            let i = lemma_branch_at(rules, branches@, branches@.len(), k - start);
            let j = lemma_branch_at(rules, branches@, branches@.len(), m - start);
            let at_i = start + branch_nodes(rules, branches@, i as nat);
            let at_j = start + branch_nodes(rules, branches@, j as nat);
            assert(fits(rules, branches@[i]));
            assert(fits(rules, branches@[j]));
            if i == j {
                law_decisions_differ(
                    nodes,
                    boards,
                    rules,
                    branches@[i],
                    at_i,
                    branch_history(history, false, i),
                    k,
                    m,
                );
            } else {
                let cards = revealed(branches@);
                lemma_complete(rules, tree, i);
                lemma_complete(rules, tree, j);
                lemma_decisions_below(
                    nodes,
                    boards,
                    rules,
                    branches@[i],
                    at_i,
                    branch_history(history, false, i),
                    k,
                );
                lemma_decisions_below(
                    nodes,
                    boards,
                    rules,
                    branches@[j],
                    at_j,
                    branch_history(history, false, j),
                    m,
                );
                assert(nodes[k]->board@[4] == cards[i]);
                assert(nodes[m]->board@[4] == cards[j]);
                assert(cards[i] != cards[j]);
            }
        },
        PublicTree::Bets { state, branches, .. } => {
            let i = lemma_branch_at(rules, branches@, branches@.len(), k - start);
            let at_i = start + branch_nodes(rules, branches@, i as nat);
            let longer = branch_history(history, true, i);
            assert(fits(rules, branches@[i]));
            lemma_decisions_below(nodes, boards, rules, branches@[i], at_i, longer, k);
            if m == id {
                assert(nodes[m]->history@ == history);
            } else {
                let j = lemma_branch_at(rules, branches@, branches@.len(), m - start);
                let at_j = start + branch_nodes(rules, branches@, j as nat);
                let other = branch_history(history, true, j);
                assert(fits(rules, branches@[j]));
                if i == j {
                    law_decisions_differ(nodes, boards, rules, branches@[i], at_i, longer, k, m);
                } else {
                    lemma_decisions_below(nodes, boards, rules, branches@[j], at_j, other, m);
                    let n = history.len() as int;
                    assert(nodes[k]->history@.take(n + 1)[n] == i as u8);
                    assert(nodes[m]->history@.take(n + 1)[n] == j as u8);
                }
            }
        },
    }
}

/// A river branch has a complete board.
proof fn lemma_complete(rules: TreeRules, tree: PublicTree, i: int)
    requires
        fits(rules, tree),
        tree is River,
        0 <= i < tree->River_branches@.len(),
    ensures
        dealt_count(tree->River_branches@[i].state().board@, 5) == 5,
        dealt_cards(tree->River_branches@[i].state().board@)
            == tree->River_branches@[i].state().board@,
        tree->River_branches@[i].state().board@[4] == revealed(tree->River_branches@)[i],
{
    let branches = tree->River_branches@;
    let state = tree->River_state;
    let cards = revealed(branches);
    let board = branches[i].state().board@;
    assert(cards.contains(cards[i]));
    assert(board == state.board@.update(4, cards[i]));
    assert(dealt_count(state.board@, 5) == 4);
    assert(dealt_count(state.board@, 4) == 4);
    lemma_dealt_count_same(state.board@, board, 4);
    assert(dealt_count(board, 5) == 5);
    lemma_dealt_count_full(board, 5);
    lemma_dealt_full(board);
}

/// A decision's regret block is as wide as it has actions, and its children
/// come before it.
pub proof fn law_blocks_fit_their_decisions(arena: Arena, i: int)
    requires
        arena.wf(),
        0 <= i < arena.nodes@.len(),
        arena.nodes@[i] is Decision,
    ensures
        arena.nodes@[i]->player < 2,
        arena.nodes@[i]->store < arena.widths@.len(),
        arena.widths@[arena.nodes@[i]->store as int] == arena.nodes@[i]->Decision_children@.len(),
        forall|k: int|
            0 <= k < arena.nodes@[i]->Decision_children@.len()
                ==> #[trigger] arena.nodes@[i]->Decision_children@[k] < i,
{
    assert(node_wf(arena.nodes@, arena.widths@, arena.boards@, i));
}

/// Every regret block has its decision.
pub proof fn law_every_block_has_a_decision(arena: Arena, store: int) -> (i: int)
    requires
        arena.wf(),
        0 <= store < arena.widths@.len(),
    ensures
        0 <= i < arena.nodes@.len(),
        arena.nodes@[i] is Decision,
        arena.nodes@[i]->store == store,
{
    let i = lemma_decision_numbered(arena.nodes@, arena.nodes@.len(), store);
    assert(node_wf(arena.nodes@, arena.widths@, arena.boards@, i));
    i
}

proof fn lemma_decision_numbered(nodes: Seq<NodeKind>, n: nat, store: int) -> (i: int)
    requires
        n <= nodes.len(),
        0 <= store < decisions_before(nodes, n),
    ensures
        0 <= i < n,
        nodes[i] is Decision,
        decisions_before(nodes, i as nat) == store,
    decreases n,
{
    if store < decisions_before(nodes, (n - 1) as nat) {
        lemma_decision_numbered(nodes, (n - 1) as nat, store)
    } else {
        n - 1
    }
}

/// What goes on where something ended keeps every part of it in its place.
pub proof fn law_growth_keeps_what_is_there(before: Arena, after: Arena, k: int)
    requires
        arena_extends(before, after),
    ensures
        0 <= k < before.nodes@.len() ==> k < after.nodes@.len() && after.nodes@[k]
            == before.nodes@[k],
        0 <= k < before.widths@.len() ==> k < after.widths@.len() && after.widths@[k]
            == before.widths@[k],
        0 <= k < before.boards@.len() ==> k < after.boards@.len() && after.boards@[k]
            == before.boards@[k],
{
    if 0 <= k < before.nodes@.len() {
        assert(after.nodes@[k] == before.nodes@[k]);
    }
    if 0 <= k < before.widths@.len() {
        assert(after.widths@[k] == before.widths@[k]);
    }
    if 0 <= k < before.boards@.len() {
        assert(after.boards@[k] == before.boards@[k]);
    }
}

} // verus!
