//! What the points of a public tree become, told by what happened in the hand:
//! who has folded, which cards are out, whether a bet is still to be made.

use super::solve::{visit_of, Visit};
use super::tree::{
    branch_history, branch_ids, branch_nodes, has_passive, ids, is_passive, kind_of, laid_out,
    node_count, raises_then, revealed, subgame_menu, survives_cap, NodeKind, PointKind, PublicTree,
    TreeRules,
};
use crate::engine::{Action, GameState};
use crate::util::filter::{lemma_filter_agree, lemma_filter_all};
use vstd::prelude::*;

verus! {

/// One where slot `i` of a board has no card.
pub open spec fn gap(board: Seq<u8>, i: int) -> int {
    if board[i] == 0xFFu8 {
        1
    } else {
        0
    }
}

/// A point of the tree is what happened there:
///
/// * a betting point exactly where the hand goes on and the street has its
///   cards;
/// * a fold exactly where it does not and a player has folded;
/// * a showdown exactly where it does not, nobody has folded and all five board
///   cards are out;
/// * with cards still to come and nobody folded, a river reveal, a choice among
///   run-outs or a run-out, however many cards are out: the reveal where the
///   river betting is solved and only the river is missing, the choice where
///   there is one to make.
pub proof fn law_points_are_what_happened(rules: TreeRules, gs: GameState)
    requires
        gs.wf(),
    ensures
        ({
            let kind = kind_of(rules, gs);
            let folded = gs.folded % 4 != 0;
            let short = exists|i: int| 0 <= i < gs.visible && gs.board@[i] == 0xFFu8;
            let to_come = gap(gs.board@, 0) + gap(gs.board@, 1) + gap(gs.board@, 2) + gap(
                gs.board@,
                3,
            ) + gap(gs.board@, 4);
            let full = to_come == 0;
            let one_missing = to_come == 1;
            let stops = gs.terminal || short;
            &&& kind == PointKind::Bets <==> !stops
            &&& kind == PointKind::Fold <==> stops && folded
            &&& kind == PointKind::Showdown <==> stops && !folded && full
            &&& kind == PointKind::River <==> !gs.terminal && short && !folded && one_missing
                && rules.full_river
            &&& kind == PointKind::Chooser <==> stops && !folded && !full && rules.continuations
                > 1 && !(rules.full_river && one_missing)
            &&& kind == PointKind::Runout <==> stops && !folded && !full && rules.continuations
                <= 1 && !(rules.full_river && one_missing && !gs.terminal) || stops && !folded
                && rules.full_river && one_missing && gs.terminal
        }),
{
    let f = gs.folded;
    assert((f & 1 != 0 || f & 2 != 0) == (f % 4 != 0)) by (bit_vector);
    let b = gs.board@;
    let short = exists|i: int| 0 <= i < gs.visible && b[i] == 0xFFu8;
    let shown = b.take(gs.visible as int);
    if short {
        let i = choose|i: int| 0 <= i < gs.visible && b[i] == 0xFFu8;
        assert(shown[i] == 0xFFu8);
        assert(shown.contains(0xFFu8));
    }
    if shown.contains(0xFFu8) {
        let i = choose|i: int| 0 <= i < shown.len() && shown[i] == 0xFFu8;
        assert(b[i] == 0xFFu8);
    }
    reveal_with_fuel(super::tree::dealt_count, 6);
}

/// A subgame's menu is the engine's, in the engine's order, without what the
/// cap takes away: nothing while raises may still be made, and from the cap on
/// every sized raise, and the all-in wherever the player can check or call
/// instead.
pub proof fn law_subgame_menu(full: Seq<Action>, raises: u32, raise_cap: u32)
    ensures
        subgame_menu(full, raises, raise_cap) == full.filter(
            |a: Action|
                raises < raise_cap || match a {
                    Action::Raise(_) => false,
                    Action::AllIn => !full.contains(Action::Check) && !full.contains(Action::Call),
                    _ => true,
                },
        ),
{
    let keep = |a: Action|
        raises < raise_cap || match a {
            Action::Raise(_) => false,
            Action::AllIn => !full.contains(Action::Check) && !full.contains(Action::Call),
            _ => true,
        };
    if raises < raise_cap {
        lemma_filter_all(full, keep);
    } else {
        let passive = has_passive(full);
        if passive {
            let i = choose|i: int| 0 <= i < full.len() && is_passive(#[trigger] full[i]);
            assert(full.contains(full[i]));
        }
        if full.contains(Action::Check) || full.contains(Action::Call) {
            let i = choose|i: int|
                0 <= i < full.len() && (full[i] == Action::Check || full[i] == Action::Call);
            assert(is_passive(full[i]));
        }
        lemma_filter_agree(full, |a: Action| survives_cap(a, passive), keep);
    }
    assert(subgame_menu(full, raises, raise_cap) == full.filter(keep));
    assert(full.filter(keep) == full.filter(
        |a: Action|
            raises < raise_cap || match a {
                Action::Raise(_) => false,
                Action::AllIn => !full.contains(Action::Check) && !full.contains(Action::Call),
                _ => true,
            },
    )) by {
        lemma_filter_agree(
            full,
            keep,
            |a: Action|
                raises < raise_cap || match a {
                    Action::Raise(_) => false,
                    Action::AllIn => !full.contains(Action::Check) && !full.contains(Action::Call),
                    _ => true,
                },
        );
    }
}

/// Lifting the bet level counts as one raise, and nothing else does.
pub proof fn law_only_raises_count(raises: u32, old_bet: u32, new_bet: u32)
    ensures
        raises_then(raises, old_bet, new_bet) - raises == if new_bet > old_bet {
            1int
        } else {
            0
        },
{
}

/// A laid-out tree keeps the engine's: a betting point is the decision of the
/// player to act there, on its board and after its history, and action `k`
/// leads to branch `k`; a reveal leads to each card's branch; a leaf holds the
/// chips of its own state.
pub proof fn law_layout_keeps_the_tree(
    nodes: Seq<NodeKind>,
    boards: Seq<[u8; 5]>,
    rules: TreeRules,
    tree: PublicTree,
    start: int,
    history: Seq<u8>,
    k: int,
)
    requires
        laid_out(nodes, boards, rules, tree, start, history),
    ensures
        ({
            let id = start + node_count(rules, tree) - 1;
            match tree {
                PublicTree::Bets { state, branches, .. } => {
                    &&& nodes[id] matches NodeKind::Decision {
                        player,
                        children,
                        board,
                        history: path,
                        marker,
                        ..
                    } && player == state.to_act && board@ == state.board@ && path@ == history
                        && marker == 0 && children@.len() == branches@.len() && (0 <= k
                        < branches@.len() ==> children@[k] == start + branch_nodes(
                        rules,
                        branches@,
                        k as nat,
                    ) + node_count(rules, branches@[k]) - 1 && laid_out(
                        nodes,
                        boards,
                        rules,
                        branches@[k],
                        start + branch_nodes(rules, branches@, k as nat),
                        history.push(k as u8),
                    ))
                },
                PublicTree::River { branches, .. } => {
                    &&& nodes[id] matches NodeKind::Chance { children } && children@.len()
                        == branches@.len() && (0 <= k < branches@.len() ==> children@[k].0
                        == branches@[k].state().board@[4] && children@[k].1 == start + branch_nodes(
                        rules,
                        branches@,
                        k as nat,
                    ) + node_count(rules, branches@[k]) - 1 && laid_out(
                        nodes,
                        boards,
                        rules,
                        branches@[k],
                        start + branch_nodes(rules, branches@, k as nat),
                        history,
                    ))
                },
                PublicTree::End { state, payoffs } => match kind_of(rules, state) {
                    PointKind::Fold => nodes[id] == (NodeKind::Fold { payoffs }),
                    PointKind::Showdown => nodes[id] matches NodeKind::Showdown { pot, prep } && pot
                        == state.pot && boards[prep as int]@ == state.board@,
                    PointKind::Runout => nodes[id] == (NodeKind::RunoutShowdown {
                        pot: state.pot,
                        scale: 0,
                    }),
                    PointKind::Chooser => {
                        &&& nodes[id] matches NodeKind::Decision {
                            player,
                            children,
                            board,
                            history: path,
                            marker,
                            ..
                        } && player == rules.chooser && board@ == state.board@ && path@ == history
                            && marker == 254 && children@.len()
                            == rules.continuations && (0 <= k < rules.continuations ==> nodes[children@[k] as int]
                            == (NodeKind::RunoutShowdown { pot: state.pot, scale: k as usize }))
                    },
                    _ => false,
                },
            }
        }),
{
    let id = start + node_count(rules, tree) - 1;
    match tree {
        PublicTree::Bets { branches, .. } => {
            let children = nodes[id]->Decision_children;
            if 0 <= k < branches@.len() {
                assert(ids(children@)[k] == branch_ids(rules, branches@, start)[k]);
                assert(branch_history(history, true, k) == history.push(k as u8));
            }
            assert(ids(children@).len() == branch_ids(rules, branches@, start).len());
        },
        PublicTree::River { branches, .. } => {
            let children = nodes[id]->Chance_children;
            if 0 <= k < branches@.len() {
                assert(children@[k].0 == revealed(branches@)[k]);
                assert(children@[k].1 == branch_ids(rules, branches@, start)[k]);
                assert(branch_history(history, false, k) == history);
            }
        },
        PublicTree::End { state, .. } => {
            if kind_of(rules, state) == PointKind::Chooser {
                let children = nodes[id]->Decision_children;
                let expected = Seq::new(rules.continuations as nat, |i: int| start + i);
                assert(ids(children@) == expected);
                assert(ids(children@).len() == expected.len());
                if 0 <= k < rules.continuations {
                    assert(ids(children@)[k] == expected[k]);
                    assert(nodes[start + k] == (NodeKind::RunoutShowdown {
                        pot: state.pot,
                        scale: k as usize,
                    }));
                }
            }
        },
    }
}

/// A node is visited for what it is: terminals are scored, a reveal is summed,
/// and a decision is the traverser's own exactly where the traverser acts; one
/// whose children are all run-out leaves is swept once.  Branches run side by
/// side above the depth cutoff, where there are several.
pub proof fn law_visits_by_node(
    nodes: Seq<NodeKind>,
    chooser: usize,
    id: int,
    traverser: usize,
    depth: usize,
    par_depth: usize,
)
    ensures
        ({
            let visit = visit_of(nodes, chooser, id, traverser, depth, par_depth);
            match nodes[id] {
                NodeKind::Showdown { .. } => visit is Showdown,
                NodeKind::RunoutShowdown { .. } => visit is Runout,
                NodeKind::Fold { .. } => visit is Fold,
                NodeKind::CfvTerminal => visit == (Visit::Carry { own: traverser == chooser }),
                NodeKind::Chance { .. } => visit == (Visit::Reveal { parallel: depth < par_depth }),
                NodeKind::Decision { player, children, .. } => {
                    let leaves = forall|c: int|
                        0 <= c < children@.len() ==> nodes[#[trigger] children@[c] as int] is RunoutShowdown;
                    &&& visit is OwnChooser <==> player == traverser && leaves
                    &&& visit is OwnMove <==> player == traverser && !leaves
                    &&& visit is OtherChooser <==> player != traverser && leaves
                    &&& visit is OtherMove <==> player != traverser && !leaves
                    &&& visit matches Visit::OwnMove { parallel } ==> (parallel <==> depth
                        < par_depth && children@.len() >= 2)
                    &&& visit matches Visit::OtherMove { parallel } ==> (parallel <==> depth
                        < par_depth && children@.len() >= 2)
                },
            }
        }),
{
}

} // verus!
