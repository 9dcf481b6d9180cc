//! What an unfolded tree is, point by point: where it ends, what each branch
//! changes, and the raise count that its lines carry.

use super::cap::{is_unfolded, keeps_cap};
use super::point_laws::law_points_are_what_happened;
use super::tree::{
    branch_nodes, fits, kind_of, node_count, revealed, subgame_menu, PointKind, PublicTree,
    TreeRules,
};
use crate::engine::GameState;
use crate::play::equity::is_live_deck;
use vstd::prelude::*;

verus! {

/// Whether the betting goes on at a state: the hand is not over, and the street
/// has its cards.
pub open spec fn betting_goes_on(gs: GameState) -> bool {
    !gs.terminal && forall|i: int| 0 <= i < gs.visible ==> #[trigger] gs.board@[i] != 255
}

/// An unfolded tree ends exactly where it should: a betting point stands where
/// the betting goes on, and nothing else does; every state is sound.
pub proof fn law_trees_end_where_betting_does(rules: TreeRules, tree: PublicTree)
    requires
        fits(rules, tree),
    ensures
        tree.state().wf(),
        tree is Bets <==> betting_goes_on(tree.state()),
        tree is River <==> kind_of(rules, tree.state()) == PointKind::River,
{
    law_points_are_what_happened(rules, tree.state());
    let gs = tree.state();
    if exists|i: int| 0 <= i < gs.visible && gs.board@[i] == 0xFFu8 {
        let i = choose|i: int| 0 <= i < gs.visible && gs.board@[i] == 0xFFu8;
        assert(!betting_goes_on(gs));
    }
}

/// A tree fits where its top does and every branch fits below it.  Betting does
/// not touch the board; a reveal puts each card that is not on the board in the
/// last slot, one branch each, in card order.
pub proof fn law_branches_change_what_they_say(rules: TreeRules, tree: PublicTree)
    requires
        tree.state().wf(),
    ensures
        match tree {
            PublicTree::End { state, .. } => fits(rules, tree) <==> kind_of(rules, state)
                != PointKind::Bets && kind_of(rules, state) != PointKind::River,
            PublicTree::Bets { state, branches, .. } => fits(rules, tree) <==> kind_of(rules, state)
                == PointKind::Bets && branches@.len() <= 256 && forall|i: int|
                0 <= i < branches@.len() ==> (#[trigger] branches@[i]).state().board == state.board
                    && fits(rules, branches@[i]),
            PublicTree::River { state, branches } => fits(rules, tree) <==> kind_of(rules, state)
                == PointKind::River && state.board@[4] == 255 && is_live_deck(
                Seq::new(branches@.len(), |i: int| branches@[i].state().board@[4]),
                state.board@.take(4),
            ) && forall|i: int|
                0 <= i < branches@.len() ==> {
                    &&& fits(rules, #[trigger] branches@[i])
                    &&& forall|s: int|
                        0 <= s < 4 ==> #[trigger] branches@[i].state().board@[s] == state.board@[s]
                },
        },
{
    match tree {
        PublicTree::River { state, branches } => {
            assert(revealed(branches@) =~= Seq::new(
                branches@.len(),
                |i: int| branches@[i].state().board@[4],
            ));
            if fits(rules, tree) {
                assert forall|i: int, s: int|
                    0 <= i < branches@.len() && 0 <= s
                        < 4 implies #[trigger] branches@[i].state().board@[s] == state.board@[s] by {
                    assert(branches@[i].state().board@ == state.board@.update(
                        4,
                        revealed(branches@)[i],
                    ));
                }
            }
            if forall|i: int|
                0 <= i < branches@.len() ==> {
                    &&& fits(rules, #[trigger] branches@[i])
                    &&& forall|s: int|
                        0 <= s < 4 ==> #[trigger] branches@[i].state().board@[s] == state.board@[s]
                } {
                assert forall|i: int| 0 <= i < branches@.len() implies (
                #[trigger] branches@[i]).state().board@ == state.board@.update(
                    4,
                    revealed(branches@)[i],
                ) by {
                    assert(branches@[i].state().board@ =~= state.board@.update(
                        4,
                        revealed(branches@)[i],
                    ));
                }
            }
        },
        _ => {},
    }
}

/// Every line carries its raises: none at the top of a tree or of a river, and
/// one more below each action that lifts the bet.  A betting point has a branch
/// per action that the cap leaves at its count.
pub proof fn law_lines_count_their_raises(rules: TreeRules, tree: PublicTree, raises: int)
    ensures
        is_unfolded(rules, tree) <==> fits(rules, tree) && keeps_cap(rules, tree, 0),
        match tree {
            PublicTree::End { .. } => true,
            PublicTree::River { branches, .. } => keeps_cap(rules, tree, raises) <==> forall|i: int|
                0 <= i < branches@.len() ==> keeps_cap(rules, #[trigger] branches@[i], 0),
            PublicTree::Bets { state, legal, raises: count, branches } => keeps_cap(
                rules,
                tree,
                raises,
            ) <==> count == raises && branches@.len() == subgame_menu(
                legal@,
                count,
                rules.raise_cap,
            ).len() && forall|i: int|
                0 <= i < branches@.len() ==> keeps_cap(
                    rules,
                    #[trigger] branches@[i],
                    if branches@[i].state().current_bet > state.current_bet {
                        raises + 1
                    } else {
                        raises
                    },
                ),
        },
{
}

/// The nodes of a tree: one for its top and those of its branches together; a
/// choice among run-outs is one node and a leaf per continuation.
pub proof fn law_nodes_add_up(rules: TreeRules, tree: PublicTree, branches: Seq<PublicTree>, n: nat)
    requires
        n < branches.len(),
    ensures
        branch_nodes(rules, branches, 0) == 0,
        branch_nodes(rules, branches, n + 1) == branch_nodes(rules, branches, n) + node_count(
            rules,
            branches[n as int],
        ),
        tree matches PublicTree::Bets { branches: b, .. } ==> node_count(rules, tree) == 1
            + branch_nodes(rules, b@, b@.len()),
        tree matches PublicTree::River { branches: b, .. } ==> node_count(rules, tree) == 1
            + branch_nodes(rules, b@, b@.len()),
        tree is End ==> node_count(rules, tree) == if kind_of(rules, tree.state())
            == PointKind::Chooser {
            1 + rules.continuations
        } else {
            1
        },
{
}

} // verus!
