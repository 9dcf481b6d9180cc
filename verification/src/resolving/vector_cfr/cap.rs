//! The raise cap over a whole public tree: the counter that every line carries,
//! and what the cap does to the tree.
//!
//! The engine unfolds the betting outside the library, so nothing keeps its
//! driver from threading the counter wrongly: [`PublicTree::unfolded`] tests an
//! unfolded tree against the rules before it is laid out.

use super::tree::{
    branch_nodes, capped_legal, fits, has_passive, kind_of, node_count, point_kind, raises_then,
    revealed, river_cards, subgame_menu, survives_cap, PointKind, PublicTree, TreeRules,
};
use crate::engine::{Action, GameState, NO_CARD};
use crate::play::equity::{is_live_deck, law_live_deck_unique};
use vstd::prelude::*;

verus! {

/// Whether every line of a tree carries the raise counter, which is `raises` at
/// the top: an action that lifts the bet level adds one, a river reveal starts
/// over, and every betting point has a branch per action of the menu that the
/// cap leaves at its count.
pub open spec fn keeps_cap(rules: TreeRules, tree: PublicTree, raises: int) -> bool
    decreases tree,
{
    match tree {
        PublicTree::End { .. } => true,
        PublicTree::River { branches, .. } => forall|i: int|
            0 <= i < branches@.len() ==> keeps_cap(rules, #[trigger] branches@[i], 0),
        PublicTree::Bets { state, legal, raises: count, branches } => {
            &&& count == raises
            &&& branches@.len() == subgame_menu(legal@, count, rules.raise_cap).len()
            &&& forall|i: int|
                0 <= i < branches@.len() ==> keeps_cap(
                    rules,
                    #[trigger] branches@[i],
                    raises_then(count, state.current_bet, branches@[i].state().current_bet),
                )
        },
    }
}

/// Whether a tree is what the rules unfold, with no raise made at its top.
pub open spec fn is_unfolded(rules: TreeRules, tree: PublicTree) -> bool {
    fits(rules, tree) && keeps_cap(rules, tree, 0)
}

impl PublicTree {
    /// Whether a tree is what the rules unfold; see [`is_unfolded`].
    pub fn unfolded(&self, rules: &TreeRules) -> (ok: bool)
        ensures
            ok == is_unfolded(*rules, *self),
    {
        self.counted(rules, 0)
    }

    /// Whether a tree is what the rules unfold after `raises` raises.
    fn counted(&self, rules: &TreeRules, raises: u64) -> (ok: bool)
        ensures
            ok == (fits(*rules, *self) && keeps_cap(*rules, *self, raises as int)),
        decreases self, 1nat,
    {
        match self {
            PublicTree::End { state, payoffs } => {
                if !state.is_wf() {
                    return false;
                }
                match point_kind(rules, state) {
                    PointKind::Bets | PointKind::River => false,
                    _ => true,
                }
            },
            PublicTree::River { .. } => self.counted_reveal(rules),
            PublicTree::Bets { .. } => self.counted_bets(rules, raises),
        }
    }

    /// [`PublicTree::counted`], at a river reveal.
    fn counted_reveal(&self, rules: &TreeRules) -> (ok: bool)
        requires
            self is River,
        ensures
            ok == (fits(*rules, *self) && keeps_cap(*rules, *self, 0)),
        decreases self, 0nat,
    {
        match self {
            PublicTree::River { state, branches } => {
                if !state.is_wf() || state.board[4] != NO_CARD {
                    return false;
                }
                match point_kind(rules, state) {
                    PointKind::River => {},
                    _ => {
                        return false;
                    },
                }
                let cards: Vec<u8> = river_cards(state);
                let ghost shown = revealed(branches@);
                if branches.len() != cards.len() {
                    proof {
                        if is_live_deck(shown, state.board@.take(4)) {
                            law_live_deck_unique(shown, cards@, state.board@.take(4));
                        }
                    }
                    return false;
                }
                let mut i: usize = 0;
                while i < branches.len()
                    invariant
                        i <= branches@.len() == cards@.len(),
                        *self == (PublicTree::River { state: *state, branches: *branches }),
                        shown == revealed(branches@),
                        is_live_deck(cards@, state.board@.take(4)),
                        forall|k: int|
                            0 <= k < i ==> {
                                &&& shown[k] == cards@[k]
                                &&& (#[trigger] branches@[k]).state().board@
                                    == state.board@.update(4, shown[k])
                                &&& fits(*rules, branches@[k])
                                &&& keeps_cap(*rules, branches@[k], 0)
                            },
                    decreases branches@.len() - i,
                {
                    let branch: &PublicTree = &branches[i];
                    let board: [u8; 5] = branch.board();
                    proof {
                        assert(shown[i as int] == branches@[i as int].state().board[4]);
                        if is_live_deck(shown, state.board@.take(4)) {
                            law_live_deck_unique(shown, cards@, state.board@.take(4));
                        }
                    }
                    if board[4] != cards[i] {
                        return false;
                    }
                    if !(board[0] == state.board[0] && board[1] == state.board[1] && board[2]
                        == state.board[2] && board[3] == state.board[3]) {
                        proof {
                            let dealt = state.board@.update(4, shown[i as int]);
                            assert(board@ == dealt ==> board@[0] == state.board@[0] && board@[1]
                                == state.board@[1] && board@[2] == state.board@[2] && board@[3]
                                == state.board@[3]);
                            assert(branches@[i as int].state().board@ != dealt);
                        }
                        return false;
                    }
                    assert(board@ =~= state.board@.update(4, shown[i as int]));
                    assert(decreases_to!(self => self->River_branches));
                    if !branch.counted(rules, 0) {
                        assert(!(fits(*rules, branches@[i as int]) && keeps_cap(
                            *rules,
                            branches@[i as int],
                            0,
                        )));
                        return false;
                    }
                    i += 1;
                }
                assert(shown =~= cards@);
                true
            },
            _ => false,
        }
    }

    /// [`PublicTree::counted`], at a betting point.
    fn counted_bets(&self, rules: &TreeRules, raises: u64) -> (ok: bool)
        requires
            self is Bets,
        ensures
            ok == (fits(*rules, *self) && keeps_cap(*rules, *self, raises as int)),
        decreases self, 0nat,
    {
        match self {
            PublicTree::Bets { state, legal, raises: count, branches } => {
                if !state.is_wf() || *count as u64 != raises || branches.len() > 256 {
                    return false;
                }
                match point_kind(rules, state) {
                    PointKind::Bets => {},
                    _ => {
                        return false;
                    },
                }
                let menu: Vec<Action> = capped_legal(legal.as_slice(), *count, rules.raise_cap);
                if branches.len() != menu.len() {
                    return false;
                }
                let mut i: usize = 0;
                while i < branches.len()
                    invariant
                        i <= branches@.len(),
                        *self == (PublicTree::Bets {
                            state: *state,
                            legal: *legal,
                            raises: *count,
                            branches: *branches,
                        }),
                        count == raises,
                        forall|k: int|
                            0 <= k < i ==> {
                                &&& (#[trigger] branches@[k]).state().board == state.board
                                &&& fits(*rules, branches@[k])
                                &&& keeps_cap(
                                    *rules,
                                    branches@[k],
                                    raises_then(
                                        *count,
                                        state.current_bet,
                                        branches@[k].state().current_bet,
                                    ),
                                )
                            },
                    decreases branches@.len() - i,
                {
                    let branch: &PublicTree = &branches[i];
                    let next: &GameState = branch.top();
                    let board: [u8; 5] = next.board;
                    if !(board[0] == state.board[0] && board[1] == state.board[1] && board[2]
                        == state.board[2] && board[3] == state.board[3] && board[4]
                        == state.board[4]) {
                        assert(branches@[i as int].state().board != state.board);
                        return false;
                    }
                    assert(board =~= state.board);
                    let then: u64 = if next.current_bet > state.current_bet {
                        raises + 1
                    } else {
                        raises
                    };
                    assert(decreases_to!(self => self->Bets_branches));
                    if !branch.counted(rules, then) {
                        assert(!(fits(*rules, branches@[i as int]) && keeps_cap(
                            *rules,
                            branches@[i as int],
                            then as int,
                        )));
                        return false;
                    }
                    i += 1;
                }
                true
            },
            _ => false,
        }
    }

    /// The engine state at the top.
    pub fn top(&self) -> (state: &GameState)
        ensures
            *state == self.state(),
    {
        match self {
            PublicTree::End { state, .. } => state,
            PublicTree::River { state, .. } => state,
            PublicTree::Bets { state, .. } => state,
        }
    }
}

/// Past the cap a betting point offers no sized raise, and an all-in only where
/// there is no other way to go on.
pub proof fn law_capped_points_end_aggression(full: Seq<Action>, raises: u32, raise_cap: u32, a: Action)
    requires
        raises >= raise_cap,
        subgame_menu(full, raises, raise_cap).contains(a),
    ensures
        full.contains(a),
        !(a is Raise),
        a == Action::AllIn ==> !has_passive(full),
{
    let keep = |x: Action| survives_cap(x, has_passive(full));
    full.lemma_filter_contains_rev(keep, a);
    let menu = full.filter(keep);
    let i = choose|i: int| 0 <= i < menu.len() && menu[i] == a;
    full.lemma_filter_pred(keep, i);
}

/// Whether no line of a tree reaches the cap: at every betting point fewer
/// raises have been made.
pub open spec fn below_cap(tree: PublicTree, raise_cap: u32) -> bool
    decreases tree,
{
    match tree {
        PublicTree::End { .. } => true,
        PublicTree::River { branches, .. } => forall|i: int|
            0 <= i < branches@.len() ==> below_cap(#[trigger] branches@[i], raise_cap),
        PublicTree::Bets { raises, branches, .. } => {
            &&& raises < raise_cap
            &&& forall|i: int|
                0 <= i < branches@.len() ==> below_cap(#[trigger] branches@[i], raise_cap)
        },
    }
}

/// Whether a tree is unfolded by one engine, which allows `legal` at a state and
/// goes on to `next` after an action.
pub open spec fn by_engine(
    legal: spec_fn(GameState) -> Seq<Action>,
    next: spec_fn(GameState, Action) -> GameState,
    rules: TreeRules,
    tree: PublicTree,
) -> bool
    decreases tree,
{
    match tree {
        PublicTree::End { .. } => true,
        PublicTree::River { state, branches } => forall|i: int|
            0 <= i < branches@.len() ==> {
                let dealt = (#[trigger] branches@[i]).state();
                &&& dealt == (GameState { board: dealt.board, ..state })
                &&& by_engine(legal, next, rules, branches@[i])
            },
        PublicTree::Bets { state, legal: full, raises, branches } => {
            &&& full@ == legal(state)
            &&& forall|i: int|
                0 <= i < branches@.len() ==> {
                    &&& (#[trigger] branches@[i]).state() == next(
                        state,
                        subgame_menu(full@, raises, rules.raise_cap)[i],
                    )
                    &&& by_engine(legal, next, rules, branches@[i])
                }
        },
    }
}

/// A cap that no line reaches changes nothing: the same engine unfolds a tree of
/// the same size under any higher cap, without a bound included.
pub proof fn law_unreached_cap_changes_nothing(
    legal: spec_fn(GameState) -> Seq<Action>,
    next: spec_fn(GameState, Action) -> GameState,
    rules: TreeRules,
    tree: PublicTree,
    looser: TreeRules,
    other: PublicTree,
)
    requires
        looser == (TreeRules { raise_cap: looser.raise_cap, ..rules }),
        rules.raise_cap <= looser.raise_cap,
        is_unfolded(rules, tree),
        is_unfolded(looser, other),
        by_engine(legal, next, rules, tree),
        by_engine(legal, next, looser, other),
        tree.state() == other.state(),
        below_cap(tree, rules.raise_cap),
    ensures
        node_count(rules, tree) == node_count(looser, other),
{
    lemma_same_size(legal, next, rules, tree, looser, other, 0);
}

proof fn lemma_same_size(
    legal: spec_fn(GameState) -> Seq<Action>,
    next: spec_fn(GameState, Action) -> GameState,
    rules: TreeRules,
    tree: PublicTree,
    looser: TreeRules,
    other: PublicTree,
    raises: int,
)
    requires
        looser == (TreeRules { raise_cap: looser.raise_cap, ..rules }),
        rules.raise_cap <= looser.raise_cap,
        fits(rules, tree),
        fits(looser, other),
        keeps_cap(rules, tree, raises),
        keeps_cap(looser, other, raises),
        by_engine(legal, next, rules, tree),
        by_engine(legal, next, looser, other),
        tree.state() == other.state(),
        below_cap(tree, rules.raise_cap),
    ensures
        node_count(rules, tree) == node_count(looser, other),
    decreases tree, 0nat,
{
    let state = tree.state();
    assert(kind_of(rules, state) == kind_of(looser, state));
    match tree {
        PublicTree::End { .. } => {},
        PublicTree::River { branches, .. } => {
            let others = other->River_branches@;
            law_live_deck_unique(revealed(branches@), revealed(others), state.board@.take(4));
            assert(revealed(branches@).len() == revealed(others).len());
            assert forall|i: int| 0 <= i < branches@.len() implies node_count(
                rules,
                #[trigger] branches@[i],
            ) == node_count(looser, others[i]) by {
                let (a, b) = (branches@[i].state(), others[i].state());
                assert(revealed(branches@)[i] == revealed(others)[i]);
                assert(a.board@ == b.board@);
                assert(a.board =~= b.board);
                lemma_same_size(legal, next, rules, branches@[i], looser, others[i], 0);
            }
            lemma_same_sizes(rules, branches@, looser, others, branches@.len());
        },
        PublicTree::Bets { legal: full, raises: count, branches, .. } => {
            let others = other->Bets_branches@;
            let then = |i: int|
                raises_then(count, state.current_bet, branches@[i].state().current_bet);
            assert forall|i: int| 0 <= i < branches@.len() implies node_count(
                rules,
                #[trigger] branches@[i],
            ) == node_count(looser, others[i]) by {
                assert(branches@[i].state() == others[i].state());
                lemma_same_size(legal, next, rules, branches@[i], looser, others[i], then(i));
            }
            lemma_same_sizes(rules, branches@, looser, others, branches@.len());
        },
    }
}

proof fn lemma_same_sizes(
    rules: TreeRules,
    branches: Seq<PublicTree>,
    looser: TreeRules,
    others: Seq<PublicTree>,
    n: nat,
)
    requires
        n <= branches.len() == others.len(),
        forall|i: int|
            0 <= i < n ==> node_count(rules, #[trigger] branches[i]) == node_count(
                looser,
                others[i],
            ),
    ensures
        branch_nodes(rules, branches, n) == branch_nodes(looser, others, n),
    decreases n,
{
    if n > 0 {
        lemma_same_sizes(rules, branches, looser, others, (n - 1) as nat);
        assert(node_count(rules, branches[n - 1]) == node_count(looser, others[n - 1]));
    }
}

} // verus!
