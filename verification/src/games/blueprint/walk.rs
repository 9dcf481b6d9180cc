//! Enumerating the betting tree: from the unfolded betting of a skeleton deal to
//! the numbered decisions of a [`BettingTree`].
//!
//! Legal actions depend only on *public* chip state, so the betting of any one
//! deal is the betting of every deal.  Decisions are numbered depth first, each
//! before the decisions below it.

use super::indexing::{
    block_start, child, node_at, BettingTree, BucketCounts, Indexing, TreeNode, MAX_ACTIONS,
};
use super::BlueprintHoldem;
use crate::games::IndexedGame;
use vstd::prelude::*;

verus! {

/// The betting below a point of a hand.
pub enum Skeleton {
    /// The hand is over.
    Over,
    /// A decision of `to_act` with `visible` board cards out, and what follows
    /// each action of the capped menu.
    Decision { visible: u8, to_act: u8, branches: Vec<Skeleton> },
}

/// Decisions in a skeleton.
pub open spec fn decisions(s: Skeleton) -> nat
    decreases s, 0nat,
{
    match s {
        Skeleton::Over => 0,
        Skeleton::Decision { branches, .. } => branch_decisions(branches@, branches@.len()) + 1,
    }
}

/// Decisions in the first `n` of some branches together.
pub open spec fn branch_decisions(branches: Seq<Skeleton>, n: nat) -> nat
    decreases branches, n,
{
    if n == 0 || n > branches.len() {
        0
    } else {
        branch_decisions(branches, (n - 1) as nat) + decisions(branches[n - 1])
    }
}

/// Every menu fits the child slots, and every street shows the cards that a
/// street can show.
pub open spec fn drawable(s: Skeleton) -> bool
    decreases s,
{
    match s {
        Skeleton::Over => true,
        Skeleton::Decision { visible, branches, .. } => {
            &&& branches@.len() <= MAX_ACTIONS
            &&& (visible == 0 || 3 <= visible <= 5)
            &&& forall|i: int| 0 <= i < branches@.len() ==> drawable(#[trigger] branches@[i])
        },
    }
}

/// Slots that the decisions of a skeleton take: one per card bucket of each
/// decision's street.
pub open spec fn slots(s: Skeleton, counts: BucketCounts) -> nat
    decreases s, 0nat,
{
    match s {
        Skeleton::Over => 0,
        Skeleton::Decision { visible, branches, .. } => counts.of(visible) as nat + branch_slots(
            branches@,
            branches@.len(),
            counts,
        ),
    }
}

/// Slots that the first `n` of some branches take together.
pub open spec fn branch_slots(branches: Seq<Skeleton>, n: nat, counts: BucketCounts) -> nat
    decreases branches, n,
{
    if n == 0 || n > branches.len() {
        0
    } else {
        branch_slots(branches, (n - 1) as nat, counts) + slots(branches[n - 1], counts)
    }
}

/// The number of the decision that the `n`-th branch of decision `id` starts
/// with: after `id` itself and the decisions of the branches before.
pub open spec fn branch_id(id: int, branches: Seq<Skeleton>, n: nat) -> int {
    id + 1 + branch_decisions(branches, n)
}

/// Decision `id` of a tree is the top of the skeleton, and the tree below it is
/// the skeleton's, numbered depth first.
pub open spec fn mirrors(
    nodes: Seq<TreeNode>,
    children: Seq<Option<u32>>,
    id: int,
    s: Skeleton,
) -> bool
    decreases s, 0nat,
{
    match s {
        Skeleton::Over => true,
        Skeleton::Decision { visible, to_act, branches } => {
            &&& 0 <= id < nodes.len()
            &&& nodes[id].visible == visible
            &&& nodes[id].to_act == to_act
            &&& nodes[id].num_actions == branches@.len()
            &&& branches_mirrored(nodes, children, id, branches@, branches@.len())
            &&& forall|a: int| branches@.len() <= a < 8 ==> #[trigger] child(children, id, a) is None
        },
    }
}

/// The first `n` actions of decision `id` lead to their branches, or to the end
/// of the hand.
pub open spec fn branches_mirrored(
    nodes: Seq<TreeNode>,
    children: Seq<Option<u32>>,
    id: int,
    branches: Seq<Skeleton>,
    n: nat,
) -> bool
    decreases branches, n,
{
    if n == 0 || n > branches.len() {
        true
    } else {
        let at = branch_id(id, branches, (n - 1) as nat);
        &&& branches_mirrored(nodes, children, id, branches, (n - 1) as nat)
        &&& child(children, id, n - 1) == if branches[n - 1] is Decision {
            Some(at as u32)
        } else {
            None
        }
        &&& mirrors(nodes, children, at, branches[n - 1])
    }
}

/// Two trees hold the same decisions in `from..to`.
spec fn same_stretch(
    nodes: Seq<TreeNode>,
    children: Seq<Option<u32>>,
    nodes2: Seq<TreeNode>,
    children2: Seq<Option<u32>>,
    from: int,
    to: int,
) -> bool {
    &&& to <= nodes.len() <= nodes2.len()
    &&& forall|k: int| from <= k < to ==> #[trigger] nodes2[k] == nodes[k]
    &&& forall|k: int, a: int|
        from <= k < to && 0 <= a < 8 ==> #[trigger] child(children2, k, a) == child(children, k, a)
}

proof fn lemma_branch_decisions_grow(branches: Seq<Skeleton>, m: nat, n: nat)
    requires
        m <= n <= branches.len(),
    ensures
        branch_decisions(branches, m) <= branch_decisions(branches, n),
        m < n ==> branch_decisions(branches, m) + decisions(branches[m as int])
            <= branch_decisions(branches, n),
    decreases n,
{
    if m < n {
        lemma_branch_decisions_grow(branches, m, (n - 1) as nat);
    }
}

/// Whether a skeleton is mirrored depends on its own stretch of decisions only.
proof fn lemma_mirror_kept(
    nodes: Seq<TreeNode>,
    children: Seq<Option<u32>>,
    nodes2: Seq<TreeNode>,
    children2: Seq<Option<u32>>,
    id: int,
    s: Skeleton,
)
    requires
        mirrors(nodes, children, id, s),
        drawable(s),
        same_stretch(nodes, children, nodes2, children2, id, id + decisions(s)),
    ensures
        mirrors(nodes2, children2, id, s),
    decreases s, 0nat,
{
    match s {
        Skeleton::Over => {},
        Skeleton::Decision { branches, .. } => {
            assert(nodes2[id] == nodes[id]);
            lemma_branches_kept(
                nodes,
                children,
                nodes2,
                children2,
                id,
                branches@,
                branches@.len(),
            );
            assert forall|a: int| branches@.len() <= a < 8 implies #[trigger] child(
                children2,
                id,
                a,
            ) is None by {
                assert(child(children2, id, a) == child(children, id, a));
            }
        },
    }
}

proof fn lemma_branches_kept(
    nodes: Seq<TreeNode>,
    children: Seq<Option<u32>>,
    nodes2: Seq<TreeNode>,
    children2: Seq<Option<u32>>,
    id: int,
    branches: Seq<Skeleton>,
    n: nat,
)
    requires
        n <= branches.len() <= MAX_ACTIONS,
        branches_mirrored(nodes, children, id, branches, n),
        forall|i: int| 0 <= i < branches.len() ==> drawable(#[trigger] branches[i]),
        same_stretch(nodes, children, nodes2, children2, id + 1, branch_id(id, branches, n)),
        forall|a: int| 0 <= a < n ==> #[trigger] child(children2, id, a) == child(children, id, a),
    ensures
        branches_mirrored(nodes2, children2, id, branches, n),
    decreases branches, n,
{
    if n > 0 {
        let at = branch_id(id, branches, (n - 1) as nat);
        lemma_branches_kept(
            nodes,
            children,
            nodes2,
            children2,
            id,
            branches,
            (n - 1) as nat,
        );
        assert(child(children2, id, n - 1) == child(children, id, n - 1));
        lemma_mirror_kept(nodes, children, nodes2, children2, at, branches[n - 1]);
    }
}

/// The tree's invariant, kept folded while a walk is under way.
#[verifier::opaque]
spec fn sound(tree: BettingTree) -> bool {
    tree.wf()
}

/// What a walk of `s` from slot `in_action` of `parent` makes of a tree: the
/// skeleton's decisions come after those that were there, and of the earlier
/// ones only that slot changes.
pub open spec fn walked(
    before: BettingTree,
    after: BettingTree,
    s: Skeleton,
    parent: Option<u32>,
    in_action: u8,
) -> bool {
    let start = before.nodes@.len();
    &&& after.nodes@.len() == start + decisions(s)
    &&& forall|k: int| 0 <= k < start ==> #[trigger] after.nodes@[k] == before.nodes@[k]
    &&& forall|p: int, a: int|
        0 <= p < start && 0 <= a < 8 ==> #[trigger] child(after.children@, p, a) == if s is Decision
            && parent == Some(p as u32) && a == in_action {
            Some(start as u32)
        } else {
            child(before.children@, p, a)
        }
    &&& mirrors(after.nodes@, after.children@, start as int, s)
}

/// The slot that a walk may start from: the root of an empty tree, or an unused
/// action of a node.
pub open spec fn can_walk(tree: BettingTree, s: Skeleton, parent: Option<u32>, in_action: u8) -> bool {
    s is Decision ==> match parent {
        None => tree.nodes@.len() == 0,
        Some(p) => {
            &&& p < tree.nodes@.len()
            &&& in_action < tree.nodes@[p as int].num_actions
            &&& child(tree.children@, p as int, in_action as int) is None
        },
    }
}

impl BettingTree {
    /// [`BettingTree::add_node`], over the folded invariant.
    fn grow(&mut self, parent: Option<u32>, in_action: u8, visible: u8, to_act: u8, actions: u8) -> (id:
        u32)
        requires
            sound(*old(self)),
            old(self).nodes@.len() < u32::MAX,
            actions <= MAX_ACTIONS,
            visible == 0 || 3 <= visible <= 5,
            match parent {
                None => old(self).nodes@.len() == 0,
                Some(p) => {
                    &&& p < old(self).nodes@.len()
                    &&& in_action < old(self).nodes@[p as int].num_actions
                    &&& child(old(self).children@, p as int, in_action as int) is None
                },
            },
        ensures
            sound(*final(self)),
            id == old(self).nodes@.len(),
            final(self).nodes@ == old(self).nodes@.push(
                (TreeNode { visible, to_act, num_actions: actions, parent, in_action }),
            ),
            forall|p: int, a: int|
                0 <= p < old(self).nodes@.len() && 0 <= a < 8 ==> #[trigger] child(
                    final(self).children@,
                    p,
                    a,
                ) == if parent == Some(p as u32) && a == in_action {
                    Some(id)
                } else {
                    child(old(self).children@, p, a)
                },
            forall|a: int| 0 <= a < 8 ==> #[trigger] child(final(self).children@, id as int, a) is None,
    {
        reveal(sound);
        self.add_node(parent, in_action, visible, to_act, actions)
    }

    /// [`BettingTree::walk`], over the folded invariant.
    fn unfold(&mut self, s: &Skeleton, parent: Option<u32>, in_action: u8) -> (id: Option<u32>)
        requires
            sound(*old(self)),
            drawable(*s),
            old(self).nodes@.len() + decisions(*s) <= u32::MAX,
            can_walk(*old(self), *s, parent, in_action),
        ensures
            sound(*final(self)),
            walked(*old(self), *final(self), *s, parent, in_action),
            id == if s is Decision {
                Some(old(self).nodes@.len() as u32)
            } else {
                None
            },
        decreases s,
    {
        match s {
            Skeleton::Over => None,
            Skeleton::Decision { visible, to_act, branches } => {
                let ghost before = *self;
                let ghost start = self.nodes@.len() as int;
                let id: u32 = self.grow(parent, in_action, *visible, *to_act, branches.len() as u8);
                let ghost added = *self;
                let mut i: usize = 0;
                while i < branches.len()
                    invariant
                        i <= branches@.len() <= MAX_ACTIONS,
                        *s == (Skeleton::Decision {
                            visible: *visible,
                            to_act: *to_act,
                            branches: *branches,
                        }),
                        drawable(*s),
                        sound(*self),
                        id == start == before.nodes@.len(),
                        start + decisions(*s) <= u32::MAX,
                        self.nodes@.len() == branch_id(start, branches@, i as nat),
                        forall|k: int|
                            0 <= k <= start ==> #[trigger] self.nodes@[k] == added.nodes@[k],
                        added.nodes@.len() == start + 1,
                        added.nodes@[start].num_actions == branches@.len(),
                        forall|p: int, a: int|
                            0 <= p < start && 0 <= a < 8 ==> #[trigger] child(self.children@, p, a)
                                == child(added.children@, p, a),
                        forall|a: int|
                            i <= a < 8 ==> #[trigger] child(self.children@, start, a) is None,
                        branches_mirrored(self.nodes@, self.children@, start, branches@, i as nat),
                    decreases branches@.len() - i,
                {
                    let ghost earlier = *self;
                    proof {
                        lemma_branch_decisions_grow(branches@, i as nat, branches@.len());
                        assert(drawable(branches@[i as int]));
                        assert(self.nodes@[start] == added.nodes@[start]);
                    }
                    let _ = self.unfold(&branches[i], Some(id), i as u8);
                    proof {
                        lemma_branches_kept(
                            earlier.nodes@,
                            earlier.children@,
                            self.nodes@,
                            self.children@,
                            start,
                            branches@,
                            i as nat,
                        );
                    }
                    i += 1;
                }
                Some(id)
            },
        }
    }

    /// Enumerate a skeleton depth first: allocate a node for the decision at its
    /// top, then walk the branches.  Returns the node, or `None` where the hand
    /// is over (so the parent records "no child here").
    pub fn walk(&mut self, s: &Skeleton, parent: Option<u32>, in_action: u8) -> (id: Option<u32>)
        requires
            old(self).wf(),
            drawable(*s),
            old(self).nodes@.len() + decisions(*s) <= u32::MAX,
            can_walk(*old(self), *s, parent, in_action),
        ensures
            final(self).wf(),
            walked(*old(self), *final(self), *s, parent, in_action),
            id == if s is Decision {
                Some(old(self).nodes@.len() as u32)
            } else {
                None
            },
    {
        reveal(sound);
        self.unfold(s, parent, in_action)
    }

    /// The tree of a skeleton.
    pub fn of(s: &Skeleton) -> (tree: BettingTree)
        requires
            drawable(*s),
            decisions(*s) <= u32::MAX,
        ensures
            tree.wf(),
            tree.nodes@.len() == decisions(*s),
            mirrors(tree.nodes@, tree.children@, 0, *s),
    {
        let mut tree = BettingTree::new();
        let _ = tree.walk(s, None, 0);
        tree
    }
}

/// What the actions of `history` lead to in a skeleton; `None` where there is
/// no such action.
pub open spec fn skeleton_at(s: Skeleton, history: Seq<u8>) -> Option<Skeleton>
    decreases history.len(),
{
    if history.len() == 0 {
        Some(s)
    } else {
        match skeleton_at(s, history.drop_last()) {
            Some(Skeleton::Decision { branches, .. }) => if history.last() < branches@.len() {
                Some(branches@[history.last() as int])
            } else {
                None
            },
            _ => None,
        }
    }
}

proof fn lemma_branch_mirrored(
    nodes: Seq<TreeNode>,
    children: Seq<Option<u32>>,
    id: int,
    branches: Seq<Skeleton>,
    n: nat,
    a: nat,
)
    requires
        a < n <= branches.len(),
        branches_mirrored(nodes, children, id, branches, n),
    ensures
        child(children, id, a as int) == if branches[a as int] is Decision {
            Some(branch_id(id, branches, a) as u32)
        } else {
            None
        },
        mirrors(nodes, children, branch_id(id, branches, a), branches[a as int]),
    decreases n,
{
    if a + 1 < n {
        lemma_branch_mirrored(nodes, children, id, branches, (n - 1) as nat, a);
    }
}

/// The tree covers the betting: a betting sequence that comes to a decision
/// leads to a node with that decision's player, street and menu width, and any
/// other sequence leads to no node.
pub proof fn law_tree_covers_the_betting(
    nodes: Seq<TreeNode>,
    children: Seq<Option<u32>>,
    s: Skeleton,
    history: Seq<u8>,
)
    requires
        children.len() == 8 * nodes.len(),
        nodes.len() <= u32::MAX,
        nodes.len() == decisions(s),
        drawable(s),
        mirrors(nodes, children, 0, s),
    ensures
        match skeleton_at(s, history) {
            Some(Skeleton::Decision { visible, to_act, branches }) => {
                &&& node_at(children, history) matches Some(id)
                &&& id < nodes.len()
                &&& nodes[id as int].visible == visible
                &&& nodes[id as int].to_act == to_act
                &&& nodes[id as int].num_actions == branches@.len()
            },
            _ => node_at(children, history) is None,
        },
{
    lemma_covered(nodes, children, s, history);
}

proof fn lemma_covered(
    nodes: Seq<TreeNode>,
    children: Seq<Option<u32>>,
    s: Skeleton,
    history: Seq<u8>,
)
    requires
        children.len() == 8 * nodes.len(),
        nodes.len() <= u32::MAX,
        nodes.len() == decisions(s),
        drawable(s),
        mirrors(nodes, children, 0, s),
    ensures
        match skeleton_at(s, history) {
            Some(t) => if t is Decision {
                &&& node_at(children, history) is Some
                &&& mirrors(nodes, children, node_at(children, history)->0 as int, t)
                &&& drawable(t)
            } else {
                node_at(children, history) is None
            },
            None => node_at(children, history) is None,
        },
    decreases history.len(),
{
    if history.len() > 0 {
        lemma_covered(nodes, children, s, history.drop_last());
        match skeleton_at(s, history.drop_last()) {
            Some(Skeleton::Decision { visible, to_act, branches }) => {
                let id = node_at(children, history.drop_last())->0 as int;
                let a = history.last() as nat;
                let t = Skeleton::Decision { visible, to_act, branches };
                assert(mirrors(nodes, children, id, t));
                if a < branches@.len() {
                    lemma_branch_mirrored(
                        nodes,
                        children,
                        id,
                        branches@,
                        branches@.len(),
                        a,
                    );
                    assert(drawable(branches@[a as int]));
                } else if a < 8 {
                    assert(child(children, id, a as int) is None);
                }
            },
            _ => {},
        }
    }
}

proof fn lemma_slots_laid(
    nodes: Seq<TreeNode>,
    children: Seq<Option<u32>>,
    counts: BucketCounts,
    id: int,
    s: Skeleton,
)
    requires
        0 <= id,
        mirrors(nodes, children, id, s),
    ensures
        block_start(nodes, counts, id + decisions(s)) == block_start(nodes, counts, id) + slots(
            s,
            counts,
        ),
    decreases s, 0nat,
{
    match s {
        Skeleton::Over => {},
        Skeleton::Decision { branches, .. } => {
            lemma_branch_slots_laid(nodes, children, counts, id, branches@, branches@.len());
        },
    }
}

proof fn lemma_branch_slots_laid(
    nodes: Seq<TreeNode>,
    children: Seq<Option<u32>>,
    counts: BucketCounts,
    id: int,
    branches: Seq<Skeleton>,
    n: nat,
)
    requires
        0 <= id,
        n <= branches.len(),
        branches_mirrored(nodes, children, id, branches, n),
    ensures
        block_start(nodes, counts, branch_id(id, branches, n)) == block_start(nodes, counts, id + 1)
            + branch_slots(branches, n, counts),
    decreases branches, n,
{
    if n > 0 {
        let at = branch_id(id, branches, (n - 1) as nat);
        lemma_branch_slots_laid(nodes, children, counts, id, branches, (n - 1) as nat);
        lemma_slots_laid(nodes, children, counts, at, branches[n - 1]);
    }
}

/// The dense index of a tree has exactly the slots that its decisions take.
pub proof fn law_slots_counted(
    nodes: Seq<TreeNode>,
    children: Seq<Option<u32>>,
    counts: BucketCounts,
    s: Skeleton,
)
    requires
        nodes.len() == decisions(s),
        mirrors(nodes, children, 0, s),
    ensures
        block_start(nodes, counts, nodes.len() as int) == slots(s, counts),
{
    lemma_slots_laid(nodes, children, counts, 0, s);
}

proof fn lemma_branch_slots_grow(branches: Seq<Skeleton>, counts: BucketCounts, m: nat, n: nat)
    requires
        m <= n <= branches.len(),
    ensures
        branch_slots(branches, m, counts) <= branch_slots(branches, n, counts),
        m < n ==> branch_slots(branches, m, counts) + slots(branches[m as int], counts)
            <= branch_slots(branches, n, counts),
    decreases n,
{
    if m < n {
        lemma_branch_slots_grow(branches, counts, m, (n - 1) as nat);
    }
}

/// The tree of a skeleton, and its slots, can be numbered.
pub open spec fn indexable(s: Skeleton, counts: BucketCounts) -> bool {
    &&& drawable(s)
    &&& decisions(s) <= u32::MAX
    &&& slots(s, counts) <= u32::MAX
}

impl Skeleton {
    /// The decisions of a skeleton and the slots that they take, `None` where
    /// they cannot be numbered.
    pub fn measure(&self, counts: &BucketCounts) -> (sizes: Option<(u32, u32)>)
        ensures
            sizes is Some <==> indexable(*self, *counts),
            sizes matches Some((nodes, capacity)) ==> nodes == decisions(*self) && capacity
                == slots(*self, *counts),
        decreases self,
    {
        match self {
            Skeleton::Over => Some((0, 0)),
            Skeleton::Decision { visible, to_act, branches } => {
                if branches.len() > MAX_ACTIONS || !(*visible == 0 || (3 <= *visible && *visible <= 5)) {
                    return None;
                }
                let mut nodes: u32 = 1;
                let mut capacity: u32 = counts.for_visible(*visible);
                let mut i: usize = 0;
                while i < branches.len()
                    invariant
                        i <= branches@.len() <= MAX_ACTIONS,
                        *self == (Skeleton::Decision {
                            visible: *visible,
                            to_act: *to_act,
                            branches: *branches,
                        }),
                        *visible == 0 || 3 <= *visible <= 5,
                        nodes == branch_decisions(branches@, i as nat) + 1,
                        capacity == counts.of(*visible) + branch_slots(branches@, i as nat, *counts),
                        forall|k: int| 0 <= k < i ==> drawable(#[trigger] branches@[k]),
                    decreases branches@.len() - i,
                {
                    proof {
                        lemma_branch_decisions_grow(branches@, i as nat, branches@.len());
                        lemma_branch_slots_grow(branches@, *counts, i as nat, branches@.len());
                    }
                    assert(decreases_to!(self => self->branches));
                    let (n, c): (u32, u32) = match branches[i].measure(counts) {
                        Some(sizes) => sizes,
                        None => {
                            assert(drawable(*self) ==> drawable(branches@[i as int]));
                            return None;
                        },
                    };
                    match (nodes.checked_add(n), capacity.checked_add(c)) {
                        (Some(more_nodes), Some(more_capacity)) => {
                            nodes = more_nodes;
                            capacity = more_capacity;
                        },
                        _ => {
                            return None;
                        },
                    }
                    i += 1;
                }
                Some((nodes, capacity))
            },
        }
    }
}

impl BlueprintHoldem {
    /// Enumerate the betting and lay the information sets out densely.
    pub fn build_indexing(&self, betting: &Skeleton) -> (indexing: Indexing)
        requires
            self.abstracted(),
            betting is Decision,
            indexable(*betting, self.bucket_counts()),
        ensures
            indexing.wf(),
            indexing.counts == self.bucket_counts(),
            indexing.tree.nodes@.len() == decisions(*betting),
            mirrors(indexing.tree.nodes@, indexing.tree.children@, 0, *betting),
            indexing.capacity() == slots(*betting, self.bucket_counts()),
    {
        let counts = match (
            self.street_buckets[0],
            self.street_buckets[1],
            self.street_buckets[2],
        ) {
            (Some(flop), Some(turn), Some(river)) => BucketCounts { flop, turn, river },
            _ => BucketCounts { flop: 0, turn: 0, river: 0 },
        };
        let tree = BettingTree::of(betting);
        proof {
            law_slots_counted(tree.nodes@, tree.children@, counts, *betting);
        }
        Indexing::new(tree, counts)
    }

    /// Attach the dense index of the betting of a skeleton deal.
    ///
    /// Requires a **finite raise cap** (the uncapped betting tree is unbounded)
    /// and an abstraction on every post-flop street; call this last, after
    /// [`with_raise_cap`](BlueprintHoldem::with_raise_cap) and
    /// [`with_street_bucket`](BlueprintHoldem::with_street_bucket).
    pub fn with_indexing(self, betting: &Skeleton) -> (game: Self)
        requires
            self.raise_cap != u32::MAX,
            self.abstracted(),
            betting is Decision,
            indexable(*betting, self.bucket_counts()),
        ensures
            game.indexed(),
            game.indexing matches Some(ix) && ix.counts == self.bucket_counts()
                && ix.tree.nodes@.len() == decisions(*betting) && mirrors(
                ix.tree.nodes@,
                ix.tree.children@,
                0,
                *betting,
            ) && ix.capacity() == slots(*betting, self.bucket_counts()),
            game == (BlueprintHoldem { indexing: game.indexing, ..self }),
    {
        let indexing = self.build_indexing(betting);
        BlueprintHoldem { indexing: Some(indexing), ..self }
    }
}

/// Where a history leads in a skeleton, step by step: an action of a decision
/// to its own branch, and nothing follows where the hand is over.
pub proof fn law_betting_leads_step_by_step(s: Skeleton, history: Seq<u8>, action: u8)
    ensures
        skeleton_at(s, Seq::<u8>::empty()) == Some(s),
        skeleton_at(s, history.push(action)) == match skeleton_at(s, history) {
            Some(Skeleton::Decision { branches, .. }) => if action < branches@.len() {
                Some(branches@[action as int])
            } else {
                None
            },
            _ => None,
        },
{
    assert(history.push(action).drop_last() =~= history);
}

proof fn lemma_below_branch(s: Skeleton, a: u8, history: Seq<u8>)
    requires
        s is Decision,
        a < s->branches@.len(),
    ensures
        skeleton_at(s, seq![a] + history) == skeleton_at(s->branches@[a as int], history),
    decreases history.len(),
{
    if history.len() == 0 {
        assert(seq![a] + history =~= Seq::<u8>::empty().push(a));
        law_betting_leads_step_by_step(s, Seq::<u8>::empty(), a);
    } else {
        lemma_below_branch(s, a, history.drop_last());
        assert((seq![a] + history).drop_last() =~= seq![a] + history.drop_last());
    }
}

/// Whether a history comes to no decision, or to one that has at most eight
/// actions and shows as many cards as a street shows.
pub open spec fn fits_at(s: Skeleton, history: Seq<u8>) -> bool {
    match skeleton_at(s, history) {
        Some(Skeleton::Decision { visible, branches, .. }) => branches@.len() <= 8 && (visible == 0
            || visible == 3 || visible == 4 || visible == 5),
        _ => true,
    }
}

/// A skeleton can be drawn exactly where each of its decisions, wherever the
/// betting leads, has at most eight actions and shows as many cards as a street
/// shows.
pub proof fn law_drawable_everywhere(s: Skeleton)
    ensures
        drawable(s) <==> forall|h: Seq<u8>| #[trigger] fits_at(s, h),
{
    if drawable(s) {
        assert forall|h: Seq<u8>| #[trigger] fits_at(s, h) by {
            lemma_drawable_at(s, h);
        }
    }
    if forall|h: Seq<u8>| #[trigger] fits_at(s, h) {
        lemma_fits_drawable(s);
    }
}

proof fn lemma_drawable_at(s: Skeleton, history: Seq<u8>)
    requires
        drawable(s),
    ensures
        skeleton_at(s, history) matches Some(t) ==> drawable(t),
    decreases history.len(),
{
    if history.len() > 0 {
        lemma_drawable_at(s, history.drop_last());
        match skeleton_at(s, history.drop_last()) {
            Some(Skeleton::Decision { branches, .. }) => {
                if history.last() < branches@.len() {
                    assert(drawable(branches@[history.last() as int]));
                }
            },
            _ => {},
        }
    }
}

proof fn lemma_fits_drawable(s: Skeleton)
    requires
        forall|h: Seq<u8>| #[trigger] fits_at(s, h),
    ensures
        drawable(s),
    decreases s,
{
    if s is Decision {
        let branches = s->branches@;
        assert(fits_at(s, Seq::<u8>::empty()));
        assert forall|i: int| 0 <= i < branches.len() implies drawable(#[trigger] branches[i]) by {
            let a = i as u8;
            assert forall|h: Seq<u8>| #[trigger] fits_at(branches[i], h) by {
                lemma_below_branch(s, a, h);
                assert(fits_at(s, seq![a] + h));
            }
            lemma_fits_drawable(branches[i]);
        }
    }
}

/// A skeleton's decisions and slots: none where the hand is over; otherwise the
/// top decision, with a slot per bucket of its street, and those of the
/// branches together.
pub proof fn law_sizes_add_up(s: Skeleton, counts: BucketCounts, n: nat)
    requires
        s is Decision,
        n < s->branches@.len(),
    ensures
        decisions(Skeleton::Over) == 0 && slots(Skeleton::Over, counts) == 0,
        branch_decisions(s->branches@, 0) == 0 && branch_slots(s->branches@, 0, counts) == 0,
        branch_decisions(s->branches@, n + 1) == branch_decisions(s->branches@, n) + decisions(
            s->branches@[n as int],
        ),
        branch_slots(s->branches@, n + 1, counts) == branch_slots(s->branches@, n, counts) + slots(
            s->branches@[n as int],
            counts,
        ),
        decisions(s) == 1 + branch_decisions(s->branches@, s->branches@.len()),
        slots(s, counts) == counts.of(s->visible) + branch_slots(
            s->branches@,
            s->branches@.len(),
            counts,
        ),
{
}

/// A skeleton can be indexed where it can be drawn and its decisions and slots
/// can be counted in 32 bits.
pub proof fn law_indexable_in_32_bits(s: Skeleton, counts: BucketCounts)
    ensures
        indexable(s, counts) <==> drawable(s) && decisions(s) < 0x1_0000_0000 && slots(s, counts)
            < 0x1_0000_0000,
{
}

/// Decisions are numbered depth first: the first branch of decision `id` starts
/// at the next number, and each later branch after all the decisions of those
/// before it.  An action that ends the hand leads to no decision.
pub proof fn law_numbered_depth_first(
    nodes: Seq<TreeNode>,
    children: Seq<Option<u32>>,
    id: int,
    s: Skeleton,
    a: nat,
)
    requires
        s is Decision,
        mirrors(nodes, children, id, s),
        a < s->branches@.len(),
    ensures
        s->branches@[a as int] is Decision ==> children[8 * id + a] == Some(
            (id + 1 + branch_decisions(s->branches@, a)) as u32,
        ),
        s->branches@[a as int] is Over ==> children[8 * id + a] is None,
        mirrors(
            nodes,
            children,
            id + 1 + branch_decisions(s->branches@, a),
            s->branches@[a as int],
        ),
{
    lemma_branch_mirrored(nodes, children, id, s->branches@, s->branches@.len(), a);
}

/// A walk adds the skeleton's decisions after those that were there, and of
/// these changes nothing but the slot that it starts from.
pub proof fn law_walks_only_add(
    before: BettingTree,
    after: BettingTree,
    s: Skeleton,
    parent: Option<u32>,
    in_action: u8,
    k: int,
    a: int,
)
    requires
        walked(before, after, s, parent, in_action),
        0 <= k < before.nodes@.len(),
        0 <= a < 8,
    ensures
        after.nodes@.len() == before.nodes@.len() + decisions(s),
        after.nodes@[k] == before.nodes@[k],
        !(s is Decision && parent == Some(k as u32) && a == in_action) ==> after.children@[8 * k + a]
            == before.children@[8 * k + a],
        s is Decision && parent == Some(k as u32) && a == in_action ==> after.children@[8 * k + a]
            == Some(before.nodes@.len() as u32),
        mirrors(after.nodes@, after.children@, before.nodes@.len() as int, s),
{
    assert(child(after.children@, k, a) == after.children@[8 * k + a]);
    assert(child(before.children@, k, a) == before.children@[8 * k + a]);
    assert(after.nodes@[k] == before.nodes@[k]);
}

} // verus!
