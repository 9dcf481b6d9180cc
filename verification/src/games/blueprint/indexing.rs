//! The dense information-set index: the abstract betting tree, enumerated once.
//!
//! Legal actions depend only on *public* chip state, never on card identities,
//! so a single walk of the engine enumerates every reachable betting sequence.
//! Each decision node gets a contiguous block of one slot per card bucket of its
//! street, giving the bijection `(sequence, bucket) → dense index` that a flat
//! regret store needs — and [`Indexing::info_key_at`] inverts it, so a strategy
//! trained on the flat store exports under the ordinary information keys.

use super::cursor::BlueprintCursor;
use super::keys::key_bytes;
use super::BlueprintHoldem;
use crate::games::IndexedGame;
use crate::util::hash::{fnv_hash, Fnv1a};
use vstd::prelude::*;

verus! {

/// Child slots of a node: more than any betting menu holds.
pub const MAX_ACTIONS: usize = 8;

/// The starting-hand classes that preflop situations fall into.
pub const PREFLOP_CLASSES: u32 = 169;

/// A decision of the betting tree.
#[derive(Debug, Clone, Copy, PartialEq, Eq, Structural)]
pub struct TreeNode {
    /// Board cards visible: `0` preflop, `3` flop, `4` turn, `5` river.
    pub visible: u8,
    /// The player to act.
    pub to_act: u8,
    /// Width of the (capped) menu.
    pub num_actions: u8,
    /// The decision before this one, `None` at the root.
    pub parent: Option<u32>,
    /// The action that leads here from the parent.
    pub in_action: u8,
}

/// The decisions of a betting tree, each after its parent.
pub struct BettingTree {
    pub nodes: Vec<TreeNode>,
    /// [`MAX_ACTIONS`] slots per node: the decision after each action, `None`
    /// where the action ends the hand.
    pub children: Vec<Option<u32>>,
}

/// The node that action `a` leads to from node `id`.
pub open spec fn child(children: Seq<Option<u32>>, id: int, a: int) -> Option<u32> {
    children[8 * id + a]
}

/// Parents and children agree, and a parent comes before its children.
pub open spec fn tree_wf(nodes: Seq<TreeNode>, children: Seq<Option<u32>>) -> bool {
    &&& nodes.len() <= u32::MAX
    &&& children.len() == 8 * nodes.len()
    &&& forall|id: int|
        0 <= id < nodes.len() ==> {
            &&& (#[trigger] nodes[id]).num_actions <= MAX_ACTIONS
            &&& (nodes[id].visible == 0 || 3 <= nodes[id].visible <= 5)
            &&& (nodes[id].parent is None <==> id == 0)
            &&& nodes[id].parent matches Some(p) ==> {
                &&& p < id
                &&& nodes[id].in_action < nodes[p as int].num_actions
                &&& child(children, p as int, nodes[id].in_action as int) == Some(id as u32)
            }
        }
    &&& forall|id: int, a: int|
        0 <= id < nodes.len() && 0 <= a < 8 ==> (#[trigger] child(children, id, a) matches Some(
            c,
        ) ==> {
            &&& id < c < nodes.len()
            &&& nodes[c as int].parent == Some(id as u32)
            &&& nodes[c as int].in_action == a
        })
}

/// The actions that lead to node `id` from the root.
pub open spec fn history_of(nodes: Seq<TreeNode>, id: int) -> Seq<u8>
    decreases id,
{
    match nodes[id].parent {
        Some(p) => if p < id {
            history_of(nodes, p as int).push(nodes[id].in_action)
        } else {
            Seq::empty()
        },
        None => Seq::empty(),
    }
}

/// The node that `history` leads to from the root.
pub open spec fn node_at(children: Seq<Option<u32>>, history: Seq<u8>) -> Option<u32>
    decreases history.len(),
{
    if history.len() == 0 {
        if children.len() > 0 {
            Some(0u32)
        } else {
            None
        }
    } else {
        match node_at(children, history.drop_last()) {
            Some(p) => if history.last() < 8 {
                child(children, p as int, history.last() as int)
            } else {
                None
            },
            None => None,
        }
    }
}

/// A node's history leads to the node, and what a history leads to has that
/// history: nodes and betting sequences are one to one.
pub proof fn law_histories_name_nodes(
    nodes: Seq<TreeNode>,
    children: Seq<Option<u32>>,
    id: int,
    history: Seq<u8>,
)
    requires
        tree_wf(nodes, children),
        0 <= id < nodes.len(),
    ensures
        node_at(children, history_of(nodes, id)) == Some(id as u32),
        node_at(children, history) == Some(id as u32) ==> history == history_of(nodes, id),
{
    lemma_history_leads(nodes, children, id);
    if node_at(children, history) == Some(id as u32) {
        lemma_leads_from_history(nodes, children, history);
    }
}

proof fn lemma_history_leads(nodes: Seq<TreeNode>, children: Seq<Option<u32>>, id: int)
    requires
        tree_wf(nodes, children),
        0 <= id < nodes.len(),
    ensures
        node_at(children, history_of(nodes, id)) == Some(id as u32),
    decreases id,
{
    match nodes[id].parent {
        Some(p) => {
            lemma_history_leads(nodes, children, p as int);
            assert(history_of(nodes, id).drop_last() =~= history_of(nodes, p as int));
        },
        None => {},
    }
}

proof fn lemma_leads_from_history(
    nodes: Seq<TreeNode>,
    children: Seq<Option<u32>>,
    history: Seq<u8>,
)
    requires
        tree_wf(nodes, children),
    ensures
        node_at(children, history) matches Some(id) ==> id < nodes.len() && history == history_of(
            nodes,
            id as int,
        ),
    decreases history.len(),
{
    if history.len() == 0 {
        if children.len() > 0 {
            assert(history =~= history_of(nodes, 0));
        }
    } else {
        lemma_leads_from_history(nodes, children, history.drop_last());
        match node_at(children, history) {
            Some(id) => {
                let p = node_at(children, history.drop_last())->0;
                assert(child(children, p as int, history.last() as int) == Some(id));
                assert(history =~= history.drop_last().push(history.last()));
            },
            None => {},
        }
    }
}

impl BettingTree {
    /// Parents and children agree; see [`tree_wf`].
    pub open spec fn wf(&self) -> bool {
        tree_wf(self.nodes@, self.children@)
    }

    /// A tree without nodes.
    pub fn new() -> (tree: BettingTree)
        ensures
            tree.wf(),
            tree.nodes@ == Seq::<TreeNode>::empty(),
            tree.children@ == Seq::<Option<u32>>::empty(),
    {
        BettingTree { nodes: Vec::new(), children: Vec::new() }
    }

    /// Record the decision that `in_action` leads to from `parent` (neither
    /// matters for the first node, the root) and return its number.
    pub fn add_node(
        &mut self,
        parent: Option<u32>,
        in_action: u8,
        visible: u8,
        to_act: u8,
        num_actions: u8,
    ) -> (id: u32)
        requires
            old(self).wf(),
            old(self).nodes@.len() < u32::MAX,
            num_actions <= MAX_ACTIONS,
            visible == 0 || 3 <= visible <= 5,
            parent is None <==> old(self).nodes@.len() == 0,
            parent matches Some(p) ==> p < old(self).nodes@.len() && in_action < old(
                self,
            ).nodes@[p as int].num_actions && child(
                old(self).children@,
                p as int,
                in_action as int,
            ) is None,
        ensures
            final(self).wf(),
            id == old(self).nodes@.len(),
            final(self).nodes@ == old(self).nodes@.push(
                TreeNode { visible, to_act, num_actions, parent, in_action },
            ),
            forall|p: int, a: int|
                0 <= p < old(self).nodes@.len() && 0 <= a < 8 ==> #[trigger] child(
                    final(self).children@,
                    p,
                    a,
                ) == if parent == Some(p as u32) && a == in_action {
                    Some(id)
                } else {
                    child(old(self).children@, p, a)
                },
            forall|a: int|
                0 <= a < 8 ==> #[trigger] child(final(self).children@, id as int, a) is None,
    {
        let ghost nodes = self.nodes@;
        let ghost children = self.children@;
        let id: u32 = self.nodes.len() as u32;
        match parent {
            Some(p) => {
                proof {
                    assert(nodes[p as int].num_actions <= MAX_ACTIONS);
                }
                let slots: usize = self.children.len();
                assert(8 * p < slots);
                let slot: usize = p as usize * 8 + in_action as usize;
                self.children.set(slot, Some(id));
            },
            None => {},
        }
        let ghost linked = self.children@;
        self.nodes.push(TreeNode { visible, to_act, num_actions, parent, in_action });
        let mut a: usize = 0;
        while a < 8
            invariant
                a <= 8,
                linked.len() == 8 * id,
                self.nodes@ == nodes.push(
                    TreeNode { visible, to_act, num_actions, parent, in_action },
                ),
                self.children@.len() == 8 * id + a,
                forall|k: int| 0 <= k < 8 * id ==> #[trigger] self.children@[k] == linked[k],
                forall|k: int| 8 * id <= k < 8 * id + a ==> #[trigger] self.children@[k] is None,
            decreases 8 - a,
        {
            self.children.push(None);
            a += 1;
        }
        proof {
            let after = self.nodes@;
            let kids = self.children@;
            assert forall|p: int, a: int|
                0 <= p < nodes.len() && 0 <= a < 8 implies #[trigger] child(kids, p, a)
                == if parent == Some(p as u32) && a == in_action {
                Some(id)
            } else {
                child(children, p, a)
            } by {
                assert(kids[8 * p + a] == linked[8 * p + a]);
            }
            assert forall|k: int| 0 <= k < after.len() implies {
                &&& (#[trigger] after[k]).num_actions <= MAX_ACTIONS
                &&& (after[k].visible == 0 || 3 <= after[k].visible <= 5)
                &&& (after[k].parent is None <==> k == 0)
                &&& after[k].parent matches Some(p) ==> {
                    &&& p < k
                    &&& after[k].in_action < after[p as int].num_actions
                    &&& child(kids, p as int, after[k].in_action as int) == Some(k as u32)
                }
            } by {
                if k < nodes.len() {
                    assert(after[k] == nodes[k]);
                    match nodes[k].parent {
                        Some(p) => {
                            assert(after[p as int] == nodes[p as int]);
                            assert(nodes[p as int].num_actions <= MAX_ACTIONS);
                            assert(child(children, p as int, nodes[k].in_action as int) == Some(
                                k as u32,
                            ));
                            assert(child(kids, p as int, nodes[k].in_action as int) == Some(
                                k as u32,
                            ));
                        },
                        None => {},
                    }
                } else {
                    match parent {
                        Some(p) => {
                            assert(nodes[p as int].num_actions <= MAX_ACTIONS);
                            assert(after[p as int] == nodes[p as int]);
                            assert(child(kids, p as int, in_action as int) == Some(id));
                        },
                        None => {},
                    }
                }
            }
            assert forall|k: int, a: int|
                0 <= k < after.len() && 0 <= a < 8 implies (#[trigger] child(kids, k, a) matches Some(
                c,
            ) ==> {
                &&& k < c < after.len()
                &&& after[c as int].parent == Some(k as u32)
                &&& after[c as int].in_action == a
            }) by {
                if k < nodes.len() {
                    assert(child(kids, k, a) == if parent == Some(k as u32) && a == in_action {
                        Some(id)
                    } else {
                        child(children, k, a)
                    });
                } else {
                    assert(kids[8 * k + a] is None);
                }
            }
        }
        id
    }

    /// The node that `history` leads to.
    pub fn find(&self, history: &[u8]) -> (id: u32)
        requires
            self.wf(),
            node_at(self.children@, history@) is Some,
        ensures
            Some(id) == node_at(self.children@, history@),
            id < self.nodes@.len(),
    {
        let mut id: u32 = 0;
        let mut i: usize = 0;
        let slots: usize = self.children.len();
        proof {
            lemma_leads_from_history(self.nodes@, self.children@, history@);
            lemma_prefix_leads(self.children@, history@, 0);
            assert(history@.take(0) =~= Seq::<u8>::empty());
        }
        while i < history.len()
            invariant
                i <= history@.len(),
                self.wf(),
                slots == self.children@.len(),
                node_at(self.children@, history@) is Some,
                node_at(self.children@, history@.take(i as int)) == Some(id),
                id < self.nodes@.len(),
            decreases history@.len() - i,
        {
            proof {
                lemma_prefix_leads(self.children@, history@, i + 1);
                lemma_leads_from_history(self.nodes@, self.children@, history@.take(i + 1));
                assert(history@.take(i + 1).drop_last() =~= history@.take(i as int));
                assert(history@.take(i + 1).last() == history@[i as int]);
            }
            match self.children[id as usize * 8 + history[i] as usize] {
                Some(c) => {
                    id = c;
                },
                None => {
                    assert(false);
                },
            }
            i += 1;
        }
        assert(history@.take(i as int) =~= history@);
        id
    }

    /// The actions that lead to node `id` from the root.
    pub fn history(&self, id: u32) -> (history: Vec<u8>)
        requires
            self.wf(),
            id < self.nodes@.len(),
        ensures
            history@ == history_of(self.nodes@, id as int),
    {
        let mut backwards: Vec<u8> = Vec::new();
        let mut n: u32 = id;
        let mut more: bool = true;
        proof {
            assert(backwards@.reverse() =~= Seq::<u8>::empty());
            assert(history_of(self.nodes@, n as int) + Seq::<u8>::empty() =~= history_of(
                self.nodes@,
                n as int,
            ));
        }
        while more
            invariant
                self.wf(),
                n < self.nodes@.len(),
                more ==> history_of(self.nodes@, id as int) == history_of(self.nodes@, n as int)
                    + backwards@.reverse(),
                !more ==> history_of(self.nodes@, id as int) == backwards@.reverse(),
            decreases (if more { n as int + 1 } else { 0 }),
        {
            let node: TreeNode = self.nodes[n as usize];
            match node.parent {
                Some(p) => {
                    let ghost before = backwards@;
                    backwards.push(node.in_action);
                    proof {
                        assert(history_of(self.nodes@, n as int) + before.reverse() =~= history_of(
                            self.nodes@,
                            p as int,
                        ) + backwards@.reverse());
                    }
                    n = p;
                },
                None => {
                    proof {
                        assert(history_of(self.nodes@, n as int) + backwards@.reverse()
                            =~= backwards@.reverse());
                    }
                    more = false;
                },
            }
        }
        let mut history: Vec<u8> = Vec::new();
        let mut i: usize = backwards.len();
        while i > 0
            invariant
                i <= backwards@.len(),
                history@ == backwards@.reverse().take(backwards@.len() - i),
            decreases i,
        {
            i -= 1;
            history.push(backwards[i]);
            assert(history@ =~= backwards@.reverse().take(backwards@.len() - i));
        }
        assert(history@ =~= backwards@.reverse());
        history
    }
}

proof fn lemma_prefix_leads(children: Seq<Option<u32>>, history: Seq<u8>, k: int)
    requires
        node_at(children, history) is Some,
        0 <= k <= history.len(),
    ensures
        node_at(children, history.take(k)) is Some,
    decreases history.len(),
{
    if k == history.len() {
        assert(history.take(k) =~= history);
    } else {
        lemma_prefix_leads(children, history.drop_last(), k);
        assert(history.drop_last().take(k) =~= history.take(k));
    }
}

/// Card buckets per street.
#[derive(Debug, Clone, Copy, PartialEq, Eq, Structural)]
pub struct BucketCounts {
    pub flop: u32,
    pub turn: u32,
    pub river: u32,
}

impl BucketCounts {
    /// Buckets of the street that shows `visible` board cards.
    pub open spec fn of(self, visible: u8) -> u32 {
        if visible == 0 {
            PREFLOP_CLASSES
        } else if visible == 3 {
            self.flop
        } else if visible == 4 {
            self.turn
        } else {
            self.river
        }
    }

    /// Buckets of the street that shows `visible` board cards.
    pub fn for_visible(&self, visible: u8) -> (count: u32)
        requires
            visible == 0 || 3 <= visible <= 5,
        ensures
            count == self.of(visible),
    {
        if visible == 0 {
            PREFLOP_CLASSES
        } else if visible == 3 {
            self.flop
        } else if visible == 4 {
            self.turn
        } else {
            self.river
        }
    }
}

/// Where the block of node `id` starts: after the blocks of all nodes before.
pub open spec fn block_start(nodes: Seq<TreeNode>, counts: BucketCounts, id: int) -> nat
    decreases id,
{
    if id <= 0 {
        0
    } else {
        block_start(nodes, counts, id - 1) + counts.of(nodes[id - 1].visible) as nat
    }
}

proof fn lemma_blocks_in_order(nodes: Seq<TreeNode>, counts: BucketCounts, i: int, j: int)
    requires
        0 <= i <= j,
    ensures
        block_start(nodes, counts, i) <= block_start(nodes, counts, j),
        i < j ==> block_start(nodes, counts, i) + counts.of(nodes[i].visible) <= block_start(
            nodes,
            counts,
            j,
        ),
    decreases j,
{
    if i < j {
        lemma_blocks_in_order(nodes, counts, i, j - 1);
    }
}

/// Whether `index` is the slot of `bucket` at node `id`.
pub open spec fn is_slot(
    nodes: Seq<TreeNode>,
    counts: BucketCounts,
    id: int,
    bucket: int,
    index: int,
) -> bool {
    &&& 0 <= id < nodes.len()
    &&& 0 <= bucket < counts.of(nodes[id].visible)
    &&& index == block_start(nodes, counts, id) + bucket
}

/// Slots are one to one with pairs of decision and bucket, and lie below the
/// capacity.
pub proof fn law_slots_partition(
    nodes: Seq<TreeNode>,
    counts: BucketCounts,
    id: int,
    bucket: int,
    id2: int,
    bucket2: int,
    index: int,
)
    requires
        is_slot(nodes, counts, id, bucket, index),
        is_slot(nodes, counts, id2, bucket2, index),
    ensures
        id == id2,
        bucket == bucket2,
        index < block_start(nodes, counts, nodes.len() as int),
{
    lemma_blocks_in_order(nodes, counts, id, nodes.len() as int);
    if id < id2 {
        lemma_blocks_in_order(nodes, counts, id, id2);
    } else if id2 < id {
        lemma_blocks_in_order(nodes, counts, id2, id);
    }
}

/// A laid-out betting tree.
pub struct Indexing {
    pub tree: BettingTree,
    pub counts: BucketCounts,
    /// Per node: the first slot of its block.
    pub seq_offset: Vec<u32>,
    /// Per slot: the number of legal actions.
    pub actions_by_index: Vec<u8>,
}

impl Indexing {
    /// The layout fits the tree.
    pub open spec fn wf(&self) -> bool {
        let nodes = self.tree.nodes@;
        &&& self.tree.wf()
        &&& nodes.len() > 0
        &&& self.seq_offset@.len() == nodes.len()
        &&& self.actions_by_index@.len() == self.capacity()
        &&& self.capacity() <= u32::MAX
        &&& forall|id: int|
            0 <= id < nodes.len() ==> #[trigger] self.seq_offset@[id] == block_start(
                nodes,
                self.counts,
                id,
            )
        &&& forall|id: int, bucket: int, index: int| #[trigger]
            is_slot(nodes, self.counts, id, bucket, index) ==> self.actions_by_index@[index]
                == nodes[id].num_actions
    }

    /// Total number of slots.
    pub open spec fn capacity(&self) -> nat {
        block_start(self.tree.nodes@, self.counts, self.tree.nodes@.len() as int)
    }

    /// Lay out the tree: one block per decision, one slot per bucket.
    pub fn new(tree: BettingTree, counts: BucketCounts) -> (indexing: Indexing)
        requires
            tree.wf(),
            tree.nodes@.len() > 0,
            block_start(tree.nodes@, counts, tree.nodes@.len() as int) <= u32::MAX,
        ensures
            indexing.wf(),
            indexing.tree == tree,
            indexing.counts == counts,
    {
        let ghost nodes = tree.nodes@;
        let mut seq_offset: Vec<u32> = Vec::new();
        let mut actions_by_index: Vec<u8> = Vec::new();
        let mut cap: u32 = 0;
        let mut node: usize = 0;
        while node < tree.nodes.len()
            invariant
                nodes == tree.nodes@,
                tree.wf(),
                node <= nodes.len(),
                block_start(nodes, counts, nodes.len() as int) <= u32::MAX,
                cap == block_start(nodes, counts, node as int),
                seq_offset@.len() == node,
                actions_by_index@.len() == cap,
                forall|id: int|
                    0 <= id < node ==> #[trigger] seq_offset@[id] == block_start(nodes, counts, id),
                forall|id: int, bucket: int, index: int|
                    id < node && #[trigger] is_slot(nodes, counts, id, bucket, index) ==> index
                        < cap && actions_by_index@[index] == nodes[id].num_actions,
            decreases nodes.len() - node,
        {
            seq_offset.push(cap);
            let n: TreeNode = tree.nodes[node];
            let count: u32 = counts.for_visible(n.visible);
            proof {
                lemma_blocks_in_order(nodes, counts, node as int, nodes.len() as int);
            }
            let ghost start = cap;
            let mut k: u32 = 0;
            while k < count
                invariant
                    k <= count,
                    start == cap,
                    node < nodes.len(),
                    nodes[node as int] == n,
                    count == counts.of(n.visible),
                    start == block_start(nodes, counts, node as int),
                    actions_by_index@.len() == start + k,
                    forall|id: int, bucket: int, index: int|
                        id < node && #[trigger] is_slot(nodes, counts, id, bucket, index) ==> index
                            < start && actions_by_index@[index] == nodes[id].num_actions,
                    forall|index: int|
                        start <= index < start + k ==> #[trigger] actions_by_index@[index]
                            == n.num_actions,
                decreases count - k,
            {
                actions_by_index.push(n.num_actions);
                k += 1;
            }
            cap = cap + count;
            node += 1;
            assert forall|id: int, bucket: int, index: int|
                id < node && #[trigger] is_slot(nodes, counts, id, bucket, index) implies index
                < cap && actions_by_index@[index] == nodes[id].num_actions by {
                if id < node - 1 {
                    assert(index < start);
                }
            }
        }
        Indexing { tree, counts, seq_offset, actions_by_index }
    }

    /// The slot of `bucket` at the decision that `history` leads to.
    pub fn index(&self, history: &[u8], bucket: usize) -> (index: usize)
        requires
            self.wf(),
            node_at(self.tree.children@, history@) matches Some(id) && bucket < self.counts.of(
                self.tree.nodes@[id as int].visible,
            ),
        ensures
            is_slot(
                self.tree.nodes@,
                self.counts,
                node_at(self.tree.children@, history@)->0 as int,
                bucket as int,
                index as int,
            ),
            index < self.capacity(),
    {
        let id: u32 = self.tree.find(history);
        proof {
            lemma_blocks_in_order(
                self.tree.nodes@,
                self.counts,
                id as int,
                self.tree.nodes@.len() as int,
            );
        }
        self.seq_offset[id as usize] as usize + bucket
    }

    /// The node that owns a slot: the last whose block starts at or below it.
    fn owner(&self, index: usize) -> (id: usize)
        requires
            self.wf(),
            index < self.capacity(),
        ensures
            id < self.tree.nodes@.len(),
            is_slot(
                self.tree.nodes@,
                self.counts,
                id as int,
                index - block_start(self.tree.nodes@, self.counts, id as int),
                index as int,
            ),
    {
        let mut lo: usize = 0;
        let mut hi: usize = self.seq_offset.len();
        while hi - lo > 1
            invariant
                self.wf(),
                index < self.capacity(),
                lo < hi <= self.tree.nodes@.len(),
                block_start(self.tree.nodes@, self.counts, lo as int) <= index,
                index < block_start(self.tree.nodes@, self.counts, hi as int),
            decreases hi - lo,
        {
            let mid: usize = lo + (hi - lo) / 2;
            if self.seq_offset[mid] as usize <= index {
                lo = mid;
            } else {
                hi = mid;
            }
        }
        lo
    }

    /// The ordinary information key of a slot, so that what is trained on the
    /// flat store exports under the same keys.
    #[verifier::rlimit(40)]
    #[verifier::spinoff_prover]
    pub fn info_key_at(&self, index: usize) -> (key: u64)
        requires
            self.wf(),
            index < self.capacity(),
        ensures
            forall|id: int, bucket: int| #[trigger]
                is_slot(self.tree.nodes@, self.counts, id, bucket, index as int) ==> key
                    == fnv_hash(
                    key_bytes(
                        self.tree.nodes@[id].to_act,
                        self.tree.nodes@[id].visible,
                        bucket as u64,
                        history_of(self.tree.nodes@, id),
                    ),
                ),
            exists|id: int, bucket: int| #[trigger]
                is_slot(self.tree.nodes@, self.counts, id, bucket, index as int),
    {
        let node: usize = self.owner(index);
        let bucket: u64 = (index - self.seq_offset[node] as usize) as u64;
        let history: Vec<u8> = self.tree.history(node as u32);
        let n: TreeNode = self.tree.nodes[node];
        assert(is_slot(self.tree.nodes@, self.counts, node as int, bucket as int, index as int));
        let mut h = Fnv1a::new();
        h.write(n.to_act);
        h.write(n.visible);
        h.write_u64(bucket);
        h.write(0xFF);
        h.write_all(history.as_slice());
        proof {
            assert(h@ =~= key_bytes(n.to_act, n.visible, bucket, history@));
            assert forall|id: int, b: int| #[trigger]
                is_slot(self.tree.nodes@, self.counts, id, b, index as int) implies id == node && b
                == bucket by {
                law_slots_partition(
                    self.tree.nodes@,
                    self.counts,
                    id,
                    b,
                    node as int,
                    bucket as int,
                    index as int,
                );
            }
        }
        h.finish()
    }

    /// Number of legal actions at a slot.
    pub fn actions_at(&self, index: usize) -> (actions: usize)
        requires
            self.wf(),
            index < self.capacity(),
        ensures
            actions == self.actions_by_index@[index as int],
            forall|id: int, bucket: int| #[trigger]
                is_slot(self.tree.nodes@, self.counts, id, bucket, index as int) ==> actions
                    == self.tree.nodes@[id].num_actions,
    {
        self.actions_by_index[index] as usize
    }
}

/// Exporting inverts indexing: the slot of `bucket` at the decision after
/// `history` belongs to that decision and that bucket alone, so
/// [`Indexing::info_key_at`] gives it the key of exactly this situation.
pub proof fn law_export_inverts_index(
    nodes: Seq<TreeNode>,
    children: Seq<Option<u32>>,
    counts: BucketCounts,
    history: Seq<u8>,
    bucket: int,
    index: int,
    id: int,
    bucket2: int,
)
    requires
        tree_wf(nodes, children),
        node_at(children, history) matches Some(n) && is_slot(
            nodes,
            counts,
            n as int,
            bucket,
            index,
        ),
        is_slot(nodes, counts, id, bucket2, index),
    ensures
        node_at(children, history) == Some(id as u32),
        history_of(nodes, id) == history,
        bucket2 == bucket,
{
    let n = node_at(children, history)->0;
    law_slots_partition(nodes, counts, n as int, bucket, id, bucket2, index);
    law_histories_name_nodes(nodes, children, id, history);
}

impl BlueprintHoldem {
    /// Every post-flop street has a card abstraction.
    pub open spec fn abstracted(&self) -> bool {
        &&& self.street_buckets[0] is Some
        &&& self.street_buckets[1] is Some
        &&& self.street_buckets[2] is Some
    }

    /// The bucket counts of the card abstraction.
    pub open spec fn bucket_counts(&self) -> BucketCounts {
        BucketCounts {
            flop: self.street_buckets[0]->0,
            turn: self.street_buckets[1]->0,
            river: self.street_buckets[2]->0,
        }
    }

    /// The ordinary information key of a dense index; see
    /// [`Indexing::info_key_at`].
    pub fn info_key_at(&self, index: usize) -> (key: u64)
        requires
            self.indexed(),
            index < self.capacity(),
        ensures
            forall|id: int, bucket: int| #[trigger]
                is_slot(
                    self.indexing->0.tree.nodes@,
                    self.indexing->0.counts,
                    id,
                    bucket,
                    index as int,
                ) ==> key == fnv_hash(
                    key_bytes(
                        self.indexing->0.tree.nodes@[id].to_act,
                        self.indexing->0.tree.nodes@[id].visible,
                        bucket as u64,
                        history_of(self.indexing->0.tree.nodes@, id),
                    ),
                ),
            exists|id: int, bucket: int| #[trigger]
                is_slot(
                    self.indexing->0.tree.nodes@,
                    self.indexing->0.counts,
                    id,
                    bucket,
                    index as int,
                ),
    {
        match &self.indexing {
            Some(indexing) => indexing.info_key_at(index),
            None => 0,
        }
    }
}

impl IndexedGame for BlueprintHoldem {
    type Cursor = BlueprintCursor;

    open spec fn indexed(&self) -> bool {
        self.indexing matches Some(indexing) && indexing.wf()
    }

    open spec fn capacity(&self) -> nat {
        self.indexing->0.capacity()
    }

    open spec fn has_info_set(&self, cursor: &BlueprintCursor, bucket: usize) -> bool {
        let indexing = self.indexing->0;
        &&& cursor@.gs is Some
        &&& node_at(indexing.tree.children@, cursor@.history) matches Some(id) && bucket
            < indexing.counts.of(indexing.tree.nodes@[id as int].visible)
    }

    open spec fn index_of(&self, cursor: &BlueprintCursor, bucket: usize) -> nat {
        let indexing = self.indexing->0;
        let id = node_at(indexing.tree.children@, cursor@.history)->0;
        block_start(indexing.tree.nodes@, indexing.counts, id as int) + bucket as nat
    }

    open spec fn width(&self, index: nat) -> nat {
        self.indexing->0.actions_by_index@[index as int] as nat
    }

    fn info_set_capacity(&self) -> (capacity: usize) {
        match &self.indexing {
            Some(indexing) => indexing.actions_by_index.len(),
            None => 0,
        }
    }

    fn info_set_index(&self, cursor: &BlueprintCursor, bucket: usize) -> (index: usize) {
        match &self.indexing {
            Some(indexing) => indexing.index(cursor.history.as_slice(), bucket),
            None => 0,
        }
    }

    fn actions_at(&self, index: usize) -> (actions: usize) {
        match &self.indexing {
            Some(indexing) => indexing.actions_at(index),
            None => 0,
        }
    }
}

/// A history leads on from where all but its last action leads: to what stands
/// in that action's one of the node's eight child slots.  The empty history
/// leads to the first node.
pub proof fn law_histories_lead_step_by_step(
    children: Seq<Option<u32>>,
    history: Seq<u8>,
    action: u8,
)
    ensures
        node_at(children, Seq::<u8>::empty()) == if children.len() > 0 {
            Some(0u32)
        } else {
            None
        },
        node_at(children, history) is None ==> node_at(children, history.push(action)) is None,
        node_at(children, history) matches Some(id) ==> node_at(children, history.push(action))
            == if action < 8 {
            children[8 * id + action]
        } else {
            None
        },
{
    assert(history.push(action).drop_last() =~= history);
}

/// A node's history is its parent's and the action that leads to it; the root's
/// is empty.
pub proof fn law_histories_grow(nodes: Seq<TreeNode>, children: Seq<Option<u32>>, id: int)
    requires
        tree_wf(nodes, children),
        0 <= id < nodes.len(),
    ensures
        id == 0 ==> history_of(nodes, id) == Seq::<u8>::empty(),
        id > 0 ==> nodes[id].parent is Some && history_of(nodes, id) == history_of(
            nodes,
            nodes[id].parent->0 as int,
        ) + seq![nodes[id].in_action],
{
    if id > 0 {
        let p = nodes[id].parent->0 as int;
        assert(history_of(nodes, p).push(nodes[id].in_action) =~= history_of(nodes, p) + seq![
            nodes[id].in_action,
        ]);
    }
}

/// A street's buckets: the 169 starting hands preflop, and what the abstraction
/// has on the flop, the turn and the river.
pub proof fn law_streets_have_their_buckets(counts: BucketCounts)
    ensures
        counts.of(0) == 169,
        counts.of(3) == counts.flop,
        counts.of(4) == counts.turn,
        counts.of(5) == counts.river,
{
}

/// Blocks lie side by side from 0 on, each as long as its decision's street has
/// buckets, and every index below the last block's end is the slot of one
/// decision and one bucket.
pub proof fn law_blocks_lie_side_by_side(
    nodes: Seq<TreeNode>,
    counts: BucketCounts,
    index: int,
) -> (slot: (int, int))
    requires
        0 <= index < block_start(nodes, counts, nodes.len() as int),
    ensures
        block_start(nodes, counts, 0) == 0,
        0 <= slot.0 < nodes.len(),
        0 <= slot.1 < counts.of(nodes[slot.0].visible),
        block_start(nodes, counts, slot.0 + 1) == block_start(nodes, counts, slot.0) + counts.of(
            nodes[slot.0].visible,
        ),
        index == block_start(nodes, counts, slot.0) + slot.1,
        is_slot(nodes, counts, slot.0, slot.1, index),
{
    lemma_slot_below(nodes, counts, nodes.len() as int, index)
}

proof fn lemma_slot_below(nodes: Seq<TreeNode>, counts: BucketCounts, n: int, index: int) -> (slot:
    (int, int))
    requires
        0 <= n <= nodes.len(),
        0 <= index < block_start(nodes, counts, n),
    ensures
        0 <= slot.0 < n,
        0 <= slot.1 < counts.of(nodes[slot.0].visible),
        index == block_start(nodes, counts, slot.0) + slot.1,
    decreases n,
{
    let before = block_start(nodes, counts, n - 1);
    if index < before {
        lemma_slot_below(nodes, counts, n - 1, index)
    } else {
        (n - 1, index - before)
    }
}

/// The information set of a cursor: the slot of its bucket in the block of the
/// node that its history leads to, with that node's number of actions.
pub proof fn law_cursors_have_their_slot(game: BlueprintHoldem, cursor: BlueprintCursor, bucket: usize)
    requires
        game.indexed(),
        game.has_info_set(&cursor, bucket),
    ensures
        ({
            let ix = game.indexing->0;
            let id = node_at(ix.tree.children@, cursor@.history)->0 as int;
            let index = game.index_of(&cursor, bucket);
            &&& cursor@.gs is Some
            &&& is_slot(ix.tree.nodes@, ix.counts, id, bucket as int, index as int)
            &&& history_of(ix.tree.nodes@, id) == cursor@.history
            &&& index < game.capacity()
            &&& game.capacity() == block_start(
                ix.tree.nodes@,
                ix.counts,
                ix.tree.nodes@.len() as int,
            )
            &&& game.width(index) == ix.tree.nodes@[id].num_actions
        }),
{
    let ix = game.indexing->0;
    let id = node_at(ix.tree.children@, cursor@.history)->0 as int;
    lemma_leads_from_history(ix.tree.nodes@, ix.tree.children@, cursor@.history);
    assert(is_slot(
        ix.tree.nodes@,
        ix.counts,
        id,
        bucket as int,
        game.index_of(&cursor, bucket) as int,
    ));
    law_slots_partition(
        ix.tree.nodes@,
        ix.counts,
        id,
        bucket as int,
        id,
        bucket as int,
        game.index_of(&cursor, bucket) as int,
    );
}

/// The index counts the buckets of the three streets' own abstractions, and can
/// be built where all three are there.
pub proof fn law_index_counts_the_abstraction(game: BlueprintHoldem)
    ensures
        game.abstracted() <==> forall|s: int| 0 <= s < 3 ==> #[trigger] game.street_buckets[s] is Some,
        game.street_buckets[0] == Some(game.bucket_counts().flop) || !game.abstracted(),
        game.street_buckets[1] == Some(game.bucket_counts().turn) || !game.abstracted(),
        game.street_buckets[2] == Some(game.bucket_counts().river) || !game.abstracted(),
{
}

} // verus!
