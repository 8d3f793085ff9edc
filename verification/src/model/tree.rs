//! The logical concurrency tree: fan-out and spawn relationships as a tree, not
//! a flattened stack.
use std::collections::BTreeMap;

use vstd::prelude::*;

use super::ids::TaskId;
use super::task::{TaskNode, TaskNodeSpec};
use crate::error::{DecoderError, DecoderErrorSpec};
use crate::text;

verus! {

// ---------------------------------------------------------------------------
// Lists of nodes
// ---------------------------------------------------------------------------

/// No two nodes share an id.
pub open spec fn distinct_ids(s: Seq<TaskNodeSpec>) -> bool {
    forall|i: int, j: int|
        #![trigger s[i], s[j]]
        0 <= i < s.len() && 0 <= j < s.len() && s[i].id == s[j].id ==> i == j
}

/// Some node has this id.
pub open spec fn has_id(s: Seq<TaskNodeSpec>, id: TaskId) -> bool {
    exists|i: int| 0 <= i < s.len() && (#[trigger] s[i]).id == id
}

/// The node names a parent that is not another node of the list.
pub open spec fn is_dangling(s: Seq<TaskNodeSpec>, node: TaskNodeSpec) -> bool {
    match node.parent {
        Some(parent) => parent == node.id || !has_id(s, parent),
        None => false,
    }
}

/// The least id of a dangling node among `part`, a part of the list `s`.
pub open spec fn least_dangling(s: Seq<TaskNodeSpec>, part: Seq<TaskNodeSpec>) -> Option<TaskId>
    decreases part.len(),
{
    if part.len() == 0 {
        None
    } else {
        let node = part.last();
        let rest = least_dangling(s, part.drop_last());
        if !is_dangling(s, node) {
            rest
        } else {
            match rest {
                Some(id) => Some(
                    if id.0 < node.id.0 {
                        id
                    } else {
                        node.id
                    },
                ),
                None => Some(node.id),
            }
        }
    }
}

/// The list forms a tree: distinct ids, and every parent is another node.
pub open spec fn is_forest(s: Seq<TaskNodeSpec>) -> bool {
    &&& distinct_ids(s)
    &&& forall|i: int| 0 <= i < s.len() ==> !is_dangling(s, #[trigger] s[i])
}

/// What building a tree from `s` gives: the nodes themselves, or why not.
pub open spec fn assembled(s: Seq<TaskNodeSpec>) -> Result<Seq<TaskNodeSpec>, DecoderErrorSpec> {
    if !distinct_ids(s) {
        Err(DecoderErrorSpec::InvalidTaskTree { reason: "duplicate task id"@ })
    } else {
        match least_dangling(s, s) {
            Some(id) => Err(
                DecoderErrorSpec::InvalidTaskTree {
                    reason: "task TaskId("@ + text::decimal(id.0 as nat)
                        + ") has a dangling parent reference"@,
                },
            ),
            None => Ok(s),
        }
    }
}

/// The ids of the nodes without a parent, in order.
pub open spec fn roots_of(s: Seq<TaskNodeSpec>) -> Seq<TaskId>
    decreases s.len(),
{
    if s.len() == 0 {
        Seq::empty()
    } else if s.last().parent is None {
        roots_of(s.drop_last()).push(s.last().id)
    } else {
        roots_of(s.drop_last())
    }
}

/// The ids of the nodes whose parent is `id`, in order.
pub open spec fn children_of(s: Seq<TaskNodeSpec>, id: TaskId) -> Seq<TaskId>
    decreases s.len(),
{
    if s.len() == 0 {
        Seq::empty()
    } else if s.last().parent == Some(id) {
        children_of(s.drop_last(), id).push(s.last().id)
    } else {
        children_of(s.drop_last(), id)
    }
}

/// The node with this id, if there is one.
pub open spec fn node_of(s: Seq<TaskNodeSpec>, id: TaskId) -> Option<TaskNodeSpec>
    decreases s.len(),
{
    if s.len() == 0 {
        None
    } else if s.last().id == id {
        Some(s.last())
    } else {
        node_of(s.drop_last(), id)
    }
}

/// `id`, then everything below it down to `depth` levels: a parent before its
/// children, children in order.
pub open spec fn preorder(s: Seq<TaskNodeSpec>, id: TaskId, depth: nat) -> Seq<TaskId>
    decreases depth, 0nat,
{
    if depth == 0 {
        Seq::empty()
    } else {
        seq![id] + preorder_all(s, children_of(s, id), (depth - 1) as nat)
    }
}

/// The preorders of `ids`, one after the other.
pub open spec fn preorder_all(s: Seq<TaskNodeSpec>, ids: Seq<TaskId>, depth: nat) -> Seq<TaskId>
    decreases depth, ids.len() + 1,
{
    if ids.len() == 0 {
        Seq::empty()
    } else {
        preorder_all(s, ids.drop_last(), depth) + preorder(s, ids.last(), depth)
    }
}

/// The whole tree in preorder. No path is longer than the list of nodes.
pub open spec fn flattened(s: Seq<TaskNodeSpec>) -> Seq<TaskId> {
    preorder_all(s, roots_of(s), s.len())
}

// ---------------------------------------------------------------------------
// The tree
// ---------------------------------------------------------------------------

/// A reconstructed logical concurrency tree.
///
/// Built once from a list of nodes and then immutable. Its value is that list,
/// in the order in which it was given; roots and children keep that order.
#[derive(Debug)]
pub struct TaskTree {
    nodes: Vec<TaskNode>,
    positions: BTreeMap<u64, usize>,
    children: Vec<Vec<TaskId>>,
    roots: Vec<TaskId>,
}

impl DeepView for TaskTree {
    type V = Seq<TaskNodeSpec>;

    closed spec fn deep_view(&self) -> Seq<TaskNodeSpec> {
        self.nodes.deep_view()
    }
}

spec fn positions_match(positions: Map<u64, usize>, s: Seq<TaskNodeSpec>) -> bool {
    &&& forall|k: u64| #[trigger]
        positions.contains_key(k) ==> positions[k] < s.len() && s[positions[k] as int].id == TaskId(
            k,
        )
    &&& forall|i: int|
        0 <= i < s.len() ==> positions.contains_key((#[trigger] s[i]).id.0)
            && positions[s[i].id.0] == i
}

impl TaskTree {
    #[verifier::type_invariant]
    closed spec fn is_indexed(self) -> bool {
        let s = self.nodes.deep_view();
        &&& is_forest(s)
        &&& positions_match(self.positions@, s)
        &&& self.children@.len() == s.len()
        &&& forall|i: int|
            0 <= i < s.len() ==> (#[trigger] self.children@[i])@ == children_of(s, s[i].id)
        &&& self.roots@ == roots_of(s)
    }

    /// Build a tree from a flat list of nodes.
    ///
    /// Fails if two nodes share an id, or if a node's parent is not another
    /// node of the list.
    pub fn try_from_nodes(nodes: Vec<TaskNode>) -> (r: Result<Self, DecoderError>)
        ensures
            crate::error::outcome(r) == assembled(nodes.deep_view()),
    {
        let ghost s = nodes.deep_view();
        let mut positions: BTreeMap<u64, usize> = BTreeMap::new();
        let mut i: usize = 0;
        assert(s.take(0) =~= Seq::empty());
        while i < nodes.len()
            invariant
                i <= nodes.len(),
                s == nodes.deep_view(),
                positions_match(positions@, s.take(i as int)),
            decreases nodes.len() - i,
        {
            let id: u64 = nodes[i].id.0;
            let ghost t = s.take(i as int);
            let ghost before = positions@;
            if positions.contains_key(&id) {
                proof {
                    let j = before[id];
                    assert(t[j as int].id == TaskId(id));
                    assert(s[j as int].id == s[i as int].id);
                    assert(!distinct_ids(s));
                }
                return Err(
                    DecoderError::InvalidTaskTree { reason: "duplicate task id".to_owned() },
                );
            }
            positions.insert(id, i);
            proof {
                let u = s.take(i + 1);
                assert forall|k: u64| #[trigger] positions@.contains_key(k) implies positions@[k]
                    < u.len() && u[positions@[k] as int].id == TaskId(k) by {
                    if k != id {
                        assert(before.contains_key(k));
                        assert(t[before[k] as int].id == TaskId(k));
                    }
                }
                assert forall|j: int| 0 <= j < u.len() implies positions@.contains_key(
                    (#[trigger] u[j]).id.0,
                ) && positions@[u[j].id.0] == j by {
                    if j < i {
                        assert(t[j] == u[j]);
                    }
                }
            }
            i += 1;
        }
        assert(s.take(i as int) =~= s);
        assert(distinct_ids(s));
        Self::indexed(nodes, positions)
    }

    /// The tree of nodes with distinct ids, whose positions are known.
    fn indexed(nodes: Vec<TaskNode>, positions: BTreeMap<u64, usize>) -> (r: Result<
        Self,
        DecoderError,
    >)
        requires
            distinct_ids(nodes.deep_view()),
            positions_match(positions@, nodes.deep_view()),
        ensures
            crate::error::outcome(r) == assembled(nodes.deep_view()),
    {
        let ghost s = nodes.deep_view();
        let mut children: Vec<Vec<TaskId>> = Vec::new();
        let mut k: usize = 0;
        while k < nodes.len()
            invariant
                k <= nodes.len(),
                children.len() == k,
                forall|j: int|
                    0 <= j < k ==> (#[trigger] children@[j])@ == Seq::<TaskId>::empty(),
            decreases nodes.len() - k,
        {
            children.push(Vec::new());
            k += 1;
        }
        let mut roots: Vec<TaskId> = Vec::new();
        let mut bad: Option<TaskId> = None;
        let mut i: usize = 0;
        assert(s.take(0) =~= Seq::empty());
        while i < nodes.len()
            invariant
                i <= nodes.len(),
                s == nodes.deep_view(),
                distinct_ids(s),
                positions_match(positions@, s),
                children@.len() == s.len(),
                bad == least_dangling(s, s.take(i as int)),
                bad is None ==> forall|j: int|
                    0 <= j < i ==> !is_dangling(s, #[trigger] s[j]),
                bad is None ==> forall|j: int|
                    0 <= j < s.len() ==> (#[trigger] children@[j])@ == children_of(
                        s.take(i as int),
                        s[j].id,
                    ),
                bad is None ==> roots@ == roots_of(s.take(i as int)),
            decreases nodes.len() - i,
        {
            let id: TaskId = nodes[i].id;
            let ghost t = s.take(i + 1);
            proof {
                assert(t.drop_last() =~= s.take(i as int));
                assert(t.last() == s[i as int]);
            }
            match nodes[i].parent {
                None => {
                    roots.push(id);
                },
                Some(parent) => {
                    let at = positions.get(&parent.0);
                    match at {
                        Some(pos) if parent.0 != id.0 => {
                            let p: usize = *pos;
                            assert(s[p as int].id == parent);
                            assert(has_id(s, parent));
                            children[p].push(id);
                        },
                        _ => {
                            proof {
                                if has_id(s, parent) {
                                    let j = choose|j: int|
                                        0 <= j < s.len() && (#[trigger] s[j]).id == parent;
                                    assert(positions@.contains_key(s[j].id.0));
                                }
                                assert(is_dangling(s, s[i as int]));
                            }
                            bad = match bad {
                                Some(least) => if least.0 < id.0 {
                                    Some(least)
                                } else {
                                    Some(id)
                                },
                                None => Some(id),
                            };
                        },
                    }
                },
            }
            i += 1;
        }
        assert(s.take(i as int) =~= s);
        match bad {
            Some(id) => {
                let mut reason = "task TaskId(".to_owned();
                text::push_decimal(&mut reason, id.0);
                reason.append(") has a dangling parent reference");
                Err(DecoderError::InvalidTaskTree { reason })
            },
            None => Ok(TaskTree { nodes, positions, children, roots }),
        }
    }

    /// The root task ids, in the order in which they were given.
    #[must_use]
    pub fn roots(&self) -> (r: &[TaskId])
        ensures
            r@ == roots_of(self.deep_view()),
    {
        proof {
            use_type_invariant(self);
        }
        self.roots.as_slice()
    }

    /// The node with this id, if there is one.
    #[must_use]
    pub fn node(&self, id: TaskId) -> (r: Option<&TaskNode>)
        ensures
            match r {
                Some(node) => node_of(self.deep_view(), id) == Some(node.deep_view()),
                None => node_of(self.deep_view(), id) is None,
            },
    {
        proof {
            use_type_invariant(self);
            lemma_node_of(self.deep_view(), id);
        }
        match self.positions.get(&id.0) {
            Some(pos) => Some(&self.nodes[*pos]),
            None => None,
        }
    }

    /// The direct children of `id`, in order. Empty if `id` is unknown or has
    /// no children.
    #[must_use]
    pub fn children(&self, id: TaskId) -> (r: &[TaskId])
        ensures
            r@ == children_of(self.deep_view(), id),
    {
        proof {
            use_type_invariant(self);
        }
        match self.positions.get(&id.0) {
            Some(pos) => self.children[*pos].as_slice(),
            None => {
                proof {
                    let s = self.deep_view();
                    assert forall|i: int| 0 <= i < s.len() implies (#[trigger] s[i]).parent != Some(
                        id,
                    ) by {
                        assert(!is_dangling(s, s[i]));
                        if s[i].parent == Some(id) {
                            let j = choose|j: int|
                                0 <= j < s.len() && (#[trigger] s[j]).id == id;
                            assert(self.positions@.contains_key(s[j].id.0));
                        }
                    }
                    lemma_no_children(s, id);
                }
                &[]
            },
        }
    }

    /// The number of tasks in the tree.
    #[must_use]
    pub fn len(&self) -> (r: usize)
        ensures
            r == self.deep_view().len(),
    {
        self.nodes.len()
    }

    /// Whether the tree has no tasks.
    #[must_use]
    pub fn is_empty(&self) -> (r: bool)
        ensures
            r == (self.deep_view().len() == 0),
    {
        self.nodes.len() == 0
    }

    /// The tree in preorder: a parent before its children, children in order.
    #[must_use]
    pub fn flatten_preorder(&self) -> (r: Vec<TaskId>)
        ensures
            r@ == flattened(self.deep_view()),
    {
        let depth: usize = self.nodes.len();
        let mut out: Vec<TaskId> = Vec::with_capacity(depth);
        let roots = self.roots();
        let mut i: usize = 0;
        let ghost s = self.deep_view();
        assert(roots@.take(0) =~= Seq::empty());
        while i < roots.len()
            invariant
                i <= roots.len(),
                s == self.deep_view(),
                out@ == preorder_all(s, roots@.take(i as int), depth as nat),
            decreases roots.len() - i,
        {
            assert(roots@.take(i + 1).drop_last() =~= roots@.take(i as int));
            self.push_preorder(roots[i], depth, &mut out);
            i += 1;
        }
        assert(roots@.take(i as int) =~= roots@);
        out
    }

    /// Append `id` and everything below it, down to `depth` levels.
    fn push_preorder(&self, id: TaskId, depth: usize, out: &mut Vec<TaskId>)
        ensures
            final(out)@ == old(out)@ + preorder(self.deep_view(), id, depth as nat),
        decreases depth,
    {
        if depth == 0 {
            assert(out@ =~= old(out)@ + preorder(self.deep_view(), id, depth as nat));
            return;
        }
        let ghost before = out@;
        let ghost s = self.deep_view();
        out.push(id);
        let kids = self.children(id);
        let mut i: usize = 0;
        assert(kids@.take(0) =~= Seq::empty());
        assert(out@ =~= before.push(id) + preorder_all(s, kids@.take(0), (depth - 1) as nat));
        while i < kids.len()
            invariant
                i <= kids.len(),
                depth > 0,
                s == self.deep_view(),
                out@ == before.push(id) + preorder_all(
                    s,
                    kids@.take(i as int),
                    (depth - 1) as nat,
                ),
            decreases kids.len() - i,
        {
            assert(kids@.take(i + 1).drop_last() =~= kids@.take(i as int));
            self.push_preorder(kids[i], depth - 1, out);
            i += 1;
            assert(out@ =~= before.push(id) + preorder_all(
                s,
                kids@.take(i as int),
                (depth - 1) as nat,
            ));
        }
        assert(kids@.take(i as int) =~= kids@);
        assert(out@ =~= before + preorder(s, id, depth as nat));
    }
}

fn clone_ids(ids: &Vec<TaskId>) -> (r: Vec<TaskId>)
    ensures
        r@ == ids@,
{
    let mut out: Vec<TaskId> = Vec::new();
    let mut i: usize = 0;
    while i < ids.len()
        invariant
            i <= ids.len(),
            out@ == ids@.take(i as int),
        decreases ids.len() - i,
    {
        out.push(ids[i]);
        i += 1;
        assert(out@ =~= ids@.take(i as int));
    }
    assert(ids@.take(i as int) =~= ids@);
    out
}

impl Clone for TaskTree {
    fn clone(&self) -> (r: Self)
        ensures
            r.deep_view() == self.deep_view(),
    {
        proof {
            use_type_invariant(self);
        }
        let n: usize = self.nodes.len();
        let mut nodes: Vec<TaskNode> = Vec::with_capacity(n);
        let mut children: Vec<Vec<TaskId>> = Vec::with_capacity(n);
        let mut i: usize = 0;
        while i < n
            invariant
                i <= n,
                n == self.nodes.len(),
                self.children.len() == n,
                nodes.len() == i,
                children.len() == i,
                forall|j: int| 0 <= j < i ==> #[trigger] nodes@[j] == self.nodes@[j],
                forall|j: int| 0 <= j < i ==> (#[trigger] children@[j])@ == self.children@[j]@,
            decreases n - i,
        {
            nodes.push(self.nodes[i].clone());
            children.push(clone_ids(&self.children[i]));
            i += 1;
        }
        assert(nodes.deep_view() =~= self.nodes.deep_view());
        TaskTree {
            nodes,
            positions: self.positions.clone(),
            children,
            roots: clone_ids(&self.roots),
        }
    }
}

// ---------------------------------------------------------------------------
// Lemmas
// ---------------------------------------------------------------------------

/// `node_of` finds a node if and only if one has the id.
pub proof fn lemma_node_of(s: Seq<TaskNodeSpec>, id: TaskId)
    ensures
        node_of(s, id) is Some <==> has_id(s, id),
        forall|i: int|
            distinct_ids(s) && 0 <= i < s.len() && (#[trigger] s[i]).id == id ==> node_of(s, id)
                == Some(s[i]),
        node_of(s, id) matches Some(node) ==> exists|i: int|
            0 <= i < s.len() && #[trigger] s[i] == node && node.id == id,
    decreases s.len(),
{
    if s.len() > 0 {
        let t = s.drop_last();
        lemma_node_of(t, id);
        assert(s[s.len() - 1] == s.last());
        if s.last().id != id {
            assert forall|i: int| 0 <= i < s.len() && (#[trigger] s[i]).id == id implies has_id(
                t,
                id,
            ) by {
                assert(t[i] == s[i]);
            }
            if has_id(t, id) {
                let i = choose|i: int| 0 <= i < t.len() && (#[trigger] t[i]).id == id;
                assert(s[i] == t[i]);
            }
            if distinct_ids(s) {
                assert(distinct_ids(t)) by {
                    assert forall|i: int, j: int|
                        #![trigger t[i], t[j]]
                        0 <= i < t.len() && 0 <= j < t.len() && t[i].id == t[j].id implies i == j by {
                        assert(s[i] == t[i] && s[j] == t[j]);
                    }
                }
                assert forall|i: int| 0 <= i < s.len() && (#[trigger] s[i]).id == id implies node_of(
                    s,
                    id,
                ) == Some(s[i]) by {
                    assert(t[i] == s[i]);
                }
            }
            if let Some(node) = node_of(s, id) {
                let i = choose|i: int| 0 <= i < t.len() && #[trigger] t[i] == node;
                assert(s[i] == node);
            }
        }
    }
}

/// Without a dangling node there is no least one.
pub proof fn lemma_none_dangling(s: Seq<TaskNodeSpec>, part: Seq<TaskNodeSpec>)
    requires
        forall|k: int| 0 <= k < part.len() ==> !is_dangling(s, #[trigger] part[k]),
    ensures
        least_dangling(s, part) is None,
    decreases part.len(),
{
    if part.len() > 0 {
        let rest = part.drop_last();
        assert(part[part.len() - 1] == part.last());
        assert forall|k: int| 0 <= k < rest.len() implies !is_dangling(
            s,
            #[trigger] rest[k],
        ) by {
            assert(part[k] == rest[k]);
        }
        lemma_none_dangling(s, rest);
    }
}

proof fn lemma_no_children(s: Seq<TaskNodeSpec>, id: TaskId)
    requires
        forall|i: int| 0 <= i < s.len() ==> (#[trigger] s[i]).parent != Some(id),
    ensures
        children_of(s, id) == Seq::<TaskId>::empty(),
    decreases s.len(),
{
    if s.len() > 0 {
        let t = s.drop_last();
        assert(s[s.len() - 1] == s.last());
        assert forall|i: int| 0 <= i < t.len() implies (#[trigger] t[i]).parent != Some(id) by {
            assert(t[i] == s[i]);
        }
        lemma_no_children(t, id);
    }
}

} // verus!
