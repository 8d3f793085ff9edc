//! What holds of every task tree.
use vstd::prelude::*;

use super::ids::TaskId;
use super::task::TaskNodeSpec;
use super::tree;

verus! {

/// `id` is the task `up` steps above `x` on its chain of parents.
pub open spec fn is_above(s: Seq<TaskNodeSpec>, id: TaskId, x: TaskId, up: nat) -> bool
    decreases up,
{
    if up == 0 {
        x == id
    } else {
        match tree::node_of(s, x) {
            Some(node) => match node.parent {
                Some(parent) => is_above(s, id, parent, (up - 1) as nat),
                None => false,
            },
            None => false,
        }
    }
}

/// The chain of parents of `id` ends at a root after `level` steps.
pub open spec fn is_rooted(s: Seq<TaskNodeSpec>, id: TaskId, level: nat) -> bool
    decreases level,
{
    match tree::node_of(s, id) {
        Some(node) => match node.parent {
            None => level == 0,
            Some(parent) => level > 0 && is_rooted(s, parent, (level - 1) as nat),
        },
        None => false,
    }
}

/// The chain of parents of `id` ends at a root: it does not run in a circle.
pub open spec fn hangs_under_a_root(s: Seq<TaskNodeSpec>, id: TaskId) -> bool {
    exists|level: nat| is_rooted(s, id, level)
}

/// `id`, its parent, and so on up, `level + 1` tasks in all.
spec fn chain(s: Seq<TaskNodeSpec>, id: TaskId, level: nat) -> Seq<TaskId>
    decreases level,
{
    if level == 0 {
        seq![id]
    } else {
        match tree::node_of(s, id) {
            Some(node) => match node.parent {
                Some(parent) => seq![id] + chain(s, parent, (level - 1) as nat),
                None => seq![id],
            },
            None => seq![id],
        }
    }
}

proof fn lemma_children_members(s: Seq<TaskNodeSpec>, id: TaskId, c: TaskId)
    ensures
        tree::children_of(s, id).contains(c) <==> exists|i: int|
            0 <= i < s.len() && (#[trigger] s[i]).id == c && s[i].parent == Some(id),
    decreases s.len(),
{
    if s.len() > 0 {
        let t = s.drop_last();
        lemma_children_members(t, id, c);
        let kids = tree::children_of(t, id);
        assert(s[s.len() - 1] == s.last());
        if s.last().parent == Some(id) {
            let all = kids.push(s.last().id);
            assert(all.contains(c) <==> kids.contains(c) || c == s.last().id) by {
                if kids.contains(c) {
                    let k = choose|k: int| 0 <= k < kids.len() && kids[k] == c;
                    assert(all[k] == c);
                }
                assert(all[kids.len() as int] == s.last().id);
                if all.contains(c) && c != s.last().id {
                    let k = choose|k: int| 0 <= k < all.len() && all[k] == c;
                    assert(kids[k] == c);
                }
            }
        }
        assert forall|i: int|
            0 <= i < t.len() && (#[trigger] t[i]).id == c && t[i].parent == Some(
                id,
            ) implies exists|j: int|
            0 <= j < s.len() && (#[trigger] s[j]).id == c && s[j].parent == Some(id) by {
            assert(s[i] == t[i]);
        }
        assert forall|i: int|
            0 <= i < s.len() && (#[trigger] s[i]).id == c && s[i].parent == Some(
                id,
            ) implies tree::children_of(s, id).contains(c) by {
            if i < t.len() {
                assert(t[i] == s[i]);
            }
        }
    }
}

proof fn lemma_roots_members(s: Seq<TaskNodeSpec>, c: TaskId)
    ensures
        tree::roots_of(s).contains(c) <==> exists|i: int|
            0 <= i < s.len() && (#[trigger] s[i]).id == c && s[i].parent is None,
    decreases s.len(),
{
    if s.len() > 0 {
        let t = s.drop_last();
        lemma_roots_members(t, c);
        let found = tree::roots_of(t);
        assert(s[s.len() - 1] == s.last());
        if s.last().parent is None {
            let all = found.push(s.last().id);
            assert(all.contains(c) <==> found.contains(c) || c == s.last().id) by {
                if found.contains(c) {
                    let k = choose|k: int| 0 <= k < found.len() && found[k] == c;
                    assert(all[k] == c);
                }
                assert(all[found.len() as int] == s.last().id);
                if all.contains(c) && c != s.last().id {
                    let k = choose|k: int| 0 <= k < all.len() && all[k] == c;
                    assert(found[k] == c);
                }
            }
        }
        assert forall|i: int|
            0 <= i < t.len() && (#[trigger] t[i]).id == c && t[i].parent is None implies exists|
            j: int,
        | 0 <= j < s.len() && (#[trigger] s[j]).id == c && s[j].parent is None by {
            assert(s[i] == t[i]);
        }
        assert forall|i: int|
            0 <= i < s.len() && (#[trigger] s[i]).id == c
                && s[i].parent is None implies tree::roots_of(s).contains(c) by {
            if i < t.len() {
                assert(t[i] == s[i]);
            }
        }
    }
}

proof fn lemma_prefix_distinct(s: Seq<TaskNodeSpec>)
    requires
        tree::distinct_ids(s),
        s.len() > 0,
    ensures
        tree::distinct_ids(s.drop_last()),
        forall|i: int| 0 <= i < s.len() - 1 ==> (#[trigger] s[i]).id != s.last().id,
{
    let t = s.drop_last();
    assert forall|i: int, j: int|
        #![trigger t[i], t[j]]
        0 <= i < t.len() && 0 <= j < t.len() && t[i].id == t[j].id implies i == j by {
        assert(s[i] == t[i] && s[j] == t[j]);
    }
    assert(s[s.len() - 1] == s.last());
}

proof fn lemma_children_unique(s: Seq<TaskNodeSpec>, id: TaskId)
    requires
        tree::distinct_ids(s),
    ensures
        tree::children_of(s, id).no_duplicates(),
    decreases s.len(),
{
    if s.len() > 0 {
        lemma_prefix_distinct(s);
        lemma_children_unique(s.drop_last(), id);
        lemma_children_members(s.drop_last(), id, s.last().id);
        assert forall|i: int| 0 <= i < s.drop_last().len() implies (#[trigger] s.drop_last()[i]).id
            != s.last().id by {
            assert(s[i] == s.drop_last()[i]);
        }
    }
}

proof fn lemma_roots_unique(s: Seq<TaskNodeSpec>)
    requires
        tree::distinct_ids(s),
    ensures
        tree::roots_of(s).no_duplicates(),
    decreases s.len(),
{
    if s.len() > 0 {
        lemma_prefix_distinct(s);
        lemma_roots_unique(s.drop_last());
        lemma_roots_members(s.drop_last(), s.last().id);
        assert forall|i: int| 0 <= i < s.drop_last().len() implies (#[trigger] s.drop_last()[i]).id
            != s.last().id by {
            assert(s[i] == s.drop_last()[i]);
        }
    }
}

/// A task is among the children of another if and only if that one is its
/// parent.
pub proof fn law_children_and_parents_agree(s: Seq<TaskNodeSpec>, id: TaskId, c: TaskId)
    requires
        tree::distinct_ids(s),
    ensures
        tree::children_of(s, id).contains(c) <==> (tree::node_of(s, c) matches Some(node)
            && node.parent == Some(id)),
{
    lemma_children_members(s, id, c);
    tree::lemma_node_of(s, c);
}

/// A task is among the roots if and only if it has no parent.
pub proof fn law_roots_have_no_parent(s: Seq<TaskNodeSpec>, c: TaskId)
    requires
        tree::distinct_ids(s),
    ensures
        tree::roots_of(s).contains(c) <==> (tree::node_of(s, c) matches Some(node)
            && node.parent is None),
{
    lemma_roots_members(s, c);
    tree::lemma_node_of(s, c);
}

proof fn lemma_level_unique(s: Seq<TaskNodeSpec>, id: TaskId, a: nat, b: nat)
    requires
        is_rooted(s, id, a),
        is_rooted(s, id, b),
    ensures
        a == b,
    decreases a,
{
    let node = tree::node_of(s, id)->0;
    if let Some(parent) = node.parent {
        lemma_level_unique(s, parent, (a - 1) as nat, (b - 1) as nat);
    }
}

proof fn lemma_chain(s: Seq<TaskNodeSpec>, id: TaskId, level: nat)
    requires
        is_rooted(s, id, level),
    ensures
        chain(s, id, level).len() == level + 1,
        forall|j: int|
            0 <= j <= level ==> is_rooted(s, #[trigger] chain(s, id, level)[j], (level - j) as nat),
    decreases level,
{
    if level > 0 {
        let parent = tree::node_of(s, id)->0.parent->0;
        lemma_chain(s, parent, (level - 1) as nat);
        let c = chain(s, id, level);
        let up = chain(s, parent, (level - 1) as nat);
        assert forall|j: int| 0 <= j <= level implies is_rooted(
            s,
            #[trigger] c[j],
            (level - j) as nat,
        ) by {
            if j > 0 {
                assert(c[j] == up[j - 1]);
                assert((level - 1) as nat - (j - 1) == level - j);
            }
        }
    }
}

/// A chain of parents is shorter than the list of nodes.
proof fn lemma_level_bound(s: Seq<TaskNodeSpec>, id: TaskId, level: nat)
    requires
        is_rooted(s, id, level),
    ensures
        level < s.len(),
{
    let c = chain(s, id, level);
    lemma_chain(s, id, level);
    assert(c.no_duplicates()) by {
        assert forall|i: int, j: int| 0 <= i < c.len() && 0 <= j < c.len() && i != j implies c[i]
            != c[j] by {
            if c[i] == c[j] {
                lemma_level_unique(s, c[i], (level - i) as nat, (level - j) as nat);
            }
        }
    }
    c.unique_seq_to_set();
    let ids = s.map_values(|n: TaskNodeSpec| n.id);
    ids.lemma_cardinality_of_set();
    assert(c.to_set().subset_of(ids.to_set())) by {
        assert forall|x: TaskId| c.to_set().contains(x) implies ids.to_set().contains(x) by {
            let j = choose|j: int| 0 <= j < c.len() && c[j] == x;
            tree::lemma_node_of(s, c[j]);
            let node = tree::node_of(s, c[j])->0;
            let i = choose|i: int| 0 <= i < s.len() && #[trigger] s[i] == node && node.id == c[j];
            assert(ids[i] == x);
        }
    }
    vstd::set_lib::lemma_len_subset(c.to_set(), ids.to_set());
}

proof fn lemma_child_level(s: Seq<TaskNodeSpec>, id: TaskId, level: nat)
    requires
        tree::distinct_ids(s),
        is_rooted(s, id, level),
    ensures
        forall|k: int|
            0 <= k < tree::children_of(s, id).len() ==> is_rooted(
                s,
                #[trigger] tree::children_of(s, id)[k],
                level + 1,
            ),
{
    let kids = tree::children_of(s, id);
    assert forall|k: int| 0 <= k < kids.len() implies is_rooted(
        s,
        #[trigger] kids[k],
        level + 1,
    ) by {
        assert(kids.contains(kids[k]));
        law_children_and_parents_agree(s, id, kids[k]);
    }
}

proof fn lemma_depth_is_enough(s: Seq<TaskNodeSpec>, id: TaskId, level: nat, a: nat, b: nat)
    requires
        tree::distinct_ids(s),
        is_rooted(s, id, level),
        a >= s.len() - level,
        b >= s.len() - level,
    ensures
        tree::preorder(s, id, a) == tree::preorder(s, id, b),
    decreases s.len() - level, 0nat,
{
    lemma_level_bound(s, id, level);
    lemma_child_level(s, id, level);
    lemma_depth_is_enough_all(
        s,
        tree::children_of(s, id),
        level + 1,
        (a - 1) as nat,
        (b - 1) as nat,
    );
}

proof fn lemma_depth_is_enough_all(
    s: Seq<TaskNodeSpec>,
    ids: Seq<TaskId>,
    level: nat,
    a: nat,
    b: nat,
)
    requires
        tree::distinct_ids(s),
        level <= s.len(),
        forall|k: int| 0 <= k < ids.len() ==> is_rooted(s, #[trigger] ids[k], level),
        a >= s.len() - level,
        b >= s.len() - level,
    ensures
        tree::preorder_all(s, ids, a) == tree::preorder_all(s, ids, b),
    decreases s.len() - level, ids.len() + 1,
{
    if ids.len() > 0 {
        let rest = ids.drop_last();
        assert forall|k: int| 0 <= k < rest.len() implies is_rooted(
            s,
            #[trigger] rest[k],
            level,
        ) by {
            assert(rest[k] == ids[k]);
        }
        lemma_depth_is_enough_all(s, rest, level, a, b);
        assert(ids[ids.len() - 1] == ids.last());
        lemma_depth_is_enough(s, ids.last(), level, a, b);
    }
}

/// Under a task that hangs under a root, the preorder is the task and then the
/// preorders of its children: the bound on the depth never cuts anything off.
pub proof fn law_preorder_unfolds(s: Seq<TaskNodeSpec>, id: TaskId)
    requires
        tree::is_forest(s),
        hangs_under_a_root(s, id),
    ensures
        tree::preorder(s, id, s.len()) == seq![id] + tree::preorder_all(
            s,
            tree::children_of(s, id),
            s.len(),
        ),
{
    let level = choose|level: nat| is_rooted(s, id, level);
    lemma_level_bound(s, id, level);
    lemma_child_level(s, id, level);
    lemma_depth_is_enough_all(
        s,
        tree::children_of(s, id),
        level + 1,
        (s.len() - 1) as nat,
        s.len(),
    );
}

/// Stepping up from below and stepping down from above reach the same tasks.
proof fn lemma_above_from_child(s: Seq<TaskNodeSpec>, id: TaskId, c: TaskId, x: TaskId, up: nat)
    requires
        is_above(s, c, x, up),
        tree::node_of(s, c) matches Some(node) && node.parent == Some(id),
    ensures
        is_above(s, id, x, up + 1),
    decreases up,
{
    if up > 0 {
        let parent = tree::node_of(s, x)->0.parent->0;
        lemma_above_from_child(s, id, c, parent, (up - 1) as nat);
    } else {
        assert(is_above(s, id, id, 0));
    }
}

/// The task one step below `id` on the chain from `x`.
proof fn lemma_child_on_chain(s: Seq<TaskNodeSpec>, id: TaskId, x: TaskId, up: nat) -> (c: TaskId)
    requires
        is_above(s, id, x, up),
        up > 0,
    ensures
        is_above(s, c, x, (up - 1) as nat),
        tree::node_of(s, c) matches Some(node) && node.parent == Some(id),
    decreases up,
{
    if up == 1 {
        let parent = tree::node_of(s, x)->0.parent->0;
        assert(is_above(s, id, parent, 0));
        x
    } else {
        let parent = tree::node_of(s, x)->0.parent->0;
        lemma_child_on_chain(s, id, parent, (up - 1) as nat)
    }
}

proof fn lemma_preorder_members(s: Seq<TaskNodeSpec>, id: TaskId, depth: nat, x: TaskId)
    requires
        tree::distinct_ids(s),
    ensures
        tree::preorder(s, id, depth).contains(x) <==> exists|up: nat|
            up < depth && is_above(s, id, x, up),
    decreases depth, 0nat,
{
    if depth > 0 {
        let kids = tree::children_of(s, id);
        let below = tree::preorder_all(s, kids, (depth - 1) as nat);
        let all = seq![id] + below;
        lemma_preorder_all_members(s, kids, (depth - 1) as nat, x);
        assert(all.contains(x) <==> x == id || below.contains(x)) by {
            assert(all[0] == id);
            if below.contains(x) {
                let k = choose|k: int| 0 <= k < below.len() && below[k] == x;
                assert(all[k + 1] == x);
            }
            if all.contains(x) && x != id {
                let k = choose|k: int| 0 <= k < all.len() && all[k] == x;
                assert(below[k - 1] == x);
            }
        }
        if x == id {
            assert(is_above(s, id, x, 0));
        }
        if below.contains(x) {
            let (k, up) = choose|k: int, up: nat|
                0 <= k < kids.len() && up < depth - 1 && #[trigger] is_above(s, kids[k], x, up);
            assert(kids.contains(kids[k]));
            law_children_and_parents_agree(s, id, kids[k]);
            lemma_above_from_child(s, id, kids[k], x, up);
        }
        if exists|up: nat| up < depth && is_above(s, id, x, up) {
            let up = choose|up: nat| up < depth && is_above(s, id, x, up);
            if up > 0 {
                let c = lemma_child_on_chain(s, id, x, up);
                law_children_and_parents_agree(s, id, c);
                let k = choose|k: int| 0 <= k < kids.len() && kids[k] == c;
                assert(is_above(s, kids[k], x, (up - 1) as nat));
            }
        }
    }
}

proof fn lemma_preorder_all_members(
    s: Seq<TaskNodeSpec>,
    ids: Seq<TaskId>,
    depth: nat,
    x: TaskId,
)
    requires
        tree::distinct_ids(s),
    ensures
        tree::preorder_all(s, ids, depth).contains(x) <==> exists|k: int, up: nat|
            0 <= k < ids.len() && up < depth && #[trigger] is_above(s, ids[k], x, up),
    decreases depth, ids.len() + 1,
{
    if ids.len() > 0 {
        let rest = ids.drop_last();
        lemma_preorder_all_members(s, rest, depth, x);
        lemma_preorder_members(s, ids.last(), depth, x);
        let a = tree::preorder_all(s, rest, depth);
        let b = tree::preorder(s, ids.last(), depth);
        let all = a + b;
        assert(all.contains(x) <==> a.contains(x) || b.contains(x)) by {
            if a.contains(x) {
                let k = choose|k: int| 0 <= k < a.len() && a[k] == x;
                assert(all[k] == x);
            }
            if b.contains(x) {
                let k = choose|k: int| 0 <= k < b.len() && b[k] == x;
                assert(all[a.len() + k] == x);
            }
            if all.contains(x) {
                let k = choose|k: int| 0 <= k < all.len() && all[k] == x;
                if k < a.len() {
                    assert(a[k] == x);
                } else {
                    assert(b[k - a.len()] == x);
                }
            }
        }
        if a.contains(x) {
            let (k, up) = choose|k: int, up: nat|
                0 <= k < rest.len() && up < depth && #[trigger] is_above(s, rest[k], x, up);
            assert(is_above(s, ids[k], x, up));
        }
        if b.contains(x) {
            let up = choose|up: nat| up < depth && is_above(s, ids.last(), x, up);
            assert(is_above(s, ids[ids.len() - 1], x, up));
        }
        if exists|k: int, up: nat|
            0 <= k < ids.len() && up < depth && #[trigger] is_above(s, ids[k], x, up) {
            let (k, up) = choose|k: int, up: nat|
                0 <= k < ids.len() && up < depth && #[trigger] is_above(s, ids[k], x, up);
            if k < rest.len() {
                assert(is_above(s, rest[k], x, up));
            } else {
                assert(is_above(s, ids.last(), x, up));
            }
        }
    }
}

proof fn lemma_above_adds_levels(s: Seq<TaskNodeSpec>, id: TaskId, x: TaskId, up: nat, level: nat)
    requires
        is_above(s, id, x, up),
        is_rooted(s, id, level),
    ensures
        is_rooted(s, x, level + up),
    decreases up,
{
    if up > 0 {
        let parent = tree::node_of(s, x)->0.parent->0;
        lemma_above_adds_levels(s, id, parent, (up - 1) as nat, level);
    }
}

/// One task stands `up` steps above `x`.
proof fn lemma_above_unique(s: Seq<TaskNodeSpec>, a: TaskId, b: TaskId, x: TaskId, up: nat)
    requires
        is_above(s, a, x, up),
        is_above(s, b, x, up),
    ensures
        a == b,
    decreases up,
{
    if up > 0 {
        let parent = tree::node_of(s, x)->0.parent->0;
        lemma_above_unique(s, a, b, parent, (up - 1) as nat);
    }
}

proof fn lemma_preorder_unique(s: Seq<TaskNodeSpec>, id: TaskId, level: nat, depth: nat)
    requires
        tree::distinct_ids(s),
        is_rooted(s, id, level),
    ensures
        tree::preorder(s, id, depth).no_duplicates(),
    decreases depth, 0nat,
{
    if depth > 0 {
        let kids = tree::children_of(s, id);
        lemma_child_level(s, id, level);
        lemma_children_unique(s, id);
        lemma_preorder_all_unique(s, kids, level + 1, (depth - 1) as nat);
        let below = tree::preorder_all(s, kids, (depth - 1) as nat);
        let all = seq![id] + below;
        lemma_preorder_all_members(s, kids, (depth - 1) as nat, id);
        if below.contains(id) {
            let (k, up) = choose|k: int, up: nat|
                0 <= k < kids.len() && up < depth - 1 && #[trigger] is_above(s, kids[k], id, up);
            lemma_above_adds_levels(s, kids[k], id, up, level + 1);
            lemma_level_unique(s, id, level, level + 1 + up);
        }
        assert forall|i: int, j: int|
            0 <= i < all.len() && 0 <= j < all.len() && i != j implies all[i] != all[j] by {
            if i == 0 {
                assert(all[j] == below[j - 1]);
            } else if j == 0 {
                assert(all[i] == below[i - 1]);
            } else {
                assert(all[i] == below[i - 1] && all[j] == below[j - 1]);
            }
        }
    }
}

proof fn lemma_preorder_all_unique(
    s: Seq<TaskNodeSpec>,
    ids: Seq<TaskId>,
    level: nat,
    depth: nat,
)
    requires
        tree::distinct_ids(s),
        ids.no_duplicates(),
        forall|k: int| 0 <= k < ids.len() ==> is_rooted(s, #[trigger] ids[k], level),
    ensures
        tree::preorder_all(s, ids, depth).no_duplicates(),
    decreases depth, ids.len() + 1,
{
    if ids.len() > 0 {
        let rest = ids.drop_last();
        assert forall|k: int| 0 <= k < rest.len() implies is_rooted(
            s,
            #[trigger] rest[k],
            level,
        ) by {
            assert(rest[k] == ids[k]);
        }
        lemma_preorder_all_unique(s, rest, level, depth);
        assert(ids[ids.len() - 1] == ids.last());
        lemma_preorder_unique(s, ids.last(), level, depth);
        let a = tree::preorder_all(s, rest, depth);
        let b = tree::preorder(s, ids.last(), depth);
        let all = a + b;
        assert forall|i: int, j: int|
            0 <= i < a.len() && 0 <= j < b.len() implies #[trigger] a[i] != #[trigger] b[j] by {
            let x = a[i];
            if x == b[j] {
                lemma_preorder_all_members(s, rest, depth, x);
                lemma_preorder_members(s, ids.last(), depth, x);
                assert(a.contains(x) && b.contains(x));
                let (k, u) = choose|k: int, u: nat|
                    0 <= k < rest.len() && u < depth && #[trigger] is_above(s, rest[k], x, u);
                let v = choose|v: nat| v < depth && is_above(s, ids.last(), x, v);
                assert(rest[k] == ids[k]);
                lemma_above_adds_levels(s, rest[k], x, u, level);
                lemma_above_adds_levels(s, ids.last(), x, v, level);
                lemma_level_unique(s, x, level + u, level + v);
                lemma_above_unique(s, ids[k], ids.last(), x, u);
            }
        }
        assert forall|i: int, j: int|
            0 <= i < all.len() && 0 <= j < all.len() && i != j implies all[i] != all[j] by {
            let n = a.len() as int;
            if i < n && j < n {
                assert(all[i] == a[i] && all[j] == a[j]);
            } else if i >= n && j >= n {
                assert(all[i] == b[i - n] && all[j] == b[j - n]);
            } else if i < n {
                assert(all[i] == a[i] && all[j] == b[j - n]);
            } else {
                assert(all[i] == b[i - n] && all[j] == a[j]);
            }
        }
    }
}

proof fn lemma_roots_level(s: Seq<TaskNodeSpec>)
    requires
        tree::distinct_ids(s),
    ensures
        forall|k: int|
            0 <= k < tree::roots_of(s).len() ==> is_rooted(s, #[trigger] tree::roots_of(s)[k], 0),
{
    let roots = tree::roots_of(s);
    assert forall|k: int| 0 <= k < roots.len() implies is_rooted(s, #[trigger] roots[k], 0) by {
        assert(roots.contains(roots[k]));
        law_roots_have_no_parent(s, roots[k]);
    }
}

/// The flattened tree lists no task twice.
pub proof fn law_flatten_lists_no_task_twice(s: Seq<TaskNodeSpec>)
    requires
        tree::is_forest(s),
    ensures
        tree::flattened(s).no_duplicates(),
{
    lemma_roots_level(s);
    lemma_roots_unique(s);
    lemma_preorder_all_unique(s, tree::roots_of(s), 0, s.len());
}

/// The root that the chain of parents of `x` ends at.
proof fn lemma_root_of(s: Seq<TaskNodeSpec>, x: TaskId, level: nat) -> (root: TaskId)
    requires
        is_rooted(s, x, level),
    ensures
        is_rooted(s, root, 0),
        is_above(s, root, x, level),
    decreases level,
{
    if level == 0 {
        x
    } else {
        lemma_root_of(s, tree::node_of(s, x)->0.parent->0, (level - 1) as nat)
    }
}

/// The flattened tree lists exactly the tasks that hang under a root.
pub proof fn law_flatten_lists_what_hangs_under_a_root(s: Seq<TaskNodeSpec>, id: TaskId)
    requires
        tree::is_forest(s),
    ensures
        tree::flattened(s).contains(id) <==> hangs_under_a_root(s, id),
{
    let roots = tree::roots_of(s);
    lemma_roots_level(s);
    lemma_preorder_all_members(s, roots, s.len(), id);
    if tree::flattened(s).contains(id) {
        let (k, up) = choose|k: int, up: nat|
            0 <= k < roots.len() && up < s.len() && #[trigger] is_above(s, roots[k], id, up);
        lemma_above_adds_levels(s, roots[k], id, up, 0);
    }
    if hangs_under_a_root(s, id) {
        let level = choose|level: nat| is_rooted(s, id, level);
        lemma_level_bound(s, id, level);
        let root = lemma_root_of(s, id, level);
        law_roots_have_no_parent(s, root);
        let k = choose|k: int| 0 <= k < roots.len() && roots[k] == root;
        assert(is_above(s, roots[k], id, level));
    }
}

/// Where no chain of parents runs in a circle, the flattened tree lists every
/// task of the tree.
pub proof fn law_flatten_is_complete(s: Seq<TaskNodeSpec>)
    requires
        tree::is_forest(s),
        forall|i: int| 0 <= i < s.len() ==> hangs_under_a_root(s, (#[trigger] s[i]).id),
    ensures
        tree::flattened(s).len() == s.len(),
        forall|i: int| 0 <= i < s.len() ==> tree::flattened(s).contains((#[trigger] s[i]).id),
{
    let f = tree::flattened(s);
    let ids = s.map_values(|n: TaskNodeSpec| n.id);
    law_flatten_lists_no_task_twice(s);
    f.unique_seq_to_set();
    assert(ids.no_duplicates()) by {
        assert forall|i: int, j: int|
            0 <= i < ids.len() && 0 <= j < ids.len() && i != j implies ids[i] != ids[j] by {
            assert(ids[i] == s[i].id && ids[j] == s[j].id);
        }
    }
    ids.unique_seq_to_set();
    assert forall|i: int| 0 <= i < s.len() implies f.contains((#[trigger] s[i]).id) by {
        law_flatten_lists_what_hangs_under_a_root(s, s[i].id);
    }
    assert(f.to_set() =~= ids.to_set()) by {
        assert forall|x: TaskId| f.to_set().contains(x) implies ids.to_set().contains(x) by {
            assert(f.contains(x));
            law_flatten_lists_what_hangs_under_a_root(s, x);
            tree::lemma_node_of(s, x);
            let node = tree::node_of(s, x)->0;
            let i = choose|i: int| 0 <= i < s.len() && #[trigger] s[i] == node && node.id == x;
            assert(ids[i] == x);
        }
        assert forall|x: TaskId| ids.to_set().contains(x) implies f.to_set().contains(x) by {
            let i = choose|i: int| 0 <= i < ids.len() && ids[i] == x;
            assert(f.contains(s[i].id));
        }
    }
}

/// Every listed task but the given ones has its parent somewhere before it.
spec fn parents_first(s: Seq<TaskNodeSpec>, listed: Seq<TaskId>, tops: Seq<TaskId>) -> bool {
    forall|j: int|
        0 <= j < listed.len() ==> tops.contains(#[trigger] listed[j]) || exists|i: int|
            0 <= i < j && tree::children_of(s, #[trigger] listed[i]).contains(listed[j])
}

proof fn lemma_preorder_parents_first(s: Seq<TaskNodeSpec>, id: TaskId, depth: nat)
    ensures
        parents_first(s, tree::preorder(s, id, depth), seq![id]),
    decreases depth, 0nat,
{
    if depth > 0 {
        let kids = tree::children_of(s, id);
        let below = tree::preorder_all(s, kids, (depth - 1) as nat);
        let all = seq![id] + below;
        lemma_preorder_all_parents_first(s, kids, (depth - 1) as nat);
        assert forall|j: int| 0 <= j < all.len() implies seq![id].contains(#[trigger] all[j])
            || exists|i: int|
            0 <= i < j && tree::children_of(s, #[trigger] all[i]).contains(all[j]) by {
            if j == 0 {
                assert(seq![id][0] == all[0]);
            } else {
                assert(all[j] == below[j - 1]);
                if kids.contains(below[j - 1]) {
                    assert(tree::children_of(s, all[0]).contains(all[j]));
                } else {
                    let i = choose|i: int|
                        0 <= i < j - 1 && tree::children_of(s, #[trigger] below[i]).contains(
                            below[j - 1],
                        );
                    assert(all[i + 1] == below[i]);
                }
            }
        }
    }
}

proof fn lemma_preorder_all_parents_first(s: Seq<TaskNodeSpec>, ids: Seq<TaskId>, depth: nat)
    ensures
        parents_first(s, tree::preorder_all(s, ids, depth), ids),
    decreases depth, ids.len() + 1,
{
    if ids.len() > 0 {
        let rest = ids.drop_last();
        let a = tree::preorder_all(s, rest, depth);
        let b = tree::preorder(s, ids.last(), depth);
        let all = a + b;
        lemma_preorder_all_parents_first(s, rest, depth);
        lemma_preorder_parents_first(s, ids.last(), depth);
        assert forall|j: int| 0 <= j < all.len() implies ids.contains(#[trigger] all[j]) || exists|
            i: int,
        | 0 <= i < j && tree::children_of(s, #[trigger] all[i]).contains(all[j]) by {
            if j < a.len() {
                assert(all[j] == a[j]);
                if rest.contains(a[j]) {
                    let k = choose|k: int| 0 <= k < rest.len() && rest[k] == a[j];
                    assert(ids[k] == a[j]);
                } else {
                    let i = choose|i: int|
                        0 <= i < j && tree::children_of(s, #[trigger] a[i]).contains(a[j]);
                    assert(all[i] == a[i]);
                }
            } else {
                let m = j - a.len();
                assert(all[j] == b[m]);
                if seq![ids.last()].contains(b[m]) {
                    assert(ids[ids.len() - 1] == b[m]);
                } else {
                    let i = choose|i: int|
                        0 <= i < m && tree::children_of(s, #[trigger] b[i]).contains(b[m]);
                    assert(all[a.len() + i] == b[i]);
                }
            }
        }
    }
}

/// In the flattened tree every task is a root or comes after its parent.
pub proof fn law_flatten_puts_parents_first(s: Seq<TaskNodeSpec>, j: int)
    requires
        tree::is_forest(s),
        0 <= j < tree::flattened(s).len(),
    ensures
        tree::node_of(s, tree::flattened(s)[j]) matches Some(node) && match node.parent {
            None => true,
            Some(parent) => exists|i: int|
                0 <= i < j && #[trigger] tree::flattened(s)[i] == parent,
        },
{
    let f = tree::flattened(s);
    lemma_preorder_all_parents_first(s, tree::roots_of(s), s.len());
    if tree::roots_of(s).contains(f[j]) {
        law_roots_have_no_parent(s, f[j]);
    } else {
        let i = choose|i: int| 0 <= i < j && tree::children_of(s, #[trigger] f[i]).contains(f[j]);
        law_children_and_parents_agree(s, f[i], f[j]);
    }
}

/// Ids are those of picked nodes of the list, in its order.
pub open spec fn are_ids_of(ids: Seq<TaskId>, s: Seq<TaskNodeSpec>, picks: Seq<int>) -> bool {
    &&& picks.len() == ids.len()
    &&& forall|i: int|
        0 <= i < picks.len() ==> 0 <= (#[trigger] picks[i]) < s.len() && ids[i] == s[picks[i]].id
    &&& forall|i: int, j: int| 0 <= i < j < picks.len() ==> picks[i] < picks[j]
}

/// The roots are the nodes without a parent, all of them, in the order of the list.
pub open spec fn are_roots(ids: Seq<TaskId>, s: Seq<TaskNodeSpec>, picks: Seq<int>) -> bool {
    &&& are_ids_of(ids, s, picks)
    &&& forall|k: int|
        0 <= k < s.len() ==> ((#[trigger] s[k]).parent is None <==> picks.contains(k))
}

/// The children of a task are the nodes whose parent it is, all of them, in the
/// order of the list.
pub open spec fn are_children(
    ids: Seq<TaskId>,
    s: Seq<TaskNodeSpec>,
    id: TaskId,
    picks: Seq<int>,
) -> bool {
    &&& are_ids_of(ids, s, picks)
    &&& forall|k: int|
        0 <= k < s.len() ==> ((#[trigger] s[k]).parent == Some(id) <==> picks.contains(k))
}

proof fn lemma_one_more(ids: Seq<TaskId>, s: Seq<TaskNodeSpec>, picks: Seq<int>)
    requires
        s.len() > 0,
        are_ids_of(ids, s.drop_last(), picks),
    ensures
        are_ids_of(ids, s, picks),
        are_ids_of(ids.push(s.last().id), s, picks.push(s.len() - 1)),
        !picks.contains(s.len() - 1),
        picks.push(s.len() - 1).contains(s.len() - 1),
        forall|k: int| k != s.len() - 1 ==> (#[trigger] picks.push(s.len() - 1).contains(k)
            <==> picks.contains(k)),
{
    let t = s.drop_last();
    let n = s.len() - 1;
    let more = picks.push(n);
    assert forall|i: int| 0 <= i < picks.len() implies 0 <= (#[trigger] picks[i]) < s.len()
        && ids[i] == s[picks[i]].id by {
        assert(t[picks[i]] == s[picks[i]]);
    }
    assert forall|i: int| 0 <= i < more.len() implies 0 <= (#[trigger] more[i]) < s.len()
        && ids.push(s.last().id)[i] == s[more[i]].id by {
        if i < picks.len() {
            assert(more[i] == picks[i]);
        }
    }
    assert forall|i: int, j: int| 0 <= i < j < more.len() implies more[i] < more[j] by {
        assert(more[i] == picks[i]);
        if j < picks.len() {
            assert(more[j] == picks[j]);
        }
    }
    if picks.contains(n) {
        let i = picks.index_of(n);
        assert(picks[i] < t.len());
    }
    assert(more[picks.len() as int] == n);
    assert forall|k: int| k != n implies (#[trigger] more.contains(k) <==> picks.contains(k)) by {
        if picks.contains(k) {
            assert(more[picks.index_of(k)] == k);
        }
        if more.contains(k) {
            assert(picks[more.index_of(k)] == k);
        }
    }
}

proof fn lemma_roots_picked(s: Seq<TaskNodeSpec>) -> (picks: Seq<int>)
    ensures
        are_roots(tree::roots_of(s), s, picks),
    decreases s.len(),
{
    if s.len() == 0 {
        Seq::empty()
    } else {
        let t = s.drop_last();
        let before = lemma_roots_picked(t);
        lemma_one_more(tree::roots_of(t), s, before);
        let picks = if s.last().parent is None {
            before.push(s.len() - 1)
        } else {
            before
        };
        assert forall|k: int| 0 <= k < s.len() implies ((#[trigger] s[k]).parent is None
            <==> picks.contains(k)) by {
            if k < s.len() - 1 {
                assert(t[k] == s[k]);
                assert(picks.contains(k) <==> before.contains(k));
            }
        }
        picks
    }
}

proof fn lemma_children_picked(s: Seq<TaskNodeSpec>, id: TaskId) -> (picks: Seq<int>)
    ensures
        are_children(tree::children_of(s, id), s, id, picks),
    decreases s.len(),
{
    if s.len() == 0 {
        Seq::empty()
    } else {
        let t = s.drop_last();
        let before = lemma_children_picked(t, id);
        lemma_one_more(tree::children_of(t, id), s, before);
        let picks = if s.last().parent == Some(id) {
            before.push(s.len() - 1)
        } else {
            before
        };
        assert forall|k: int| 0 <= k < s.len() implies ((#[trigger] s[k]).parent == Some(id)
            <==> picks.contains(k)) by {
            if k < s.len() - 1 {
                assert(t[k] == s[k]);
                assert(picks.contains(k) <==> before.contains(k));
            }
        }
        picks
    }
}

/// Roots, and the children of a task, stand in the order in which the nodes were
/// given, and none is left out.
pub proof fn law_roots_and_children_keep_their_order(s: Seq<TaskNodeSpec>, id: TaskId)
    ensures
        exists|picks: Seq<int>| are_roots(tree::roots_of(s), s, picks),
        exists|picks: Seq<int>| are_children(tree::children_of(s, id), s, id, picks),
{
    let picks = lemma_roots_picked(s);
    assert(are_roots(tree::roots_of(s), s, picks));
    let below = lemma_children_picked(s, id);
    assert(are_children(tree::children_of(s, id), s, id, below));
}

/// A list of tasks is laid out one task after the other, each with all that hangs
/// below it.
pub proof fn law_a_listing_goes_task_by_task(
    s: Seq<TaskNodeSpec>,
    a: Seq<TaskId>,
    id: TaskId,
    b: Seq<TaskId>,
    depth: nat,
)
    ensures
        tree::preorder_all(s, a + seq![id] + b, depth) == tree::preorder_all(s, a, depth)
            + tree::preorder(s, id, depth) + tree::preorder_all(s, b, depth),
        tree::flattened(s) == tree::preorder_all(s, tree::roots_of(s), s.len()),
    decreases b.len(),
{
    let all = a + seq![id] + b;
    if b.len() == 0 {
        assert(all.drop_last() =~= a);
        assert(all.last() == id);
        assert(tree::preorder_all(s, a, depth) + tree::preorder(s, id, depth) + Seq::<
            TaskId,
        >::empty() =~= tree::preorder_all(s, a, depth) + tree::preorder(s, id, depth));
    } else {
        let shorter = b.drop_last();
        law_a_listing_goes_task_by_task(s, a, id, shorter, depth);
        assert(all.drop_last() =~= a + seq![id] + shorter);
        assert(all.last() == b.last());
        let head = tree::preorder_all(s, a, depth) + tree::preorder(s, id, depth);
        let mid = tree::preorder_all(s, shorter, depth);
        let tail = tree::preorder(s, b.last(), depth);
        assert(head + mid + tail =~= head + (mid + tail));
    }
}

/// No two nodes share an id.
pub open spec fn share_no_id(s: Seq<TaskNodeSpec>) -> bool {
    forall|i: int, j: int|
        #![trigger s[i], s[j]]
        0 <= i < j < s.len() ==> s[i].id != s[j].id
}

/// A node has no parent, or another one of the nodes.
pub open spec fn has_its_parent(s: Seq<TaskNodeSpec>, node: TaskNodeSpec) -> bool {
    match node.parent {
        Some(parent) => parent != node.id && exists|k: int|
            0 <= k < s.len() && (#[trigger] s[k]).id == parent,
        None => true,
    }
}

/// Nodes form a tree if and only if no two share an id and every parent is another
/// one of them; and then the tree holds just these nodes, in this order.
pub proof fn law_a_tree_is_built_of_sound_nodes(s: Seq<TaskNodeSpec>)
    ensures
        tree::assembled(s) is Ok <==> share_no_id(s) && forall|i: int|
            0 <= i < s.len() ==> has_its_parent(s, #[trigger] s[i]),
        tree::assembled(s) matches Ok(nodes) ==> nodes == s,
{
    assert forall|i: int| 0 <= i < s.len() implies (has_its_parent(s, #[trigger] s[i])
        <==> !tree::is_dangling(s, s[i])) by {}
    assert(share_no_id(s) <==> tree::distinct_ids(s)) by {
        if share_no_id(s) {
            assert forall|i: int, j: int|
                #![trigger s[i], s[j]]
                0 <= i < s.len() && 0 <= j < s.len() && s[i].id == s[j].id implies i == j by {
                if i < j {
                    assert(s[i].id != s[j].id);
                }
                if j < i {
                    assert(s[j].id != s[i].id);
                }
            }
        }
    }
    if tree::assembled(s) is Ok {
        lemma_no_dangling(s, s);
    } else if tree::distinct_ids(s) && forall|i: int|
        0 <= i < s.len() ==> has_its_parent(s, #[trigger] s[i]) {
        assert forall|i: int| 0 <= i < s.len() implies !tree::is_dangling(s, #[trigger] s[i]) by {
            assert(has_its_parent(s, s[i]));
        }
        tree::lemma_none_dangling(s, s);
    }
}

proof fn lemma_no_dangling(s: Seq<TaskNodeSpec>, part: Seq<TaskNodeSpec>)
    requires
        tree::least_dangling(s, part) is None,
    ensures
        forall|i: int| 0 <= i < part.len() ==> !tree::is_dangling(s, #[trigger] part[i]),
    decreases part.len(),
{
    if part.len() > 0 {
        lemma_no_dangling(s, part.drop_last());
        assert forall|i: int| 0 <= i < part.len() implies !tree::is_dangling(
            s,
            #[trigger] part[i],
        ) by {
            if i < part.len() - 1 {
                assert(part.drop_last()[i] == part[i]);
            }
        }
    }
}

} // verus!
