//! Where a multi-file write inserts its range repartitioning and partition-local sort.
//!
//! The physical plan is searched from the root: a node whose output schema holds both the
//! partition column and the sort column is wrapped by the sort, and a node that lacks one of
//! them passes the search on to each of its children. A leaf that lacks one refuses the write.

use vstd::prelude::*;
use crate::plan::{contains_name, names_contain};

verus! {

/// A physical-plan tree reduced to the output field names of each node.
pub struct PlanSchemaNode {
    pub field_names: Vec<String>,
    pub children: Vec<PlanSchemaNode>,
}

/// A plan in which no path from the root reaches a node holding both control columns.
#[derive(Clone, Debug, PartialEq, Eq)]
pub struct MissingSortColumns {
    pub partition_column: String,
    pub sort_column: String,
    /// The output field names of the leaf where the search ended.
    pub field_names: Vec<String>,
}

pub open spec fn holds_both(node: PlanSchemaNode, partition: Seq<char>, sort: Seq<char>) -> bool {
    names_contain(node.field_names@, partition) && names_contain(node.field_names@, sort)
}

pub open spec fn prefixed(index: int, paths: Seq<Seq<int>>) -> Seq<Seq<int>> {
    paths.map_values(|p: Seq<int>| seq![index] + p)
}

/// The child-index paths, in depth-first order, of the nodes the sort wraps, or `None` where
/// the search reaches a leaf without both columns.
pub open spec fn insertion_paths(node: PlanSchemaNode, partition: Seq<char>, sort: Seq<char>) -> Option<
    Seq<Seq<int>>,
>
    decreases node,
{
    if holds_both(node, partition, sort) {
        Some(seq![Seq::empty()])
    } else if node.children@.len() == 0 {
        None
    } else {
        children_paths(node.children@, partition, sort)
    }
}

/// The insertion paths below a sequence of siblings, each prefixed with its sibling index.
pub open spec fn children_paths(children: Seq<PlanSchemaNode>, partition: Seq<char>, sort: Seq<char>) -> Option<
    Seq<Seq<int>>,
>
    decreases children,
{
    if children.len() == 0 {
        Some(Seq::empty())
    } else {
        let last = children.len() - 1;
        match (
            children_paths(children.subrange(0, last), partition, sort),
            insertion_paths(children[last], partition, sort),
        ) {
            (Some(a), Some(b)) => Some(a + prefixed(last, b)),
            _ => None,
        }
    }
}

/// The field names of the first leaf, in depth-first order, where the search fails.
pub open spec fn failing_leaf(node: PlanSchemaNode, partition: Seq<char>, sort: Seq<char>) -> Seq<String>
    decreases node,
{
    if node.children@.len() == 0 {
        node.field_names@
    } else {
        children_failing_leaf(node.children@, partition, sort)
    }
}

pub open spec fn children_failing_leaf(children: Seq<PlanSchemaNode>, partition: Seq<char>, sort: Seq<char>) -> Seq<
    String,
>
    decreases children,
{
    if children.len() == 0 {
        Seq::empty()
    } else {
        let last = children.len() - 1;
        if children_paths(children.subrange(0, last), partition, sort) is None {
            children_failing_leaf(children.subrange(0, last), partition, sort)
        } else {
            failing_leaf(children[last], partition, sort)
        }
    }
}

pub open spec fn path_view(path: Seq<usize>) -> Seq<int> {
    path.map_values(|x: usize| x as int)
}

pub open spec fn paths_view(paths: Seq<Vec<usize>>) -> Seq<Seq<int>> {
    paths.map_values(|p: Vec<usize>| path_view(p@))
}

fn clone_names(names: &Vec<String>) -> (copy: Vec<String>)
    ensures
        copy@ == names@,
{
    let mut copy: Vec<String> = Vec::new();
    let mut i: usize = 0;
    while i < names.len()
        invariant
            i <= names@.len(),
            copy@ == names@.subrange(0, i as int),
        decreases names@.len() - i,
    {
        copy.push(names[i].clone());
        i = i + 1;
        proof {
            assert(copy@ =~= names@.subrange(0, i as int));
        }
    }
    proof {
        assert(names@.subrange(0, names@.len() as int) =~= names@);
    }
    copy
}

/// Find where the partitioned sort goes: the child-index paths of the topmost nodes that hold
/// both the partition column and the sort column.
pub fn sort_insertion_paths(node: &PlanSchemaNode, partition_column: &str, sort_column: &str) -> (result:
    Result<Vec<Vec<usize>>, MissingSortColumns>)
    ensures
        match insertion_paths(*node, partition_column@, sort_column@) {
            Some(paths) => result matches Ok(found) && paths_view(found@) == paths,
            None => result matches Err(e) && e.partition_column@ == partition_column@
                && e.sort_column@ == sort_column@ && e.field_names@ == failing_leaf(
                *node,
                partition_column@,
                sort_column@,
            ),
        },
    decreases node,
{
    let has_partition = contains_name(node.field_names.as_slice(), partition_column);
    let has_sort = contains_name(node.field_names.as_slice(), sort_column);
    if has_partition && has_sort {
        let mut here: Vec<Vec<usize>> = Vec::new();
        here.push(Vec::new());
        proof {
            assert(path_view(here@[0]@) =~= Seq::<int>::empty());
            assert(paths_view(here@) =~= seq![Seq::<int>::empty()]);
        }
        return Ok(here);
    }
    if node.children.len() == 0 {
        return Err(
            MissingSortColumns {
                partition_column: partition_column.to_string(),
                sort_column: sort_column.to_string(),
                field_names: clone_names(&node.field_names),
            },
        );
    }
    let ghost children = node.children@;
    let ghost p = partition_column@;
    let ghost s = sort_column@;
    let mut found: Vec<Vec<usize>> = Vec::new();
    let mut i: usize = 0;
    proof {
        assert(children.subrange(0, 0) =~= Seq::<PlanSchemaNode>::empty());
        assert(paths_view(found@) =~= Seq::<Seq<int>>::empty());
    }
    while i < node.children.len()
        invariant
            children == node.children@,
            i <= children.len(),
            children.len() > 0,
            !holds_both(*node, p, s),
            p == partition_column@,
            s == sort_column@,
            children_paths(children.subrange(0, i as int), p, s) matches Some(a) && paths_view(
                found@,
            ) == a,
        decreases children.len() - i,
    {
        let ghost prefix = children.subrange(0, i as int);
        let ghost next = children.subrange(0, i + 1);
        proof {
            assert(next.subrange(0, i as int) =~= prefix);
            assert(next[i as int] == children[i as int]);
        }
        match sort_insertion_paths(&node.children[i], partition_column, sort_column) {
            Ok(child_paths) => {
                let ghost before = found@;
                let mut j: usize = 0;
                while j < child_paths.len()
                    invariant
                        j <= child_paths@.len(),
                        found@.len() == before.len() + j,
                        forall|t: int| 0 <= t < before.len() ==> found@[t] == before[t],
                        forall|t: int|
                            0 <= t < j ==> (#[trigger] found@[before.len() + t])@ == seq![i]
                                + child_paths@[t]@,
                    decreases child_paths@.len() - j,
                {
                    let mut path: Vec<usize> = Vec::new();
                    path.push(i);
                    let inner = &child_paths[j];
                    let mut t: usize = 0;
                    while t < inner.len()
                        invariant
                            t <= inner@.len(),
                            path@ == seq![i] + inner@.subrange(0, t as int),
                        decreases inner@.len() - t,
                    {
                        path.push(inner[t]);
                        t = t + 1;
                        proof {
                            assert(path@ =~= seq![i] + inner@.subrange(0, t as int));
                        }
                    }
                    proof {
                        assert(inner@.subrange(0, inner@.len() as int) =~= inner@);
                    }
                    found.push(path);
                    j = j + 1;
                }
                proof {
                    let a = children_paths(prefix, p, s)->Some_0;
                    let b = insertion_paths(children[i as int], p, s)->Some_0;
                    assert(b == paths_view(child_paths@));
                    assert(paths_view(before) == a);
                    assert forall|t: int| 0 <= t < found@.len() implies #[trigger] paths_view(found@)[t]
                        == (a + prefixed(i as int, b))[t] by {
                        if t < before.len() {
                            assert(found@[t] == before[t]);
                        } else {
                            let u = t - before.len();
                            assert(found@[before.len() + u]@ == seq![i] + child_paths@[u]@);
                            assert(path_view(found@[t]@) =~= seq![i as int] + path_view(
                                child_paths@[u]@,
                            ));
                        }
                    }
                    assert(paths_view(found@) =~= a + prefixed(i as int, b));
                }
            },
            Err(e) => {
                proof {
                    assert(children_paths(next, p, s) is None);
                    lemma_children_paths_none_extends(children, (i + 1) as nat, p, s);
                    lemma_failing_leaf_first(children, i as nat, p, s);
                    assert(children.subrange(0, children.len() as int) =~= children);
                }
                return Err(e);
            },
        }
        i = i + 1;
    }
    proof {
        assert(children.subrange(0, children.len() as int) =~= children);
    }
    Ok(found)
}

/// Once a prefix of siblings fails, every longer prefix fails.
proof fn lemma_children_paths_none_extends(children: Seq<PlanSchemaNode>, k: nat, p: Seq<char>, s: Seq<char>)
    requires
        k <= children.len(),
        children_paths(children.subrange(0, k as int), p, s) is None,
    ensures
        children_paths(children, p, s) is None,
    decreases children.len() - k,
{
    if k < children.len() {
        let next = children.subrange(0, (k + 1) as int);
        assert(next.subrange(0, k as int) =~= children.subrange(0, k as int));
        lemma_children_paths_none_extends(children, k + 1, p, s);
    } else {
        assert(children.subrange(0, k as int) =~= children);
    }
}

/// The failing leaf of siblings is that of the first sibling that fails.
proof fn lemma_failing_leaf_first(children: Seq<PlanSchemaNode>, i: nat, p: Seq<char>, s: Seq<char>)
    requires
        i < children.len(),
        children_paths(children.subrange(0, i as int), p, s) is Some,
        insertion_paths(children[i as int], p, s) is None,
    ensures
        children_failing_leaf(children, p, s) == failing_leaf(children[i as int], p, s),
    decreases children.len() - i,
{
    let next = children.subrange(0, (i + 1) as int);
    assert(next.subrange(0, i as int) =~= children.subrange(0, i as int));
    assert(next[i as int] == children[i as int]);
    lemma_failing_leaf_prefix(children, (i + 1) as nat, p, s);
    assert(children_failing_leaf(next, p, s) == failing_leaf(children[i as int], p, s));
}

/// Extending failing siblings on the right keeps the failing leaf.
proof fn lemma_failing_leaf_prefix(children: Seq<PlanSchemaNode>, k: nat, p: Seq<char>, s: Seq<char>)
    requires
        k <= children.len(),
        children_paths(children.subrange(0, k as int), p, s) is None,
    ensures
        children_failing_leaf(children, p, s) == children_failing_leaf(children.subrange(0, k as int), p, s),
    decreases children.len() - k,
{
    if k < children.len() {
        let next = children.subrange(0, (k + 1) as int);
        assert(next.subrange(0, k as int) =~= children.subrange(0, k as int));
        lemma_children_paths_none_extends(next, k, p, s);
        lemma_failing_leaf_prefix(children, k + 1, p, s);
    } else {
        assert(children.subrange(0, k as int) =~= children);
    }
}

/// The node that a child-index path leads to, if every index exists.
pub open spec fn subtree_at(node: PlanSchemaNode, path: Seq<int>) -> Option<PlanSchemaNode>
    decreases path.len(),
{
    if path.len() == 0 {
        Some(node)
    } else if 0 <= path[0] < node.children@.len() {
        subtree_at(node.children@[path[0]], path.drop_first())
    } else {
        None
    }
}

/// `path` leads to a node holding both columns, through nodes that do not.
pub open spec fn topmost_holder(node: PlanSchemaNode, path: Seq<int>, partition: Seq<char>, sort: Seq<char>) -> bool {
    &&& subtree_at(node, path) matches Some(n) && holds_both(n, partition, sort)
    &&& forall|k: int| 0 <= k < path.len() ==> #[trigger] passes_by(node, path.take(k), partition, sort)
}

/// `path` leads to a node that does not hold both columns.
pub open spec fn passes_by(node: PlanSchemaNode, path: Seq<int>, partition: Seq<char>, sort: Seq<char>) -> bool {
    match subtree_at(node, path) {
        Some(m) => !holds_both(m, partition, sort),
        None => false,
    }
}

/// Every path where the sort is inserted leads to a node that holds both the partition and the
/// sort column, and no node above it on the path holds both.
pub proof fn lemma_insertion_paths_reach_topmost_holders(node: PlanSchemaNode, partition: Seq<char>, sort: Seq<char>)
    ensures
        insertion_paths(node, partition, sort) matches Some(paths) ==> forall|i: int|
            0 <= i < paths.len() ==> topmost_holder(node, #[trigger] paths[i], partition, sort),
    decreases node,
{
    if holds_both(node, partition, sort) {
        let paths = seq![Seq::<int>::empty()];
        assert forall|i: int| 0 <= i < paths.len() implies topmost_holder(
            node,
            #[trigger] paths[i],
            partition,
            sort,
        ) by {
            assert(paths[i] == Seq::<int>::empty());
        }
    } else if node.children@.len() > 0 {
        lemma_children_paths_reach_holders(node.children@, partition, sort);
        if let Some(paths) = insertion_paths(node, partition, sort) {
            assert forall|i: int| 0 <= i < paths.len() implies topmost_holder(
                node,
                #[trigger] paths[i],
                partition,
                sort,
            ) by {
                let p = paths[i];
                let child = node.children@[p[0]];
                let rest = p.drop_first();
                assert(topmost_holder(child, rest, partition, sort));
                assert(subtree_at(node, p) == subtree_at(child, rest));
                assert forall|k: int| 0 <= k < p.len() implies #[trigger] passes_by(
                    node,
                    p.take(k),
                    partition,
                    sort,
                ) by {
                    if k == 0 {
                        assert(p.take(0).len() == 0);
                    } else {
                        assert(p.take(k)[0] == p[0]);
                        assert(p.take(k).drop_first() =~= rest.take(k - 1));
                        assert(subtree_at(node, p.take(k)) == subtree_at(child, rest.take(k - 1)));
                        assert(passes_by(child, rest.take(k - 1), partition, sort));
                    }
                }
            }
        }
    }
}

proof fn lemma_children_paths_reach_holders(children: Seq<PlanSchemaNode>, partition: Seq<char>, sort: Seq<char>)
    ensures
        children_paths(children, partition, sort) matches Some(paths) ==> forall|i: int|
            0 <= i < paths.len() ==> {
                &&& (#[trigger] paths[i]).len() >= 1
                &&& 0 <= paths[i][0] < children.len()
                &&& topmost_holder(children[paths[i][0]], paths[i].drop_first(), partition, sort)
            },
    decreases children,
{
    if children.len() > 0 {
        let last = children.len() - 1;
        let prefix = children.subrange(0, last);
        lemma_children_paths_reach_holders(prefix, partition, sort);
        lemma_insertion_paths_reach_topmost_holders(children[last], partition, sort);
        if let Some(paths) = children_paths(children, partition, sort) {
            let a = children_paths(prefix, partition, sort)->Some_0;
            let b = insertion_paths(children[last], partition, sort)->Some_0;
            assert(paths == a + prefixed(last, b));
            assert forall|i: int| 0 <= i < paths.len() implies {
                &&& (#[trigger] paths[i]).len() >= 1
                &&& 0 <= paths[i][0] < children.len()
                &&& topmost_holder(children[paths[i][0]], paths[i].drop_first(), partition, sort)
            } by {
                if i < a.len() {
                    assert(paths[i] == a[i]);
                    assert(prefix[a[i][0]] == children[a[i][0]]);
                } else {
                    let j = i - a.len();
                    assert(paths[i] == seq![last] + b[j]);
                    assert(paths[i][0] == last);
                    assert(paths[i].drop_first() =~= b[j]);
                }
            }
        }
    }
}

} // verus!
