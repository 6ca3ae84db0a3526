use vstd::prelude::*;
use crate::tree::{
    attached, child_ids, dropped, fresh_node, links_in_bounds, resolve_parent, NodeId, NodeModel,
};

verus! {

/// A node that has just been created has no parent and no children.
pub proof fn lemma_fresh_node_is_detached(s: Seq<NodeModel>, value: i32)
    requires
        s.len() <= usize::MAX,
    ensures
        resolve_parent(s.push(fresh_node(value)), NodeId { index: s.len() as usize }) == None::<NodeId>,
        child_ids(s.push(fresh_node(value)), NodeId { index: s.len() as usize }) == Seq::<NodeId>::empty(),
{
    let t = s.push(fresh_node(value));
    assert(t[s.len() as int] == fresh_node(value));
    assert(child_ids(t, NodeId { index: s.len() as usize }) =~= Seq::<NodeId>::empty());
}

/// After a child is attached, the parent lists it among its children and the
/// child's back-reference resolves to the parent.
pub proof fn lemma_attach_links_both_ways(s: Seq<NodeModel>, parent: NodeId, child: NodeId)
    requires
        links_in_bounds(s),
        parent.index < s.len(),
        child.index < s.len(),
        s[parent.index as int].strong > 0,
        s[child.index as int].strong > 0,
    ensures
        child_ids(attached(s, parent, child), parent).contains(child),
        resolve_parent(attached(s, parent, child), child) == Some(parent),
{
    let t = attached(s, parent, child);
    let cs = child_ids(t, parent);
    assert(t[parent.index as int].children.last() == child.index);
    assert(cs[cs.len() - 1] == child);
}

/// Attaching appends: the children attached earlier keep their places and the
/// new child comes last.
pub proof fn lemma_attach_keeps_order(s: Seq<NodeModel>, parent: NodeId, child: NodeId)
    requires
        links_in_bounds(s),
        parent.index < s.len(),
        child.index < s.len(),
    ensures
        child_ids(attached(s, parent, child), parent) == child_ids(s, parent).push(child),
{
    assert(child_ids(attached(s, parent, child), parent) =~= child_ids(s, parent).push(child));
}

/// A back-reference never outlives what it observes: once the last strong
/// handle to a parent is given up, its children's back-references resolve to
/// nothing.
pub proof fn lemma_parent_gone_after_last_drop(
    before: Seq<NodeModel>,
    after: Seq<NodeModel>,
    parent: NodeId,
    child: NodeId,
)
    requires
        links_in_bounds(before),
        parent.index < before.len(),
        child.index < before.len(),
        before[parent.index as int].strong == 1,
        before[child.index as int].parent == Some(parent.index),
        dropped(before, after, parent),
    ensures
        resolve_parent(after, child) == None::<NodeId>,
{
}

} // verus!
