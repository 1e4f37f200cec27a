//! Properties that relate several operations of the manager.
use vstd::prelude::*;
use crate::graphics::{body_nodes, color_given, frame_plan, registered, Body, FrameStep, GraphicsManager};
use crate::shape::{leaf_count, leaves, parts_leaf_count, parts_leaves, Shape};

verus! {

/// Registering the same body twice leaves exactly the nodes of the second
/// registration under its handle: nothing of the first list remains, other
/// bodies are untouched, and the handle stays listed once.
pub proof fn lemma_reregister_replaces<T, L>(
    m0: GraphicsManager<T, L>,
    m1: GraphicsManager<T, L>,
    m2: GraphicsManager<T, L>,
    first: Body<T, L>,
    second: Body<T, L>,
)
    requires
        first.id == second.id,
        registered(m0, m1, first),
        registered(m1, m2, second),
    ensures
        m2.registry() == m0.registry().insert(
            second.id,
            body_nodes(second.id, second.margin, m2.colors()[second.id], second.shape),
        ),
        m2.order() == m1.order(),
        m2.order().no_duplicates(),
{
    assert(m1.registry().contains_key(first.id));
    assert(m2.registry() =~= m0.registry().insert(
        second.id,
        body_nodes(second.id, second.margin, m2.colors()[second.id], second.shape),
    ));
    m2.lemma_wf_order();
}

/// A shape tree yields one leaf per ball, box and mesh in it (a plane
/// yields none), and each leaf's transform path extends the path of the
/// tree it was found in, followed by the transforms of the compound parts
/// above it.
pub proof fn lemma_leaves_count<T, L>(s: Shape<T, L>, path: Seq<T>)
    ensures
        leaves(s, path).len() == leaf_count(s),
        forall|i: int|
            0 <= i < leaves(s, path).len() ==> path.is_prefix_of((#[trigger] leaves(s, path)[i]).path),
        s is Plane ==> leaves(s, path).len() == 0,
    decreases s,
{
    if let Shape::Compound { parts } = s {
        assert(decreases_to!(s => s->parts));
        lemma_parts_leaves_count(parts@, path);
    } else {
        assert forall|i: int| 0 <= i < leaves(s, path).len() implies path.is_prefix_of(
            #[trigger] leaves(s, path)[i].path,
        ) by {
            assert(leaves(s, path)[i].path.subrange(0, path.len() as int) =~= path);
        }
    }
}

proof fn lemma_parts_leaves_count<T, L>(parts: Seq<(T, Shape<T, L>)>, path: Seq<T>)
    ensures
        parts_leaves(parts, path).len() == parts_leaf_count(parts),
        forall|i: int|
            0 <= i < parts_leaves(parts, path).len() ==> path.is_prefix_of((#[trigger] parts_leaves(parts, path)[i]).path),
    decreases parts,
{
    if parts.len() > 0 {
        let last = parts.last();
        let p2 = path.push(last.0);
        lemma_parts_leaves_count(parts.drop_last(), path);
        assert(decreases_to!(parts => parts[parts.len() - 1]));
        lemma_leaves_count(last.1, p2);
        let a = parts_leaves(parts.drop_last(), path);
        let b = leaves(last.1, p2);
        assert forall|i: int| 0 <= i < parts_leaves(parts, path).len() implies path.is_prefix_of(
            #[trigger] parts_leaves(parts, path)[i].path,
        ) by {
            if i >= a.len() {
                let q = b[i - a.len()].path;
                assert(p2.is_prefix_of(q));
                assert forall|j: int| 0 <= j < path.len() implies q[j] == path[j] by {
                    assert(q.subrange(0, p2.len() as int)[j] == p2[j]);
                }
                assert(q.subrange(0, path.len() as int) =~= path);
            } else {
                assert(path.is_prefix_of(a[i].path));
            }
        }
    }
}

/// Registering a body leaves exactly one node under its handle per ball,
/// box and mesh of its shape.
pub proof fn lemma_node_count<T, L>(m0: GraphicsManager<T, L>, m1: GraphicsManager<T, L>, b: Body<T, L>)
    requires
        registered(m0, m1, b),
    ensures
        m1.registry()[b.id].len() == leaf_count(b.shape),
{
    lemma_leaves_count(b.shape, Seq::empty());
}

/// Asking twice in a row for a body's color gives the same color, and the
/// second request changes nothing.
pub proof fn lemma_color_idempotent<T, L>(
    m0: GraphicsManager<T, L>,
    m1: GraphicsManager<T, L>,
    m2: GraphicsManager<T, L>,
    body: u64,
    c1: crate::scene::Rgb,
    c2: crate::scene::Rgb,
)
    requires
        color_given(m0, m1, body, c1),
        color_given(m1, m2, body, c2),
    ensures
        c2 == c1,
        m2 == m1,
{
}

/// A frame with nothing registered only switches the camera to scene mode
/// and back to UI mode.
pub proof fn lemma_empty_frame<T, L>(m: GraphicsManager<T, L>)
    requires
        m.order().len() == 0,
    ensures
        frame_plan(m.order(), m.registry()) == seq![FrameStep::ActivateScene, FrameStep::ActivateUi],
{
    assert(frame_plan(m.order(), m.registry()) =~= seq![FrameStep::ActivateScene, FrameStep::ActivateUi]);
}

} // verus!
