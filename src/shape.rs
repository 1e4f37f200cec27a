//! Collision geometry as a closed tree of shapes, and its decomposition into
//! drawable leaves.
use vstd::prelude::*;

verus! {

/// A body's collision geometry. `T` is a rigid transform, `L` a length.
pub enum Shape<T, L> {
    /// An infinite half-plane; never drawn.
    Plane,
    Ball { radius: L },
    /// A box given by its two half-extents.
    Cuboid { half_x: L, half_y: L },
    Cylinder,
    Cone,
    /// Child shapes, each placed by a transform relative to the parent.
    Compound { parts: Vec<(T, Shape<T, L>)> },
    /// A polyline given by its vertices and the index pairs of its segments.
    Mesh { vertices: Vec<(L, L)>, indices: Vec<(usize, usize)> },
}

/// The geometry of one drawable leaf.
pub enum LeafGeom<L> {
    Ball(L),
    Cuboid(L, L),
    Lines(Seq<(L, L)>, Seq<(usize, usize)>),
}

/// A drawable leaf: its geometry and the transforms of the compound parts
/// that lead to it, outermost first. Its placement relative to the body is
/// the product of these transforms.
pub struct Leaf<T, L> {
    pub path: Seq<T>,
    pub geom: LeafGeom<L>,
}

/// Whether the tree holds only kinds that can be drawn or skipped
/// (no cylinder and no cone anywhere).
pub open spec fn supported<T, L>(s: Shape<T, L>) -> bool
    decreases s,
{
    match s {
        Shape::Cylinder => false,
        Shape::Cone => false,
        Shape::Compound { parts } => parts_supported(parts@),
        _ => true,
    }
}

pub open spec fn parts_supported<T, L>(parts: Seq<(T, Shape<T, L>)>) -> bool
    decreases parts,
{
    if parts.len() == 0 {
        true
    } else {
        parts_supported(parts.drop_last()) && supported(parts.last().1)
    }
}

/// The leaves of `s` in order, each under `path` followed by the transforms
/// of the compound parts between `s` and the leaf.
pub open spec fn leaves<T, L>(s: Shape<T, L>, path: Seq<T>) -> Seq<Leaf<T, L>>
    decreases s,
{
    match s {
        Shape::Ball { radius } => seq![Leaf { path, geom: LeafGeom::Ball(radius) }],
        Shape::Cuboid { half_x, half_y } => seq![
            Leaf { path, geom: LeafGeom::Cuboid(half_x, half_y) },
        ],
        Shape::Mesh { vertices, indices } => seq![
            Leaf { path, geom: LeafGeom::Lines(vertices@, indices@) },
        ],
        Shape::Compound { parts } => parts_leaves(parts@, path),
        _ => Seq::empty(),
    }
}

pub open spec fn parts_leaves<T, L>(parts: Seq<(T, Shape<T, L>)>, path: Seq<T>) -> Seq<
    Leaf<T, L>,
>
    decreases parts,
{
    if parts.len() == 0 {
        Seq::empty()
    } else {
        parts_leaves(parts.drop_last(), path) + leaves(parts.last().1, path.push(parts.last().0))
    }
}

/// The number of balls, boxes and meshes in the tree.
pub open spec fn leaf_count<T, L>(s: Shape<T, L>) -> nat
    decreases s,
{
    match s {
        Shape::Ball { .. } => 1,
        Shape::Cuboid { .. } => 1,
        Shape::Mesh { .. } => 1,
        Shape::Compound { parts } => parts_leaf_count(parts@),
        _ => 0,
    }
}

pub open spec fn parts_leaf_count<T, L>(parts: Seq<(T, Shape<T, L>)>) -> nat
    decreases parts,
{
    if parts.len() == 0 {
        0
    } else {
        parts_leaf_count(parts.drop_last()) + leaf_count(parts.last().1)
    }
}

/// Tells whether every shape in the tree is of a drawable or skipped kind.
pub fn is_supported<T, L>(s: &Shape<T, L>) -> (r: bool)
    ensures
        r == supported(*s),
    decreases s,
{
    match s {
        Shape::Cylinder => false,
        Shape::Cone => false,
        Shape::Compound { parts } => {
            let mut i: usize = 0;
            while i < parts.len()
                invariant
                    i <= parts.len(),
                    *s == (Shape::Compound { parts: *parts }),
                    parts_supported(parts@.take(i as int)),
                decreases parts.len() - i,
            {
                assert(parts@.take(i as int + 1).drop_last() =~= parts@.take(i as int));
                proof {
                    assert(decreases_to!(*s => (*s)->parts));
                    assert(decreases_to!(*parts => parts@));
                    assert(decreases_to!(parts@ => parts@[i as int]));
                    assert(decreases_to!(parts@[i as int] => parts@[i as int].1));
                }
                if !is_supported(&parts[i].1) {
                    assert(!parts_supported(parts@)) by {
                        if parts_supported(parts@) {
                            lemma_parts_supported_prefix(parts@, i as int + 1);
                        }
                    }
                    return false;
                }
                i = i + 1;
            }
            assert(parts@.take(i as int) =~= parts@);
            true
        },
        _ => true,
    }
}

/// Each part of a supported sequence of parts is supported.
pub proof fn lemma_part_supported<T, L>(parts: Seq<(T, Shape<T, L>)>, i: int)
    requires
        0 <= i < parts.len(),
        parts_supported(parts),
    ensures
        supported(parts[i].1),
    decreases parts.len(),
{
    if i < parts.len() - 1 {
        lemma_part_supported(parts.drop_last(), i);
    }
}

/// A sequence of parts is supported only if each prefix is.
proof fn lemma_parts_supported_prefix<T, L>(parts: Seq<(T, Shape<T, L>)>, n: int)
    requires
        0 <= n <= parts.len(),
        parts_supported(parts),
    ensures
        parts_supported(parts.take(n)),
    decreases parts.len(),
{
    if n < parts.len() {
        assert(parts.drop_last().take(n) =~= parts.take(n));
        lemma_parts_supported_prefix(parts.drop_last(), n);
    } else {
        assert(parts.take(n) =~= parts);
    }
}

} // verus!
