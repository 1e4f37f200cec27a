//! Drawable scene nodes derived from the leaves of a body's shape.
use vstd::prelude::*;
use crate::shape::{Leaf, LeafGeom};

verus! {

/// An 8-bit RGB color.
#[derive(Clone, Copy, PartialEq, Eq, Structural, Debug)]
pub struct Rgb {
    pub r: u8,
    pub g: u8,
    pub b: u8,
}

/// A drawable view of one leaf of a body's shape.
///
/// `body` is the handle of the owning body and `delta` the transforms of the
/// compound parts that lead to the leaf, outermost first: the node sits at
/// their product relative to the body. Balls and boxes carry the body's
/// collision margin, by which their drawn outline is inflated (a ball is drawn
/// with radius `radius + margin`, a box with half-extents `half_x + margin`
/// and `half_y + margin`).
pub enum SceneNode<T, L> {
    BallNode { body: u64, delta: Vec<T>, radius: L, margin: L, color: Rgb, selected: bool },
    BoxNode {
        body: u64,
        delta: Vec<T>,
        half_x: L,
        half_y: L,
        margin: L,
        color: Rgb,
        selected: bool,
    },
    LinesNode {
        body: u64,
        delta: Vec<T>,
        vertices: Vec<(L, L)>,
        indices: Vec<(usize, usize)>,
        color: Rgb,
        selected: bool,
    },
}

/// What a node draws: nominal geometry together with the margin that
/// inflates it, or a polyline.
pub enum NodeGeom<L> {
    Ball { radius: L, margin: L },
    Box { half_x: L, half_y: L, margin: L },
    Lines { vertices: Seq<(L, L)>, indices: Seq<(usize, usize)> },
}

/// The abstract content of a scene node.
pub struct NodeModel<T, L> {
    pub body: u64,
    pub path: Seq<T>,
    pub geom: NodeGeom<L>,
    pub color: Rgb,
    pub selected: bool,
}

impl<T, L> View for SceneNode<T, L> {
    type V = NodeModel<T, L>;

    open spec fn view(&self) -> NodeModel<T, L> {
        match *self {
            SceneNode::BallNode { body, delta, radius, margin, color, selected } => NodeModel {
                body,
                path: delta@,
                geom: NodeGeom::Ball { radius, margin },
                color,
                selected,
            },
            SceneNode::BoxNode { body, delta, half_x, half_y, margin, color, selected } => NodeModel {
                body,
                path: delta@,
                geom: NodeGeom::Box { half_x, half_y, margin },
                color,
                selected,
            },
            SceneNode::LinesNode { body, delta, vertices, indices, color, selected } => NodeModel {
                body,
                path: delta@,
                geom: NodeGeom::Lines { vertices: vertices@, indices: indices@ },
                color,
                selected,
            },
        }
    }
}

/// The unselected node that a leaf of `body`'s shape becomes.
pub open spec fn leaf_node<T, L>(body: u64, margin: L, color: Rgb, leaf: Leaf<T, L>) -> NodeModel<
    T,
    L,
> {
    NodeModel {
        body,
        path: leaf.path,
        geom: match leaf.geom {
            LeafGeom::Ball(radius) => NodeGeom::Ball { radius, margin },
            LeafGeom::Cuboid(half_x, half_y) => NodeGeom::Box { half_x, half_y, margin },
            LeafGeom::Lines(vertices, indices) => NodeGeom::Lines { vertices, indices },
        },
        color,
        selected: false,
    }
}

impl<T, L> SceneNode<T, L> {
    /// Marks the node as highlighted.
    pub fn select(&mut self)
        ensures
            final(self)@ == (NodeModel { selected: true, ..old(self)@ }),
    {
        match self {
            SceneNode::BallNode { selected, .. } => *selected = true,
            SceneNode::BoxNode { selected, .. } => *selected = true,
            SceneNode::LinesNode { selected, .. } => *selected = true,
        }
    }

    /// Clears the highlight.
    pub fn unselect(&mut self)
        ensures
            final(self)@ == (NodeModel { selected: false, ..old(self)@ }),
    {
        match self {
            SceneNode::BallNode { selected, .. } => *selected = false,
            SceneNode::BoxNode { selected, .. } => *selected = false,
            SceneNode::LinesNode { selected, .. } => *selected = false,
        }
    }
}

} // verus!
