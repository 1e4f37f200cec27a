//! The registry of scene nodes per body, the per-body color cache, and the
//! plan of each frame.
use vstd::prelude::*;
use std::collections::HashMap;
use rand_xorshift::XorShiftRng;
use crate::rng::{gen_below, xorshift_from_seed};
use crate::scene::{leaf_node, NodeModel, Rgb, SceneNode};
use crate::shape::{is_supported, leaves, parts_leaves, supported, Leaf, LeafGeom, Shape};

verus! {

broadcast use vstd::std_specs::hash::group_hash_axioms;

/// Keeps the drawable nodes of each registered body, keyed by the body's
/// handle, and one stable color per body.
pub struct GraphicsManager<T, L> {
    rand: XorShiftRng,
    rb2sn: Vec<(u64, Vec<SceneNode<T, L>>)>,
    obj2color: HashMap<u64, Rgb>,
}

/// A simulated body as the scene sees it: the handle that identifies it, its
/// collision margin and its shape.
pub struct Body<T, L> {
    pub id: u64,
    pub margin: L,
    pub shape: Shape<T, L>,
}

/// Why a body could not be registered.
#[derive(Clone, Copy, PartialEq, Eq, Structural, Debug)]
pub enum ClassifyError {
    /// The shape tree holds a kind that cannot be drawn (a cylinder or a cone).
    UnsupportedShape,
}

/// One step of a frame, in the order in which the frame performs them.
#[derive(Clone, Copy, PartialEq, Eq, Structural, Debug)]
pub enum FrameStep {
    /// The camera enters scene-rendering mode.
    ActivateScene,
    /// The node at `index` in `body`'s list pulls its state from the body.
    Update { body: u64, index: usize },
    /// The node at `index` in `body`'s list is drawn.
    Draw { body: u64, index: usize },
    /// The camera returns to UI-rendering mode.
    ActivateUi,
}

/// The step of one pass for the node at `index` in `body`'s list.
pub open spec fn pass_step(body: u64, index: int, drawing: bool) -> FrameStep {
    if drawing {
        FrameStep::Draw { body, index: index as usize }
    } else {
        FrameStep::Update { body, index: index as usize }
    }
}

/// One pass over the bodies in `order`, and over each body's nodes in order.
pub open spec fn pass<T, L>(order: Seq<u64>, reg: Map<u64, Seq<NodeModel<T, L>>>, drawing: bool) -> Seq<
    FrameStep,
>
    decreases order.len(),
{
    if order.len() == 0 {
        Seq::empty()
    } else {
        let b = order.last();
        pass(order.drop_last(), reg, drawing) + Seq::new(
            reg[b].len(),
            |j: int| pass_step(b, j, drawing),
        )
    }
}

/// A frame: scene mode, every node updated, every node drawn, UI mode.
pub open spec fn frame_plan<T, L>(order: Seq<u64>, reg: Map<u64, Seq<NodeModel<T, L>>>) -> Seq<
    FrameStep,
> {
    seq![FrameStep::ActivateScene] + pass(order, reg, false) + pass(order, reg, true) + seq![
        FrameStep::ActivateUi,
    ]
}

/// The nodes that `shape`'s leaves become for `body`, all of color `color`.
pub open spec fn body_nodes<T, L>(body: u64, margin: L, color: Rgb, shape: Shape<T, L>) -> Seq<
    NodeModel<T, L>,
> {
    leaves(shape, Seq::empty()).map_values(|l: Leaf<T, L>| leaf_node(body, margin, color, l))
}

/// `m1` is `m0` after `b` was registered: `b`'s previous nodes, if any, are
/// replaced by those of its shape, in the color that `b` has afterwards.
pub open spec fn registered<T, L>(m0: GraphicsManager<T, L>, m1: GraphicsManager<T, L>, b: Body<T, L>) -> bool {
    &&& m1.wf()
    &&& colors_after(m0.colors(), m1.colors(), b.id, leaves(b.shape, Seq::empty()).len() > 0)
    &&& m1.registry() == m0.registry().insert(
        b.id,
        body_nodes(b.id, b.margin, m1.colors()[b.id], b.shape),
    )
    &&& m1.order() == if m0.registry().contains_key(b.id) {
        m0.order()
    } else {
        m0.order().push(b.id)
    }
}

/// `m1` is `m0` after `body` was given the color `c`: a body that had a
/// color keeps it and nothing changes; otherwise `c` is stored for it.
pub open spec fn color_given<T, L>(m0: GraphicsManager<T, L>, m1: GraphicsManager<T, L>, body: u64, c: Rgb) -> bool {
    &&& m0.colors().contains_key(body) ==> c == m0.colors()[body] && m1 == m0
    &&& !m0.colors().contains_key(body) ==> {
        &&& m1.colors() == m0.colors().insert(body, c)
        &&& m1.registry() == m0.registry()
        &&& m1.order() == m0.order()
        &&& m1.wf() == m0.wf()
    }
}

/// The abstract content of a list of nodes.
pub open spec fn nodes_view<T, L>(v: Seq<SceneNode<T, L>>) -> Seq<NodeModel<T, L>> {
    v.map_values(|n: SceneNode<T, L>| n@)
}

/// How a color cache changes when the nodes of `body` are built: unchanged
/// when no node is built, otherwise `body` has a color afterwards, the one it
/// had before if any.
pub open spec fn colors_after(c0: Map<u64, Rgb>, c1: Map<u64, Rgb>, body: u64, used: bool) -> bool {
    if used {
        &&& c1 == c0.insert(body, c1[body])
        &&& c0.contains_key(body) ==> c1[body] == c0[body]
    } else {
        c1 == c0
    }
}

/// A copy of `v`.
fn copy_vec<X: Copy>(v: &Vec<X>) -> (r: Vec<X>)
    ensures
        r@ == v@,
{
    let mut r: Vec<X> = Vec::new();
    let mut i: usize = 0;
    while i < v.len()
        invariant
            i <= v.len(),
            r@ == v@.take(i as int),
        decreases v.len() - i,
    {
        r.push(v[i]);
        i = i + 1;
        assert(r@ =~= v@.take(i as int));
    }
    assert(v@.take(i as int) =~= v@);
    r
}

/// `out1` is `out0` followed by the nodes that `ls` become for `body`, in
/// order, and `m1` is `m0` with the colors that building them assigns.
spec fn grown<T, L>(
    m0: GraphicsManager<T, L>,
    m1: GraphicsManager<T, L>,
    out0: Seq<SceneNode<T, L>>,
    out1: Seq<SceneNode<T, L>>,
    body: u64,
    margin: L,
    ls: Seq<Leaf<T, L>>,
) -> bool {
    &&& m1.registry() == m0.registry()
    &&& m1.order() == m0.order()
    &&& colors_after(m0.colors(), m1.colors(), body, ls.len() > 0)
    &&& out1.len() == out0.len() + ls.len()
    &&& forall|i: int| 0 <= i < out0.len() ==> out1[i] == out0[i]
    &&& forall|j: int|
        0 <= j < ls.len() ==> (#[trigger] out1[out0.len() + j])@ == leaf_node(
            body,
            margin,
            m1.colors()[body],
            ls[j],
        )
}

proof fn lemma_grown_trans<T, L>(
    m0: GraphicsManager<T, L>,
    m1: GraphicsManager<T, L>,
    m2: GraphicsManager<T, L>,
    out0: Seq<SceneNode<T, L>>,
    out1: Seq<SceneNode<T, L>>,
    out2: Seq<SceneNode<T, L>>,
    body: u64,
    margin: L,
    ls1: Seq<Leaf<T, L>>,
    ls2: Seq<Leaf<T, L>>,
)
    requires
        grown(m0, m1, out0, out1, body, margin, ls1),
        grown(m1, m2, out1, out2, body, margin, ls2),
    ensures
        grown(m0, m2, out0, out2, body, margin, ls1 + ls2),
{
    let ls = ls1 + ls2;
    if ls1.len() > 0 && ls2.len() > 0 {
        assert(m1.colors().contains_key(body));
        assert(m2.colors() == m1.colors());
    }
    assert forall|j: int| 0 <= j < ls.len() implies (#[trigger] out2[out0.len() + j])@ == leaf_node(
        body,
        margin,
        m2.colors()[body],
        ls[j],
    ) by {
        if j < ls1.len() {
            assert(out1[out0.len() + j] == out2[out0.len() + j]);
        } else {
            let k = j - ls1.len();
            assert(out2[out1.len() + k] == out2[out0.len() + j]);
        }
    }
}

proof fn lemma_one_leaf<T, L>(
    m0: GraphicsManager<T, L>,
    m1: GraphicsManager<T, L>,
    out0: Seq<SceneNode<T, L>>,
    out1: Seq<SceneNode<T, L>>,
    body: u64,
    margin: L,
    c: Rgb,
    leaf: Leaf<T, L>,
)
    requires
        m0.colors().contains_key(body) ==> c == m0.colors()[body] && m1 == m0,
        !m0.colors().contains_key(body) ==> {
            &&& m1.colors() == m0.colors().insert(body, c)
            &&& m1.registry() == m0.registry()
            &&& m1.order() == m0.order()
        },
        out1.len() == out0.len() + 1,
        forall|i: int| 0 <= i < out0.len() ==> out1[i] == out0[i],
        out1[out0.len() as int]@ == leaf_node(body, margin, c, leaf),
    ensures
        grown(m0, m1, out0, out1, body, margin, seq![leaf]),
{
    assert(m1.colors()[body] == c);
    assert(m1.colors() =~= m0.colors().insert(body, m1.colors()[body]));
    assert(out1[out0.len() + 0int] == out1[out0.len() as int]);
}

impl<T: Copy, L: Copy> GraphicsManager<T, L> {
    /// Registers `body`: its shape is decomposed into one node per ball, box
    /// and mesh leaf (planes are not drawn), placed by the transforms of the
    /// compound parts above the leaf and colored with the body's color. The
    /// new list replaces whatever `body` had. A shape that holds a cylinder
    /// or a cone is refused, and nothing changes.
    pub fn add(&mut self, body: &Body<T, L>) -> (r: Result<(), ClassifyError>)
        requires
            old(self).wf(),
        ensures
            r is Err <==> !supported(body.shape),
            r is Err ==> *final(self) == *old(self),
            r is Ok ==> registered(*old(self), *final(self), *body),
    {
        if !is_supported(&body.shape) {
            return Err(ClassifyError::UnsupportedShape);
        }
        let mut nodes: Vec<SceneNode<T, L>> = Vec::new();
        let delta: Vec<T> = Vec::new();
        self.add_geom(body.id, body.margin, &delta, &body.shape, &mut nodes);
        let ghost m1 = *self;
        let ghost ls = leaves(body.shape, Seq::empty());
        proof {
            assert(delta@ =~= Seq::<T>::empty());
            assert(m1.wf() == old(self).wf());
        }
        self.insert_nodes(body.id, nodes);
        proof {
            assert(nodes_view(nodes@) =~= body_nodes(body.id, body.margin, self.colors()[body.id], body.shape)) by {
                assert forall|j: int| 0 <= j < ls.len() implies nodes_view(nodes@)[j] == body_nodes(body.id, body.margin, self.colors()[body.id], body.shape)[j] by {
                    assert(nodes@[0 + j] == nodes@[j]);
                }
            }
        }
        Ok(())
    }

    fn add_ball(&mut self, body: u64, margin: L, delta: &Vec<T>, radius: L, out: &mut Vec<SceneNode<T, L>>)
        ensures
            grown(*old(self), *final(self), old(out)@, final(out)@, body, margin,
                seq![Leaf { path: delta@, geom: LeafGeom::Ball(radius) }]),
    {
        let color = self.color_for_object(body);
        let ghost m1 = *self;
        out.push(SceneNode::BallNode { body, delta: copy_vec(delta), radius, margin, color, selected: false });
        proof {
            lemma_one_leaf(*old(self), m1, old(out)@, out@, body, margin, color,
                Leaf { path: delta@, geom: LeafGeom::Ball(radius) });
        }
    }

    fn add_box(&mut self, body: u64, margin: L, delta: &Vec<T>, half_x: L, half_y: L, out: &mut Vec<SceneNode<T, L>>)
        ensures
            grown(*old(self), *final(self), old(out)@, final(out)@, body, margin,
                seq![Leaf { path: delta@, geom: LeafGeom::Cuboid(half_x, half_y) }]),
    {
        let color = self.color_for_object(body);
        let ghost m1 = *self;
        out.push(SceneNode::BoxNode { body, delta: copy_vec(delta), half_x, half_y, margin, color, selected: false });
        proof {
            lemma_one_leaf(*old(self), m1, old(out)@, out@, body, margin, color,
                Leaf { path: delta@, geom: LeafGeom::Cuboid(half_x, half_y) });
        }
    }

    fn add_lines(
        &mut self,
        body: u64,
        margin: L,
        delta: &Vec<T>,
        vertices: &Vec<(L, L)>,
        indices: &Vec<(usize, usize)>,
        out: &mut Vec<SceneNode<T, L>>,
    )
        ensures
            grown(*old(self), *final(self), old(out)@, final(out)@, body, margin,
                seq![Leaf { path: delta@, geom: LeafGeom::Lines(vertices@, indices@) }]),
    {
        let color = self.color_for_object(body);
        let vs = copy_vec(vertices);
        let is = copy_vec(indices);
        let ghost m1 = *self;
        out.push(SceneNode::LinesNode { body, delta: copy_vec(delta), vertices: vs, indices: is, color, selected: false });
        proof {
            lemma_one_leaf(*old(self), m1, old(out)@, out@, body, margin, color,
                Leaf { path: delta@, geom: LeafGeom::Lines(vertices@, indices@) });
        }
    }

    /// Appends to `out` one node for each drawable leaf of `geom`, which sits
    /// at the product of `delta` relative to the body.
    fn add_geom(&mut self, body: u64, margin: L, delta: &Vec<T>, geom: &Shape<T, L>, out: &mut Vec<SceneNode<T, L>>)
        requires
            supported(*geom),
        ensures
            grown(*old(self), *final(self), old(out)@, final(out)@, body, margin, leaves(*geom, delta@)),
        decreases geom,
    {
        match geom {
            Shape::Plane => {},
            Shape::Ball { radius } => self.add_ball(body, margin, delta, *radius, out),
            Shape::Cuboid { half_x, half_y } => self.add_box(body, margin, delta, *half_x, *half_y, out),
            Shape::Mesh { vertices, indices } => self.add_lines(body, margin, delta, vertices, indices, out),
            Shape::Compound { parts } => {
                let mut i: usize = 0;
                while i < parts.len()
                    invariant
                        i <= parts.len(),
                        *geom == (Shape::Compound { parts: *parts }),
                        supported(*geom),
                        grown(*old(self), *self, old(out)@, out@, body, margin,
                            parts_leaves(parts@.take(i as int), delta@)),
                    decreases parts.len() - i,
                {
                    proof {
                        assert(decreases_to!(*geom => (*geom)->parts));
                        assert(decreases_to!(*parts => parts@));
                        assert(decreases_to!(parts@ => parts@[i as int]));
                        assert(decreases_to!(parts@[i as int] => parts@[i as int].1));
                        crate::shape::lemma_part_supported(parts@, i as int);
                    }
                    let ghost m1 = *self;
                    let ghost out1 = out@;
                    let mut d = copy_vec(delta);
                    d.push(parts[i].0);
                    self.add_geom(body, margin, &d, &parts[i].1, out);
                    proof {
                        lemma_grown_trans(*old(self), m1, *self, old(out)@, out1, out@, body, margin,
                            parts_leaves(parts@.take(i as int), delta@),
                            leaves(parts@[i as int].1, delta@.push(parts@[i as int].0)));
                        assert(parts@.take(i as int + 1).drop_last() =~= parts@.take(i as int));
                    }
                    i = i + 1;
                }
                assert(parts@.take(i as int) =~= parts@);
            },
            Shape::Cylinder => {},
            Shape::Cone => {},
        }
    }
}

impl<T, L> GraphicsManager<T, L> {
    /// Handles of the registered bodies, in the order in which they were
    /// first registered.
    pub closed spec fn order(&self) -> Seq<u64> {
        self.rb2sn@.map_values(|e: (u64, Vec<SceneNode<T, L>>)| e.0)
    }

    closed spec fn slot(&self, body: u64) -> int {
        choose|i: int| 0 <= i < self.rb2sn@.len() && self.rb2sn@[i].0 == body
    }

    /// The nodes of each registered body.
    pub closed spec fn registry(&self) -> Map<u64, Seq<NodeModel<T, L>>> {
        Map::new(
            |k: u64| self.order().contains(k),
            |k: u64| nodes_view(self.rb2sn@[self.slot(k)].1@),
        )
    }

    /// The color of each body that has one.
    pub closed spec fn colors(&self) -> Map<u64, Rgb> {
        self.obj2color@
    }

    /// Each body is registered once.
    pub closed spec fn wf(&self) -> bool {
        self.order().no_duplicates()
    }

    /// Under `wf`, no handle is listed twice.
    pub proof fn lemma_wf_order(&self)
        requires
            self.wf(),
        ensures
            self.order().no_duplicates(),
    {
    }

    proof fn lemma_slot(&self, i: int)
        requires
            self.wf(),
            0 <= i < self.rb2sn@.len(),
        ensures
            self.slot(self.rb2sn@[i].0) == i,
            self.order().contains(self.rb2sn@[i].0),
            self.registry()[self.rb2sn@[i].0] == nodes_view(self.rb2sn@[i].1@),
    {
        let k = self.rb2sn@[i].0;
        assert(self.order()[i] == k);
        let j = self.slot(k);
        assert(self.order()[j] == k);
    }

    /// Stores `nodes` as the whole node list of `body`.
    fn insert_nodes(&mut self, body: u64, nodes: Vec<SceneNode<T, L>>)
        requires
            old(self).wf(),
        ensures
            final(self).wf(),
            final(self).registry() == old(self).registry().insert(body, nodes_view(nodes@)),
            final(self).order() == if old(self).registry().contains_key(body) {
                old(self).order()
            } else {
                old(self).order().push(body)
            },
            final(self).colors() == old(self).colors(),
    {
        let ghost m0 = *self;
        let mut i: usize = 0;
        while i < self.rb2sn.len()
            invariant
                *self == m0,
                m0 == *old(self),
                m0.wf(),
                i <= self.rb2sn.len(),
                forall|j: int| 0 <= j < i ==> self.rb2sn@[j].0 != body,
            decreases self.rb2sn.len() - i,
        {
            if self.rb2sn[i].0 == body {
                let ghost kept = nodes;
                self.rb2sn.set(i, (body, nodes));
                proof {
                    Self::lemma_replace_at(m0, *self, i as int, kept);
                }
                return;
            }
            i = i + 1;
        }
        self.rb2sn.push((body, nodes));
        proof {
            assert(self.order() =~= m0.order().push(body));
            assert(!m0.order().contains(body));
            let n = m0.rb2sn@.len() as int;
            self.lemma_slot(n);
            assert(!m0.registry().contains_key(body));
            assert forall|k: u64| #[trigger] self.order().contains(k) <==> (m0.order().contains(k) || k == body) by {
                if m0.order().contains(k) {
                    let j = choose|j: int| 0 <= j < m0.order().len() && m0.order()[j] == k;
                    assert(self.order()[j] == k);
                }
                if self.order().contains(k) && k != body {
                    let j = choose|j: int| 0 <= j < self.order().len() && self.order()[j] == k;
                    assert(m0.order()[j] == k);
                }
            }
            let want = m0.registry().insert(body, nodes_view(nodes@));
            assert(self.registry().dom() =~= want.dom());
            assert forall|k: u64| #[trigger] self.registry().contains_key(k) implies self.registry()[k] == want[k] by {
                if k != body {
                    let j = choose|j: int| 0 <= j < m0.order().len() && m0.order()[j] == k;
                    m0.lemma_slot(j);
                    self.lemma_slot(j);
                }
            }
            assert(self.registry() =~= want);
        }
    }

    proof fn lemma_replace_at(m0: Self, m1: Self, i: int, nodes: Vec<SceneNode<T, L>>)
        requires
            m0.wf(),
            0 <= i < m0.rb2sn@.len(),
            m1.rb2sn@ == m0.rb2sn@.update(i, (m0.rb2sn@[i].0, nodes)),
            m1.obj2color == m0.obj2color,
        ensures
            m1.wf(),
            m1.order() == m0.order(),
            m1.colors() == m0.colors(),
            m0.registry().contains_key(m0.rb2sn@[i].0),
            m1.registry() == m0.registry().insert(m0.rb2sn@[i].0, nodes_view(nodes@)),
    {
        let body = m0.rb2sn@[i].0;
        m0.lemma_slot(i);
        assert(m1.order() =~= m0.order());
        m1.lemma_slot(i);
        let want = m0.registry().insert(body, nodes_view(nodes@));
        assert(m1.registry().dom() =~= want.dom());
        assert forall|k: u64| #[trigger] m1.registry().contains_key(k) implies m1.registry()[k] == want[k] by {
            if k != body {
                let j = choose|j: int| 0 <= j < m0.order().len() && m0.order()[j] == k;
                m0.lemma_slot(j);
                m1.lemma_slot(j);
            }
        }
        assert(m1.registry() =~= want);
    }

    /// The node list of `body`, open for changes (to select nodes), or `None`
    /// if `body` is not registered.
    pub fn body_to_scene_node(&mut self, body: u64) -> (r: Option<&mut Vec<SceneNode<T, L>>>)
        requires
            old(self).wf(),
        ensures
            r is None <==> !old(self).registry().contains_key(body),
            r is None ==> *final(self) == *old(self),
            match r {
                Some(v) => {
                    &&& nodes_view((*v)@) == old(self).registry()[body]
                    &&& final(self).wf()
                    &&& final(self).registry() == old(self).registry().insert(body, nodes_view((*final(v))@))
                    &&& final(self).order() == old(self).order()
                    &&& final(self).colors() == old(self).colors()
                },
                None => true,
            },
    {
        let mut i: usize = 0;
        while i < self.rb2sn.len()
            invariant
                *self == *old(self),
                old(self).wf(),
                i <= self.rb2sn.len(),
                forall|j: int| 0 <= j < i ==> self.rb2sn@[j].0 != body,
            decreases self.rb2sn.len() - i,
        {
            if self.rb2sn[i].0 == body {
                proof {
                    self.lemma_slot(i as int);
                    let m0 = *self;
                    assert forall|m1: Self, nodes: Vec<SceneNode<T, L>>|
                        m1.rb2sn@ == m0.rb2sn@.update(i as int, (body, nodes)) && m1.obj2color
                            == m0.obj2color implies m1.wf() && m1.order() == m0.order()
                            && m1.colors() == m0.colors() && m1.registry() == m0.registry().insert(
                            body,
                            nodes_view(nodes@),
                        ) by {
                        Self::lemma_replace_at(m0, m1, i as int, nodes);
                    }
                }
                return Some(&mut self.rb2sn[i].1);
            }
            i = i + 1;
        }
        proof {
            if self.order().contains(body) {
                let j = choose|j: int| 0 <= j < self.order().len() && self.order()[j] == body;
                assert(self.rb2sn@[j].0 == body);
            }
        }
        None
    }

    /// The plan of one frame: the camera enters scene mode, every node of
    /// every registered body is updated, then every one is drawn, and the
    /// camera returns to UI mode. Bodies come in the order of their first
    /// registration, each body's nodes in their order.
    pub fn draw(&self) -> (plan: Vec<FrameStep>)
        requires
            self.wf(),
        ensures
            plan@ == frame_plan(self.order(), self.registry()),
    {
        let mut plan: Vec<FrameStep> = Vec::new();
        plan.push(FrameStep::ActivateScene);
        self.push_pass(&mut plan, false);
        self.push_pass(&mut plan, true);
        plan.push(FrameStep::ActivateUi);
        plan
    }

    fn push_pass(&self, plan: &mut Vec<FrameStep>, drawing: bool)
        requires
            self.wf(),
        ensures
            final(plan)@ == old(plan)@ + pass(self.order(), self.registry(), drawing),
    {
        let mut i: usize = 0;
        while i < self.rb2sn.len()
            invariant
                self.wf(),
                i <= self.rb2sn.len(),
                plan@ == old(plan)@ + pass(self.order().take(i as int), self.registry(), drawing),
            decreases self.rb2sn.len() - i,
        {
            let body = self.rb2sn[i].0;
            let n = self.rb2sn[i].1.len();
            let ghost before = plan@;
            let mut j: usize = 0;
            while j < n
                invariant
                    j <= n,
                    n == self.rb2sn@[i as int].1@.len(),
                    plan@ == before + Seq::new(j as nat, |x: int| pass_step(body, x, drawing)),
                decreases n - j,
            {
                if drawing {
                    plan.push(FrameStep::Draw { body, index: j });
                } else {
                    plan.push(FrameStep::Update { body, index: j });
                }
                j = j + 1;
                assert(plan@ =~= before + Seq::new(j as nat, |x: int| pass_step(body, x, drawing)));
            }
            proof {
                self.lemma_slot(i as int);
                let o = self.order().take(i as int + 1);
                assert(o.drop_last() =~= self.order().take(i as int));
                assert(o.last() == body);
                assert(plan@ =~= old(plan)@ + pass(o, self.registry(), drawing));
            }
            i = i + 1;
        }
        assert(self.order().take(i as int) =~= self.order());
    }

    /// An empty manager whose color generator starts from a fixed seed.
    pub fn new() -> (r: Self)
        ensures
            r.wf(),
            r.registry() == Map::<u64, Seq<NodeModel<T, L>>>::empty(),
            r.order() == Seq::<u64>::empty(),
            r.colors() == Map::<u64, Rgb>::empty(),
    {
        let seed: [u8; 16] = [0, 0, 0, 0, 1, 0, 0, 0, 2, 0, 0, 0, 3, 0, 0, 0];
        let r = GraphicsManager { rand: xorshift_from_seed(seed), rb2sn: Vec::new(), obj2color: HashMap::new() };
        assert(r.order() =~= Seq::<u64>::empty());
        assert(r.registry() =~= Map::<u64, Seq<NodeModel<T, L>>>::empty());
        r
    }

    /// Drops every registered node; colors are kept.
    pub fn clear(&mut self)
        ensures
            final(self).wf(),
            final(self).registry() == Map::<u64, Seq<NodeModel<T, L>>>::empty(),
            final(self).order() == Seq::<u64>::empty(),
            final(self).colors() == old(self).colors(),
    {
        self.rb2sn.clear();
        assert(self.order() =~= Seq::<u64>::empty());
        assert(self.registry() =~= Map::<u64, Seq<NodeModel<T, L>>>::empty());
    }

    /// Gives `body` the color `color`, whatever it had before.
    pub fn set_color(&mut self, body: u64, color: Rgb)
        ensures
            final(self).colors() == old(self).colors().insert(body, color),
            final(self).registry() == old(self).registry(),
            final(self).order() == old(self).order(),
            final(self).wf() == old(self).wf(),
    {
        self.obj2color.insert(body, color);
    }

    /// The color of `body`: the stored one if it has one; otherwise three
    /// bytes drawn from the generator, which are stored for later calls.
    pub fn color_for_object(&mut self, body: u64) -> (c: Rgb)
        ensures
            color_given(*old(self), *final(self), body, c),
    {
        match self.obj2color.get(&body) {
            Some(color) => {
                return *color;
            },
            None => {},
        }
        let r = gen_below(&mut self.rand, 256) as u8;
        let g = gen_below(&mut self.rand, 256) as u8;
        let b = gen_below(&mut self.rand, 256) as u8;
        let color = Rgb { r, g, b };
        self.obj2color.insert(body, color);
        proof {
            assert(self.order() =~= old(self).order());
            assert(self.registry() =~= old(self).registry());
        }
        color
    }
}

} // verus!
