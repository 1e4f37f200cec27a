use nphysics_testbed2d::graphics::{Body, ClassifyError, FrameStep, GraphicsManager};
use nphysics_testbed2d::scene::{Rgb, SceneNode};
use nphysics_testbed2d::shape::Shape;

type Iso = (f32, f32, f32);
type Manager = GraphicsManager<Iso, f32>;

const IDENTITY: Iso = (0.0, 0.0, 0.0);

fn ball(radius: f32) -> Shape<Iso, f32> {
    Shape::Ball { radius }
}

fn cuboid(half_x: f32, half_y: f32) -> Shape<Iso, f32> {
    Shape::Cuboid { half_x, half_y }
}

fn body(id: u64, margin: f32, shape: Shape<Iso, f32>) -> Body<Iso, f32> {
    Body { id, margin, shape }
}

fn delta_of(n: &SceneNode<Iso, f32>) -> Vec<Iso> {
    match n {
        SceneNode::BallNode { delta, .. } => delta.clone(),
        SceneNode::BoxNode { delta, .. } => delta.clone(),
        SceneNode::LinesNode { delta, .. } => delta.clone(),
    }
}

fn color_of(n: &SceneNode<Iso, f32>) -> Rgb {
    match n {
        SceneNode::BallNode { color, .. } => *color,
        SceneNode::BoxNode { color, .. } => *color,
        SceneNode::LinesNode { color, .. } => *color,
    }
}

fn selected_of(n: &SceneNode<Iso, f32>) -> bool {
    match n {
        SceneNode::BallNode { selected, .. } => *selected,
        SceneNode::BoxNode { selected, .. } => *selected,
        SceneNode::LinesNode { selected, .. } => *selected,
    }
}

#[test]
fn ball_radius_inflated_by_margin() {
    let mut m = Manager::new();
    assert_eq!(m.add(&body(1, 0.1, ball(1.0))), Ok(()));
    let nodes = m.body_to_scene_node(1).unwrap();
    assert_eq!(nodes.len(), 1);
    match &nodes[0] {
        SceneNode::BallNode { body, delta, radius, margin, selected, .. } => {
            assert_eq!(*body, 1);
            assert!(delta.is_empty());
            assert!((radius + margin - 1.1).abs() < 1e-6);
            assert!(!selected);
        }
        _ => panic!("expected a ball node"),
    }
}

#[test]
fn box_half_extents_keep_margin() {
    let mut m = Manager::new();
    m.add(&body(2, 0.5, cuboid(2.0, 1.0))).unwrap();
    let nodes = m.body_to_scene_node(2).unwrap();
    assert_eq!(nodes.len(), 1);
    match &nodes[0] {
        SceneNode::BoxNode { half_x, half_y, margin, .. } => {
            assert_eq!(half_x + margin, 2.5);
            assert_eq!(half_y + margin, 1.5);
        }
        _ => panic!("expected a box node"),
    }
}

#[test]
fn compound_ball_and_box() {
    let t: Iso = (3.0, -1.0, 0.5);
    let shape = Shape::Compound { parts: vec![(IDENTITY, ball(1.0)), (t, cuboid(2.0, 1.0))] };
    let mut m = Manager::new();
    m.add(&body(5, 0.0, shape)).unwrap();
    let nodes = m.body_to_scene_node(5).unwrap();
    assert_eq!(nodes.len(), 2);
    assert!(matches!(nodes[0], SceneNode::BallNode { .. }));
    assert!(matches!(nodes[1], SceneNode::BoxNode { .. }));
    assert_eq!(delta_of(&nodes[0]), vec![IDENTITY]);
    assert_eq!(delta_of(&nodes[1]), vec![t]);
    assert_eq!(color_of(&nodes[0]), color_of(&nodes[1]));
}

#[test]
fn nested_compound_counts_leaves_and_paths() {
    let a: Iso = (1.0, 0.0, 0.0);
    let b: Iso = (0.0, 2.0, 0.0);
    let c: Iso = (0.0, 0.0, 1.0);
    let inner = Shape::Compound { parts: vec![(b, ball(0.5)), (c, Shape::Plane), (c, cuboid(1.0, 1.0))] };
    let shape = Shape::Compound {
        parts: vec![(a, inner), (IDENTITY, Shape::Plane), (c, Shape::Mesh {
            vertices: vec![(0.0, 0.0), (1.0, 1.0)],
            indices: vec![(0, 1)],
        })],
    };
    let mut m = Manager::new();
    m.add(&body(9, 0.1, shape)).unwrap();
    let nodes = m.body_to_scene_node(9).unwrap();
    assert_eq!(nodes.len(), 3);
    assert_eq!(delta_of(&nodes[0]), vec![a, b]);
    assert_eq!(delta_of(&nodes[1]), vec![a, c]);
    assert_eq!(delta_of(&nodes[2]), vec![c]);
    match &nodes[2] {
        SceneNode::LinesNode { vertices, indices, .. } => {
            assert_eq!(vertices, &vec![(0.0, 0.0), (1.0, 1.0)]);
            assert_eq!(indices, &vec![(0, 1)]);
        }
        _ => panic!("expected a lines node"),
    }
}

#[test]
fn plane_yields_no_node() {
    let mut m = Manager::new();
    m.add(&body(3, 0.1, Shape::Plane)).unwrap();
    assert_eq!(m.body_to_scene_node(3).map(|v| v.len()), Some(0));
    // No color was drawn for the plane: the next body gets the first color.
    let mut fresh = Manager::new();
    assert_eq!(m.color_for_object(4), fresh.color_for_object(4));
}

#[test]
fn reregister_replaces_nodes() {
    let mut m = Manager::new();
    m.add(&body(1, 0.0, ball(1.0))).unwrap();
    m.add(&body(1, 0.0, Shape::Compound { parts: vec![(IDENTITY, cuboid(1.0, 1.0)), (IDENTITY, cuboid(2.0, 2.0))] }))
        .unwrap();
    let nodes = m.body_to_scene_node(1).unwrap();
    assert_eq!(nodes.len(), 2);
    assert!(nodes.iter().all(|n| matches!(n, SceneNode::BoxNode { .. })));
    let plan = m.draw();
    assert_eq!(plan.len(), 6);
}

#[test]
fn unsupported_shape_refused() {
    let mut m = Manager::new();
    let shape = Shape::Compound { parts: vec![(IDENTITY, ball(1.0)), (IDENTITY, Shape::Cone)] };
    assert_eq!(m.add(&body(1, 0.0, shape)), Err(ClassifyError::UnsupportedShape));
    assert_eq!(m.add(&body(2, 0.0, Shape::Cylinder)), Err(ClassifyError::UnsupportedShape));
    assert!(m.body_to_scene_node(1).is_none());
    assert!(m.body_to_scene_node(2).is_none());
    assert_eq!(m.draw(), vec![FrameStep::ActivateScene, FrameStep::ActivateUi]);
}

#[test]
fn color_for_object_idempotent() {
    let mut m = Manager::new();
    let first = m.color_for_object(11);
    let second = m.color_for_object(11);
    assert_eq!(first, second);
}

#[test]
fn colors_repeat_across_managers() {
    let mut a = Manager::new();
    let mut b = Manager::new();
    let ids = [4u64, 8, 4, 15, 16, 8, 23];
    let ca: Vec<Rgb> = ids.iter().map(|&i| a.color_for_object(i)).collect();
    let cb: Vec<Rgb> = ids.iter().map(|&i| b.color_for_object(i)).collect();
    assert_eq!(ca, cb);
    assert_eq!(ca[0], ca[2]);
}

#[test]
fn drawn_colors_are_not_constant() {
    let mut m = Manager::new();
    let colors: Vec<Rgb> = (0u64..8).map(|i| m.color_for_object(i)).collect();
    assert!(colors.iter().any(|c| *c != Rgb { r: 0, g: 0, b: 0 }));
    assert!(colors.iter().any(|c| *c != colors[0]));
}

#[test]
fn set_color_overrides() {
    let mut m = Manager::new();
    let red = Rgb { r: 255, g: 0, b: 0 };
    m.color_for_object(1);
    m.set_color(1, red);
    assert_eq!(m.color_for_object(1), red);
    m.add(&body(1, 0.0, ball(1.0))).unwrap();
    assert_eq!(color_of(&m.body_to_scene_node(1).unwrap()[0]), red);
}

#[test]
fn draw_before_registration() {
    let m = Manager::new();
    assert_eq!(m.draw(), vec![FrameStep::ActivateScene, FrameStep::ActivateUi]);
}

#[test]
fn draw_updates_all_before_drawing() {
    let mut m = Manager::new();
    m.add(&body(7, 0.0, Shape::Compound { parts: vec![(IDENTITY, ball(1.0)), (IDENTITY, ball(2.0))] })).unwrap();
    m.add(&body(3, 0.0, cuboid(1.0, 1.0))).unwrap();
    assert_eq!(m.draw(), vec![
        FrameStep::ActivateScene,
        FrameStep::Update { body: 7, index: 0 },
        FrameStep::Update { body: 7, index: 1 },
        FrameStep::Update { body: 3, index: 0 },
        FrameStep::Draw { body: 7, index: 0 },
        FrameStep::Draw { body: 7, index: 1 },
        FrameStep::Draw { body: 3, index: 0 },
        FrameStep::ActivateUi,
    ]);
}

#[test]
fn clear_drops_nodes_keeps_colors() {
    let mut m = Manager::new();
    m.add(&body(1, 0.0, ball(1.0))).unwrap();
    let c = m.color_for_object(1);
    m.clear();
    assert!(m.body_to_scene_node(1).is_none());
    assert_eq!(m.draw(), vec![FrameStep::ActivateScene, FrameStep::ActivateUi]);
    assert_eq!(m.color_for_object(1), c);
}

#[test]
fn select_and_unselect_node() {
    let mut m = Manager::new();
    m.add(&body(1, 0.0, ball(1.0))).unwrap();
    {
        let nodes = m.body_to_scene_node(1).unwrap();
        nodes[0].select();
    }
    assert!(selected_of(&m.body_to_scene_node(1).unwrap()[0]));
    m.body_to_scene_node(1).unwrap()[0].unselect();
    assert!(!selected_of(&m.body_to_scene_node(1).unwrap()[0]));
}
