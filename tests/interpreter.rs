use mdl::directive::{Action, Directive, Point, Segment, Shape};
use mdl::error::ScriptError;
use mdl::frame::{run_frame, Interpreter};
use mdl::material::{Material, Registry, Rgb};
use mdl::num::Num;
use mdl::transform::{parse_axis, Axis, Elementary, TransformStack};

fn n(v: i64) -> Num {
    Num::whole(v)
}

fn point(x: i64, y: i64, z: i64) -> Point {
    Point { x: n(x), y: n(y), z: n(z) }
}

fn tenths(v: i64) -> Num {
    Num::new(v, 10)
}

fn red_material() -> Material {
    Material::from_constants(
        tenths(1),
        tenths(5),
        tenths(5),
        tenths(1),
        tenths(5),
        tenths(5),
        tenths(1),
        tenths(5),
        tenths(5),
    )
}

#[test]
fn push_pop_restores_top() {
    let mut stack = TransformStack::new();
    stack.compose(Elementary::Translate(n(1), n(2), n(3)));
    let before = stack.top().steps.clone();
    stack.push();
    assert_eq!(stack.depth(), 2);
    assert_eq!(stack.pop(), Ok(()));
    assert_eq!(stack.depth(), 1);
    assert_eq!(stack.top().steps, before);
}

#[test]
fn nested_scope_changes_do_not_leak() {
    let mut stack = TransformStack::new();
    stack.push();
    stack.compose(Elementary::Scale(n(2), n(2), n(2)));
    assert_eq!(stack.top().steps, vec![Elementary::Scale(n(2), n(2), n(2))]);
    assert_eq!(stack.pop(), Ok(()));
    assert!(stack.top().steps.is_empty());
}

#[test]
fn pop_of_base_context_underflows() {
    let mut stack = TransformStack::new();
    assert_eq!(stack.pop(), Err(ScriptError::StackUnderflow));
    assert_eq!(stack.depth(), 1);
}

#[test]
fn translate_onto_identity_is_the_translation() {
    let mut stack = TransformStack::new();
    stack.compose(Elementary::Translate(n(4), n(-5), n(6)));
    assert_eq!(stack.depth(), 1);
    assert_eq!(stack.top().steps, vec![Elementary::Translate(n(4), n(-5), n(6))]);
}

#[test]
fn compose_appends_in_order_of_action() {
    let mut stack = TransformStack::new();
    stack.compose(Elementary::Translate(n(1), n(0), n(0)));
    stack.compose(Elementary::Rotate(Axis::Z, n(90)));
    assert_eq!(
        stack.top().steps,
        vec![Elementary::Translate(n(1), n(0), n(0)), Elementary::Rotate(Axis::Z, n(90))]
    );
}

#[test]
fn axis_names() {
    assert_eq!(parse_axis("x"), Ok(Axis::X));
    assert_eq!(parse_axis("y"), Ok(Axis::Y));
    assert_eq!(parse_axis("z"), Ok(Axis::Z));
    assert_eq!(parse_axis("w"), Err(ScriptError::InvalidAxis));
    assert_eq!(parse_axis("xy"), Err(ScriptError::InvalidAxis));
    assert_eq!(parse_axis(""), Err(ScriptError::InvalidAxis));
}

#[test]
fn rotate_with_bad_axis_fails_the_pass() {
    let ds = vec![Directive::Rotate { axis: String::from("q"), degrees: n(30) }];
    assert!(matches!(run_frame(&ds), Err(ScriptError::InvalidAxis)));
}

#[test]
fn registry_defines_and_redefines() {
    let mut reg = Registry::new();
    let name = String::from("shiny");
    assert_eq!(reg.resolve(&Some(name.clone())), Err(ScriptError::UnknownMaterial));
    let first = red_material();
    reg.define(&name, first);
    assert_eq!(reg.resolve(&Some(name.clone())), Ok(first));
    let grey = Rgb { red: tenths(3), green: tenths(3), blue: tenths(3) };
    let second = Material::new(grey, grey, grey);
    reg.define(&name, second);
    assert_eq!(reg.resolve(&Some(name.clone())), Ok(second));
    assert_eq!(reg.resolve(&None), Ok(Material::default_material()));
}

#[test]
fn constants_order_is_per_channel() {
    let m = Material::from_constants(n(1), n(2), n(3), n(4), n(5), n(6), n(7), n(8), n(9));
    assert_eq!(m.ambient, Rgb { red: n(1), green: n(4), blue: n(7) });
    assert_eq!(m.diffuse, Rgb { red: n(2), green: n(5), blue: n(8) });
    assert_eq!(m.specular, Rgb { red: n(3), green: n(6), blue: n(9) });
}

#[test]
fn undefined_material_fails_for_each_solid() {
    let ds = vec![Directive::Sphere { material: Some(String::from("red")), center: point(0, 0, 0), radius: n(50) }];
    assert!(matches!(run_frame(&ds), Err(ScriptError::UnknownMaterial)));
    let ds = vec![Directive::Cuboid {
        material: Some(String::from("red")),
        corner: point(0, 0, 0),
        width: n(1),
        height: n(1),
        depth: n(1),
    }];
    assert!(matches!(run_frame(&ds), Err(ScriptError::UnknownMaterial)));
    let ds = vec![Directive::Torus {
        material: Some(String::from("red")),
        center: point(0, 0, 0),
        tube_radius: n(5),
        ring_radius: n(20),
    }];
    assert!(matches!(run_frame(&ds), Err(ScriptError::UnknownMaterial)));
}

#[test]
fn definitions_are_not_hoisted() {
    let ds = vec![
        Directive::Sphere { material: Some(String::from("red")), center: point(0, 0, 0), radius: n(5) },
        Directive::Constants { name: String::from("red"), coefficients: red_material() },
    ];
    assert!(matches!(run_frame(&ds), Err(ScriptError::UnknownMaterial)));
}

#[test]
fn redefinition_applies_to_later_geometry() {
    let grey = Rgb { red: tenths(2), green: tenths(2), blue: tenths(2) };
    let other = Material::new(grey, grey, grey);
    let ds = vec![
        Directive::Constants { name: String::from("m"), coefficients: red_material() },
        Directive::Sphere { material: Some(String::from("m")), center: point(0, 0, 0), radius: n(5) },
        Directive::Constants { name: String::from("m"), coefficients: other },
        Directive::Sphere { material: Some(String::from("m")), center: point(0, 0, 0), radius: n(5) },
    ];
    let actions = run_frame(&ds).unwrap();
    assert_eq!(actions.len(), 2);
    match &actions[0] {
        Action::DrawMesh { material, .. } => assert_eq!(*material, red_material()),
        _ => panic!("expected a mesh"),
    }
    match &actions[1] {
        Action::DrawMesh { material, .. } => assert_eq!(*material, other),
        _ => panic!("expected a mesh"),
    }
}

#[test]
fn unnamed_geometry_uses_default_material() {
    let ds = vec![Directive::Cuboid { material: None, corner: point(1, 2, 3), width: n(4), height: n(5), depth: n(6) }];
    let actions = run_frame(&ds).unwrap();
    match &actions[0] {
        Action::DrawMesh { shape, material, transform } => {
            assert_eq!(*material, Material::default_material());
            assert_eq!(*shape, Shape::Cuboid { corner: point(1, 2, 3), width: n(4), height: n(5), depth: n(6) });
            assert!(transform.steps.is_empty());
        }
        _ => panic!("expected a mesh"),
    }
}

#[test]
fn buffer_is_empty_after_geometry_and_lines() {
    let mut interp = Interpreter::new();
    let sphere = Directive::Sphere { material: None, center: point(0, 0, 0), radius: n(10) };
    assert_eq!(interp.step(&sphere), Ok(()));
    assert_eq!(interp.pending_len(), 0);
    let line = Directive::Line { segment: Segment { start: point(0, 0, 0), end: point(1, 1, 1) } };
    assert_eq!(interp.step(&line), Ok(()));
    assert_eq!(interp.pending_len(), 0);
    let torus = Directive::Torus { material: None, center: point(0, 0, 0), tube_radius: n(1), ring_radius: n(3) };
    assert_eq!(interp.step(&torus), Ok(()));
    assert_eq!(interp.pending_len(), 0);
    let missing = Directive::Sphere { material: Some(String::from("none")), center: point(0, 0, 0), radius: n(1) };
    assert_eq!(interp.step(&missing), Err(ScriptError::UnknownMaterial));
    assert_eq!(interp.pending_len(), 0);
    assert_eq!(interp.into_actions().len(), 3);
}

#[test]
fn geometry_is_placed_by_current_transform() {
    let ds = vec![
        Directive::Move { dx: n(10), dy: n(0), dz: n(0) },
        Directive::Push,
        Directive::Rotate { axis: String::from("y"), degrees: n(45) },
        Directive::Line { segment: Segment { start: point(0, 0, 0), end: point(1, 0, 0) } },
        Directive::Pop,
        Directive::Scale { sx: n(2), sy: n(3), sz: n(4) },
        Directive::Sphere { material: None, center: point(0, 0, 0), radius: n(1) },
    ];
    let actions = run_frame(&ds).unwrap();
    assert_eq!(actions.len(), 2);
    match &actions[0] {
        Action::DrawEdge { transform, .. } => assert_eq!(
            transform.steps,
            vec![Elementary::Translate(n(10), n(0), n(0)), Elementary::Rotate(Axis::Y, n(45))]
        ),
        _ => panic!("expected an edge"),
    }
    match &actions[1] {
        Action::DrawMesh { transform, .. } => assert_eq!(
            transform.steps,
            vec![Elementary::Translate(n(10), n(0), n(0)), Elementary::Scale(n(2), n(3), n(4))]
        ),
        _ => panic!("expected a mesh"),
    }
}

#[test]
fn pop_past_base_fails_the_pass() {
    let ds = vec![Directive::Push, Directive::Pop, Directive::Pop];
    assert!(matches!(run_frame(&ds), Err(ScriptError::StackUnderflow)));
}

#[test]
fn unsupported_directive_is_reported_and_skipped() {
    let ds = vec![
        Directive::Unsupported { kind: String::from("mesh") },
        Directive::Display,
        Directive::Frames { count: 4 },
        Directive::End,
    ];
    let actions = run_frame(&ds).unwrap();
    assert_eq!(actions.len(), 2);
    assert!(matches!(&actions[0], Action::Skip { kind } if kind == "mesh"));
    assert!(matches!(&actions[1], Action::Display));
}

#[test]
fn nested_matched_pairs_restore_top() {
    let ds = vec![
        Directive::Move { dx: n(1), dy: n(2), dz: n(3) },
        Directive::Push,
        Directive::Push,
        Directive::Pop,
        Directive::Display,
        Directive::Push,
        Directive::Pop,
        Directive::Pop,
        Directive::Line { segment: Segment { start: point(0, 0, 0), end: point(1, 1, 1) } },
    ];
    let actions = run_frame(&ds).unwrap();
    assert_eq!(actions.len(), 2);
    match &actions[1] {
        Action::DrawEdge { transform, .. } => {
            assert_eq!(transform.steps, vec![Elementary::Translate(n(1), n(2), n(3))])
        }
        _ => panic!("expected an edge"),
    }
}
