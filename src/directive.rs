//! Directives of a scene script, and the drawing actions a frame pass
//! turns them into.
use vstd::prelude::*;
use crate::material::Material;
use crate::num::Num;
use crate::transform::{Elementary, Transform};

verus! {

/// A point in model space.
#[derive(Clone, Copy, Debug, PartialEq, Eq, Structural)]
pub struct Point {
    pub x: Num,
    pub y: Num,
    pub z: Num,
}

/// A solid primitive, given by its parameters.
#[derive(Clone, Copy, Debug, PartialEq, Eq, Structural)]
pub enum Shape {
    /// A sphere about `center`.
    Sphere { center: Point, radius: Num },
    /// An axis-aligned box with one corner at `corner`.
    Cuboid { corner: Point, width: Num, height: Num, depth: Num },
    /// A torus about `center`: the radius of its tube, then of its ring.
    Torus { center: Point, tube_radius: Num, ring_radius: Num },
}

/// A line segment.
#[derive(Clone, Copy, Debug, PartialEq, Eq, Structural)]
pub struct Segment {
    pub start: Point,
    pub end: Point,
}

/// What the working geometry buffer holds between generating a primitive
/// and handing it to the rasterizer.
#[derive(Clone, Copy, Debug, PartialEq, Eq, Structural)]
pub enum Geometry {
    Mesh(Shape),
    Edge(Segment),
}

/// One directive of a script.
#[derive(Debug)]
pub enum Directive {
    /// `constants name ...`: defines a material.
    Constants { name: String, coefficients: Material },
    /// `push`: enters a nested transform scope.
    Push,
    /// `pop`: leaves the innermost transform scope.
    Pop,
    /// `move dx dy dz`.
    Move { dx: Num, dy: Num, dz: Num },
    /// `rotate axis degrees`.
    Rotate { axis: String, degrees: Num },
    /// `scale sx sy sz`.
    Scale { sx: Num, sy: Num, sz: Num },
    /// `sphere [material] cx cy cz r`.
    Sphere { material: Option<String>, center: Point, radius: Num },
    /// `box [material] x y z w h d`.
    Cuboid { material: Option<String>, corner: Point, width: Num, height: Num, depth: Num },
    /// `torus [material] cx cy cz r1 r2`.
    Torus { material: Option<String>, center: Point, tube_radius: Num, ring_radius: Num },
    /// `line x0 y0 z0 x1 y1 z1`.
    Line { segment: Segment },
    /// `display`.
    Display,
    /// `save filename`.
    Save { filename: String },
    /// `frames n`.
    Frames { count: u32 },
    /// `basename name`, where the name may be missing.
    Basename { stem: Option<String> },
    /// `vary knob start_frame end_frame start_value end_value`.
    Vary { knob: String, start_frame: u32, end_frame: u32, start_value: Num, end_value: Num },
    /// A directive kind the interpreter does not know.
    Unsupported { kind: String },
    /// The end of the stream.
    End,
}

/// A step of drawing that a frame pass asks of the rasterizer.
#[derive(Debug)]
pub enum Action {
    /// Rasterize a shaded primitive, placed by `transform`.
    DrawMesh { shape: Shape, transform: Transform, material: Material },
    /// Draw a segment, placed by `transform`, as a wireframe.
    DrawEdge { segment: Segment, transform: Transform },
    /// Present the canvas.
    Display,
    /// Persist the canvas under `filename`.
    Save { filename: String },
    /// Report a directive of an unknown kind, which was skipped.
    Skip { kind: String },
}

/// The mathematical value of an `Action`.
pub enum ActionView {
    DrawMesh { shape: Shape, transform: Seq<Elementary>, material: Material },
    DrawEdge { segment: Segment, transform: Seq<Elementary> },
    Display,
    Save { filename: Seq<char> },
    Skip { kind: Seq<char> },
}

impl View for Action {
    type V = ActionView;

    open spec fn view(&self) -> ActionView {
        match self {
            Action::DrawMesh { shape, transform, material } => ActionView::DrawMesh {
                shape: *shape,
                transform: transform@,
                material: *material,
            },
            Action::DrawEdge { segment, transform } => ActionView::DrawEdge {
                segment: *segment,
                transform: transform@,
            },
            Action::Display => ActionView::Display,
            Action::Save { filename } => ActionView::Save { filename: filename@ },
            Action::Skip { kind } => ActionView::Skip { kind: kind@ },
        }
    }
}

/// The views of a list of actions.
pub open spec fn actions_view(actions: Seq<Action>) -> Seq<ActionView> {
    Seq::new(actions.len(), |i: int| actions[i]@)
}

} // verus!
