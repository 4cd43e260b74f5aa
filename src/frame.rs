//! One pass of the directive stream: the interpreter state of a frame, how
//! each directive changes it, and the actions the pass produces.
use vstd::prelude::*;
use crate::directive::{actions_view, Action, ActionView, Directive, Geometry, Shape};
use crate::error::ScriptError;
use crate::material::{name_view, resolve_spec, Material, Registry};
use crate::transform::{axis_named, parse_axis, Elementary, TransformStack};

verus! {

/// The value of the interpreter state during a frame pass.
pub struct FrameState {
    pub stack: Seq<Seq<Elementary>>,
    pub materials: Map<Seq<char>, Material>,
    pub actions: Seq<ActionView>,
}


/// The state at the start of every frame: the identity alone on the stack,
/// no material, nothing drawn.
pub open spec fn initial_state() -> FrameState {
    FrameState {
        stack: seq![Seq::<Elementary>::empty()],
        materials: Map::empty(),
        actions: Seq::empty(),
    }
}

/// Composes `e` onto the current transform of `s`.
pub open spec fn compose_spec(s: FrameState, e: Elementary) -> FrameState {
    FrameState { stack: s.stack.drop_last().push(s.stack.last().push(e)), ..s }
}

/// Adds an action to those of `s`.
pub open spec fn emit(s: FrameState, a: ActionView) -> FrameState {
    FrameState { actions: s.actions.push(a), ..s }
}

/// Draws `shape` with the material that `material` selects, placed by the
/// current transform.
pub open spec fn draw_spec(
    s: FrameState,
    material: Option<Seq<char>>,
    shape: Shape,
) -> Result<FrameState, ScriptError> {
    match resolve_spec(s.materials, material) {
        Ok(m) => Ok(emit(s, ActionView::DrawMesh { shape, transform: s.stack.last(), material: m })),
        Err(e) => Err(e),
    }
}

/// What one directive does to the state of a frame pass.
pub open spec fn step_spec(s: FrameState, d: Directive) -> Result<FrameState, ScriptError> {
    match d {
        Directive::Constants { name, coefficients } => Ok(
            FrameState { materials: s.materials.insert(name@, coefficients), ..s },
        ),
        Directive::Push => Ok(FrameState { stack: s.stack.push(s.stack.last()), ..s }),
        Directive::Pop => if s.stack.len() > 1 {
            Ok(FrameState { stack: s.stack.drop_last(), ..s })
        } else {
            Err(ScriptError::StackUnderflow)
        },
        Directive::Move { dx, dy, dz } => Ok(compose_spec(s, Elementary::Translate(dx, dy, dz))),
        Directive::Rotate { axis, degrees } => match axis_named(axis@) {
            Some(a) => Ok(compose_spec(s, Elementary::Rotate(a, degrees))),
            None => Err(ScriptError::InvalidAxis),
        },
        Directive::Scale { sx, sy, sz } => Ok(compose_spec(s, Elementary::Scale(sx, sy, sz))),
        Directive::Sphere { material, center, radius } => draw_spec(
            s,
            name_view(&material),
            Shape::Sphere { center, radius },
        ),
        Directive::Cuboid { material, corner, width, height, depth } => draw_spec(
            s,
            name_view(&material),
            Shape::Cuboid { corner, width, height, depth },
        ),
        Directive::Torus { material, center, tube_radius, ring_radius } => draw_spec(
            s,
            name_view(&material),
            Shape::Torus { center, tube_radius, ring_radius },
        ),
        Directive::Line { segment } => Ok(
            emit(s, ActionView::DrawEdge { segment, transform: s.stack.last() }),
        ),
        Directive::Display => Ok(emit(s, ActionView::Display)),
        Directive::Save { filename } => Ok(emit(s, ActionView::Save { filename: filename@ })),
        Directive::Frames { .. } => Ok(s),
        Directive::Basename { .. } => Ok(s),
        Directive::Vary { .. } => Ok(s),
        Directive::Unsupported { kind } => Ok(emit(s, ActionView::Skip { kind: kind@ })),
        Directive::End => Ok(s),
    }
}

/// The state after running `ds` from `s`; the first failure ends the run.
pub open spec fn run_from(s: FrameState, ds: Seq<Directive>) -> Result<FrameState, ScriptError>
    decreases ds.len(),
{
    if ds.len() == 0 {
        Ok(s)
    } else {
        match run_from(s, ds.drop_last()) {
            Ok(t) => step_spec(t, ds.last()),
            Err(e) => Err(e),
        }
    }
}

/// The outcome of one frame pass over `ds`.
pub open spec fn frame_spec(ds: Seq<Directive>) -> Result<Seq<ActionView>, ScriptError> {
    match run_from(initial_state(), ds) {
        Ok(s) => Ok(s.actions),
        Err(e) => Err(e),
    }
}

/// The interpreter state of one frame pass.
pub struct Interpreter {
    stack: TransformStack,
    materials: Registry,
    buffer: Vec<Geometry>,
    actions: Vec<Action>,
}

impl Interpreter {
    /// The value of the state.
    pub closed spec fn state(&self) -> FrameState {
        FrameState {
            stack: self.stack@,
            materials: self.materials.bindings(),
            actions: actions_view(self.actions@),
        }
    }

    /// What the working geometry buffer holds.
    pub closed spec fn pending(&self) -> Seq<Geometry> {
        self.buffer@
    }

    pub closed spec fn wf(&self) -> bool {
        self.stack.wf()
    }

    /// The state at the start of a frame.
    pub fn new() -> (r: Interpreter)
        ensures
            r.wf(),
            r.state() == initial_state(),
            r.pending().len() == 0,
    {
        let r = Interpreter {
            stack: TransformStack::new(),
            materials: Registry::new(),
            buffer: Vec::new(),
            actions: Vec::new(),
        };
        proof {
            assert(actions_view(r.actions@) =~= Seq::<ActionView>::empty());
            assert(r.state() == initial_state());
        }
        r
    }

    /// The number of contexts on the transform stack.
    pub fn depth(&self) -> (r: usize)
        ensures
            r == self.state().stack.len(),
    {
        self.stack.depth()
    }

    /// The number of primitives waiting in the geometry buffer.
    pub fn pending_len(&self) -> (r: usize)
        ensures
            r == self.pending().len(),
    {
        self.buffer.len()
    }

    fn emit(&mut self, a: Action)
        ensures
            final(self).state() == emit(old(self).state(), a@),
            final(self).stack == old(self).stack,
            final(self).buffer == old(self).buffer,
    {
        self.actions.push(a);
        proof {
            assert(actions_view(self.actions@) =~= old(self).state().actions.push(a@));
        }
    }

    /// Generates a primitive, places it by the current transform, hands it
    /// to the rasterizer with its material, and discards it.
    fn draw(&mut self, material: &Option<String>, shape: Shape) -> (r: Result<(), ScriptError>)
        requires
            old(self).wf(),
            old(self).pending().len() == 0,
        ensures
            final(self).wf(),
            final(self).pending().len() == 0,
            match draw_spec(old(self).state(), name_view(material), shape) {
                Ok(t) => r is Ok && final(self).state() == t,
                Err(e) => r == Err::<(), ScriptError>(e),
            },
    {
        let m = match self.materials.resolve(material) {
            Ok(m) => m,
            Err(e) => return Err(e),
        };
        self.buffer.push(Geometry::Mesh(shape));
        let g = self.buffer.pop().unwrap();
        let transform = self.stack.top().duplicate();
        if let Geometry::Mesh(s) = g {
            self.emit(Action::DrawMesh { shape: s, transform, material: m });
        }
        Ok(())
    }

    /// Runs one directive.
    pub fn step(&mut self, d: &Directive) -> (r: Result<(), ScriptError>)
        requires
            old(self).wf(),
            old(self).pending().len() == 0,
        ensures
            final(self).wf(),
            final(self).pending().len() == 0,
            match step_spec(old(self).state(), *d) {
                Ok(t) => r is Ok && final(self).state() == t,
                Err(e) => r == Err::<(), ScriptError>(e),
            },
    {
        match d {
            Directive::Constants { name, coefficients } => {
                self.materials.define(name, *coefficients);
                Ok(())
            },
            Directive::Push => {
                self.stack.push();
                Ok(())
            },
            Directive::Pop => self.stack.pop(),
            Directive::Move { dx, dy, dz } => {
                self.stack.compose(Elementary::Translate(*dx, *dy, *dz));
                Ok(())
            },
            Directive::Rotate { axis, degrees } => {
                let a = parse_axis(axis.as_str())?;
                self.stack.compose(Elementary::Rotate(a, *degrees));
                Ok(())
            },
            Directive::Scale { sx, sy, sz } => {
                self.stack.compose(Elementary::Scale(*sx, *sy, *sz));
                Ok(())
            },
            Directive::Sphere { material, center, radius } => {
                self.draw(material, Shape::Sphere { center: *center, radius: *radius })
            },
            Directive::Cuboid { material, corner, width, height, depth } => {
                self.draw(
                    material,
                    Shape::Cuboid { corner: *corner, width: *width, height: *height, depth: *depth },
                )
            },
            Directive::Torus { material, center, tube_radius, ring_radius } => {
                self.draw(
                    material,
                    Shape::Torus {
                        center: *center,
                        tube_radius: *tube_radius,
                        ring_radius: *ring_radius,
                    },
                )
            },
            Directive::Line { segment } => {
                self.buffer.push(Geometry::Edge(*segment));
                let g = self.buffer.pop().unwrap();
                let transform = self.stack.top().duplicate();
                if let Geometry::Edge(s) = g {
                    self.emit(Action::DrawEdge { segment: s, transform });
                }
                Ok(())
            },
            Directive::Display => {
                self.emit(Action::Display);
                Ok(())
            },
            Directive::Save { filename } => {
                self.emit(Action::Save { filename: filename.clone() });
                Ok(())
            },
            Directive::Frames { .. } => Ok(()),
            Directive::Basename { .. } => Ok(()),
            Directive::Vary { .. } => Ok(()),
            Directive::Unsupported { kind } => {
                self.emit(Action::Skip { kind: kind.clone() });
                Ok(())
            },
            Directive::End => Ok(()),
        }
    }

    /// The actions produced so far.
    pub fn into_actions(self) -> (r: Vec<Action>)
        ensures
            actions_view(r@) == self.state().actions,
    {
        self.actions
    }
}

/// Runs one frame pass over `ds` from the initial state, and returns its
/// actions, or the first failure.
pub fn run_frame(ds: &Vec<Directive>) -> (r: Result<Vec<Action>, ScriptError>)
    ensures
        match frame_spec(ds@) {
            Ok(acts) => r is Ok && actions_view(r->Ok_0@) == acts,
            Err(e) => r is Err && r->Err_0 == e,
        },
{
    let mut interp = Interpreter::new();
    let mut i: usize = 0;
    proof {
        assert(ds@.subrange(0, 0) =~= Seq::<Directive>::empty());
    }
    while i < ds.len()
        invariant
            i <= ds@.len(),
            interp.wf(),
            interp.pending().len() == 0,
            run_from(initial_state(), ds@.subrange(0, i as int)) == Ok::<FrameState, ScriptError>(
                interp.state(),
            ),
        decreases ds@.len() - i,
    {
        proof {
            assert(ds@.subrange(0, i + 1).drop_last() =~= ds@.subrange(0, i as int));
        }
        let r = interp.step(&ds[i]);
        if let Err(e) = r {
            proof {
                lemma_failure_persists(ds@, i as int + 1);
            }
            return Err(e);
        }
        i = i + 1;
    }
    proof {
        assert(ds@.subrange(0, i as int) =~= ds@);
    }
    Ok(interp.into_actions())
}

/// Once a prefix of the stream fails, the whole stream fails the same way.
proof fn lemma_failure_persists(ds: Seq<Directive>, k: int)
    requires
        0 <= k <= ds.len(),
        run_from(initial_state(), ds.subrange(0, k)) is Err,
    ensures
        run_from(initial_state(), ds) == run_from(initial_state(), ds.subrange(0, k)),
    decreases ds.len() - k,
{
    if k == ds.len() {
        assert(ds.subrange(0, k) =~= ds);
    } else {
        assert(ds.subrange(0, k + 1).drop_last() =~= ds.subrange(0, k));
        lemma_failure_persists(ds, k + 1);
    }
}

/// Whether `d` composes a transform onto the current one.
pub open spec fn is_compose(d: Directive) -> bool {
    d is Move || d is Rotate || d is Scale
}

/// The stack entries that a scope entered from `s` can hold, with no
/// composing inside it: those of `s`, then copies of its top.
pub open spec fn scope_entries(s: FrameState, t: FrameState) -> bool {
    &&& t.stack.len() > s.stack.len()
    &&& forall|i: int|
        0 <= i < t.stack.len() ==> #[trigger] t.stack[i] == if i < s.stack.len() {
            s.stack[i]
        } else {
            s.stack.last()
        }
}

/// Each state inside the scope holds only entries allowed by
/// `scope_entries`.
proof fn lemma_scope_entries(s: FrameState, mid: Seq<Directive>, k: int)
    requires
        s.stack.len() >= 1,
        0 <= k <= mid.len(),
        forall|i: int| 0 <= i < mid.len() ==> !is_compose(#[trigger] mid[i]),
        forall|j: int|
            0 <= j <= mid.len() ==> {
                let r = #[trigger] run_from(step_spec(s, Directive::Push)->Ok_0, mid.subrange(0, j));
                r is Ok && r->Ok_0.stack.len() > s.stack.len()
            },
    ensures
        scope_entries(s, run_from(step_spec(s, Directive::Push)->Ok_0, mid.subrange(0, k))->Ok_0),
    decreases k,
{
    let pushed = step_spec(s, Directive::Push)->Ok_0;
    if k == 0 {
        assert(mid.subrange(0, 0) =~= Seq::<Directive>::empty());
        let t = run_from(pushed, mid.subrange(0, 0))->Ok_0;
        assert(t == pushed);
        assert forall|i: int| 0 <= i < t.stack.len() implies #[trigger] t.stack[i] == if i < s.stack.len() {
            s.stack[i]
        } else {
            s.stack.last()
        } by {}
    } else {
        lemma_scope_entries(s, mid, k - 1);
        let t = run_from(pushed, mid.subrange(0, k - 1))->Ok_0;
        assert(mid.subrange(0, k).drop_last() =~= mid.subrange(0, k - 1));
        assert(mid.subrange(0, k).last() == mid[k - 1]);
        assert(!is_compose(mid[k - 1]));
        let u = run_from(pushed, mid.subrange(0, k))->Ok_0;
        assert(run_from(pushed, mid.subrange(0, k)) is Ok);
        assert forall|i: int| 0 <= i < u.stack.len() implies #[trigger] u.stack[i] == if i < s.stack.len() {
            s.stack[i]
        } else {
            s.stack.last()
        } by {
            if i < t.stack.len() {
                assert(t.stack[i] == if i < s.stack.len() { s.stack[i] } else { s.stack.last() });
            } else {
                assert(t.stack[t.stack.len() - 1] == s.stack.last());
            }
        }
    }
}

/// Stack balance: after a `push`, directives `mid` that compose nothing and
/// never pop the pushed context (matched `push`/`pop` pairs, and anything
/// else), and the `pop` that matches the first `push`, the stack is the one
/// from before the `push`; in particular its current transform is the
/// pre-push one.
pub proof fn lemma_push_pop_balance(s: FrameState, mid: Seq<Directive>)
    requires
        s.stack.len() >= 1,
        forall|i: int| 0 <= i < mid.len() ==> !is_compose(#[trigger] mid[i]),
        forall|k: int|
            0 <= k <= mid.len() ==> {
                let r = #[trigger] run_from(step_spec(s, Directive::Push)->Ok_0, mid.subrange(0, k));
                r is Ok && r->Ok_0.stack.len() > s.stack.len()
            },
        run_from(step_spec(s, Directive::Push)->Ok_0, mid)->Ok_0.stack.len() == s.stack.len() + 1,
    ensures
        ({
            let inner = run_from(step_spec(s, Directive::Push)->Ok_0, mid)->Ok_0;
            &&& step_spec(inner, Directive::Pop) is Ok
            &&& step_spec(inner, Directive::Pop)->Ok_0.stack == s.stack
            &&& step_spec(inner, Directive::Pop)->Ok_0.stack.last() == s.stack.last()
        }),
{
    let pushed = step_spec(s, Directive::Push)->Ok_0;
    lemma_scope_entries(s, mid, mid.len() as int);
    assert(mid.subrange(0, mid.len() as int) =~= mid);
    let inner = run_from(pushed, mid)->Ok_0;
    assert(inner.stack.drop_last() =~= s.stack);
}

/// A `sphere`, `box` or `torus` that names a material not defined so far
/// fails with `UnknownMaterial`.
pub proof fn lemma_undefined_material_fails(s: FrameState, d: Directive)
    requires
        match d {
            Directive::Sphere { material: Some(n), .. } => !s.materials.contains_key(n@),
            Directive::Cuboid { material: Some(n), .. } => !s.materials.contains_key(n@),
            Directive::Torus { material: Some(n), .. } => !s.materials.contains_key(n@),
            _ => false,
        },
    ensures
        step_spec(s, d) == Err::<FrameState, ScriptError>(ScriptError::UnknownMaterial),
{
}

/// A material defined by `constants` is what a later `sphere`, `box` or
/// `torus` naming it is drawn with, whatever an earlier definition of the
/// name said.
pub proof fn lemma_defined_material_used(s: FrameState, name: String, m: Material, d: Directive)
    requires
        match d {
            Directive::Sphere { material: Some(n), .. } => n@ == name@,
            Directive::Cuboid { material: Some(n), .. } => n@ == name@,
            Directive::Torus { material: Some(n), .. } => n@ == name@,
            _ => false,
        },
    ensures
        ({
            let defined = step_spec(s, Directive::Constants { name, coefficients: m });
            &&& defined is Ok
            &&& step_spec(defined->Ok_0, d) is Ok
            &&& step_spec(defined->Ok_0, d)->Ok_0.actions.last() matches ActionView::DrawMesh {
                material,
                ..
            } && material == m
        }),
{
}

} // verus!
