//! The three phases of a run: the configuration scan, knob resolution, and
//! one directive pass per output frame.
use vstd::prelude::*;
use crate::animation::{
    basename_of, first_vary_error, frames_of, has_vary, knob_value, resolve_knobs, scan_config,
    stemless_basenames, AnimationConfig, KnobTable,
};
use crate::directive::{actions_view, Action, ActionView, Directive};
use crate::error::ScriptError;
use crate::frame::{frame_spec, run_frame};
use crate::material::name_view;
use crate::naming::{frame_name, frame_name_spec};

verus! {

/// The number of frames a script renders: the `frames` count of an
/// animation, one for a static script.
pub open spec fn frame_total(ds: Seq<Directive>) -> nat {
    match frames_of(ds) {
        Some(n) => n as nat,
        None => 1,
    }
}

/// Where frame `f` is persisted once its directive pass is done: in an
/// animation, the base name followed by the zero-padded frame index; in a
/// static script nowhere beyond its own `save` directives.
pub open spec fn output_name(ds: Seq<Directive>, f: nat) -> Option<Seq<char>> {
    match frames_of(ds) {
        Some(n) => Some(frame_name_spec(basename_of(ds), f, n as nat)),
        None => None,
    }
}

/// The failure that ends a run of `ds` before anything is rendered, if
/// any: a `vary` without `frames`, then the first failing `vary`, then the
/// failure of the directive pass itself, which is the same in every frame.
pub open spec fn run_error(ds: Seq<Directive>) -> Option<ScriptError> {
    if has_vary(ds) && frames_of(ds) is None {
        Some(ScriptError::VaryWithoutFrames)
    } else if first_vary_error(ds, frame_total(ds) as u32) is Some {
        first_vary_error(ds, frame_total(ds) as u32)
    } else if frame_total(ds) > 0 && frame_spec(ds) is Err {
        Some(frame_spec(ds)->Err_0)
    } else {
        None
    }
}

/// What one frame asks of the rasterizer and where its canvas goes.
pub struct FramePlan {
    /// The frame index.
    pub index: u32,
    /// The file that the frame's canvas is persisted to after its actions,
    /// in an animation.
    pub output: Option<String>,
    /// The actions of the frame's directive pass, in order.
    pub actions: Vec<Action>,
}

/// Everything a run renders.
pub struct Plan {
    pub config: AnimationConfig,
    pub knobs: KnobTable,
    pub frames: Vec<FramePlan>,
}

/// Runs the three phases over `ds`: scans the configuration, resolves the
/// knob values, and makes one directive pass per frame. On a failure
/// nothing is rendered.
pub fn plan(ds: &Vec<Directive>) -> (r: Result<Plan, ScriptError>)
    ensures
        match run_error(ds@) {
            Some(e) => r is Err && r->Err_0 == e,
            None => r is Ok && {
                let p = r->Ok_0;
                &&& p.config.frame_count == frames_of(ds@)
                &&& p.config.basename@ == basename_of(ds@)
                &&& p.config.vary_present == has_vary(ds@)
                &&& p.config.stemless_basenames == stemless_basenames(ds@)
                &&& p.knobs.frames() == frame_total(ds@)
                &&& forall|f: nat, k: Seq<char>|
                    #[trigger] p.knobs.value_at(f, k) == knob_value(ds@, f, k)
                &&& p.frames@.len() == frame_total(ds@)
                &&& forall|f: int|
                    #![trigger p.frames@[f]]
                    0 <= f < p.frames@.len() ==> {
                        &&& p.frames@[f].index == f
                        &&& name_view(&p.frames@[f].output) == output_name(ds@, f as nat)
                        &&& frame_spec(ds@) == Ok::<Seq<ActionView>, ScriptError>(
                            actions_view(p.frames@[f].actions@),
                        )
                    }
            },
        },
{
    let config = scan_config(ds);
    if config.vary_present && config.frame_count.is_none() {
        return Err(ScriptError::VaryWithoutFrames);
    }
    let count: u32 = match config.frame_count {
        Some(n) => n,
        None => 1,
    };
    let knobs = match resolve_knobs(ds, count) {
        Ok(t) => t,
        Err(e) => return Err(e),
    };
    let mut frames: Vec<FramePlan> = Vec::new();
    let mut f: u32 = 0;
    while f < count
        invariant
            f <= count,
            count == frame_total(ds@),
            config.frame_count == frames_of(ds@),
            config.basename@ == basename_of(ds@),
            frames@.len() == f,
            f > 0 ==> frame_spec(ds@) is Ok,
            run_error(ds@) == (if frame_total(ds@) > 0 && frame_spec(ds@) is Err {
                Some(frame_spec(ds@)->Err_0)
            } else {
                None::<ScriptError>
            }),
            forall|g: int|
                #![trigger frames@[g]]
                0 <= g < f ==> {
                    &&& frames@[g].index == g
                    &&& name_view(&frames@[g].output) == output_name(ds@, g as nat)
                    &&& frame_spec(ds@) == Ok::<Seq<ActionView>, ScriptError>(
                        actions_view(frames@[g].actions@),
                    )
                },
        decreases count - f,
    {
        let actions = match run_frame(ds) {
            Ok(a) => a,
            Err(e) => return Err(e),
        };
        let output = match config.frame_count {
            Some(n) => Some(frame_name(&config.basename, f, n)),
            None => None,
        };
        frames.push(FramePlan { index: f, output, actions });
        f = f + 1;
    }
    Ok(Plan { config, knobs, frames })
}

} // verus!
