//! The failures that a script run can meet.
use vstd::prelude::*;

verus! {

/// What went wrong while running a script. All but `UnsupportedDirective`
/// abort the run.
#[derive(Clone, Copy, Debug, PartialEq, Eq, Structural)]
pub enum ScriptError {
    /// A malformed numeric or name operand.
    ParseFailure,
    /// A rotation axis other than `x`, `y` or `z`.
    InvalidAxis,
    /// A `pop` with only the base transform left on the stack.
    StackUnderflow,
    /// A geometry directive names a material that was not defined before it.
    UnknownMaterial,
    /// A `vary` directive in a script without a `frames` directive.
    VaryWithoutFrames,
    /// A `vary` directive whose end frame comes before its start frame.
    InvertedFrameRange,
    /// A `vary` directive that reaches past the last frame.
    FrameOutOfRange,
    /// A directive kind that the interpreter does not know (not fatal).
    UnsupportedDirective,
    /// Saving or converting an image failed.
    PersistenceFailure,
}

} // verus!
