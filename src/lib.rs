//! Interpreter core for a small scene-description language: a reader for
//! its scripts, a transform context stack, a material registry, an
//! animation resolver that expands `vary` directives into per-frame knob
//! values, and a dispatcher that turns each frame's directive pass into an
//! ordered list of drawing actions. Numbers are held exactly and transforms
//! symbolically; turning them into pixels is left to the caller.
pub mod animation;
pub mod directive;
pub mod error;
pub mod frame;
pub mod literal;
pub mod material;
pub mod names;
pub mod naming;
pub mod num;
pub mod parser;
pub mod plan;
pub mod split;
pub mod transform;
