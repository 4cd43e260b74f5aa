//! Transforms and the transform context stack.
//!
//! A transform is held symbolically, as the sequence of elementary
//! transforms that make it up, in the order in which they act on a point:
//! the first one acts first. Composing an elementary transform onto a
//! transform appends it, so that it acts after everything already there.
//! The identity is the empty sequence.
use vstd::prelude::*;
use crate::error::ScriptError;
use crate::num::Num;

verus! {

/// A coordinate axis, the pivot of a rotation.
#[derive(Clone, Copy, Debug, PartialEq, Eq, Structural)]
pub enum Axis {
    X,
    Y,
    Z,
}

/// The axis that a one-letter name stands for, if any.
pub open spec fn axis_named(name: Seq<char>) -> Option<Axis> {
    if name == seq!['x'] {
        Some(Axis::X)
    } else if name == seq!['y'] {
        Some(Axis::Y)
    } else if name == seq!['z'] {
        Some(Axis::Z)
    } else {
        None
    }
}

/// Reads a rotation axis: `x`, `y` or `z`, and `InvalidAxis` for any other
/// name.
pub fn parse_axis(name: &str) -> (r: Result<Axis, ScriptError>)
    ensures
        match axis_named(name@) {
            Some(a) => r == Ok::<Axis, ScriptError>(a),
            None => r == Err::<Axis, ScriptError>(ScriptError::InvalidAxis),
        },
{
    if name.unicode_len() != 1 {
        proof {
            assert(name@ != seq!['x']);
            assert(name@ != seq!['y']);
            assert(name@ != seq!['z']);
        }
        return Err(ScriptError::InvalidAxis);
    }
    let c = name.get_char(0);
    proof {
        assert(name@ =~= seq![c]);
    }
    if c == 'x' {
        Ok(Axis::X)
    } else if c == 'y' {
        Ok(Axis::Y)
    } else if c == 'z' {
        Ok(Axis::Z)
    } else {
        proof {
            assert(seq![c][0] != seq!['x'][0]);
            assert(seq![c][0] != seq!['y'][0]);
            assert(seq![c][0] != seq!['z'][0]);
        }
        Err(ScriptError::InvalidAxis)
    }
}

/// One elementary transform.
#[derive(Clone, Copy, Debug, PartialEq, Eq, Structural)]
pub enum Elementary {
    /// Translation by `(dx, dy, dz)`.
    Translate(Num, Num, Num),
    /// Rotation about an axis by an angle in degrees.
    Rotate(Axis, Num),
    /// Scaling by `(sx, sy, sz)`.
    Scale(Num, Num, Num),
}

/// A composed transform: its elementary transforms in the order they act.
#[derive(Debug)]
pub struct Transform {
    pub steps: Vec<Elementary>,
}

impl View for Transform {
    type V = Seq<Elementary>;

    open spec fn view(&self) -> Seq<Elementary> {
        self.steps@
    }
}

impl Transform {
    /// The identity transform.
    pub fn identity() -> (r: Transform)
        ensures
            r@ == Seq::<Elementary>::empty(),
    {
        Transform { steps: Vec::new() }
    }

    /// A copy of this transform.
    pub fn duplicate(&self) -> (r: Transform)
        ensures
            r@ == self@,
    {
        let mut steps: Vec<Elementary> = Vec::new();
        let mut i: usize = 0;
        while i < self.steps.len()
            invariant
                i <= self.steps@.len(),
                steps@ == self.steps@.subrange(0, i as int),
            decreases self.steps@.len() - i,
        {
            steps.push(self.steps[i]);
            i = i + 1;
            proof {
                assert(steps@ =~= self.steps@.subrange(0, i as int));
            }
        }
        proof {
            assert(steps@ =~= self.steps@);
        }
        Transform { steps }
    }
}

/// The stack of transform contexts, as a sequence from bottom to top.
pub struct TransformStack {
    levels: Vec<Transform>,
}

impl View for TransformStack {
    type V = Seq<Seq<Elementary>>;

    closed spec fn view(&self) -> Seq<Seq<Elementary>> {
        Seq::new(self.levels@.len(), |i: int| self.levels@[i]@)
    }
}

impl TransformStack {
    /// The stack is never empty.
    pub open spec fn wf(&self) -> bool {
        self@.len() >= 1
    }

    /// The current transform, the top of the stack.
    pub open spec fn current(&self) -> Seq<Elementary> {
        self@.last()
    }

    /// A stack that holds the identity alone.
    pub fn new() -> (r: TransformStack)
        ensures
            r@ == seq![Seq::<Elementary>::empty()],
            r.wf(),
    {
        let mut levels: Vec<Transform> = Vec::new();
        levels.push(Transform::identity());
        let r = TransformStack { levels };
        proof {
            assert(r@ =~= seq![Seq::<Elementary>::empty()]);
        }
        r
    }

    /// The number of contexts on the stack.
    pub fn depth(&self) -> (r: usize)
        ensures
            r == self@.len(),
    {
        self.levels.len()
    }

    /// The current transform.
    pub fn top(&self) -> (r: &Transform)
        requires
            self.wf(),
        ensures
            r@ == self.current(),
    {
        let n = self.levels.len();
        &self.levels[n - 1]
    }

    /// Enters a nested scope: the top is duplicated.
    pub fn push(&mut self)
        requires
            old(self).wf(),
        ensures
            final(self)@ == old(self)@.push(old(self).current()),
            final(self).wf(),
    {
        let n = self.levels.len();
        let t = self.levels[n - 1].duplicate();
        self.levels.push(t);
        proof {
            assert(final(self)@ =~= old(self)@.push(old(self).current()));
        }
    }

    /// Leaves a scope: the top is removed. With one context left the stack
    /// is kept as it is and `StackUnderflow` is returned.
    pub fn pop(&mut self) -> (r: Result<(), ScriptError>)
        requires
            old(self).wf(),
        ensures
            old(self)@.len() == 1 ==> r == Err::<(), ScriptError>(ScriptError::StackUnderflow)
                && final(self)@ == old(self)@,
            old(self)@.len() > 1 ==> r == Ok::<(), ScriptError>(())
                && final(self)@ == old(self)@.drop_last(),
            final(self).wf(),
    {
        if self.levels.len() == 1 {
            return Err(ScriptError::StackUnderflow);
        }
        let _ = self.levels.pop();
        proof {
            assert(final(self)@ =~= old(self)@.drop_last());
        }
        Ok(())
    }

    /// Composes an elementary transform onto the top, in place: it acts
    /// after the current transform. The depth is unchanged.
    pub fn compose(&mut self, e: Elementary)
        requires
            old(self).wf(),
        ensures
            final(self)@ == old(self)@.drop_last().push(old(self).current().push(e)),
            final(self).wf(),
    {
        let mut t = self.levels.pop().unwrap();
        t.steps.push(e);
        self.levels.push(t);
        proof {
            assert(final(self)@ =~= old(self)@.drop_last().push(old(self).current().push(e)));
        }
    }
}

/// Stack balance: pushing a context and then popping it again succeeds
/// and gives back the very stack from before the push, so the current
/// transform after the pair is the one from before it.
pub proof fn lemma_push_then_pop(levels: Seq<Seq<Elementary>>)
    requires
        levels.len() >= 1,
    ensures
        ({
            let pushed = levels.push(levels.last());
            &&& pushed.len() > 1
            &&& pushed.drop_last() == levels
            &&& pushed.drop_last().last() == levels.last()
        }),
{
    assert(levels.push(levels.last()).drop_last() =~= levels);
}

/// Composing a translation onto a stack whose current transform is the
/// identity leaves as current transform exactly that translation.
pub proof fn lemma_translate_onto_identity(
    levels: Seq<Seq<Elementary>>,
    dx: Num,
    dy: Num,
    dz: Num,
)
    requires
        levels.len() >= 1,
        levels.last() == Seq::<Elementary>::empty(),
    ensures
        ({
            let e = Elementary::Translate(dx, dy, dz);
            let after = levels.drop_last().push(levels.last().push(e));
            &&& after.len() == levels.len()
            &&& after.last() == seq![e]
        }),
{
    let e = Elementary::Translate(dx, dy, dz);
    assert(levels.last().push(e) =~= seq![e]);
}

} // verus!
