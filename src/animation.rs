//! The animation resolver: a configuration scan of the directive stream,
//! then the expansion of `vary` directives into per-frame knob values.
use vstd::prelude::*;
use crate::directive::Directive;
use crate::error::ScriptError;
use crate::num::{Num, Ratio};

verus! {

/// The frame count set by the last `frames` directive of `ds`, if any.
pub open spec fn frames_of(ds: Seq<Directive>) -> Option<u32>
    decreases ds.len(),
{
    if ds.len() == 0 {
        None
    } else {
        match ds.last() {
            Directive::Frames { count } => Some(count),
            _ => frames_of(ds.drop_last()),
        }
    }
}

/// The output stem used when no `basename` directive gives one.
pub open spec fn default_basename() -> Seq<char> {
    seq!['o', 'u', 't', 'p', 'u', 't']
}

/// The stem given by the last `basename` directive of `ds` that carries
/// one, or the default stem.
pub open spec fn basename_of(ds: Seq<Directive>) -> Seq<char>
    decreases ds.len(),
{
    if ds.len() == 0 {
        default_basename()
    } else {
        match ds.last() {
            Directive::Basename { stem: Some(s) } => s@,
            _ => basename_of(ds.drop_last()),
        }
    }
}

/// The number of `basename` directives of `ds` that carry no stem.
pub open spec fn stemless_basenames(ds: Seq<Directive>) -> nat
    decreases ds.len(),
{
    if ds.len() == 0 {
        0
    } else {
        stemless_basenames(ds.drop_last()) + match ds.last() {
            Directive::Basename { stem: None } => 1nat,
            _ => 0nat,
        }
    }
}

/// Whether `ds` holds a `vary` directive.
pub open spec fn has_vary(ds: Seq<Directive>) -> bool {
    exists|i: int| 0 <= i < ds.len() && ds[i] is Vary
}

/// What the configuration scan learns from the directive stream.
pub struct AnimationConfig {
    /// The frame count, when a `frames` directive sets one.
    pub frame_count: Option<u32>,
    /// The stem of the output file names.
    pub basename: String,
    /// Whether a `vary` directive is present.
    pub vary_present: bool,
    /// How many `basename` directives carried no stem (each one is
    /// reported, and the earlier stem kept).
    pub stemless_basenames: usize,
}

/// Scans `ds` once for `frames`, `basename` and `vary` directives.
pub fn scan_config(ds: &Vec<Directive>) -> (r: AnimationConfig)
    ensures
        r.frame_count == frames_of(ds@),
        r.basename@ == basename_of(ds@),
        r.vary_present == has_vary(ds@),
        r.stemless_basenames == stemless_basenames(ds@),
{
    let mut frame_count: Option<u32> = None;
    let mut basename = String::from_str("output");
    proof {
        reveal_strlit("output");
        assert(basename@ =~= default_basename());
    }
    let mut vary_present = false;
    let mut stemless: usize = 0;
    let mut i: usize = 0;
    while i < ds.len()
        invariant
            i <= ds@.len(),
            frame_count == frames_of(ds@.subrange(0, i as int)),
            basename@ == basename_of(ds@.subrange(0, i as int)),
            vary_present == has_vary(ds@.subrange(0, i as int)),
            stemless == stemless_basenames(ds@.subrange(0, i as int)),
            stemless <= i,
        decreases ds@.len() - i,
    {
        let ghost prefix = ds@.subrange(0, i + 1);
        proof {
            assert(prefix.drop_last() =~= ds@.subrange(0, i as int));
            assert(prefix.last() == ds@[i as int]);
        }
        match &ds[i] {
            Directive::Frames { count } => {
                frame_count = Some(*count);
            },
            Directive::Basename { stem: Some(s) } => {
                basename = s.clone();
            },
            Directive::Basename { stem: None } => {
                stemless = stemless + 1;
            },
            Directive::Vary { .. } => {
                vary_present = true;
            },
            _ => {},
        }
        proof {
            if vary_present {
                if ds@[i as int] is Vary {
                    assert(prefix[i as int] is Vary);
                } else {
                    let j = choose|j: int| 0 <= j < i && ds@.subrange(0, i as int)[j] is Vary;
                    assert(prefix[j] is Vary);
                }
            } else {
                assert forall|j: int| 0 <= j < i + 1 implies !(prefix[j] is Vary) by {
                    if j < i {
                        assert(ds@.subrange(0, i as int)[j] == prefix[j]);
                    }
                }
            }
        }
        i = i + 1;
    }
    proof {
        assert(ds@.subrange(0, i as int) =~= ds@);
    }
    AnimationConfig { frame_count, basename, vary_present, stemless_basenames: stemless }
}

/// The numerator of the knob value `offset` frames into a `vary` over
/// `span` frames from `start` to `end`: `start * (span - offset) / span +
/// end * offset / span`, over the common denominator of `lerp_denom`. A
/// range of a single frame takes `start` as it is.
pub open spec fn lerp_numer(start: Num, end: Num, span: int, offset: int) -> int {
    if span == 0 {
        start.numer as int
    } else {
        start.numer * end.denom * (span - offset) + end.numer * start.denom * offset
    }
}

/// The denominator that goes with `lerp_numer`.
pub open spec fn lerp_denom(start: Num, end: Num, span: int) -> int {
    if span == 0 {
        start.denom as int
    } else {
        start.denom * end.denom * span
    }
}

/// The knob value on frame `f` of a `vary` from `start` on frame
/// `start_frame` to `end` on frame `end_frame`.
pub open spec fn lerp(start: Num, end: Num, start_frame: u32, end_frame: u32, f: nat) -> Ratio {
    let span = end_frame - start_frame;
    let offset = f - start_frame;
    Ratio {
        numer: lerp_numer(start, end, span, offset) as i128,
        denom: lerp_denom(start, end, span) as u128,
    }
}

proof fn lemma_lerp_bounds(start: Num, end: Num, span: int, offset: int)
    requires
        0 <= offset <= span <= u32::MAX,
    ensures
        i128::MIN <= lerp_numer(start, end, span, offset) <= i128::MAX,
        0 <= lerp_denom(start, end, span) <= u128::MAX,
{
    if span != 0 {
        let m: int = 0x8000_0000_0000_0000int * 0xffff_ffffint;
        let x = start.numer * end.denom;
        let y = end.numer * start.denom;
        assert(-m <= x <= m) by (nonlinear_arith)
            requires
                x == start.numer * end.denom,
                -0x8000_0000_0000_0000 <= start.numer <= 0x7fff_ffff_ffff_ffff,
                0 <= end.denom <= 0xffff_ffff,
                m == 0x8000_0000_0000_0000 * 0xffff_ffff,
        ;
        assert(-m <= y <= m) by (nonlinear_arith)
            requires
                y == end.numer * start.denom,
                -0x8000_0000_0000_0000 <= end.numer <= 0x7fff_ffff_ffff_ffff,
                0 <= start.denom <= 0xffff_ffff,
                m == 0x8000_0000_0000_0000 * 0xffff_ffff,
        ;
        assert(-m * span <= x * (span - offset) + y * offset <= m * span) by (nonlinear_arith)
            requires
                -m <= x <= m,
                -m <= y <= m,
                0 <= offset <= span,
        ;
        assert(m * span <= m * 0xffff_ffff) by (nonlinear_arith)
            requires
                m >= 0,
                span <= 0xffff_ffff,
        ;
        assert(start.numer * end.denom * (span - offset) == x * (span - offset));
        assert(end.numer * start.denom * offset == y * offset);
        let d = start.denom * end.denom;
        assert(0 <= d <= 0xffff_ffff * 0xffff_ffff) by (nonlinear_arith)
            requires
                d == start.denom * end.denom,
                0 <= start.denom <= 0xffff_ffff,
                0 <= end.denom <= 0xffff_ffff,
        ;
        assert(0 <= d * span <= 0xffff_ffff * 0xffff_ffff * 0xffff_ffff) by (nonlinear_arith)
            requires
                0 <= d <= 0xffff_ffff * 0xffff_ffff,
                0 <= span <= 0xffff_ffff,
        ;
    }
}

/// The knob value on frame `f` of a `vary` from `start` on frame
/// `start_frame` to `end` on frame `end_frame`, exactly.
pub fn interpolate(start: Num, end: Num, start_frame: u32, end_frame: u32, f: u32) -> (r: Ratio)
    requires
        start_frame <= f <= end_frame,
    ensures
        r == lerp(start, end, start_frame, end_frame, f as nat),
        r.numer == lerp_numer(start, end, end_frame - start_frame, f - start_frame),
        r.denom == lerp_denom(start, end, end_frame - start_frame),
{
    let span: u32 = end_frame - start_frame;
    let offset: u32 = f - start_frame;
    proof {
        lemma_lerp_bounds(start, end, span as int, offset as int);
    }
    if span == 0 {
        return Ratio { numer: start.numer as i128, denom: start.denom as u128 };
    }
    let ghost m: int = 0x8000_0000_0000_0000int * 0xffff_ffffint;
    proof {
        assert(-m <= start.numer * end.denom <= m) by (nonlinear_arith)
            requires
                -0x8000_0000_0000_0000 <= start.numer <= 0x7fff_ffff_ffff_ffff,
                0 <= end.denom <= 0xffff_ffff,
                m == 0x8000_0000_0000_0000 * 0xffff_ffff,
        ;
        assert(-m <= end.numer * start.denom <= m) by (nonlinear_arith)
            requires
                -0x8000_0000_0000_0000 <= end.numer <= 0x7fff_ffff_ffff_ffff,
                0 <= start.denom <= 0xffff_ffff,
                m == 0x8000_0000_0000_0000 * 0xffff_ffff,
        ;
    }
    let x: i128 = (start.numer as i128) * (end.denom as i128);
    let y: i128 = (end.numer as i128) * (start.denom as i128);
    proof {
        assert(x * (span - offset) + y * offset == lerp_numer(start, end, span as int, offset as int)) by (nonlinear_arith)
            requires
                x == start.numer * end.denom,
                y == end.numer * start.denom,
                span != 0,
        ;
        assert(-m * 0xffff_ffff <= x * (span - offset) <= m * 0xffff_ffff) by (nonlinear_arith)
            requires
                -m <= x <= m,
                0 <= span - offset <= 0xffff_ffff,
                m >= 0,
        ;
        assert(-m * 0xffff_ffff <= y * offset <= m * 0xffff_ffff) by (nonlinear_arith)
            requires
                -m <= y <= m,
                0 <= offset <= 0xffff_ffff,
                m >= 0,
        ;
    }
    let numer: i128 = x * ((span - offset) as i128) + y * (offset as i128);
    proof {
        assert(start.denom * end.denom <= 0xffff_ffff * 0xffff_ffff) by (nonlinear_arith)
            requires
                0 <= start.denom <= 0xffff_ffff,
                0 <= end.denom <= 0xffff_ffff,
        ;
    }
    let d: u128 = (start.denom as u128) * (end.denom as u128);
    proof {
        assert(d * span == lerp_denom(start, end, span as int)) by (nonlinear_arith)
            requires
                d == start.denom * end.denom,
                span != 0,
        ;
    }
    Ratio { numer, denom: d * (span as u128) }
}

/// Knob linearity: the value on frame `f` is exactly `start + step * (f -
/// start_frame)`, where `step = (end - start) / (end_frame - start_frame)`;
/// so the first frame of the range takes `start` and, where the range
/// spans more than one frame, the last takes `end`. A range of one frame
/// takes `start`.
pub proof fn lemma_lerp_linear(start: Num, end: Num, start_frame: u32, end_frame: u32, f: nat)
    requires
        start.wf(),
        end.wf(),
        start_frame <= f <= end_frame,
    ensures
        lerp(start, end, start_frame, end_frame, f).wf(),
        end_frame > start_frame ==> lerp(start, end, start_frame, end_frame, f).denotes(
            start.numer * end.denom * (end_frame - start_frame) + (end.numer * start.denom
                - start.numer * end.denom) * (f - start_frame),
            start.denom * end.denom * (end_frame - start_frame),
        ),
        f == start_frame ==> lerp(start, end, start_frame, end_frame, f).denotes(
            start.numer as int,
            start.denom as int,
        ),
        f == end_frame && end_frame > start_frame ==> lerp(start, end, start_frame, end_frame, f).denotes(
            end.numer as int,
            end.denom as int,
        ),
{
    let span: int = end_frame - start_frame;
    let offset: int = f - start_frame;
    lemma_lerp_bounds(start, end, span, offset);
    let r = lerp(start, end, start_frame, end_frame, f);
    let n = lerp_numer(start, end, span, offset);
    let d = lerp_denom(start, end, span);
    assert(r.numer == n && r.denom == d);
    if span == 0 {
    } else {
        assert(d > 0) by (nonlinear_arith)
            requires
                d == start.denom * end.denom * span,
                start.denom > 0,
                end.denom > 0,
                span > 0,
        ;
        assert(n == start.numer * end.denom * span + (end.numer * start.denom - start.numer
            * end.denom) * offset) by (nonlinear_arith)
            requires
                n == start.numer * end.denom * (span - offset) + end.numer * start.denom * offset,
        ;
        assert(n * (start.denom * end.denom * span) == (start.numer * end.denom * span + (
        end.numer * start.denom - start.numer * end.denom) * offset) * d) by (nonlinear_arith)
            requires
                n == start.numer * end.denom * span + (end.numer * start.denom - start.numer
                    * end.denom) * offset,
                d == start.denom * end.denom * span,
        ;
        if offset == 0 {
            assert(n * start.denom == start.numer * d) by (nonlinear_arith)
                requires
                    n == start.numer * end.denom * span,
                    d == start.denom * end.denom * span,
            ;
        }
        if offset == span {
            assert(n * end.denom == end.numer * d) by (nonlinear_arith)
                requires
                    n == start.numer * end.denom * (span - offset) + end.numer * start.denom * offset,
                    d == start.denom * end.denom * span,
                    offset == span,
            ;
        }
    }
}

/// One knob value written for one frame.
pub struct KnobWrite {
    pub frame: u32,
    pub knob: String,
    pub value: Ratio,
}

/// The value that the last write for frame `f` and knob `k` gave, if any.
pub open spec fn last_write(ws: Seq<(nat, Seq<char>, Ratio)>, f: nat, k: Seq<char>) -> Option<Ratio>
    decreases ws.len(),
{
    if ws.len() == 0 {
        None
    } else if ws.last().0 == f && ws.last().1 == k {
        Some(ws.last().2)
    } else {
        last_write(ws.drop_last(), f, k)
    }
}

/// The value of knob `k` on frame `f` after the `vary` directives of `ds`:
/// that of the last one that names `k` and covers `f`.
pub open spec fn knob_value(ds: Seq<Directive>, f: nat, k: Seq<char>) -> Option<Ratio>
    decreases ds.len(),
{
    if ds.len() == 0 {
        None
    } else {
        match ds.last() {
            Directive::Vary { knob, start_frame, end_frame, start_value, end_value } => if knob@
                == k && start_frame <= f <= end_frame {
                Some(lerp(start_value, end_value, start_frame, end_frame, f))
            } else {
                knob_value(ds.drop_last(), f, k)
            },
            _ => knob_value(ds.drop_last(), f, k),
        }
    }
}

/// The failure, if any, of directive `d` in an animation of `count` frames.
pub open spec fn vary_error(d: Directive, count: u32) -> Option<ScriptError> {
    match d {
        Directive::Vary { start_frame, end_frame, .. } => if end_frame < start_frame {
            Some(ScriptError::InvertedFrameRange)
        } else if end_frame >= count {
            Some(ScriptError::FrameOutOfRange)
        } else {
            None
        },
        _ => None,
    }
}

/// The failure of the first `vary` directive of `ds` that fails.
pub open spec fn first_vary_error(ds: Seq<Directive>, count: u32) -> Option<ScriptError>
    decreases ds.len(),
{
    if ds.len() == 0 {
        None
    } else {
        match first_vary_error(ds.drop_last(), count) {
            Some(e) => Some(e),
            None => vary_error(ds.last(), count),
        }
    }
}

/// The knob value of every frame of an animation.
pub struct KnobTable {
    frame_count: u32,
    writes: Vec<KnobWrite>,
}

impl KnobTable {
    closed spec fn writes_view(&self) -> Seq<(nat, Seq<char>, Ratio)> {
        Seq::new(
            self.writes@.len(),
            |i: int| (self.writes@[i].frame as nat, self.writes@[i].knob@, self.writes@[i].value),
        )
    }

    /// The number of frames.
    pub closed spec fn frames(&self) -> nat {
        self.frame_count as nat
    }

    /// The value of knob `k` on frame `f`, if it has one.
    pub closed spec fn value_at(&self, f: nat, k: Seq<char>) -> Option<Ratio> {
        last_write(self.writes_view(), f, k)
    }

    /// A table of `frame_count` frames in which no knob has a value.
    pub fn new(frame_count: u32) -> (r: KnobTable)
        ensures
            r.frames() == frame_count,
            forall|f: nat, k: Seq<char>| r.value_at(f, k) is None,
    {
        let r = KnobTable { frame_count, writes: Vec::new() };
        proof {
            assert(r.writes_view() =~= Seq::<(nat, Seq<char>, Ratio)>::empty());
        }
        r
    }

    /// The number of frames.
    pub fn frame_count(&self) -> (r: u32)
        ensures
            r == self.frames(),
    {
        self.frame_count
    }

    fn write(&mut self, frame: u32, knob: &String, value: Ratio)
        ensures
            final(self).frames() == old(self).frames(),
            forall|f: nat, k: Seq<char>|
                #![trigger final(self).value_at(f, k)]
                final(self).value_at(f, k) == if f == frame && k == knob@ {
                    Some(value)
                } else {
                    old(self).value_at(f, k)
                },
    {
        let ghost before = self.writes_view();
        self.writes.push(KnobWrite { frame, knob: knob.clone(), value });
        proof {
            assert(self.writes_view().drop_last() =~= before);
        }
    }

    /// The value of `knob` on frame `frame`, if it has one.
    pub fn get(&self, frame: u32, knob: &String) -> (r: Option<Ratio>)
        ensures
            r == self.value_at(frame as nat, knob@),
    {
        let mut i: usize = self.writes.len();
        proof {
            assert(self.writes_view().subrange(0, i as int) =~= self.writes_view());
        }
        while i > 0
            invariant
                i <= self.writes@.len(),
                self.value_at(frame as nat, knob@) == last_write(
                    self.writes_view().subrange(0, i as int),
                    frame as nat,
                    knob@,
                ),
            decreases i,
        {
            proof {
                assert(self.writes_view().subrange(0, i as int).drop_last() =~= self.writes_view().subrange(0, i - 1));
            }
            if self.writes[i - 1].frame == frame && self.writes[i - 1].knob == *knob {
                return Some(self.writes[i - 1].value);
            }
            i = i - 1;
        }
        None
    }
}

/// Expands the `vary` directives of `ds` into the knob values of an
/// animation of `frame_count` frames, in stream order, so that where two of
/// them give the same knob a value on the same frame the later one wins.
/// Fails with the failure of the first `vary` whose range is inverted or
/// reaches past the last frame.
pub fn resolve_knobs(ds: &Vec<Directive>, frame_count: u32) -> (r: Result<KnobTable, ScriptError>)
    ensures
        match first_vary_error(ds@, frame_count) {
            Some(e) => r is Err && r->Err_0 == e,
            None => r is Ok && r->Ok_0.frames() == frame_count && forall|f: nat, k: Seq<char>|
                #[trigger] r->Ok_0.value_at(f, k) == knob_value(ds@, f, k),
        },
{
    let mut table = KnobTable::new(frame_count);
    let mut i: usize = 0;
    proof {
        assert(ds@.subrange(0, 0) =~= Seq::<Directive>::empty());
    }
    while i < ds.len()
        invariant
            i <= ds@.len(),
            first_vary_error(ds@.subrange(0, i as int), frame_count) is None,
            table.frames() == frame_count,
            forall|f: nat, k: Seq<char>|
                #[trigger] table.value_at(f, k) == knob_value(ds@.subrange(0, i as int), f, k),
        decreases ds@.len() - i,
    {
        let ghost prev = ds@.subrange(0, i as int);
        let ghost next = ds@.subrange(0, i + 1);
        proof {
            assert(next.drop_last() =~= prev);
            assert(next.last() == ds@[i as int]);
        }
        if let Directive::Vary { knob, start_frame, end_frame, start_value, end_value } = &ds[i] {
            if *end_frame < *start_frame {
                proof {
                    lemma_vary_failure_persists(ds@, frame_count, i + 1);
                }
                return Err(ScriptError::InvertedFrameRange);
            }
            if *end_frame >= frame_count {
                proof {
                    lemma_vary_failure_persists(ds@, frame_count, i + 1);
                }
                return Err(ScriptError::FrameOutOfRange);
            }
            let mut f: u32 = *start_frame;
            while f <= *end_frame
                invariant
                    *start_frame <= f <= *end_frame + 1,
                    *end_frame < frame_count,
                    table.frames() == frame_count,
                    forall|g: nat, k: Seq<char>|
                        #[trigger] table.value_at(g, k) == if k == knob@ && *start_frame <= g < f {
                            Some(lerp(*start_value, *end_value, *start_frame, *end_frame, g))
                        } else {
                            knob_value(prev, g, k)
                        },
                decreases *end_frame + 1 - f,
            {
                let v = interpolate(*start_value, *end_value, *start_frame, *end_frame, f);
                table.write(f, knob, v);
                f = f + 1;
            }
        }
        i = i + 1;
    }
    proof {
        assert(ds@.subrange(0, i as int) =~= ds@);
    }
    Ok(table)
}

/// Once a prefix of the stream holds a failing `vary`, the whole stream
/// fails the same way.
proof fn lemma_vary_failure_persists(ds: Seq<Directive>, count: u32, k: int)
    requires
        0 <= k <= ds.len(),
        first_vary_error(ds.subrange(0, k), count) is Some,
    ensures
        first_vary_error(ds, count) == first_vary_error(ds.subrange(0, k), count),
    decreases ds.len() - k,
{
    if k == ds.len() {
        assert(ds.subrange(0, k) =~= ds);
    } else {
        assert(ds.subrange(0, k + 1).drop_last() =~= ds.subrange(0, k));
        lemma_vary_failure_persists(ds, count, k + 1);
    }
}

} // verus!
