//! The grammar of a script: one directive per line, a keyword followed by
//! its operands, separated by blanks. Names are taken as they stand;
//! numbers are read exactly (see `literal`).
use vstd::prelude::*;
use crate::directive::{Directive, Point, Segment};
use crate::error::ScriptError;
use crate::literal::{num_of, parse_num, parse_uint, uint_of};
use crate::material::{name_view, Material, Rgb};
use crate::num::Num;
use crate::split::{pieces, split, strings_view};

verus! {

/// Whether every token of `args` from `from` up to `to` is a decimal literal.
pub open spec fn all_nums(args: Seq<Seq<char>>, from: int, to: int) -> bool {
    forall|i: int| from <= i < to ==> (#[trigger] num_of(args[i])) is Some
}

/// The decimal literal `t`, where it is one.
pub open spec fn nv(t: Seq<char>) -> Num {
    num_of(t)->Some_0
}

/// The point whose coordinates are the three literals from `args[i]` on.
pub open spec fn point_at(args: Seq<Seq<char>>, i: int) -> Point {
    Point { x: nv(args[i]), y: nv(args[i + 1]), z: nv(args[i + 2]) }
}

/// Whether a solid takes `count` numbers: `count` operands without a
/// material name, or one more with one.
pub open spec fn solid_arity(m: int, count: int) -> bool {
    m == count || m == count + 1
}

/// Whether the tokens of a line (keyword first) are a well-formed
/// directive: each known keyword with the operands it takes; an unknown
/// keyword is always well formed.
pub open spec fn well_formed(toks: Seq<Seq<char>>) -> bool {
    let k = toks[0];
    let args = toks.drop_first();
    let m = args.len() as int;
    if k == "constants"@ {
        m == 10 && all_nums(args, 1, 10)
    } else if k == "push"@ || k == "pop"@ || k == "display"@ {
        m == 0
    } else if k == "move"@ || k == "scale"@ {
        m == 3 && all_nums(args, 0, 3)
    } else if k == "rotate"@ {
        m == 2 && all_nums(args, 1, 2)
    } else if k == "sphere"@ {
        solid_arity(m, 4) && all_nums(args, m - 4, m)
    } else if k == "box"@ {
        solid_arity(m, 6) && all_nums(args, m - 6, m)
    } else if k == "torus"@ {
        solid_arity(m, 5) && all_nums(args, m - 5, m)
    } else if k == "line"@ {
        m == 6 && all_nums(args, 0, 6)
    } else if k == "save"@ {
        m == 1
    } else if k == "frames"@ {
        m == 1 && uint_of(args[0]) is Some
    } else if k == "basename"@ {
        m <= 1
    } else if k == "vary"@ {
        m == 5 && uint_of(args[1]) is Some && uint_of(args[2]) is Some && all_nums(args, 3, 5)
    } else {
        true
    }
}

/// The material name of a solid with `count` numbers, if it has one.
pub open spec fn solid_material(args: Seq<Seq<char>>, count: int) -> Option<Seq<char>> {
    if args.len() == count + 1 {
        Some(args[0])
    } else {
        None
    }
}

/// Whether `d` is the directive that the well-formed tokens `toks` spell.
pub open spec fn parses_to(toks: Seq<Seq<char>>, d: Directive) -> bool {
    let k = toks[0];
    let args = toks.drop_first();
    let m = args.len() as int;
    if k == "constants"@ {
        d matches Directive::Constants { name, coefficients } && name@ == args[0] && coefficients
            == (Material {
            ambient: Rgb { red: nv(args[1]), green: nv(args[4]), blue: nv(args[7]) },
            diffuse: Rgb { red: nv(args[2]), green: nv(args[5]), blue: nv(args[8]) },
            specular: Rgb { red: nv(args[3]), green: nv(args[6]), blue: nv(args[9]) },
        })
    } else if k == "push"@ {
        d is Push
    } else if k == "pop"@ {
        d is Pop
    } else if k == "display"@ {
        d is Display
    } else if k == "move"@ {
        d matches Directive::Move { dx, dy, dz } && dx == nv(args[0]) && dy == nv(args[1]) && dz
            == nv(args[2])
    } else if k == "scale"@ {
        d matches Directive::Scale { sx, sy, sz } && sx == nv(args[0]) && sy == nv(args[1]) && sz
            == nv(args[2])
    } else if k == "rotate"@ {
        d matches Directive::Rotate { axis, degrees } && axis@ == args[0] && degrees == nv(args[1])
    } else if k == "sphere"@ {
        d matches Directive::Sphere { material, center, radius } && name_view(&material)
            == solid_material(args, 4) && center == point_at(args, m - 4) && radius == nv(args[m - 1])
    } else if k == "box"@ {
        d matches Directive::Cuboid { material, corner, width, height, depth } && name_view(&material)
            == solid_material(args, 6) && corner == point_at(args, m - 6) && width == nv(args[m - 3])
            && height == nv(args[m - 2]) && depth == nv(args[m - 1])
    } else if k == "torus"@ {
        d matches Directive::Torus { material, center, tube_radius, ring_radius } && name_view(&material)
            == solid_material(args, 5) && center == point_at(args, m - 5) && tube_radius == nv(
            args[m - 2],
        ) && ring_radius == nv(args[m - 1])
    } else if k == "line"@ {
        d matches Directive::Line { segment } && segment == (Segment {
            start: point_at(args, 0),
            end: point_at(args, 3),
        })
    } else if k == "save"@ {
        d matches Directive::Save { filename } && filename@ == args[0]
    } else if k == "frames"@ {
        d matches Directive::Frames { count } && Some(count) == uint_of(args[0])
    } else if k == "basename"@ {
        d matches Directive::Basename { stem } && name_view(&stem) == (if m == 1 {
            Some(args[0])
        } else {
            None
        })
    } else if k == "vary"@ {
        d matches Directive::Vary { knob, start_frame, end_frame, start_value, end_value } && knob@
            == args[0] && Some(start_frame) == uint_of(args[1]) && Some(end_frame) == uint_of(args[2])
            && start_value == nv(args[3]) && end_value == nv(args[4])
    } else {
        d matches Directive::Unsupported { kind } && kind@ == k
    }
}

fn is_word(tok: &String, w: &str) -> (r: bool)
    ensures
        r == (tok@ == w@),
{
    *tok == String::from_str(w)
}

/// Reads the decimal literals `toks[from..to]`.
fn read_nums(toks: &Vec<String>, from: usize, to: usize) -> (r: Result<Vec<Num>, ScriptError>)
    requires
        from <= to <= toks@.len(),
    ensures
        match r {
            Ok(v) => v@.len() == to - from && all_nums(strings_view(toks@), from as int, to as int)
                && forall|i: int| 0 <= i < to - from ==> v@[i] == nv(toks@[from + i]@),
            Err(e) => e == ScriptError::ParseFailure && !all_nums(
                strings_view(toks@),
                from as int,
                to as int,
            ),
        },
{
    let mut v: Vec<Num> = Vec::new();
    let mut i: usize = from;
    while i < to
        invariant
            from <= i <= to <= toks@.len(),
            v@.len() == i - from,
            forall|j: int| from <= j < i ==> (#[trigger] num_of(strings_view(toks@)[j])) is Some,
            forall|j: int| 0 <= j < i - from ==> v@[j] == nv(toks@[from + j]@),
        decreases to - i,
    {
        match parse_num(toks[i].as_str()) {
            Ok(x) => v.push(x),
            Err(e) => {
                proof {
                    assert(num_of(strings_view(toks@)[i as int]) is None);
                }
                return Err(e);
            },
        }
        i = i + 1;
    }
    Ok(v)
}

/// `all_nums` over the operands is `all_nums` over the tokens, one further.
proof fn lemma_shift(ts: Seq<Seq<char>>, a: int, b: int)
    requires
        ts.len() > 0,
        0 <= a <= b < ts.len(),
    ensures
        all_nums(ts.drop_first(), a, b) == all_nums(ts, a + 1, b + 1),
        all_nums(ts.drop_first(), a, b) ==> forall|i: int|
            a <= i < b ==> nv(ts.drop_first()[i]) == nv(ts[i + 1]),
{
    let args = ts.drop_first();
    if all_nums(ts, a + 1, b + 1) {
        assert forall|i: int| a <= i < b implies (#[trigger] num_of(args[i])) is Some by {
            assert(args[i] == ts[i + 1]);
        }
    }
    if all_nums(args, a, b) {
        assert forall|i: int| a + 1 <= i < b + 1 implies (#[trigger] num_of(ts[i])) is Some by {
            assert(args[i - 1] == ts[i]);
        }
    }
}

/// Reads the directive that the tokens of a line spell, keyword first;
/// `ParseFailure` when a known keyword has the wrong operands.
#[verifier::rlimit(60)]
#[verifier::spinoff_prover]
pub fn parse_tokens(toks: &Vec<String>) -> (r: Result<Directive, ScriptError>)
    requires
        toks@.len() > 0,
    ensures
        r is Ok <==> well_formed(strings_view(toks@)),
        r matches Ok(d) ==> parses_to(strings_view(toks@), d),
        r matches Err(e) ==> e == ScriptError::ParseFailure,
{
    let ghost ts = strings_view(toks@);
    let ghost args = ts.drop_first();
    let k = &toks[0];
    let m: usize = toks.len() - 1;
    proof {
        assert(ts[0] == k@);
        assert forall|i: int| 0 <= i < m implies #[trigger] args[i] == toks@[i + 1]@ by {}
    }
    if is_word(k, "constants") {
        if m != 10 {
            return Err(ScriptError::ParseFailure);
        }
        let v = match read_nums(toks, 1 + 1, 10 + 1) {
            Ok(v) => v,
            Err(e) => {
                proof {
                    lemma_shift(ts, 1, 10);
                }
                return Err(e);
            },
        };
        proof {
            lemma_shift(ts, 1, 10);
        }
        let coefficients = Material::from_constants(
            v[0], v[1], v[2], v[3], v[4], v[5], v[6], v[7], v[8],
        );
        return Ok(Directive::Constants { name: toks[1].clone(), coefficients });
    }
    if is_word(k, "push") {
        if m != 0 {
            return Err(ScriptError::ParseFailure);
        }
        return Ok(Directive::Push);
    }
    if is_word(k, "pop") {
        if m != 0 {
            return Err(ScriptError::ParseFailure);
        }
        return Ok(Directive::Pop);
    }
    if is_word(k, "display") {
        if m != 0 {
            return Err(ScriptError::ParseFailure);
        }
        return Ok(Directive::Display);
    }
    if is_word(k, "move") {
        if m != 3 {
            return Err(ScriptError::ParseFailure);
        }
        let v = match read_nums(toks, 0 + 1, 3 + 1) {
            Ok(v) => v,
            Err(e) => {
                proof {
                    lemma_shift(ts, 0, 3);
                }
                return Err(e);
            },
        };
        proof {
            lemma_shift(ts, 0, 3);
        }
        return Ok(Directive::Move { dx: v[0], dy: v[1], dz: v[2] });
    }
    if is_word(k, "scale") {
        if m != 3 {
            return Err(ScriptError::ParseFailure);
        }
        let v = match read_nums(toks, 0 + 1, 3 + 1) {
            Ok(v) => v,
            Err(e) => {
                proof {
                    lemma_shift(ts, 0, 3);
                }
                return Err(e);
            },
        };
        proof {
            lemma_shift(ts, 0, 3);
        }
        return Ok(Directive::Scale { sx: v[0], sy: v[1], sz: v[2] });
    }
    if is_word(k, "rotate") {
        if m != 2 {
            return Err(ScriptError::ParseFailure);
        }
        let v = match read_nums(toks, 1 + 1, 2 + 1) {
            Ok(v) => v,
            Err(e) => {
                proof {
                    lemma_shift(ts, 1, 2);
                }
                return Err(e);
            },
        };
        proof {
            lemma_shift(ts, 1, 2);
        }
        return Ok(Directive::Rotate { axis: toks[1].clone(), degrees: v[0] });
    }
    if is_word(k, "sphere") {
        if m != 4 && m != 4 + 1 {
            return Err(ScriptError::ParseFailure);
        }
        let first: usize = m - 4;
        let v = match read_nums(toks, first + 1, m + 1) {
            Ok(v) => v,
            Err(e) => {
                proof {
                    lemma_shift(ts, first as int, m as int);
                }
                return Err(e);
            },
        };
        proof {
            lemma_shift(ts, first as int, m as int);
        }
        let material: Option<String> = if m == 4 + 1 {
            Some(toks[1].clone())
        } else {
            None
        };
        let center = Point { x: v[0], y: v[1], z: v[2] };
        return Ok(Directive::Sphere { material, center, radius: v[3] });
    }
    if is_word(k, "box") {
        if m != 6 && m != 6 + 1 {
            return Err(ScriptError::ParseFailure);
        }
        let first: usize = m - 6;
        let v = match read_nums(toks, first + 1, m + 1) {
            Ok(v) => v,
            Err(e) => {
                proof {
                    lemma_shift(ts, first as int, m as int);
                }
                return Err(e);
            },
        };
        proof {
            lemma_shift(ts, first as int, m as int);
        }
        let material: Option<String> = if m == 6 + 1 {
            Some(toks[1].clone())
        } else {
            None
        };
        let center = Point { x: v[0], y: v[1], z: v[2] };
        return Ok(Directive::Cuboid { material, corner: center, width: v[3], height: v[4], depth: v[5] });
    }
    if is_word(k, "torus") {
        if m != 5 && m != 5 + 1 {
            return Err(ScriptError::ParseFailure);
        }
        let first: usize = m - 5;
        let v = match read_nums(toks, first + 1, m + 1) {
            Ok(v) => v,
            Err(e) => {
                proof {
                    lemma_shift(ts, first as int, m as int);
                }
                return Err(e);
            },
        };
        proof {
            lemma_shift(ts, first as int, m as int);
        }
        let material: Option<String> = if m == 5 + 1 {
            Some(toks[1].clone())
        } else {
            None
        };
        let center = Point { x: v[0], y: v[1], z: v[2] };
        return Ok(Directive::Torus { material, center, tube_radius: v[3], ring_radius: v[4] });
    }
    if is_word(k, "line") {
        if m != 6 {
            return Err(ScriptError::ParseFailure);
        }
        let v = match read_nums(toks, 0 + 1, 6 + 1) {
            Ok(v) => v,
            Err(e) => {
                proof {
                    lemma_shift(ts, 0, 6);
                }
                return Err(e);
            },
        };
        proof {
            lemma_shift(ts, 0, 6);
        }
        let start = Point { x: v[0], y: v[1], z: v[2] };
        let end = Point { x: v[3], y: v[4], z: v[5] };
        return Ok(Directive::Line { segment: Segment { start, end } });
    }
    if is_word(k, "save") {
        if m != 1 {
            return Err(ScriptError::ParseFailure);
        }
        return Ok(Directive::Save { filename: toks[1].clone() });
    }
    if is_word(k, "frames") {
        if m != 1 {
            return Err(ScriptError::ParseFailure);
        }
        let count = parse_uint(toks[1].as_str())?;
        return Ok(Directive::Frames { count });
    }
    if is_word(k, "basename") {
        if m > 1 {
            return Err(ScriptError::ParseFailure);
        }
        let stem: Option<String> = if m == 1 {
            Some(toks[1].clone())
        } else {
            None
        };
        return Ok(Directive::Basename { stem });
    }
    if is_word(k, "vary") {
        if m != 5 {
            return Err(ScriptError::ParseFailure);
        }
        let start_frame = parse_uint(toks[2].as_str())?;
        let end_frame = parse_uint(toks[3].as_str())?;
        let v = match read_nums(toks, 3 + 1, 5 + 1) {
            Ok(v) => v,
            Err(e) => {
                proof {
                    lemma_shift(ts, 3, 5);
                }
                return Err(e);
            },
        };
        proof {
            lemma_shift(ts, 3, 5);
        }
        return Ok(
            Directive::Vary {
                knob: toks[1].clone(),
                start_frame,
                end_frame,
                start_value: v[0],
                end_value: v[1],
            },
        );
    }
    Ok(Directive::Unsupported { kind: k.clone() })
}

/// The tokens of each line of `lines` that holds any, in order.
pub open spec fn token_lines(lines: Seq<Seq<char>>) -> Seq<Seq<Seq<char>>>
    decreases lines.len(),
{
    if lines.len() == 0 {
        Seq::empty()
    } else {
        let earlier = token_lines(lines.drop_last());
        let toks = pieces(lines.last(), false);
        if toks.len() > 0 {
            earlier.push(toks)
        } else {
            earlier
        }
    }
}

/// The token lines of a script text.
pub open spec fn script_lines(text: Seq<char>) -> Seq<Seq<Seq<char>>> {
    token_lines(pieces(text, true))
}

/// Reads a script: one directive for each line that holds any token, in
/// order, then the end-of-stream marker. `ParseFailure` when a line is not
/// well formed.
pub fn parse_script(text: &str) -> (r: Result<Vec<Directive>, ScriptError>)
    ensures
        r is Ok <==> forall|j: int|
            0 <= j < script_lines(text@).len() ==> well_formed(#[trigger] script_lines(text@)[j]),
        r matches Ok(ds) ==> {
            &&& ds@.len() == script_lines(text@).len() + 1
            &&& forall|j: int|
                0 <= j < script_lines(text@).len() ==> parses_to(
                    #[trigger] script_lines(text@)[j],
                    ds@[j],
                )
            &&& ds@.last() is End
        },
        r matches Err(e) ==> e == ScriptError::ParseFailure,
{
    let lines = split(text, true);
    let ghost ls = strings_view(lines@);
    let mut ds: Vec<Directive> = Vec::new();
    let mut i: usize = 0;
    proof {
        assert(ls.subrange(0, 0) =~= Seq::<Seq<char>>::empty());
    }
    while i < lines.len()
        invariant
            i <= lines@.len(),
            ls == strings_view(lines@),
            ls == pieces(text@, true),
            ds@.len() == token_lines(ls.subrange(0, i as int)).len(),
            forall|j: int|
                0 <= j < ds@.len() ==> well_formed(#[trigger] token_lines(ls.subrange(0, i as int))[j])
                    && parses_to(token_lines(ls.subrange(0, i as int))[j], ds@[j]),
        decreases lines@.len() - i,
    {
        let ghost before = token_lines(ls.subrange(0, i as int));
        proof {
            assert(ls.subrange(0, i + 1).drop_last() =~= ls.subrange(0, i as int));
            assert(ls.subrange(0, i + 1).last() == lines@[i as int]@);
        }
        let toks = split(lines[i].as_str(), false);
        if toks.len() > 0 {
            let d = match parse_tokens(&toks) {
                Ok(d) => d,
                Err(e) => {
                    proof {
                        let tl = token_lines(ls.subrange(0, i + 1));
                        assert(tl[before.len() as int] == strings_view(toks@));
                        lemma_token_lines_prefix(ls, i + 1);
                        assert(ls.subrange(0, ls.len() as int) =~= ls);
                        assert(script_lines(text@)[before.len() as int] == strings_view(toks@));
                    }
                    return Err(e);
                },
            };
            ds.push(d);
        }
        i = i + 1;
    }
    proof {
        assert(ls.subrange(0, i as int) =~= ls);
    }
    ds.push(Directive::End);
    Ok(ds)
}

/// The token lines of a prefix of `ls` are a prefix of those of `ls`.
proof fn lemma_token_lines_prefix(ls: Seq<Seq<char>>, i: int)
    requires
        0 <= i <= ls.len(),
    ensures
        token_lines(ls.subrange(0, i)).len() <= token_lines(ls).len(),
        forall|j: int|
            0 <= j < token_lines(ls.subrange(0, i)).len() ==> #[trigger] token_lines(
                ls.subrange(0, i),
            )[j] == token_lines(ls)[j],
    decreases ls.len() - i,
{
    if i == ls.len() {
        assert(ls.subrange(0, i) =~= ls);
    } else {
        lemma_token_lines_prefix(ls, i + 1);
        let short = ls.subrange(0, i);
        let long = ls.subrange(0, i + 1);
        assert(long.drop_last() =~= short);
        assert forall|j: int| 0 <= j < token_lines(short).len() implies #[trigger] token_lines(
            short,
        )[j] == token_lines(ls)[j] by {
            assert(token_lines(long)[j] == token_lines(short)[j]);
        }
    }
}

} // verus!
