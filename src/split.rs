//! Splitting script text into lines and lines into tokens.
use vstd::prelude::*;

verus! {

/// Whether `c` separates lines (`lines`) or the tokens of a line.
pub open spec fn is_separator(c: char, lines: bool) -> bool {
    if lines {
        c == '\n'
    } else {
        c == ' ' || c == '\t' || c == '\r' || c == '\n'
    }
}

/// After reading the first `i` characters of `s`: the pieces completed so
/// far, and where the piece being read began (`-1` between pieces).
pub open spec fn scan(s: Seq<char>, i: int, lines: bool) -> (Seq<Seq<char>>, int)
    decreases i,
{
    if i <= 0 {
        (Seq::empty(), -1)
    } else {
        let (done, start) = scan(s, i - 1, lines);
        if is_separator(s[i - 1], lines) {
            if start >= 0 {
                (done.push(s.subrange(start, i - 1)), -1)
            } else {
                (done, -1)
            }
        } else if start >= 0 {
            (done, start)
        } else {
            (done, i - 1)
        }
    }
}

/// The maximal non-empty runs of non-separators of `s`, in order.
pub open spec fn pieces(s: Seq<char>, lines: bool) -> Seq<Seq<char>> {
    let (done, start) = scan(s, s.len() as int, lines);
    if start >= 0 {
        done.push(s.subrange(start, s.len() as int))
    } else {
        done
    }
}

/// The views of a list of strings.
pub open spec fn strings_view(v: Seq<String>) -> Seq<Seq<char>> {
    Seq::new(v.len(), |i: int| v[i]@)
}

/// Splits `t` into its pieces: its non-empty lines (`lines`) or the tokens
/// of a line.
pub fn split(t: &str, lines: bool) -> (r: Vec<String>)
    ensures
        strings_view(r@) == pieces(t@, lines),
{
    let n = t.unicode_len();
    let mut out: Vec<String> = Vec::new();
    let mut start: Option<usize> = None;
    let mut i: usize = 0;
    proof {
        assert(strings_view(out@) =~= Seq::<Seq<char>>::empty());
    }
    while i < n
        invariant
            i <= n,
            n == t@.len(),
            strings_view(out@) == scan(t@, i as int, lines).0,
            scan(t@, i as int, lines).1 == match start {
                Some(st) => st as int,
                None => -1,
            },
            match start {
                Some(st) => st < i,
                None => true,
            },
        decreases n - i,
    {
        let c = t.get_char(i);
        let sep = if lines {
            c == '\n'
        } else {
            c == ' ' || c == '\t' || c == '\r' || c == '\n'
        };
        if sep {
            if let Some(st) = start {
                let piece = String::from_str(t.substring_char(st, i));
                let ghost before = out@;
                out.push(piece);
                proof {
                    assert(strings_view(out@) =~= strings_view(before).push(piece@));
                }
                start = None;
            }
        } else if start.is_none() {
            start = Some(i);
        }
        i = i + 1;
    }
    if let Some(st) = start {
        let piece = String::from_str(t.substring_char(st, n));
        let ghost before = out@;
        out.push(piece);
        proof {
            assert(strings_view(out@) =~= strings_view(before).push(piece@));
        }
    }
    out
}

} // verus!
