//! Output file names: the base name of an animation followed by the frame
//! index, in decimal, padded with zeros to the width of the last index.
use vstd::prelude::*;

verus! {

/// The decimal digit for `d` in `0 ..= 9`.
pub open spec fn digit_char(d: int) -> char {
    if d == 0 {
        '0'
    } else if d == 1 {
        '1'
    } else if d == 2 {
        '2'
    } else if d == 3 {
        '3'
    } else if d == 4 {
        '4'
    } else if d == 5 {
        '5'
    } else if d == 6 {
        '6'
    } else if d == 7 {
        '7'
    } else if d == 8 {
        '8'
    } else {
        '9'
    }
}

/// The decimal digits of `v`, without leading zeros (`0` is one digit).
pub open spec fn decimal(v: nat) -> Seq<char>
    decreases v,
{
    if v < 10 {
        seq![digit_char(v as int)]
    } else {
        decimal(v / 10).push(digit_char((v % 10) as int))
    }
}

/// `n` zeros.
pub open spec fn zeros(n: nat) -> Seq<char> {
    Seq::new(n, |i: int| '0')
}

/// The decimal digits of `v`, with zeros in front up to `width` digits.
pub open spec fn padded_decimal(v: nat, width: nat) -> Seq<char> {
    if decimal(v).len() < width {
        zeros((width - decimal(v).len()) as nat) + decimal(v)
    } else {
        decimal(v)
    }
}

/// The name of frame `index` among `count` frames of an animation whose
/// base name is `base`.
pub open spec fn frame_name_spec(base: Seq<char>, index: nat, count: nat) -> Seq<char> {
    let last: nat = if count > 0 { (count - 1) as nat } else { 0 };
    base + padded_decimal(index, decimal(last).len())
}

fn digit_str(d: u32) -> (r: &'static str)
    requires
        d < 10,
    ensures
        r@ == seq![digit_char(d as int)],
{
    if d == 0 {
        proof { reveal_strlit("0"); }
        "0"
    } else if d == 1 {
        proof { reveal_strlit("1"); }
        "1"
    } else if d == 2 {
        proof { reveal_strlit("2"); }
        "2"
    } else if d == 3 {
        proof { reveal_strlit("3"); }
        "3"
    } else if d == 4 {
        proof { reveal_strlit("4"); }
        "4"
    } else if d == 5 {
        proof { reveal_strlit("5"); }
        "5"
    } else if d == 6 {
        proof { reveal_strlit("6"); }
        "6"
    } else if d == 7 {
        proof { reveal_strlit("7"); }
        "7"
    } else if d == 8 {
        proof { reveal_strlit("8"); }
        "8"
    } else {
        proof { reveal_strlit("9"); }
        "9"
    }
}

/// Appends the decimal digits of `v` to `s`.
fn append_decimal(s: &mut String, v: u32)
    ensures
        final(s)@ == old(s)@ + decimal(v as nat),
    decreases v,
{
    if v >= 10 {
        append_decimal(s, v / 10);
    }
    s.append(digit_str(v % 10));
    proof {
        if v >= 10 {
            assert(final(s)@ =~= old(s)@ + decimal(v as nat));
        } else {
            assert(final(s)@ =~= old(s)@ + decimal(v as nat));
        }
    }
}

/// The number of decimal digits of `v`.
pub fn decimal_len(v: u32) -> (r: usize)
    ensures
        r == decimal(v as nat).len(),
    decreases v,
{
    if v < 10 {
        1
    } else {
        let r = decimal_len(v / 10);
        proof {
            assert(decimal(v as nat).len() == decimal((v / 10) as nat).len() + 1);
            lemma_len_by_magnitude((v / 10) as nat);
        }
        r + 1
    }
}

/// A `u32` has at most ten decimal digits.
proof fn lemma_len_by_magnitude(v: nat)
    requires
        v <= u32::MAX,
    ensures
        decimal(v).len() <= 10,
{
    let a = v / 10;
    let b = a / 10;
    let c = b / 10;
    let d = c / 10;
    let e = d / 10;
    let f = e / 10;
    let g = f / 10;
    let h = g / 10;
    let i = h / 10;
    assert(i < 10);
    assert(decimal(i).len() == 1);
    assert(decimal(h).len() <= 2);
    assert(decimal(g).len() <= 3);
    assert(decimal(f).len() <= 4);
    assert(decimal(e).len() <= 5);
    assert(decimal(d).len() <= 6);
    assert(decimal(c).len() <= 7);
    assert(decimal(b).len() <= 8);
    assert(decimal(a).len() <= 9);
}

/// The output name of frame `index` among `count` frames: `base` followed
/// by the zero-padded index.
pub fn frame_name(base: &String, index: u32, count: u32) -> (r: String)
    ensures
        r@ == frame_name_spec(base@, index as nat, count as nat),
{
    let last: u32 = if count > 0 { count - 1 } else { 0 };
    let width = decimal_len(last);
    let len = decimal_len(index);
    let mut s = base.clone();
    let mut k: usize = len;
    proof {
        reveal_strlit("0");
    }
    while k < width
        invariant
            len == decimal(index as nat).len(),
            len <= k,
            k <= width || len > width,
            len <= width ==> k <= width,
            len >= width ==> k == len,
            s@ == base@ + zeros((k - len) as nat),
        decreases width - k,
    {
        proof {
            reveal_strlit("0");
        }
        s.append("0");
        proof {
            assert(zeros((k - len) as nat).push('0') =~= zeros((k + 1 - len) as nat));
            assert(s@ =~= base@ + zeros((k + 1 - len) as nat));
        }
        k = k + 1;
    }
    let ghost before = s@;
    append_decimal(&mut s, index);
    proof {
        assert(s@ == before + decimal(index as nat));
        if len < width {
            assert(k == width);
            assert(before == base@ + zeros((width - len) as nat));
            assert(s@ =~= base@ + padded_decimal(index as nat, width as nat));
        } else {
            assert(k == len);
            assert(zeros(0) =~= Seq::<char>::empty());
            assert(before =~= base@);
            assert(padded_decimal(index as nat, width as nat) == decimal(index as nat));
            assert(s@ =~= base@ + padded_decimal(index as nat, width as nat));
        }
    }
    s
}

} // verus!
