use vstd::prelude::*;
use vstd::string::*;

verus! {

/// The decimal digit character for `d`.
pub open spec fn digit_char(d: nat) -> char {
    if d == 0 {
        '0'
    } else if d == 1 {
        '1'
    } else if d == 2 {
        '2'
    } else if d == 3 {
        '3'
    } else if d == 4 {
        '4'
    } else if d == 5 {
        '5'
    } else if d == 6 {
        '6'
    } else if d == 7 {
        '7'
    } else if d == 8 {
        '8'
    } else {
        '9'
    }
}

/// The decimal text of `n`: most significant digit first, a single `0` for
/// zero, never a leading zero otherwise.
pub open spec fn dec_rep(n: nat) -> Seq<char>
    decreases n,
{
    if n < 10 {
        seq![digit_char(n)]
    } else {
        dec_rep(n / 10).push(digit_char(n % 10))
    }
}

/// `s` filled on the left with `fill` up to `width` characters; text longer
/// than the width stays as it is.
pub open spec fn pad_left(s: Seq<char>, width: nat, fill: char) -> Seq<char> {
    if s.len() >= width {
        s
    } else {
        Seq::new((width - s.len()) as nat, |i: int| fill) + s
    }
}

/// `s` filled on the right with `fill` up to `width` characters.
pub open spec fn pad_right(s: Seq<char>, width: nat, fill: char) -> Seq<char> {
    if s.len() >= width {
        s
    } else {
        s + Seq::new((width - s.len()) as nat, |i: int| fill)
    }
}

/// The character sequences of a sequence of strings.
pub open spec fn texts_of(vs: Seq<String>) -> Seq<Seq<char>> {
    vs.map(|i: int, v: String| v@)
}

fn digit_str(d: usize) -> (s: &'static str)
    requires
        d < 10,
    ensures
        s@ == seq![digit_char(d as nat)],
{
    proof {
        reveal_strlit("0");
        reveal_strlit("1");
        reveal_strlit("2");
        reveal_strlit("3");
        reveal_strlit("4");
        reveal_strlit("5");
        reveal_strlit("6");
        reveal_strlit("7");
        reveal_strlit("8");
        reveal_strlit("9");
    }
    let s = if d == 0 {
        "0"
    } else if d == 1 {
        "1"
    } else if d == 2 {
        "2"
    } else if d == 3 {
        "3"
    } else if d == 4 {
        "4"
    } else if d == 5 {
        "5"
    } else if d == 6 {
        "6"
    } else if d == 7 {
        "7"
    } else if d == 8 {
        "8"
    } else {
        "9"
    };
    proof {
        assert(s@ =~= seq![digit_char(d as nat)]);
    }
    s
}

/// The decimal text of `n`.
pub fn dec_string(n: usize) -> (s: String)
    ensures
        s@ == dec_rep(n as nat),
    decreases n,
{
    if n < 10 {
        String::from_str(digit_str(n))
    } else {
        let mut s = dec_string(n / 10);
        s.append(digit_str(n % 10));
        proof {
            assert(s@ =~= dec_rep(n as nat));
        }
        s
    }
}

fn fill_string(k: usize, fill: &str) -> (s: String)
    requires
        fill@.len() == 1,
    ensures
        s@ == Seq::new(k as nat, |i: int| fill@[0]),
{
    let mut s = String::new();
    let mut j: usize = 0;
    while j < k
        invariant
            j <= k,
            fill@.len() == 1,
            s@ == Seq::new(j as nat, |i: int| fill@[0]),
        decreases k - j,
    {
        s.append(fill);
        j = j + 1;
        proof {
            assert(s@ =~= Seq::new(j as nat, |i: int| fill@[0]));
        }
    }
    s
}

/// `s` filled on the left with the single character of `fill` up to `width`
/// columns.
pub fn pad_left_str(s: &str, width: usize, fill: &str) -> (r: String)
    requires
        fill@.len() == 1,
    ensures
        r@ == pad_left(s@, width as nat, fill@[0]),
{
    let n = s.unicode_len();
    if n >= width {
        String::from_str(s)
    } else {
        let mut p = fill_string(width - n, fill);
        p.append(s);
        p
    }
}

/// `s` filled on the right with the single character of `fill` up to
/// `width` columns.
pub fn pad_right_str(s: &str, width: usize, fill: &str) -> (r: String)
    requires
        fill@.len() == 1,
    ensures
        r@ == pad_right(s@, width as nat, fill@[0]),
{
    let n = s.unicode_len();
    if n >= width {
        String::from_str(s)
    } else {
        let mut p = String::from_str(s);
        let f = fill_string(width - n, fill);
        p.append(f.as_str());
        p
    }
}

} // verus!
