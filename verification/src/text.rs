//! Character-level helpers shared by the scanners, renderers and the
//! command-line parser.
use vstd::prelude::*;

verus! {

/// Unicode `White_Space`, the property behind `char::is_whitespace`.
pub open spec fn is_ws(c: char) -> bool {
    let u = c as u32;
    ||| 0x09 <= u <= 0x0d
    ||| u == 0x20
    ||| u == 0x85
    ||| u == 0xa0
    ||| u == 0x1680
    ||| 0x2000 <= u <= 0x200a
    ||| u == 0x2028
    ||| u == 0x2029
    ||| u == 0x202f
    ||| u == 0x205f
    ||| u == 0x3000
}

/// Whether `c` is Unicode white space.
pub fn is_whitespace(c: char) -> (r: bool)
    ensures
        r == is_ws(c),
{
    let u = c as u32;
    (0x09 <= u && u <= 0x0d) || u == 0x20 || u == 0x85 || u == 0xa0 || u == 0x1680 || (0x2000 <= u
        && u <= 0x200a) || u == 0x2028 || u == 0x2029 || u == 0x202f || u == 0x205f || u == 0x3000
}

/// The characters of a string slice, in order.
pub(crate) fn chars_of(s: &str) -> (v: Vec<char>)
    ensures
        v@ == s@,
{
    broadcast use vstd::string::axiom_spec_iter;
    let mut out: Vec<char> = Vec::new();
    for c in it: s.chars()
        invariant
            out@.len() == it.index(),
            forall|i: int| 0 <= i < out@.len() ==> out@[i] == it.seq()[i],
    {
        out.push(c);
    }
    assert(out@ =~= s@);
    out
}

/// The string made of the given characters, in order (`String::from_iter`).
#[verifier::external_body]
pub(crate) fn string_of(v: &[char]) -> (s: String)
    ensures
        s@ == v@,
{
    v.iter().collect()
}

/// Appends all characters of `s` to `out`.
pub fn push_str(out: &mut Vec<char>, s: &str)
    ensures
        final(out)@ == old(out)@ + s@,
{
    let cs = chars_of(s);
    let mut i: usize = 0;
    while i < cs.len()
        invariant
            i <= cs@.len(),
            cs@ == s@,
            out@ == old(out)@ + cs@.subrange(0, i as int),
        decreases cs@.len() - i,
    {
        out.push(cs[i]);
        i = i + 1;
        assert(out@ =~= old(out)@ + cs@.subrange(0, i as int));
    }
    assert(cs@.subrange(0, cs@.len() as int) =~= cs@);
}

/// Appends all characters of `s` to `out`.
pub fn push_chars(out: &mut Vec<char>, s: &Vec<char>)
    ensures
        final(out)@ == old(out)@ + s@,
{
    let mut i: usize = 0;
    while i < s.len()
        invariant
            i <= s@.len(),
            out@ == old(out)@ + s@.subrange(0, i as int),
        decreases s@.len() - i,
    {
        out.push(s[i]);
        i = i + 1;
        assert(out@ =~= old(out)@ + s@.subrange(0, i as int));
    }
    assert(s@.subrange(0, s@.len() as int) =~= s@);
}

/// The concatenation of two strings.
pub fn concat2(a: &str, b: &str) -> (r: String)
    ensures
        r@ == a@ + b@,
{
    let mut v: Vec<char> = Vec::new();
    push_str(&mut v, a);
    push_str(&mut v, b);
    assert(v@ =~= a@ + b@);
    string_of(v.as_slice())
}

/// The concatenation of three strings.
pub fn concat3(a: &str, b: &str, c: &str) -> (r: String)
    ensures
        r@ == a@ + b@ + c@,
{
    let mut v: Vec<char> = Vec::new();
    push_str(&mut v, a);
    push_str(&mut v, b);
    push_str(&mut v, c);
    assert(v@ =~= a@ + b@ + c@);
    string_of(v.as_slice())
}

/// Whether two string slices hold the same characters.
pub fn str_eq(a: &str, b: &str) -> (r: bool)
    ensures
        r == (a@ == b@),
{
    let x = chars_of(a);
    let y = chars_of(b);
    if x.len() != y.len() {
        return false;
    }
    let mut i: usize = 0;
    while i < x.len()
        invariant
            i <= x@.len(),
            x@.len() == y@.len(),
            x@ == a@,
            y@ == b@,
            forall|t: int| 0 <= t < i ==> x@[t] == y@[t],
        decreases x@.len() - i,
    {
        if x[i] != y[i] {
            return false;
        }
        i = i + 1;
    }
    assert(x@ =~= y@);
    true
}

/// The decimal digit for `d < 10`.
pub open spec fn digit(d: nat) -> char {
    seq!['0', '1', '2', '3', '4', '5', '6', '7', '8', '9'][d as int]
}

/// The decimal representation of `n`, without leading zeros.
pub open spec fn decimal(n: nat) -> Seq<char>
    decreases n,
{
    if n < 10 {
        seq![digit(n)]
    } else {
        decimal(n / 10).push(digit(n % 10))
    }
}

/// `k` copies of `'0'`.
pub open spec fn zeros(k: int) -> Seq<char> {
    Seq::new(if k > 0 { k as nat } else { 0 }, |i: int| '0')
}

/// `s` left-padded with zeros to at least `width` characters.
pub open spec fn zero_pad(s: Seq<char>, width: int) -> Seq<char> {
    zeros(width - s.len()) + s
}

/// A signed number formatted as `{:0width$}` does: the sign counts towards
/// the width and the zeros go between sign and digits.
pub open spec fn padded_int(n: int, width: int) -> Seq<char> {
    if n < 0 {
        seq!['-'] + zero_pad(decimal((-n) as nat), width - 1)
    } else {
        zero_pad(decimal(n as nat), width)
    }
}

/// Appends the decimal representation of `n` to `out`.
pub fn push_decimal(out: &mut Vec<char>, n: u128)
    ensures
        final(out)@ == old(out)@ + decimal(n as nat),
    decreases n,
{
    if n >= 10 {
        push_decimal(out, n / 10);
    }
    let table: [char; 10] = ['0', '1', '2', '3', '4', '5', '6', '7', '8', '9'];
    assert(table@ =~= seq!['0', '1', '2', '3', '4', '5', '6', '7', '8', '9']);
    let d = (n % 10) as usize;
    out.push(table[d]);
}

/// Appends `k` zeros to `out`.
pub fn push_zeros(out: &mut Vec<char>, k: usize)
    ensures
        final(out)@ == old(out)@ + zeros(k as int),
{
    let mut i: usize = 0;
    while i < k
        invariant
            i <= k,
            out@ == old(out)@ + zeros(i as int),
        decreases k - i,
    {
        out.push('0');
        i = i + 1;
        assert(out@ =~= old(out)@ + zeros(i as int));
    }
}

/// Appends `n` formatted with at least `width` characters, zero-padded
/// after the sign (as `format!("{:0width$}", n)` does).
pub fn push_padded_int(out: &mut Vec<char>, n: i64, width: usize)
    ensures
        final(out)@ == old(out)@ + padded_int(n as int, width as int),
{
    let mut digits: Vec<char> = Vec::new();
    let mag: u128 = if n < 0 { (0i128 - n as i128) as u128 } else { n as u128 };
    push_decimal(&mut digits, mag);
    assert(digits@ == decimal(mag as nat));
    let w: usize = if n < 0 {
        out.push('-');
        if width > 0 { width - 1 } else { 0 }
    } else {
        width
    };
    if digits.len() < w {
        push_zeros(out, w - digits.len());
    } else {
        push_zeros(out, 0);
    }
    push_chars(out, &digits);
    proof {
        if n < 0 {
            assert(mag as int == -(n as int));
        }
        assert(zeros(w as int - digits@.len()) =~= zeros(if digits@.len() < w { (w - digits@.len()) as int } else { 0 }));
        assert(out@ =~= old(out)@ + padded_int(n as int, width as int));
    }
}

} // verus!
