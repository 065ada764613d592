//! Lexical scanning of JSONC text (JSON with `//` and `/* */` comments).
//!
//! The scanner works on the UTF-8 bytes of the text, the way an editor's
//! settings file is stored.  All tokens it reacts to are ASCII, so every
//! position it reports falls on a character boundary.
use vstd::prelude::*;
use crate::text::{is_whitespace, is_ws, string_of, chars_of};
use vstd::string::StringSliceAdditionalSpecFns;
use vstd::utf8::{valid_utf8, is_char_boundary, is_leading_byte_width_1, length_of_first_scalar, pop_first_scalar, valid_first_scalar, is_char_boundary_iff_not_is_continuation_byte};

verus! {

/// What the scanner is inside of at a given byte.
#[derive(Copy, Clone, PartialEq, Eq, Structural)]
pub enum Lex {
    Code,
    Str,
    LineComment,
    BlockComment,
}

/// The bytes of `"context_servers"`, quotes included.
pub open spec fn context_key() -> Seq<u8> {
    seq![
        0x22u8, 0x63u8, 0x6fu8, 0x6eu8, 0x74u8, 0x65u8, 0x78u8, 0x74u8, 0x5fu8,
        0x73u8, 0x65u8, 0x72u8, 0x76u8, 0x65u8, 0x72u8, 0x73u8, 0x22u8,
    ]
}

/// `b[i..]` starts with `"context_servers"`.
pub open spec fn key_at(b: Seq<u8>, i: int) -> bool {
    0 <= i && i + 17 <= b.len() && b.subrange(i, i + 17) == context_key()
}

/// `b[i]` and `b[i + 1]` are the two given bytes.
pub open spec fn pair_at(b: Seq<u8>, i: int, x: u8, y: u8) -> bool {
    0 <= i && i + 1 < b.len() && b[i] == x && b[i + 1] == y
}

/// One step of the lexer outside of code: where the scan resumes and in which
/// mode, for the modes that do not look for tokens.
pub open spec fn skip_step(b: Seq<u8>, i: int, m: Lex) -> (int, Lex)
    recommends 0 <= i < b.len(), m != Lex::Code,
{
    match m {
        Lex::LineComment => if b[i] == 0x0au8 { (i + 1, Lex::Code) } else { (i + 1, m) },
        Lex::BlockComment => if pair_at(b, i, 0x2au8, 0x2fu8) { (i + 2, Lex::Code) } else { (i + 1, m) },
        Lex::Str => if b[i] == 0x5cu8 {
            (i + 2, m)
        } else if b[i] == 0x22u8 {
            (i + 1, Lex::Code)
        } else {
            (i + 1, m)
        },
        Lex::Code => (i + 1, m),
    }
}

/// The position of the first `"context_servers"` key that stands in code
/// (not inside a string or a comment), scanning from byte `i` in mode `m`.
pub open spec fn find_key(b: Seq<u8>, i: int, m: Lex) -> Option<int>
    decreases b.len() + 2 - i,
{
    if i < 0 || i >= b.len() {
        None
    } else if m != Lex::Code {
        let (j, n) = skip_step(b, i, m);
        find_key(b, j, n)
    } else if pair_at(b, i, 0x2fu8, 0x2fu8) {
        find_key(b, i + 2, Lex::LineComment)
    } else if pair_at(b, i, 0x2fu8, 0x2au8) {
        find_key(b, i + 2, Lex::BlockComment)
    } else if b[i] == 0x22u8 {
        if key_at(b, i) {
            Some(i)
        } else {
            find_key(b, i + 1, Lex::Str)
        }
    } else {
        find_key(b, i + 1, Lex::Code)
    }
}

/// Whether a byte is JSON white space (space, tab, line feed, carriage return).
pub open spec fn is_blank(c: u8) -> bool {
    c == 0x20u8 || c == 0x09u8 || c == 0x0au8 || c == 0x0du8
}

/// The first byte at or after `i` (scanning in mode `m`) that is neither
/// JSON white space nor part of a `//` or `/* */` comment (or the end).
pub open spec fn skip_gap(b: Seq<u8>, i: int, m: Lex) -> int
    decreases b.len() + 2 - i,
{
    if i < 0 || i >= b.len() {
        i
    } else {
        match m {
            Lex::LineComment => if b[i] == 0x0au8 {
                skip_gap(b, i + 1, Lex::Code)
            } else {
                skip_gap(b, i + 1, Lex::LineComment)
            },
            Lex::BlockComment => if pair_at(b, i, 0x2au8, 0x2fu8) {
                skip_gap(b, i + 2, Lex::Code)
            } else {
                skip_gap(b, i + 1, Lex::BlockComment)
            },
            _ => if is_blank(b[i]) {
                skip_gap(b, i + 1, Lex::Code)
            } else if pair_at(b, i, 0x2fu8, 0x2fu8) {
                skip_gap(b, i + 2, Lex::LineComment)
            } else if pair_at(b, i, 0x2fu8, 0x2au8) {
                skip_gap(b, i + 2, Lex::BlockComment)
            } else {
                i
            },
        }
    }
}

/// The first byte at or after `i` that is not white space or a comment.
pub open spec fn skip_blank(b: Seq<u8>, i: int) -> int {
    skip_gap(b, i, Lex::Code)
}

/// The `{` that opens the key's value, when the key at `k` is followed (past
/// white space and comments) by `:` and then (past white space and comments)
/// by `{`; `None` when the value is anything else.
pub open spec fn value_brace(b: Seq<u8>, k: int) -> Option<int> {
    let c = skip_blank(b, k + 17);
    if 0 <= c < b.len() && b[c] == 0x3au8 {
        let o = skip_blank(b, c + 1);
        if 0 <= o < b.len() && b[o] == 0x7bu8 {
            Some(o)
        } else {
            None
        }
    } else {
        None
    }
}

/// The `}` that brings the brace depth from `depth` down to zero, scanning
/// from byte `i` in mode `m`; braces inside strings and comments do not count.
pub open spec fn closing_brace(b: Seq<u8>, i: int, depth: nat, m: Lex) -> Option<int>
    decreases b.len() + 2 - i,
{
    if i < 0 || i >= b.len() {
        None
    } else if m != Lex::Code {
        let (j, n) = skip_step(b, i, m);
        closing_brace(b, j, depth, n)
    } else if pair_at(b, i, 0x2fu8, 0x2fu8) {
        closing_brace(b, i + 2, depth, Lex::LineComment)
    } else if pair_at(b, i, 0x2fu8, 0x2au8) {
        closing_brace(b, i + 2, depth, Lex::BlockComment)
    } else if b[i] == 0x22u8 {
        closing_brace(b, i + 1, depth, Lex::Str)
    } else if b[i] == 0x7bu8 {
        closing_brace(b, i + 1, depth + 1, Lex::Code)
    } else if b[i] == 0x7du8 {
        if depth <= 1 {
            Some(i)
        } else {
            closing_brace(b, i + 1, (depth - 1) as nat, Lex::Code)
        }
    } else {
        closing_brace(b, i + 1, depth, Lex::Code)
    }
}

/// The byte range `(start, end)` of `"context_servers": { ... }`: from the
/// opening quote of the first key in code to just past the brace that closes
/// the object that is the key's value; `None` when there is no such key or
/// its value is not an object.
pub open spec fn context_servers_span(b: Seq<u8>) -> Option<(int, int)> {
    match find_key(b, 0, Lex::Code) {
        None => None,
        Some(k) => match value_brace(b, k) {
            None => None,
            Some(o) => match closing_brace(b, o + 1, 1, Lex::Code) {
                None => None,
                Some(c) => Some((k, c + 1)),
            },
        },
    }
}

proof fn lemma_find_key_found(b: Seq<u8>, i: int, m: Lex)
    ensures
        find_key(b, i, m) matches Some(k) ==> i <= k && key_at(b, k),
    decreases b.len() + 2 - i,
{
    if 0 <= i < b.len() {
        if m != Lex::Code {
            let (j, n) = skip_step(b, i, m);
            lemma_find_key_found(b, j, n);
        } else {
            lemma_find_key_found(b, i + 1, Lex::Str);
            lemma_find_key_found(b, i + 1, Lex::Code);
            lemma_find_key_found(b, i + 2, Lex::LineComment);
            lemma_find_key_found(b, i + 2, Lex::BlockComment);
        }
    }
}

proof fn lemma_skip_gap(b: Seq<u8>, i: int, m: Lex)
    requires
        0 <= i,
    ensures
        i <= skip_gap(b, i, m),
        i <= b.len() ==> skip_gap(b, i, m) <= b.len(),
    decreases b.len() + 2 - i,
{
    if i < b.len() {
        lemma_skip_gap(b, i + 1, Lex::Code);
        lemma_skip_gap(b, i + 1, Lex::LineComment);
        lemma_skip_gap(b, i + 1, Lex::BlockComment);
        lemma_skip_gap(b, i + 2, Lex::Code);
        lemma_skip_gap(b, i + 2, Lex::LineComment);
        lemma_skip_gap(b, i + 2, Lex::BlockComment);
    }
}

proof fn lemma_skip_blank(b: Seq<u8>, i: int)
    requires
        0 <= i,
    ensures
        i <= skip_blank(b, i),
        i <= b.len() ==> skip_blank(b, i) <= b.len(),
{
    lemma_skip_gap(b, i, Lex::Code);
}

proof fn lemma_value_brace_found(b: Seq<u8>, k: int)
    requires
        0 <= k,
    ensures
        value_brace(b, k) matches Some(o) ==> k + 17 <= o < b.len() && b[o] == 0x7bu8,
{
    lemma_skip_blank(b, k + 17);
    let c = skip_blank(b, k + 17);
    if 0 <= c {
        lemma_skip_blank(b, c + 1);
    }
}

proof fn lemma_closing_brace_found(b: Seq<u8>, i: int, depth: nat, m: Lex)
    ensures
        closing_brace(b, i, depth, m) matches Some(c) ==> i <= c < b.len() && b[c] == 0x7du8,
    decreases b.len() + 2 - i,
{
    if 0 <= i < b.len() {
        if m != Lex::Code {
            let (j, n) = skip_step(b, i, m);
            lemma_closing_brace_found(b, j, depth, n);
        } else {
            lemma_closing_brace_found(b, i + 1, depth, Lex::Str);
            lemma_closing_brace_found(b, i + 1, depth + 1, Lex::Code);
            lemma_closing_brace_found(b, i + 1, depth, Lex::Code);
            if depth > 1 {
                lemma_closing_brace_found(b, i + 1, (depth - 1) as nat, Lex::Code);
            }
            lemma_closing_brace_found(b, i + 2, depth, Lex::LineComment);
            lemma_closing_brace_found(b, i + 2, depth, Lex::BlockComment);
        }
    }
}

/// A span, when there is one, starts at the `"context_servers"` key and ends
/// just past a `}`.
pub proof fn lemma_span_shape(b: Seq<u8>)
    ensures
        context_servers_span(b) matches Some((s, e)) ==> {
            &&& 0 <= s
            &&& s + 17 < e <= b.len()
            &&& key_at(b, s)
            &&& b[e - 1] == 0x7du8
        },
{
    lemma_find_key_found(b, 0, Lex::Code);
    if let Some(k) = find_key(b, 0, Lex::Code) {
        lemma_value_brace_found(b, k);
        if let Some(o) = value_brace(b, k) {
            lemma_closing_brace_found(b, o + 1, 1, Lex::Code);
        }
    }
}

/// Compares `b[i..i + 17]` with `"context_servers"`.
fn key_at_exec(b: &[u8], i: usize) -> (r: bool)
    requires
        i < b@.len(),
    ensures
        r == key_at(b@, i as int),
{
    let key: [u8; 17] = [
        0x22u8, 0x63u8, 0x6fu8, 0x6eu8, 0x74u8, 0x65u8, 0x78u8, 0x74u8, 0x5fu8,
        0x73u8, 0x65u8, 0x72u8, 0x76u8, 0x65u8, 0x72u8, 0x73u8, 0x22u8,
    ];
    assert(key@ == context_key());
    if b.len() - i < 17 {
        return false;
    }
    let len = b.len();
    let mut j: usize = 0;
    while j < 17
        invariant
            len == b@.len(),
            j <= 17,
            i + 17 <= b@.len(),
            key@ == context_key(),
            forall|t: int| 0 <= t < j ==> b@[i + t] == key@[t],
        decreases 17 - j,
    {
        if b[i + j] != key[j] {
            assert(b@.subrange(i as int, i + 17)[j as int] != context_key()[j as int]);
            return false;
        }
        j = j + 1;
    }
    assert(b@.subrange(i as int, i + 17) =~= context_key());
    true
}

/// Advances over one byte (or escape pair, or comment terminator) in a
/// non-code mode, mirroring `skip_step`; positions past the end are clamped
/// to the end.
fn skip_step_exec(b: &[u8], i: usize, m: Lex) -> (r: (usize, Lex))
    requires
        i < b@.len(),
        m != Lex::Code,
    ensures
        r.0 <= b@.len(),
        r.0 > i,
        ({
            let (j, n) = skip_step(b@, i as int, m);
            &&& r.1 == n
            &&& (j <= b@.len() ==> r.0 == j)
            &&& (j > b@.len() ==> r.0 == b@.len())
        }),
{
    let len = b.len();
    match m {
        Lex::LineComment => {
            if b[i] == 0x0a { (i + 1, Lex::Code) } else { (i + 1, m) }
        },
        Lex::BlockComment => {
            if i + 1 < len && b[i] == 0x2a && b[i + 1] == 0x2f {
                (i + 2, Lex::Code)
            } else {
                (i + 1, m)
            }
        },
        _ => {
            if b[i] == 0x5c {
                if len - i >= 2 { (i + 2, m) } else { (len, m) }
            } else if b[i] == 0x22 {
                (i + 1, Lex::Code)
            } else {
                (i + 1, m)
            }
        },
    }
}

proof fn lemma_find_key_past_end(b: Seq<u8>, i: int, m: Lex)
    requires
        i >= b.len(),
    ensures
        find_key(b, i, m) is None,
{
}

proof fn lemma_closing_brace_past_end(b: Seq<u8>, i: int, d: nat, m: Lex)
    requires
        i >= b.len(),
    ensures
        closing_brace(b, i, d, m) is None,
{
}

/// The first position at or after `i` that is not white space or a comment.
fn skip_blank_exec(b: &[u8], i: usize) -> (r: usize)
    requires
        i <= b@.len(),
    ensures
        r as int == skip_blank(b@, i as int),
        r <= b@.len(),
{
    let len = b.len();
    let mut j = i;
    let mut m = Lex::Code;
    while j < len
        invariant_except_break
            i <= j <= len,
            len == b@.len(),
            m == Lex::Code || m == Lex::LineComment || m == Lex::BlockComment,
            skip_blank(b@, i as int) == skip_gap(b@, j as int, m),
        invariant
            len == b@.len(),
        ensures
            j <= len,
            skip_blank(b@, i as int) == j as int,
        decreases len - j,
    {
        match m {
            Lex::LineComment => {
                if b[j] == 0x0a {
                    m = Lex::Code;
                }
                j = j + 1;
            },
            Lex::BlockComment => {
                if j + 1 < len && b[j] == 0x2a && b[j + 1] == 0x2f {
                    j = j + 2;
                    m = Lex::Code;
                } else {
                    j = j + 1;
                }
            },
            _ => {
                if b[j] == 0x20 || b[j] == 0x09 || b[j] == 0x0a || b[j] == 0x0d {
                    j = j + 1;
                } else if j + 1 < len && b[j] == 0x2f && b[j + 1] == 0x2f {
                    j = j + 2;
                    m = Lex::LineComment;
                } else if j + 1 < len && b[j] == 0x2f && b[j + 1] == 0x2a {
                    j = j + 2;
                    m = Lex::BlockComment;
                } else {
                    break;
                }
            },
        }
    }
    j
}

/// Locates the byte span of `"context_servers": { ... }` in JSONC bytes.
pub fn context_servers_span_bytes(b: &[u8]) -> (r: Option<(usize, usize)>)
    ensures
        match r {
            None => context_servers_span(b@) is None,
            Some((s, e)) => context_servers_span(b@) == Some((s as int, e as int)),
        },
{
    let len = b.len();
    let mut i: usize = 0;
    let mut m = Lex::Code;
    let mut found: Option<usize> = None;

    while i < len
        invariant_except_break
            len == b@.len(),
            i <= len,
            found is None,
            find_key(b@, 0, Lex::Code) == find_key(b@, i as int, m),
        invariant
            len == b@.len(),
        ensures
            match found {
                None => find_key(b@, 0, Lex::Code) is None,
                Some(k) => find_key(b@, 0, Lex::Code) == Some(k as int) && k + 17 <= len,
            },
        decreases len - i,
    {
        if m != Lex::Code {
            let (j, n) = skip_step_exec(b, i, m);
            proof {
                let (sj, _) = skip_step(b@, i as int, m);
                if sj > len {
                    lemma_find_key_past_end(b@, sj, n);
                }
            }
            i = j;
            m = n;
        } else if i + 1 < len && b[i] == 0x2f && b[i + 1] == 0x2f {
            i = i + 2;
            m = Lex::LineComment;
        } else if i + 1 < len && b[i] == 0x2f && b[i + 1] == 0x2a {
            i = i + 2;
            m = Lex::BlockComment;
        } else if b[i] == 0x22 {
            if key_at_exec(b, i) {
                found = Some(i);
                break;
            }
            i = i + 1;
            m = Lex::Str;
        } else {
            i = i + 1;
        }
    }

    let start_pos = match found {
        None => { return None; },
        Some(k) => k,
    };
    let ghost k0 = start_pos as int;
    i = skip_blank_exec(b, start_pos + 17);
    let mut open: Option<usize> = None;
    if i < len && b[i] == 0x3a {
        let j = skip_blank_exec(b, i + 1);
        if j < len && b[j] == 0x7b {
            open = Some(j);
        }
    }
    assert(match open {
        None => value_brace(b@, k0) is None,
        Some(o) => value_brace(b@, k0) == Some(o as int) && o < len,
    });

    let o = match open {
        None => { return None; },
        Some(o) => o,
    };
    i = o + 1;
    let mut depth: usize = 1;
    m = Lex::Code;

    while i < len
        invariant
            len == b@.len(),
            i <= len,
            o < len,
            1 <= depth <= i - o,
            value_brace(b@, start_pos as int) == Some(o as int),
            find_key(b@, 0, Lex::Code) == Some(start_pos as int),
            closing_brace(b@, o + 1, 1, Lex::Code) == closing_brace(b@, i as int, depth as nat, m),
        decreases len - i,
    {
        if m != Lex::Code {
            let (j, n) = skip_step_exec(b, i, m);
            proof {
                let (sj, _) = skip_step(b@, i as int, m);
                if sj > len {
                    lemma_closing_brace_past_end(b@, sj, depth as nat, n);
                }
            }
            i = j;
            m = n;
        } else if i + 1 < len && b[i] == 0x2f && b[i + 1] == 0x2f {
            i = i + 2;
            m = Lex::LineComment;
        } else if i + 1 < len && b[i] == 0x2f && b[i + 1] == 0x2a {
            i = i + 2;
            m = Lex::BlockComment;
        } else if b[i] == 0x22 {
            i = i + 1;
            m = Lex::Str;
        } else if b[i] == 0x7b {
            depth = depth + 1;
            i = i + 1;
        } else if b[i] == 0x7d {
            if depth == 1 {
                return Some((start_pos, i + 1));
            }
            depth = depth - 1;
            i = i + 1;
        } else {
            i = i + 1;
        }
    }
    None
}

/// `c[i]` and `c[i + 1]` are the two given characters.
pub open spec fn chars_at(c: Seq<char>, i: int, x: char, y: char) -> bool {
    0 <= i && i + 1 < c.len() && c[i] == x && c[i + 1] == y
}

/// One step of the comment stripper: the characters it keeps, where it
/// resumes and in which mode; `None` when it would read past the end of the
/// input (an unterminated block comment whose last character is `*`).
pub open spec fn strip_step(c: Seq<char>, i: int, m: Lex) -> Option<(Seq<char>, int, Lex)>
    recommends 0 <= i < c.len(),
{
    match m {
        Lex::Str => if c[i] == '\\' && i + 1 < c.len() {
            Some((seq![c[i], c[i + 1]], i + 2, Lex::Str))
        } else if c[i] == '"' {
            Some((seq![c[i]], i + 1, Lex::Code))
        } else {
            Some((seq![c[i]], i + 1, Lex::Str))
        },
        Lex::LineComment => if c[i] == '\n' {
            Some((seq![c[i]], i + 1, Lex::Code))
        } else {
            Some((seq![], i + 1, Lex::LineComment))
        },
        Lex::BlockComment => if c[i] == '*' {
            if i + 1 < c.len() {
                if c[i + 1] == '/' {
                    Some((seq![], i + 2, Lex::Code))
                } else {
                    Some((seq![], i + 1, Lex::BlockComment))
                }
            } else {
                None
            }
        } else {
            Some((seq![], i + 1, Lex::BlockComment))
        },
        Lex::Code => if chars_at(c, i, '/', '/') {
            Some((seq![], i + 2, Lex::LineComment))
        } else if chars_at(c, i, '/', '*') {
            Some((seq![], i + 2, Lex::BlockComment))
        } else if c[i] == '"' {
            Some((seq![c[i]], i + 1, Lex::Str))
        } else {
            Some((seq![c[i]], i + 1, Lex::Code))
        },
    }
}

/// The characters left after removing comments from `c[i..]`; `None` when
/// the scan would read past the end.
pub open spec fn strip_comments(c: Seq<char>, i: int, m: Lex) -> Option<Seq<char>>
    decreases c.len() + 2 - i,
{
    if i < 0 || i >= c.len() {
        Some(seq![])
    } else {
        match strip_step(c, i, m) {
            None => None,
            Some((out, j, n)) => if j <= i {
                None
            } else {
                match strip_comments(c, j, n) {
                    None => None,
                    Some(rest) => Some(out + rest),
                }
            },
        }
    }
}

/// Text with no `/` holds no comment: stripping keeps every character, in
/// code and inside strings alike.
pub proof fn lemma_strip_keeps_plain_text(c: Seq<char>, i: int, m: Lex)
    requires
        0 <= i <= c.len(),
        m == Lex::Code || m == Lex::Str,
        forall|t: int| 0 <= t < c.len() ==> c[t] != '/',
    ensures
        strip_comments(c, i, m) == Some(c.subrange(i, c.len() as int)),
    decreases c.len() - i,
{
    if i < c.len() {
        let (out, j, n) = strip_step(c, i, m)->Some_0;
        assert(n == Lex::Code || n == Lex::Str);
        assert(j <= c.len());
        lemma_strip_keeps_plain_text(c, j, n);
        assert(out + c.subrange(j, c.len() as int) =~= c.subrange(i, c.len() as int));
    } else {
        assert(c.subrange(i, c.len() as int) =~= seq![]);
    }
}

/// The first position at or after `k` that does not hold white space.
pub open spec fn next_solid(c: Seq<char>, k: int) -> int
    decreases c.len() - k,
{
    if k < 0 || k >= c.len() {
        k
    } else if is_ws(c[k]) {
        next_solid(c, k + 1)
    } else {
        k
    }
}

/// `c[j]` is a comma whose next non-blank character closes an object or array.
pub open spec fn trailing_comma(c: Seq<char>, j: int) -> bool {
    &&& c[j] == ','
    &&& next_solid(c, j + 1) < c.len()
    &&& (c[next_solid(c, j + 1)] == '}' || c[next_solid(c, j + 1)] == ']')
}

/// The first `n` characters of `c` without their trailing commas.
pub open spec fn drop_trailing_commas(c: Seq<char>, n: int) -> Seq<char>
    decreases n,
{
    if n <= 0 {
        seq![]
    } else if trailing_comma(c, n - 1) {
        drop_trailing_commas(c, n - 1)
    } else {
        drop_trailing_commas(c, n - 1).push(c[n - 1])
    }
}

/// Whether stripping comments from `c` stays within the input.
pub open spec fn strip_ok(c: Seq<char>) -> bool {
    strip_comments(c, 0, Lex::Code) is Some
}

/// JSONC text turned into plain JSON text: comments removed, then trailing
/// commas before `}` or `]` removed; every other character is kept.
pub open spec fn strip_jsonc(c: Seq<char>) -> Seq<char> {
    let k = strip_comments(c, 0, Lex::Code).unwrap();
    drop_trailing_commas(k, k.len() as int)
}

/// Input that does not end with `*` never makes the stripper read past its end.
pub proof fn lemma_strip_ok_when_last_not_star(c: Seq<char>, i: int, m: Lex)
    requires
        c.len() > 0,
        c[c.len() - 1] != '*',
    ensures
        strip_comments(c, i, m) is Some,
    decreases c.len() + 2 - i,
{
    if 0 <= i < c.len() {
        if let Some((_, j, n)) = strip_step(c, i, m) {
            lemma_strip_ok_when_last_not_star(c, j, n);
        }
    }
}

fn strip_step_exec(b: &Vec<char>, i: usize, m: Lex, out: &mut Vec<char>) -> (r: (usize, Lex))
    requires
        i < b@.len(),
        strip_step(b@, i as int, m) is Some,
    ensures
        ({
            let (e, j, n) = strip_step(b@, i as int, m).unwrap();
            &&& final(out)@ == old(out)@ + e
            &&& r.1 == n
            &&& (j <= b@.len() ==> r.0 == j)
            &&& (j > b@.len() ==> r.0 == b@.len())
            &&& r.0 > i
            &&& r.0 <= b@.len()
        }),
{
    let len = b.len();
    let c = b[i];
    match m {
        Lex::Str => {
            if c == '\\' && i + 1 < len {
                out.push(c);
                out.push(b[i + 1]);
                (i + 2, Lex::Str)
            } else if c == '"' {
                out.push(c);
                (i + 1, Lex::Code)
            } else {
                out.push(c);
                (i + 1, Lex::Str)
            }
        },
        Lex::LineComment => {
            if c == '\n' {
                out.push(c);
                (i + 1, Lex::Code)
            } else {
                (i + 1, Lex::LineComment)
            }
        },
        Lex::BlockComment => {
            if c == '*' && b[i + 1] == '/' {
                (i + 2, Lex::Code)
            } else {
                (i + 1, Lex::BlockComment)
            }
        },
        Lex::Code => {
            if i + 1 < len && c == '/' && b[i + 1] == '/' {
                (i + 2, Lex::LineComment)
            } else if i + 1 < len && c == '/' && b[i + 1] == '*' {
                (i + 2, Lex::BlockComment)
            } else if c == '"' {
                out.push(c);
                (i + 1, Lex::Str)
            } else {
                out.push(c);
                (i + 1, Lex::Code)
            }
        },
    }
}

/// Removes comments from JSONC text (pass one of `strip_jsonc`).
fn strip_comments_exec(b: &Vec<char>) -> (r: Vec<char>)
    requires
        strip_ok(b@),
    ensures
        Some(r@) == strip_comments(b@, 0, Lex::Code),
{
    let len = b.len();
    let mut out: Vec<char> = Vec::new();
    let mut i: usize = 0;
    let mut m = Lex::Code;
    while i < len
        invariant
            len == b@.len(),
            i <= len,
            strip_comments(b@, 0, Lex::Code) == (match strip_comments(b@, i as int, m) {
                None => None,
                Some(rest) => Some(out@ + rest),
            }),
            strip_comments(b@, 0, Lex::Code) is Some,
        decreases len - i,
    {
        let ghost old_out = out@;
        let (j, n) = strip_step_exec(b, i, m, &mut out);
        proof {
            let (e, sj, _) = strip_step(b@, i as int, m).unwrap();
            assert(strip_comments(b@, i as int, m) == (match strip_comments(b@, sj, n) {
                None => None,
                Some(rest) => Some(e + rest),
            }));
            if let Some(rest) = strip_comments(b@, sj, n) {
                assert(old_out + (e + rest) =~= out@ + rest);
            }
        }
        i = j;
        m = n;
    }
    assert(out@ + seq![] =~= out@);
    out
}

/// Removes trailing commas from the characters (pass two of `strip_jsonc`).
fn drop_trailing_commas_exec(c: &Vec<char>) -> (r: Vec<char>)
    ensures
        r@ == drop_trailing_commas(c@, c@.len() as int),
{
    let n = c.len();
    let mut out: Vec<char> = Vec::new();
    let mut j: usize = 0;
    while j < n
        invariant
            n == c@.len(),
            j <= n,
            out@ == drop_trailing_commas(c@, j as int),
        decreases n - j,
    {
        let mut dropped = false;
        if c[j] == ',' {
            let mut k = j + 1;
            while k < n && is_whitespace(c[k])
                invariant
                    n == c@.len(),
                    j < k <= n,
                    next_solid(c@, j + 1) == next_solid(c@, k as int),
                decreases n - k,
            {
                k = k + 1;
            }
            if k < n && (c[k] == '}' || c[k] == ']') {
                dropped = true;
            }
        }
        if !dropped {
            out.push(c[j]);
        }
        j = j + 1;
    }
    out
}

/// Strips comments and trailing commas from JSONC characters.
pub fn strip_jsonc_chars(c: &Vec<char>) -> (r: Vec<char>)
    requires
        strip_ok(c@),
    ensures
        r@ == strip_jsonc(c@),
{
    let k = strip_comments_exec(c);
    drop_trailing_commas_exec(&k)
}

/// Turns JSONC text into JSON text: removes `//` and `/* */` comments (but
/// not their look-alikes inside strings) and the commas that directly precede
/// a closing `}` or `]`; every other character is kept as it is.
pub fn strip_jsonc_comments(jsonc: &str) -> (r: String)
    requires
        strip_ok(jsonc@),
    ensures
        r@ == strip_jsonc(jsonc@),
{
    let c = chars_of(jsonc);
    let v = strip_jsonc_chars(&c);
    string_of(v.as_slice())
}

/// In valid UTF-8, the position right after a one-byte (ASCII) character
/// that starts at a character boundary is a character boundary too.
pub proof fn lemma_boundary_after_ascii(bytes: Seq<u8>, i: int)
    requires
        valid_utf8(bytes),
        0 <= i < bytes.len(),
        is_char_boundary(bytes, i),
        is_leading_byte_width_1(bytes[i]),
    ensures
        is_char_boundary(bytes, i + 1),
    decreases bytes.len(),
{
    let k = length_of_first_scalar(bytes);
    let tail = pop_first_scalar(bytes);
    assert(valid_first_scalar(bytes));
    assert(valid_utf8(tail));
    if i == 0 {
        assert(k == 1);
        assert(is_char_boundary(tail, 0));
    } else {
        assert(is_char_boundary(tail, i - k));
        assert(1 <= k <= 4);
        assert(tail.len() == bytes.len() - k);
        if i - k < 0 {
            assert(!is_char_boundary(tail, i - k));
        }
        assert(tail[i - k] == bytes[i]);
        lemma_boundary_after_ascii(tail, i - k);
        assert(is_char_boundary(tail, i - k + 1));
    }
}

/// Both ends of a found span are character boundaries of valid UTF-8.
pub proof fn lemma_span_boundaries(b: Seq<u8>)
    requires
        valid_utf8(b),
    ensures
        context_servers_span(b) matches Some((s, e)) ==> is_char_boundary(b, s) && is_char_boundary(b, e),
{
    lemma_span_shape(b);
    if let Some((s, e)) = context_servers_span(b) {
        assert(b.subrange(s, s + 17)[0] == context_key()[0]);
        assert(b[s] == 0x22u8);
        is_char_boundary_iff_not_is_continuation_byte(b, s);
        is_char_boundary_iff_not_is_continuation_byte(b, e - 1);
        lemma_boundary_after_ascii(b, e - 1);
    }
}

} // verus!
