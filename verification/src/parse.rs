//! Parsing of the service's success response: a JSON object carrying the
//! key `id` with a string value.
//!
//! `spec_parse_id_object` states exactly which texts are accepted and what
//! identifier each one carries; `parse_id_object` is the verified parser.
//! The decoder follows the wire contract: the body must be one JSON object,
//! the member `id` must be present exactly once with a string value, and
//! every other member is ignored. An unknown member's value is skipped
//! structurally: strings are validated in full, nested objects and arrays by
//! bracket matching (strings inside them validated too), and any other value
//! as a run of non-structural characters.

use vstd::prelude::*;
use vstd::string::StrSliceExecFns;
use crate::json::{lemma_escape_cons, spec_escape, spec_escape_char, spec_hex_digit, spec_render,
    spec_render_member, spec_render_obj, JVal};

verus! {

/// JSON insignificant whitespace.
pub open spec fn is_ws(c: char) -> bool {
    c == ' ' || c == '\t' || c == '\n' || c == '\r'
}

/// The first index at or after `i` that does not hold whitespace.
pub open spec fn ws_end(s: Seq<char>, i: int) -> int
    decreases s.len() - i,
{
    if 0 <= i < s.len() && is_ws(s[i]) {
        ws_end(s, i + 1)
    } else {
        i
    }
}

/// The character named by a single-character escape, if the escape is valid.
pub open spec fn spec_unescape_char(c: char) -> Option<char> {
    if c == '"' {
        Some('"')
    } else if c == '\\' {
        Some('\\')
    } else if c == '/' {
        Some('/')
    } else if c == 'n' {
        Some('\n')
    } else if c == 'r' {
        Some('\r')
    } else if c == 't' {
        Some('\t')
    } else if c == 'b' {
        Some((8u8) as char)
    } else if c == 'f' {
        Some((12u8) as char)
    } else {
        None
    }
}

/// The value of a hexadecimal digit, or -1 for any other character.
pub open spec fn spec_hex_val(c: char) -> int {
    if 48 <= (c as u32) <= 57 {
        (c as u32) - 48
    } else if 97 <= (c as u32) <= 102 {
        (c as u32) - 87
    } else if 65 <= (c as u32) <= 70 {
        (c as u32) - 55
    } else {
        -1
    }
}

/// The code point named by the four hexadecimal digits at `i`.
pub open spec fn spec_hex4(s: Seq<char>, i: int) -> int {
    4096 * spec_hex_val(s[i]) + 256 * spec_hex_val(s[i + 1]) + 16 * spec_hex_val(s[i + 2])
        + spec_hex_val(s[i + 3])
}

/// Whether the four characters at `i` are all hexadecimal digits.
pub open spec fn hex4_ok(s: Seq<char>, i: int) -> bool {
    &&& spec_hex_val(s[i]) >= 0
    &&& spec_hex_val(s[i + 1]) >= 0
    &&& spec_hex_val(s[i + 2]) >= 0
    &&& spec_hex_val(s[i + 3]) >= 0
}

/// The code point named by a surrogate pair: a high surrogate `hi` followed
/// by a low surrogate `lo`.
pub open spec fn surrogate_pair(hi: int, lo: int) -> int {
    0x10000 + 0x400 * (hi - 0xD800) + (lo - 0xDC00)
}

/// Parses the characters of a JSON string literal from index `i` (just after
/// the opening quote) to its closing quote. Accepts the single-character
/// escapes, `\uXXXX` escapes of non-surrogate code points, and surrogate
/// pairs for code points above 0xFFFF; rejects unterminated literals,
/// unknown escapes, lone surrogates and raw control characters. Returns the
/// decoded characters and the index just after the closing quote.
pub open spec fn parse_str_chars(s: Seq<char>, i: int) -> Option<(Seq<char>, int)>
    decreases s.len() - i,
{
    if i < 0 || i >= s.len() {
        None
    } else if s[i] == '"' {
        Some((Seq::empty(), i + 1))
    } else if s[i] == '\\' {
        if i + 1 < s.len() {
            if s[i + 1] == 'u' {
                if i + 5 < s.len() && hex4_ok(s, i + 2) {
                    let v = spec_hex4(s, i + 2);
                    if !(0xD800 <= v <= 0xDFFF) {
                        match parse_str_chars(s, i + 6) {
                            Some(q) => Some((seq![v as char] + q.0, q.1)),
                            None => None,
                        }
                    } else if 0xD800 <= v <= 0xDBFF && i + 11 < s.len() && s[i + 6] == '\\'
                        && s[i + 7] == 'u' && hex4_ok(s, i + 8) && 0xDC00 <= spec_hex4(s, i + 8)
                        <= 0xDFFF {
                        match parse_str_chars(s, i + 12) {
                            Some(q) => Some(
                                (seq![surrogate_pair(v, spec_hex4(s, i + 8)) as char] + q.0, q.1),
                            ),
                            None => None,
                        }
                    } else {
                        None
                    }
                } else {
                    None
                }
            } else {
                match spec_unescape_char(s[i + 1]) {
                    Some(c) => match parse_str_chars(s, i + 2) {
                        Some(q) => Some((seq![c] + q.0, q.1)),
                        None => None,
                    },
                    None => None,
                }
            }
        } else {
            None
        }
    } else if (s[i] as u32) < 32 {
        None
    } else {
        match parse_str_chars(s, i + 1) {
            Some(q) => Some((seq![s[i]] + q.0, q.1)),
            None => None,
        }
    }
}

/// Parses a JSON string literal starting at index `i`, quotes included.
pub open spec fn spec_parse_string(s: Seq<char>, i: int) -> Option<(Seq<char>, int)> {
    if 0 <= i < s.len() && s[i] == '"' {
        parse_str_chars(s, i + 1)
    } else {
        None
    }
}

pub proof fn lemma_ws_end_bounds(s: Seq<char>, i: int)
    requires
        0 <= i <= s.len(),
    ensures
        i <= ws_end(s, i) <= s.len(),
    decreases s.len() - i,
{
    if i < s.len() && is_ws(s[i]) {
        lemma_ws_end_bounds(s, i + 1);
    }
}

/// A parsed string literal ends strictly after where it began.
pub proof fn lemma_parse_str_chars_pos(s: Seq<char>, i: int)
    ensures
        parse_str_chars(s, i) matches Some(q) ==> i < q.1 <= s.len(),
    decreases s.len() - i,
{
    if 0 <= i < s.len() {
        if i + 12 <= s.len() {
            lemma_parse_str_chars_pos(s, i + 12);
        }
        if i + 6 <= s.len() {
            lemma_parse_str_chars_pos(s, i + 6);
        }
        if i + 2 <= s.len() {
            lemma_parse_str_chars_pos(s, i + 2);
        }
        lemma_parse_str_chars_pos(s, i + 1);
    }
}

/// A character that can stand inside an unquoted scalar token such as a
/// number, `true`, `false` or `null`.
pub open spec fn is_token_char(c: char) -> bool {
    !is_ws(c) && c != ',' && c != ':' && c != '"' && c != '{' && c != '}' && c != '[' && c != ']'
}

/// The first index at or after `i` that does not hold a token character.
pub open spec fn token_end(s: Seq<char>, i: int) -> int
    decreases s.len() - i,
{
    if 0 <= i < s.len() && is_token_char(s[i]) {
        token_end(s, i + 1)
    } else {
        i
    }
}

pub proof fn lemma_token_end_bounds(s: Seq<char>, i: int)
    requires
        0 <= i <= s.len(),
    ensures
        i <= token_end(s, i) <= s.len(),
    decreases s.len() - i,
{
    if i < s.len() && is_token_char(s[i]) {
        lemma_token_end_bounds(s, i + 1);
    }
}

/// Skips the remainder of nested containers whose unclosed open brackets are
/// `stack` (innermost last): string literals are validated in full, brackets
/// must match, everything else is passed over. Returns the index just after
/// the bracket closing the outermost container.
pub open spec fn skip_container(s: Seq<char>, i: int, stack: Seq<char>) -> Option<int>
    decreases s.len() - i,
        via skip_container_dec
{
    if i < 0 || i >= s.len() || stack.len() == 0 {
        None
    } else if s[i] == '"' {
        match parse_str_chars(s, i + 1) {
            Some(q) => skip_container(s, q.1, stack),
            None => None,
        }
    } else if s[i] == '{' {
        skip_container(s, i + 1, stack.push('{'))
    } else if s[i] == '[' {
        skip_container(s, i + 1, stack.push('['))
    } else if s[i] == '}' {
        if stack.last() == '{' {
            if stack.len() == 1 {
                Some(i + 1)
            } else {
                skip_container(s, i + 1, stack.drop_last())
            }
        } else {
            None
        }
    } else if s[i] == ']' {
        if stack.last() == '[' {
            if stack.len() == 1 {
                Some(i + 1)
            } else {
                skip_container(s, i + 1, stack.drop_last())
            }
        } else {
            None
        }
    } else {
        skip_container(s, i + 1, stack)
    }
}

#[via_fn]
proof fn skip_container_dec(s: Seq<char>, i: int, stack: Seq<char>) {
    if !(i < 0 || i >= s.len() || stack.len() == 0) && s[i] == '"' {
        lemma_parse_str_chars_pos(s, i + 1);
    }
}

/// A skipped container ends strictly after where it began.
pub proof fn lemma_skip_container_pos(s: Seq<char>, i: int, stack: Seq<char>)
    ensures
        skip_container(s, i, stack) matches Some(j) ==> i < j <= s.len(),
    decreases s.len() - i,
{
    if !(i < 0 || i >= s.len() || stack.len() == 0) {
        if s[i] == '"' {
            lemma_parse_str_chars_pos(s, i + 1);
            match parse_str_chars(s, i + 1) {
                Some(q) => {
                    lemma_skip_container_pos(s, q.1, stack);
                },
                None => {},
            }
        } else {
            lemma_skip_container_pos(s, i + 1, stack.push('{'));
            lemma_skip_container_pos(s, i + 1, stack.push('['));
            lemma_skip_container_pos(s, i + 1, stack.drop_last());
            lemma_skip_container_pos(s, i + 1, stack);
        }
    }
}

/// Skips one member value starting at `i`: a string literal, a bracketed
/// container, or a scalar token. Returns the index just after the value.
pub open spec fn skip_value(s: Seq<char>, i: int) -> Option<int> {
    if i < 0 || i >= s.len() {
        None
    } else if s[i] == '"' {
        match parse_str_chars(s, i + 1) {
            Some(q) => Some(q.1),
            None => None,
        }
    } else if s[i] == '{' {
        skip_container(s, i + 1, seq!['{'])
    } else if s[i] == '[' {
        skip_container(s, i + 1, seq!['['])
    } else if is_token_char(s[i]) {
        Some(token_end(s, i))
    } else {
        None
    }
}

/// A skipped value ends strictly after where it began.
pub proof fn lemma_skip_value_pos(s: Seq<char>, i: int)
    ensures
        skip_value(s, i) matches Some(j) ==> i < j <= s.len(),
{
    if 0 <= i < s.len() {
        lemma_parse_str_chars_pos(s, i + 1);
        lemma_skip_container_pos(s, i + 1, seq!['{']);
        lemma_skip_container_pos(s, i + 1, seq!['[']);
        lemma_token_end_bounds(s, i + 1);
    }
}

/// Parses the members of the response object from `i` (at the opening quote
/// of a member's key, whitespace already skipped). `found` carries the `id`
/// value seen so far; a second `id` member is rejected, every member under
/// another key is skipped. Returns the `id` value, if one appeared, and the
/// index just after the closing brace.
pub open spec fn parse_members(s: Seq<char>, i: int, found: Option<Seq<char>>) -> Option<
    (Option<Seq<char>>, int),
>
    decreases s.len() - i,
        via parse_members_dec
{
    match spec_parse_string(s, i) {
        Some(kq) => {
            let i3 = ws_end(s, kq.1);
            if i3 < s.len() && s[i3] == ':' {
                let i4 = ws_end(s, i3 + 1);
                let step: Option<(int, Option<Seq<char>>)> = if kq.0 == seq!['i', 'd'] {
                    if found is Some {
                        None
                    } else {
                        match spec_parse_string(s, i4) {
                            Some(vq) => Some((vq.1, Some(vq.0))),
                            None => None,
                        }
                    }
                } else {
                    match skip_value(s, i4) {
                        Some(j) => Some((j, found)),
                        None => None,
                    }
                };
                match step {
                    Some(p) => {
                        let i5 = ws_end(s, p.0);
                        if i5 < s.len() && s[i5] == '}' {
                            Some((p.1, i5 + 1))
                        } else if i5 < s.len() && s[i5] == ',' {
                            parse_members(s, ws_end(s, i5 + 1), p.1)
                        } else {
                            None
                        }
                    },
                    None => None,
                }
            } else {
                None
            }
        },
        None => None,
    }
}

#[via_fn]
proof fn parse_members_dec(s: Seq<char>, i: int, found: Option<Seq<char>>) {
    if 0 <= i < s.len() && s[i] == '"' {
        lemma_parse_str_chars_pos(s, i + 1);
        match parse_str_chars(s, i + 1) {
            Some(kq) => {
                lemma_ws_end_bounds(s, kq.1);
                let i3 = ws_end(s, kq.1);
                if i3 < s.len() && s[i3] == ':' {
                    lemma_ws_end_bounds(s, i3 + 1);
                    let i4 = ws_end(s, i3 + 1);
                    if 0 <= i4 < s.len() && s[i4] == '"' {
                        lemma_parse_str_chars_pos(s, i4 + 1);
                        match parse_str_chars(s, i4 + 1) {
                            Some(vq) => {
                                lemma_ws_end_bounds(s, vq.1);
                                let i5 = ws_end(s, vq.1);
                                if i5 < s.len() {
                                    lemma_ws_end_bounds(s, i5 + 1);
                                }
                            },
                            None => {},
                        }
                    }
                    lemma_skip_value_pos(s, i4);
                    match skip_value(s, i4) {
                        Some(j) => {
                            lemma_ws_end_bounds(s, j);
                            let i5 = ws_end(s, j);
                            if i5 < s.len() {
                                lemma_ws_end_bounds(s, i5 + 1);
                            }
                        },
                        None => {},
                    }
                }
            },
            None => {},
        }
    }
}

/// The identifier carried by a success-response body: the body must be one
/// JSON object, surrounded by nothing but whitespace, holding the member
/// `id` exactly once with a string value; all other members are ignored.
pub open spec fn spec_parse_id_object(s: Seq<char>) -> Option<Seq<char>> {
    let i0 = ws_end(s, 0);
    if i0 < s.len() && s[i0] == '{' {
        match parse_members(s, ws_end(s, i0 + 1), None::<Seq<char>>) {
            Some(p) => match p.0 {
                Some(id) => if ws_end(s, p.1) == s.len() {
                    Some(id)
                } else {
                    None
                },
                None => None,
            },
            None => None,
        }
    } else {
        None
    }
}

/// The characters of `s`, one by one.
pub fn to_chars(s: &str) -> (v: Vec<char>)
    ensures
        v@ == s@,
{
    let n = s.unicode_len();
    let mut v: Vec<char> = Vec::new();
    let mut i: usize = 0;
    while i < n
        invariant
            n == s@.len(),
            i <= n,
            v@ == s@.take(i as int),
        decreases n - i,
    {
        v.push(s.get_char(i));
        proof {
            assert(v@ =~= s@.take(i + 1));
        }
        i = i + 1;
    }
    proof {
        assert(s@.take(n as int) =~= s@);
    }
    v
}

fn skip_ws(s: &Vec<char>, start: usize) -> (r: usize)
    requires
        start <= s@.len(),
    ensures
        r == ws_end(s@, start as int),
        start <= r <= s@.len(),
{
    let n = s.len();
    let mut i: usize = start;
    while i < n && is_ws_exec(s[i])
        invariant
            start <= i <= n,
            n == s@.len(),
            ws_end(s@, start as int) == ws_end(s@, i as int),
        decreases n - i,
    {
        i = i + 1;
    }
    i
}

fn is_ws_exec(c: char) -> (r: bool)
    ensures
        r == is_ws(c),
{
    c == ' ' || c == '\t' || c == '\n' || c == '\r'
}

fn is_token_char_exec(c: char) -> (r: bool)
    ensures
        r == is_token_char(c),
{
    !(c == ' ' || c == '\t' || c == '\n' || c == '\r' || c == ',' || c == ':' || c == '"' || c
        == '{' || c == '}' || c == '[' || c == ']')
}

fn token_end_x(s: &Vec<char>, start: usize) -> (r: usize)
    requires
        start <= s@.len(),
    ensures
        r == token_end(s@, start as int),
        start <= r <= s@.len(),
{
    let n = s.len();
    let mut i: usize = start;
    while i < n && is_token_char_exec(s[i])
        invariant
            start <= i <= n,
            n == s@.len(),
            token_end(s@, start as int) == token_end(s@, i as int),
        decreases n - i,
    {
        i = i + 1;
    }
    i
}

fn hex_value(c: char) -> (r: Option<u8>)
    ensures
        r is Some <==> spec_hex_val(c) >= 0,
        r is Some ==> r->0 == spec_hex_val(c),
{
    let d = c as u32;
    if 48 <= d && d <= 57 {
        Some((d - 48) as u8)
    } else if 97 <= d && d <= 102 {
        Some((d - 87) as u8)
    } else if 65 <= d && d <= 70 {
        Some((d - 55) as u8)
    } else {
        None
    }
}

/// Relies on `char::from_u32`: for a code point below 0x110000 and outside
/// the surrogate range it returns the character with exactly that code.
#[verifier::external_body]
fn char_from_code(v: u32) -> (c: char)
    requires
        v < 0xD800 || (0xE000 <= v && v < 0x110000),
    ensures
        c == ((v as int) as char),
        c as u32 == v,
{
    char::from_u32(v).unwrap()
}

/// Parses the contents of a string literal from `start` (just after the
/// opening quote); on success returns the decoded characters and the index
/// just after the closing quote.
fn parse_string_chars(s: &Vec<char>, start: usize) -> (r: Option<(Vec<char>, usize)>)
    requires
        start <= s@.len(),
    ensures
        match (r, parse_str_chars(s@, start as int)) {
            (Some(p), Some(q)) => p.0@ == q.0 && p.1 as int == q.1 && p.1 <= s@.len(),
            (None, None) => true,
            _ => false,
        },
{
    let n = s.len();
    let mut i: usize = start;
    let mut acc: Vec<char> = Vec::new();
    loop
        invariant
            start <= i <= n,
            n == s@.len(),
            parse_str_chars(s@, start as int) == (match parse_str_chars(s@, i as int) {
                Some(q) => Some((acc@ + q.0, q.1)),
                None => None::<(Seq<char>, int)>,
            }),
        decreases n - i,
    {
        if i >= n {
            return None;
        }
        let c = s[i];
        if c == '"' {
            proof {
                assert(acc@ + Seq::<char>::empty() =~= acc@);
            }
            return Some((acc, i + 1));
        }
        if c == '\\' {
            if i + 1 >= n {
                return None;
            }
            let e = s[i + 1];
            if e == 'u' {
                if n - i > 5 {
                    let h = (
                        hex_value(s[i + 2]),
                        hex_value(s[i + 3]),
                        hex_value(s[i + 4]),
                        hex_value(s[i + 5]),
                    );
                    match h {
                        (Some(a), Some(b), Some(d1), Some(d2)) => {
                            let v: u32 = 4096 * (a as u32) + 256 * (b as u32) + 16 * (d1 as u32)
                                + (d2 as u32);
                            proof {
                                assert(v as int == spec_hex4(s@, i + 2));
                            }
                            if v < 0xD800 || v > 0xDFFF {
                                let ghost acc0 = acc@;
                                acc.push(char_from_code(v));
                                proof {
                                    let gi = i as int;
                                    if let Some(q2) = parse_str_chars(s@, gi + 6) {
                                        assert(acc@ + q2.0 =~= acc0 + (seq![
                                            spec_hex4(s@, gi + 2) as char,
                                        ] + q2.0));
                                    }
                                }
                                i = i + 6;
                            } else if v <= 0xDBFF && n - i > 11 && s[i + 6] == '\\' && s[i + 7]
                                == 'u' {
                                let h2 = (
                                    hex_value(s[i + 8]),
                                    hex_value(s[i + 9]),
                                    hex_value(s[i + 10]),
                                    hex_value(s[i + 11]),
                                );
                                match h2 {
                                    (Some(a2), Some(b2), Some(d3), Some(d4)) => {
                                        let w: u32 = 4096 * (a2 as u32) + 256 * (b2 as u32) + 16
                                            * (d3 as u32) + (d4 as u32);
                                        proof {
                                            assert(w as int == spec_hex4(s@, i + 8));
                                        }
                                        if 0xDC00 <= w && w <= 0xDFFF {
                                            let cp: u32 = 0x10000 + 0x400 * (v - 0xD800) + (w
                                                - 0xDC00);
                                            proof {
                                                assert(cp as int == surrogate_pair(
                                                    v as int,
                                                    w as int,
                                                ));
                                            }
                                            let ghost acc0 = acc@;
                                            acc.push(char_from_code(cp));
                                            proof {
                                                let gi = i as int;
                                                if let Some(q2) = parse_str_chars(s@, gi + 12) {
                                                    assert(acc@ + q2.0 =~= acc0 + (seq![
                                                        surrogate_pair(
                                                            spec_hex4(s@, gi + 2),
                                                            spec_hex4(s@, gi + 8),
                                                        ) as char,
                                                    ] + q2.0));
                                                }
                                            }
                                            i = i + 12;
                                        } else {
                                            return None;
                                        }
                                    },
                                    _ => {
                                        return None;
                                    },
                                }
                            } else {
                                return None;
                            }
                        },
                        _ => {
                            return None;
                        },
                    }
                } else {
                    return None;
                }
            } else {
                let u = unescape_char(e);
                match u {
                    Some(c2) => {
                        let ghost acc0 = acc@;
                        acc.push(c2);
                        proof {
                            let gi = i as int;
                            if let Some(q2) = parse_str_chars(s@, gi + 2) {
                                assert(acc@ + q2.0 =~= acc0 + (seq![c2] + q2.0));
                            }
                        }
                        i = i + 2;
                    },
                    None => {
                        return None;
                    },
                }
            }
        } else if (c as u32) < 32 {
            return None;
        } else {
            let ghost acc0 = acc@;
            acc.push(c);
            proof {
                let gi = i as int;
                if let Some(q2) = parse_str_chars(s@, gi + 1) {
                    assert(acc@ + q2.0 =~= acc0 + (seq![c] + q2.0));
                }
            }
            i = i + 1;
        }
    }
}

fn unescape_char(c: char) -> (r: Option<char>)
    ensures
        r == spec_unescape_char(c),
{
    if c == '"' {
        Some('"')
    } else if c == '\\' {
        Some('\\')
    } else if c == '/' {
        Some('/')
    } else if c == 'n' {
        Some('\n')
    } else if c == 'r' {
        Some('\r')
    } else if c == 't' {
        Some('\t')
    } else if c == 'b' {
        Some((8u8) as char)
    } else if c == 'f' {
        Some((12u8) as char)
    } else {
        None
    }
}

/// Parses a string literal starting at `start`, quotes included.
fn parse_string(s: &Vec<char>, start: usize) -> (r: Option<(Vec<char>, usize)>)
    requires
        start <= s@.len(),
    ensures
        match (r, spec_parse_string(s@, start as int)) {
            (Some(p), Some(q)) => p.0@ == q.0 && p.1 as int == q.1 && p.1 <= s@.len(),
            (None, None) => true,
            _ => false,
        },
{
    if start < s.len() && s[start] == '"' {
        parse_string_chars(s, start + 1)
    } else {
        None
    }
}

/// Skips the remainder of nested containers opened by `open`.
#[verifier::loop_isolation(false)]
fn skip_container_x(s: &Vec<char>, start: usize, open: char) -> (r: Option<usize>)
    requires
        start <= s@.len(),
        open == '{' || open == '[',
    ensures
        match (r, skip_container(s@, start as int, seq![open])) {
            (Some(a), Some(b)) => a as int == b && a <= s@.len(),
            (None, None) => true,
            _ => false,
        },
{
    let ghost st0 = seq![open];
    let mut stack: Vec<char> = Vec::new();
    stack.push(open);
    proof {
        assert(stack@ =~= st0);
    }
    let n = s.len();
    let mut i: usize = start;
    loop
        invariant
            i <= n,
            n == s@.len(),
            stack@.len() > 0,
            skip_container(s@, start as int, st0) == skip_container(s@, i as int, stack@),
        decreases n - i,
    {
        if i >= n {
            return None;
        }
        let c = s[i];
        if c == '"' {
            match parse_string_chars(s, i + 1) {
                Some(p) => {
                    proof {
                        lemma_parse_str_chars_pos(s@, i + 1);
                    }
                    i = p.1;
                },
                None => {
                    return None;
                },
            }
        } else if c == '{' {
            stack.push('{');
            i = i + 1;
        } else if c == '[' {
            stack.push('[');
            i = i + 1;
        } else if c == '}' {
            if stack[stack.len() - 1] != '{' {
                return None;
            }
            if stack.len() == 1 {
                return Some(i + 1);
            }
            let ghost stold = stack@;
            stack.pop();
            proof {
                assert(stack@ =~= stold.drop_last());
            }
            i = i + 1;
        } else if c == ']' {
            if stack[stack.len() - 1] != '[' {
                return None;
            }
            if stack.len() == 1 {
                return Some(i + 1);
            }
            let ghost stold = stack@;
            stack.pop();
            proof {
                assert(stack@ =~= stold.drop_last());
            }
            i = i + 1;
        } else {
            i = i + 1;
        }
    }
}

/// Skips one member value starting at `start`.
fn skip_value_x(s: &Vec<char>, start: usize) -> (r: Option<usize>)
    requires
        start <= s@.len(),
    ensures
        match (r, skip_value(s@, start as int)) {
            (Some(a), Some(b)) => a as int == b && a <= s@.len(),
            (None, None) => true,
            _ => false,
        },
{
    let n = s.len();
    if start >= n {
        return None;
    }
    let c = s[start];
    if c == '"' {
        match parse_string_chars(s, start + 1) {
            Some(p) => Some(p.1),
            None => None,
        }
    } else if c == '{' {
        skip_container_x(s, start + 1, '{')
    } else if c == '[' {
        skip_container_x(s, start + 1, '[')
    } else if is_token_char_exec(c) {
        proof {
            lemma_token_end_bounds(s@, start as int);
        }
        Some(token_end_x(s, start))
    } else {
        None
    }
}

/// The `id` value seen so far, as the spec-level parser carries it.
spec fn found_view(f: Option<Vec<char>>) -> Option<Seq<char>> {
    match f {
        Some(v) => Some(v@),
        None => None,
    }
}

/// Parses a success-response body: one JSON object whose member `id` holds
/// a string, other members ignored. Returns the identifier exactly when
/// `spec_parse_id_object` accepts the text.
#[verifier::loop_isolation(false)]
pub fn parse_id_object(s: &str) -> (r: Option<String>)
    ensures
        match (r, spec_parse_id_object(s@)) {
            (Some(x), Some(y)) => x@ == y,
            (None, None) => true,
            _ => false,
        },
{
    let cs = to_chars(s);
    proof {
        lemma_ws_end_bounds(cs@, 0);
    }
    let n = cs.len();
    let i0 = skip_ws(&cs, 0);
    if !(i0 < n && cs[i0] == '{') {
        return None;
    }
    proof {
        lemma_ws_end_bounds(cs@, i0 + 1);
    }
    let i1 = skip_ws(&cs, i0 + 1);
    let ghost target = parse_members(cs@, i1 as int, None::<Seq<char>>);
    let mut i: usize = i1;
    let mut found: Option<Vec<char>> = None;
    loop
        invariant
            i <= n,
            n == cs@.len(),
            cs@ == s@,
            i0 == ws_end(cs@, 0),
            i0 < n && cs@[i0 as int] == '{',
            i1 == ws_end(cs@, i0 + 1),
            target == parse_members(cs@, i1 as int, None::<Seq<char>>),
            target == parse_members(cs@, i as int, found_view(found)),
        decreases n - i,
    {
        let ghost iold = i as int;
        let key = match parse_string(&cs, i) {
            Some(k) => k,
            None => {
                return None;
            },
        };
        proof {
            lemma_parse_str_chars_pos(cs@, iold + 1);
            lemma_ws_end_bounds(cs@, key.1 as int);
        }
        let i3 = skip_ws(&cs, key.1);
        if !(i3 < n && cs[i3] == ':') {
            return None;
        }
        proof {
            lemma_ws_end_bounds(cs@, i3 + 1);
        }
        let i4 = skip_ws(&cs, i3 + 1);
        let is_id = key.0.len() == 2 && key.0[0] == 'i' && key.0[1] == 'd';
        proof {
            if is_id {
                assert(key.0@ =~= seq!['i', 'd']);
            } else {
                assert(key.0@ != seq!['i', 'd']);
            }
        }
        let j: usize;
        if is_id {
            if found.is_some() {
                return None;
            }
            match parse_string(&cs, i4) {
                Some(v) => {
                    proof {
                        lemma_parse_str_chars_pos(cs@, i4 + 1);
                    }
                    j = v.1;
                    found = Some(v.0);
                },
                None => {
                    return None;
                },
            }
        } else {
            match skip_value_x(&cs, i4) {
                Some(jj) => {
                    proof {
                        lemma_skip_value_pos(cs@, i4 as int);
                    }
                    j = jj;
                },
                None => {
                    return None;
                },
            }
        }
        proof {
            lemma_ws_end_bounds(cs@, j as int);
        }
        let i5 = skip_ws(&cs, j);
        if i5 < n && cs[i5] == '}' {
            let end = i5 + 1;
            match found {
                Some(f) => {
                    proof {
                        lemma_ws_end_bounds(cs@, end as int);
                    }
                    let e2 = skip_ws(&cs, end);
                    if e2 == n {
                        return Some(crate::json::chars_to_string(f));
                    } else {
                        return None;
                    }
                },
                None => {
                    return None;
                },
            }
        } else if i5 < n && cs[i5] == ',' {
            proof {
                lemma_ws_end_bounds(cs@, i5 + 1);
            }
            i = skip_ws(&cs, i5 + 1);
        } else {
            return None;
        }
    }
}

/// Every character's code stays within the Unicode scalar range.
proof fn lemma_char_code_bound(c: char)
    ensures
        0 <= c as int <= 0x10FFFF,
{
}

/// Splitting text after a known prefix: if the text from `i` on is
/// `pre + tail`, then `pre` sits at `i` character by character and `tail`
/// starts right after it.
proof fn lemma_skip_split(s: Seq<char>, i: int, pre: Seq<char>, tail: Seq<char>)
    requires
        0 <= i <= s.len(),
        s.skip(i) == pre + tail,
    ensures
        s.skip(i + pre.len()) == tail,
        forall|k: int| 0 <= k < pre.len() ==> s[i + k] == #[trigger] pre[k],
{
    assert(s.skip(i).len() == s.len() - i);
    let j = i + pre.len() as int;
    assert(s.skip(j).len() == s.len() - j);
    assert forall|k: int| 0 <= k < pre.len() implies s[i + k] == #[trigger] pre[k] by {
        assert(s.skip(i)[k] == s[i + k]);
        assert((pre + tail)[k] == pre[k]);
    }
    assert(s.skip(j) =~= tail) by {
        assert forall|k: int| 0 <= k < tail.len() implies #[trigger] s.skip(j)[k] == tail[k] by {
            assert(s.skip(j)[k] == s[j + k]);
            assert(s.skip(i)[pre.len() + k] == s[i + (pre.len() + k)]);
            assert((pre + tail)[pre.len() + k] == tail[k]);
        }
    }
}

/// A string literal whose contents are the escaped form of `t` parses back
/// to exactly `t`, ending just after the closing quote.
proof fn lemma_parse_escaped(s: Seq<char>, i: int, t: Seq<char>, rest: Seq<char>)
    requires
        0 <= i <= s.len(),
        s.skip(i) == spec_escape(t) + seq!['"'] + rest,
    ensures
        parse_str_chars(s, i) == Some((t, i + spec_escape(t).len() + 1)),
    decreases t.len(),
{
    assert(s.skip(i).len() == s.len() - i);
    if t.len() == 0 {
        assert(spec_escape(t) =~= Seq::<char>::empty());
        assert(s.skip(i)[0] == '"');
        assert(s[i] == '"');
        assert(t =~= Seq::<char>::empty());
    } else {
        lemma_escape_cons(t);
        let c = t[0];
        let t2 = t.drop_first();
        let tail = spec_escape(t2) + seq!['"'] + rest;
        assert(seq![c] + t2 =~= t);
        if c == '"' {
            let pre = seq!['\\', '"'];
            assert(s.skip(i) =~= pre + tail);
            lemma_skip_split(s, i, pre, tail);
            assert(s[i] == '\\' && s[i + 1] == '"') by {
                assert(pre[0] == '\\' && pre[1] == '"');
            }
            lemma_parse_escaped(s, i + 2, t2, rest);
            assert(spec_unescape_char(s[i + 1]) == Some('"'));
        } else if c == '\\' {
            let pre = seq!['\\', '\\'];
            assert(s.skip(i) =~= pre + tail);
            lemma_skip_split(s, i, pre, tail);
            assert(s[i] == '\\' && s[i + 1] == '\\') by {
                assert(pre[0] == '\\' && pre[1] == '\\');
            }
            lemma_parse_escaped(s, i + 2, t2, rest);
            assert(spec_unescape_char(s[i + 1]) == Some('\\'));
        } else if c == '\n' {
            let pre = seq!['\\', 'n'];
            assert(s.skip(i) =~= pre + tail);
            lemma_skip_split(s, i, pre, tail);
            assert(s[i] == '\\' && s[i + 1] == 'n') by {
                assert(pre[0] == '\\' && pre[1] == 'n');
            }
            lemma_parse_escaped(s, i + 2, t2, rest);
            assert(spec_unescape_char(s[i + 1]) == Some('\n'));
        } else if c == '\r' {
            let pre = seq!['\\', 'r'];
            assert(s.skip(i) =~= pre + tail);
            lemma_skip_split(s, i, pre, tail);
            assert(s[i] == '\\' && s[i + 1] == 'r') by {
                assert(pre[0] == '\\' && pre[1] == 'r');
            }
            lemma_parse_escaped(s, i + 2, t2, rest);
            assert(spec_unescape_char(s[i + 1]) == Some('\r'));
        } else if c == '\t' {
            let pre = seq!['\\', 't'];
            assert(s.skip(i) =~= pre + tail);
            lemma_skip_split(s, i, pre, tail);
            assert(s[i] == '\\' && s[i + 1] == 't') by {
                assert(pre[0] == '\\' && pre[1] == 't');
            }
            lemma_parse_escaped(s, i + 2, t2, rest);
            assert(spec_unescape_char(s[i + 1]) == Some('\t'));
        } else if (c as u32) < 32 {
            lemma_char_code_bound(c);
            let code = c as u32;
            assert(code == c as int);
            let hi = (code / 16) as u64;
            let lo = (code % 16) as u64;
            let pre = seq!['\\', 'u', '0', '0', spec_hex_digit(hi), spec_hex_digit(lo)];
            assert(s.skip(i) =~= pre + tail);
            lemma_skip_split(s, i, pre, tail);
            assert(s[i] == '\\' && s[i + 1] == 'u' && s[i + 2] == '0' && s[i + 3] == '0') by {
                assert(pre[0] == '\\' && pre[1] == 'u' && pre[2] == '0' && pre[3] == '0');
            }
            assert(s[i + 4] == spec_hex_digit(hi) && s[i + 5] == spec_hex_digit(lo)) by {
                assert(pre[4] == spec_hex_digit(hi) && pre[5] == spec_hex_digit(lo));
            }
            lemma_hex_digit_val(hi);
            lemma_hex_digit_val(lo);
            assert(spec_hex_val('0') == 0);
            assert(spec_hex4(s, i + 2) == 16 * spec_hex_val(s[i + 4]) + spec_hex_val(s[i + 5]));
            assert(spec_hex4(s, i + 2) == code);
            assert(hex4_ok(s, i + 2));
            assert((spec_hex4(s, i + 2) as char) == c) by {
                assert(((code as int) as char) as u32 == code);
                assert(((code as int) as char) == c);
            }
            lemma_parse_escaped(s, i + 6, t2, rest);
        } else {
            let pre = seq![c];
            assert(s.skip(i) =~= pre + tail);
            lemma_skip_split(s, i, pre, tail);
            assert(s[i] == c) by {
                assert(pre[0] == c);
            }
            assert(!(s[i] == '"') && !(s[i] == '\\') && !((s[i] as u32) < 32));
            lemma_parse_escaped(s, i + 1, t2, rest);
        }
    }
}

proof fn lemma_hex_digit_val(d: u64)
    requires
        d < 16,
    ensures
        spec_hex_val(spec_hex_digit(d)) == d,
{
}

/// The success document for an identifier, as the service's wire contract
/// states it.
pub open spec fn spec_id_object(id: Seq<char>) -> JVal {
    JVal::Obj(seq![("id"@, JVal::Str(id))])
}

/// Rendering the success document for any identifier and parsing the text
/// back yields that identifier: the response codec round-trips.
#[verifier::rlimit(100)]
pub proof fn lemma_success_body_round_trip(id: Seq<char>)
    ensures
        spec_parse_id_object(spec_render(spec_id_object(id))) == Some(id),
{
    let s = spec_render(spec_id_object(id));
    reveal_strlit("id");
    reveal_with_fuel(crate::json::spec_escape_prefix, 4);
    assert("id"@.len() == 2);
    assert("id"@[0] == 'i' && "id"@[1] == 'd');
    assert(spec_escape_char('i') == seq!['i']);
    assert(spec_escape_char('d') == seq!['d']);
    assert(spec_escape("id"@) =~= seq!['i', 'd']);
    let m = spec_render_member(("id"@, JVal::Str(id)));
    assert(spec_render_obj(seq![("id"@, JVal::Str(id))], 1) == m);
    assert(s == seq!['{'] + m + seq!['}']);
    let p = seq!['{', '"', 'i', 'd', '"', ':', '"'];
    let suffix = seq!['"', '}'];
    assert(s =~= p + spec_escape(id) + suffix);
    assert(ws_end(s, 0) == 0);
    assert(ws_end(s, 1) == 1);
    let rest1 = seq![':', '"'] + spec_escape(id) + suffix;
    assert(s.skip(2) =~= spec_escape("id"@) + seq!['"'] + rest1);
    lemma_parse_escaped(s, 2, "id"@, rest1);
    assert(spec_parse_string(s, 1) == Some(("id"@, 5int)));
    assert("id"@ =~= seq!['i', 'd']);
    assert(ws_end(s, 5) == 5);
    assert(s[5] == ':');
    assert(ws_end(s, 6) == 6);
    assert(s.skip(7) =~= spec_escape(id) + seq!['"'] + seq!['}']);
    lemma_parse_escaped(s, 7, id, seq!['}']);
    let pos = 8 + spec_escape(id).len() as int;
    assert(spec_parse_string(s, 6) == Some((id, pos)));
    assert(s.len() == pos + 1);
    assert(s[pos] == '}') by {
        assert(s[pos] == suffix[1]);
    }
    assert(ws_end(s, pos) == pos);
    assert(ws_end(s, pos + 1) == pos + 1);
    assert(parse_members(s, 1, None::<Seq<char>>) == Some((Some(id), pos + 1)));
}

} // verus!
