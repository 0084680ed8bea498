//! A small JSON document model, just large enough for the service's wire
//! contract: strings, unsigned numbers, arrays and objects.
//!
//! `JsonValue` is the executable document; `JVal` is its mathematical model.
//! `render` turns a document into its JSON text, characterized exactly by
//! `spec_render`.

use vstd::prelude::*;
use vstd::string::StrSliceExecFns;

verus! {

/// An executable JSON document, restricted to the value kinds the wire
/// contract uses.
#[derive(Debug, PartialEq)]
pub enum JsonValue {
    Str(String),
    Num(u64),
    Arr(Vec<JsonValue>),
    Obj(Vec<(String, JsonValue)>),
}

/// The mathematical model of a JSON document.
pub enum JVal {
    Str(Seq<char>),
    Num(u64),
    Arr(Seq<JVal>),
    Obj(Seq<(Seq<char>, JVal)>),
}

/// The model of an executable document.
pub open spec fn jview(v: JsonValue) -> JVal
    decreases v,
{
    match v {
        JsonValue::Str(s) => JVal::Str(s@),
        JsonValue::Num(n) => JVal::Num(n),
        JsonValue::Arr(items) => JVal::Arr(jviews_from(items@, 0)),
        JsonValue::Obj(fields) => JVal::Obj(jfields_from(fields@, 0)),
    }
}

/// The models of the elements of `s` from index `i` on.
pub open spec fn jviews_from(s: Seq<JsonValue>, i: int) -> Seq<JVal>
    decreases s, s.len() - i,
{
    if 0 <= i < s.len() {
        seq![jview(s[i])] + jviews_from(s, i + 1)
    } else {
        Seq::empty()
    }
}

/// The models of the key/value pairs of `s` from index `i` on.
pub open spec fn jfields_from(s: Seq<(String, JsonValue)>, i: int) -> Seq<(Seq<char>, JVal)>
    decreases s, s.len() - i,
{
    if 0 <= i < s.len() {
        seq![(s[i].0@, jview(s[i].1))] + jfields_from(s, i + 1)
    } else {
        Seq::empty()
    }
}

impl View for JsonValue {
    type V = JVal;

    open spec fn view(&self) -> JVal {
        jview(*self)
    }
}

pub proof fn lemma_jviews_from(s: Seq<JsonValue>, i: int)
    requires
        0 <= i <= s.len(),
    ensures
        jviews_from(s, i).len() == s.len() - i,
        forall|k: int| 0 <= k < s.len() - i ==> jviews_from(s, i)[k] == jview(s[i + k]),
    decreases s.len() - i,
{
    if i < s.len() {
        lemma_jviews_from(s, i + 1);
    }
}

pub proof fn lemma_jfields_from(s: Seq<(String, JsonValue)>, i: int)
    requires
        0 <= i <= s.len(),
    ensures
        jfields_from(s, i).len() == s.len() - i,
        forall|k: int|
            0 <= k < s.len() - i ==> jfields_from(s, i)[k] == (s[i + k].0@, jview(s[i + k].1)),
    decreases s.len() - i,
{
    if i < s.len() {
        lemma_jfields_from(s, i + 1);
    }
}

/// The decimal digit character for `d`.
pub open spec fn spec_dec_digit(d: u64) -> char {
    ((48 + d) as u8) as char
}

/// The lower-case hexadecimal digit character for `d`.
pub open spec fn spec_hex_digit(d: u64) -> char {
    if d < 10 {
        ((48 + d) as u8) as char
    } else {
        ((87 + d) as u8) as char
    }
}

/// How one character appears inside a JSON string literal.
pub open spec fn spec_escape_char(c: char) -> Seq<char> {
    if c == '"' {
        seq!['\\', '"']
    } else if c == '\\' {
        seq!['\\', '\\']
    } else if c == '\n' {
        seq!['\\', 'n']
    } else if c == '\r' {
        seq!['\\', 'r']
    } else if c == '\t' {
        seq!['\\', 't']
    } else if (c as u32) < 32 {
        seq!['\\', 'u', '0', '0']
            + seq![spec_hex_digit(((c as u32) / 16) as u64), spec_hex_digit(((c as u32) % 16) as u64)]
    } else {
        seq![c]
    }
}

/// The escaped form of the first `i` characters of `s`.
pub open spec fn spec_escape_prefix(s: Seq<char>, i: int) -> Seq<char>
    decreases i,
{
    if i <= 0 || i > s.len() {
        Seq::empty()
    } else {
        spec_escape_prefix(s, i - 1) + spec_escape_char(s[i - 1])
    }
}

/// The escaped form of `s`, as it appears between the quotes of a JSON
/// string literal.
pub open spec fn spec_escape(s: Seq<char>) -> Seq<char> {
    spec_escape_prefix(s, s.len() as int)
}

/// The decimal rendering of `n`, without sign or leading zeros.
pub open spec fn spec_render_num(n: u64) -> Seq<char>
    decreases n,
{
    if n < 10 {
        seq![spec_dec_digit(n)]
    } else {
        spec_render_num(n / 10) + seq![spec_dec_digit(n % 10)]
    }
}

/// The JSON text of the document `v`.
pub open spec fn spec_render(v: JVal) -> Seq<char>
    decreases v,
{
    match v {
        JVal::Str(s) => seq!['"'] + spec_escape(s) + seq!['"'],
        JVal::Num(n) => spec_render_num(n),
        JVal::Arr(items) => seq!['['] + spec_render_arr(items, items.len() as int) + seq![']'],
        JVal::Obj(fields) => seq!['{'] + spec_render_obj(fields, fields.len() as int) + seq!['}'],
    }
}

/// The comma-separated JSON texts of the first `i` elements of `items`.
pub open spec fn spec_render_arr(items: Seq<JVal>, i: int) -> Seq<char>
    decreases items, i,
{
    if i <= 0 || i > items.len() {
        Seq::empty()
    } else if i == 1 {
        spec_render(items[0])
    } else {
        spec_render_arr(items, i - 1) + seq![','] + spec_render(items[i - 1])
    }
}

/// The JSON text of one `"key":value` member.
pub open spec fn spec_render_member(f: (Seq<char>, JVal)) -> Seq<char>
    decreases f,
{
    seq!['"'] + spec_escape(f.0) + seq!['"', ':'] + spec_render(f.1)
}

/// The comma-separated JSON texts of the first `i` members of `fields`.
pub open spec fn spec_render_obj(fields: Seq<(Seq<char>, JVal)>, i: int) -> Seq<char>
    decreases fields, i,
{
    if i <= 0 || i > fields.len() {
        Seq::empty()
    } else if i == 1 {
        spec_render_member(fields[0])
    } else {
        spec_render_obj(fields, i - 1) + seq![','] + spec_render_member(fields[i - 1])
    }
}

/// Relies on `String: FromIterator<char>`: collecting characters yields the
/// string made of exactly those characters, in order.
#[verifier::external_body]
pub fn chars_to_string(v: Vec<char>) -> (s: String)
    ensures
        s@ == v@,
{
    v.into_iter().collect()
}

fn dec_digit(d: u64) -> (c: char)
    requires
        d < 10,
    ensures
        c == spec_dec_digit(d),
{
    (48 + d as u8) as char
}

fn hex_digit(d: u64) -> (c: char)
    requires
        d < 16,
    ensures
        c == spec_hex_digit(d),
{
    if d < 10 {
        (48 + d as u8) as char
    } else {
        (87 + d as u8) as char
    }
}

/// Appends the escaped form of `s` to `out`.
fn escape_into(s: &str, out: &mut Vec<char>)
    ensures
        final(out)@ == old(out)@ + spec_escape(s@),
{
    let n = s.unicode_len();
    let mut i: usize = 0;
    while i < n
        invariant
            n == s@.len(),
            i <= n,
            out@ == old(out)@ + spec_escape_prefix(s@, i as int),
        decreases n - i,
    {
        let c = s.get_char(i);
        if c == '"' {
            out.push('\\');
            out.push('"');
        } else if c == '\\' {
            out.push('\\');
            out.push('\\');
        } else if c == '\n' {
            out.push('\\');
            out.push('n');
        } else if c == '\r' {
            out.push('\\');
            out.push('r');
        } else if c == '\t' {
            out.push('\\');
            out.push('t');
        } else if (c as u32) < 32 {
            out.push('\\');
            out.push('u');
            out.push('0');
            out.push('0');
            out.push(hex_digit(((c as u32) / 16) as u64));
            out.push(hex_digit(((c as u32) % 16) as u64));
        } else {
            out.push(c);
        }
        proof {
            assert(out@ =~= old(out)@ + spec_escape_prefix(s@, i + 1));
        }
        i = i + 1;
    }
}

/// Appends the decimal rendering of `n` to `out`.
fn render_num_into(n: u64, out: &mut Vec<char>)
    ensures
        final(out)@ == old(out)@ + spec_render_num(n),
    decreases n,
{
    if n < 10 {
        out.push(dec_digit(n));
        proof {
            assert(out@ =~= old(out)@ + spec_render_num(n));
        }
    } else {
        render_num_into(n / 10, out);
        out.push(dec_digit(n % 10));
        proof {
            assert(out@ =~= old(out)@ + spec_render_num(n));
        }
    }
}

/// Appends the JSON text of `v` to `out`.
#[verifier::loop_isolation(false)]
fn render_into(v: &JsonValue, out: &mut Vec<char>)
    ensures
        final(out)@ == old(out)@ + spec_render(v@),
    decreases *v,
{
    match v {
        JsonValue::Str(s) => {
            out.push('"');
            escape_into(s.as_str(), out);
            out.push('"');
            proof {
                assert(out@ =~= old(out)@ + spec_render(jview(*v)));
            }
        },
        JsonValue::Num(n) => {
            render_num_into(*n, out);
        },
        JsonValue::Arr(items) => {
            let ghost vs = jviews_from(items@, 0);
            proof {
                lemma_jviews_from(items@, 0);
            }
            out.push('[');
            let n = items.len();
            let mut i: usize = 0;
            while i < n
                invariant
                    n == items@.len(),
                    i <= n,
                    vs == jviews_from(items@, 0),
                    vs.len() == n,
                    forall|k: int| 0 <= k < n ==> vs[k] == jview(items@[k]),
                    out@ == old(out)@ + seq!['['] + spec_render_arr(vs, i as int),
                decreases n - i,
            {
                if i > 0 {
                    out.push(',');
                }
                let item = &items[i];
                proof {
                    assert(decreases_to!(*items => items@));
                    assert(decreases_to!(items@ => items@[i as int]));
                }
                render_into(item, out);
                proof {
                    assert(out@ =~= old(out)@ + seq!['['] + spec_render_arr(vs, i + 1));
                }
                i = i + 1;
            }
            out.push(']');
            proof {
                assert(out@ =~= old(out)@ + spec_render(jview(*v)));
            }
        },
        JsonValue::Obj(fields) => {
            let ghost fs = jfields_from(fields@, 0);
            proof {
                lemma_jfields_from(fields@, 0);
            }
            out.push('{');
            let n = fields.len();
            let mut i: usize = 0;
            while i < n
                invariant
                    n == fields@.len(),
                    i <= n,
                    fs == jfields_from(fields@, 0),
                    fs.len() == n,
                    forall|k: int|
                        0 <= k < n ==> fs[k] == (fields@[k].0@, jview(fields@[k].1)),
                    out@ == old(out)@ + seq!['{'] + spec_render_obj(fs, i as int),
                decreases n - i,
            {
                if i > 0 {
                    out.push(',');
                }
                let pair = &fields[i];
                out.push('"');
                escape_into(pair.0.as_str(), out);
                out.push('"');
                out.push(':');
                proof {
                    assert(decreases_to!(*fields => fields@));
                    assert(decreases_to!(fields@ => fields@[i as int]));
                    assert(decreases_to!(fields@[i as int] => fields@[i as int].1));
                }
                render_into(&pair.1, out);
                proof {
                    assert(fs[i as int].0 == fields@[i as int].0@);
                    assert(fs[i as int].1 == jview(fields@[i as int].1));
                    assert(spec_render_member(fs[i as int]) =~= seq!['"'] + spec_escape(
                        fs[i as int].0,
                    ) + seq!['"', ':'] + spec_render(fs[i as int].1));
                    if i == 0 {
                        assert(spec_render_obj(fs, 1) == spec_render_member(fs[0]));
                    } else {
                        assert(spec_render_obj(fs, i + 1) == spec_render_obj(fs, i as int)
                            + seq![','] + spec_render_member(fs[i as int]));
                    }
                    assert(out@ =~= old(out)@ + seq!['{'] + spec_render_obj(fs, i + 1));
                }
                i = i + 1;
            }
            out.push('}');
            proof {
                assert(out@ =~= old(out)@ + spec_render(jview(*v)));
            }
        },
    }
}

/// The JSON text of the document `v`, as a string.
pub fn render(v: &JsonValue) -> (s: String)
    ensures
        s@ == spec_render(v@),
{
    let mut out: Vec<char> = Vec::new();
    render_into(v, &mut out);
    chars_to_string(out)
}

/// The escaped form of a non-empty string starts with its first character's
/// escape.
pub proof fn lemma_escape_cons(t: Seq<char>)
    requires
        t.len() > 0,
    ensures
        spec_escape(t) == spec_escape_char(t[0]) + spec_escape(t.drop_first()),
{
    lemma_escape_prefix_cons(t, t.len() as int);
}

proof fn lemma_escape_prefix_cons(t: Seq<char>, k: int)
    requires
        1 <= k <= t.len(),
    ensures
        spec_escape_prefix(t, k) == spec_escape_char(t[0]) + spec_escape_prefix(
            t.drop_first(),
            k - 1,
        ),
    decreases k,
{
    reveal_with_fuel(spec_escape_prefix, 3);
    if k == 1 {
        assert(spec_escape_prefix(t, 1) =~= spec_escape_char(t[0]) + spec_escape_prefix(
            t.drop_first(),
            0,
        ));
    } else {
        lemma_escape_prefix_cons(t, k - 1);
        assert(t[k - 1] == t.drop_first()[k - 2]);
        assert((spec_escape_char(t[0]) + spec_escape_prefix(t.drop_first(), k - 2))
            + spec_escape_char(t.drop_first()[k - 2]) =~= spec_escape_char(t[0])
            + spec_escape_prefix(t.drop_first(), k - 1));
    }
}

} // verus!
