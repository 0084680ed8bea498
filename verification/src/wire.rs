//! The wire contract: how payloads appear as JSON documents, and how such a
//! document is read back.
//!
//! `spec_wire_text` / `spec_wire_html` state the exact document a payload
//! serializes to; `spec_text_of_wire` / `spec_html_of_wire` state the exact
//! payload a document decodes to (fields are found by key, unknown keys are
//! ignored, required keys must be present). The round-trip lemmas prove that
//! decoding inverts serialization for every payload.

use vstd::prelude::*;
use crate::json::{jview, jfields_from, jviews_from, lemma_jfields_from, lemma_jviews_from, JVal,
    JsonValue};
use crate::{Attachment, AttachmentView, MailHtml, MailHtmlView, MailText, MailTextView};

verus! {

/// The JSON document of one attachment: its bytes as an array of numbers,
/// its filename as a string.
pub open spec fn spec_wire_attachment(a: AttachmentView) -> JVal {
    JVal::Obj(
        seq![
            ("content"@, JVal::Arr(a.content.map_values(|b: u8| JVal::Num(b as u64)))),
            ("filename"@, JVal::Str(a.filename)),
        ],
    )
}

/// An array of strings as a JSON document.
pub open spec fn spec_wire_str_arr(ss: Seq<Seq<char>>) -> JVal {
    JVal::Arr(ss.map_values(|s: Seq<char>| JVal::Str(s)))
}

/// The members every text email serializes to, in order.
pub open spec fn text_base_fields(m: MailTextView) -> Seq<(Seq<char>, JVal)> {
    seq![
        ("from"@, JVal::Str(m.from)),
        ("to"@, spec_wire_str_arr(m.to)),
        ("subject"@, JVal::Str(m.subject)),
        ("text"@, JVal::Str(m.text)),
    ]
}

/// The JSON document a text email serializes to. The `attachments` key is
/// omitted entirely when the payload carries none.
pub open spec fn spec_wire_text(m: MailTextView) -> JVal {
    match m.attachments {
        None => JVal::Obj(text_base_fields(m)),
        Some(atts) => JVal::Obj(
            text_base_fields(m).push(
                ("attachments"@, JVal::Arr(atts.map_values(|a: AttachmentView| spec_wire_attachment(a)))),
            ),
        ),
    }
}

/// The members every HTML email serializes to, in order.
pub open spec fn html_base_fields(m: MailHtmlView) -> Seq<(Seq<char>, JVal)> {
    seq![
        ("from"@, JVal::Str(m.from)),
        ("to"@, spec_wire_str_arr(m.to)),
        ("subject"@, JVal::Str(m.subject)),
        ("html"@, JVal::Str(m.html)),
    ]
}

/// The JSON document an HTML email serializes to. The `attachments` key is
/// omitted entirely when the payload carries none.
pub open spec fn spec_wire_html(m: MailHtmlView) -> JVal {
    match m.attachments {
        None => JVal::Obj(html_base_fields(m)),
        Some(atts) => JVal::Obj(
            html_base_fields(m).push(
                ("attachments"@, JVal::Arr(atts.map_values(|a: AttachmentView| spec_wire_attachment(a)))),
            ),
        ),
    }
}

/// The value of the first member named `key` at or after index `i`.
pub open spec fn jlookup_from(fields: Seq<(Seq<char>, JVal)>, key: Seq<char>, i: int) -> Option<
    JVal,
>
    decreases fields.len() - i,
{
    if i < 0 || i >= fields.len() {
        None
    } else if fields[i].0 == key {
        Some(fields[i].1)
    } else {
        jlookup_from(fields, key, i + 1)
    }
}

/// The value of the first member named `key`, if any.
pub open spec fn jlookup(fields: Seq<(Seq<char>, JVal)>, key: Seq<char>) -> Option<JVal> {
    jlookup_from(fields, key, 0)
}

/// The strings of `items` from index `i` on; `None` if any element is not a
/// string.
pub open spec fn decode_strs_from(items: Seq<JVal>, i: int) -> Option<Seq<Seq<char>>>
    decreases items.len() - i,
{
    if i < 0 || i > items.len() {
        None
    } else if i == items.len() {
        Some(Seq::empty())
    } else {
        match items[i] {
            JVal::Str(s) => match decode_strs_from(items, i + 1) {
                Some(rest) => Some(seq![s] + rest),
                None => None,
            },
            _ => None,
        }
    }
}

/// The bytes of `items` from index `i` on; `None` if any element is not a
/// number below 256.
pub open spec fn decode_bytes_from(items: Seq<JVal>, i: int) -> Option<Seq<u8>>
    decreases items.len() - i,
{
    if i < 0 || i > items.len() {
        None
    } else if i == items.len() {
        Some(Seq::empty())
    } else {
        match items[i] {
            JVal::Num(n) => if n < 256 {
                match decode_bytes_from(items, i + 1) {
                    Some(rest) => Some(seq![n as u8] + rest),
                    None => None,
                }
            } else {
                None
            },
            _ => None,
        }
    }
}

/// The attachment a JSON document decodes to, if it is an object carrying a
/// `content` byte array and a `filename` string.
pub open spec fn spec_attachment_of(v: JVal) -> Option<AttachmentView> {
    match v {
        JVal::Obj(fields) => match (jlookup(fields, "content"@), jlookup(fields, "filename"@)) {
            (Some(JVal::Arr(items)), Some(JVal::Str(fname))) => match decode_bytes_from(
                items,
                0,
            ) {
                Some(bytes) => Some(AttachmentView { content: bytes, filename: fname }),
                None => None,
            },
            _ => None,
        },
        _ => None,
    }
}

/// The attachments of `items` from index `i` on; `None` if any element is
/// not an attachment document.
pub open spec fn decode_atts_from(items: Seq<JVal>, i: int) -> Option<Seq<AttachmentView>>
    decreases items.len() - i,
{
    if i < 0 || i > items.len() {
        None
    } else if i == items.len() {
        Some(Seq::empty())
    } else {
        match spec_attachment_of(items[i]) {
            Some(a) => match decode_atts_from(items, i + 1) {
                Some(rest) => Some(seq![a] + rest),
                None => None,
            },
            None => None,
        }
    }
}

/// The text email a JSON document decodes to: the document must be an
/// object; `from`, `to`, `subject` and `text` must be present with their
/// wire shapes; `attachments`, when present, must be an array of attachment
/// documents; unknown members are ignored.
pub open spec fn spec_text_of_wire(v: JVal) -> Option<MailTextView> {
    match v {
        JVal::Obj(fields) => match (
            jlookup(fields, "from"@),
            jlookup(fields, "to"@),
            jlookup(fields, "subject"@),
            jlookup(fields, "text"@),
        ) {
            (
                Some(JVal::Str(from)),
                Some(JVal::Arr(toitems)),
                Some(JVal::Str(subject)),
                Some(JVal::Str(text)),
            ) => match decode_strs_from(toitems, 0) {
                Some(to) => match jlookup(fields, "attachments"@) {
                    None => Some(MailTextView { from, to, subject, text, attachments: None }),
                    Some(JVal::Arr(aitems)) => match decode_atts_from(aitems, 0) {
                        Some(atts) => Some(
                            MailTextView { from, to, subject, text, attachments: Some(atts) },
                        ),
                        None => None,
                    },
                    Some(_) => None,
                },
                None => None,
            },
            _ => None,
        },
        _ => None,
    }
}

/// The HTML email a JSON document decodes to; as `spec_text_of_wire`, with
/// `html` in place of `text`.
pub open spec fn spec_html_of_wire(v: JVal) -> Option<MailHtmlView> {
    match v {
        JVal::Obj(fields) => match (
            jlookup(fields, "from"@),
            jlookup(fields, "to"@),
            jlookup(fields, "subject"@),
            jlookup(fields, "html"@),
        ) {
            (
                Some(JVal::Str(from)),
                Some(JVal::Arr(toitems)),
                Some(JVal::Str(subject)),
                Some(JVal::Str(html)),
            ) => match decode_strs_from(toitems, 0) {
                Some(to) => match jlookup(fields, "attachments"@) {
                    None => Some(MailHtmlView { from, to, subject, html, attachments: None }),
                    Some(JVal::Arr(aitems)) => match decode_atts_from(aitems, 0) {
                        Some(atts) => Some(
                            MailHtmlView { from, to, subject, html, attachments: Some(atts) },
                        ),
                        None => None,
                    },
                    Some(_) => None,
                },
                None => None,
            },
            _ => None,
        },
        _ => None,
    }
}

proof fn lemma_decode_strs(ss: Seq<Seq<char>>, i: int)
    requires
        0 <= i <= ss.len(),
    ensures
        decode_strs_from(ss.map_values(|s: Seq<char>| JVal::Str(s)), i) == Some(ss.skip(i)),
    decreases ss.len() - i,
{
    let mapped = ss.map_values(|s: Seq<char>| JVal::Str(s));
    if i == ss.len() {
        assert(ss.skip(i) =~= Seq::<Seq<char>>::empty());
    } else {
        lemma_decode_strs(ss, i + 1);
        assert(mapped[i] == JVal::Str(ss[i]));
        assert(seq![ss[i]] + ss.skip(i + 1) =~= ss.skip(i));
    }
}

proof fn lemma_decode_bytes(bs: Seq<u8>, i: int)
    requires
        0 <= i <= bs.len(),
    ensures
        decode_bytes_from(bs.map_values(|b: u8| JVal::Num(b as u64)), i) == Some(bs.skip(i)),
    decreases bs.len() - i,
{
    let mapped = bs.map_values(|b: u8| JVal::Num(b as u64));
    if i == bs.len() {
        assert(bs.skip(i) =~= Seq::<u8>::empty());
    } else {
        lemma_decode_bytes(bs, i + 1);
        assert(mapped[i] == JVal::Num(bs[i] as u64));
        assert(seq![bs[i]] + bs.skip(i + 1) =~= bs.skip(i));
    }
}

/// Decoding inverts serialization for a single attachment.
proof fn lemma_attachment_round_trip(a: AttachmentView)
    ensures
        spec_attachment_of(spec_wire_attachment(a)) == Some(a),
{
    reveal_with_fuel(jlookup_from, 4);
    reveal_strlit("content");
    reveal_strlit("filename");
    assert("content"@.len() == 7);
    assert("filename"@.len() == 8);
    lemma_decode_bytes(a.content, 0);
    assert(a.content.skip(0) =~= a.content);
}

proof fn lemma_decode_atts(atts: Seq<AttachmentView>, i: int)
    requires
        0 <= i <= atts.len(),
    ensures
        decode_atts_from(atts.map_values(|a: AttachmentView| spec_wire_attachment(a)), i) == Some(
            atts.skip(i),
        ),
    decreases atts.len() - i,
{
    let mapped = atts.map_values(|a: AttachmentView| spec_wire_attachment(a));
    if i == atts.len() {
        assert(atts.skip(i) =~= Seq::<AttachmentView>::empty());
    } else {
        lemma_decode_atts(atts, i + 1);
        lemma_attachment_round_trip(atts[i]);
        assert(mapped[i] == spec_wire_attachment(atts[i]));
        assert(seq![atts[i]] + atts.skip(i + 1) =~= atts.skip(i));
    }
}

/// The five member names of the wire contract are pairwise distinct.
proof fn lemma_keys_distinct()
    ensures
        "from"@ != "to"@,
        "from"@ != "subject"@,
        "from"@ != "text"@,
        "from"@ != "html"@,
        "from"@ != "attachments"@,
        "to"@ != "subject"@,
        "to"@ != "text"@,
        "to"@ != "html"@,
        "to"@ != "attachments"@,
        "subject"@ != "text"@,
        "subject"@ != "html"@,
        "subject"@ != "attachments"@,
        "text"@ != "attachments"@,
        "html"@ != "attachments"@,
{
    reveal_strlit("from");
    reveal_strlit("to");
    reveal_strlit("subject");
    reveal_strlit("text");
    reveal_strlit("html");
    reveal_strlit("attachments");
    assert("from"@.len() == 4);
    assert("to"@.len() == 2);
    assert("subject"@.len() == 7);
    assert("text"@.len() == 4);
    assert("html"@.len() == 4);
    assert("attachments"@.len() == 11);
    assert("from"@[0] == 'f');
    assert("text"@[0] == 't');
    assert("html"@[0] == 'h');
}

/// Serialization followed by decoding reproduces every field of a text
/// email, for every payload.
pub proof fn lemma_text_round_trip(m: MailTextView)
    ensures
        spec_text_of_wire(spec_wire_text(m)) == Some(m),
{
    reveal_with_fuel(jlookup_from, 7);
    lemma_keys_distinct();
    lemma_decode_strs(m.to, 0);
    assert(m.to.skip(0) =~= m.to);
    match m.attachments {
        None => {
        },
        Some(atts) => {
            lemma_decode_atts(atts, 0);
            assert(atts.skip(0) =~= atts);
        },
    }
}

/// Serialization followed by decoding reproduces every field of an HTML
/// email, for every payload.
pub proof fn lemma_html_round_trip(m: MailHtmlView)
    ensures
        spec_html_of_wire(spec_wire_html(m)) == Some(m),
{
    reveal_with_fuel(jlookup_from, 7);
    lemma_keys_distinct();
    lemma_decode_strs(m.to, 0);
    assert(m.to.skip(0) =~= m.to);
    match m.attachments {
        None => {
        },
        Some(atts) => {
            lemma_decode_atts(atts, 0);
            assert(atts.skip(0) =~= atts);
        },
    }
}

/// A payload without attachments serializes to a document without an
/// `attachments` key at all, rather than to an empty or null member.
pub proof fn lemma_absent_attachments_key_omitted(m: MailTextView, h: MailHtmlView)
    requires
        m.attachments is None,
        h.attachments is None,
    ensures
        spec_wire_text(m)->Obj_0.len() == 4,
        jlookup(spec_wire_text(m)->Obj_0, "attachments"@) is None,
        spec_wire_html(h)->Obj_0.len() == 4,
        jlookup(spec_wire_html(h)->Obj_0, "attachments"@) is None,
{
    reveal_with_fuel(jlookup_from, 7);
    lemma_keys_distinct();
}

/// A payload that can be serialized to the service's wire form.
pub trait OutboundEmail {
    /// The JSON document this payload serializes to.
    spec fn wire_view(&self) -> JVal;

    /// Serializes this payload to its JSON document.
    fn to_wire(&self) -> (v: JsonValue)
        ensures
            v@ == self.wire_view(),
    ;
}

/// An array of strings as an executable JSON document.
fn strs_to_json(v: &Vec<String>) -> (r: JsonValue)
    ensures
        r@ == spec_wire_str_arr(v.deep_view()),
{
    let n = v.len();
    let mut items: Vec<JsonValue> = Vec::new();
    let mut i: usize = 0;
    while i < n
        invariant
            i <= n,
            n == v@.len(),
            items@.len() == i,
            forall|k: int| 0 <= k < i ==> items@[k] == JsonValue::Str(v@[k]),
        decreases n - i,
    {
        items.push(JsonValue::Str(v[i].clone()));
        i = i + 1;
    }
    let ghost gitems = items@;
    let r = JsonValue::Arr(items);
    proof {
        lemma_jviews_from(gitems, 0);
        assert forall|k: int| 0 <= k < n implies jviews_from(gitems, 0)[k] == JVal::Str(
            v.deep_view()[k],
        ) by {
            assert(jviews_from(gitems, 0)[k] == jview(gitems[k]));
            assert(gitems[k] == JsonValue::Str(v@[k]));
            assert(v.deep_view()[k] == v@[k]@);
        }
        assert(jviews_from(gitems, 0) =~= v.deep_view().map_values(|s: Seq<char>| JVal::Str(s)));
    }
    r
}

/// One attachment as an executable JSON document.
fn attachment_to_json(a: &Attachment) -> (r: JsonValue)
    ensures
        r@ == spec_wire_attachment(a@),
{
    let n = a.content.len();
    let mut nums: Vec<JsonValue> = Vec::new();
    let mut i: usize = 0;
    while i < n
        invariant
            i <= n,
            n == a.content@.len(),
            nums@.len() == i,
            forall|k: int| 0 <= k < i ==> nums@[k] == JsonValue::Num(a.content@[k] as u64),
        decreases n - i,
    {
        nums.push(JsonValue::Num(a.content[i] as u64));
        i = i + 1;
    }
    let ghost gnums = nums@;
    let arr = JsonValue::Arr(nums);
    proof {
        lemma_jviews_from(gnums, 0);
        assert forall|k: int| 0 <= k < n implies jviews_from(gnums, 0)[k] == JVal::Num(
            (a.content@[k] as u64),
        ) by {
            assert(jviews_from(gnums, 0)[k] == jview(gnums[k]));
        }
        assert(jviews_from(gnums, 0) =~= a.content@.map_values(|b: u8| JVal::Num(b as u64)));
    }
    let mut fields: Vec<(String, JsonValue)> = Vec::new();
    fields.push(("content".to_owned(), arr));
    fields.push(("filename".to_owned(), JsonValue::Str(a.filename.clone())));
    let ghost gf = fields@;
    let r = JsonValue::Obj(fields);
    proof {
        lemma_jfields_from(gf, 0);
        assert(jfields_from(gf, 0) =~= seq![
            ("content"@, JVal::Arr(a@.content.map_values(|b: u8| JVal::Num(b as u64)))),
            ("filename"@, JVal::Str(a@.filename)),
        ]);
    }
    r
}

/// A list of attachments as an executable JSON array.
fn attachments_to_json(atts: &Vec<Attachment>) -> (r: JsonValue)
    ensures
        r@ == JVal::Arr(
            atts.deep_view().map_values(|a: AttachmentView| spec_wire_attachment(a)),
        ),
{
    let n = atts.len();
    let mut items: Vec<JsonValue> = Vec::new();
    let mut i: usize = 0;
    while i < n
        invariant
            i <= n,
            n == atts@.len(),
            items@.len() == i,
            forall|k: int| 0 <= k < i ==> jview(#[trigger] items@[k]) == spec_wire_attachment(
                atts@[k]@,
            ),
        decreases n - i,
    {
        items.push(attachment_to_json(&atts[i]));
        i = i + 1;
    }
    let ghost gitems = items@;
    let r = JsonValue::Arr(items);
    proof {
        lemma_jviews_from(gitems, 0);
        assert forall|k: int| 0 <= k < n implies jviews_from(gitems, 0)[k] == spec_wire_attachment(
            atts.deep_view()[k],
        ) by {
            assert(jviews_from(gitems, 0)[k] == jview(gitems[k]));
            assert(atts.deep_view()[k] == atts@[k]@);
        }
        assert(jviews_from(gitems, 0) =~= atts.deep_view().map_values(
            |a: AttachmentView| spec_wire_attachment(a),
        ));
    }
    r
}

impl OutboundEmail for MailText {
    open spec fn wire_view(&self) -> JVal {
        spec_wire_text(self@)
    }

    fn to_wire(&self) -> (v: JsonValue) {
        let mut fields: Vec<(String, JsonValue)> = Vec::new();
        fields.push(("from".to_owned(), JsonValue::Str(self.from.clone())));
        fields.push(("to".to_owned(), strs_to_json(&self.to)));
        fields.push(("subject".to_owned(), JsonValue::Str(self.subject.clone())));
        fields.push(("text".to_owned(), JsonValue::Str(self.text.clone())));
        match &self.attachments {
            None => {},
            Some(atts) => {
                fields.push(("attachments".to_owned(), attachments_to_json(atts)));
            },
        }
        let ghost gf = fields@;
        let v = JsonValue::Obj(fields);
        proof {
            lemma_jfields_from(gf, 0);
            match self.attachments {
                None => {
                    assert(jfields_from(gf, 0) =~= text_base_fields(self@));
                },
                Some(_) => {
                    assert(jfields_from(gf, 0) =~= text_base_fields(self@).push(
                        ("attachments"@, JVal::Arr(
                            self@.attachments->Some_0.map_values(
                                |a: AttachmentView| spec_wire_attachment(a),
                            ),
                        )),
                    ));
                },
            }
        }
        v
    }
}

impl OutboundEmail for MailHtml {
    open spec fn wire_view(&self) -> JVal {
        spec_wire_html(self@)
    }

    fn to_wire(&self) -> (v: JsonValue) {
        let mut fields: Vec<(String, JsonValue)> = Vec::new();
        fields.push(("from".to_owned(), JsonValue::Str(self.from.clone())));
        fields.push(("to".to_owned(), strs_to_json(&self.to)));
        fields.push(("subject".to_owned(), JsonValue::Str(self.subject.clone())));
        fields.push(("html".to_owned(), JsonValue::Str(self.html.clone())));
        match &self.attachments {
            None => {},
            Some(atts) => {
                fields.push(("attachments".to_owned(), attachments_to_json(atts)));
            },
        }
        let ghost gf = fields@;
        let v = JsonValue::Obj(fields);
        proof {
            lemma_jfields_from(gf, 0);
            match self.attachments {
                None => {
                    assert(jfields_from(gf, 0) =~= html_base_fields(self@));
                },
                Some(_) => {
                    assert(jfields_from(gf, 0) =~= html_base_fields(self@).push(
                        ("attachments"@, JVal::Arr(
                            self@.attachments->Some_0.map_values(
                                |a: AttachmentView| spec_wire_attachment(a),
                            ),
                        )),
                    ));
                },
            }
        }
        v
    }
}

/// The first member of `fields` named `key`, if any.
fn lookup<'a>(fields: &'a Vec<(String, JsonValue)>, key: &String) -> (r: Option<&'a JsonValue>)
    ensures
        (match r {
            Some(x) => jlookup(jfields_from(fields@, 0), key@) == Some(x@),
            None => jlookup(jfields_from(fields@, 0), key@) is None,
        }),
{
    proof {
        lemma_jfields_from(fields@, 0);
    }
    let ghost fs = jfields_from(fields@, 0);
    let n = fields.len();
    let mut i: usize = 0;
    while i < n
        invariant
            i <= n,
            n == fields@.len(),
            fs == jfields_from(fields@, 0),
            fs.len() == n,
            forall|k: int| 0 <= k < n ==> fs[k] == (fields@[k].0@, jview(fields@[k].1)),
            jlookup_from(fs, key@, 0) == jlookup_from(fs, key@, i as int),
        decreases n - i,
    {
        let p = &fields[i];
        if p.0 == *key {
            return Some(&p.1);
        }
        i = i + 1;
    }
    None
}

/// Reads an array of strings back from JSON elements.
fn strs_of_json(items: &Vec<JsonValue>) -> (r: Option<Vec<String>>)
    ensures
        (match r {
            Some(out) => decode_strs_from(jviews_from(items@, 0), 0) == Some(out.deep_view()),
            None => decode_strs_from(jviews_from(items@, 0), 0) is None,
        }),
{
    proof {
        lemma_jviews_from(items@, 0);
    }
    let ghost vs = jviews_from(items@, 0);
    let n = items.len();
    let mut out: Vec<String> = Vec::new();
    let mut i: usize = 0;
    while i < n
        invariant
            i <= n,
            n == items@.len(),
            vs == jviews_from(items@, 0),
            vs.len() == n,
            forall|k: int| 0 <= k < n ==> vs[k] == jview(#[trigger] items@[k]),
            decode_strs_from(vs, 0) == (match decode_strs_from(vs, i as int) {
                Some(rest) => Some(out.deep_view() + rest),
                None => None::<Seq<Seq<char>>>,
            }),
        decreases n - i,
    {
        match &items[i] {
            JsonValue::Str(s) => {
                let ghost dv0 = out.deep_view();
                out.push(s.clone());
                proof {
                    assert(out.deep_view() =~= dv0.push(s@));
                    if let Some(rest2) = decode_strs_from(vs, i + 1) {
                        assert(out.deep_view() + rest2 =~= dv0 + (seq![s@] + rest2));
                    }
                }
            },
            _ => {
                proof {
                    assert(!(vs[i as int] is Str));
                }
                return None;
            },
        }
        i = i + 1;
    }
    proof {
        assert(out.deep_view() + Seq::<Seq<char>>::empty() =~= out.deep_view());
    }
    Some(out)
}

/// Reads a byte array back from JSON elements.
fn bytes_of_json(items: &Vec<JsonValue>) -> (r: Option<Vec<u8>>)
    ensures
        (match r {
            Some(out) => decode_bytes_from(jviews_from(items@, 0), 0) == Some(out@),
            None => decode_bytes_from(jviews_from(items@, 0), 0) is None,
        }),
{
    proof {
        lemma_jviews_from(items@, 0);
    }
    let ghost vs = jviews_from(items@, 0);
    let n = items.len();
    let mut out: Vec<u8> = Vec::new();
    let mut i: usize = 0;
    while i < n
        invariant
            i <= n,
            n == items@.len(),
            vs == jviews_from(items@, 0),
            vs.len() == n,
            forall|k: int| 0 <= k < n ==> vs[k] == jview(#[trigger] items@[k]),
            decode_bytes_from(vs, 0) == (match decode_bytes_from(vs, i as int) {
                Some(rest) => Some(out@ + rest),
                None => None::<Seq<u8>>,
            }),
        decreases n - i,
    {
        match &items[i] {
            JsonValue::Num(b) => {
                if *b < 256 {
                    let ghost o0 = out@;
                    out.push(*b as u8);
                    proof {
                        if let Some(rest2) = decode_bytes_from(vs, i + 1) {
                            assert(out@ + rest2 =~= o0 + (seq![(*b) as u8] + rest2));
                        }
                    }
                } else {
                    return None;
                }
            },
            _ => {
                proof {
                    assert(!(vs[i as int] is Num));
                }
                return None;
            },
        }
        i = i + 1;
    }
    proof {
        assert(out@ + Seq::<u8>::empty() =~= out@);
    }
    Some(out)
}

/// Reads one attachment back from its JSON document.
fn attachment_of_json(v: &JsonValue) -> (r: Option<Attachment>)
    ensures
        (match (r, spec_attachment_of(v@)) {
            (Some(a), Some(av)) => a@ == av,
            (None, None) => true,
            _ => false,
        }),
{
    match v {
        JsonValue::Obj(fields) => {
            match lookup(fields, &"content".to_owned()) {
                Some(JsonValue::Arr(items)) => {
                    match lookup(fields, &"filename".to_owned()) {
                        Some(JsonValue::Str(fname)) => {
                            match bytes_of_json(items) {
                                Some(bytes) => Some(
                                    Attachment { content: bytes, filename: fname.clone() },
                                ),
                                None => None,
                            }
                        },
                        Some(_) => None,
                        None => None,
                    }
                },
                Some(_) => None,
                None => None,
            }
        },
        _ => None,
    }
}

/// Reads a list of attachments back from JSON elements.
fn atts_of_json(items: &Vec<JsonValue>) -> (r: Option<Vec<Attachment>>)
    ensures
        (match r {
            Some(out) => decode_atts_from(jviews_from(items@, 0), 0) == Some(out.deep_view()),
            None => decode_atts_from(jviews_from(items@, 0), 0) is None,
        }),
{
    proof {
        lemma_jviews_from(items@, 0);
    }
    let ghost vs = jviews_from(items@, 0);
    let n = items.len();
    let mut out: Vec<Attachment> = Vec::new();
    let mut i: usize = 0;
    while i < n
        invariant
            i <= n,
            n == items@.len(),
            vs == jviews_from(items@, 0),
            vs.len() == n,
            forall|k: int| 0 <= k < n ==> vs[k] == jview(#[trigger] items@[k]),
            decode_atts_from(vs, 0) == (match decode_atts_from(vs, i as int) {
                Some(rest) => Some(out.deep_view() + rest),
                None => None::<Seq<AttachmentView>>,
            }),
        decreases n - i,
    {
        match attachment_of_json(&items[i]) {
            Some(a) => {
                let ghost dv0 = out.deep_view();
                let ghost av = a@;
                out.push(a);
                proof {
                    assert(out.deep_view() =~= dv0.push(av));
                    if let Some(rest2) = decode_atts_from(vs, i + 1) {
                        assert(out.deep_view() + rest2 =~= dv0 + (seq![av] + rest2));
                    }
                }
            },
            None => {
                return None;
            },
        }
        i = i + 1;
    }
    proof {
        assert(out.deep_view() + Seq::<AttachmentView>::empty() =~= out.deep_view());
    }
    Some(out)
}

impl MailText {
    /// Reads a text email back from a JSON document: the exact inverse
    /// reading that `spec_text_of_wire` states.
    pub fn from_wire(v: &JsonValue) -> (r: Option<MailText>)
        ensures
            (match (r, spec_text_of_wire(v@)) {
                (Some(m), Some(mv)) => m@ == mv,
                (None, None) => true,
                _ => false,
            }),
    {
        match v {
            JsonValue::Obj(fields) => {
                let from = match lookup(fields, &"from".to_owned()) {
                    Some(JsonValue::Str(s)) => s.clone(),
                    Some(_) => { return None; },
                    None => { return None; },
                };
                let toitems = match lookup(fields, &"to".to_owned()) {
                    Some(JsonValue::Arr(items)) => items,
                    Some(_) => { return None; },
                    None => { return None; },
                };
                let subject = match lookup(fields, &"subject".to_owned()) {
                    Some(JsonValue::Str(s)) => s.clone(),
                    Some(_) => { return None; },
                    None => { return None; },
                };
                let text = match lookup(fields, &"text".to_owned()) {
                    Some(JsonValue::Str(s)) => s.clone(),
                    Some(_) => { return None; },
                    None => { return None; },
                };
                let to = match strs_of_json(toitems) {
                    Some(out) => out,
                    None => { return None; },
                };
                let attachments = match lookup(fields, &"attachments".to_owned()) {
                    None => None,
                    Some(JsonValue::Arr(aitems)) => match atts_of_json(aitems) {
                        Some(atts) => Some(atts),
                        None => { return None; },
                    },
                    Some(_) => { return None; },
                };
                Some(MailText { from, to, subject, text, attachments })
            },
            _ => None,
        }
    }
}

impl MailHtml {
    /// Reads an HTML email back from a JSON document: the exact inverse
    /// reading that `spec_html_of_wire` states.
    pub fn from_wire(v: &JsonValue) -> (r: Option<MailHtml>)
        ensures
            (match (r, spec_html_of_wire(v@)) {
                (Some(m), Some(mv)) => m@ == mv,
                (None, None) => true,
                _ => false,
            }),
    {
        match v {
            JsonValue::Obj(fields) => {
                let from = match lookup(fields, &"from".to_owned()) {
                    Some(JsonValue::Str(s)) => s.clone(),
                    Some(_) => { return None; },
                    None => { return None; },
                };
                let toitems = match lookup(fields, &"to".to_owned()) {
                    Some(JsonValue::Arr(items)) => items,
                    Some(_) => { return None; },
                    None => { return None; },
                };
                let subject = match lookup(fields, &"subject".to_owned()) {
                    Some(JsonValue::Str(s)) => s.clone(),
                    Some(_) => { return None; },
                    None => { return None; },
                };
                let html = match lookup(fields, &"html".to_owned()) {
                    Some(JsonValue::Str(s)) => s.clone(),
                    Some(_) => { return None; },
                    None => { return None; },
                };
                let to = match strs_of_json(toitems) {
                    Some(out) => out,
                    None => { return None; },
                };
                let attachments = match lookup(fields, &"attachments".to_owned()) {
                    None => None,
                    Some(JsonValue::Arr(aitems)) => match atts_of_json(aitems) {
                        Some(atts) => Some(atts),
                        None => { return None; },
                    },
                    Some(_) => { return None; },
                };
                Some(MailHtml { from, to, subject, html, attachments })
            },
            _ => None,
        }
    }
}

} // verus!
