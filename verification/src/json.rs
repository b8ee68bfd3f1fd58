//! JSON documents as plain data, read and written by `serde_json`.

use vstd::prelude::*;
use vstd::string::*;
use crate::text;
use crate::text::opt_view;

verus! {

/// A number of `serde_json`.
#[verifier::external_type_specification]
#[verifier::external_body]
pub struct ExJsonNumber(serde_json::Number);

/// A number in a document that `serde_json` read: the number itself, and the text
/// that it prints for it. `1e2` in a document has the text `100.0`.
#[derive(Debug)]
pub struct JsonNumber {
    text: String,
    number: serde_json::Number,
}

impl View for JsonNumber {
    type V = Seq<char>;

    closed spec fn view(&self) -> Seq<char> {
        self.text@
    }
}

impl JsonNumber {
    /// The text of the number.
    pub fn text(&self) -> (r: &str)
        ensures
            r@ == self@,
    {
        self.text.as_str()
    }
}

/// A JSON document.
#[derive(Debug)]
pub enum Json {
    Null,
    Bool(bool),
    Number(JsonNumber),
    Text(String),
    Array(Vec<Json>),
    Object(Vec<(String, Json)>),
}

/// The contents of a `Json`.
#[verifier::ext_equal]
pub enum JsonView {
    Null,
    Bool(bool),
    Number(Seq<char>),
    Text(Seq<char>),
    Array(Seq<JsonView>),
    Object(Seq<(Seq<char>, JsonView)>),
}

/// The contents of a document.
pub open spec fn json_view(j: Json) -> JsonView
    decreases j,
{
    match j {
        Json::Null => JsonView::Null,
        Json::Bool(b) => JsonView::Bool(b),
        Json::Number(n) => JsonView::Number(n@),
        Json::Text(s) => JsonView::Text(s@),
        Json::Array(a) => JsonView::Array(
            Seq::new(
                a@.len(),
                |i: int|
                    if 0 <= i < a@.len() {
                        json_view(a@[i])
                    } else {
                        arbitrary()
                    },
            ),
        ),
        Json::Object(fs) => JsonView::Object(
            Seq::new(
                fs@.len(),
                |i: int|
                    if 0 <= i < fs@.len() {
                        (fs@[i].0@, json_view(fs@[i].1))
                    } else {
                        arbitrary()
                    },
            ),
        ),
    }
}

impl View for Json {
    type V = JsonView;

    open spec fn view(&self) -> JsonView {
        json_view(*self)
    }
}

/// The contents of a list of documents.
pub open spec fn json_views(s: Seq<Json>) -> Seq<JsonView> {
    Seq::new(s.len(), |i: int| s[i]@)
}

/// The contents of the fields of an object.
pub open spec fn field_views(s: Seq<(String, Json)>) -> Seq<(Seq<char>, JsonView)> {
    Seq::new(s.len(), |i: int| (s[i].0@, s[i].1@))
}

/// The contents of an array or an object are those of its parts.
pub proof fn lemma_parts(j: Json)
    ensures
        j matches Json::Array(a) ==> j@ == JsonView::Array(json_views(a@)),
        j matches Json::Object(fs) ==> j@ == JsonView::Object(field_views(fs@)),
{
    match j {
        Json::Array(a) => {
            assert(j@->Array_0 =~= json_views(a@));
        },
        Json::Object(fs) => {
            assert(j@->Object_0 =~= field_views(fs@));
        },
        _ => {},
    }
}

/// The position of the first field with that name, or the length.
pub open spec fn field_index(fs: Seq<(Seq<char>, JsonView)>, key: Seq<char>) -> int
    decreases fs.len(),
{
    if fs.len() == 0 {
        0
    } else if fs[0].0 == key {
        0
    } else {
        1 + field_index(fs.skip(1), key)
    }
}

/// Before the first field with a name no field has it.
pub proof fn lemma_field_index(fs: Seq<(Seq<char>, JsonView)>, key: Seq<char>)
    ensures
        0 <= field_index(fs, key) <= fs.len(),
        field_index(fs, key) < fs.len() ==> fs[field_index(fs, key)].0 == key,
        forall|i: int| 0 <= i < field_index(fs, key) ==> (#[trigger] fs[i]).0 != key,
    decreases fs.len(),
{
    if fs.len() > 0 && fs[0].0 != key {
        let t = fs.skip(1);
        lemma_field_index(t, key);
        assert forall|i: int| 0 <= i < field_index(fs, key) implies (#[trigger] fs[i]).0 != key by {
            if i > 0 {
                assert(fs[i] == t[i - 1]);
            }
        }
    }
}

/// The text under a name, or the empty text where there is none.
pub open spec fn text_field(fs: Seq<(Seq<char>, JsonView)>, key: Seq<char>) -> Seq<char> {
    let i = field_index(fs, key);
    if i < fs.len() {
        match fs[i].1 {
            JsonView::Text(s) => s,
            _ => Seq::empty(),
        }
    } else {
        Seq::empty()
    }
}

/// The fields with one of them set.
pub open spec fn with_field(
    fs: Seq<(Seq<char>, JsonView)>,
    key: Seq<char>,
    v: JsonView,
) -> Seq<(Seq<char>, JsonView)> {
    let i = field_index(fs, key);
    if i < fs.len() {
        fs.update(i, (key, v))
    } else {
        fs.push((key, v))
    }
}

/// The position of the first field with that name, or the length.
pub fn find_field(fs: &Vec<(String, Json)>, key: &str) -> (r: usize)
    ensures
        r == field_index(field_views(fs@), key@),
        r <= fs@.len(),
{
    let ghost all = field_views(fs@);
    let mut i: usize = 0;
    assert(all.skip(0) =~= all);
    while i < fs.len()
        invariant
            i <= fs@.len(),
            all == field_views(fs@),
            field_index(all, key@) == i + field_index(all.skip(i as int), key@),
        decreases fs@.len() - i,
    {
        assert(all.skip(i as int)[0] == (fs@[i as int].0@, fs@[i as int].1@));
        assert(all.skip(i as int).skip(1) =~= all.skip(i + 1));
        if text::same(fs[i].0.as_str(), key) {
            return i;
        }
        i += 1;
    }
    assert(all.skip(i as int).len() == 0);
    i
}

/// The text under a name, or the empty text where there is none.
pub fn get_text(fs: &Vec<(String, Json)>, key: &str) -> (r: String)
    ensures
        r@ == text_field(field_views(fs@), key@),
{
    let i = find_field(fs, key);
    if i < fs.len() {
        match &fs[i].1 {
            Json::Text(s) => s.clone(),
            _ => String::new(),
        }
    } else {
        String::new()
    }
}

/// Sets the text under a name.
pub fn set_text(fs: &mut Vec<(String, Json)>, key: &str, value: &str)
    ensures
        field_views(final(fs)@) == with_field(
            field_views(old(fs)@),
            key@,
            JsonView::Text(value@),
        ),
{
    let ghost before = field_views(fs@);
    let i = find_field(fs, key);
    let field = (key.to_owned(), Json::Text(value.to_owned()));
    if i < fs.len() {
        let _ = fs.remove(i);
        fs.insert(i, field);
        assert(field_views(fs@) =~= before.update(i as int, (key@, JsonView::Text(value@))));
    } else {
        fs.push(field);
        assert(field_views(fs@) =~= before.push((key@, JsonView::Text(value@))));
    }
}

/// A JSON value of `serde_json`.
#[verifier::external_type_specification]
#[verifier::external_body]
pub struct ExJsonValue(serde_json::Value);

/// What `serde_json` reads out of a text; `None` where it is no JSON.
pub uninterp spec fn json_parsed(text: Seq<char>) -> Option<JsonView>;

/// What `serde_json` writes for a document, indented; `None` where it cannot.
pub uninterp spec fn json_printed(j: JsonView) -> Option<Seq<char>>;

/// Converts a `serde_json::Value` into a document, variant by variant. Nothing
/// is claimed of the result here.
#[verifier::external_body]
fn from_value(v: serde_json::Value) -> (r: Json) {
    match v {
        serde_json::Value::Null => Json::Null,
        serde_json::Value::Bool(b) => Json::Bool(b),
        serde_json::Value::Number(n) => Json::Number(
            JsonNumber { text: n.to_string(), number: n },
        ),
        serde_json::Value::String(s) => Json::Text(s),
        serde_json::Value::Array(a) => Json::Array(a.into_iter().map(from_value).collect()),
        serde_json::Value::Object(m) => Json::Object(
            m.into_iter().map(|(k, v)| (k, from_value(v))).collect(),
        ),
    }
}

/// Converts a document into a `serde_json::Value`, variant by variant; a number
/// is the one that was read. Nothing is claimed of the result here.
#[verifier::external_body]
fn to_value(j: &Json) -> (r: serde_json::Value) {
    match j {
        Json::Null => serde_json::Value::Null,
        Json::Bool(b) => serde_json::Value::Bool(*b),
        Json::Number(n) => serde_json::Value::Number(n.number.clone()),
        Json::Text(s) => serde_json::Value::String(s.clone()),
        Json::Array(a) => serde_json::Value::Array(a.iter().map(to_value).collect()),
        Json::Object(fs) => serde_json::Value::Object(
            fs.iter().map(|f| (f.0.clone(), to_value(&f.1))).collect(),
        ),
    }
}

/// `serde_json::from_str` reads a text as JSON; an error becomes `None`. What it
/// reads is a function of the text alone.
#[verifier::external_body]
pub(crate) fn parse(text: &str) -> (r: Option<Json>)
    ensures
        (match r {
            Some(j) => Some(j@),
            None => None,
        }) == json_parsed(text@),
{
    serde_json::from_str::<serde_json::Value>(text).ok().map(from_value)
}

/// `serde_json::to_string_pretty` writes a document with indentation; an error
/// becomes `None`. What it writes is a function of the document alone: a number
/// comes out of a document that was read, and two that have the same text are the
/// same number.
#[verifier::external_body]
pub(crate) fn print(j: &Json) -> (r: Option<String>)
    ensures
        opt_view(r) == json_printed(j@),
{
    serde_json::to_string_pretty(&to_value(j)).ok()
}

// ---------------------------------------------------------------- text as a literal

/// A character as it stands between the quotes of a JSON string.
pub open spec fn escaped_char(c: char) -> Seq<char> {
    if c == '"' || c == '\\' {
        seq!['\\', c]
    } else if c == '\u{8}' {
        seq!['\\', 'b']
    } else if c == '\u{c}' {
        seq!['\\', 'f']
    } else if c == '\n' {
        seq!['\\', 'n']
    } else if c == '\r' {
        seq!['\\', 'r']
    } else if c == '\t' {
        seq!['\\', 't']
    } else if (c as u32) < 32 {
        seq![
            '\\',
            'u',
            '0',
            '0',
            text::digit_char(c as int / 16),
            text::digit_char(c as int % 16),
        ]
    } else {
        seq![c]
    }
}

/// A text as it stands between the quotes of a JSON string.
pub open spec fn escaped(s: Seq<char>) -> Seq<char>
    decreases s.len(),
{
    if s.len() == 0 {
        Seq::empty()
    } else {
        escaped_char(s[0]) + escaped(s.skip(1))
    }
}

/// A text as a JSON string.
pub open spec fn json_literal(s: Seq<char>) -> Seq<char> {
    seq!['"'] + escaped(s) + seq!['"']
}

/// `serde_json::to_string` on a text writes it as a JSON string: in quotes, with
/// a backslash before quotes and backslashes, short escapes for the common
/// control characters, `\u` and four digits for the others, and anything else as
/// it is. It writes into memory, so it succeeds.
#[verifier::external_body]
pub(crate) fn literal(s: &str) -> (r: Option<String>)
    ensures
        opt_view(r) == Some(json_literal(s@)),
{
    serde_json::to_string(s).ok()
}

/// A text as a JSON string.
pub fn literal_of(s: &str) -> (r: String)
    ensures
        r@ == json_literal(s@),
{
    match literal(s) {
        Some(l) => l,
        None => String::new(),
    }
}

/// Where a string that began before `t` ends: at the first quote that no
/// backslash stands before.
pub open spec fn string_end(t: Seq<char>) -> int
    decreases t.len(),
{
    if t.len() == 0 || t[0] == '"' {
        0
    } else if t[0] == '\\' && t.len() >= 2 {
        2 + string_end(t.skip(2))
    } else {
        1 + string_end(t.skip(1))
    }
}

/// The value of a digit of a number written to base 16, in lower case.
pub open spec fn digit_value(c: char) -> int {
    if '0' <= c && c <= '9' {
        c as int - 48
    } else {
        c as int - 87
    }
}

/// What stands between the quotes of a JSON string, read back.
pub open spec fn unescaped(t: Seq<char>) -> Seq<char>
    decreases t.len(),
{
    if t.len() == 0 {
        Seq::empty()
    } else if t[0] != '\\' || t.len() < 2 {
        seq![t[0]] + unescaped(t.skip(1))
    } else if t[1] == 'u' && t.len() >= 6 {
        seq![(digit_value(t[4]) * 16 + digit_value(t[5])) as char] + unescaped(t.skip(6))
    } else {
        let c = if t[1] == 'b' {
            '\u{8}'
        } else if t[1] == 'f' {
            '\u{c}'
        } else if t[1] == 'n' {
            '\n'
        } else if t[1] == 'r' {
            '\r'
        } else if t[1] == 't' {
            '\t'
        } else {
            t[1]
        };
        seq![c] + unescaped(t.skip(2))
    }
}

proof fn lemma_plain(t: Seq<char>, rest: Seq<char>)
    requires
        forall|i: int| 0 <= i < t.len() ==> #[trigger] t[i] != '"' && t[i] != '\\',
    ensures
        string_end(t + rest) == t.len() + string_end(rest),
    decreases t.len(),
{
    if t.len() > 0 {
        assert((t + rest).skip(1) =~= t.skip(1) + rest);
        assert((t + rest)[0] == t[0]);
        lemma_plain(t.skip(1), rest);
    } else {
        assert(t + rest =~= rest);
    }
}

proof fn lemma_one(c: char, rest: Seq<char>)
    ensures
        string_end(escaped_char(c) + rest) == escaped_char(c).len() + string_end(rest),
        unescaped(escaped_char(c) + rest) == seq![c] + unescaped(rest),
{
    let e = escaped_char(c);
    let t = e + rest;
    assert(t[0] == e[0]);
    if e.len() == 1 {
        assert(t.skip(1) =~= rest);
    } else if e.len() == 2 {
        assert(t[1] == e[1]);
        assert(t.skip(2) =~= rest);
    } else {
        assert(t[1] == e[1]);
        assert(t[4] == e[4]);
        assert(t[5] == e[5]);
        assert(t.skip(6) =~= rest);
        assert(t.skip(2) =~= e.skip(2) + rest);
        assert forall|i: int| 0 <= i < e.skip(2).len() implies #[trigger] e.skip(2)[i] != '"'
            && e.skip(2)[i] != '\\' by {
            assert(e.skip(2)[i] == e[i + 2]);
        }
        lemma_plain(e.skip(2), rest);
        assert(0 <= c as int / 16 < 2);
        assert(digit_value(e[4]) * 16 + digit_value(e[5]) == c as int);
    }
}

/// A text written as a JSON string stays within its quotes, whatever it holds
/// and whatever follows, and reading the string gives the text back.
pub proof fn law_literal_holds_the_text(s: Seq<char>, rest: Seq<char>)
    ensures
        string_end(escaped(s) + seq!['"'] + rest) == escaped(s).len(),
        unescaped(escaped(s)) == s,
    decreases s.len(),
{
    let tail = seq!['"'] + rest;
    assert(escaped(s) + seq!['"'] + rest =~= escaped(s) + tail);
    if s.len() == 0 {
        assert(escaped(s) + tail =~= tail);
        assert(unescaped(escaped(s)) =~= s);
    } else {
        let more = escaped(s.skip(1));
        law_literal_holds_the_text(s.skip(1), rest);
        assert(more + seq!['"'] + rest =~= more + tail);
        lemma_one(s[0], more + tail);
        lemma_one(s[0], more);
        assert(escaped(s) + tail =~= escaped_char(s[0]) + (more + tail));
        assert(seq![s[0]] + s.skip(1) =~= s);
    }
}

/// The text under a name is that of the first field with the name, where it is a
/// text; where no field has the name it is empty.
pub proof fn law_text_of_the_first_field(fs: Seq<(Seq<char>, JsonView)>, key: Seq<char>, k: int)
    requires
        0 <= k <= fs.len(),
        forall|i: int| 0 <= i < k ==> (#[trigger] fs[i]).0 != key,
        k < fs.len() ==> fs[k].0 == key,
    ensures
        k < fs.len() && fs[k].1 is Text ==> text_field(fs, key) == fs[k].1->Text_0,
        k < fs.len() && !(fs[k].1 is Text) ==> text_field(fs, key).len() == 0,
        k == fs.len() ==> text_field(fs, key).len() == 0,
{
    lemma_first_field(fs, key, k);
}

proof fn lemma_first_field(fs: Seq<(Seq<char>, JsonView)>, key: Seq<char>, k: int)
    requires
        0 <= k <= fs.len(),
        forall|i: int| 0 <= i < k ==> (#[trigger] fs[i]).0 != key,
        k < fs.len() ==> fs[k].0 == key,
    ensures
        field_index(fs, key) == k,
{
    lemma_field_index(fs, key);
    let i = field_index(fs, key);
    if i < k {
        assert(fs[i].0 != key);
    }
    if k < i {
        assert(fs[k].0 != key);
    }
}

/// What is set under a name is read under it, and nothing else changes: every
/// other name reads as before, no field moves, and at most one comes, at the end.
pub proof fn law_what_is_set_is_read(
    fs: Seq<(Seq<char>, JsonView)>,
    key: Seq<char>,
    value: Seq<char>,
    other: Seq<char>,
    i: int,
)
    ensures
        ({
            let after = with_field(fs, key, JsonView::Text(value));
            &&& text_field(after, key) == value
            &&& other != key ==> text_field(after, other) == text_field(fs, other)
            &&& fs.len() <= after.len() <= fs.len() + 1
            &&& 0 <= i < fs.len() ==> after[i].0 == fs[i].0
            &&& 0 <= i < fs.len() && fs[i].0 != key ==> after[i] == fs[i]
            &&& 0 <= i < fs.len() && fs[i].0 == key ==> after.len() == fs.len()
        }),
{
    let v = JsonView::Text(value);
    let after = with_field(fs, key, v);
    lemma_field_index(fs, key);
    let k = field_index(fs, key);
    if 0 <= i < fs.len() && fs[i].0 == key && k == fs.len() {
        assert(fs[i].0 != key);
    }
    assert forall|j: int| 0 <= j < k implies (#[trigger] after[j]).0 != key by {
        assert(after[j] == fs[j]);
    }
    lemma_first_field(after, key, k);
    if other != key {
        lemma_field_index(fs, other);
        let o = field_index(fs, other);
        assert forall|j: int| 0 <= j < o implies (#[trigger] after[j]).0 != other by {
            if j < fs.len() {
                assert(after[j].0 == fs[j].0);
            }
        }
        if o < fs.len() {
            assert(after[o] == fs[o]);
            lemma_first_field(after, other, o);
        } else {
            assert forall|j: int| 0 <= j < after.len() implies (#[trigger] after[j]).0 != other by {
                if j < fs.len() {
                    assert(after[j].0 == fs[j].0);
                }
            }
            lemma_first_field(after, other, after.len() as int);
        }
    }
}

/// Each character of a text is written for itself: a quote, a backslash and the
/// controls with a backslash, anything else as it is.
pub proof fn law_escapes(a: Seq<char>, b: Seq<char>, c: char)
    ensures
        escaped(Seq::empty()) == Seq::<char>::empty(),
        escaped(a + b) == escaped(a) + escaped(b),
        c as int >= 0x20 && c != '"' && c != '\\' ==> escaped(seq![c]) == seq![c],
        escaped(seq!['"']) == seq!['\\', '"'],
        escaped(seq!['\\']) == seq!['\\', '\\'],
        escaped(seq!['\n']) == seq!['\\', 'n'],
        escaped(seq!['\r']) == seq!['\\', 'r'],
        escaped(seq!['\t']) == seq!['\\', 't'],
        json_literal(a)[0] == '"' && json_literal(a).last() == '"',
        json_literal(a).subrange(1, json_literal(a).len() - 1) == escaped(a),
    decreases a.len(),
{
    assert(json_literal(a).subrange(1, json_literal(a).len() - 1) =~= escaped(a));
    lemma_escaped_one(c);
    lemma_escaped_one('"');
    lemma_escaped_one('\\');
    lemma_escaped_one('\n');
    lemma_escaped_one('\r');
    lemma_escaped_one('\t');
    if a.len() == 0 {
        assert(a + b =~= b);
        assert(escaped(a) + escaped(b) =~= escaped(b));
    } else {
        law_escapes(a.skip(1), b, c);
        assert((a + b).skip(1) =~= a.skip(1) + b);
        assert((a + b)[0] == a[0]);
        assert(escaped(a + b) =~= escaped(a) + escaped(b));
    }
}

proof fn lemma_escaped_one(c: char)
    ensures
        escaped(seq![c]) == escaped_char(c),
{
    assert(seq![c].skip(1) =~= Seq::empty());
    assert(escaped(Seq::empty()) =~= Seq::<char>::empty());
    assert(escaped(seq![c]) =~= escaped_char(c));
}

} // verus!
