//! The schema-light structured values that flow between the pipeline's
//! stages, with a renderer to their textual form and the trusted parsers
//! that produce them from document text.

use vstd::prelude::*;

verus! {

/// A structured (JSON-like) value. The shape of the data the generative
/// service returns is decided at run time, so the stages exchange this
/// tagged dynamic value rather than a fixed record.
#[derive(Debug)]
pub enum JsonValue {
    Null,
    Bool(bool),
    /// A number, kept in the textual form it had in the document.
    Number(String),
    Text(String),
    Array(Vec<JsonValue>),
    /// An object's key/value pairs, in document order.
    Object(Vec<(String, JsonValue)>),
}

/// The first value bound to `key` among `pairs`, if any.
pub open spec fn spec_lookup(pairs: Seq<(String, JsonValue)>, key: Seq<char>) -> Option<JsonValue>
    decreases pairs.len(),
{
    if pairs.len() == 0 {
        None
    } else if pairs[0].0@ == key {
        Some(pairs[0].1)
    } else {
        spec_lookup(pairs.drop_first(), key)
    }
}

impl JsonValue {
    /// The value bound to `key` when `self` is an object that binds it.
    pub open spec fn spec_get(self, key: Seq<char>) -> Option<JsonValue> {
        match self {
            JsonValue::Object(pairs) => spec_lookup(pairs@, key),
            _ => None,
        }
    }

    /// The string under `key` when `self` is an object and that key holds text.
    pub open spec fn spec_get_text(self, key: Seq<char>) -> Option<Seq<char>> {
        match self.spec_get(key) {
            Some(JsonValue::Text(s)) => Some(s@),
            _ => None,
        }
    }

    /// Looks `key` up when `self` is an object; `None` on every other variant.
    pub fn get<'a>(&'a self, key: &str) -> (r: Option<&'a JsonValue>)
        ensures
            match r {
                Some(x) => self.spec_get(key@) == Some(*x),
                None => self.spec_get(key@) is None,
            },
    {
        match self {
            JsonValue::Object(pairs) => {
                let n = pairs.len();
                let mut i: usize = 0;
                proof {
                    assert(pairs@.skip(0) =~= pairs@);
                }
                while i < n
                    invariant
                        self is Object && self->Object_0 == *pairs,
                        n == pairs@.len(),
                        i <= n,
                        spec_lookup(pairs@, key@) == spec_lookup(pairs@.skip(i as int), key@),
                    decreases n - i,
                {
                    proof {
                        assert(pairs@.skip(i as int).drop_first() =~= pairs@.skip(i + 1));
                        assert(pairs@.skip(i as int)[0] == pairs@[i as int]);
                    }
                    if str_equal(pairs[i].0.as_str(), key) {
                        proof {
                            assert(pairs@.skip(i as int).len() > 0);
                            assert(spec_lookup(pairs@.skip(i as int), key@)
                                == Some(pairs@[i as int].1));
                        }
                        return Some(&pairs[i].1);
                    }
                    i = i + 1;
                }
                proof {
                    assert(pairs@.skip(n as int) =~= Seq::<(String, JsonValue)>::empty());
                }
                None
            },
            _ => None,
        }
    }

    /// The text held by `self` when it is the text variant.
    pub fn as_text<'a>(&'a self) -> (r: Option<&'a String>)
        ensures
            match r {
                Some(s) => self is Text && self->Text_0 == *s,
                None => !(self is Text),
            },
    {
        match self {
            JsonValue::Text(s) => Some(s),
            _ => None,
        }
    }
}

/// Whether two string slices hold the same characters.
pub fn str_equal(a: &str, b: &str) -> (r: bool)
    ensures
        r == (a@ == b@),
{
    let sa: String = a.to_owned();
    let sb: String = b.to_owned();
    sa == sb
}

/// The value a text parses to as JSON, when it parses at all. Whether a
/// text parses, and to what, depends on the text alone.
pub uninterp spec fn json_parse(s: Seq<char>) -> Option<JsonValue>;

/// The value a text parses to as YAML, when it parses at all. Whether a
/// text parses, and to what, depends on the text alone.
pub uninterp spec fn yaml_parse(s: Seq<char>) -> Option<JsonValue>;

/// Relies on serde_json::from_str: it parses the text as JSON, or fails on
/// every text that is not well-formed JSON.
#[verifier::external_body]
pub fn parse_json_text(raw: &str) -> (r: Option<JsonValue>)
    ensures
        r == json_parse(raw@),
{
    match serde_json::from_str::<serde_json::Value>(raw) {
        Ok(v) => Some(of_serde(v)),
        Err(_) => None,
    }
}

/// Relies on serde_yaml::from_str: it parses the text as YAML, or fails on
/// every text that is not a well-formed YAML document.
#[verifier::external_body]
pub fn parse_yaml_text(raw: &str) -> (r: Option<JsonValue>)
    ensures
        r == yaml_parse(raw@),
{
    match serde_yaml::from_str::<serde_json::Value>(raw) {
        Ok(v) => Some(of_serde(v)),
        Err(_) => None,
    }
}

/// The document value type of serde_json, declared so that the conversion
/// below may take it; values of it never reach verified code.
#[verifier::external_type_specification]
#[verifier::external_body]
pub struct ExSerdeValue(serde_json::Value);

/// Relies on serde_json::Value: the conversion half of the two parsers
/// above, one arm per variant of the parsed document value.
#[verifier::external_body]
fn of_serde(v: serde_json::Value) -> JsonValue {
    match v {
        serde_json::Value::Null => JsonValue::Null,
        serde_json::Value::Bool(b) => JsonValue::Bool(b),
        serde_json::Value::Number(n) => JsonValue::Number(n.to_string()),
        serde_json::Value::String(s) => JsonValue::Text(s),
        serde_json::Value::Array(a) => JsonValue::Array(a.into_iter().map(of_serde).collect()),
        serde_json::Value::Object(o) => JsonValue::Object(
            o.into_iter().map(|p| (p.0, of_serde(p.1))).collect(),
        ),
    }
}

/// Relies on String::push: it appends exactly the given character.
#[verifier::external_body]
pub fn push_char(s: &mut String, c: char)
    ensures
        final(s)@ == old(s)@.push(c),
{
    s.push(c);
}

/// Whether a character counts as whitespace when a reply is trimmed: the
/// characters with the Unicode white-space property.
pub open spec fn spec_is_whitespace(c: char) -> bool {
    let u = c as int;
    (9 <= u && u <= 13) || u == 0x20 || u == 0x85 || u == 0xA0 || u == 0x1680 || (0x2000 <= u
        && u <= 0x200A) || u == 0x2028 || u == 0x2029 || u == 0x202F || u == 0x205F || u == 0x3000
}

/// Whether a character counts as whitespace when a reply is trimmed.
pub fn is_whitespace_char(c: char) -> (r: bool)
    ensures
        r == spec_is_whitespace(c),
{
    let u = c as u32;
    (9 <= u && u <= 13) || u == 0x20 || u == 0x85 || u == 0xA0 || u == 0x1680 || (0x2000 <= u
        && u <= 0x200A) || u == 0x2028 || u == 0x2029 || u == 0x202F || u == 0x205F || u == 0x3000
}

/// The sequence with its leading whitespace removed.
pub open spec fn spec_trim_front(s: Seq<char>) -> Seq<char>
    decreases s.len(),
{
    if s.len() > 0 && spec_is_whitespace(s[0]) {
        spec_trim_front(s.drop_first())
    } else {
        s
    }
}

/// The sequence with its trailing whitespace removed.
pub open spec fn spec_trim_back(s: Seq<char>) -> Seq<char>
    decreases s.len(),
{
    if s.len() > 0 && spec_is_whitespace(s.last()) {
        spec_trim_back(s.drop_last())
    } else {
        s
    }
}

/// The sequence with its surrounding whitespace removed.
pub open spec fn spec_trim(s: Seq<char>) -> Seq<char> {
    spec_trim_back(spec_trim_front(s))
}

/// Removes surrounding whitespace from a text.
pub fn trim_text(s: &str) -> (r: String)
    ensures
        r@ == spec_trim(s@),
{
    let n = s.unicode_len();
    let mut start: usize = 0;
    proof {
        assert(s@.skip(0) =~= s@);
    }
    while start < n && is_whitespace_char(s.get_char(start))
        invariant
            n == s@.len(),
            start <= n,
            spec_trim_front(s@) == spec_trim_front(s@.skip(start as int)),
        decreases n - start,
    {
        proof {
            assert(s@.skip(start as int)[0] == s@[start as int]);
            assert(s@.skip(start as int).drop_first() =~= s@.skip(start + 1));
        }
        start = start + 1;
    }
    proof {
        if start < n {
            assert(s@.skip(start as int)[0] == s@[start as int]);
        }
        assert(spec_trim_front(s@) == s@.skip(start as int));
    }
    let mut end: usize = n;
    proof {
        assert(s@.subrange(start as int, end as int) =~= s@.skip(start as int));
    }
    while end > start && is_whitespace_char(s.get_char(end - 1))
        invariant
            n == s@.len(),
            start <= end <= n,
            spec_trim_back(s@.skip(start as int)) == spec_trim_back(
                s@.subrange(start as int, end as int),
            ),
        decreases end,
    {
        proof {
            assert(s@.subrange(start as int, end as int).last() == s@[end - 1]);
            assert(s@.subrange(start as int, end as int).drop_last() =~= s@.subrange(
                start as int,
                end - 1,
            ));
        }
        end = end - 1;
    }
    proof {
        if end > start {
            assert(s@.subrange(start as int, end as int).last() == s@[end - 1]);
        }
        assert(spec_trim_back(s@.subrange(start as int, end as int)) == s@.subrange(
            start as int,
            end as int,
        ));
    }
    let piece = s.substring_char(start, end);
    piece.to_owned()
}

/// The digit of one hexadecimal place.
pub open spec fn spec_hex_digit(n: int) -> char {
    if n == 0 {
        '0'
    } else if n == 1 {
        '1'
    } else if n == 2 {
        '2'
    } else if n == 3 {
        '3'
    } else if n == 4 {
        '4'
    } else if n == 5 {
        '5'
    } else if n == 6 {
        '6'
    } else if n == 7 {
        '7'
    } else if n == 8 {
        '8'
    } else if n == 9 {
        '9'
    } else if n == 10 {
        'a'
    } else if n == 11 {
        'b'
    } else if n == 12 {
        'c'
    } else if n == 13 {
        'd'
    } else if n == 14 {
        'e'
    } else {
        'f'
    }
}

/// The digit of one hexadecimal place.
fn hex_digit(n: u32) -> (r: char)
    requires
        n < 16,
    ensures
        r == spec_hex_digit(n as int),
{
    if n == 0 {
        '0'
    } else if n == 1 {
        '1'
    } else if n == 2 {
        '2'
    } else if n == 3 {
        '3'
    } else if n == 4 {
        '4'
    } else if n == 5 {
        '5'
    } else if n == 6 {
        '6'
    } else if n == 7 {
        '7'
    } else if n == 8 {
        '8'
    } else if n == 9 {
        '9'
    } else if n == 10 {
        'a'
    } else if n == 11 {
        'b'
    } else if n == 12 {
        'c'
    } else if n == 13 {
        'd'
    } else if n == 14 {
        'e'
    } else {
        'f'
    }
}

/// How one character is written inside a quoted string. Raw control
/// characters may not stand inside a quoted string, so every one is
/// escaped; the rest of the characters stand as themselves.
pub open spec fn spec_escape_char(c: char) -> Seq<char> {
    if c == '"' {
        seq!['\\', '"']
    } else if c == '\\' {
        seq!['\\', '\\']
    } else if c == '\n' {
        seq!['\\', 'n']
    } else if c == '\r' {
        seq!['\\', 'r']
    } else if c == '\t' {
        seq!['\\', 't']
    } else if (c as int) < 0x20 {
        seq!['\\', 'u', '0', '0', spec_hex_digit((c as int) / 16), spec_hex_digit(
            (c as int) % 16,
        )]
    } else {
        seq![c]
    }
}

/// A character sequence written inside a quoted string.
pub open spec fn spec_escape(s: Seq<char>) -> Seq<char>
    decreases s.len(),
{
    if s.len() == 0 {
        Seq::empty()
    } else {
        spec_escape_char(s[0]) + spec_escape(s.drop_first())
    }
}

pub proof fn lemma_escape_push(s: Seq<char>, c: char)
    ensures
        spec_escape(s.push(c)) == spec_escape(s) + spec_escape_char(c),
    decreases s.len(),
{
    if s.len() == 0 {
        assert(s.push(c)[0] == c);
        assert(s.push(c).drop_first() =~= Seq::<char>::empty());
        assert(spec_escape(Seq::<char>::empty()) == Seq::<char>::empty());
        assert(spec_escape(s.push(c)) == spec_escape_char(c) + Seq::<char>::empty());
        assert(spec_escape_char(c) + Seq::<char>::empty() =~= spec_escape_char(c));
        assert(spec_escape(s) + spec_escape_char(c) =~= spec_escape_char(c));
    } else {
        assert(s.push(c)[0] == s[0]);
        assert(s.push(c).drop_first() =~= s.drop_first().push(c));
        lemma_escape_push(s.drop_first(), c);
        assert(spec_escape(s.push(c)) == spec_escape_char(s[0]) + (spec_escape(s.drop_first())
            + spec_escape_char(c)));
        assert(spec_escape_char(s[0]) + (spec_escape(s.drop_first()) + spec_escape_char(c))
            =~= (spec_escape_char(s[0]) + spec_escape(s.drop_first())) + spec_escape_char(c));
    }
}

/// Appends to `out` the escaped form of `s`.
pub fn append_escaped(out: &mut String, s: &str)
    ensures
        final(out)@ == old(out)@ + spec_escape(s@),
{
    let n = s.unicode_len();
    let mut i: usize = 0;
    proof {
        assert(s@.take(0) =~= Seq::<char>::empty());
        assert(out@ =~= old(out)@ + spec_escape(s@.take(0)));
    }
    while i < n
        invariant
            n == s@.len(),
            i <= n,
            out@ == old(out)@ + spec_escape(s@.take(i as int)),
        decreases n - i,
    {
        let c = s.get_char(i);
        proof {
            lemma_escape_push(s@.take(i as int), s@[i as int]);
            assert(s@.take(i as int).push(s@[i as int]) =~= s@.take(i + 1));
        }
        if c == '"' {
            out.append("\\\"");
            proof {
                reveal_strlit("\\\"");
                assert("\\\""@ =~= spec_escape_char(c));
            }
        } else if c == '\\' {
            out.append("\\\\");
            proof {
                reveal_strlit("\\\\");
                assert("\\\\"@ =~= spec_escape_char(c));
            }
        } else if c == '\n' {
            out.append("\\n");
            proof {
                reveal_strlit("\\n");
                assert("\\n"@ =~= spec_escape_char(c));
            }
        } else if c == '\r' {
            out.append("\\r");
            proof {
                reveal_strlit("\\r");
                assert("\\r"@ =~= spec_escape_char(c));
            }
        } else if c == '\t' {
            out.append("\\t");
            proof {
                reveal_strlit("\\t");
                assert("\\t"@ =~= spec_escape_char(c));
            }
        } else if (c as u32) < 0x20 {
            let code = c as u32;
            out.append("\\u00");
            push_char(out, hex_digit(code / 16));
            push_char(out, hex_digit(code % 16));
            proof {
                reveal_strlit("\\u00");
                assert("\\u00"@ =~= seq!['\\', 'u', '0', '0']);
                assert(code as int == c as int);
                assert(seq!['\\', 'u', '0', '0'].push(spec_hex_digit((c as int) / 16)).push(
                    spec_hex_digit((c as int) % 16),
                ) =~= spec_escape_char(c));
            }
        } else {
            push_char(out, c);
            proof {
                assert(seq![c] =~= spec_escape_char(c));
            }
        }
        proof {
            assert(out@ =~= old(out)@ + spec_escape(s@.take(i + 1)));
        }
        i = i + 1;
    }
    proof {
        assert(s@.take(n as int) =~= s@);
    }
}

/// The textual form of a value.
pub open spec fn spec_render(v: JsonValue) -> Seq<char>
    decreases v,
{
    match v {
        JsonValue::Null => "null"@,
        JsonValue::Bool(b) => if b {
            "true"@
        } else {
            "false"@
        },
        JsonValue::Number(s) => s@,
        JsonValue::Text(s) => seq!['"'] + spec_escape(s@) + seq!['"'],
        JsonValue::Array(items) => seq!['['] + spec_render_items(items@) + seq![']'],
        JsonValue::Object(pairs) => seq!['{'] + spec_render_pairs(pairs@) + seq!['}'],
    }
}

/// The elements of an array, joined by commas.
pub open spec fn spec_render_items(items: Seq<JsonValue>) -> Seq<char>
    decreases items,
{
    if items.len() == 0 {
        Seq::empty()
    } else if items.len() == 1 {
        spec_render(items[0])
    } else {
        spec_render(items[0]) + seq![','] + spec_render_items(items.drop_first())
    }
}

/// One key/value pair of an object.
pub open spec fn spec_render_pair(p: (String, JsonValue)) -> Seq<char>
    decreases p,
{
    seq!['"'] + spec_escape(p.0@) + seq!['"', ':'] + spec_render(p.1)
}

/// The pairs of an object, joined by commas.
pub open spec fn spec_render_pairs(pairs: Seq<(String, JsonValue)>) -> Seq<char>
    decreases pairs,
{
    if pairs.len() == 0 {
        Seq::empty()
    } else if pairs.len() == 1 {
        spec_render_pair(pairs[0])
    } else {
        spec_render_pair(pairs[0]) + seq![','] + spec_render_pairs(pairs.drop_first())
    }
}

pub proof fn lemma_render_items_push(items: Seq<JsonValue>, v: JsonValue)
    requires
        items.len() > 0,
    ensures
        spec_render_items(items.push(v)) == spec_render_items(items) + seq![','] + spec_render(
            v,
        ),
    decreases items.len(),
{
    if items.len() == 1 {
        assert(items.push(v)[0] == items[0]);
        assert(items.push(v).drop_first() =~= seq![v]);
        assert(items.push(v).drop_first()[0] == v);
        assert(spec_render_items(seq![v]) == spec_render(v));
        assert(items.push(v).len() == 2);
        assert(spec_render_items(items.push(v)) == spec_render(items[0]) + seq![',']
            + spec_render(v));
    } else {
        assert(items.push(v)[0] == items[0]);
        assert(items.push(v).drop_first() =~= items.drop_first().push(v));
        lemma_render_items_push(items.drop_first(), v);
        assert(spec_render_items(items.push(v)) == spec_render(items[0]) + seq![',']
            + (spec_render_items(items.drop_first()) + seq![','] + spec_render(v)));
        assert(spec_render(items[0]) + seq![','] + (spec_render_items(items.drop_first())
            + seq![','] + spec_render(v)) =~= (spec_render(items[0]) + seq![',']
            + spec_render_items(items.drop_first())) + seq![','] + spec_render(v));
    }
}

pub proof fn lemma_render_pairs_push(pairs: Seq<(String, JsonValue)>, p: (String, JsonValue))
    requires
        pairs.len() > 0,
    ensures
        spec_render_pairs(pairs.push(p)) == spec_render_pairs(pairs) + seq![',']
            + spec_render_pair(p),
    decreases pairs.len(),
{
    if pairs.len() == 1 {
        assert(pairs.push(p)[0] == pairs[0]);
        assert(pairs.push(p).drop_first() =~= seq![p]);
        assert(pairs.push(p).drop_first()[0] == p);
        assert(spec_render_pairs(seq![p]) == spec_render_pair(p));
        assert(pairs.push(p).len() == 2);
        assert(spec_render_pairs(pairs.push(p)) == spec_render_pair(pairs[0]) + seq![',']
            + spec_render_pair(p));
    } else {
        assert(pairs.push(p)[0] == pairs[0]);
        assert(pairs.push(p).drop_first() =~= pairs.drop_first().push(p));
        lemma_render_pairs_push(pairs.drop_first(), p);
        assert(spec_render_pairs(pairs.push(p)) == spec_render_pair(pairs[0]) + seq![',']
            + (spec_render_pairs(pairs.drop_first()) + seq![','] + spec_render_pair(p)));
        assert(spec_render_pair(pairs[0]) + seq![','] + (spec_render_pairs(pairs.drop_first())
            + seq![','] + spec_render_pair(p)) =~= (spec_render_pair(pairs[0]) + seq![',']
            + spec_render_pairs(pairs.drop_first())) + seq![','] + spec_render_pair(p));
    }
}

impl JsonValue {
    /// Renders this value as structured text; the renderer is the record
    /// format the catalog stores endpoints in, and the form field values
    /// take inside prompts.
    #[verifier::loop_isolation(false)]
    pub fn render(&self) -> (r: String)
        ensures
            r@ == spec_render(*self),
        decreases *self,
    {
        match self {
            JsonValue::Null => "null".to_owned(),
            JsonValue::Bool(b) => if *b {
                "true".to_owned()
            } else {
                "false".to_owned()
            },
            JsonValue::Number(s) => s.clone(),
            JsonValue::Text(s) => {
                let mut out = String::new();
                push_char(&mut out, '"');
                append_escaped(&mut out, s.as_str());
                push_char(&mut out, '"');
                proof {
                    assert(out@ =~= spec_render(*self));
                }
                out
            },
            JsonValue::Array(items) => {
                let mut out = String::new();
                push_char(&mut out, '[');
                let n = items.len();
                let mut i: usize = 0;
                proof {
                    assert(items@.take(0) =~= Seq::<JsonValue>::empty());
                    assert(out@ =~= seq!['['] + spec_render_items(items@.take(0)));
                }
                while i < n
                    invariant
                        n == items@.len(),
                        i <= n,
                        out@ == seq!['['] + spec_render_items(items@.take(i as int)),
                    decreases n - i,
                {
                    if i > 0 {
                        push_char(&mut out, ',');
                    }
                    let piece = items[i].render();
                    out.append(piece.as_str());
                    proof {
                        assert(items@.take(i as int).push(items@[i as int]) =~= items@.take(
                            i + 1,
                        ));
                        if i > 0 {
                            lemma_render_items_push(items@.take(i as int), items@[i as int]);
                        }
                        assert(out@ =~= seq!['['] + spec_render_items(items@.take(i + 1)));
                    }
                    i = i + 1;
                }
                push_char(&mut out, ']');
                proof {
                    assert(items@.take(n as int) =~= items@);
                    assert(out@ =~= spec_render(*self));
                }
                out
            },
            JsonValue::Object(pairs) => {
                let mut out = String::new();
                push_char(&mut out, '{');
                let n = pairs.len();
                let mut i: usize = 0;
                proof {
                    assert(pairs@.take(0) =~= Seq::<(String, JsonValue)>::empty());
                    assert(out@ =~= seq!['{'] + spec_render_pairs(pairs@.take(0)));
                }
                while i < n
                    invariant
                        n == pairs@.len(),
                        i <= n,
                        out@ == seq!['{'] + spec_render_pairs(pairs@.take(i as int)),
                    decreases n - i,
                {
                    let ghost out0 = out@;
                    if i > 0 {
                        push_char(&mut out, ',');
                    }
                    push_char(&mut out, '"');
                    append_escaped(&mut out, pairs[i].0.as_str());
                    push_char(&mut out, '"');
                    push_char(&mut out, ':');
                    let piece = pairs[i].1.render();
                    out.append(piece.as_str());
                    proof {
                        assert(pairs@.take(i as int).push(pairs@[i as int]) =~= pairs@.take(
                            i + 1,
                        ));
                        if i > 0 {
                            assert(out@ =~= out0 + seq![','] + spec_render_pair(
                                pairs@[i as int],
                            ));
                            lemma_render_pairs_push(pairs@.take(i as int), pairs@[i as int]);
                        } else {
                            assert(out@ =~= out0 + spec_render_pair(pairs@[i as int]));
                            assert(pairs@.take(1)[0] == pairs@[0]);
                            assert(spec_render_pairs(pairs@.take(1)) == spec_render_pair(
                                pairs@[0],
                            ));
                        }
                        assert(out@ =~= seq!['{'] + spec_render_pairs(pairs@.take(i + 1)));
                    }
                    i = i + 1;
                }
                push_char(&mut out, '}');
                proof {
                    assert(pairs@.take(n as int) =~= pairs@);
                    assert(out@ =~= spec_render(*self));
                }
                out
            },
        }
    }
}

} // verus!
