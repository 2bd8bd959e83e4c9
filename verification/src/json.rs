//! JSON documents as plain values: what the reference parsers read.
use vstd::prelude::*;
use vstd::string::*;
use vstd::utf8::*;

verus! {

/// A parsed JSON value.
#[derive(Debug)]
pub enum Json {
    Null,
    Bool(bool),
    /// A number, as far as it is an unsigned or a signed 64-bit integer.
    Num(Option<u64>, Option<i64>),
    Str(String),
    Arr(Vec<Json>),
    /// The members of an object, each key once.
    Obj(Vec<(String, Json)>),
}

/// The mathematical form of a [`Json`] value.
pub enum JsonValue {
    Null,
    Bool(bool),
    Num(Option<u64>, Option<i64>),
    Str(Seq<char>),
    Arr(Seq<JsonValue>),
    Obj(Seq<(Seq<char>, JsonValue)>),
}

impl Json {
    /// The value that this stands for.
    pub open spec fn view(&self) -> JsonValue
        decreases self,
    {
        match self {
            Json::Null => JsonValue::Null,
            Json::Bool(b) => JsonValue::Bool(*b),
            Json::Num(u, i) => JsonValue::Num(*u, *i),
            Json::Str(s) => JsonValue::Str(s@),
            Json::Arr(v) => JsonValue::Arr(
                Seq::new(
                    v@.len(),
                    |i: int|
                        if 0 <= i < v@.len() {
                            v@[i].view()
                        } else {
                            JsonValue::Null
                        },
                ),
            ),
            Json::Obj(v) => JsonValue::Obj(
                Seq::new(
                    v@.len(),
                    |i: int|
                        if 0 <= i < v@.len() {
                            (v@[i].0@, v@[i].1.view())
                        } else {
                            (Seq::empty(), JsonValue::Null)
                        },
                ),
            ),
        }
    }
}

/// The values that the items of `v` stand for.
pub open spec fn views(v: Seq<Json>) -> Seq<JsonValue> {
    Seq::new(v.len(), |i: int| v[i].view())
}

/// The members that the pairs `v` stand for.
pub open spec fn member_views(v: Seq<(String, Json)>) -> Seq<(Seq<char>, JsonValue)> {
    Seq::new(v.len(), |i: int| (v[i].0@, v[i].1.view()))
}

/// The member of `v` under `key`, if `v` is an object that has it.
pub open spec fn member(v: JsonValue, key: Seq<char>) -> Option<JsonValue> {
    match v {
        JsonValue::Obj(m) => member_in(m, key),
        _ => None,
    }
}

/// The first of the members `m` under `key`.
pub open spec fn member_in(m: Seq<(Seq<char>, JsonValue)>, key: Seq<char>) -> Option<JsonValue>
    decreases m.len(),
{
    if m.len() == 0 {
        None
    } else if m[0].0 == key {
        Some(m[0].1)
    } else {
        member_in(m.drop_first(), key)
    }
}

/// The number that JSON has for an unsigned integer.
pub open spec fn number(n: u64) -> JsonValue {
    JsonValue::Num(
        Some(n),
        if n <= i64::MAX {
            Some(n as i64)
        } else {
            None
        },
    )
}

/// The string that `v` is.
pub open spec fn str_of(v: JsonValue) -> Option<Seq<char>> {
    match v {
        JsonValue::Str(s) => Some(s),
        _ => None,
    }
}

/// The unsigned 64-bit integer that `v` is.
pub open spec fn u64_of(v: JsonValue) -> Option<u64> {
    match v {
        JsonValue::Num(u, _) => u,
        _ => None,
    }
}

/// The signed 64-bit integer that `v` is.
pub open spec fn i64_of(v: JsonValue) -> Option<i64> {
    match v {
        JsonValue::Num(_, i) => i,
        _ => None,
    }
}

/// The truth value that `v` is.
pub open spec fn bool_of(v: JsonValue) -> Option<bool> {
    match v {
        JsonValue::Bool(b) => Some(b),
        _ => None,
    }
}

/// The items of the array that `v` is.
pub open spec fn arr_of(v: JsonValue) -> Option<Seq<JsonValue>> {
    match v {
        JsonValue::Arr(a) => Some(a),
        _ => None,
    }
}

/// The string under `key`.
pub open spec fn str_member(v: JsonValue, key: Seq<char>) -> Option<Seq<char>> {
    match member(v, key) {
        Some(x) => str_of(x),
        None => None,
    }
}

/// The unsigned integer under `key`.
pub open spec fn u64_member(v: JsonValue, key: Seq<char>) -> Option<u64> {
    match member(v, key) {
        Some(x) => u64_of(x),
        None => None,
    }
}

/// The array under `key`.
pub open spec fn arr_member(v: JsonValue, key: Seq<char>) -> Option<Seq<JsonValue>> {
    match member(v, key) {
        Some(x) => arr_of(x),
        None => None,
    }
}

/// The member of a record: under `key` where the record is an object, and at
/// the place `at` where it is an array.
pub open spec fn field(v: JsonValue, key: Seq<char>, at: int) -> Option<JsonValue> {
    match v {
        JsonValue::Arr(a) => if 0 <= at < a.len() {
            Some(a[at])
        } else {
            None
        },
        _ => member(v, key),
    }
}

/// `v` is an object, or an array of at most `width` items.
pub open spec fn is_record(v: JsonValue, width: nat) -> bool {
    match v {
        JsonValue::Obj(_) => true,
        JsonValue::Arr(a) => a.len() <= width,
        _ => false,
    }
}

/// The string that a record has under `key` or at `at`.
pub open spec fn str_field(v: JsonValue, key: Seq<char>, at: int) -> Option<Seq<char>> {
    match field(v, key, at) {
        Some(x) => str_of(x),
        None => None,
    }
}

/// The unsigned integer that a record has under `key` or at `at`.
pub open spec fn u64_field(v: JsonValue, key: Seq<char>, at: int) -> Option<u64> {
    match field(v, key, at) {
        Some(x) => u64_of(x),
        None => None,
    }
}

/// The array that a record has under `key` or at `at`.
pub open spec fn arr_field(v: JsonValue, key: Seq<char>, at: int) -> Option<Seq<JsonValue>> {
    match field(v, key, at) {
        Some(x) => arr_of(x),
        None => None,
    }
}

/// Two characters sequences that encode alike are alike.
pub proof fn lemma_utf8_injective(a: Seq<char>, b: Seq<char>)
    requires
        encode_utf8(a) == encode_utf8(b),
    ensures
        a == b,
{
    encode_utf8_decode_utf8(a);
    encode_utf8_decode_utf8(b);
}

/// Two strings are equal.
pub fn same_str(a: &str, b: &str) -> (r: bool)
    ensures
        r == (a@ == b@),
{
    let r: bool = crate::text::same_bytes(a.as_bytes(), b.as_bytes());
    proof {
        if r {
            lemma_utf8_injective(a@, b@);
        }
    }
    r
}

impl Json {
    /// The member under `key`, if this is an object that has it.
    pub fn get(&self, key: &str) -> (r: Option<&Json>)
        ensures
            match r {
                Some(x) => member(self.view(), key@) == Some(x.view()),
                None => member(self.view(), key@) is None,
            },
    {
        match self {
            Json::Obj(v) => {
                let ghost m: Seq<(Seq<char>, JsonValue)> = self.view()->Obj_0;
                let mut i: usize = 0;
                assert(m.skip(0) =~= m);
                while i < v.len()
                    invariant
                        i <= v.len(),
                        self.view() == JsonValue::Obj(m),
                        m.len() == v@.len(),
                        forall|k: int|
                            0 <= k < m.len() ==> #[trigger] m[k] == (v@[k].0@, v@[k].1.view()),
                        member_in(m, key@) == member_in(m.skip(i as int), key@),
                    decreases v.len() - i,
                {
                    assert(m.skip(i as int)[0] == m[i as int]);
                    if same_str(v[i].0.as_str(), key) {
                        return Some(&v[i].1);
                    }
                    assert(m.skip(i as int).drop_first() =~= m.skip(i + 1));
                    i += 1;
                }
                None
            },
            _ => None,
        }
    }

    /// The members of the object that this is.
    pub fn as_obj(&self) -> (r: Option<&Vec<(String, Json)>>)
        ensures
            match r {
                Some(v) => self.view() == JsonValue::Obj(member_views(v@)),
                None => !(self.view() is Obj),
            },
    {
        match self {
            Json::Obj(v) => {
                assert(self.view()->Obj_0 =~= member_views(v@));
                Some(v)
            },
            _ => None,
        }
    }

    /// The string that this is.
    pub fn as_str(&self) -> (r: Option<&str>)
        ensures
            match r {
                Some(s) => str_of(self.view()) == Some(s@),
                None => str_of(self.view()) is None,
            },
    {
        match self {
            Json::Str(s) => Some(s.as_str()),
            _ => None,
        }
    }

    /// The unsigned 64-bit integer that this is.
    pub fn as_u64(&self) -> (r: Option<u64>)
        ensures
            r == u64_of(self.view()),
    {
        match self {
            Json::Num(u, _) => *u,
            _ => None,
        }
    }

    /// The signed 64-bit integer that this is.
    pub fn as_i64(&self) -> (r: Option<i64>)
        ensures
            r == i64_of(self.view()),
    {
        match self {
            Json::Num(_, i) => *i,
            _ => None,
        }
    }

    /// The truth value that this is.
    pub fn as_bool(&self) -> (r: Option<bool>)
        ensures
            r == bool_of(self.view()),
    {
        match self {
            Json::Bool(b) => Some(*b),
            _ => None,
        }
    }

    /// The items of the array that this is.
    pub fn as_arr(&self) -> (r: Option<&Vec<Json>>)
        ensures
            match r {
                Some(v) => arr_of(self.view()) == Some(views(v@)),
                None => arr_of(self.view()) is None,
            },
    {
        match self {
            Json::Arr(v) => {
                assert(self.view()->Arr_0 =~= views(v@));
                Some(v)
            },
            _ => None,
        }
    }

    /// The member of a record: under `key` of an object, at `at` of an array.
    pub fn field(&self, key: &str, at: usize) -> (r: Option<&Json>)
        ensures
            match r {
                Some(x) => field(self.view(), key@, at as int) == Some(x.view()),
                None => field(self.view(), key@, at as int) is None,
            },
    {
        match self {
            Json::Arr(v) => if at < v.len() {
                assert(self.view()->Arr_0[at as int] == v@[at as int].view());
                Some(&v[at])
            } else {
                None
            },
            _ => self.get(key),
        }
    }

    /// This is an object, or an array of at most `width` items.
    pub fn is_record(&self, width: usize) -> (r: bool)
        ensures
            r == is_record(self.view(), width as nat),
    {
        match self {
            Json::Obj(_) => true,
            Json::Arr(v) => v.len() <= width,
            _ => false,
        }
    }

    /// The string that a record has under `key` or at `at`.
    pub fn str_field(&self, key: &str, at: usize) -> (r: Option<&str>)
        ensures
            match r {
                Some(s) => str_field(self.view(), key@, at as int) == Some(s@),
                None => str_field(self.view(), key@, at as int) is None,
            },
    {
        match self.field(key, at) {
            Some(x) => x.as_str(),
            None => None,
        }
    }

    /// The unsigned integer that a record has under `key` or at `at`.
    pub fn u64_field(&self, key: &str, at: usize) -> (r: Option<u64>)
        ensures
            r == u64_field(self.view(), key@, at as int),
    {
        match self.field(key, at) {
            Some(x) => x.as_u64(),
            None => None,
        }
    }

    /// The array that a record has under `key` or at `at`.
    pub fn arr_field(&self, key: &str, at: usize) -> (r: Option<&Vec<Json>>)
        ensures
            match r {
                Some(v) => arr_field(self.view(), key@, at as int) == Some(views(v@)),
                None => arr_field(self.view(), key@, at as int) is None,
            },
    {
        match self.field(key, at) {
            Some(x) => x.as_arr(),
            None => None,
        }
    }

    /// The string under `key`.
    pub fn get_str(&self, key: &str) -> (r: Option<&str>)
        ensures
            match r {
                Some(s) => str_member(self.view(), key@) == Some(s@),
                None => str_member(self.view(), key@) is None,
            },
    {
        match self.get(key) {
            Some(x) => x.as_str(),
            None => None,
        }
    }

    /// The unsigned integer under `key`.
    pub fn get_u64(&self, key: &str) -> (r: Option<u64>)
        ensures
            r == u64_member(self.view(), key@),
    {
        match self.get(key) {
            Some(x) => x.as_u64(),
            None => None,
        }
    }

    /// The array under `key`.
    pub fn get_arr(&self, key: &str) -> (r: Option<&Vec<Json>>)
        ensures
            match r {
                Some(v) => arr_member(self.view(), key@) == Some(views(v@)),
                None => arr_member(self.view(), key@) is None,
            },
    {
        match self.get(key) {
            Some(x) => x.as_arr(),
            None => None,
        }
    }
}

/// The document that `text` is, or what the parser says is wrong with it.
pub uninterp spec fn json_of(text: Seq<u8>) -> Result<JsonValue, Seq<char>>;

/// A JSON value of `serde_json`.
#[verifier::external_type_specification]
#[verifier::external_body]
pub struct ExValue(serde_json::Value);

/// `serde_json::from_slice` into a `serde_json::Value`: the document that the
/// bytes are, or the error's message where they are not a JSON text. What
/// document or message that is is left to its name: it depends on the bytes
/// alone.
#[verifier::external_body]
pub(crate) fn parse_json(text: &[u8]) -> (r: Result<Json, String>)
    ensures
        match r {
            Ok(j) => json_of(text@) matches Ok(v) && v == j.view(),
            Err(e) => json_of(text@) matches Err(m) && m == e@,
        },
{
    serde_json::from_slice::<serde_json::Value>(text).map(from_value).map_err(|e| e.to_string())
}

/// What the debug form of the array under `key` in the document `text` is, if
/// there is one.
pub uninterp spec fn shown_array(text: Seq<u8>, key: Seq<char>) -> Option<Seq<char>>;

/// `std::fmt::Debug` of the array that `serde_json::from_slice`, `Value::get`
/// and `Value::as_array` find under `key`: there is one where the document is
/// an object with an array there. How its items look is left to its name: it
/// depends on the text and the key alone.
#[verifier::external_body]
pub(crate) fn show_array(text: &[u8], key: &str) -> (r: Option<String>)
    ensures
        match r {
            Some(s) => shown_array(text@, key@) == Some(s@),
            None => shown_array(text@, key@) is None,
        },
        r is Some == (json_of(text@) matches Ok(v) && arr_member(v, key@) is Some),
{
    let v: serde_json::Value = serde_json::from_slice(text).ok()?;
    let a: &Vec<serde_json::Value> = v.get(key)?.as_array()?;
    Some(format!("{a:?}"))
}

/// A hexadecimal digit, as a small letter from ten on.
pub open spec fn hex_digit(n: int) -> char {
    if n < 10 {
        (0x30 + n) as char
    } else {
        (0x57 + n) as char
    }
}

/// A character of a text as it stands in a JSON string literal: a quote, a
/// backslash and a control character are escaped, the latter with a letter
/// where there is one for it.
pub open spec fn json_escaped(c: char) -> Seq<char> {
    if c == '"' || c == '\\' {
        seq!['\\', c]
    } else if c == '\u{8}' {
        seq!['\\', 'b']
    } else if c == '\t' {
        seq!['\\', 't']
    } else if c == '\n' {
        seq!['\\', 'n']
    } else if c == '\u{c}' {
        seq!['\\', 'f']
    } else if c == '\r' {
        seq!['\\', 'r']
    } else if (c as int) < 0x20 {
        seq!['\\', 'u', '0', '0', hex_digit(c as int / 16), hex_digit(c as int % 16)]
    } else {
        seq![c]
    }
}

/// The characters of a text as they stand in a JSON string literal.
pub open spec fn all_escaped(s: Seq<char>) -> Seq<char>
    decreases s.len(),
{
    if s.len() == 0 {
        Seq::empty()
    } else {
        all_escaped(s.drop_last()) + json_escaped(s.last())
    }
}

/// The JSON string literal for the text `s`.
pub open spec fn json_quoted(s: Seq<char>) -> Seq<char> {
    seq!['"'] + all_escaped(s) + seq!['"']
}

/// The bytes `b` stand between two quotes, and a quote among them is escaped.
pub open spec fn is_quoted(b: Seq<u8>) -> bool {
    &&& b.len() >= 2
    &&& b[0] == 0x22
    &&& b[b.len() - 1] == 0x22
    &&& forall|i: int| 0 < i < b.len() - 1 && #[trigger] b[i] == 0x22 ==> b[i - 1] == 0x5c
}

/// `serde_json::Value::to_string` on a string value: its JSON string literal,
/// escapes as `serde_json` writes them. The literal stands between quotes, and
/// a quote inside it has a backslash before it.
#[verifier::external_body]
pub(crate) fn quote_json(s: &str) -> (r: String)
    ensures
        r@ == json_quoted(s@),
        is_quoted(encode_utf8(r@)),
{
    serde_json::Value::from(s).to_string()
}

/// The plain value of a `serde_json::Value`, variant by variant.
#[verifier::external_body]
fn from_value(v: serde_json::Value) -> (r: Json) {
    match v {
        serde_json::Value::Null => Json::Null,
        serde_json::Value::Bool(b) => Json::Bool(b),
        serde_json::Value::Number(n) => Json::Num(n.as_u64(), n.as_i64()),
        serde_json::Value::String(s) => Json::Str(s),
        serde_json::Value::Array(a) => Json::Arr(a.into_iter().map(from_value).collect()),
        serde_json::Value::Object(m) => Json::Obj(
            m.into_iter().map(|(k, x)| (k, from_value(x))).collect(),
        ),
    }
}

} // verus!
