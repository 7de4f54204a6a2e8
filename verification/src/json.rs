//! A plain model of JSON values, and parsing of JSON text into it.
use vstd::prelude::*;

use crate::text::{chars_of, push_char, text_eq};

verus! {

/// A JSON value. Numbers keep the text they are written with; object
/// members are kept in the order they are listed (parsed objects list
/// their members in serde_json's sorted key order).
#[derive(Debug)]
pub enum Json {
    Null,
    Bool(bool),
    Number(String),
    Str(String),
    Array(Vec<Json>),
    Object(Vec<(String, Json)>),
}

#[verifier::external_type_specification]
#[verifier::external_body]
pub struct ExJsonValue(serde_json::Value);

/// What `serde_json` makes of `text`: `None` where it is not valid JSON.
pub uninterp spec fn parsed_json(text: Seq<char>) -> Option<Json>;

/// What serde_json's error says (its `Display` text) about `text` where
/// `text` is not valid JSON.
pub uninterp spec fn json_error_message(text: Seq<char>) -> Seq<char>;

/// Parses `text` with `serde_json::from_str::<serde_json::Value>` and carries
/// the value over member by member, or gives the error's text. The contract
/// names the result only; what counts as valid JSON, and the wording of the
/// error, are serde_json's and are not restated here.
#[verifier::external_body]
pub fn parse_json_or_error(text: &str) -> (r: Result<Json, String>)
    ensures
        match r {
            Ok(v) => parsed_json(text@) == Some(v),
            Err(e) => parsed_json(text@) is None && e@ == json_error_message(text@),
        },
{
    serde_json::from_str::<serde_json::Value>(text).map(json_from_serde).map_err(|e| e.to_string())
}

/// Parses `text` as JSON; `None` where it is not valid JSON.
pub fn parse_json(text: &str) -> (r: Option<Json>)
    ensures
        r == parsed_json(text@),
{
    match parse_json_or_error(text) {
        Ok(v) => Some(v),
        Err(_) => None,
    }
}

/// Carries a `serde_json::Value` over to `Json`, variant by variant; object
/// members come in the order serde_json's map yields them.
#[verifier::external_body]
fn json_from_serde(v: serde_json::Value) -> Json {
    match v {
        serde_json::Value::Null => Json::Null,
        serde_json::Value::Bool(b) => Json::Bool(b),
        serde_json::Value::Number(n) => Json::Number(n.to_string()),
        serde_json::Value::String(s) => Json::Str(s),
        serde_json::Value::Array(a) => Json::Array(a.into_iter().map(json_from_serde).collect()),
        serde_json::Value::Object(m) => Json::Object(
            m.into_iter().map(|(k, x)| (k, json_from_serde(x))).collect(),
        ),
    }
}



/// The text serde_json writes for a value (`serde_json::Value`'s
/// `to_string`), the value carried over member by member.
pub uninterp spec fn serialized_json(v: JsonView) -> Seq<char>;

/// Writes `j` as JSON text with serde_json. The contract names the result
/// only: the escaping and layout are serde_json's and are not restated,
/// nor that parsing the text gives the value back.
#[verifier::external_body]
pub fn json_text(j: &Json) -> (r: String)
    ensures
        r@ == serialized_json(j@),
{
    serde_of(j).to_string()
}

/// Carries a `Json` over to `serde_json::Value`, variant by variant; a
/// number text that serde_json does not read becomes null. Later members
/// of an object replace earlier ones with the same name.
#[verifier::external_body]
fn serde_of(j: &Json) -> serde_json::Value {
    match j {
        Json::Null => serde_json::Value::Null,
        Json::Bool(b) => serde_json::Value::Bool(*b),
        Json::Number(t) => serde_json::from_str::<serde_json::Number>(t)
            .map(serde_json::Value::Number)
            .unwrap_or(serde_json::Value::Null),
        Json::Str(s) => serde_json::Value::String(s.clone()),
        Json::Array(items) => serde_json::Value::Array(items.iter().map(serde_of).collect()),
        Json::Object(entries) => serde_json::Value::Object(
            entries.iter().map(|(k, v)| (k.clone(), serde_of(v))).collect(),
        ),
    }
}
/// The text of a JSON value.
pub enum JsonView {
    Null,
    Bool(bool),
    Number(Seq<char>),
    Str(Seq<char>),
    Array(Seq<JsonView>),
    Object(Seq<(Seq<char>, JsonView)>),
}

pub open spec fn json_view(j: Json) -> JsonView
    decreases j,
{
    match j {
        Json::Null => JsonView::Null,
        Json::Bool(b) => JsonView::Bool(b),
        Json::Number(n) => JsonView::Number(n@),
        Json::Str(s) => JsonView::Str(s@),
        Json::Array(items) => JsonView::Array(json_views(items@)),
        Json::Object(entries) => JsonView::Object(json_entry_views(entries@)),
    }
}

pub open spec fn json_views(items: Seq<Json>) -> Seq<JsonView>
    decreases items,
{
    if items.len() == 0 {
        Seq::empty()
    } else {
        json_views(items.drop_last()).push(json_view(items.last()))
    }
}

pub open spec fn json_entry_views(entries: Seq<(String, Json)>) -> Seq<(Seq<char>, JsonView)>
    decreases entries,
{
    if entries.len() == 0 {
        Seq::empty()
    } else {
        json_entry_views(entries.drop_last()).push((entries.last().0@, json_view(entries.last().1)))
    }
}

impl View for Json {
    type V = JsonView;

    open spec fn view(&self) -> JsonView {
        json_view(*self)
    }
}

/// The first member of `entries` named `key`.
pub open spec fn member_named(entries: Seq<(String, Json)>, key: Seq<char>) -> Option<Json>
    decreases entries.len(),
{
    if entries.len() == 0 {
        None
    } else if entries[0].0@ == key {
        Some(entries[0].1)
    } else {
        member_named(entries.drop_first(), key)
    }
}

/// The member `key` of an object; `None` for other values.
pub open spec fn json_get(j: Json, key: Seq<char>) -> Option<Json> {
    match j {
        Json::Object(entries) => member_named(entries@, key),
        _ => None,
    }
}

pub open spec fn json_as_str(j: Json) -> Option<Seq<char>> {
    match j {
        Json::Str(s) => Some(s@),
        _ => None,
    }
}

pub open spec fn json_as_bool(j: Json) -> Option<bool> {
    match j {
        Json::Bool(b) => Some(b),
        _ => None,
    }
}

pub open spec fn json_as_array(j: Json) -> Option<Seq<Json>> {
    match j {
        Json::Array(items) => Some(items@),
        _ => None,
    }
}

/// The text of member `key`, where it is a string.
pub open spec fn field_str(j: Json, key: Seq<char>) -> Option<Seq<char>> {
    match json_get(j, key) {
        Some(v) => json_as_str(v),
        None => None,
    }
}

/// The member `key`, where it is a boolean.
pub open spec fn field_bool(j: Json, key: Seq<char>) -> Option<bool> {
    match json_get(j, key) {
        Some(v) => json_as_bool(v),
        None => None,
    }
}

/// The items of member `key`, where it is an array.
pub open spec fn field_array(j: Json, key: Seq<char>) -> Option<Seq<Json>> {
    match json_get(j, key) {
        Some(v) => json_as_array(v),
        None => None,
    }
}

/// `text` parses to JSON whose member `key` is a non-empty array.
pub open spec fn text_has_nonempty_array(text: Seq<char>, key: Seq<char>) -> bool {
    match parsed_json(text) {
        Some(v) => match field_array(v, key) {
            Some(items) => items.len() > 0,
            None => false,
        },
        None => false,
    }
}

impl Json {
    pub fn is_object(&self) -> (r: bool)
        ensures
            r == (*self is Object),
    {
        match self {
            Json::Object(_) => true,
            _ => false,
        }
    }

    /// The member `key` of an object (the first one so named).
    pub fn get(&self, key: &str) -> (r: Option<&Json>)
        ensures
            match r {
                Some(v) => json_get(*self, key@) == Some(*v),
                None => json_get(*self, key@) is None,
            },
    {
        match self {
            Json::Object(entries) => {
                let mut i: usize = 0;
                assert(entries@.subrange(0, entries.len() as int) =~= entries@);
                while i < entries.len()
                    invariant
                        i <= entries.len(),
                        json_get(*self, key@) == member_named(entries@, key@),
                        member_named(entries@, key@) == member_named(
                            entries@.subrange(i as int, entries.len() as int),
                            key@,
                        ),
                    decreases entries.len() - i,
                {
                    let ghost rest = entries@.subrange(i as int, entries.len() as int);
                    assert(rest.drop_first() =~= entries@.subrange(i + 1, entries.len() as int));
                    assert(rest[0] == entries@[i as int]);
                    if text_eq(entries[i].0.as_str(), key) {
                        assert(rest.len() > 0 && rest[0].0@ == key@);
                        assert(member_named(rest, key@) == Some(rest[0].1));
                        return Some(&entries[i].1);
                    }
                    i = i + 1;
                }
                None
            },
            _ => None,
        }
    }

    pub fn as_str(&self) -> (r: Option<&str>)
        ensures
            match r {
                Some(s) => json_as_str(*self) == Some(s@),
                None => json_as_str(*self) is None,
            },
    {
        match self {
            Json::Str(s) => Some(s.as_str()),
            _ => None,
        }
    }

    pub fn as_bool(&self) -> (r: Option<bool>)
        ensures
            r == json_as_bool(*self),
    {
        match self {
            Json::Bool(b) => Some(*b),
            _ => None,
        }
    }

    pub fn as_array(&self) -> (r: Option<&Vec<Json>>)
        ensures
            match r {
                Some(items) => json_as_array(*self) == Some(items@),
                None => json_as_array(*self) is None,
            },
    {
        match self {
            Json::Array(items) => Some(items),
            _ => None,
        }
    }

    /// The text of member `key`, where it is a string.
    pub fn get_str(&self, key: &str) -> (r: Option<&str>)
        ensures
            match r {
                Some(s) => field_str(*self, key@) == Some(s@),
                None => field_str(*self, key@) is None,
            },
    {
        match self.get(key) {
            Some(v) => v.as_str(),
            None => None,
        }
    }

    /// The member `key`, where it is a boolean.
    pub fn get_bool(&self, key: &str) -> (r: Option<bool>)
        ensures
            r == field_bool(*self, key@),
    {
        match self.get(key) {
            Some(v) => v.as_bool(),
            None => None,
        }
    }

    /// The items of member `key`, where it is an array.
    pub fn get_array(&self, key: &str) -> (r: Option<&Vec<Json>>)
        ensures
            match r {
                Some(items) => field_array(*self, key@) == Some(items@),
                None => field_array(*self, key@) is None,
            },
    {
        match self.get(key) {
            Some(v) => v.as_array(),
            None => None,
        }
    }
}

/// Whether `text` parses to JSON whose member `key` is a non-empty array.
pub fn has_nonempty_array(text: &str, key: &str) -> (r: bool)
    ensures
        r == text_has_nonempty_array(text@, key@),
{
    match parse_json(text) {
        Some(v) => has_nonempty_array_value(&v, key),
        None => false,
    }
}

/// Whether member `key` of `v` is a non-empty array.
pub fn has_nonempty_array_value(v: &Json, key: &str) -> (r: bool)
    ensures
        r == match field_array(*v, key@) {
            Some(items) => items.len() > 0,
            None => false,
        },
{
    match v.get_array(key) {
        Some(items) => items.len() > 0,
        None => false,
    }
}

// ---------------------------------------------------------------------------
// Numbers
// ---------------------------------------------------------------------------

pub open spec fn is_digit(c: char) -> bool {
    '0' <= c && c <= '9'
}

/// The value of a string of decimal digits.
pub open spec fn decimal_value(s: Seq<char>) -> int
    decreases s.len(),
{
    if s.len() == 0 {
        0
    } else {
        decimal_value(s.drop_last()) * 10 + (s.last() as int - '0' as int)
    }
}

/// `s` is a non-empty run of decimal digits.
pub open spec fn is_decimal(s: Seq<char>) -> bool {
    s.len() > 0 && forall|i: int| 0 <= i < s.len() ==> is_digit(#[trigger] s[i])
}

/// The value as a `u64`: a number written as plain decimal digits that fits
/// (a non-negative integer; serde_json writes other numbers with a sign, a
/// fraction or an exponent).
pub open spec fn json_as_u64(j: Json) -> Option<u64> {
    match j {
        Json::Number(text) => if is_decimal(text@) && decimal_value(text@) <= u64::MAX {
            Some(decimal_value(text@) as u64)
        } else {
            None
        },
        _ => None,
    }
}

/// The member `key`, where it is a `u64`.
pub open spec fn field_u64(j: Json, key: Seq<char>) -> Option<u64> {
    match json_get(j, key) {
        Some(v) => json_as_u64(v),
        None => None,
    }
}

proof fn lemma_decimal_value_nonneg(s: Seq<char>)
    requires
        forall|i: int| 0 <= i < s.len() ==> is_digit(#[trigger] s[i]),
    ensures
        decimal_value(s) >= 0,
    decreases s.len(),
{
    if s.len() > 0 {
        lemma_decimal_value_nonneg(s.drop_last());
    }
}

proof fn lemma_decimal_value_grows(s: Seq<char>, i: int)
    requires
        0 <= i <= s.len(),
        forall|k: int| 0 <= k < s.len() ==> is_digit(#[trigger] s[k]),
    ensures
        decimal_value(s.subrange(0, i)) <= decimal_value(s),
    decreases s.len() - i,
{
    if i < s.len() {
        lemma_decimal_value_grows(s, i + 1);
        let p = s.subrange(0, i + 1);
        assert(p.drop_last() =~= s.subrange(0, i));
        lemma_decimal_value_nonneg(s.subrange(0, i));
    } else {
        assert(s.subrange(0, i) =~= s);
    }
}

fn parse_u64_text(text: &str) -> (r: Option<u64>)
    ensures
        r == (if is_decimal(text@) && decimal_value(text@) <= u64::MAX {
            Some(decimal_value(text@) as u64)
        } else {
            None
        }),
{
    let cs = chars_of(text);
    if cs.len() == 0 {
        return None;
    }
    let mut i: usize = 0;
    while i < cs.len()
        invariant
            cs@ == text@,
            i <= cs.len(),
            forall|k: int| 0 <= k < i ==> is_digit(#[trigger] cs@[k]),
        decreases cs.len() - i,
    {
        if !('0' <= cs[i] && cs[i] <= '9') {
            return None;
        }
        i = i + 1;
    }
    let mut value: u64 = 0;
    let mut j: usize = 0;
    assert(cs@.subrange(0, 0) =~= Seq::<char>::empty());
    while j < cs.len()
        invariant
            cs@ == text@,
            j <= cs.len(),
            forall|k: int| 0 <= k < cs.len() ==> is_digit(#[trigger] cs@[k]),
            value == decimal_value(cs@.subrange(0, j as int)),
        decreases cs.len() - j,
    {
        let ghost p = cs@.subrange(0, j + 1);
        assert(p.drop_last() =~= cs@.subrange(0, j as int));
        let d: u64 = (cs[j] as u32 - '0' as u32) as u64;
        if value > (u64::MAX - d) / 10 {
            proof {
                lemma_decimal_value_grows(cs@, j + 1);
                assert(value * 10 + d > u64::MAX) by (nonlinear_arith)
                    requires
                        value > (u64::MAX - d) / 10,
                        d <= 9,
                ;
            }
            return None;
        }
        assert(value * 10 + d <= u64::MAX) by (nonlinear_arith)
            requires
                value <= (u64::MAX - d) / 10,
                d <= 9,
        ;
        value = value * 10 + d;
        j = j + 1;
    }
    assert(cs@.subrange(0, j as int) =~= cs@);
    Some(value)
}

impl Json {
    /// The value as a `u64`, like `serde_json::Value::as_u64`.
    pub fn as_u64(&self) -> (r: Option<u64>)
        ensures
            r == json_as_u64(*self),
    {
        match self {
            Json::Number(text) => parse_u64_text(text.as_str()),
            _ => None,
        }
    }

    /// The member `key`, where it is a `u64`.
    pub fn get_u64(&self, key: &str) -> (r: Option<u64>)
        ensures
            r == field_u64(*self, key@),
    {
        match self.get(key) {
            Some(v) => v.as_u64(),
            None => None,
        }
    }
}

/// The decimal digits of `n`.
pub open spec fn decimal_digits(n: nat) -> Seq<char>
    decreases n,
{
    if n < 10 {
        seq![(('0' as u32) + n) as char]
    } else {
        decimal_digits(n / 10).push((('0' as u32) + (n % 10)) as char)
    }
}

/// The decimal text of `n`.
pub fn decimal_text(n: u64) -> (r: String)
    ensures
        r@ == decimal_digits(n as nat),
    decreases n,
{
    let d: u8 = (n % 10) as u8;
    let c: char = (48u8 + d) as char;
    if n < 10 {
        let mut s = String::new();
        push_char(&mut s, c);
        assert(s@ =~= decimal_digits(n as nat));
        s
    } else {
        let mut s = decimal_text(n / 10);
        push_char(&mut s, c);
        s
    }
}

/// The JSON number `n`.
pub fn number_value(n: u64) -> (r: Json)
    ensures
        r is Number,
        json_view(r) == JsonView::Number(decimal_digits(n as nat)),
{
    Json::Number(decimal_text(n))
}

} // verus!
