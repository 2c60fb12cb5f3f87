//! JSON values as the provider APIs deliver them, and the lenient readers
//! that accept a number either as a JSON number or as a string.

use vstd::prelude::*;
use vstd::string::*;
use crate::text::{
    dec_digits, i64_to_string, is_ascii_white_space_byte, parse_i64, parse_signed_i64, parse_u32, parse_u64, parse_unsigned,
    signed_dec_digits, str_eq,
};

verus! {

/// A JSON number as the JSON reader classifies it: a non-negative integer,
/// a negative integer, or a float (whose value the readers here never use).
pub enum JsonNumber {
    PosInt(u64),
    NegInt(i64),
    Float,
}

/// A parsed JSON document. Object members keep their document order and
/// their keys are distinct.
pub enum JsonValue {
    Null,
    Bool(bool),
    Number(JsonNumber),
    String(String),
    Array(Vec<JsonValue>),
    Object(Vec<(String, JsonValue)>),
}

impl JsonNumber {
    pub open spec fn spec_as_u64(self) -> Option<u64> {
        match self {
            JsonNumber::PosInt(n) => Some(n),
            _ => None,
        }
    }

    pub open spec fn spec_as_i64(self) -> Option<i64> {
        match self {
            JsonNumber::PosInt(n) => if n <= i64::MAX as u64 {
                Some(n as i64)
            } else {
                None
            },
            JsonNumber::NegInt(n) => Some(n),
            JsonNumber::Float => None,
        }
    }

    /// The number as `u64`, if it is a non-negative integer.
    pub fn as_u64(&self) -> (r: Option<u64>)
        ensures
            r == self.spec_as_u64(),
    {
        match self {
            JsonNumber::PosInt(n) => Some(*n),
            _ => None,
        }
    }

    /// The number as `i64`, if it is an integer within `i64`.
    pub fn as_i64(&self) -> (r: Option<i64>)
        ensures
            r == self.spec_as_i64(),
    {
        match self {
            JsonNumber::PosInt(n) => {
                if *n <= i64::MAX as u64 {
                    Some(*n as i64)
                } else {
                    None
                }
            },
            JsonNumber::NegInt(n) => Some(*n),
            JsonNumber::Float => None,
        }
    }
}

/// The value of the first member named `key`.
pub open spec fn json_get(entries: Seq<(String, JsonValue)>, key: Seq<char>) -> Option<JsonValue>
    decreases entries.len(),
{
    if entries.len() == 0 {
        None
    } else if entries[0].0@ == key {
        Some(entries[0].1)
    } else {
        json_get(entries.drop_first(), key)
    }
}

/// Looks up the member `key` of an object's members.
pub fn json_object_get<'a>(entries: &'a Vec<(String, JsonValue)>, key: &str) -> (r: Option<&'a JsonValue>)
    ensures
        match r {
            Some(v) => json_get(entries@, key@) == Some(*v),
            None => json_get(entries@, key@) is None,
        },
{
    let n: usize = entries.len();
    let mut i: usize = 0;
    assert(entries@.skip(0) =~= entries@);
    while i < n
        invariant
            n == entries@.len(),
            i <= n,
            json_get(entries@.skip(i as int), key@) == json_get(entries@, key@),
        decreases n - i,
    {
        let ghost rest = entries@.skip(i as int);
        assert(rest[0] == entries@[i as int]);
        if str_eq(entries[i].0.as_str(), key) {
            return Some(&entries[i].1);
        }
        assert(rest.drop_first() =~= entries@.skip(i + 1));
        i = i + 1;
    }
    None
}

/// The members of an object value.
pub fn as_object(value: &JsonValue) -> (r: Option<&Vec<(String, JsonValue)>>)
    ensures
        match r {
            Some(e) => *value == JsonValue::Object(*e),
            None => !(value is Object),
        },
{
    match value {
        JsonValue::Object(entries) => Some(entries),
        _ => None,
    }
}

pub open spec fn spec_get_u64(value: JsonValue) -> Option<u64> {
    match value {
        JsonValue::Number(n) => n.spec_as_u64(),
        JsonValue::String(s) => match parse_unsigned(s@, 10, u64::MAX as nat) {
            Some(v) => Some(v as u64),
            None => None,
        },
        _ => None,
    }
}

pub open spec fn spec_get_i64(value: JsonValue) -> Option<i64> {
    match value {
        JsonValue::Number(n) => n.spec_as_i64(),
        JsonValue::String(s) => match parse_signed_i64(s@) {
            Some(v) => Some(v as i64),
            None => None,
        },
        _ => None,
    }
}

pub open spec fn spec_get_u32(value: JsonValue) -> Option<u32> {
    match spec_get_u64(value) {
        Some(v) => if v <= u32::MAX as u64 {
            Some(v as u32)
        } else {
            None
        },
        None => None,
    }
}

pub open spec fn spec_get_string(value: JsonValue) -> Option<Seq<char>> {
    match value {
        JsonValue::Number(n) => match n.spec_as_i64() {
            Some(v) => Some(signed_dec_digits(v as int)),
            None => None,
        },
        JsonValue::String(s) => if s@.len() == 0 {
            None
        } else {
            Some(s@)
        },
        _ => None,
    }
}

/// A `u64` from a non-negative integer or from a string holding one.
pub fn get_u64_from_serde_value(value: &JsonValue) -> (r: Option<u64>)
    ensures
        r == spec_get_u64(*value),
{
    match value {
        JsonValue::Number(num_val) => num_val.as_u64(),
        JsonValue::String(str_val) => parse_u64(str_val.as_str()),
        _ => None,
    }
}

/// An `i64` from an integer or from a string holding one.
pub fn get_i64_from_serde_value(value: &JsonValue) -> (r: Option<i64>)
    ensures
        r == spec_get_i64(*value),
{
    match value {
        JsonValue::Number(num_val) => num_val.as_i64(),
        JsonValue::String(str_val) => parse_i64(str_val.as_str()),
        _ => None,
    }
}

/// A `u32` from a non-negative integer or a string holding one, if it fits.
pub fn get_u32_from_serde_value(value: &JsonValue) -> (r: Option<u32>)
    ensures
        r == spec_get_u32(*value),
{
    match get_u64_from_serde_value(value) {
        Some(v) => {
            if v <= u32::MAX as u64 {
                Some(v as u32)
            } else {
                None
            }
        },
        None => None,
    }
}

/// A string from an integer (its decimal form) or a non-empty string.
pub fn get_string_from_serde_value(value: &JsonValue) -> (r: Option<String>)
    ensures
        match r {
            Some(s) => spec_get_string(*value) == Some(s@),
            None => spec_get_string(*value) is None,
        },
{
    match value {
        JsonValue::Number(num_val) => match num_val.as_i64() {
            Some(num) => Some(i64_to_string(num)),
            None => None,
        },
        JsonValue::String(str_val) => {
            if str_val.as_str().unicode_len() == 0 {
                None
            } else {
                Some(str_val.clone())
            }
        },
        _ => None,
    }
}

/// The outcome of reading a `u32` that may be given as number or string;
/// `null` reads as 0.
pub open spec fn spec_string_or_number_u32(value: JsonValue) -> Result<u32, Seq<char>> {
    match value {
        JsonValue::Null => Ok(0),
        JsonValue::Number(n) => match n.spec_as_u64() {
            Some(v) => if v <= u32::MAX as u64 {
                Ok(v as u32)
            } else {
                Err("Number out of range for u32"@)
            },
            None => Err("Invalid number"@),
        },
        JsonValue::String(s) => match parse_unsigned(s@, 10, u32::MAX as nat) {
            Some(v) => Ok(v as u32),
            None => Err("Invalid string number"@),
        },
        _ => Err("Expected number or string"@),
    }
}

/// The same as [`spec_string_or_number_u32`], with `null` read as absent.
pub open spec fn spec_opt_string_or_number_u32(value: JsonValue) -> Result<Option<u32>, Seq<char>> {
    match value {
        JsonValue::Null => Ok(None),
        JsonValue::Number(n) => match n.spec_as_u64() {
            Some(v) => if v <= u32::MAX as u64 {
                Ok(Some(v as u32))
            } else {
                Err("Number out of range for u32"@)
            },
            None => Err("Invalid number"@),
        },
        JsonValue::String(s) => match parse_unsigned(s@, 10, u32::MAX as nat) {
            Some(v) => Ok(Some(v as u32)),
            None => Err("Invalid string number"@),
        },
        _ => Err("Expected number, string, or null"@),
    }
}

/// Reads a `u32` given as number or string; `null` reads as 0.
pub fn string_or_number_u32(value: &JsonValue) -> (r: Result<u32, String>)
    ensures
        match r {
            Ok(v) => spec_string_or_number_u32(*value) == Ok::<u32, Seq<char>>(v),
            Err(e) => spec_string_or_number_u32(*value) == Err::<u32, Seq<char>>(e@),
        },
{
    match value {
        JsonValue::Null => Ok(0),
        JsonValue::Number(num) => match num.as_u64() {
            Some(v) => {
                if v <= u32::MAX as u64 {
                    Ok(v as u32)
                } else {
                    Err(String::from_str("Number out of range for u32"))
                }
            },
            None => Err(String::from_str("Invalid number")),
        },
        JsonValue::String(s) => match parse_u32(s.as_str()) {
            Some(v) => Ok(v),
            None => Err(String::from_str("Invalid string number")),
        },
        _ => Err(String::from_str("Expected number or string")),
    }
}

/// Reads an optional `u32` given as number or string; `null` is absent.
pub fn opt_string_or_number_u32(value: &JsonValue) -> (r: Result<Option<u32>, String>)
    ensures
        match r {
            Ok(v) => spec_opt_string_or_number_u32(*value) == Ok::<Option<u32>, Seq<char>>(v),
            Err(e) => spec_opt_string_or_number_u32(*value) == Err::<Option<u32>, Seq<char>>(e@),
        },
{
    match value {
        JsonValue::Null => Ok(None),
        JsonValue::Number(num) => match num.as_u64() {
            Some(v) => {
                if v <= u32::MAX as u64 {
                    Ok(Some(v as u32))
                } else {
                    Err(String::from_str("Number out of range for u32"))
                }
            },
            None => Err(String::from_str("Invalid number")),
        },
        JsonValue::String(s) => match parse_u32(s.as_str()) {
            Some(v) => Ok(Some(v)),
            None => Err(String::from_str("Invalid string number")),
        },
        _ => Err(String::from_str("Expected number, string, or null")),
    }
}

/// A string field whose `null` reads as the empty string.
pub fn string_default_on_null(value: Option<String>) -> (r: String)
    ensures
        match value {
            Some(s) => r@ == s@,
            None => r@ == Seq::<char>::empty(),
        },
{
    match value {
        Some(s) => s,
        None => String::new(),
    }
}


/// The index of the first byte at or after `pos` that is not ASCII
/// whitespace, if there is one.
pub open spec fn skip_ws(data: Seq<u8>, pos: int) -> Option<int>
    decreases data.len() - pos,
{
    if pos < 0 || pos >= data.len() {
        None
    } else if is_ascii_white_space_byte(data[pos]) {
        skip_ws(data, pos + 1)
    } else {
        Some(pos)
    }
}

proof fn lemma_skip_ws(data: Seq<u8>, pos: int)
    ensures
        match skip_ws(data, pos) {
            Some(i) => 0 <= pos <= i < data.len() && !is_ascii_white_space_byte(data[i]),
            None => true,
        },
    decreases data.len() - pos,
{
    if 0 <= pos < data.len() && is_ascii_white_space_byte(data[pos]) {
        lemma_skip_ws(data, pos + 1);
    }
}

/// Reads on from `pos` past ASCII whitespace: the first other byte and the
/// position after it, or `None` when the data ends first.
pub fn read_skipping_ws(data: &[u8], pos: usize) -> (r: Option<(u8, usize)>)
    ensures
        match skip_ws(data@, pos as int) {
            None => r is None,
            Some(i) => r == Some((data@[i], (i + 1) as usize)),
        },
{
    proof {
        lemma_skip_ws(data@, pos as int);
    }
    let n: usize = data.len();
    let mut i: usize = pos;
    while i < n
        invariant
            n == data@.len(),
            pos <= i,
            skip_ws(data@, pos as int) == skip_ws(data@, i as int),
        decreases n - i,
    {
        let b: u8 = data[i];
        if !(b == 0x20 || b == 0x09 || b == 0x0A || b == 0x0C || b == 0x0D) {
            return Some((b, i + 1));
        }
        i = i + 1;
    }
    None
}

/// Why the elements of a streamed JSON array could not be read on.
#[derive(Debug, Clone, Copy, PartialEq, Eq, Structural)]
pub enum ArrayReadError {
    /// The data ended where a token was expected.
    UnexpectedEof,
    /// The data does not start with `[`.
    OpenBracketMissing,
    /// An element is followed by neither `,` nor `]`.
    SeparatorMissing,
}

impl ArrayReadError {
    pub open spec fn spec_message(self) -> Seq<char> {
        match self {
            ArrayReadError::UnexpectedEof => "failed to fill whole buffer"@,
            ArrayReadError::OpenBracketMissing => "`[` not found"@,
            ArrayReadError::SeparatorMissing => "`,` or `]` not found"@,
        }
    }

    /// The error's message.
    pub fn message(&self) -> (r: String)
        ensures
            r@ == self.spec_message(),
    {
        match self {
            ArrayReadError::UnexpectedEof => String::from_str("failed to fill whole buffer"),
            ArrayReadError::OpenBracketMissing => String::from_str("`[` not found"),
            ArrayReadError::SeparatorMissing => String::from_str("`,` or `]` not found"),
        }
    }
}

/// What the next step through a streamed JSON array finds.
#[derive(Debug, Clone, Copy, PartialEq, Eq, Structural)]
pub enum ArrayItem {
    /// An element whose text starts at this index.
    Element(usize),
    /// The closing `]`.
    End,
}

/// The next step through a JSON array whose text is `data`, reading from
/// `pos`; `at_start` tells whether the opening `[` was read already.
/// Before the first element the array must open with `[`, and a `]` right
/// after it closes an empty array; between elements a `,` announces the
/// next element and a `]` ends the array. With the outcome comes the
/// position where reading stopped: the start of an element, or the byte
/// after the token that ended or failed the step (the data's end where it
/// ran out).
pub open spec fn spec_next_array_item(data: Seq<u8>, pos: int, at_start: bool) -> (
    Result<ArrayItem, ArrayReadError>,
    int,
) {
    if at_start {
        match skip_ws(data, pos) {
            None => (Err(ArrayReadError::UnexpectedEof), data.len() as int),
            Some(i) => if data[i] == 0x2C {
                (Ok(ArrayItem::Element((i + 1) as usize)), i + 1)
            } else if data[i] == 0x5D {
                (Ok(ArrayItem::End), i + 1)
            } else {
                (Err(ArrayReadError::SeparatorMissing), i + 1)
            },
        }
    } else {
        match skip_ws(data, pos) {
            None => (Err(ArrayReadError::UnexpectedEof), data.len() as int),
            Some(i) => if data[i] == 0x5B {
                match skip_ws(data, i + 1) {
                    None => (Err(ArrayReadError::UnexpectedEof), data.len() as int),
                    Some(j) => if data[j] == 0x5D {
                        (Ok(ArrayItem::End), j + 1)
                    } else {
                        (Ok(ArrayItem::Element(j as usize)), j as int)
                    },
                }
            } else {
                (Err(ArrayReadError::OpenBracketMissing), i + 1)
            },
        }
    }
}

/// One step through a streamed JSON array (see [`spec_next_array_item`]);
/// afterwards the opening bracket counts as read.
pub fn yield_next_obj(data: &[u8], pos: usize, at_start: &mut bool) -> (r: (
    Result<ArrayItem, ArrayReadError>,
    usize,
))
    ensures
        *final(at_start),
        r.0 == spec_next_array_item(data@, pos as int, *old(at_start)).0,
        r.1 as int == spec_next_array_item(data@, pos as int, *old(at_start)).1,
{
    proof {
        lemma_skip_ws(data@, pos as int);
        if let Some(i) = skip_ws(data@, pos as int) {
            lemma_skip_ws(data@, i + 1);
        }
    }
    let n: usize = data.len();
    if *at_start {
        match read_skipping_ws(data, pos) {
            None => (Err(ArrayReadError::UnexpectedEof), n),
            Some((b, next)) => {
                if b == 0x2C {
                    (Ok(ArrayItem::Element(next)), next)
                } else if b == 0x5D {
                    (Ok(ArrayItem::End), next)
                } else {
                    (Err(ArrayReadError::SeparatorMissing), next)
                }
            },
        }
    } else {
        *at_start = true;
        match read_skipping_ws(data, pos) {
            None => (Err(ArrayReadError::UnexpectedEof), n),
            Some((b, next)) => {
                if b == 0x5B {
                    match read_skipping_ws(data, next) {
                        None => (Err(ArrayReadError::UnexpectedEof), n),
                        Some((peek, after)) => {
                            if peek == 0x5D {
                                (Ok(ArrayItem::End), after)
                            } else {
                                (Ok(ArrayItem::Element(after - 1)), after - 1)
                            }
                        },
                    }
                } else {
                    (Err(ArrayReadError::OpenBracketMissing), next)
                }
            },
        }
    }
}

} // verus!

verus! {

/// A `u32` given as a JSON number or as the string of its decimal digits
/// reads as that number, present: `Ok(Some(n))` from the optional reader
/// and `Ok(n)` from the plain one. On numbers and strings the two readers
/// agree: the optional one gives `Some` of what the plain one gives.
pub proof fn law_u32_number_or_string_reads_back(n: u32, s: String, other: JsonValue)
    requires
        s@ == dec_digits(n as nat),
    ensures
        spec_opt_string_or_number_u32(JsonValue::Number(JsonNumber::PosInt(n as u64))) == Ok::<
            Option<u32>,
            Seq<char>,
        >(Some(n)),
        spec_string_or_number_u32(JsonValue::Number(JsonNumber::PosInt(n as u64))) == Ok::<u32, Seq<char>>(n),
        spec_opt_string_or_number_u32(JsonValue::String(s)) == Ok::<Option<u32>, Seq<char>>(Some(n)),
        spec_string_or_number_u32(JsonValue::String(s)) == Ok::<u32, Seq<char>>(n),
        (other is Number || other is String) ==> match spec_string_or_number_u32(other) {
            Ok(v) => spec_opt_string_or_number_u32(other) == Ok::<Option<u32>, Seq<char>>(Some(v)),
            Err(e) => spec_opt_string_or_number_u32(other) == Err::<Option<u32>, Seq<char>>(e),
        },
        spec_opt_string_or_number_u32(JsonValue::Null) == Ok::<Option<u32>, Seq<char>>(None),
{
    crate::text::law_decimal_roundtrip(n as nat, u32::MAX as nat);
}

} // verus!
