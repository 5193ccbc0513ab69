//! Reading and writing the values that requests and stored rows carry as
//! text: UUIDs and the numeric even/odd marker.
use vstd::prelude::*;

use uuid::Uuid;

use crate::data::even_odd::{value_code, EvenOdd, Value};
use crate::data::{even_odd_from_label, EvenOdd as Marker};

verus! {

/// The UUID that `uuid::Uuid::parse_str` reads from a text, as its 128-bit
/// big-endian value.
pub uninterp spec fn uuid_parsed(s: Seq<char>) -> Option<u128>;

/// Parses a UUID with `uuid::Uuid::parse_str` and returns its value
/// (`Uuid::as_u128`). Claimed: the result is `uuid_parsed` of the text, and
/// the hyphenated lower-case form of a value parses back to that value (a
/// 36-character input with `-` at 8, 13, 18 and 23 and hexadecimal digits
/// elsewhere, read big-endian, in the `uuid` source's `parse_hyphenated`).
/// Which other texts parse, and to what, is left to the `uuid` crate.
#[verifier::external_body]
fn parse_uuid(s: &str) -> (r: Option<u128>)
    ensures
        r == uuid_parsed(s@),
        forall|v: u128| #[trigger] hyphenated_lower(v) == s@ ==> r == Some(v),
{
    match Uuid::parse_str(s) {
        Ok(u) => Some(u.as_u128()),
        Err(_) => None,
    }
}

/// The lower-case hexadecimal digit for `d` (0 to 15).
pub open spec fn hex_lower(d: int) -> char {
    if d < 10 {
        (d + '0' as int) as char
    } else {
        (d - 10 + 'a' as int) as char
    }
}

/// Nibble `j` (0 = most significant) of `v`.
pub open spec fn nibble(v: u128, j: int) -> int {
    (v as int / vstd::arithmetic::power2::pow2((4 * (31 - j)) as nat) as int) % 16
}

/// The hyphenated lower-case form of a UUID, `xxxxxxxx-xxxx-xxxx-xxxx-xxxxxxxxxxxx`,
/// with the hexadecimal digits of its big-endian value.
pub open spec fn hyphenated_lower(v: u128) -> Seq<char> {
    Seq::new(
        36,
        |i: int|
            if i == 8 || i == 13 || i == 18 || i == 23 {
                '-'
            } else {
                let hyphens_before: int = if i < 8 {
                    0
                } else if i < 13 {
                    1
                } else if i < 18 {
                    2
                } else if i < 23 {
                    3
                } else {
                    4
                };
                hex_lower(nibble(v, i - hyphens_before))
            },
    )
}

/// Writes a UUID in hyphenated lower-case form with
/// `uuid::Uuid::from_u128(v).hyphenated().encode_lower`. Claimed: the text
/// is `hyphenated_lower(v)`, as the `uuid` source's `format_hyphenated` writes it.
#[verifier::external_body]
fn uuid_hyphenated(v: u128) -> (s: String)
    ensures
        s@ == hyphenated_lower(v),
{
    Uuid::from_u128(v).hyphenated().encode_lower(&mut Uuid::encode_buffer()).to_string()
}

/// A request field that should hold a UUID does not.
#[derive(Clone, Copy, Debug, PartialEq, Eq, Structural)]
pub enum UuidError {
    CouldNotParse,
}

impl UuidError {
    /// The message sent back to the client.
    pub fn message(&self) -> (m: &'static str)
        ensures
            m@ == "Could not parse UUID"@,
    {
        "Could not parse UUID"
    }
}

/// Reads a UUID field of a request; what `serialize_uuid` writes reads
/// back as the same UUID.
pub fn deserialize_uuid(data: &str) -> (r: Result<u128, UuidError>)
    ensures
        match uuid_parsed(data@) {
            Some(v) => r == Ok::<u128, UuidError>(v),
            None => r == Err::<u128, UuidError>(UuidError::CouldNotParse),
        },
        forall|v: u128| #[trigger] hyphenated_lower(v) == data@ ==> r == Ok::<u128, UuidError>(v),
{
    match parse_uuid(data) {
        Some(v) => Ok(v),
        None => Err(UuidError::CouldNotParse),
    }
}

/// Reads an optional UUID field of a request: absent stays absent.
pub fn deserialize_uuid_option(data: Option<&str>) -> (r: Result<Option<u128>, UuidError>)
    ensures
        match data {
            None => r == Ok::<Option<u128>, UuidError>(None),
            Some(d) => match uuid_parsed(d@) {
                Some(v) => r == Ok::<Option<u128>, UuidError>(Some(v)),
                None => r == Err::<Option<u128>, UuidError>(UuidError::CouldNotParse),
            },
        },
{
    match data {
        None => Ok(None),
        Some(d) => match deserialize_uuid(d) {
            Ok(v) => Ok(Some(v)),
            Err(e) => Err(e),
        },
    }
}

/// Writes a UUID the way responses carry it: hyphenated, lower case.
pub fn serialize_uuid(uuid: u128) -> (s: String)
    ensures
        s@ == hyphenated_lower(uuid),
{
    uuid_hyphenated(uuid)
}

pub open spec fn marker_value(m: Marker) -> Value {
    match m {
        Marker::No => Value::NONE,
        Marker::Even => Value::EVEN,
        Marker::Odd => Value::ODD,
    }
}

/// Reads the numeric marker from its text: `Ч` and `true` give 1,
/// `Н` and `false` give 2, anything else 0.
pub fn deserialize_even_odd(data: &str) -> (e: EvenOdd)
    ensures
        e.value == value_code(marker_value(even_odd_from_label(data@))),
{
    let m = Marker::from_label(data);
    let v = match m {
        Marker::No => Value::NONE,
        Marker::Even => Value::EVEN,
        Marker::Odd => Value::ODD,
    };
    EvenOdd { value: v.code() }
}

} // verus!
