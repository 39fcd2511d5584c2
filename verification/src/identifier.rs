//! Secret identifiers: 128-bit UUIDs, held by their value.
//!
//! Reading and writing the textual forms is the work of the `uuid` crate.
//! The three functions of this module that call it are the only code here
//! that Verus takes on trust; what they promise is said above each.

use std::str::FromStr;
use uuid::Uuid;
use vstd::arithmetic::power::pow;
use vstd::prelude::*;

verus! {

/// The value that the `uuid` crate reads out of `text`, or `None` where it
/// rejects the text. It accepts the simple, hyphenated, braced and URN
/// forms, in either letter case.
pub uninterp spec fn uuid_value(text: Seq<char>) -> Option<u128>;

/// The hexadecimal digit of `value` at place `k`, counted from the most
/// significant one: place 0 is the first digit written, place 31 the last.
pub open spec fn hex_digit_at(value: u128, k: int) -> int {
    (value as int / pow(16, (31 - k) as nat)) % 16
}

/// The lower-case character for a hexadecimal digit.
pub open spec fn hex_char(digit: int) -> char {
    seq![
        '0', '1', '2', '3', '4', '5', '6', '7', '8', '9', 'a', 'b', 'c', 'd', 'e', 'f',
    ][digit]
}

/// How many hyphens the hyphenated form has before position `p`.
pub open spec fn hyphens_before(p: int) -> int {
    if p < 8 {
        0
    } else if p < 13 {
        1
    } else if p < 18 {
        2
    } else if p < 23 {
        3
    } else {
        4
    }
}

/// The canonical text of a UUID: 32 lower-case hexadecimal digits in groups
/// of 8, 4, 4, 4 and 12, with a hyphen between two groups.
pub open spec fn hyphenated(value: u128) -> Seq<char> {
    Seq::new(
        36,
        |p: int|
            if p == 8 || p == 13 || p == 18 || p == 23 {
                '-'
            } else {
                hex_char(hex_digit_at(value, p - hyphens_before(p)))
            },
    )
}

/// Whether `value` carries the marks of a random UUID: version 4 in the
/// first digit of the third group, and the RFC variant (one of `8`, `9`,
/// `a`, `b`) in the first digit of the fourth.
pub open spec fn is_random_uuid(value: u128) -> bool {
    &&& hex_digit_at(value, 12) == 4
    &&& 8 <= hex_digit_at(value, 16) <= 11
}

/// The identifier of one secret in the vault.
#[derive(Clone, Copy, Debug, PartialEq, Eq, Hash, Structural)]
pub struct SecretId {
    /// The UUID as one number, its first byte the most significant.
    pub value: u128,
}

/// The identifier that `text` stands for, if it stands for one.
pub open spec fn secret_id_of(text: Seq<char>) -> Option<SecretId> {
    match uuid_value(text) {
        Some(value) => Some(SecretId { value }),
        None => None,
    }
}

/// Calls `Uuid::from_str` and hands back the UUID as a number, by
/// `Uuid::as_u128`. Trusted: the result is what the crate's parser makes of
/// the text, which [`uuid_value`] names; nothing is claimed about which
/// texts it accepts.
#[verifier::external_body]
pub(crate) fn parse_uuid(text: &str) -> (r: Option<u128>)
    ensures
        r == uuid_value(text@),
{
    match Uuid::from_str(text) {
        Ok(id) => Some(id.as_u128()),
        Err(_) => None,
    }
}

/// Calls `Uuid::from_u128` and formats the UUID with `Uuid::hyphenated`.
/// Trusted: the text is the lower-case hyphenated form of the number, the
/// form that the crate also uses when a UUID is displayed.
#[verifier::external_body]
pub(crate) fn format_uuid(value: u128) -> (r: String)
    ensures
        r@ == hyphenated(value),
{
    Uuid::from_u128(value).hyphenated().to_string()
}

/// Calls `Uuid::new_v4` and hands back the UUID as a number, by
/// `Uuid::as_u128`. Trusted: the crate sets the version and variant bits of
/// every UUID it draws; the other 122 bits come from the system's random
/// source and nothing is claimed about them. The call panics where that
/// source cannot be read.
#[verifier::external_body]
pub(crate) fn random_uuid() -> (r: u128)
    ensures
        is_random_uuid(r),
{
    Uuid::new_v4().as_u128()
}

impl SecretId {
    /// Reads an identifier from its text.
    pub fn parse(text: &str) -> (r: Option<SecretId>)
        ensures
            r == secret_id_of(text@),
    {
        match parse_uuid(text) {
            Some(value) => Some(SecretId { value }),
            None => None,
        }
    }

    /// The canonical, hyphenated text of the identifier.
    pub fn to_text(&self) -> (r: String)
        ensures
            r@ == hyphenated(self.value),
    {
        format_uuid(self.value)
    }
}

/// Every character of the canonical text is a hyphen, a decimal digit or
/// one of the letters `a` to `f`.
pub proof fn lemma_hyphenated_alphabet(value: u128, p: int)
    requires
        0 <= p < 36,
    ensures
        hyphenated(value).len() == 36,
        ({
            let c = hyphenated(value)[p];
            c == '-' || ('0' <= c <= '9') || ('a' <= c <= 'f')
        }),
{
    let d = hex_digit_at(value, p - hyphens_before(p));
    assert(0 <= d < 16);
}

} // verus!
