//! 128-bit identifiers for entities, users, tasks and messages.

use vstd::prelude::*;

verus! {

/// A universally unique identifier, held as the number that its sixteen
/// bytes spell in big-endian order.
#[derive(Clone, Copy, Debug, PartialEq, Eq, Structural, Hash)]
pub struct Uuid {
    pub value: u128,
}

/// The lower-case hexadecimal digit for a number below sixteen.
pub open spec fn hex_digit(n: int) -> char {
    seq![
        '0', '1', '2', '3', '4', '5', '6', '7', '8', '9', 'a', 'b', 'c', 'd', 'e', 'f',
    ][n]
}

/// The four bits of `value` at place `index`, place 0 being the most
/// significant of the thirty-two.
pub open spec fn nibble(value: u128, index: int) -> int {
    ((value >> ((4 * (31 - index)) as u128)) & 0xf) as int
}

/// How many hyphens stand before place `i` of the hyphenated form.
pub open spec fn hyphens_before(i: int) -> int {
    if i < 8 {
        0
    } else if i < 13 {
        1
    } else if i < 18 {
        2
    } else if i < 23 {
        3
    } else {
        4
    }
}

/// The canonical text of an identifier: thirty-two lower-case hexadecimal
/// digits, most significant first, in groups of 8, 4, 4, 4 and 12 joined by
/// hyphens.
pub open spec fn hyphenated(value: u128) -> Seq<char> {
    Seq::new(
        36,
        |i: int|
            if i == 8 || i == 13 || i == 18 || i == 23 {
                '-'
            } else {
                hex_digit(nibble(value, i - hyphens_before(i)))
            },
    )
}

/// Formats through the `Display` impl of `mongodb::bson::Uuid`, built with
/// `from_bytes` from the big-endian bytes of `value`. Trusted: that impl
/// writes the hyphenated lower-case form.
#[verifier::external_body]
fn display_text(value: u128) -> (text: String)
    ensures
        text@ == hyphenated(value),
{
    mongodb::bson::Uuid::from_bytes(value.to_be_bytes()).to_string()
}

/// Whether an identifier has the form of a randomly drawn one: its version
/// (the thirteenth hexadecimal digit) is 4 and its variant (the two highest
/// bits of the seventeenth digit) is binary 10. All other bits are free.
pub open spec fn is_random_form(value: u128) -> bool {
    (value >> 76) & 0xf == 4 && (value >> 62) & 0x3 == 2
}

/// Draws a random identifier with `mongodb::bson::Uuid::new`, which makes a
/// version 4 identifier. Trusted: the value has the version and variant
/// bits of that form. Nothing is promised of its other bits: they differ
/// from call to call.
#[verifier::external_body]
fn random_value() -> (value: u128)
    ensures
        is_random_form(value),
{
    u128::from_be_bytes(mongodb::bson::Uuid::new().bytes())
}

impl Uuid {
    /// The identifier whose big-endian bytes spell `value`.
    pub fn from_u128(value: u128) -> (result: Self)
        ensures
            result.value == value,
    {
        Uuid { value }
    }

    /// The number that the identifier's big-endian bytes spell.
    pub fn as_u128(&self) -> (value: u128)
        ensures
            value == self.value,
    {
        self.value
    }

    /// The canonical hyphenated text of the identifier.
    pub fn to_text(&self) -> (text: String)
        ensures
            text@ == hyphenated(self.value),
    {
        display_text(self.value)
    }

    /// A freshly drawn random identifier.
    pub(crate) fn fresh() -> (result: Self)
        ensures
            is_random_form(result.value),
    {
        Uuid { value: random_value() }
    }
}

} // verus!
