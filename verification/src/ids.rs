//! Identifiers made by chance.

use vstd::prelude::*;

verus! {

/// Whether a character is a hexadecimal digit in lower case.
pub open spec fn is_hex(c: char) -> bool {
    ('0' <= c && c <= '9') || ('a' <= c && c <= 'f')
}

/// Whether a text has the form of a UUID: 36 characters, hyphens behind the digits 8, 12, 16 and
/// 20, and hexadecimal digits in lower case everywhere else.
pub open spec fn is_uuid_text(s: Seq<char>) -> bool {
    s.len() == 36 && forall|i: int|
        0 <= i < 36 ==> if i == 8 || i == 13 || i == 18 || i == 23 {
            #[trigger] s[i] == '-'
        } else {
            is_hex(s[i])
        }
}

/// Whether the digits at two places are those of a UUID made by chance: the version, which is four,
/// and the variant.
pub open spec fn is_random_mark(version: char, variant: char) -> bool {
    version == '4' && (variant == '8' || variant == '9' || variant == 'a' || variant == 'b')
}

/// `uuid::Uuid::new_v4` as text. Which UUID it is rests on chance.
#[verifier::external_body]
pub(crate) fn random_uuid() -> (r: String)
    ensures
        is_uuid_text(r@),
        is_random_mark(r@[14], r@[19]),
{
    uuid::Uuid::new_v4().to_string()
}

/// A new identifier.
pub fn new_id() -> (r: String)
    ensures
        is_uuid_text(r@),
        is_random_mark(r@[14], r@[19]),
{
    random_uuid()
}

/// `uuid::Uuid::new_v4` as text without hyphens. Which UUID it is rests on chance.
#[verifier::external_body]
pub(crate) fn random_simple_uuid() -> (r: String)
    ensures
        r@.len() == 32,
        forall|i: int| 0 <= i < 32 ==> is_hex(#[trigger] r@[i]),
        is_random_mark(r@[12], r@[16]),
{
    uuid::Uuid::new_v4().simple().to_string()
}

} // verus!
