//! Where new ids come from.

use vstd::prelude::*;
use uuid::Uuid;

verus! {

/// A digit of lower-case hexadecimal.
pub open spec fn is_hex_digit(c: char) -> bool {
    ('0' <= c && c <= '9') || ('a' <= c && c <= 'f')
}

/// The text of a random (version 4) UUID in its usual form: 36 characters,
/// lower-case hexadecimal in groups of 8, 4, 4, 4 and 12 with a hyphen between
/// them, the third group starting with `4` and the fourth with `8`, `9`, `a`
/// or `b`.
pub open spec fn is_uuid_text(text: Seq<char>) -> bool {
    &&& text.len() == 36
    &&& forall|i: int|
        0 <= i < 36 ==> if i == 8 || i == 13 || i == 18 || i == 23 {
            #[trigger] text[i] == '-'
        } else {
            is_hex_digit(text[i])
        }
    &&& text[14] == '4'
    &&& (text[19] == '8' || text[19] == '9' || text[19] == 'a' || text[19] == 'b')
}

/// Draws a new id: `uuid::Uuid::new_v4`, rendered by the `Display` impl of
/// `uuid::Uuid`.
///
/// Trusted, not proved: the text has the hyphenated lower-case form of a
/// version 4 UUID. Nothing is claimed about which one it is: two calls may
/// return the same text. `new_v4` panics where the operating system cannot
/// supply random bytes.
#[verifier::external_body]
pub(crate) fn fresh_id() -> (id: String)
    ensures
        is_uuid_text(id@),
{
    Uuid::new_v4().to_string()
}

} // verus!
