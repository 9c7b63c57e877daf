//! Identifiers for new notes.

use uuid::Uuid;
use vstd::prelude::*;

verus! {

/// `c` is a decimal digit or one of the letters `a` to `f`.
pub open spec fn is_lower_hex(c: char) -> bool {
    ('0' <= c && c <= '9') || ('a' <= c && c <= 'f')
}

/// `s` has the shape of a random (version 4) UUID written in its hyphenated
/// lower-case form: 36 characters in groups of 8, 4, 4, 4 and 12 hexadecimal
/// digits, with the version digit `4` and a variant digit of `8` to `b`.
pub open spec fn is_uuid_v4_text(s: Seq<char>) -> bool {
    &&& s.len() == 36
    &&& forall|i: int|
        0 <= i < 36 ==> if i == 8 || i == 13 || i == 18 || i == 23 {
            #[trigger] s[i] == '-'
        } else {
            is_lower_hex(s[i])
        }
    &&& s[14] == '4'
    &&& (s[19] == '8' || s[19] == '9' || s[19] == 'a' || s[19] == 'b')
}

/// Calls `Uuid::new_v4` and writes the result out with `to_string`.
///
/// The text is different from call to call, so only its shape is claimed:
/// the hyphenated lower-case form of a version 4 UUID. Like the call it
/// makes, this does not return where the operating system cannot supply
/// random bytes.
#[verifier::external_body]
pub(crate) fn fresh_id() -> (id: String)
    ensures
        is_uuid_v4_text(id@),
{
    Uuid::new_v4().to_string()
}

} // verus!
