//! Fresh player ids.

use vstd::prelude::*;

verus! {

/// Whether `c` is one of `0`-`9`, `a`-`f`.
pub open spec fn is_lower_hex(c: char) -> bool {
    ('0' <= c && c <= '9') || ('a' <= c && c <= 'f')
}

/// The shape of a hyphenated UUID: thirty-two lower-case hexadecimal digits
/// in groups of 8, 4, 4, 4 and 12, with a hyphen between groups.
pub open spec fn is_uuid_text(s: Seq<char>) -> bool {
    &&& s.len() == 36
    &&& forall|i: int|
        0 <= i < 36 ==> if i == 8 || i == 13 || i == 18 || i == 23 {
            #[trigger] s[i] == '-'
        } else {
            is_lower_hex(s[i])
        }
}

/// `uuid::Uuid::new_v4()`, written out with its `Display` impl.
///
/// Trusted: the id is random, so nothing is claimed about which id comes
/// back, only what the crate's formatter gives for every UUID: the
/// hyphenated lower-case form. The call panics if the operating system
/// cannot supply random bytes.
#[verifier::external_body]
pub(crate) fn random_uuid_text() -> (id: String)
    ensures
        is_uuid_text(id@),
{
    uuid::Uuid::new_v4().to_string()
}

} // verus!
