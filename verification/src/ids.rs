//! Random identifiers handed out for groups and announcements.

use vstd::prelude::*;

verus! {

pub open spec fn is_lower_hex(c: char) -> bool {
    ('0' <= c && c <= '9') || ('a' <= c && c <= 'f')
}

/// The hyphenated lower-case text of a version-4 UUID.
pub open spec fn uuid_v4_text(s: Seq<char>) -> bool {
    &&& s.len() == 36
    &&& forall|k: int|
        0 <= k < 36 ==> if k == 8 || k == 13 || k == 18 || k == 23 {
            s[k] == '-'
        } else {
            is_lower_hex(#[trigger] s[k])
        }
    &&& s[14] == '4'
}

/// `uuid::Uuid::new_v4`, written with `to_string`: a random version-4 UUID
/// in hyphenated lower-case hexadecimal.  The contract states the text's
/// shape, which the crate's formatting fixes; the value itself is random.
#[verifier::external_body]
pub(crate) fn new_uuid_v4() -> (id: String)
    ensures
        uuid_v4_text(id@),
{
    uuid::Uuid::new_v4().to_string()
}

} // verus!
