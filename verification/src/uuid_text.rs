//! The textual form of a UUID, as a route segment holds it.

use vstd::prelude::*;

verus! {

/// `uuid::Uuid` carried opaquely through the library's signatures.
#[verifier::external_type_specification]
#[verifier::external_body]
pub struct ExUuid(uuid::Uuid);

/// A lowercase hexadecimal digit.
pub open spec fn is_lower_hex(c: char) -> bool {
    (('0' as u32) <= (c as u32) && (c as u32) <= ('9' as u32)) || (('a' as u32) <= (c as u32) && (
    c as u32) <= ('f' as u32))
}

/// The shape of a hyphenated UUID rendering: 36 characters, lowercase
/// hexadecimal digits in five groups separated by `-` at positions 8, 13,
/// 18, and 23.
pub open spec fn is_uuid_text(s: Seq<char>) -> bool {
    &&& s.len() == 36
    &&& s[8] == '-' && s[13] == '-' && s[18] == '-' && s[23] == '-'
    &&& forall|k: int|
        0 <= k < 36 && k != 8 && k != 13 && k != 18 && k != 23 ==> is_lower_hex(#[trigger] s[k])
}

/// A hyphenated UUID rendering is a valid path component: non-empty, free of
/// separators, clean at both boundaries, and not brace-wrapped.
pub proof fn lemma_uuid_text_component(s: Seq<char>)
    requires
        is_uuid_text(s),
    ensures
        s.len() == 36,
        crate::text::has_no_slash(s),
        !crate::text::is_space(s[0]),
        !crate::text::is_space(s.last()),
        s[0] != '{',
{
    assert forall|k: int| 0 <= k < s.len() implies s[k] != '/' by {
        if k != 8 && k != 13 && k != 18 && k != 23 {
            assert(is_lower_hex(s[k]));
        }
    }
    assert(is_lower_hex(s[0]));
    assert(is_lower_hex(s[35]));
}

/// Relies on `uuid::Uuid::to_string`, which writes the hyphenated lowercase
/// form: hexadecimal digit groups of 8, 4, 4, 4, and 12 digits, separated by
/// `-`.
#[verifier::external_body]
pub(crate) fn uuid_hyphenated(id: &uuid::Uuid) -> (text: String)
    ensures
        is_uuid_text(text@),
{
    id.to_string()
}

} // verus!
