//! Identifiers of transfers, files and refreshes.
use crate::text;
use uuid::Uuid;
use vstd::prelude::*;

verus! {

/// A hexadecimal digit, of either case.
pub open spec fn is_hex_char(c: char) -> bool {
    '0' <= c <= '9' || 'a' <= c <= 'f' || 'A' <= c <= 'F'
}

/// The places of a hyphenated UUID that hold a hyphen.
pub open spec fn is_hyphen_place(i: int) -> bool {
    i == 8 || i == 13 || i == 18 || i == 23
}

/// Thirty-six characters: hyphens at their four places and hexadecimal digits elsewhere.
pub open spec fn is_hyphenated_uuid(id: Seq<char>) -> bool {
    &&& id.len() == 36
    &&& forall|i: int|
        0 <= i < 36 ==> if is_hyphen_place(i) {
            #[trigger] id[i] == '-'
        } else {
            is_hex_char(id[i])
        }
}

/// Thirty-two hexadecimal digits.
pub open spec fn is_simple_uuid(id: Seq<char>) -> bool {
    id.len() == 32 && forall|i: int| 0 <= i < 32 ==> is_hex_char(#[trigger] id[i])
}

/// A UUID in one of its four written forms: simple, hyphenated, in braces, or as a URN.
pub open spec fn is_uuid(id: Seq<char>) -> bool {
    ||| is_simple_uuid(id)
    ||| is_hyphenated_uuid(id)
    ||| id.len() == 38 && id[0] == '{' && id[37] == '}' && is_hyphenated_uuid(id.subrange(1, 37))
    ||| id.len() == 45 && text::same_ignoring_case(id.take(9), "urn:uuid:"@) && is_hyphenated_uuid(
        id.skip(9),
    )
}

/// Whether `Uuid::parse_str` accepts the text. Claimed: it accepts the four written forms of a
/// UUID, with digits of either case, and nothing else. Every such form is ASCII, so its bytes are
/// its characters.
#[verifier::external_body]
pub(crate) fn uuid_parses(id: &str) -> (r: bool)
    ensures
        r == is_uuid(id@),
{
    Uuid::parse_str(id).is_ok()
}

/// A random identifier, from `Uuid::new_v4`. Claimed of every outcome: it is a hyphenated UUID of
/// version 4. That two of them differ is left unsaid, since it rests on chance.
#[verifier::external_body]
pub(crate) fn fresh_id() -> (id: String)
    ensures
        is_hyphenated_uuid(id@),
        id@[14] == '4',
{
    Uuid::new_v4().to_string()
}

} // verus!
