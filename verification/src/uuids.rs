//! UUIDs as text.

use vstd::prelude::*;

use crate::text::{chars_of, string_of};
#[allow(unused_imports)]
use crate::text::ascii_lower;

verus! {

/// A hexadecimal digit.
pub open spec fn hex_char(c: char) -> bool {
    '0' <= c <= '9' || 'a' <= c <= 'f' || 'A' <= c <= 'F'
}

/// A hexadecimal digit without capitals.
pub open spec fn lower_hex_char(c: char) -> bool {
    '0' <= c <= '9' || 'a' <= c <= 'f'
}

/// A place at which a hyphen stands.
pub open spec fn hyphen_place(i: int) -> bool {
    i == 8 || i == 13 || i == 18 || i == 23
}

/// 32 digits in groups of 8, 4, 4, 4 and 12.
pub open spec fn hyphenated(s: Seq<char>) -> bool {
    &&& s.len() == 36
    &&& forall|i: int|
        0 <= i < 36 ==> if hyphen_place(i) {
            #[trigger] s[i] == '-'
        } else {
            hex_char(s[i])
        }
}

/// A UUID: 32 digits, or the hyphenated form, bare, in braces or behind
/// `urn:uuid:`.
pub open spec fn uuid_text(s: Seq<char>) -> bool {
    ||| s.len() == 32 && forall|i: int| 0 <= i < 32 ==> hex_char(#[trigger] s[i])
    ||| hyphenated(s)
    ||| s.len() == 38 && s[0] == '{' && s[37] == '}' && hyphenated(s.subrange(1, 37))
    ||| s.len() == 45 && ascii_lower(s.take(9)) == "urn:uuid:"@ && hyphenated(s.skip(9))
}

/// `uuid::Uuid::parse_str`, asked whether it succeeds: it does on 32
/// hexadecimal digits and on the hyphenated form, bare, in braces or behind
/// `urn:uuid:` in any case.
#[verifier::external_body]
pub(crate) fn is_uuid(s: &str) -> (r: bool)
    ensures
        r == uuid_text(s@),
{
    uuid::Uuid::parse_str(s).is_ok()
}

/// `uuid::Uuid::new_v4` as text: a random UUID of version 4, hyphenated and
/// without capitals.
#[verifier::external_body]
fn random_uuid() -> (r: String)
    ensures
        hyphenated(r@),
        forall|i: int| 0 <= i < 36 && !hyphen_place(i) ==> lower_hex_char(#[trigger] r@[i]),
        r@[14] == '4',
        r@[19] == '8' || r@[19] == '9' || r@[19] == 'a' || r@[19] == 'b',
{
    uuid::Uuid::new_v4().to_string()
}

/// The tag can be drawn: it is how a random UUID begins.
pub closed spec fn drawn_tag(tag: Seq<char>) -> bool {
    exists|id: String| #[trigger] call_ensures(random_uuid, (), id) && tag == id@.take(8)
}

/// Eight random hexadecimal digits without capitals: how a newly drawn UUID
/// begins.
pub fn random_tag() -> (r: String)
    ensures
        drawn_tag(r@),
        r@.len() == 8,
        forall|i: int| 0 <= i < 8 ==> lower_hex_char(#[trigger] r@[i]),
{
    let id = random_uuid();
    let cs = chars_of(id.as_str());
    let tag = string_of(&cs, 0, 8);
    assert(tag@ =~= id@.take(8));
    assert forall|i: int| 0 <= i < 8 implies lower_hex_char(#[trigger] tag@[i]) by {
        assert(tag@[i] == id@[i]);
    }
    tag
}

} // verus!
