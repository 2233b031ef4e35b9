//! The names under which downloads are known.

use vstd::prelude::*;

verus! {

/// A lower-case hexadecimal digit.
pub open spec fn is_hex(c: char) -> bool {
    '0' <= c <= '9' || 'a' <= c <= 'f'
}

/// The positions of the hyphens in an id.
pub open spec fn hyphen_at(i: int) -> bool {
    i == 8 || i == 13 || i == 18 || i == 23
}

/// The text of a random UUID (version 4): 36 characters, hyphens at four positions and
/// lower-case hexadecimal digits at the others, with the marks of the version and the variant.
pub open spec fn is_id(s: Seq<char>) -> bool {
    &&& s.len() == 36
    &&& forall|i: int|
        0 <= i < 36 ==> if hyphen_at(i) {
            #[trigger] s[i] == '-'
        } else {
            is_hex(s[i])
        }
    &&& s[14] == '4'
    &&& s[19] == '8' || s[19] == '9' || s[19] == 'a' || s[19] == 'b'
}

/// `uuid::Uuid::new_v4` and its `Display`: a random UUID as text. Claimed is the form that every
/// such text has; the digits are left to chance.
#[verifier::external_body]
pub(crate) fn new_id() -> (r: String)
    ensures
        is_id(r@),
{
    uuid::Uuid::new_v4().to_string()
}

/// The id was made up: it is the text of a UUID that was drawn.
pub closed spec fn made_up(id: Seq<char>) -> bool {
    exists|s: String| s@ == id && #[trigger] call_ensures(new_id, (), s)
}

/// Makes up an id.
pub(crate) fn make_up_id() -> (r: String)
    ensures
        is_id(r@),
        made_up(r@),
{
    new_id()
}

/// Only the text of a UUID that was drawn is an id that was made up.
pub(crate) proof fn law_ids_are_drawn(id: Seq<char>)
    ensures
        made_up(id) <==> exists|s: String| s@ == id && #[trigger] call_ensures(new_id, (), s),
        made_up(id) ==> is_id(id),
{
}

} // verus!
