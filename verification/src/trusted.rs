//! The few places where the library leans on outside crates: fresh
//! identifiers, the clock, and JSON encoding of scenario-name lists.
use vstd::prelude::*;

verus! {

/// The views of a list of strings.
pub open spec fn views_of(s: Seq<String>) -> Seq<Seq<char>> {
    s.map_values(|x: String| x@)
}

/// The JSON array text that serde_json produces for a list of strings.
/// It is a function of the list alone.
pub uninterp spec fn json_strlist_of(v: Seq<Seq<char>>) -> Seq<char>;

/// Relies on uuid::Uuid::new_v4: a freshly generated random 128-bit
/// identifier. Nothing can be promised about the value.
#[verifier::external_body]
pub(crate) fn fresh_uuid() -> u128 {
    uuid::Uuid::new_v4().as_u128()
}

/// Relies on time::OffsetDateTime::now_utc and unix_timestamp_nanos: the
/// current UTC instant as nanoseconds since the Unix epoch. Nothing can be
/// promised about the value.
#[verifier::external_body]
pub(crate) fn now_unix_nanos() -> i128 {
    time::OffsetDateTime::now_utc().unix_timestamp_nanos()
}

/// Relies on serde_json::to_string: serializing a `Vec<String>` always
/// succeeds and yields the JSON array text, which depends on the list alone.
#[verifier::external_body]
pub(crate) fn json_encode_string_list(v: &Vec<String>) -> (r: String)
    ensures
        r@ == json_strlist_of(views_of(v@)),
{
    serde_json::to_string(v).unwrap()
}

/// Relies on serde_json::from_str: parsing the exact text that
/// serde_json::to_string produced for a list of strings gives back that list.
#[verifier::external_body]
pub(crate) fn json_decode_string_list(s: &str) -> (r: Option<Vec<String>>)
    ensures
        (exists|v: Seq<Seq<char>>| s@ == json_strlist_of(v)) ==> r is Some,
        r matches Some(l) ==> forall|v: Seq<Seq<char>>|
            s@ == json_strlist_of(v) ==> views_of(l@) == v,
{
    serde_json::from_str(s).ok()
}

} // verus!
