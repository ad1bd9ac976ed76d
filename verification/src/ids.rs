//! Random ids for entities that move between worlds.
use vstd::prelude::*;

verus! {

#[verifier::external_type_specification]
#[verifier::external_body]
pub struct ExUuid(uuid::Uuid);

/// Calls `uuid::Uuid::new_v4`, which draws a random version-4 id. Nothing
/// is claimed of the id drawn: the library never reads inside an id, and the
/// outside type is opaque here.
#[verifier::external_body]
pub(crate) fn new_random_uuid() -> uuid::Uuid {
    uuid::Uuid::new_v4()
}

/// Calls `PartialEq::eq` of `uuid::Uuid`, which the crate derives over the
/// id's bytes: two ids are equal when they are the same id.
#[verifier::external_body]
pub(crate) fn same_uuid(a: &uuid::Uuid, b: &uuid::Uuid) -> (r: bool)
    ensures
        r == (*a == *b),
{
    a == b
}

} // verus!
