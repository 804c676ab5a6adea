//! Node identities: the opaque widget identifier and the operations on it.
use iced::advanced::widget::Id;
use vstd::prelude::*;

verus! {

/// The widget identifier `iced::advanced::widget::Id`, carried as an opaque value.
#[verifier::external_type_specification]
#[verifier::external_body]
pub struct ExId(Id);

/// Calls `Id`'s `==`. The identifier derives `PartialEq` over its content, so
/// the contract claims that the comparison holds exactly for equal identifiers.
#[verifier::external_body]
pub(crate) fn same_id(a: &Id, b: &Id) -> (same: bool)
    ensures
        same == (*a == *b),
{
    a == b
}

/// Calls `Id`'s `clone`. The identifier derives `Clone`, so the contract
/// claims that the copy equals the identifier it was made from.
#[verifier::external_body]
pub(crate) fn clone_id(id: &Id) -> (copy: Id)
    ensures
        copy == *id,
{
    id.clone()
}

/// Whether `id` occurs in `ids`.
pub fn contains_id(ids: &Vec<Id>, id: &Id) -> (found: bool)
    ensures
        found == ids@.contains(*id),
{
    let mut i: usize = 0;
    while i < ids.len()
        invariant
            i <= ids.len(),
            forall|k: int| 0 <= k < i ==> ids@[k] != *id,
        decreases ids.len() - i,
    {
        if same_id(&ids[i], id) {
            return true;
        }
        i += 1;
    }
    false
}

} // verus!
