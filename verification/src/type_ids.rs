//! Types told apart at run time.

use core::marker::PhantomData;

use vstd::prelude::*;

verus! {

/// The identifiers that std gives to types.
#[verifier::external_type_specification]
#[verifier::external_body]
pub struct ExTypeId(std::any::TypeId);

/// A type with its identifier.
pub ghost struct Identified<T: ?Sized> {
    pub id: std::any::TypeId,
    pub of: PhantomData<T>,
}

/// The identifier of a type: some value that the type alone decides, and of which nothing else is
/// known.
pub open spec fn id_of_type<T: ?Sized>() -> std::any::TypeId {
    arbitrary::<Identified<T>>().id
}

/// `std::any::TypeId::of` gives the identifier of a type. It is the same in each call. That no two
/// types have the same one is not said here, since contracts can't speak of types being different.
pub assume_specification<T: ?Sized + 'static>[ std::any::TypeId::of::<T> ]() -> (id:
    std::any::TypeId)
    ensures
        id == id_of_type::<T>(),
;

/// `==` of `std::any::TypeId` tells whether two identifiers are the same.
#[verifier::external_body]
pub(crate) fn same_type_id(a: std::any::TypeId, b: std::any::TypeId) -> (res: bool)
    ensures
        res == (a == b),
{
    a == b
}

} // verus!
