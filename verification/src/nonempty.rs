use vstd::prelude::*;
use vec1::{Size0Error, Vec1};
use crate::call::OverloadSignature;

verus! {

#[verifier::external_type_specification]
#[verifier::external_body]
#[verifier::reject_recursive_types(T)]
pub struct ExVec1<T>(Vec1<T>);

#[verifier::external_type_specification]
#[verifier::external_body]
pub struct ExSize0Error(Size0Error);

/// The items of a non-empty list of overload signatures, in order.
pub uninterp spec fn signature_items(v: Vec1<OverloadSignature>) -> Seq<OverloadSignature>;

/// `Vec1::try_from_vec` on overload signatures: fails exactly when the vector is empty, and
/// otherwise holds its items.
#[verifier::external_body]
pub fn signatures_try_from_vec(v: Vec<OverloadSignature>) -> (r: Result<Vec1<OverloadSignature>, Size0Error>)
    ensures
        (r is Ok) == (v@.len() > 0),
        r matches Ok(x) ==> signature_items(x) == v@,
{
    Vec1::try_from_vec(v)
}

/// `Vec1::into_vec` on overload signatures: the underlying vector, which holds at least one
/// item (a `Vec1` is never empty).
#[verifier::external_body]
pub fn signatures_into_vec(v: Vec1<OverloadSignature>) -> (r: Vec<OverloadSignature>)
    ensures
        r@ == signature_items(v),
        r@.len() >= 1,
{
    v.into_vec()
}

} // verus!
