use vstd::prelude::*;

pub mod entry;
pub mod guard;
pub mod namer;
pub mod ops;
pub mod path;
pub mod upload;

verus! {

/// Why a request was turned away.
#[derive(Clone, Copy, Debug, PartialEq, Eq, Structural)]
pub enum Rejection {
    NotFound,
    PayloadTooLarge,
    LengthRequired,
}

/// The one-value tuple that a route extracts.
pub type One<T> = (T,);

/// Wraps a value as the single item of a route's extract.
pub fn one<T>(val: T) -> (r: One<T>)
    ensures
        r.0 == val,
{
    (val,)
}

} // verus!
