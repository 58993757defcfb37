use vstd::prelude::*;

verus! {

/// A look at a value as a `T`, for the values that hold one. The look neither fails
/// loudly nor uses the value up.
pub trait TryAsRef<T> {
    /// The `T` that the value holds, if it holds one.
    spec fn held(&self) -> Option<T>;

    /// A reference to the `T` that the value holds, or `None` when it holds none.
    fn try_as_ref(&self) -> (found: Option<&T>)
        ensures
            found is Some == self.held() is Some,
            found matches Some(inner) ==> *inner == self.held()->0,
    ;
}

} // verus!
