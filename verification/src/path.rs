use vstd::prelude::*;

verus! {

/// A value extracted from a request path segment; the surrounding HTTP
/// layer fills it in before an endpoint runs.
pub struct Path<T>(pub T);

impl<T> Path<T> {
    /// The extracted value.
    pub fn into_inner(self) -> (r: T)
        ensures
            r == self.0,
    {
        self.0
    }
}

} // verus!
