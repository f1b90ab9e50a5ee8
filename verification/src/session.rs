use vstd::prelude::*;

verus! {

/// A freshly issued session: the opaque token handed to the client and the
/// time-to-live, in seconds, that the caller advertises for it.
#[derive(Debug)]
pub struct Session {
    pub token: String,
    pub ttl: usize,
}

} // verus!
