use vstd::prelude::*;

verus! {

/// A status response: the structured `{message}` body returned to clients.
#[derive(Debug)]
pub struct Status {
    pub message: String,
}

impl Status {
    /// Builds a status from a message literal.
    pub fn from_message(message: &str) -> (r: Status)
        ensures
            r.message@ == message@,
    {
        Status { message: message.to_owned() }
    }
}

} // verus!
