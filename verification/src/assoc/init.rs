//! The outcome of the endpoint's handlers for the chunks that set up associations.
use vstd::prelude::*;

verus! {

/// What a handler made of the first chunk of a packet: not its kind of chunk, handled
/// (with what came of it), or an error that ends the processing of the packet.
#[derive(Debug, Clone, Copy, PartialEq, Eq)]
pub enum HandleSpecialResult<T> {
    NotRecognized,
    Handled(T),
    Error,
}

impl<T> HandleSpecialResult<T> {
    /// Whether the packet is done with: handled or refused.
    pub fn handled_or_error(&self) -> (r: bool)
        ensures
            r == !(self is NotRecognized),
    {
        match self {
            HandleSpecialResult::NotRecognized => false,
            _ => true,
        }
    }
}

} // verus!
