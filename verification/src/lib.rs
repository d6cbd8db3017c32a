//! A sans-io implementation of the SCTP protocol.
use vstd::prelude::*;

mod table;
mod wire;
pub mod addr;
pub mod assoc;
pub mod endpoint;
pub mod packet;

pub use addr::{FakeAddr, SocketAddress, TransportAddress};
pub use endpoint::{AssocAlias, Sctp, Settings};
pub use packet::{Chunk, Packet};

verus! {

/// The identifier of an association within one endpoint.
#[derive(Clone, Copy, PartialEq, Eq, Structural, Hash, Debug)]
pub struct AssocId(pub u64);

} // verus!
