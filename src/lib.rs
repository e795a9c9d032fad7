//! Core of a three-party replicated-secret-sharing matcher: ring shares,
//! the masked threshold circuit, the open round, the wire codec for
//! network values and the party synchronization record.

pub mod bytes;
pub mod circuit;
pub mod request;
pub mod ring;
pub mod sync;
pub mod threshold;
pub mod wire;
