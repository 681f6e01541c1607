//! Parameter types of the Bluetooth Host Controller Interface and their wire encoding.
//!
//! Every parameter implements [`WriteHci`], which appends its encoding to a byte buffer, and
//! [`FromHciBytes`], which reads one from the front of a byte slice.
pub mod bitfield;
pub mod codec;
mod bytes;
mod ints;
mod tuples;
pub mod duration;
pub mod hvec;
pub mod list;
pub mod param;

pub use bitfield::BitField;
pub use codec::{FromHciBytes, FromHciBytesError, HciRoundTrip, WriteHci};
pub use duration::Duration;
pub use hvec::HciVec;
pub use list::ParamSlice;
pub use param::{BdAddr, ConnHandle};
