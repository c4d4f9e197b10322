//! Core rules of a peer-to-peer LAN file-transfer service: peer discovery over
//! UDP broadcast and chunked file transfer over parallel TCP streams.
//!
//! The crate holds the protocol logic only. Sockets, files and threads belong
//! to the host program, which feeds events into the state machines defined
//! here and carries out the actions they return.
//!
//! - [`net`] chooses the broadcast addresses to announce on.
//! - [`discovery`] writes and reads announcements and decides what to do with
//!   each datagram.
//! - [`sender`] plans the chunks of an outgoing file and follows the transfer
//!   to its one completion report.
//! - [`receiver`] reads header lines and follows each incoming connection.
//! - [`session`] counts the bytes of the file being received.
//! - [`assembly`] shows that chunks written in any order rebuild the file.
//! - [`devices`] keeps the list of peers that a host has heard of.
//! - [`wire`] holds what the two line protocols share.

pub mod assembly;
pub mod devices;
pub mod discovery;
pub mod net;
pub mod receiver;
pub mod sender;
pub mod session;
pub mod wire;

pub use discovery::{DeviceInfo, DiscoveryCallback};
pub use receiver::TransferCallback;
