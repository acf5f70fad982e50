//! Client side of an MPC signing service: the protobuf frames exchanged with
//! the relay server, the filtering of inbound protocol messages, the stamping
//! of outbound ones, and the decisions taken on server events.

pub mod wire;
pub mod protos;
pub mod message;
pub mod network;
