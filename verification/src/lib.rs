//! Decoding of a payment-channel graph snapshot from JSON.
//!
//! [`from_json_str`] takes the text of a snapshot and gives the [`Graph`] that
//! it describes, or the first fault found in it as a [`DecodeError`].

pub mod addr;
pub mod decode;
pub mod encode;
pub mod error;
pub mod json;
pub mod laws;
pub mod model;
pub mod text;

pub use crate::addr::{Ipv4, Ipv6, SocketAddr, SocketAddrV4, SocketAddrV6};
pub use crate::decode::{decode_graph, from_json_str};
pub use crate::error::{DecodeError, Field, JsonKind, PathStep};
pub use crate::json::Json;
pub use crate::model::{Address, Edge, Graph, Node, NodePolicy};
