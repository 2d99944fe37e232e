//! A message broker: framed wire protocol, per-(group, topic) FIFO channels,
//! group and connection registries, and the dispatcher's decisions.
pub mod channel;
pub mod client;
pub mod codec;
pub mod group;
pub mod keyed;
pub mod msg;
pub mod protocol;
pub mod server;
pub mod topic;
pub mod types;
