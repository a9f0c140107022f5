//! A framed request/response/push protocol over byte streams, with the
//! state and decisions of its channels, clients, servers and device hub.

pub mod buffers;
pub mod wire;
pub mod packet;
pub mod channel;
pub mod callbacks;
pub mod server;
pub mod client;
pub mod rpc;
pub mod service;
pub mod device;
pub mod connector;
pub mod factory;
