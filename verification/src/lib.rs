//! Mles: a lightweight publish-subscribe channel service. This library holds
//! the protocol logic of the server and its tools.
pub mod addr;
pub mod hdr;
pub mod msg;
pub mod sip;
pub mod frame;
pub mod peer;
pub mod auth;
pub mod local_db;
pub mod legacy;
pub mod metrics;
pub mod text;
pub mod num;
pub mod cache;
pub mod websocket;
pub mod http;
pub mod proxy;
pub mod config;
pub mod client;
pub mod mina;
pub mod relay;
