//! Interledger packet handling, routing and STREAM payment logic.

pub mod address;
pub mod crypto;
pub mod error;
pub mod frames;
pub mod http;
pub mod octets;
pub mod outgoing;
pub mod packet;
pub mod quantity;
pub mod receiver;
pub mod router;
pub mod sender;
pub mod service;
pub mod spsp;
pub mod timestamp;
