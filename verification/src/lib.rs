//! Building blocks of a QUIC reverse proxy.

pub mod cli;
pub mod client;
pub mod conn;
pub mod copy;
pub mod driver;
pub mod errors;
pub mod heap;
pub mod laws;
pub mod net;
pub mod pool;
pub mod reactor;
pub mod rproxy;
pub mod server;
pub mod spawner;
pub mod timeout;
pub mod timers;
pub mod timing_wheel;
pub mod token;
pub mod transfer;
pub mod udp_group;
pub mod validator;
