//! What the operations of the library are for, stated on what goes in and what comes out.

pub mod cli;
pub mod client;
pub mod conn;
pub mod errors;
pub mod net;
pub mod pool;
pub mod reactor;
pub mod rproxy;
pub mod server;
pub mod tasks;
pub mod timing_wheel;
pub mod token;
pub mod transfer;
pub mod validator;
