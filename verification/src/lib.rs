//! The core of a small HTTP/1.1 origin server that serves many clients on one
//! thread: request framing, routing, response assembly, and the state of the
//! reactor that drives connections and scripts. The library decides; the
//! program around it owns the sockets, the files and the processes.

pub mod bytes;
pub mod cgi;
pub mod config;
pub mod config_parser;
pub mod connection;
pub mod dispatch;
pub mod headers;
pub mod laws;
pub mod number;
pub mod paths;
pub mod request;
pub mod response;
pub mod routing;
pub mod server;
pub mod table;
