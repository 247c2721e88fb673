//! The language-server side: positions and ranges in the protocol's terms,
//! file URIs, and which servers a file wants.

pub mod jsonrpc;
pub mod registry;
pub mod session;
pub mod types;
