//! Verified core of a LAN file-transfer service: sandboxed path resolution,
//! an FTP control-channel state machine, and an HTTP request router, all
//! working over plain bytes. Socket and filesystem work lives outside this
//! library and feeds results back in as plain values.

pub mod bytes;
pub mod ftp;
pub mod http;
pub mod lifecycle;
pub mod pasv;
pub mod response;
pub mod router;
pub mod sandbox;

