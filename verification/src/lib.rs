//! A minimal HTTP/1.1 static-file server core: wire codec, client table,
//! path router and configuration parser, with the event loop and all I/O
//! kept outside the library.

pub mod ascii;
pub mod client;
pub mod config_error;
pub mod config_file;
pub mod handler;
pub mod headers;
pub mod mime;
pub mod options;
pub mod path;
pub mod reactor;
pub mod request;
pub mod response;
pub mod routes;
pub mod serve;
pub mod status;
