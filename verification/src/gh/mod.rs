//! GitHub: the records that its API returns, the requests the client makes, and the
//! choice of connection for a URL.
pub mod client;
pub mod domain;
pub mod http;
pub mod models;
