//! The connection that a download of a URL needs, and the proxy that the environment names.
pub mod hyper;
pub mod hyper_base;
