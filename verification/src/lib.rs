//! Battleplan: the planning data of a project and the crawl of its tracking links.
pub mod command;
pub mod crawl;
pub mod errors;
pub mod gh;
pub mod plan;
pub mod ponder;
pub mod reading;
pub mod text;
pub mod time;
pub mod warnings;
pub mod web;
pub mod yaml;
