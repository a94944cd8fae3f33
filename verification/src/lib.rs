pub mod cli;
pub mod client;
pub mod digest;
pub mod image_type;
pub mod index;
pub mod manager;
pub mod service;
pub mod store;
pub mod text;
