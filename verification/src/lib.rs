pub mod json;
pub mod text;
pub mod encoding;
pub mod html;
pub mod market;
pub mod store;
pub mod maps;
pub mod response;
pub mod config;
pub mod cache;
