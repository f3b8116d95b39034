pub mod chat;
pub mod client;
pub mod components;
pub mod hands;
pub mod map;
pub mod movement;
pub mod resource;
pub mod server;
pub mod text;
pub mod utils;
