pub mod text;
pub mod search;
pub mod rust_wasm;
pub mod pong;
pub mod client;
pub mod server;
pub mod proxy;
