pub mod actor;
pub mod event;
pub mod hash;
pub mod session;
pub mod utils;
pub mod websocket;
pub mod websocket_handler;
pub mod kafka;
pub mod session_manager;
pub mod http;
pub mod request_handler;
