pub mod collision;
pub mod detection;
pub mod handler;
