pub mod collision;
pub mod event;
pub mod game_field;
