pub mod geom;
pub mod collision;
