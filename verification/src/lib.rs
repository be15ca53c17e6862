pub mod car;
pub mod deviation;
pub mod fuzzy;
pub mod geom;
pub mod mesh;
pub mod network;
pub mod planner;
