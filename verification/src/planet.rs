pub mod debug;
pub mod mesh;
pub mod meshing;
pub mod startup;
pub mod world;
