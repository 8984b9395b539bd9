pub mod bvh;
pub mod camera;
pub mod checkered;
pub mod color;
pub mod text;
pub mod utils;
pub mod vec3;
