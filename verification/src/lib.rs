//! Integer core of a voxel diorama ray tracer: colours, textures, the
//! diorama's block layout, the up-scaling of a low-resolution render into the
//! frame buffer, and the quality controls of the render loop.

pub mod color;
pub mod renderer;
pub mod scene;
pub mod texture;
pub mod textures;
pub mod controls;
