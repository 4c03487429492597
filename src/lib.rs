//! Asset pipeline and skeletal animation core: texture tiling, mesh
//! extraction, joint hierarchy construction and the pose resolver.
pub mod builder;
pub mod math;
pub mod mesh;
pub mod skeleton;
pub mod texture;
