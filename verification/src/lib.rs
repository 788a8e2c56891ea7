//! Decoders, and encoders where the format is understood well enough, for
//! three families of binary assets: meshes, solid geometry and collision
//! data. Each family has several revisions that are told apart from the
//! first bytes of a file.
//!
//! Every floating-point field is kept as the 32-bit pattern that the file
//! holds, so that whatever is read is written back bit for bit.

pub mod wire;
pub mod plain;
pub mod frame;
pub mod stream;
pub mod mesh;
pub mod mesh_data;
pub mod physics_data;

pub use mesh::read_versioned;
pub use mesh_data::read_versioned as read_mesh_data_versioned;
pub use physics_data::read_versioned as read_physics_data_versioned;
