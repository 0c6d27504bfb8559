pub mod voxel;
pub mod mesher;
pub mod block_info;
pub mod streaming;
pub mod chunk_store;
pub mod mesh_builder;
pub mod version;
pub mod terrain;
pub mod chunk;
pub mod states;
