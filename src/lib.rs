//! A voxel world whose visible faces are kept in per-chunk caches that are
//! patched incrementally on every block change, together with the ray
//! traversal that finds the block a player is aiming at.
pub mod block;
pub mod chunk_faces;
pub mod face;
pub mod orientation;
pub mod packed;
pub mod ray;
pub mod world;
pub mod world_blocks;
pub mod world_size;
