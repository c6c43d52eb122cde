//! A first-person raycasting renderer: a 2D tile grid is turned into a
//! pseudo-3D view by casting one ray per screen column with a grid DDA,
//! plus a top-down minimap overlay.
//!
//! All world-space quantities (positions, directions, distances, angles)
//! are carried as 16.16 fixed-point integers, so every geometric
//! computation here is exact integer arithmetic with a verified meaning.
//! Trigonometry (turning an angle into a direction vector) happens at the
//! edge, outside this crate, and enters as plain fixed-point components.

pub mod caster;
pub mod color;
pub mod fixed;
pub mod framebuffer;
pub mod maze;
pub mod minimap;
pub mod player;
pub mod render;
pub mod textures;
