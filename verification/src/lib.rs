//! The exact, discrete part of a recursive path tracer.
//!
//! Shading arithmetic on real-valued colours and vectors lives with the caller.
//! This crate holds every decision the renderer takes on discrete data, each with a
//! machine-checked contract:
//!
//! - `cast`: which usable distance is the nearest, and what a ray does next;
//! - `material`: which lobes of a material are sampled, and with what budget;
//! - `frame`, `scheduler`: the image buffer, its tiles and its workers;
//! - `obj_parser`, `mtl_parser`, `text`: the scene file formats;
//! - `mesh`, `name_map`: faces, vertices and materials of a triangle mesh;
//! - `texture`: pixel and checkerboard addressing;
//! - `matrix`: storage of four-by-four matrices;
//! - `utils`, `timing`, `fidelity_consts`: small helpers and defaults.

pub mod cast;
pub mod fidelity_consts;
pub mod frame;
pub mod material;
pub mod matrix;
pub mod mesh;
pub mod mtl_parser;
pub mod name_map;
pub mod obj_parser;
pub mod scheduler;
pub mod text;
pub mod texture;
pub mod timing;
pub mod utils;
