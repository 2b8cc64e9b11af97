pub mod collider;
pub mod geometry;
pub mod id;
mod random;
pub mod rotation;
pub mod config;
pub mod entity;
pub mod model;
pub mod logic;
pub mod guns;
pub mod gen;
pub mod player;
pub mod laws;
pub mod interpolation;
pub mod shake;
pub mod spectate;
pub mod local;
pub mod ranking;
pub mod particles;
pub mod smoothing;
