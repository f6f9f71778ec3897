//! ers: decides which application windows get a border overlay, where each
//! overlay goes and what it looks like.

pub mod admission;
pub mod agenda;
pub mod border;
pub mod borders;
pub mod color;
pub mod config;
pub mod construction;
pub mod display;
pub mod event;
pub mod fidelity;
pub mod focus;
pub mod geometry;
pub mod options;
pub mod order;
pub mod overlay;
pub mod plan;
pub mod reconcile;
pub mod screen;
mod sequence;
pub mod session;
pub mod surface;
pub mod text;
pub mod timer;
pub mod tracker;
pub mod visibility;
pub mod window;
pub mod world;
