//! The logic of a fullscreen loading overlay, verified with Verus.

pub mod background;
pub mod blit;
pub mod blur;
pub mod blur_laws;
pub mod color;
pub mod config;
pub mod counter;
pub mod gif;
pub mod picture;
pub mod scene;
pub mod seed;
pub mod settings;
pub mod state;
pub mod watch;
