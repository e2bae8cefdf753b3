//! tvbox-wc: the decisions of the Wayland compositor for the tvbox.

pub mod backend;
pub mod cli;
pub mod cursor;
pub mod fuzz;
pub mod health;
pub mod input;
pub mod ipc;
pub mod json;
pub mod kms;
pub mod recovery;
pub mod render;
pub mod screenshot;
pub mod session;
pub mod stacking;
pub mod state;
pub mod text;
pub mod typing;
