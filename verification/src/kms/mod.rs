//! Driving the display engine.

pub mod framebuffer;
pub mod hdr;
