//! A texture pool for an immediate-mode GUI rendering backend.
//!
//! The pool reconciles the GUI framework's logical texture space with GPU
//! texture objects: it creates, partially patches and retires textures in
//! response to a per-frame delta stream, and keeps a separate registry for
//! caller-owned native textures. The GPU device itself is outside the
//! library: handles created by the device are passed in and stored, and the
//! library computes exactly which pixels every texture holds.

pub mod delta;
pub mod image;
pub mod laws;
pub mod texture;
