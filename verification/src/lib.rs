//! Byte-level patching of binary files: a patch descriptor names a place in
//! a buffer (a literal offset, a wildcard byte pattern, or a symbol of an
//! annotated text dump) and the bytes to write or insert there.

pub mod args;
pub mod card;
pub mod descriptor;
pub mod engine;
pub mod event;
pub mod hex;
pub mod job;
pub mod mutate;
pub mod pattern;
pub mod symbols;
pub mod text;
