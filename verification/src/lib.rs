//! A C-runtime compatibility layer for a legacy real-time engine running on a
//! host without a native C library: character classes, terminated byte
//! strings, allocation, bounded formatting sinks, file-handle decisions, the
//! keyboard input bridge and the frame blit.
//!
//! Every item is stated over mathematical models (`Seq<u8>`, `int`) and proved
//! against them; the thin layer that talks to the host hands plain values in
//! and takes plain values back.

pub mod compare;
pub mod cstring;
pub mod ctype;
pub mod display;
pub mod format;
pub mod heap;
pub mod input;
pub mod number;
pub mod selftest;
pub mod stdio;
