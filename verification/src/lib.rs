//! Byte-string primitives of the C library (`strlen`, `memcpy`) written safely
//! over byte slices, each proved to behave exactly as its C counterpart is
//! documented to behave.
//!
//! A C pointer is modelled as a buffer and an index into it: the buffer stands
//! for the memory that the pointer may reach, index 0 of the buffer being
//! aligned to a machine word.

pub mod memcpy;
pub mod strlen;
pub mod word;
