//! The integer types as scalars: arithmetic modulo the type's range, and
//! division that truncates toward zero. Each type obeys the laws of a ring
//! and the pivot laws; none is a field.

pub mod residues;
pub mod signed128;
pub mod signed16;
pub mod signed32;
pub mod signed64;
pub mod signed8;
pub mod signed_word;
pub mod unsigned128;
pub mod unsigned16;
pub mod unsigned32;
pub mod unsigned64;
pub mod unsigned8;
pub mod word;
