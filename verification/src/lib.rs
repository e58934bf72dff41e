//! Parser for textual reference-address expressions of a register machine:
//! each expression names a base register, up to two constant offsets or one
//! offset and an arbitrary-precision immediate, and whether the computed
//! address is dereferenced once more. A small helper pads hexadecimal texts
//! to an even number of digits.

pub mod address;
pub mod bigint;
pub mod hex;
pub mod laws;
pub mod numeric;
pub mod text;
