//! Residue number system arithmetic for emulating a wrong field inside a
//! native field.
pub mod arith;
pub mod big;
pub mod bounds;
pub mod construct;
pub mod field;
pub mod identities;
pub mod laws;
pub mod limbs;
pub mod rns;
