//! Tools for the structured reference string of a KZG commitment scheme over
//! BN254: a binary file format for the group-1 and group-2 parameters, and the
//! logic that imports, pads and transforms those parameters.

pub mod field;
pub mod point;
pub mod srs;
pub mod import;
pub mod transform;
pub mod coeffs;
pub mod bls;
