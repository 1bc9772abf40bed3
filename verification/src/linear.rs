//! The linear-algebra layers: vectors, matrices and quaternions.

pub mod matrix;
pub mod quaternion;
pub mod vector;
