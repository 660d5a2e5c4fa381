//! Compressed sparse storage (sparsity patterns, compressed matrices with lane access
//! and entry lookup), a symmetric eigensolver generic over its scalar field with its
//! iteration control, convolutions and isometries.
pub mod convolution;
pub mod cs;
pub mod eigen;
pub mod iso;
pub mod pattern;
pub mod symmetric;
