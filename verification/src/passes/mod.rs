//! Render passes.

pub mod ambient;
pub mod deferred;
pub mod gaussian_splat;
pub mod splat_composite;
