//! Render groups: bullet holes, CPU-sorted splats and buttons.

pub mod bullet_hole;
pub mod kb_gaussian_splat_group;
pub mod kb_ui_group;
