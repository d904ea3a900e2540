//! The logic of a small game engine: asset tables, splat clouds and their GPU sort,
//! render passes and their order, collision, cameras, trajectories and editing.
//!
//! Numbers that only a processor or a GPU computes with stay bit patterns here (see
//! `float_bits`); devices, windows and files belong to the program around the
//! library.

pub mod assets;
pub mod collision;
pub mod editor;
pub mod float_bits;
pub mod fly_camera;
pub mod gpu;
pub mod handles;
pub mod images;
pub mod kb_config;
pub mod mujoco;
pub mod passes;
pub mod paths;
pub mod ply;
pub mod render_groups;
pub mod renderer;
pub mod sorting;
pub mod text;
pub mod text_agent;
pub mod touch_pads;
pub mod trajectory;
pub mod utils;
