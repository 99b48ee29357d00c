//! Render pass state types and a verified planner for multi-subpass render passes
//! on tile-based GPUs.

pub mod active_mask;
pub mod format;
pub mod subpass;
pub mod render_graph;
pub mod render;
