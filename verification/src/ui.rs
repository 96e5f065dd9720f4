//! The views: what they hold, how they answer keys and what they draw.

pub mod agent_overlay;
pub mod agent_render;
pub mod agent_stream;
pub mod blame;
pub mod chat;
pub mod diff_lines;
pub mod diff_preview;
pub mod draw;
pub mod hunks;
pub mod input;
pub mod keys;
pub mod markdown;
pub mod matcher;
pub mod permission_render;
pub mod permission_view;
pub mod picker;
pub mod picker_events;
pub mod picker_table;
pub mod preview;
pub mod unified;
pub mod wrap;
