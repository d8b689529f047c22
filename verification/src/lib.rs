//! Verified core of the herdr plugins: agent status, the agent map's grouping,
//! the daybook's document model and cursor state, workspace reordering, and
//! the text every screen shows.

pub mod text;
pub mod status;
pub mod copies;
pub mod ordering;
pub mod model;
pub mod ui;
pub mod app;
pub mod layout;
pub mod reorder;
pub mod panels;
pub mod map_frame;
