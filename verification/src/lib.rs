//! Bridge between a task tracker's export and a status-bar display:
//! orders pending tasks by urgency, renders a compact/verbose text pair,
//! encodes it as one JSON line, and computes and dispatches the realtime
//! signal that nudges the display to re-read it.

pub mod errors;
pub mod numfmt;
pub mod signals;
pub mod task;
pub mod timestamp;
