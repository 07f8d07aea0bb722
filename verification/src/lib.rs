//! Following the log files of VRChat: which file of the log directory is the
//! live one, what its lines are as it grows, and which of them tell of
//! leaving or joining a room.
//!
//! The library decides; it neither reads files nor waits. `watcher` chooses
//! the file to follow, `tail` says what to do after each read of it,
//! `framing` cuts what was read into lines, `line` reads the events of the
//! lines, and `switch` follows the latest of the files chosen.

pub mod calendar;
pub mod detect;
pub mod file_name;
pub mod framing;
pub mod ids;
pub mod line;
pub mod number;
pub mod reading_back;
pub mod stamp;
pub mod switch;
pub mod tail;
pub mod text;
pub mod watcher;
