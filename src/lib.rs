//! Planning the cleanup of numbered "Save As" copies.
//!
//! For an original `name.ext`, the copies `name (1).ext`, `name (2).ext`, ...
//! form its family. Copies whose content equals the original's are removed;
//! when some copies diverged, the newest of them replaces the original. The
//! result is a textual plan of `rm` and `mv` lines; nothing is executed.

pub mod text;
pub mod error;
pub mod digest;
pub mod matcher;
pub mod classify;
pub mod retention;
pub mod plan;
pub mod run;
pub mod laws;
