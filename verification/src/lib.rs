//! Engine of a desktop productivity assistant: it classifies and records
//! clipboard captures in a bounded history, and detects typed triggers that
//! expand into snippets.

pub mod clipboard_history;
pub mod installed_apps;
pub mod shortcut;
pub mod text;
pub mod text_expansion;
