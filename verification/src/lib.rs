//! Core logic of a small paper-and-ink web reader: what the address bar
//! turns into, the ink style sheet and page scripts, the tab list, the
//! downloads in flight, and the messages sent to the interface.

pub mod text;
pub mod json;
pub mod web_url;
pub mod ink;
pub mod adblock;
pub mod downloads;
pub mod notify;
pub mod menu;
pub mod tabs;
