//! The editor: text buffer, autosave policy, and the text model they share.
pub mod autosave;
pub mod buffer;
pub mod rope;
pub mod textspec;
pub mod view;
