//! Screen states. Drawing stays with the terminal front end; these hold
//! what was typed, what is listed and what is selected.

pub mod command_palette;

pub use command_palette::CommandPalette;
pub mod completion;

pub use completion::Completion;
pub mod consent;

pub use consent::Consent;
pub mod confirm;

pub use confirm::Confirm;
pub mod format_preview;
pub mod character_form;
pub mod character_panel;
pub mod help;
pub mod history_panel;
pub mod input;
pub mod modal;
pub mod proof_panel;
pub mod search_panel;

pub use help::Help;
pub mod settings;

pub use settings::Settings;
pub mod shelf;

pub use shelf::Shelf;
pub mod stats;
pub mod tree;

pub use stats::Stats;
