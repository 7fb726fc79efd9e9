//! Verified core of an agent-aware vertical tab bar: colour and style parsing,
//! tmux-style format expansion, tab-box rendering and the plugin's state machine.
//! Text is handled as sequences of `char`.

pub mod text;
pub mod width;
pub mod color;
pub mod agent;
pub mod style;
pub mod format;
pub mod config;
pub mod layout;
pub mod store;
pub mod sync;
pub mod panes;
pub mod plugin;
pub mod tabbox;
pub mod visible;
pub mod screen;
pub mod machine;
