//! Window-switcher core for a Wayland compositor's IPC control tool.
//!
//! The library models the window snapshot that the external control tool
//! dumps as text: it parses the dump into `Window` values, renders the menu
//! label of each window, resolves a selected label back to its window, and
//! plans the command sequence that focuses a window or restores it from the
//! minimized pseudo-workspace.  All I/O — running the control tool and the
//! menu front end — stays outside the library; callers hand text in and
//! receive structured commands back.

pub mod engine;
pub mod num;
pub mod parse;
pub mod resolve;
pub mod text;
pub mod window;

pub use engine::focus;
pub use engine::unminimize;
pub use engine::Command;
pub use engine::Destination;
pub use engine::LookupError;
pub use parse::parse_activeworkspace;
pub use parse::parse_clients;
pub use resolve::get_window_from_arg;
pub use window::SelectedAction;
pub use window::Window;
