//! The decision logic behind "jump to the terminal of this session".
//!
//! A session is known by its files; a file names the process, the process leads up to the
//! terminal that hosts it, and the terminal is brought to the front. What is read, listed and
//! run on the way is left to the caller: here it is decided what to ask for and what follows
//! from the answers.

pub mod error;
pub mod focus;
pub mod focus_mac;
pub mod focus_win;
pub mod native_path;
pub mod ps;
pub mod script;
pub mod session;
pub mod terminal;
pub mod text;
pub mod vscode;
pub mod walk;
pub mod windows;
