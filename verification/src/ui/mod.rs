//! The decisions of the interactive viewer: which page is shown, what the
//! command line holds, and what each message does to the screen. The
//! viewer performs the tasks that these decisions ask for.

pub mod app;
pub mod cmdline;
pub mod viewer;
