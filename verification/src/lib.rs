//! Core of a `/proc`-based process explorer: parsing of per-process
//! `stat` and `cmdline` files, snapshot construction, substring search
//! over the records, and the windowed view handed to a GUI shell.

pub mod decode;
pub mod digits;
pub mod process;
pub mod search;
pub mod snapshot;
pub mod stat;
pub mod state;
pub mod view;
