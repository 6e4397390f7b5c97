//! A todo list kept in a text file, one entry per line.
//!
//! The library holds everything that a run of the `todo` program decides:
//! which command the arguments ask for, what the command does to the list,
//! what is printed, and what is written back. The caller reads the file and
//! the environment, hands the library plain values, and carries out what
//! [`program::execute`] returns.

pub mod command;
pub mod done;
pub mod encoding;
pub mod error;
pub mod index;
pub mod list;
pub mod listing;
pub mod location;
pub mod order;
pub mod program;
pub mod storage;
