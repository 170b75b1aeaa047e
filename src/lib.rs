//! Core of a terminal chat client: a room directory shared by the sync loop
//! and the interactive shell, the decisions of both loops, and the
//! normalisation of message content into displayable text.
pub mod content;
pub mod directory;
pub mod history;
pub mod shell;
pub mod sync;
