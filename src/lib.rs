//! Assorting newly arrived mails into prioritised maildir folders.
//!
//! The library holds the decision logic: indexing messages by their
//! `Message-ID`, detecting duplicate deliveries, resolving a destination for
//! every new message along its reply chain, and reconciling thread siblings
//! until they agree. Reading and writing maildirs is left to the caller.

pub mod config;
pub mod folder;
pub mod lei;
pub mod mail;
pub mod mbox;
pub mod text;
pub mod util;
pub mod assort;
pub mod collect;
