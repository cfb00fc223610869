//! Core of an encrypted password store: entry-name validation and the
//! layout of entries on disk, the key file format, password generation, and
//! the decisions taken by the command-line front end.

pub mod commands;
pub mod identity;
pub mod password;
pub mod paths;
pub mod random;
pub mod store;
pub mod text;
