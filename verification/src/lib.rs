//! A minimal filesystem-introspection core.
//!
//! Two stateless operations make up the library. [`home::home_dir`] resolves
//! the invoking user's home directory from the two platform environment
//! signals, preferring the POSIX-style one. [`listing::list_dir`] turns the
//! raw outcome of enumerating one directory into a listing of its immediate
//! children, sorted by name in ascending codepoint order, or into the error
//! that describes why no listing could be produced.
//!
//! The host application performs the actual environment and filesystem
//! reads and hands their results to these functions as plain values.

pub mod entry;
pub mod error;
pub mod home;
pub mod listing;
pub mod order;
