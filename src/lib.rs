//! Reading Mercurial revlog files: the index records in both on-disk
//! layouts, the location of each entry's payload, and the changeset text
//! held in a payload.

pub mod bytes;
pub mod error;
pub mod index;
pub mod revlog;
pub mod changeset;
