//! Organizes media files from a source directory into date-named folders
//! under a destination directory.
//!
//! The pipeline discovers candidate files in a listing of the source tree,
//! derives a name, a lowercase extension and a creation date for each one,
//! drops files that the extension allow-list or the name patterns reject,
//! decides for each file whether a same-named copy already exists in its
//! destination date bucket, groups the files by bucket, summarizes the
//! resulting copy plan, and drives the copy phase as a step-by-step run
//! whose filesystem actions are performed by the caller.

pub mod classify;
pub mod copy;
pub mod dates;
pub mod discover;
pub mod files;
pub mod patterns;
pub mod plan;
pub mod source;
