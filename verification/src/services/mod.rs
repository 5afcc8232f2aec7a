//! What the editor computes about files on disk: which to list, their tags and
//! stream facts, how to write them back, and where backups go.

pub mod directory_scan;
pub mod tag_reader;
pub mod tag_writer;
pub mod backup;
