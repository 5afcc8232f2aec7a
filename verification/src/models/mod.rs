//! The data the editor works on: audio files, backups, the file tree and tag drafts.

pub mod audio_file;
pub mod backup;
pub mod file_tree;

pub mod tag_draft;
