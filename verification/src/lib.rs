//! Sleeve: the verified core of an audio tag and cover editor.

mod text;
pub mod models;
pub mod paths;
pub mod i18n;
pub mod services;
pub mod history;
pub mod cover_cache;
pub mod cover_image;
pub mod panels;
pub mod session;
pub mod batch_run;
