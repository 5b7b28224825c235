//! Object storage: what is uploaded, in which order, and how often it is tried.

pub mod bunny_uploader;
pub mod cli_s3_uploader;
pub mod file_s3_uploader;
pub mod memory_buffer_manager;
pub mod memory_s3_uploader;
pub mod reqwest_s3_uploader;
pub mod s3_file_watcher;
pub mod s3_types;
pub mod upload;
