//! Playlists, pipelines and what is made of the files of a stream.

pub mod ffmpeg_pipeline;
pub mod file_watcher;
pub mod hls_conversion_manager;
pub mod hls_convertor;
pub mod ll_hls_manager;
pub mod ll_hls_playlist;
pub mod master_playlist_generator;
pub mod memory_hls_manager;
pub mod pipeline;
pub mod pipeline_manager;
pub mod playlist_lines;
pub mod playlist_reading;
pub mod vod_reading;
