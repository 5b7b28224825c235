//! What the server is configured with.

use crate::float::{Double, HALF, TWO};
use vstd::prelude::*;

verus! {

/// The whole configuration.
#[derive(Clone, Debug)]
pub struct Config {
    pub server: ServerConfig,
    pub streaming: StreamingConfig,
    pub api: ApiConfig,
    pub s3: S3Config,
    pub thumbnail: ThumbnailConfig,
    pub bunny: BunnyConfig,
}

/// Where the server listens.
#[derive(Clone, Debug)]
pub struct ServerConfig {
    pub host: String,
    pub port: u16,
}

/// How streams are cut and buffered.
#[derive(Clone, Debug)]
pub struct StreamingConfig {
    /// The length of a segment.
    pub segment_duration: Double,
    /// The latency aimed at.
    pub target_latency: Double,
    /// The memory budget in mebibytes.
    pub memory_buffer_mb: usize,
    /// The most segments that are kept of a stream.
    pub max_segments_per_stream: usize,
    /// The number of upload workers.
    pub upload_workers: usize,
}

/// Where streams are authenticated.
#[derive(Clone, Debug)]
pub struct ApiConfig {
    pub host: String,
}

/// Where and with which credentials files are uploaded.
#[derive(Clone, Debug)]
pub struct S3Config {
    pub bucket: String,
    pub region: String,
    pub access_key: String,
    pub secret_access_key: String,
    pub endpoint_uri: String,
}

/// When and how thumbnails are taken.
#[derive(Clone, Debug)]
pub struct ThumbnailConfig {
    pub enabled: bool,
    /// The seconds between two thumbnails; each segment counts for one.
    pub interval_seconds: u32,
    pub width: u32,
    pub height: u32,
    /// The quality that the encoder is asked for: 1 is the best, 5 is fair.
    pub quality: u32,
}

/// The Bunny storage zone and its delivery network.
#[derive(Clone, Debug)]
pub struct BunnyConfig {
    pub storage_zone: String,
    pub api_key: String,
    pub pull_zone_id: Option<String>,
    /// The host that files are delivered from, such as `myzone.b-cdn.net`.
    pub cdn_hostname: Option<String>,
}

impl Default for ThumbnailConfig {
    fn default() -> (r: Self)
        ensures
            r == (ThumbnailConfig {
                enabled: true,
                interval_seconds: 5,
                width: 320,
                height: 180,
                quality: 3,
            }),
    {
        ThumbnailConfig { enabled: true, interval_seconds: 5, width: 320, height: 180, quality: 3 }
    }
}

impl Default for StreamingConfig {
    fn default() -> (r: Self)
        ensures
            r == (StreamingConfig {
                segment_duration: Double { bits: HALF },
                target_latency: Double { bits: TWO },
                memory_buffer_mb: 500,
                max_segments_per_stream: 20,
                upload_workers: 10,
            }),
    {
        StreamingConfig {
            segment_duration: Double { bits: HALF },
            target_latency: Double { bits: TWO },
            memory_buffer_mb: 500,
            max_segments_per_stream: 20,
            upload_workers: 10,
        }
    }
}

} // verus!
