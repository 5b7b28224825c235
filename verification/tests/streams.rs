use llhls::config::{
    ApiConfig, BunnyConfig, Config, S3Config, ServerConfig, StreamingConfig, ThumbnailConfig,
};
use llhls::streaming::ffmpeg_pipeline::{output_dir, FfmpegPipelineManager};
use llhls::streaming::hls_conversion_manager::{path_in, HlsConversionManager};
use llhls::streaming::hls_convertor::HlsConvertor;
use llhls::streaming::memory_hls_manager::{
    health_of, vod_playlist, MemoryHlsManager, MemoryStats, UploadStats,
};
use llhls::streaming::pipeline::{is_pipeline_broken, reports_error};
use llhls::streaming::pipeline_manager::{temp_dir, MemoryFfmpegPipelineManager};
use llhls::storage::s3_types::UploadStatus;
use llhls::table::Table;
use llhls::time::Timestamp;

fn at(secs: i64) -> Timestamp {
    Timestamp::from_unix(secs, 0).unwrap()
}

fn config() -> Config {
    Config {
        server: ServerConfig { host: "0.0.0.0".to_string(), port: 1935 },
        streaming: StreamingConfig::default(),
        api: ApiConfig { host: "http://api".to_string() },
        s3: S3Config {
            bucket: "bkt".to_string(),
            region: "eu".to_string(),
            access_key: "k".to_string(),
            secret_access_key: "w".to_string(),
            endpoint_uri: "".to_string(),
        },
        thumbnail: ThumbnailConfig::default(),
        bunny: BunnyConfig {
            storage_zone: "z".to_string(),
            api_key: "b".to_string(),
            pull_zone_id: None,
            cdn_hostname: None,
        },
    }
}

#[test]
fn defaults() {
    let streaming = StreamingConfig::default();
    assert_eq!(f64::from_bits(streaming.segment_duration.bits), 0.5);
    assert_eq!(f64::from_bits(streaming.target_latency.bits), 2.0);
    assert_eq!(streaming.memory_buffer_mb, 500);
    assert_eq!(streaming.max_segments_per_stream, 20);
    assert_eq!(streaming.upload_workers, 10);
    let thumbnail = ThumbnailConfig::default();
    assert!(thumbnail.enabled);
    assert_eq!(
        (thumbnail.interval_seconds, thumbnail.width, thumbnail.height, thumbnail.quality),
        (5, 320, 180, 3)
    );
}

#[test]
fn encoder_plans() {
    let plan = MemoryFfmpegPipelineManager::<()>::plan_pipeline("alice");
    assert_eq!(plan.output_dir, "/tmp/hls_temp/alice");
    assert_eq!(
        plan.args,
        vec![
            "-y", "-i", "pipe:0", "-c:v", "libx264", "-preset", "ultrafast", "-tune",
            "zerolatency", "-b:v", "5000k", "-maxrate", "5000k", "-bufsize", "10000k", "-r",
            "60", "-g", "120", "-keyint_min", "60", "-sc_threshold", "0", "-c:a", "aac", "-b:a",
            "160k", "-ar", "44100", "-ac", "2", "-map", "0:v:0", "-map", "0:a:0", "-f", "hls",
            "-hls_time", "2", "-hls_init_time", "2", "-hls_list_size", "15", "-hls_flags",
            "independent_segments+program_date_time+temp_file+delete_segments",
            "-hls_segment_type", "fmp4", "-hls_fmp4_init_filename", "init.mp4",
            "-hls_segment_filename", "/tmp/hls_temp/alice/segment_%d.m4s", "-movflags",
            "+frag_keyframe+empty_moov+default_base_moof", "-frag_duration", "1000000",
            "-hls_allow_cache", "0", "-hls_start_number_source", "datetime",
            "/tmp/hls_temp/alice/playlist.m3u8",
        ]
    );
    assert_eq!(temp_dir("x"), "/tmp/hls_temp/x");

    let manager: FfmpegPipelineManager<()> = FfmpegPipelineManager::new(config());
    let plan = manager.plan_pipeline("alice");
    assert_eq!(plan.output_dir, "hls_output/alice");
    assert_eq!(
        plan.args,
        vec![
            "-y", "-i", "pipe:0", "-c:v", "libx264", "-preset", "veryfast", "-tune",
            "zerolatency", "-r", "60", "-g", "60", "-keyint_min", "60", "-sc_threshold", "0",
            "-c:a", "aac", "-b:a", "128k", "-ar", "44100", "-ac", "2", "-f", "hls",
            "-hls_time", "0.5", "-hls_list_size", "0", "-hls_flags",
            "delete_segments+program_date_time+temp_file+independent_segments+split_by_time",
            "-hls_segment_type", "fmp4", "-hls_fmp4_init_filename", "init.mp4",
            "-hls_segment_filename", "hls_output/alice/segment_%d.m4s", "-hls_playlist_type",
            "event", "-hls_allow_cache", "0", "-hls_start_number_source", "datetime",
            "-hls_base_url", "https://bkt.s3.eu.amazonaws.com/hls_output/alice/",
            "hls_output/alice/playlist.m3u8", "-map", "0:v:0", "-vf", "fps=1/10,scale=640:-1",
            "-q:v", "2", "-update", "1", "-f", "image2", "hls_output/alice/thumbnail.jpg",
        ]
    );
    assert_eq!(output_dir("x"), "hls_output/x");
}

#[test]
fn a_write_keeps_or_drops_the_pipeline() {
    let mut manager: MemoryFfmpegPipelineManager<u8> = MemoryFfmpegPipelineManager::new(config());
    manager.start_pipeline(7, "alice", 42);
    assert!(manager.has_pipeline(7));
    assert_eq!(manager.active_pipeline_count(), 1);
    let pipeline = manager.checkout(7).unwrap();
    assert_eq!(pipeline.handle, 42);
    assert!(manager.send_data(7, pipeline, Ok(())).is_ok());
    assert!(manager.has_pipeline(7));
    let pipeline = manager.checkout(7).unwrap();
    let error = manager.send_data(7, pipeline, Err("EPIPE".to_string())).unwrap_err();
    assert_eq!(error, "Pipeline broken for stream 7: EPIPE");
    assert!(is_pipeline_broken(&error));
    assert!(!is_pipeline_broken("pipeline broken"));
    assert!(!manager.has_pipeline(7));
    assert!(manager.checkout(7).is_none());
    manager.start_pipeline(8, "bob", 1);
    let (pipeline, dir) = manager.stop_pipeline(8).unwrap();
    assert_eq!(pipeline.stream_name, "bob");
    assert_eq!(dir, "/tmp/hls_temp/bob");
    assert!(manager.stop_pipeline(8).is_none());
    manager.start_pipeline(1, "a", 1);
    manager.start_pipeline(2, "b", 2);
    assert_eq!(manager.stop_all_pipelines().len(), 2);
    assert_eq!(manager.active_pipeline_count(), 0);
    assert_eq!(manager.config().s3.bucket, "bkt");
}

#[test]
fn output_pipelines() {
    let mut manager: FfmpegPipelineManager<u8> = FfmpegPipelineManager::new(config());
    manager.start_pipeline(7, 1);
    let pipeline = manager.checkout(7).unwrap();
    assert_eq!((pipeline.stdin, pipeline.stream_id), (1, 7));
    assert!(manager.send_data(7, pipeline, Ok(())).is_ok());
    assert!(manager.stop_pipeline(7));
    assert!(!manager.stop_pipeline(7));
    manager.start_pipeline(8, 1);
    manager.stop_all_pipelines();
    assert_eq!(manager.active_pipeline_count(), 0);
    assert!(!manager.has_pipeline(8));
}

#[test]
fn errors_in_encoder_output() {
    assert!(reports_error("some error"));
    assert!(reports_error("Error: x"));
    assert!(!reports_error("ERROR"));
}

const LISTING: &str = "2024-01-01 00:00:00       1234 segment_2.m4s\n\
2024-01-01 00:00:00       1234 segment_10.m4s\n\
2024-01-01 00:00:00        800 init.mp4\n\
2024-01-01 00:00:00         10 segment_3_part0.m4s\n\
2024-01-01 00:00:00         10 segment_3_part1.m4s\n\
2024-01-01 00:00:00         10 playlist.m3u8\n\
                           PRE sub/\n";

#[test]
fn vod_playlist_is_exact() {
    let (text, count) = vod_playlist("https://u", LISTING);
    assert_eq!(count, 2);
    assert_eq!(
        text,
        "#EXTM3U\n#EXT-X-VERSION:7\n#EXT-X-TARGETDURATION:2\n#EXT-X-PLAYLIST-TYPE:VOD\n\
         #EXT-X-MEDIA-SEQUENCE:0\n#EXT-X-MAP:URI=\"init.mp4\"\n\n\
         #EXTINF:2.000000,\nhttps://u/segment_2.m4s\n\
         #EXTINF:2.000000,\nhttps://u/segment_10.m4s\n#EXT-X-ENDLIST\n"
    );
    let names = [
        "segment_99.m4s",
        "segment_20240101120000.m4s",
        "segment_100000000000000000000001.m4s",
        "segment_x.m4s",
        "segment_100000000000000000000000.m4s",
        "segment_0100.m4s",
        "segment_100.m4s",
    ];
    let listing: String = names.iter().map(|n| format!("d t 1 {}\n", n)).collect();
    let (text, count) = vod_playlist("u", &listing);
    assert_eq!(count, 7);
    let order: Vec<&str> =
        text.lines().filter_map(|l| l.strip_prefix("u/segment_")).collect();
    assert_eq!(
        order,
        vec![
            "99.m4s",
            "0100.m4s",
            "100.m4s",
            "20240101120000.m4s",
            "100000000000000000000000.m4s",
            "100000000000000000000001.m4s",
            "x.m4s",
        ]
    );
    let (empty, count) = vod_playlist("https://u", "");
    assert_eq!(count, 0);
    assert!(empty.ends_with("#EXT-X-MEDIA-SEQUENCE:0\n\n#EXT-X-ENDLIST\n"));
}

#[test]
fn a_stopped_stream_is_replayable() {
    let mut manager: MemoryHlsManager<u8> = MemoryHlsManager::new(config());
    manager.start_hls_conversion_at(3, "alice", 9, at(100));
    assert!(manager.has_stream(3));
    assert_eq!(manager.get_active_stream_count(), 1);
    let (pipeline, dir) = manager.stop_pipeline(3).unwrap();
    assert_eq!(pipeline.handle, 9);
    assert_eq!(dir, "/tmp/hls_temp/alice");
    let uploads = manager.stop_hls_conversion_at("alice", Some(LISTING), at(1), at(2), at(3));
    let vod = uploads.vod.unwrap();
    assert_eq!(vod.file_name, "vod_playlist.m3u8");
    assert_eq!(vod.created_at.unix_secs(), 1);
    assert!(String::from_utf8(vod.data)
        .unwrap()
        .contains("https://bkt.s3.eu.amazonaws.com/alice/segment_2.m4s\n"));
    assert_eq!(uploads.master.file_name, "master.m3u8");
    assert_eq!(uploads.master.priority, 255);
    assert_eq!(
        String::from_utf8(uploads.master.data).unwrap(),
        "#EXTM3U\n#EXT-X-VERSION:7\n#EXT-X-INDEPENDENT-SEGMENTS\n\n# VOD Replay Stream\n\
         #EXT-X-STREAM-INF:BANDWIDTH=5000000,RESOLUTION=1920x1080,FRAME-RATE=60.00,CODECS=\"avc1.640028,mp4a.40.2\",NAME=\"1080p60-VOD\"\n\
         https://bkt.s3.ap-northeast-2.amazonaws.com/alice/vod_playlist.m3u8\n"
    );
    let replay = manager.replay_manager().get_completed_stream("alice").unwrap();
    assert_eq!(replay.start_time.unix_secs(), 100);
    assert_eq!(replay.end_time.unwrap().unix_secs(), 3);
    assert!(!replay.is_live);
    assert_eq!(f64::from_bits(replay.frame_rate.bits), 60.0);
    // a stream that was never live is not replayable
    assert!(manager.stop_hls_conversion("bob", None).vod.is_none());
    assert!(manager.replay_manager().get_completed_stream("bob").is_none());
}

#[test]
fn commands_and_state_of_the_server() {
    let manager: MemoryHlsManager<u8> = MemoryHlsManager::new(config());
    assert_eq!(
        manager.connection_test_args(),
        vec!["s3", "ls", "s3://bkt", "--max-items", "1", "--region", "eu"]
    );
    assert_eq!(manager.list_args("a/b"), vec!["s3", "ls", "s3://bkt/a/b/", "--region", "eu"]);
    assert_eq!(
        manager.cleanup_s3_stream("a"),
        vec!["s3", "rm", "s3://bkt/a/", "--recursive", "--region", "eu"]
    );
    let mut uploader = MemoryHlsManager::<u8>::uploader(&config());
    assert_eq!(uploader.worker_limit(), 32);
    assert!(manager.get_s3_upload_status("a", &uploader).is_complete);
    let segment = manager.generate_master_playlist("a", at(1));
    uploader.queue_segment(&segment);
    let status = manager.get_s3_upload_status("a", &uploader);
    assert_eq!((status.pending_uploads, status.active_uploads), (1, 1));
    assert!(!status.is_complete);
    let health = manager.health_check(&uploader);
    assert!(health.healthy);
    assert_eq!(health.pending_uploads, 1);
    assert_eq!(manager.get_memory_stats().streams.len(), 0);
    assert_eq!(manager.get_upload_stats(&uploader).active_count, 1);
    assert!(manager.upload_stream_to_s3("a").is_ok());
    assert!(manager.delete_stream_from_s3("a").is_ok());
    assert_eq!(manager.api_config().host, "http://api");
    assert_eq!(manager.config().server.port, 1935);
    let text = manager.master_generator().generate_live_master("a", vec![]);
    assert!(text.starts_with("#EXTM3U"));
    let memory = |percent| MemoryStats {
        used_bytes: 0,
        max_bytes: 0,
        usage_percentage: percent,
        streams: Table::new(),
    };
    let uploads = |pending| UploadStats { pending_count: pending, active_count: 0 };
    assert!(health_of(&memory(89), &uploads(99), 2).healthy);
    assert!(!health_of(&memory(90), &uploads(0), 2).healthy);
    assert!(!health_of(&memory(0), &uploads(100), 2).healthy);
}

#[test]
fn convertor_hands_on() {
    let mut convertor: HlsConvertor<u8> = HlsConvertor::new(config());
    convertor.start_hls_conversion(1, "a", 5);
    assert!(convertor.has_stream(1));
    let pipeline = convertor.checkout(1).unwrap();
    assert!(convertor.process_stream_data(1, pipeline, Ok(())).is_ok());
    assert_eq!(convertor.get_active_stream_count(), 1);
    let mut uploader = MemoryHlsManager::<u8>::uploader(&config());
    let segment = convertor.memory_manager().generate_master_playlist("a", at(1));
    assert!(String::from_utf8(segment.data.clone())
        .unwrap()
        .contains("https://bkt.s3.ap-northeast-2.amazonaws.com/a/"));
    uploader.queue_segment(&segment);
    let status: UploadStatus = convertor.get_s3_upload_status("a", &uploader).unwrap();
    assert_eq!(status.stream_key, "a");
    assert_eq!(status.total_files, 2);
    assert!(!status.is_complete);
    assert!(convertor.upload_stream_to_s3("a").is_ok());
    assert!(convertor.upload_file_to_s3("a", "f").is_ok());
    assert!(convertor.delete_stream_from_s3("a").is_ok());
    assert_eq!(convertor.api_config().host, "http://api");
    assert!(convertor.stop_pipeline(1).is_some());
    assert!(convertor.stop_hls_conversion("a", None).vod.is_none());
    assert!(convertor.memory_manager().replay_manager().get_completed_stream("a").is_some());
}

#[test]
fn conversion_manager_needs_a_storage() {
    let mut manager: HlsConversionManager<u8> =
        HlsConversionManager::new(config(), "out".to_string(), true);
    let plan = manager.start_hls_conversion(1, "a", 5).unwrap();
    assert_eq!(plan.local_dir, "out/a");
    assert_eq!(plan.s3_prefix, "hls_output/a");
    assert_eq!(manager.upload_stream_to_s3("a").unwrap().local_dir, "out/a");
    assert_eq!(manager.delete_stream_from_s3("a").unwrap(), "hls_output/a");
    assert!(manager.has_stream(1));
    let pipeline = manager.checkout(1).unwrap();
    assert!(manager.process_stream_data(1, pipeline, Err("x".to_string())).is_err());
    assert_eq!(manager.get_active_stream_count(), 0);
    let mut bare: HlsConversionManager<u8> =
        HlsConversionManager::new(config(), "out".to_string(), false);
    assert!(bare.start_hls_conversion(1, "a", 5).is_none());
    assert_eq!(bare.upload_stream_to_s3("a").unwrap_err(), "S3 storage not initialized");
    assert_eq!(bare.delete_stream_from_s3("a").unwrap_err(), "S3 storage not initialized");
    assert!(bare.get_s3_upload_status(None).is_none());
    assert!(bare.stop_hls_conversion(1));
    assert_eq!(bare.api_config().host, "http://api");
    assert_eq!(path_in("out/", "a"), "out/a");
    assert_eq!(path_in("", "a"), "a");
    assert_eq!(path_in("out", "/a"), "/a");
}
