use llhls::float::Double;
use llhls::streaming::master_playlist_generator::{
    MasterPlaylistGenerator, ReplayManager, StreamMetadata, StreamVariant,
};
use llhls::time::Timestamp;

fn metadata(end: Option<Timestamp>) -> StreamMetadata {
    StreamMetadata {
        stream_name: "alice".to_string(),
        start_time: Timestamp::from_unix(1_700_000_000, 500_000_000).unwrap(),
        end_time: end,
        is_live: end.is_none(),
        bitrate: 5_000_000,
        resolution: "1920x1080".to_string(),
        codecs: "avc1.640028,mp4a.40.2".to_string(),
        frame_rate: Double::from_bits(f64::from(29.97_f32).to_bits()),
    }
}

#[test]
fn live_master_lists_variants() {
    let generator = MasterPlaylistGenerator::new("https://b".to_string());
    let text = generator.generate_live_master("alice", vec![StreamVariant::create_1080p()]);
    assert_eq!(
        text,
        "#EXTM3U\n#EXT-X-VERSION:7\n#EXT-X-INDEPENDENT-SEGMENTS\n\n\
         #EXT-X-STREAM-INF:BANDWIDTH=5000000,RESOLUTION=1920x1080,FRAME-RATE=60.00,CODECS=\"avc1.640028,mp4a.40.2\",NAME=\"1080p\"\n\
         https://b/alice/playlist.m3u8\n"
    );
    assert_eq!(
        generator.generate_live_master("alice", vec![]),
        "#EXTM3U\n#EXT-X-VERSION:7\n#EXT-X-INDEPENDENT-SEGMENTS\n\n"
    );
}

#[test]
fn vod_master_tells_the_span() {
    let generator = MasterPlaylistGenerator::new("https://b".to_string());
    let end = Timestamp::from_unix(1_700_000_061, 400_000_000);
    assert_eq!(
        generator.generate_vod_master("alice", &metadata(end)),
        "#EXTM3U\n#EXT-X-VERSION:7\n#EXT-X-PLAYLIST-TYPE:VOD\n#EXT-X-INDEPENDENT-SEGMENTS\n\
         #EXT-X-PROGRAM-DATE-TIME:2023-11-14T22:13:20.500+00:00\n# Stream Duration: 60 seconds\n\n\
         #EXT-X-STREAM-INF:BANDWIDTH=5000000,RESOLUTION=1920x1080,FRAME-RATE=29.97,CODECS=\"avc1.640028,mp4a.40.2\",NAME=\"Replay\"\n\
         https://b/alice/vod_playlist.m3u8\n"
    );
    let live = generator.generate_vod_master("alice", &metadata(None));
    assert!(!live.contains("PROGRAM-DATE-TIME"));
    assert!(live.contains("#EXT-X-INDEPENDENT-SEGMENTS\n\n#EXT-X-STREAM-INF"));
}

#[test]
fn multi_bitrate_master_names_files_by_height() {
    let generator = MasterPlaylistGenerator::new("https://b".to_string());
    let variants = vec![StreamVariant::create_720p(), StreamVariant::create_480p()];
    let vod = generator.generate_multi_bitrate_master("s", variants.clone(), true);
    assert!(vod.starts_with("#EXTM3U\n#EXT-X-VERSION:7\n#EXT-X-PLAYLIST-TYPE:VOD\n#EXT-X-INDEPENDENT-SEGMENTS\n\n"));
    assert!(vod.contains("https://b/s/vod_720p.m3u8\n"));
    assert!(vod.contains("https://b/s/vod_480p.m3u8\n"));
    assert!(vod.contains("FRAME-RATE=30.00"));
    let live = generator.generate_multi_bitrate_master("s", variants, false);
    assert!(live.starts_with("#EXTM3U\n#EXT-X-VERSION:7\n#EXT-X-INDEPENDENT-SEGMENTS\n\n"));
    assert!(live.contains("https://b/s/live_480p.m3u8\n"));
}

#[test]
fn ended_streams_can_be_replayed() {
    let mut replays = ReplayManager::new();
    assert!(replays.get_completed_stream("alice").is_none());
    let end = Timestamp::from_unix(1_800_000_000, 0).unwrap();
    replays.mark_stream_completed_at("alice".to_string(), metadata(None), end);
    let found = replays.get_completed_stream("alice").unwrap();
    assert!(!found.is_live);
    assert_eq!(found.end_time.unwrap().unix_secs(), 1_800_000_000);
    replays.mark_stream_completed("bob".to_string(), metadata(None));
    assert!(replays.get_completed_stream("bob").unwrap().end_time.is_some());
    assert_eq!(replays.list_replay_streams().len(), 2);
}
