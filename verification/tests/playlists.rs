use llhls::float::Double;
use llhls::streaming::ll_hls_manager::{
    calculate_bitrate, listed_durations, parse_ffmpeg_playlist, LLHlsManager, StartMoments,
};
use llhls::streaming::ll_hls_playlist::{
    LLHlsPart, LLHlsPlaylistGenerator, RenditionReport, SegmentInfo,
};
use llhls::time::Timestamp;

fn secs(value: f64) -> Double {
    Double::from_bits(value.to_bits())
}

fn as_float(value: Double) -> f64 {
    f64::from_bits(value.bits)
}

fn at(secs: i64) -> Timestamp {
    Timestamp::from_unix(secs, 0).unwrap()
}

fn read_durations(content: &str) -> Vec<Option<Double>> {
    listed_durations(content)
        .iter()
        .map(|t| t.parse::<f64>().ok().map(secs))
        .collect()
}

fn part(index: usize, filename: &str) -> LLHlsPart {
    LLHlsPart { index, duration: secs(1.0), filename: filename.to_string(), independent: index == 0 }
}

fn generator_at(start: Timestamp) -> LLHlsPlaylistGenerator {
    LLHlsPlaylistGenerator::new_at(
        "test_stream".to_string(),
        "https://bucket.s3.amazonaws.com".to_string(),
        "1080p".to_string(),
        5000000,
        start,
    )
}

#[test]
fn test_segment_info_parse() {
    let filename = "1080p_3513129241_1764157633288_11139_0_2673_0.m4v";
    let info = SegmentInfo::parse_filename(filename).unwrap();

    assert_eq!(info.quality, "1080p");
    assert_eq!(info.hash, "3513129241");
    assert_eq!(info.timestamp, 1764157633288);
    assert_eq!(info.frame_number, 11139);
    assert_eq!(info.stream_index, 0);
    assert_eq!(info.sequence, 2673);
    assert_eq!(info.part_index, Some(0));
}

#[test]
fn test_segment_info_parse_no_part() {
    let filename = "1080p_3513129241_1764157633288_11139_0_2673.m4v";
    let info = SegmentInfo::parse_filename(filename).unwrap();

    assert_eq!(info.part_index, None);
}

#[test]
fn test_playlist_generation() {
    let mut generator = LLHlsPlaylistGenerator::new(
        "test_stream".to_string(),
        "https://bucket.s3.amazonaws.com".to_string(),
        "1080p".to_string(),
        5000000,
    );

    generator.set_init_segment("init.mp4".to_string());

    generator.start_segment();
    generator.add_part(LLHlsPart {
        index: 0,
        duration: secs(1.0),
        filename: "1080p_0_0.m4v".to_string(),
        independent: true,
    });
    generator.add_part(LLHlsPart {
        index: 1,
        duration: secs(1.0),
        filename: "1080p_0_1.m4v".to_string(),
        independent: false,
    });
    generator.complete_segment("1080p_0.m4v".to_string(), secs(2.0), 5000000);

    let playlist = generator.generate_media_playlist(None);

    assert!(playlist.contains("#EXTM3U"));
    assert!(playlist.contains("#EXT-X-VERSION:10"));
    assert!(playlist.contains("#EXT-X-SERVER-CONTROL"));
    assert!(playlist.contains("#EXT-X-PART-INF"));
    assert!(playlist.contains("#EXT-X-PART:DURATION=1.000000"));
}

#[test]
fn test_parse_ffmpeg_playlist() {
    let content = r#"#EXTM3U
#EXT-X-VERSION:7
#EXT-X-TARGETDURATION:4
#EXT-X-MEDIA-SEQUENCE:0
#EXT-X-PROGRAM-DATE-TIME:2025-11-26T11:46:56.621Z
#EXTINF:4.167000,
segment_0.m4s
#EXT-X-PROGRAM-DATE-TIME:2025-11-26T11:47:00.788Z
#EXTINF:4.167000,
segment_1.m4s
"#;

    let segments = parse_ffmpeg_playlist(content, &read_durations(content));
    assert_eq!(segments.len(), 2);
    assert_eq!(segments[0].filename, "segment_0.m4s");
    assert!((as_float(segments[0].duration) - 4.167).abs() < 0.001);
    assert!(segments[0].program_date_time.is_some());
}

#[test]
fn ffmpeg_playlist_details() {
    let content = "#EXTINF:1.5,,\r\na.m4s\n#EXTINF:x,\nb.m4s\n\n#EXT-X-PROGRAM-DATE-TIME:t1\n#EXT-X-PROGRAM-DATE-TIME:t2\n#EXTINF:2\nc.m4s\nd.m4s";
    assert_eq!(listed_durations(content), vec!["1.5", "x", "2"]);
    let segments = parse_ffmpeg_playlist(content, &read_durations(content));
    let names: Vec<&str> = segments.iter().map(|s| s.filename.as_str()).collect();
    assert_eq!(names, vec!["a.m4s", "b.m4s", "c.m4s", "d.m4s"]);
    let durations: Vec<f64> = segments.iter().map(|s| as_float(s.duration)).collect();
    assert_eq!(durations, vec![1.5, 0.0, 2.0, 0.0]);
    assert_eq!(segments[0].program_date_time, None);
    assert_eq!(segments[2].program_date_time.as_deref(), Some("t2"));
    assert_eq!(segments[3].program_date_time, None);
}

#[test]
fn playlist_text_is_exact() {
    let mut generator = generator_at(at(1_700_000_000)).with_part_target(secs(0.5));
    generator.set_init_segment("init.mp4".to_string());
    assert_eq!(generator.start_segment_at(at(1_700_000_001)), 0);
    generator.add_part(part(0, "p0.m4v"));
    generator.complete_segment("s0.m4v".to_string(), secs(4.1675), 4_000_000);
    assert_eq!(generator.start_segment_at(at(1_700_000_005)), 1);
    generator.add_part(part(0, "p1.m4v"));
    generator.add_part(part(1, "p2.m4v"));
    let reports = vec![RenditionReport { uri: "../720p.m3u8".to_string(), last_msn: 7, last_part: 2 }];
    assert_eq!(
        generator.generate_media_playlist(Some(reports)),
        "#EXTM3U\n#EXT-X-VERSION:10\n#EXT-X-INDEPENDENT-SEGMENTS\n#EXT-X-TARGETDURATION:4\n\
         #EXT-X-SERVER-CONTROL:CAN-BLOCK-RELOAD=YES,PART-HOLD-BACK=1.500000\n\
         #EXT-X-PART-INF:PART-TARGET=0.500000\n#EXT-X-MEDIA-SEQUENCE:0\n\
         #EXT-X-DISCONTINUITY-SEQUENCE:0\n\
         #EXT-X-DATERANGE:ID=\"stream-start\",START-DATE=\"2023-11-14T22:13:20.000Z\"\n\n\
         #EXT-X-MAP:URI=\"init.mp4\"\n\
         #EXT-X-PROGRAM-DATE-TIME:2023-11-14T22:13:21.000Z\n\
         #EXT-X-PART:DURATION=1.000000,URI=\"p0.m4v\",INDEPENDENT=YES\n\
         #EXTINF:4.167500,\ns0.m4v\n\
         #EXT-X-PROGRAM-DATE-TIME:2023-11-14T22:13:25.000Z\n\
         #EXT-X-PART:DURATION=1.000000,URI=\"p1.m4v\",INDEPENDENT=YES\n\
         #EXT-X-PART:DURATION=1.000000,URI=\"p2.m4v\"\n\
         #EXT-X-PRELOAD-HINT:TYPE=PART,URI=\"1080p_test_stream_1_2\"\n\
         #EXT-X-RENDITION-REPORT:URI=\"../720p.m3u8\",LAST-MSN=7,LAST-PART=2\n"
    );
}

#[test]
fn window_slides_and_stays_numbered() {
    let mut generator = generator_at(at(0)).with_max_segments(2).with_target_duration(secs(3.2));
    for i in 0..6u64 {
        assert!(generator.can_start_segment());
        assert_eq!(generator.start_segment_at(at(i as i64)), i);
    }
    assert_eq!(generator.segment_count(), 3);
    assert_eq!(generator.current_media_sequence(), 5);
    assert_eq!(generator.last_segment().unwrap().sequence, 5);
    assert!(generator.last_complete_segment().is_none());
    let text = generator.generate_media_playlist(None);
    assert!(text.contains("#EXT-X-MEDIA-SEQUENCE:3\n"));
    assert!(text.contains("#EXT-X-TARGETDURATION:4\n"));
    assert!(!text.contains("PRELOAD-HINT"));
}

#[test]
fn only_the_newest_segment_changes() {
    let mut generator = generator_at(at(0));
    generator.add_part(part(0, "lost.m4v"));
    generator.complete_segment("lost.m4v".to_string(), secs(1.0), 1);
    assert_eq!(generator.segment_count(), 0);
    assert_eq!(generator.current_part_index(), 0);
    generator.start_segment_at(at(1));
    generator.complete_segment("a.m4v".to_string(), secs(2.0), 10);
    generator.start_segment_at(at(2));
    generator.add_part(part(0, "b0.m4v"));
    generator.add_part(part(1, "b1.m4v"));
    assert_eq!(generator.current_part_index(), 1);
    let last = generator.last_segment().unwrap();
    assert_eq!(last.duration, secs(2.0));
    assert_eq!(last.parts.len(), 2);
    let complete = generator.last_complete_segment().unwrap();
    assert_eq!(complete.filename, "a.m4v");
    assert_eq!(complete.sequence, 0);
}

#[test]
fn media_playlist_lists_complete_segments() {
    let mut generator = generator_at(at(0)).with_target_duration(secs(4.9));
    generator.start_segment_at(at(1));
    generator.complete_segment("a.m4v".to_string(), secs(2.0), 10);
    generator.start_segment_at(at(2));
    let list = generator.to_media_playlist();
    assert_eq!(list.version, Some(10));
    assert_eq!(list.target_duration, 4);
    assert!(list.independent_segments);
    assert!(!list.end_list);
    assert_eq!(list.segments.len(), 1);
    assert_eq!(list.segments[0].uri, "a.m4v?type=hls&bitrate=10&filetype=.m4v");
    assert_eq!(list.segments[0].duration, secs(2.0));
    assert_eq!(list.segments[0].program_date_time.unix_secs(), 1);
    generator.complete_segment("b.m4v".to_string(), secs(4.167), 10);
    let list = generator.to_media_playlist();
    assert_eq!(as_float(list.segments[1].duration), f64::from(4.167_f32));
}

#[test]
fn file_names_read_back() {
    let info = SegmentInfo {
        quality: "720p".to_string(),
        hash: "abc".to_string(),
        timestamp: -5,
        frame_number: u64::MAX,
        stream_index: 3,
        sequence: 17,
        part_index: Some(4),
    };
    let name = info.to_filename();
    assert_eq!(name, "720p_abc_-5_18446744073709551615_3_17_4.m4v");
    let back = SegmentInfo::parse_filename(&name).unwrap();
    assert_eq!(back.timestamp, -5);
    assert_eq!(back.frame_number, u64::MAX);
    assert_eq!(back.part_index, Some(4));
    assert!(back.is_part());
    assert!(SegmentInfo::parse_filename("a_b_c.m4v").is_none());
    assert!(SegmentInfo::parse_filename("a_b_1_2_x_4.m4s").is_none());
    assert!(SegmentInfo::parse_filename("a_b_1_2_4294967296_4.m4s").is_none());
    let plus = SegmentInfo::parse_filename("a_b_+1_2_3_4_z.m4s.m4v").unwrap();
    assert_eq!(plus.timestamp, 1);
    assert_eq!(plus.part_index, None);
}

#[test]
fn names_of_parts_and_segments() {
    let mut generator = generator_at(at(0));
    assert_eq!(generator.generate_segment_filename(12), "1080p_test_stream_12");
    assert_eq!(generator.generate_part_filename(12, 3), "1080p_test_stream_12_3");
    assert_eq!(generator.stream_name(), "test_stream");
    assert_eq!(generator.quality_name(), "1080p");
    generator.set_media_sequence(40);
    assert_eq!(generator.current_media_sequence(), 40);
    assert_eq!(generator.start_segment_at(at(1)), 40);
}

fn moments() -> StartMoments {
    StartMoments { playlist: at(10), start_time: at(11), last_update: at(12) }
}

#[test]
fn manager_follows_files() {
    let mut manager = LLHlsManager::new("media".to_string());
    assert!(manager.process_segment_file("none", "a.m4s", &vec![1], secs(1.0)).is_none());
    manager.start_stream_at("alice", "1080p", 5, moments());
    assert!(manager.has_stream("alice"));
    assert_eq!(manager.active_stream_count(), 1);

    // a file whose name says nothing is a segment of its own
    let up = manager
        .process_segment_file_at("alice", "x.m4s", &vec![0; 1000], secs(2.0), at(20), at(21))
        .unwrap();
    assert_eq!(up.file_name, "chunklist.m3u8");
    assert_eq!(up.content_type, "application/vnd.apple.mpegurl");
    assert_eq!(up.priority, 255);
    assert_eq!(up.created_at.unix_secs(), 21);
    let text = String::from_utf8(up.data).unwrap();
    assert!(text.contains("#EXTINF:2.000000,\nx.m4s\n"));
    assert_eq!(manager.get_playlist("alice").unwrap(), text);

    // a whole segment completes the newest, and the next one starts
    let whole = "1080p_h_1_2_0_7.m4v";
    manager.process_segment_file_at("alice", whole, &vec![0; 10], secs(1.0), at(22), at(23));
    let info = manager.get_stream_info("alice").unwrap();
    assert_eq!(info.segment_count, 2);
    assert_eq!(info.media_sequence, 1);
    assert_eq!(info.part_index, 0);
    assert_eq!(info.quality_name, "1080p");
    assert_eq!(info.start_time.unix_secs(), 11);
    assert_eq!(info.last_update.unix_secs(), 23);
    assert!(manager.get_playlist("alice").unwrap().contains(whole));

    // a part joins the newest segment
    manager.process_segment_file_at("alice", "1080p_h_1_2_0_8_0.m4v", &vec![], secs(0.5), at(0), at(0));
    assert_eq!(manager.get_stream_state("alice").unwrap().current_part_count, 1);
    manager.add_part_at("alice", "extra.m4v", secs(0.5), false, at(24));
    assert_eq!(manager.get_stream_info("alice").unwrap().last_update.unix_secs(), 24);
    let text = manager.get_playlist("alice").unwrap();
    assert!(text.contains("URI=\"extra.m4v\""));
    assert!(text.contains("#EXT-X-PRELOAD-HINT:TYPE=PART,URI=\"1080p_alice_1_2\"\n"));
    assert_eq!(manager.get_stream_info("alice").unwrap().part_index, 1);

    let state = manager.get_stream_state("alice").unwrap();
    assert_eq!(state.current_part_count, 2);
    assert_eq!(state.start_time.unix_secs(), 11);
    let indexes: Vec<usize> =
        state.generator.last_segment().unwrap().parts.iter().map(|p| p.index).collect();
    assert_eq!(indexes, vec![0, 1]);
    assert!(manager.get_stream_state("nobody").is_none());

    manager.set_init_segment_at("alice", "init.mp4", at(25));
    manager.set_init_segment("nobody", "init.mp4");
    assert_eq!(manager.get_stream_info("alice").unwrap().last_update.unix_secs(), 25);
    assert!(manager.can_start_segment("alice"));
    let up = manager.complete_segment_at("alice", "done.m4v", secs(1.0), 9, at(25), at(26)).unwrap();
    assert_eq!(up.stream_name, "alice");
    let text = String::from_utf8(up.data).unwrap();
    assert!(text.contains("#EXT-X-MAP:URI=\"init.mp4\"\n"));
    assert!(text.contains("#EXTINF:1.000000,\ndone.m4v\n"));
    assert_eq!(manager.get_stream_state("alice").unwrap().current_part_count, 0);
    assert_eq!(manager.get_stream_info("alice").unwrap().last_update.unix_secs(), 26);
    assert_eq!(manager.update_playlist_at("alice", at(30)).unwrap().created_at.unix_secs(), 30);
    assert!(manager.update_playlist("nobody").is_none());
    assert!(manager.get_playlist("nobody").is_none());
    assert!(manager.get_stream_info("nobody").is_none());

    manager.stop_stream("alice");
    assert!(!manager.has_stream("alice"));
    assert_eq!(manager.active_stream_count(), 0);
}

#[test]
fn added_parts_are_indexed_within_their_segment() {
    let mut manager = LLHlsManager::new("media".to_string());
    manager.start_stream_at("alice", "1080p", 5, moments());
    manager.add_part_at("alice", "lost.m4v", secs(0.5), true, at(13));
    assert_eq!(manager.get_stream_state("alice").unwrap().current_part_count, 0);
    manager.complete_segment_at("alice", "none.m4v", secs(1.0), 9, at(14), at(15));
    for name in ["a.m4v", "b.m4v", "c.m4v"] {
        manager.add_part_at("alice", name, secs(0.5), name == "a.m4v", at(16));
    }
    let state = manager.get_stream_state("alice").unwrap();
    let parts = &state.generator.last_segment().unwrap().parts;
    let indexes: Vec<usize> = parts.iter().map(|p| p.index).collect();
    assert_eq!(indexes, vec![0, 1, 2]);
    assert_eq!(state.current_part_count, 3);
    let text = manager.get_playlist("alice").unwrap();
    assert!(text.contains("URI=\"a.m4v\",INDEPENDENT=YES\n"));
    assert!(text.contains("URI=\"b.m4v\"\n"));
    manager.set_init_segment("alice", "init.mp4");
    assert!(manager.get_playlist("alice").unwrap().contains("#EXT-X-MAP:URI=\"init.mp4\"\n"));
}

#[test]
fn playlist_announces_everything() {
    let mut generator = generator_at(at(0));
    generator.set_init_segment("init.mp4".to_string());
    for i in 0..3i64 {
        generator.start_segment_at(at(i));
        generator.add_part(part(0, &format!("s{}p0.m4v", i)));
        generator.add_part(part(1, &format!("s{}p1.m4v", i)));
        if i < 2 {
            generator.complete_segment(format!("s{}.m4v", i), secs(2.0), 10);
        }
    }
    let text = generator.generate_media_playlist(None);
    let tagged = |tag: &str| text.lines().filter(|l| l.starts_with(tag)).count();
    assert_eq!(tagged("#EXTINF:"), 2);
    assert_eq!(tagged("#EXT-X-PART:"), 6);
    assert_eq!(tagged("#EXT-X-PRELOAD-HINT:"), 1);
    assert_eq!(tagged("#EXT-X-MAP:"), 1);
    let parts: Vec<&str> = text
        .lines()
        .filter(|l| l.starts_with("#EXT-X-PART:"))
        .map(|l| l.split('"').nth(1).unwrap())
        .collect();
    assert_eq!(
        parts,
        vec!["s0p0.m4v", "s0p1.m4v", "s1p0.m4v", "s1p1.m4v", "s2p0.m4v", "s2p1.m4v"]
    );
}

#[test]
fn names_may_hold_carriage_returns() {
    let mut generator = generator_at(at(0));
    generator.set_init_segment("init.mp4\r".to_string());
    generator.start_segment_at(at(0));
    generator.add_part(part(0, "p0.m4v\r"));
    generator.complete_segment("s0.m4v\r".to_string(), secs(2.0), 10);
    let text = generator.generate_media_playlist(None);
    let tagged = |tag: &str| text.lines().filter(|l| l.starts_with(tag)).collect::<Vec<&str>>();
    assert_eq!(tagged("#EXTINF:"), vec!["#EXTINF:2.000000,"]);
    assert_eq!(tagged("#EXT-X-PART:").len(), 1);
    assert!(tagged("#EXT-X-PART:")[0].contains("URI=\"p0.m4v\r\""));
    assert_eq!(tagged("#EXT-X-MAP:"), vec!["#EXT-X-MAP:URI=\"init.mp4\r\""]);
}

#[test]
fn playlists_hold_odd_durations() {
    let mut generator = generator_at(at(0)).with_target_duration(secs(f64::NAN));
    generator.start_segment_at(at(0));
    generator.complete_segment("s0.m4v".to_string(), secs(-1.5), 10);
    generator.start_segment_at(at(1));
    generator.complete_segment("s1.m4v".to_string(), secs(f64::INFINITY), 10);
    let text = generator.generate_media_playlist(None);
    assert!(text.contains("#EXT-X-TARGETDURATION:0\n"));
    assert!(text.contains("#EXTINF:-1.500000,\n"));
    assert!(text.contains("#EXTINF:inf,\n"));
    let generator = generator_at(at(0)).with_target_duration(secs(1e18)).with_part_target(secs(0.1));
    let text = generator.generate_media_playlist(None);
    assert!(text.contains("#EXT-X-TARGETDURATION:4294967295\n"));
    assert!(text.contains("PART-HOLD-BACK=0.300000\n"));
    assert_eq!(generator.to_media_playlist().target_duration, 1_000_000_000_000_000_000);
}

#[test]
fn durations_of_parts_add_up_as_numbers_do() {
    let mut generator = generator_at(at(0));
    generator.start_segment_at(at(0));
    let mut total = 0.0;
    for i in 0..20 {
        let mut p = part(i, "p");
        p.duration = secs(0.1);
        generator.add_part(p);
        total += 0.1;
    }
    assert_eq!(as_float(generator.last_segment().unwrap().duration), total);
    assert_ne!(total, 2.0);
}

#[test]
fn bit_rates_are_whole_bits_per_second() {
    assert_eq!(calculate_bitrate(&vec![0; 1000], secs(2.0)), 4000);
    assert_eq!(calculate_bitrate(&vec![0; 1], secs(3.0)), 2);
    assert_eq!(calculate_bitrate(&vec![0; 1], secs(0.0)), 5_000_000);
    assert_eq!(calculate_bitrate(&vec![0; 1], secs(-2.0)), 5_000_000);
    assert_eq!(calculate_bitrate(&vec![0; 1], secs(f64::NAN)), 5_000_000);
    assert_eq!(calculate_bitrate(&vec![0; 1], secs(f64::INFINITY)), 0);
    assert_eq!(calculate_bitrate(&vec![0; 1], secs(1e-300)), u64::MAX);
    assert_eq!(calculate_bitrate(&vec![], secs(2.0)), 0);
    for len in [1usize, 7, 188, 65_537, 333_333] {
        for d in [0.0004999, 0.1, 0.3, 1.0 / 3.0, 1.001, 2.5, 4.167, 1e-12, 5e-324] {
            let expected = ((len as f64 * 8.0) / d) as u64;
            assert_eq!(calculate_bitrate(&vec![0; len], secs(d)), expected, "{} {}", len, d);
        }
    }
}
