use llhls::config::ThumbnailConfig;
use llhls::float::Double;
use llhls::storage::s3_file_watcher::{extension, S3FileWatcher};
use llhls::streaming::file_watcher::{
    combined_media, extinf_number, extinf_numbers, file_kind, should_extract_thumbnail,
    thumbnail_job, thumbnail_upload, thumbnail_upload_at, FileKind, FileOutcome, FileWatcher,
    LLHlsState, ThumbnailStep,
};
use llhls::time::Timestamp;

fn at(secs: i64) -> Timestamp {
    Timestamp::from_unix(secs, 0).unwrap()
}

fn secs(value: f64) -> Double {
    Double::from_bits(value.to_bits())
}

fn watcher(enabled: bool) -> FileWatcher {
    let config = ThumbnailConfig { enabled, ..ThumbnailConfig::default() };
    FileWatcher::new("alice".to_string(), config)
}

fn segment(w: &mut FileWatcher, name: &str) -> Option<(String, String, bool)> {
    assert!(w.can_take(name));
    match w.on_file_at(name, vec![7, 8], &vec![], at(1), at(2)) {
        FileOutcome::Segment { upload, playlist, thumbnail } => {
            assert_eq!(upload.stream_name, "alice");
            assert_eq!(upload.data, vec![7, 8]);
            assert_eq!(upload.content_type, "video/iso.segment");
            assert_eq!(upload.priority, 150);
            assert_eq!(upload.created_at.unix_secs(), 1);
            assert_eq!(playlist.file_name, "playlist.m3u8");
            assert_eq!(playlist.content_type, "application/vnd.apple.mpegurl");
            assert_eq!(playlist.priority, 200);
            assert_eq!(playlist.created_at.unix_secs(), 2);
            Some((upload.file_name, String::from_utf8(playlist.data).unwrap(), thumbnail))
        },
        _ => None,
    }
}

#[test]
fn files_are_told_by_name() {
    assert_eq!(file_kind("segment_1.m4s.tmp"), FileKind::Temporary);
    assert_eq!(file_kind("playlist.m3u8"), FileKind::Playlist);
    assert_eq!(file_kind("init.mp4"), FileKind::Init);
    assert_eq!(file_kind("segment_1.m4s"), FileKind::Segment);
    assert_eq!(file_kind("thumbnail.jpg"), FileKind::Other);
}

#[test]
fn numbers_of_extinf_lines() {
    assert_eq!(extinf_number("#EXTINF:1.001,title").unwrap(), "1.001");
    assert_eq!(extinf_number("#EXTINF:#EXTINF:2").unwrap(), "2");
    assert!(extinf_number("EXTINF:2").is_none());
    assert_eq!(extinf_numbers("#EXTM3U\r\n#EXTINF:1,\na\n#EXTINF:2,\nb"), vec!["1", "2"]);
}

#[test]
fn segments_become_uploads() {
    let mut w = watcher(false);
    let durations = vec![Some(secs(0.000009)), Some(secs(1.0015)), None];
    assert!(matches!(
        w.on_file_at("playlist.m3u8", vec![], &durations, at(1), at(2)),
        FileOutcome::Nothing
    ));
    let (name, text, thumbnail) = segment(&mut w, "segment_1.m4s").unwrap();
    assert_eq!(name, "segment_1.m4s");
    assert!(!thumbnail);
    assert_eq!(
        text,
        "#EXTM3U\n#EXT-X-VERSION:7\n#EXT-X-TARGETDURATION:1\n#EXT-X-MEDIA-SEQUENCE:0\n\
         #EXT-X-MAP:URI=\"init.mp4\"\n\n#EXTINF:1.002,\nsegment_1.m4s\n"
    );
    // the duration was used up: the next segment lasts a second
    let (_, text, _) = segment(&mut w, "segment_2.m4s").unwrap();
    assert!(text.ends_with("#EXTINF:1.000,\nsegment_2.m4s\n"));
    // a segment is taken once
    assert!(segment(&mut w, "segment_2.m4s").is_none());
    assert!(matches!(w.on_file("x.m4s.tmp", vec![], &vec![]), FileOutcome::Nothing));
    assert!(matches!(w.on_file("thumbnail.jpg", vec![], &vec![]), FileOutcome::Nothing));
}

#[test]
fn init_is_sent_once() {
    let mut w = watcher(true);
    match w.on_file_at("init.mp4", vec![5], &vec![], at(3), at(4)) {
        FileOutcome::Init { upload } => {
            assert_eq!(upload.file_name, "init.mp4");
            assert_eq!(upload.data, vec![5]);
            assert_eq!(upload.content_type, "video/mp4");
            assert_eq!(upload.priority, 255);
            assert_eq!(upload.created_at.unix_secs(), 3);
        },
        other => panic!("{:?}", other),
    }
    assert!(matches!(w.on_file("init.mp4", vec![6], &vec![]), FileOutcome::Nothing));
}

#[test]
fn window_keeps_ten_segments() {
    let mut w = watcher(false);
    let mut text = String::new();
    for i in 0..13 {
        text = segment(&mut w, &format!("segment_{}.m4s", i)).unwrap().1;
    }
    assert!(text.contains("#EXT-X-MEDIA-SEQUENCE:3\n"));
    assert_eq!(text.matches("#EXTINF:").count(), 10);
    assert!(!text.contains("segment_2.m4s"));
    assert!(text.contains("segment_3.m4s"));
}

#[test]
fn record_of_seen_segments_keeps_the_newest() {
    let mut state = LLHlsState::new();
    for i in 0..20 {
        state.mark_processed(format!("segment_{}.m4s", i));
    }
    assert!(state.is_processed("segment_0.m4s"));
    state.mark_processed("segment_20.m4s".to_string());
    assert!(state.is_processed("segment_20.m4s"));
    assert!(state.is_processed("segment_1.m4s"));
    assert!(!state.is_processed("segment_0.m4s"));
    // a name that is recorded again counts as new
    state.mark_processed("segment_1.m4s".to_string());
    state.mark_processed("segment_21.m4s".to_string());
    assert!(state.is_processed("segment_1.m4s"));
    assert!(!state.is_processed("segment_2.m4s"));
    assert!(state.is_processed("segment_3.m4s"));
    assert_eq!(state.segment_count(), 0);
    state.add_segment("a".to_string(), secs(0.0005));
    assert_eq!(state.segment_count(), 1);
    assert!(!state.init_uploaded());
    state.set_init_uploaded();
    assert!(state.init_uploaded());
    assert!(state.generate_playlist().ends_with("#EXTINF:0.001,\na\n"));
}

#[test]
fn thumbnails_at_the_second_and_every_interval() {
    let mut w = watcher(true);
    let taken: Vec<bool> =
        (1..=10).map(|i| segment(&mut w, &format!("{}.m4s", i)).unwrap().2).collect();
    assert_eq!(
        taken,
        vec![false, true, false, false, true, false, false, false, false, true]
    );
    let off = ThumbnailConfig { enabled: false, interval_seconds: 0, ..ThumbnailConfig::default() };
    assert!(!should_extract_thumbnail(&off, 3));
    let zero = ThumbnailConfig { interval_seconds: 0, ..ThumbnailConfig::default() };
    assert!(should_extract_thumbnail(&zero, 2));
    let mut w = FileWatcher::new("alice".to_string(), zero);
    assert!(w.can_take("a.m4s"));
    assert!(!segment(&mut w, "a.m4s").unwrap().2);
    assert!(w.can_take("b.m4s"));
    assert!(segment(&mut w, "b.m4s").unwrap().2);
    assert!(!w.can_take("c.m4s"));
    // what cannot be counted has an upload all the same
    let upload = w.segment_upload_at("c.m4s", vec![1], at(9));
    assert_eq!((upload.stream_name.as_str(), upload.file_name.as_str()), ("alice", "c.m4s"));
    assert_eq!((upload.content_type.as_str(), upload.priority), ("video/iso.segment", 150));
    assert_eq!((upload.data, upload.created_at.unix_secs()), (vec![1], 9));
    assert_eq!(w.segment_upload("c.m4s", vec![2]).data, vec![2]);
    assert!(w.can_take("b.m4s"));
    assert!(w.can_take("init.mp4"));
}

#[test]
fn no_thumbnail_of_the_first_segment() {
    let each = ThumbnailConfig { interval_seconds: 1, ..ThumbnailConfig::default() };
    let mut w = FileWatcher::new("alice".to_string(), each);
    let taken: Vec<bool> =
        (1..=4).map(|i| segment(&mut w, &format!("{}.m4s", i)).unwrap().2).collect();
    assert_eq!(taken, vec![false, true, true, true]);
}

#[test]
fn a_segment_is_taken_once_however_many_came_before() {
    let mut w = watcher(false);
    for i in 0..25 {
        let name = format!("segment_{}.m4s", i);
        assert!(segment(&mut w, &name).is_some());
        assert!(segment(&mut w, &name).is_none());
    }
    assert!(segment(&mut w, "segment_5.m4s").is_none());
    assert!(segment(&mut w, "segment_4.m4s").is_some());
}

#[test]
fn thumbnail_files_and_arguments() {
    let job = thumbnail_job("/tmp/d", &ThumbnailConfig::default());
    assert_eq!(job.init_path, "/tmp/d/init.mp4");
    assert_eq!(job.thumb_path, "/tmp/d/thumbnail.jpg");
    assert_eq!(job.combined_path, "/tmp/d/combined.mp4");
    assert_eq!(
        job.args,
        vec![
            "-y", "-i", "/tmp/d/combined.mp4", "-vf", "scale=320:180", "-vframes", "1", "-q:v",
            "3", "/tmp/d/thumbnail.jpg",
        ]
    );
    assert_eq!(combined_media(vec![1, 2], &vec![3]), vec![1, 2, 3]);
    let upload = thumbnail_upload_at("s", vec![9], at(8));
    assert_eq!(upload.file_name, "thumbnail.jpg");
    assert_eq!(upload.content_type, "image/jpeg");
    assert_eq!(upload.priority, 50);
    assert_eq!(upload.created_at.unix_secs(), 8);
    assert!(thumbnail_upload("s", vec![]).created_at.unix_secs() > 1_600_000_000);
}

#[test]
fn every_way_to_a_thumbnail_removes_the_segment() {
    // each way is one choice of what goes well
    for ways in 0..256u32 {
        let mut step = ThumbnailStep::ReadInit;
        let mut removed = false;
        let mut uploaded = false;
        let mut all_well = true;
        let mut taken = 0;
        while step != ThumbnailStep::Done {
            if matches!(step, ThumbnailStep::RemoveInputs { .. } | ThumbnailStep::RemoveSegment) {
                removed = true;
            }
            let ok = ways >> taken & 1 == 1;
            match step {
                ThumbnailStep::ReadInit
                | ThumbnailStep::ReadSegment
                | ThumbnailStep::WriteCombined
                | ThumbnailStep::RunEncoder
                | ThumbnailStep::ReadThumbnail => all_well = all_well && ok,
                ThumbnailStep::UploadThumbnail => uploaded = true,
                _ => {},
            }
            step = step.next(ok);
            taken += 1;
        }
        assert!(removed);
        assert_eq!(uploaded, all_well);
        assert!(taken <= 8);
    }
    assert_eq!(
        ThumbnailStep::RunEncoder.next(true),
        ThumbnailStep::RemoveInputs { encoded: true }
    );
    assert_eq!(ThumbnailStep::ReadThumbnail.next(true), ThumbnailStep::UploadThumbnail);
    assert_eq!(ThumbnailStep::ReadSegment.next(false), ThumbnailStep::RemoveSegment);
}

#[test]
fn batches_upload_playlists_first() {
    let mut w = S3FileWatcher::new("alice".to_string(), "hls_output/alice".to_string());
    assert!(!w.batch_is_due(99));
    assert!(w.batch_is_due(100));
    assert_eq!(w.wait_ms(0), 100);
    assert_eq!(w.wait_ms(99), 1);
    assert_eq!(w.wait_ms(100), 0);
    assert_eq!(w.wait_ms(u64::MAX), 0);
    for name in ["a.m4s", "b.m3u8", "notes.txt", "c.ts", "d.m3u8", "a.m4s"] {
        w.note_change(format!("/o/{}", name), name.to_string());
    }
    assert!(!w.batch_is_due(0));
    w.note_change("/o/e.png".to_string(), "e.png".to_string());
    assert!(w.batch_is_due(0));
    assert_eq!(w.wait_ms(0), 0);
    let tasks = w.process_pending_files();
    let keys: Vec<&str> = tasks.iter().map(|t| t.s3_key.as_str()).collect();
    assert_eq!(
        keys,
        vec![
            "hls_output/alice/b.m3u8",
            "hls_output/alice/d.m3u8",
            "hls_output/alice/a.m4s",
            "hls_output/alice/c.ts",
            "hls_output/alice/e.png",
        ]
    );
    assert_eq!(tasks[0].content_type, "application/vnd.apple.mpegurl");
    assert_eq!(tasks[2].content_type, "video/mp4");
    assert_eq!(tasks[2].file_path, "/o/a.m4s");
    assert_eq!(tasks[2].stream_key, "alice");
    assert!(w.process_pending_files().is_empty());
}

#[test]
fn media_types_by_extension() {
    assert_eq!(S3FileWatcher::get_content_type("a.json"), "application/json");
    assert_eq!(S3FileWatcher::get_content_type("a.b.jpeg"), "image/jpeg");
    assert_eq!(S3FileWatcher::get_content_type("a.png"), "image/png");
    assert_eq!(S3FileWatcher::get_content_type("a.ts"), "video/mp2t");
    assert_eq!(S3FileWatcher::get_content_type(".ts"), "application/octet-stream");
    assert_eq!(S3FileWatcher::get_content_type("ts"), "application/octet-stream");
    assert_eq!(extension("a.b.c").unwrap(), "c");
    assert_eq!(extension("a.").unwrap(), "");
}
