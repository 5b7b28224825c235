use llhls::http::Method;
use llhls::storage::bunny_uploader::{
    bunny_cache_control, delete_result, list_result, purge_result, upload_with_retry,
    BunnyUploader, PutOutcome, PutReply,
};
use llhls::storage::cli_s3_uploader::{
    run_result, temp_path, uuid_at, uuid_simple, CliRun, CliS3Uploader, CliSegment,
};
use llhls::storage::file_s3_uploader::{calculate_backoff, FileS3Uploader};
use llhls::storage::memory_s3_uploader::{
    backoff_ms, content_type, priority, MemoryS3Uploader, MemorySegment, UploadState,
};
use llhls::storage::reqwest_s3_uploader::{sign, upload_result, ReqwestS3Uploader};
use llhls::storage::upload::{cache_control, error_kind, AttemptOutcome, ErrorKind};
use llhls::table::Table;
use llhls::time::Timestamp;

fn at(secs: i64) -> Timestamp {
    Timestamp::from_unix(secs, 0).unwrap()
}

fn segment(file: &str, priority: u8) -> MemorySegment {
    MemorySegment {
        stream_name: "s".to_string(),
        file_name: file.to_string(),
        data: vec![1, 2, 3],
        content_type: "video/mp4".to_string(),
        priority,
        created_at: at(1),
        retry_count: 0,
    }
}

#[test]
fn queue_is_ordered_by_priority() {
    let mut uploader = MemoryS3Uploader::new("b".to_string(), 1);
    assert_eq!(uploader.worker_limit(), 8);
    assert_eq!(uploader.queue_segment(segment("a", 100)), 1);
    assert_eq!(uploader.queue_segment(segment("b", 255)), 2);
    uploader.batch_upload(vec![segment("c", 100), segment("d", 200)]);
    assert_eq!(uploader.pending_count(), 4);
    let mut order = Vec::new();
    while let Some(task) = uploader.next_task() {
        order.push(task.segment.file_name);
    }
    assert_eq!(order, vec!["b", "d", "a", "c"]);
    assert_eq!(uploader.active_count(), 4);
    assert!(uploader.next_task().is_none());
}

#[test]
fn memory_upload_is_tried_six_times() {
    let mut uploader = MemoryS3Uploader::new("b".to_string(), 20);
    assert_eq!(uploader.worker_limit(), 20);
    uploader.queue_segment(segment("a", 100));
    let mut task = uploader.next_task().unwrap();
    for failures in 1..=5u64 {
        let outcome = uploader.after_attempt(&mut task, Err("SlowDown".to_string()));
        assert_eq!(outcome, AttemptOutcome::Retry { wait_ms: 2000 * failures });
    }
    assert!(matches!(uploader.get_upload_status("s/a"), Some(UploadState::Uploading)));
    assert_eq!(uploader.after_attempt(&mut task, Err("x".to_string())), AttemptOutcome::GaveUp);
    match uploader.get_upload_status("s/a") {
        Some(UploadState::Failed(error)) => assert_eq!(error, "x"),
        other => panic!("{:?}", other),
    }
    assert!(uploader.get_upload_status("s/b").is_none());
    assert_eq!(uploader.active_count(), 0);
}

#[test]
fn memory_upload_completes() {
    let mut uploader = MemoryS3Uploader::new("bucket".to_string(), 8);
    uploader.queue_segment(segment("list.m3u8", 100));
    let mut task = uploader.next_task().unwrap();
    let put = uploader.upload_request_at(&task, &at(1_700_000_000));
    assert_eq!(put.bucket, "bucket");
    assert_eq!(put.key, "s/list.m3u8");
    assert_eq!(put.content_length, 3);
    assert_eq!(put.content_type, "video/mp4");
    assert_eq!(put.cache_control, "no-cache, no-store, must-revalidate");
    assert_eq!(
        put.metadata,
        vec![
            ("x-amz-meta-last-modified".to_string(), "2023-11-14T22:13:20+00:00".to_string()),
            ("x-amz-meta-type".to_string(), "playlist".to_string()),
        ]
    );
    assert_eq!(uploader.upload_request(&task).key, "s/list.m3u8");
    assert_eq!(uploader.after_attempt(&mut task, Ok(())), AttemptOutcome::Done);
    assert!(matches!(uploader.get_upload_status("s/list.m3u8"), Some(UploadState::Completed)));
}

#[test]
fn stream_files_get_types_and_priorities() {
    let mut files: Table<Vec<u8>> = Table::new();
    files.insert("a.m4s".to_string(), vec![1]);
    files.insert("init.mp4".to_string(), vec![2]);
    files.insert("list.m3u8".to_string(), vec![3]);
    let mut uploader = MemoryS3Uploader::new("b".to_string(), 8);
    uploader.upload_stream_from_memory_at("s", &files, at(9));
    uploader.upload_stream_from_memory("t", &Table::new());
    let first = uploader.next_task().unwrap().segment;
    assert_eq!(first.file_name, "list.m3u8");
    assert_eq!(first.content_type, "application/vnd.apple.mpegurl");
    assert_eq!(first.priority, 255);
    assert_eq!(first.created_at.unix_secs(), 9);
    assert_eq!(first.data, vec![3]);
    assert_eq!(uploader.next_task().unwrap().segment.priority, 200);
    let last = uploader.next_task().unwrap().segment;
    assert_eq!(last.content_type, "video/iso.segment");
    assert_eq!(last.priority, 100);
    assert_eq!(content_type("a.ts"), "video/mp2t");
    assert_eq!(content_type("a.mp4"), "video/mp4");
    assert_eq!(content_type("a"), "application/octet-stream");
    assert_eq!(priority("my_init_x.mp4"), 200);
    assert_eq!(priority("init.m3u8"), 255);
}

#[test]
fn waits_grow_with_failures() {
    assert_eq!(backoff_ms("dispatch failure", 3), 1500);
    assert_eq!(backoff_ms("Timeout", 2), 2000);
    assert_eq!(backoff_ms("boom", 2), 600);
    assert_eq!(calculate_backoff("SlowDown connection", 1), 2000);
    assert_eq!(calculate_backoff("re-used", 2), 1000);
    assert_eq!(calculate_backoff("timeout", 3), 3000);
    assert_eq!(calculate_backoff("boom", 255), 51_000);
    assert_eq!(error_kind("Connection reset"), ErrorKind::Connection);
    assert_eq!(error_kind(""), ErrorKind::Other);
}

#[test]
fn caches_are_told_by_name() {
    assert_eq!(cache_control("s/p.m3u8"), "no-cache, no-store, must-revalidate");
    assert_eq!(cache_control("s/init.mp4"), "public, max-age=86400");
    assert_eq!(cache_control("s/a.m4s"), "public, max-age=3600");
    assert_eq!(bunny_cache_control("a.m3u8"), "no-cache, no-store, must-revalidate, max-age=0");
    assert_eq!(bunny_cache_control("a.m4s"), "public, max-age=31536000");
}

#[test]
fn worker_pool_records_uploads() {
    let mut uploader = FileS3Uploader::new("b".to_string(), 3);
    assert_eq!(uploader.worker_limit(), 16);
    assert_eq!(uploader.channel_capacity(), 32);
    let job = uploader.queue_data("s", "a.m4s", vec![7; 2048], "video/mp4");
    assert_eq!(job.key, "s/a.m4s");
    assert_eq!(job.file_size_kb, 2);
    assert_eq!(job.data.len(), 2048);
    assert_eq!(uploader.pending_count(), 1);
    assert_eq!(uploader.upload_request_at(&job, &at(0)).content_length, 2048);
    assert!(uploader.upload_request(&job).metadata.is_empty());
    for attempt in 0..3u8 {
        assert_eq!(
            uploader.after_attempt(&job, attempt, Err("x".to_string())),
            AttemptOutcome::Retry { wait_ms: 200 * (attempt as u64 + 1) }
        );
    }
    assert_eq!(uploader.after_attempt(&job, 3, Err(String::new())), AttemptOutcome::GaveUp);
    // a failure without a text leaves the record as it was
    assert_eq!(uploader.active_count(), 1);
    assert_eq!(uploader.after_attempt(&job, 3, Err("x".to_string())), AttemptOutcome::GaveUp);
    assert_eq!(uploader.active_count(), 0);
    let job = uploader.queue_data("s", "b.m4s", vec![], "video/mp4");
    assert_eq!(uploader.after_attempt(&job, 0, Ok(())), AttemptOutcome::Done);
    uploader.queue_data("s", "c.m4s", vec![], "video/mp4");
    uploader.queue_failed("s/c.m4s".to_string());
    assert_eq!(uploader.pending_count(), 0);
}

fn cli(endpoint: Option<&str>) -> CliS3Uploader {
    CliS3Uploader::new(
        "bucket".to_string(),
        "eu".to_string(),
        endpoint.map(|e| e.to_string()),
        "key".to_string(),
        "word".to_string(),
        40,
    )
}

#[test]
fn command_line_uploads() {
    let mut uploader = cli(Some("http://minio"));
    assert_eq!(uploader.worker_limit(), 40);
    let segment: CliSegment =
        CliS3Uploader::queue_data_at("s", "init.mp4", vec![1], "video/mp4", 9, at(5));
    assert_eq!(segment.priority, 9);
    let key = uploader.queue_segment(&segment);
    assert_eq!(key, "s/init.mp4");
    assert_eq!(uploader.pending_count(), 1);
    assert_eq!(
        uploader.upload_args("/tmp/x", &key, "video/mp4"),
        vec![
            "s3", "cp", "/tmp/x", "s3://bucket/s/init.mp4", "--region", "eu", "--content-type",
            "video/mp4", "--cache-control", "public, max-age=86400", "--endpoint-url",
            "http://minio",
        ]
    );
    assert_eq!(cli(None).upload_args("/tmp/x", "k", "t").len(), 10);
    assert_eq!(cli(Some("")).upload_args("/tmp/x", "k", "t").len(), 10);
    let env = uploader.environment();
    assert_eq!(env[0], ("AWS_ACCESS_KEY_ID".to_string(), "key".to_string()));
    assert_eq!(env[1], ("AWS_SECRET_ACCESS_KEY".to_string(), "word".to_string()));
    assert_eq!(env[2], ("AWS_DEFAULT_REGION".to_string(), "eu".to_string()));
    assert_eq!(
        uploader.after_attempt(&key, 2, Err("e".to_string())),
        AttemptOutcome::Retry { wait_ms: 600 }
    );
    assert_eq!(uploader.after_attempt(&key, 3, Err("e".to_string())), AttemptOutcome::GaveUp);
    assert_eq!(uploader.active_count(), 0);
    uploader.queue_segment(&segment);
    assert_eq!(uploader.after_attempt(&key, 0, Ok(())), AttemptOutcome::Done);
    assert_eq!(uploader.active_count(), 0);
    assert_eq!(CliS3Uploader::queue_data("s", "f", vec![], "t", 1).file_name, "f");
}

#[test]
fn runs_of_the_tool() {
    let gone = CliRun::NotWritten { error: "full".to_string() };
    assert_eq!(run_result(&gone).unwrap_err(), "Failed to write temp file: full");
    let lost = CliRun::NotJoined { error: "gone".to_string() };
    assert_eq!(run_result(&lost).unwrap_err(), "Task join error: gone");
    let none = CliRun::NotStarted { error: "no aws".to_string() };
    assert_eq!(run_result(&none).unwrap_err(), "Failed to execute AWS CLI: no aws");
    let bad = CliRun::Exited { success: false, stderr: "denied".to_string() };
    assert_eq!(run_result(&bad).unwrap_err(), "AWS CLI failed: denied");
    assert!(run_result(&CliRun::Exited { success: true, stderr: String::new() }).is_ok());
    assert_eq!(uuid_at(12, 34), "12_34");
    assert_eq!(temp_path("12_34"), "/tmp/s3_upload_12_34");
    let name = uuid_simple();
    let seconds: u64 = name.split('_').next().unwrap().parse().unwrap();
    assert!(seconds > 1_600_000_000);
}

fn rest() -> ReqwestS3Uploader {
    ReqwestS3Uploader::new(
        "media-bucket".to_string(),
        "ap-northeast-2".to_string(),
        "AKIDEXAMPLE".to_string(),
        "secret".to_string(),
        2,
    )
}

#[test]
fn requests_are_signed() {
    let uploader = rest();
    assert_eq!(uploader.worker_limit(), 16);
    let request = uploader.upload_to_s3_direct_at(
        "alice/2024/segment_1.m4s",
        b"hello",
        "video/iso.segment",
        &at(1_700_000_000),
    );
    assert_eq!(request.method, Method::Put);
    assert_eq!(
        request.url,
        "https://media-bucket.s3.ap-northeast-2.amazonaws.com/alice/2024/segment_1.m4s"
    );
    let value = |name: &str| {
        request.headers.iter().find(|h| h.0 == name).map(|h| h.1.clone()).unwrap()
    };
    assert_eq!(request.headers.len(), 6);
    assert_eq!(value("Host"), "media-bucket.s3.ap-northeast-2.amazonaws.com");
    assert_eq!(value("Cache-Control"), "public, max-age=3600");
    assert_eq!(value("x-amz-date"), "20231114T221320Z");
    assert_eq!(
        value("x-amz-content-sha256"),
        "2cf24dba5fb0a30e26e83b2ac5b9e29e1b161e5c1fa7425e73043362938b9824"
    );
    assert_eq!(
        value("Authorization"),
        "AWS4-HMAC-SHA256 Credential=AKIDEXAMPLE/20231114/ap-northeast-2/s3/aws4_request, \
         SignedHeaders=cache-control;content-type;host;x-amz-content-sha256;x-amz-date, \
         Signature=b36acd5a7f3c892e8747a96f5759cb69d2acba66ccaad4210703ca828c28c6e0"
    );
    assert_eq!(uploader.upload_to_s3_direct("k", b"", "t").headers.len(), 6);
}

#[test]
fn codes_are_those_of_hmac() {
    let code = sign(b"key", "The quick brown fox jumps over the lazy dog");
    let text: String = code.iter().map(|b| format!("{:02x}", b)).collect();
    assert_eq!(text, "f7bc83f430538424b13298e6aa6fb143ef4d59a14946175997479dbc2d1a3cd8");
}

#[test]
fn rest_uploads_are_recorded() {
    let mut uploader = rest();
    let key = uploader.queue_data("s", "a.m4s");
    assert_eq!(key, "s/a.m4s");
    assert_eq!(uploader.active_count(), 1);
    assert_eq!(
        uploader.after_attempt(&key, 0, Err("e".to_string())),
        AttemptOutcome::Retry { wait_ms: 100 }
    );
    assert_eq!(uploader.after_attempt(&key, 3, Err("e".to_string())), AttemptOutcome::GaveUp);
    assert_eq!(uploader.pending_count(), 0);
    uploader.queue_data("s", "a.m4s");
    assert_eq!(uploader.after_attempt(&key, 1, Ok(())), AttemptOutcome::Done);
    assert_eq!(uploader.pending_count(), 0);
    assert!(upload_result(true, "200 OK", "").is_ok());
    assert_eq!(
        upload_result(false, "403 Forbidden", "no").unwrap_err(),
        "S3 upload failed: 403 Forbidden - no"
    );
}

#[test]
fn bunny_requests() {
    let mut uploader = BunnyUploader::new("zone".to_string(), "k".to_string(), None);
    assert_eq!(uploader.get_cdn_url("a/b"), "https://zone.b-cdn.net/a/b");
    let named =
        BunnyUploader::new("zone".to_string(), "k".to_string(), Some("cdn.example".to_string()));
    assert_eq!(named.get_cdn_url("a/b"), "https://cdn.example/a/b");
    let key = uploader.queue_data("s", "p.m3u8");
    assert_eq!(uploader.active_count(), 1);
    let put = uploader.upload_request(&key, "t");
    assert_eq!(put.method, Method::Put);
    assert_eq!(put.url, "https://sg.storage.bunnycdn.com/zone/s/p.m3u8");
    assert_eq!(put.headers[0], ("AccessKey".to_string(), "k".to_string()));
    assert_eq!(put.headers[1], ("Content-Type".to_string(), "t".to_string()));
    assert_eq!(put.headers.len(), 3);
    uploader.upload_ended();
    assert_eq!(uploader.pending_count(), 0);
    let list = uploader.list_files("s");
    assert_eq!(list.method, Method::Get);
    assert_eq!(list.url, "https://sg.storage.bunnycdn.com/zone/s/");
    assert_eq!(list.headers[1], ("Accept".to_string(), "application/json".to_string()));
    assert_eq!(uploader.delete_file("x").method, Method::Delete);
    let purge = uploader.purge_cache("7", "acc");
    assert_eq!(purge.method, Method::Post);
    assert_eq!(purge.url, "https://api.bunny.net/pullzone/7/purgeCache");
    assert_eq!(purge.headers, vec![("AccessKey".to_string(), "acc".to_string())]);
}

#[test]
fn bunny_replies() {
    assert!(matches!(upload_with_retry(0, PutReply::Status(201)), PutOutcome::Done));
    assert!(matches!(
        upload_with_retry(3, PutReply::Status(500)),
        PutOutcome::Retry { wait_ms: 400 }
    ));
    assert!(matches!(
        upload_with_retry(0, PutReply::Transport("x".to_string())),
        PutOutcome::Retry { wait_ms: 200 }
    ));
    match upload_with_retry(4, PutReply::Status(503)) {
        PutOutcome::Failed(error) => assert_eq!(error, "HTTP 503"),
        other => panic!("{:?}", other),
    }
    match upload_with_retry(4, PutReply::Transport("reset".to_string())) {
        PutOutcome::Failed(error) => assert_eq!(error, "reset"),
        other => panic!("{:?}", other),
    }
    assert!(delete_result(200, "200 OK").is_ok());
    assert_eq!(delete_result(404, "404 Not Found").unwrap_err(), "Delete failed: 404 Not Found");
    assert!(list_result(204, "").is_ok());
    assert_eq!(list_result(300, "300").unwrap_err(), "List failed: 300");
    assert!(purge_result(204, "").is_ok());
    assert_eq!(purge_result(200, "200 OK").unwrap_err(), "Purge failed: 200 OK");
}

#[test]
fn uploads_are_attempted_until_one_goes_well() {
    // the attempt that goes well first, where there is one
    for well in 0..6u8 {
        let mut uploader = cli(None);
        let segment: CliSegment = CliS3Uploader::queue_data_at("s", "f", vec![], "t", 1, at(5));
        let key = uploader.queue_segment(&segment);
        let mut attempt: u8 = 0;
        let end = loop {
            let result = if attempt == well { Ok(()) } else { Err(format!("e{}", attempt)) };
            match uploader.after_attempt(&key, attempt, result) {
                AttemptOutcome::Retry { .. } => {
                    assert_eq!(uploader.active_count(), 1);
                    attempt += 1;
                },
                end => break end,
            }
        };
        assert_eq!(attempt, well.min(3));
        assert_eq!(end == AttemptOutcome::Done, well <= 3);
        assert_eq!(uploader.active_count(), 0);
    }
    for well in 0..7u8 {
        let mut attempt: u8 = 0;
        let end = loop {
            let status = if attempt == well { 201 } else { 500 + attempt as u16 };
            match upload_with_retry(attempt, PutReply::Status(status)) {
                PutOutcome::Retry { .. } => attempt += 1,
                end => break end,
            }
        };
        assert_eq!(attempt, well.min(4));
        match end {
            PutOutcome::Failed(error) => {
                assert!(well > 4);
                assert_eq!(error, "HTTP 504");
            },
            _ => assert!(well <= 4),
        }
    }
}
