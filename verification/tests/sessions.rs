use llhls::auth::{
    authenticate_and_get_stream_id, authentication_result, get_authentication,
    stop_authentication, BaseStreamUserResponse, StreamUserResponse,
};
use llhls::config::ApiConfig;
use llhls::http::Method;
use llhls::session::{flv_header, flv_tag, id_from_hash, MediaKind, RtmpSessionHandler};
use std::collections::hash_map::DefaultHasher;
use std::hash::{Hash, Hasher};

#[test]
fn requests_about_a_stream() {
    let api = ApiConfig { host: "http://api".to_string() };
    let ask = get_authentication("key", &api);
    assert_eq!(ask.method, Method::Post);
    assert_eq!(ask.url, "http://api/stream");
    assert_eq!(ask.headers, vec![("X-Stream-Key".to_string(), "key".to_string())]);
    let stop = stop_authentication("key", &api);
    assert_eq!(stop.method, Method::Delete);
    assert_eq!(stop.url, "http://api/stream");
    assert!(authentication_result(200).is_ok());
    assert!(authentication_result(299).is_ok());
    assert_eq!(authentication_result(403).unwrap_err(), "stream key is not allowed");
    assert_eq!(authentication_result(199).unwrap_err(), "stream key is not allowed");
}

#[test]
fn streams_are_named_after_their_users() {
    let user = StreamUserResponse::new("alice".to_string(), "2024-01-01".to_string());
    assert_eq!(user.get_username(), "alice");
    assert_eq!(user.get_start_time(), "2024-01-01");
    let answer = BaseStreamUserResponse::new(
        "OK".to_string(),
        "".to_string(),
        user,
        "now".to_string(),
    );
    assert_eq!(answer.data().get_username(), "alice");
    assert_eq!(authenticate_and_get_stream_id(&answer), "alice/2024-01-01");
}

#[test]
fn keys_lose_their_parameters() {
    let mut session = RtmpSessionHandler::new();
    assert!(session.stream_key().is_none());
    assert_eq!(session.sanitize_stream_key("abc?token=1?2"), "abc");
    assert_eq!(session.stream_key(), Some("abc"));
    assert_eq!(session.sanitize_stream_key("plain"), "plain");
    assert_eq!(session.sanitize_stream_key("?x"), "");
}

#[test]
fn numbers_of_streams_are_hashes() {
    let mut hasher = DefaultHasher::new();
    "alice/2024".hash(&mut hasher);
    let low = (hasher.finish() & 0xffff_ffff) as u32;
    assert_eq!(RtmpSessionHandler::generate_stream_id("alice/2024"), low);
    assert_ne!(
        RtmpSessionHandler::generate_stream_id("alice/2024"),
        RtmpSessionHandler::generate_stream_id("bob/2024")
    );
    assert_eq!(id_from_hash(0xffff_ffff_0000_0000), 1);
    assert_eq!(id_from_hash(0x1_0000_0007), 7);
}

#[test]
fn sessions_publish_and_stop() {
    let mut session = RtmpSessionHandler::new();
    assert!(session.on_unpublish().is_none());
    assert!(session.on_data(MediaKind::Video, 0, &[1]).is_none());
    let id = session.on_publish("alice/1".to_string());
    assert_eq!(session.internal_stream_id(), Some(id));
    let (to, tag) = session.on_data(MediaKind::Audio, 5, &[1, 2]).unwrap();
    assert_eq!(to, id);
    assert_eq!(tag, flv_tag(MediaKind::Audio, 5, &[1, 2]));
    assert_eq!(session.on_unpublish(), Some((id, "alice/1".to_string())));
}

#[test]
fn a_stream_is_stopped_once() {
    let mut session = RtmpSessionHandler::new();
    assert_eq!(session.sanitize_stream_key("key?a=b"), "key");
    let id = session.on_publish("alice/1".to_string());
    assert_eq!(session.on_unpublish(), Some((id, "alice/1".to_string())));
    assert_eq!(session.on_unpublish(), None);
    assert_eq!(session.internal_stream_id(), None);
    assert_eq!(session.stream_key(), Some("key"));
    assert!(session.on_data(MediaKind::Video, 0, &[1]).is_none());
    assert_eq!(session.on_publish("alice/1".to_string()), id);
    assert!(session.on_data(MediaKind::Video, 0, &[1]).is_some());
}

#[test]
fn flv_bytes() {
    assert_eq!(flv_header(), vec![0x46, 0x4c, 0x56, 1, 5, 0, 0, 0, 9, 0, 0, 0, 0]);
    assert_eq!(
        flv_tag(MediaKind::Video, 0x0a0b_0c0d, &[0xaa, 0xbb]),
        vec![9, 0, 0, 2, 0x0b, 0x0c, 0x0d, 0x0a, 0, 0, 0, 0xaa, 0xbb, 0, 0, 0, 13]
    );
    assert_eq!(flv_tag(MediaKind::Audio, 0, &[])[0], 8);
    assert_eq!(flv_tag(MediaKind::Amf0, 0, &[])[0], 18);
    let long = flv_tag(MediaKind::Video, 0, &vec![0; 70_000]);
    assert_eq!(long.len(), 70_015);
    assert_eq!(long[1..4], [1, 0x11, 0x70]);
    assert_eq!(long[70_011..], [0, 1, 0x11, 0x7b]);
}
