use llhls::storage::memory_buffer_manager::{MemoryBufferManager, StreamBuffer};
use llhls::time::Timestamp;

fn at(secs: i64) -> Timestamp {
    Timestamp::from_unix(secs, 0).unwrap()
}

#[test]
fn buffer_accounts_for_what_comes_in() {
    let mut buffer = StreamBuffer::new_at("s".to_string(), at(1));
    buffer.add_segment_at("b".to_string(), bytes::Bytes::from(vec![0; 10]), at(2));
    buffer.add_segment_at("a".to_string(), bytes::Bytes::from(vec![0; 20]), at(3));
    buffer.update_playlist_at(bytes::Bytes::from(vec![0; 5]), at(4));
    buffer.update_playlist_at(bytes::Bytes::from(vec![0; 3]), at(5));
    buffer.set_init_segment_at(bytes::Bytes::from(vec![0; 7]), at(6));
    buffer.set_init_segment_at(bytes::Bytes::from(vec![0; 1]), at(7));
    assert_eq!(buffer.total_size, 34);
    assert_eq!(buffer.last_updated.unix_secs(), 7);
    // a replaced segment is no longer accounted for
    buffer.add_segment_at("a".to_string(), bytes::Bytes::from(vec![0; 2]), at(8));
    assert_eq!(buffer.total_size, 16);
    buffer.cleanup_old_segments(1);
    assert_eq!(buffer.segments.len(), 1);
    assert!(buffer.segments.contains_key("b"));
    assert_eq!(buffer.total_size, 14);
    buffer.cleanup_old_segments(5);
    assert_eq!(buffer.segments.len(), 1);
    buffer.cleanup_old_segments(0);
    assert_eq!(buffer.total_size, 4);
}

#[test]
fn stored_data_reads_back() {
    let mut manager = MemoryBufferManager::new(1, 3);
    assert_eq!(
        manager.store_segment("s", "a", vec![1]).unwrap_err(),
        "Stream buffer not found: s"
    );
    assert_eq!(manager.store_playlist("s", vec![1]).unwrap_err(), "Stream buffer not found: s");
    assert_eq!(manager.store_init_segment("s", vec![1]).unwrap_err(), "Stream buffer not found: s");
    manager.create_stream("s".to_string()).unwrap();
    manager.store_segment("s", "seg1", vec![1, 2]).unwrap();
    manager.store_playlist("s", vec![3]).unwrap();
    manager.store_init_segment("s", vec![4, 5, 6]).unwrap();
    assert_eq!(manager.get_segment("s", "seg1").unwrap().to_vec(), vec![1, 2]);
    assert_eq!(manager.get_playlist("s").unwrap().to_vec(), vec![3]);
    assert!(manager.get_segment("s", "other").is_none());
    assert!(manager.get_segment("t", "seg1").is_none());
    assert!(manager.get_playlist("t").is_none());
    let files = manager.get_stream_data("s").unwrap();
    assert_eq!(files.len(), 3);
    assert_eq!(files.get("playlist.m3u8").unwrap(), &vec![3]);
    assert_eq!(files.get("init.mp4").unwrap(), &vec![4, 5, 6]);
    assert_eq!(files.get("seg1").unwrap(), &vec![1, 2]);
    assert!(manager.get_stream_data("t").is_none());
    let stats = manager.get_stats();
    assert_eq!(stats.get("s"), Some(&(1, 6)));
    assert_eq!(manager.get_memory_usage(), (6, 1024 * 1024));
    assert!(manager.can_count(usize::MAX - 6));
    assert!(!manager.can_count(usize::MAX - 5));
    manager.remove_stream("s").unwrap();
    assert_eq!(manager.get_memory_usage().0, 0);
}

#[test]
fn replacing_a_segment_leaves_the_usage() {
    let mut manager = MemoryBufferManager::new(1, 3);
    manager.create_stream("s".to_string()).unwrap();
    manager.store_segment("s", "a", vec![0; 10]).unwrap();
    manager.store_segment("s", "a", vec![0; 10]).unwrap();
    assert_eq!(manager.get_memory_usage(), (10, 1048576));
    manager.store_segment("s", "a", vec![0; 3]).unwrap();
    assert_eq!(manager.get_memory_usage(), (3, 1048576));
    assert_eq!(manager.get_stats().get("s"), Some(&(1, 3)));
}

#[test]
fn a_segment_hides_a_file_of_its_name() {
    let mut manager = MemoryBufferManager::new(1, 3);
    manager.create_stream("s".to_string()).unwrap();
    manager.store_playlist("s", vec![3]).unwrap();
    manager.store_segment("s", "playlist.m3u8", vec![9]).unwrap();
    let files = manager.get_stream_data("s").unwrap();
    assert_eq!(files.len(), 1);
    assert_eq!(files.get("playlist.m3u8").unwrap(), &vec![9]);
}

#[test]
fn segments_of_a_stream_are_bounded() {
    let mut manager = MemoryBufferManager::new(1, 2);
    manager.create_stream("s".to_string()).unwrap();
    for name in ["c", "a", "d", "b"] {
        manager.store_segment("s", name, vec![0; 4]).unwrap();
    }
    assert_eq!(manager.get_stats().get("s"), Some(&(2, 8)));
    assert!(manager.get_segment("s", "d").is_some());
    assert!(manager.get_segment("s", "c").is_some());
    assert!(manager.get_segment("s", "b").is_none());
}

#[test]
fn room_is_made_in_the_least_recent_stream() {
    let mut manager = MemoryBufferManager::new(1, 100);
    manager.create_stream_at("old".to_string(), at(1));
    manager.create_stream_at("new".to_string(), at(2));
    for (i, name) in ["a", "b", "c", "d"].iter().enumerate() {
        manager.store_segment_at("old", name, vec![0; 250_000], at(10 + i as i64)).unwrap();
    }
    // the budget is one mebibyte, and the newer stream is the less recent one:
    // it has nothing to give
    manager.store_segment_at("new", "x", vec![0; 100_000], at(20)).unwrap();
    assert_eq!(manager.get_stats().get("old"), Some(&(4, 1_000_000)));
    // now the other one loses the first half of its segments
    manager.store_segment_at("new", "y", vec![0; 100_000], at(21)).unwrap();
    assert_eq!(manager.get_stats().get("new"), Some(&(2, 200_000)));
    assert_eq!(manager.get_stats().get("old"), Some(&(2, 500_000)));
    assert!(manager.get_segment("old", "b").is_none());
    assert!(manager.get_segment("old", "c").is_some());
    // room is made also where the stream does not exist
    assert!(manager.store_segment_at("none", "z", vec![0; 900_000], at(70)).is_err());
    assert_eq!(manager.get_stats().get("old"), Some(&(1, 250_000)));
    // the last segment of a stream stays
    assert!(manager.store_segment_at("none", "z", vec![0; 900_000], at(71)).is_err());
    assert_eq!(manager.get_stats().get("old"), Some(&(1, 250_000)));
}
