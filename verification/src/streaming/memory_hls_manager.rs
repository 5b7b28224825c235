//! Streams from their start to their replay.

use crate::config::{ApiConfig, Config};
use crate::float::{law_named_numbers, Double, SIXTY};
use crate::number::{
    dec, digit_run, digits_value, is_digit, leading_digits, lemma_dec_reads_back, lemma_digit_run, rank, Rank,
};
use crate::order::{
    in_order, is_less, lemma_lex_total, lemma_lex_trans, lemma_sorted, lex_less, sort_texts, sorted,
    up_to, TextOrder,
};
use crate::storage::cli_s3_uploader::{CliS3Uploader, CliSegment, CliSegmentModel, CliSetup};
use crate::storage::upload::in_flight_count;
use crate::streaming::master_playlist_generator::{
    completed_metadata, MasterPlaylistGenerator, ReplayManager, StreamMetadata,
};
use crate::streaming::pipeline::broken_text;
use crate::streaming::pipeline_manager::{
    temp_dir_of, MemoryFfmpegPipeline, MemoryFfmpegPipelineManager,
};
use crate::table::Table;
use crate::text;
use crate::text::{has_prefix, has_suffix, lines, owned_all, strs, texts, words};
use crate::time::Timestamp;
use crate::writer;
use crate::writer::{concat, lemma_concat_step};
use vstd::prelude::*;
use vstd::utf8::encode_utf8;

verus! {

/// How far the uploads have come.
#[derive(Debug, Clone)]
pub struct UploadStatusInfo {
    pub stream_name: String,
    pub pending_uploads: usize,
    pub active_uploads: usize,
    pub is_complete: bool,
}

/// How much memory is in use.
#[derive(Debug, Clone)]
pub struct MemoryStats {
    pub used_bytes: usize,
    pub max_bytes: usize,
    pub usage_percentage: u32,
    /// For each stream the number of its segments and their size.
    pub streams: Table<(usize, usize)>,
}

/// How many uploads wait and how many are running.
#[derive(Debug, Clone)]
pub struct UploadStats {
    pub pending_count: usize,
    pub active_count: usize,
}

/// The state of the server.
#[derive(Debug, Clone)]
pub struct HealthStatus {
    pub healthy: bool,
    pub memory_usage_percentage: u32,
    pub active_streams: usize,
    pub pending_uploads: usize,
    pub active_uploads: usize,
}

/// The file that a line of a bucket listing names: the fourth word.
pub open spec fn listed_file_of(line: Seq<char>) -> Option<Seq<char>> {
    if words(line).len() >= 4 {
        Some(words(line)[3])
    } else {
        None
    }
}

/// The file is a segment of its own and no part of one.
pub open spec fn is_whole_segment(file: Seq<char>) -> bool {
    has_prefix(file, "segment_"@) && has_suffix(file, ".m4s"@) && !has_suffix(file, "part1.m4s"@)
        && !has_suffix(file, "part0.m4s"@)
}

/// A bucket listing names the initialisation segment.
pub open spec fn lists_init(ls: Seq<Seq<char>>) -> bool {
    exists|i: int| 0 <= i < ls.len() && listed_file_of(#[trigger] ls[i]) == Some("init.mp4"@)
}

/// The whole segments that a bucket listing names, in its order.
pub open spec fn listed_segments(ls: Seq<Seq<char>>) -> Seq<Seq<char>>
    decreases ls.len(),
{
    if ls.len() == 0 {
        Seq::empty()
    } else {
        let before = listed_segments(ls.drop_last());
        match listed_file_of(ls.last()) {
            Some(file) => if file != "init.mp4"@ && is_whole_segment(file) {
                before.push(file)
            } else {
                before
            },
            None => before,
        }
    }
}

/// The digits behind `segment_` in the name of a segment.
pub open spec fn number_digits_of(file: Seq<char>) -> Seq<char> {
    if has_prefix(file, "segment_"@) {
        digit_run(file.skip("segment_"@.len() as int))
    } else {
        Seq::empty()
    }
}

/// The number of a segment, where there are digits behind `segment_` in its
/// name.
pub open spec fn segment_number(file: Seq<char>) -> Option<int> {
    if number_digits_of(file).len() > 0 {
        Some(digits_value(number_digits_of(file)))
    } else {
        None
    }
}

/// The order in which segments were made: by their numbers, and by name where
/// those are the same. Names without a number follow, by name.
pub struct ByNumber;

impl TextOrder for ByNumber {
    open spec fn before(a: Seq<char>, b: Seq<char>) -> bool {
        match (segment_number(a), segment_number(b)) {
            (Some(x), Some(y)) => x < y || (x == y && lex_less(a, b)),
            (Some(_), None) => true,
            (None, Some(_)) => false,
            (None, None) => lex_less(a, b),
        }
    }

    proof fn lemma_total(a: Seq<char>, b: Seq<char>) {
        lemma_lex_total(a, b);
    }

    proof fn lemma_trans(a: Seq<char>, b: Seq<char>, c: Seq<char>) {
        if segment_number(a) == segment_number(b) && segment_number(b) == segment_number(c) {
            lemma_lex_trans(a, b, c);
        }
    }

    fn is_before(a: &str, b: &str) -> (r: bool) {
        let x = number_digits(a);
        let y = number_digits(b);
        if x.len() == 0 {
            y.len() == 0 && is_less(a, b)
        } else if y.len() == 0 {
            true
        } else {
            match rank(&x, &y) {
                Rank::Less => true,
                Rank::Same => is_less(a, b),
                Rank::Greater => false,
            }
        }
    }
}

/// The digits of the number of a segment.
fn number_digits(file: &str) -> (r: Vec<char>)
    ensures
        r@ == number_digits_of(file@),
        forall|i: int| 0 <= i < r@.len() ==> is_digit(#[trigger] r@[i]),
{
    if text::starts_with(file, "segment_") {
        let chars = text::chars_of(file);
        proof {
            reveal_strlit("segment_");
            assert("segment_"@.len() == 8);
        }
        leading_digits(&chars, 8)
    } else {
        Vec::new()
    }
}

/// Gives each segment its duration and its URL.
pub open spec fn vod_liner(base_url: Seq<char>) -> spec_fn(Seq<char>) -> Seq<char> {
    |file: Seq<char>| "#EXTINF:2.000000,\n"@ + base_url + "/"@ + file + "\n"@
}

/// The playlist of a stream that has ended: all its segments in the order in
/// which they were made.
pub open spec fn vod_playlist_of(base_url: Seq<char>, ls: Seq<Seq<char>>) -> Seq<char> {
    "#EXTM3U\n#EXT-X-VERSION:7\n#EXT-X-TARGETDURATION:2\n#EXT-X-PLAYLIST-TYPE:VOD\n#EXT-X-MEDIA-SEQUENCE:0\n"@
        + (if lists_init(ls) {
        "#EXT-X-MAP:URI=\"init.mp4\"\n"@
    } else {
        Seq::empty()
    }) + "\n"@ + concat(
        sorted::<ByNumber>(listed_segments(ls)),
        vod_liner(base_url),
    ) + "#EXT-X-ENDLIST\n"@
}

/// The URL of a stream in its bucket.
pub open spec fn stream_url_of(
    bucket: Seq<char>,
    region: Seq<char>,
    stream_name: Seq<char>,
) -> Seq<char> {
    "https://"@ + bucket + ".s3."@ + region + ".amazonaws.com/"@ + stream_name
}

/// The master playlist of a stream that has ended.
pub open spec fn replay_master_of(bucket: Seq<char>, stream_name: Seq<char>) -> Seq<char> {
    "#EXTM3U\n#EXT-X-VERSION:7\n#EXT-X-INDEPENDENT-SEGMENTS\n\n# VOD Replay Stream\n#EXT-X-STREAM-INF:BANDWIDTH=5000000,RESOLUTION=1920x1080,FRAME-RATE=60.00,CODECS=\"avc1.640028,mp4a.40.2\",NAME=\"1080p60-VOD\"\nhttps://"@
        + bucket + ".s3.ap-northeast-2.amazonaws.com/"@ + stream_name + "/vod_playlist.m3u8\n"@
}

/// The upload of a playlist.
pub open spec fn playlist_segment(
    stream_name: Seq<char>,
    file_name: Seq<char>,
    content: Seq<char>,
    now: Timestamp,
) -> CliSegmentModel {
    CliSegmentModel {
        stream_name,
        file_name,
        data: encode_utf8(content),
        content_type: "application/vnd.apple.mpegurl"@,
        priority: 255,
        created_at: now,
    }
}

/// What is known of a stream that starts at `now`.
pub open spec fn is_live_metadata(m: StreamMetadata, stream_name: Seq<char>, now: Timestamp) -> bool {
    &&& m.stream_name@ == stream_name
    &&& m.start_time == now
    &&& m.end_time is None
    &&& m.is_live
    &&& m.bitrate == 5_000_000
    &&& m.resolution@ == "1920x1080"@
    &&& m.codecs@ == "avc1.640028,mp4a.40.2"@
    &&& m.frame_rate == (Double { bits: SIXTY })
}

/// The file that a line of a bucket listing names.
fn listed_file(line: &str) -> (r: Option<String>)
    ensures
        match r {
            Some(file) => listed_file_of(line@) == Some(file@),
            None => listed_file_of(line@) is None,
        },
{
    let parts = text::words_of(line);
    assert(texts(parts@) == words(line@));
    assert(parts@.len() == words(line@).len());
    if parts.len() >= 4 {
        assert(words(line@)[3] == parts@[3]@);
        Some(parts[3].clone())
    } else {
        None
    }
}

/// The playlist of a stream that has ended, from a listing of its files, with
/// the number of its segments.
pub fn vod_playlist(base_url: &str, listing: &str) -> (r: (String, usize))
    ensures
        r.0@ == vod_playlist_of(base_url@, lines(listing@)),
        r.1 == listed_segments(lines(listing@)).len(),
{
    let all = text::lines_of(listing);
    let ghost ls = texts(all@);
    let mut segments: Vec<String> = Vec::new();
    let mut has_init = false;
    let mut i: usize = 0;
    assert(texts(segments@) =~= listed_segments(ls.take(0)));
    while i < all.len()
        invariant
            i <= all.len(),
            ls == texts(all@),
            texts(segments@) == listed_segments(ls.take(i as int)),
            has_init == lists_init(ls.take(i as int)),
        decreases all.len() - i,
    {
        let ghost before = segments@;
        let ghost now = ls.take(i as int);
        let ghost next = ls.take(i + 1);
        let ghost line = ls[i as int];
        proof {
            assert(next.drop_last() =~= now);
            assert(next[i as int] == line);
            assert(lists_init(next) == (lists_init(now) || listed_file_of(line) == Some(
                "init.mp4"@,
            ))) by {
                if lists_init(now) {
                    let k = choose|k: int|
                        0 <= k < now.len() && listed_file_of(#[trigger] now[k]) == Some(
                            "init.mp4"@,
                        );
                    assert(next[k] == now[k]);
                }
                if lists_init(next) {
                    let k = choose|k: int|
                        0 <= k < next.len() && listed_file_of(#[trigger] next[k]) == Some(
                            "init.mp4"@,
                        );
                    if k < i {
                        assert(now[k] == next[k]);
                    }
                }
            }
        }
        match listed_file(all[i].as_str()) {
            Some(file) => {
                if text::same(file.as_str(), "init.mp4") {
                    has_init = true;
                } else if text::starts_with(file.as_str(), "segment_") && text::ends_with(
                    file.as_str(),
                    ".m4s",
                ) && !text::ends_with(file.as_str(), "part1.m4s") && !text::ends_with(
                    file.as_str(),
                    "part0.m4s",
                ) {
                    segments.push(file);
                    assert(texts(segments@) =~= texts(before).push(file@));
                }
            },
            None => {},
        }
        i = i + 1;
    }
    assert(ls.take(i as int) =~= ls);
    let ordered = sort_texts::<ByNumber>(segments);
    let ghost names = texts(ordered@);
    let mut out =
        "#EXTM3U\n#EXT-X-VERSION:7\n#EXT-X-TARGETDURATION:2\n#EXT-X-PLAYLIST-TYPE:VOD\n#EXT-X-MEDIA-SEQUENCE:0\n".to_owned();
    let ghost top = out@;
    if has_init {
        out.append("#EXT-X-MAP:URI=\"init.mp4\"\n");
    } else {
        assert(out@ =~= top + Seq::<char>::empty());
    }
    out.append("\n");
    let ghost head = out@;
    let ghost f = vod_liner(base_url@);
    let mut k: usize = 0;
    assert(out@ =~= head + concat(names.take(0), f));
    while k < ordered.len()
        invariant
            k <= ordered.len(),
            names == texts(ordered@),
            f == vod_liner(base_url@),
            out@ == head + concat(names.take(k as int), f),
        decreases ordered.len() - k,
    {
        let entry = writer::join5(
            "#EXTINF:2.000000,\n",
            base_url,
            "/",
            ordered[k].as_str(),
            "\n",
        );
        proof {
            lemma_concat_step(names, f, k as int);
            assert(names[k as int] == ordered@[k as int]@);
        }
        out.append(entry.as_str());
        assert(out@ =~= head + concat(names.take(k + 1), f));
        k = k + 1;
    }
    assert(names.take(k as int) =~= names);
    out.append("#EXT-X-ENDLIST\n");
    (out, ordered.len())
}

/// A segment of the one number may stand before a segment of the other.
pub open spec fn in_time(first: Option<int>, second: Option<int>) -> bool {
    match (first, second) {
        (Some(x), Some(y)) => x <= y,
        (None, Some(_)) => false,
        (_, None) => true,
    }
}

/// The segments of the playlist of a stream that has ended are those that the
/// listing names, each as often, in the order of their numbers, and those
/// without a number behind the others.
pub proof fn law_vod_segments_are_ordered(ls: Seq<Seq<char>>)
    ensures
        in_order::<ByNumber>(sorted::<ByNumber>(listed_segments(ls))),
        sorted::<ByNumber>(listed_segments(ls)).to_multiset() == listed_segments(ls).to_multiset(),
        forall|p: int, q: int|
            0 <= p < q < sorted::<ByNumber>(listed_segments(ls)).len() ==> in_time(
                segment_number(#[trigger] sorted::<ByNumber>(listed_segments(ls))[p]),
                segment_number(#[trigger] sorted::<ByNumber>(listed_segments(ls))[q]),
            ),
{
    let all = sorted::<ByNumber>(listed_segments(ls));
    lemma_sorted::<ByNumber>(listed_segments(ls));
    assert forall|p: int, q: int| 0 <= p < q < all.len() implies in_time(
        segment_number(#[trigger] all[p]),
        segment_number(#[trigger] all[q]),
    ) by {
        assert(up_to::<ByNumber>(all[p], all[q]));
    }
}

/// The name that the encoder gives the segment of a number.
pub open spec fn numbered_segment(number: nat) -> Seq<char> {
    "segment_"@ + dec(number) + ".m4s"@
}

/// The number of a segment is the one that the encoder named it by, so that of
/// two segments that the encoder numbered, the playlist of a stream that has
/// ended lists the one of the smaller number first, however many digits the
/// numbers have.
pub proof fn law_vod_lists_smaller_number_first(
    ls: Seq<Seq<char>>,
    i: nat,
    j: nat,
    p: int,
    q: int,
)
    requires
        i < j,
        0 <= p < sorted::<ByNumber>(listed_segments(ls)).len(),
        0 <= q < sorted::<ByNumber>(listed_segments(ls)).len(),
        sorted::<ByNumber>(listed_segments(ls))[p] == numbered_segment(i),
        sorted::<ByNumber>(listed_segments(ls))[q] == numbered_segment(j),
    ensures
        segment_number(numbered_segment(i)) == Some(i as int),
        segment_number(numbered_segment(j)) == Some(j as int),
        p < q,
{
    lemma_numbered_segment(i);
    lemma_numbered_segment(j);
    law_vod_segments_are_ordered(ls);
}

proof fn lemma_numbered_segment(number: nat)
    ensures
        segment_number(numbered_segment(number)) == Some(number as int),
{
    let name = numbered_segment(number);
    let head = "segment_"@;
    reveal_strlit(".m4s");
    lemma_dec_reads_back(number);
    assert(name.take(head.len() as int) =~= head);
    assert(name.skip(head.len() as int) =~= dec(number) + ".m4s"@);
    lemma_digit_run(dec(number), ".m4s"@);
}

/// What is to be uploaded when a stream has been stopped.
#[derive(Debug)]
pub struct StopUploads {
    /// The playlist of all segments, where they could be listed.
    pub vod: Option<CliSegment>,
    /// The master playlist.
    pub master: CliSegment,
}

/// The streams that are live, those that can be replayed, and their encoders.
pub struct MemoryHlsManager<H> {
    ffmpeg_manager: MemoryFfmpegPipelineManager<H>,
    master_generator: MasterPlaylistGenerator,
    replay_manager: ReplayManager,
    stream_metadata: Table<StreamMetadata>,
}

impl<H> MemoryHlsManager<H> {
    /// The names of the streams are distinct.
    pub closed spec fn wf(self) -> bool {
        self.stream_metadata.wf() && self.replay_manager.wf()
    }

    /// What the manager was configured with.
    pub closed spec fn setup(self) -> Config {
        self.ffmpeg_manager.setup()
    }

    /// The pipelines that are running, by the number of their stream.
    pub closed spec fn pipelines(self) -> Map<u32, MemoryFfmpegPipeline<H>> {
        self.ffmpeg_manager@
    }

    /// What is known of the streams that are live.
    pub closed spec fn live(self) -> Map<Seq<char>, StreamMetadata> {
        self.stream_metadata@
    }

    /// What is known of the streams that have ended.
    pub closed spec fn replays(self) -> Map<Seq<char>, StreamMetadata> {
        self.replay_manager@
    }

    /// The URL that master playlists are made for.
    pub closed spec fn bucket_url(self) -> Seq<char> {
        self.master_generator.url()
    }

    /// Everything but the pipelines is as in `other`.
    pub open spec fn differs_in_pipelines(self, other: Self) -> bool {
        &&& self.setup() == other.setup()
        &&& self.live() == other.live()
        &&& self.replays() == other.replays()
        &&& self.bucket_url() == other.bucket_url()
    }

    /// A manager of no streams.
    pub fn new(config: Config) -> (r: Self)
        ensures
            r.wf(),
            r.setup() == config,
            r.pipelines() == Map::<u32, MemoryFfmpegPipeline<H>>::empty(),
            r.live() == Map::<Seq<char>, StreamMetadata>::empty(),
            r.replays() == Map::<Seq<char>, StreamMetadata>::empty(),
            r.bucket_url() == "https://"@ + config.s3.bucket@ + ".s3."@ + config.s3.region@
                + ".amazonaws.com"@,
    {
        let bucket_url = writer::join5(
            "https://",
            config.s3.bucket.as_str(),
            ".s3.",
            config.s3.region.as_str(),
            ".amazonaws.com",
        );
        MemoryHlsManager {
            ffmpeg_manager: MemoryFfmpegPipelineManager::new(config),
            master_generator: MasterPlaylistGenerator::new(bucket_url),
            replay_manager: ReplayManager::new(),
            stream_metadata: Table::new(),
        }
    }

    /// The uploader for a configuration, with at least 32 uploads at a time.
    pub fn uploader(config: &Config) -> (r: CliS3Uploader)
        ensures
            r.wf(),
            r.uploads()@ == Map::<Seq<char>, crate::storage::upload::UploadState>::empty(),
            r.setup() == (CliSetup {
                bucket: config.s3.bucket@,
                region: config.s3.region@,
                endpoint_url: None,
                access_key: config.s3.access_key@,
                secret_key: config.s3.secret_access_key@,
                workers: if config.streaming.upload_workers >= 32 {
                    config.streaming.upload_workers
                } else {
                    32
                },
            }),
    {
        CliS3Uploader::new(
            config.s3.bucket.clone(),
            config.s3.region.clone(),
            None,
            config.s3.access_key.clone(),
            config.s3.secret_access_key.clone(),
            config.streaming.upload_workers,
        )
    }

    /// The arguments of the command that tests the connection to the bucket.
    pub fn connection_test_args(&self) -> (r: Vec<String>)
        ensures
            texts(r@) == seq![
                "s3"@,
                "ls"@,
                "s3://"@ + self.setup().s3.bucket@,
                "--max-items"@,
                "1"@,
                "--region"@,
                self.setup().s3.region@,
            ],
    {
        let config = self.ffmpeg_manager.config();
        let target = writer::join2("s3://", config.s3.bucket.as_str());
        let list: [&str; 7] = [
            "s3",
            "ls",
            target.as_str(),
            "--max-items",
            "1",
            "--region",
            config.s3.region.as_str(),
        ];
        let args = owned_all(&list);
        assert(strs(list@) =~= seq![
            "s3"@,
            "ls"@,
            "s3://"@ + self.setup().s3.bucket@,
            "--max-items"@,
            "1"@,
            "--region"@,
            self.setup().s3.region@,
        ]);
        args
    }

    /// The path of a stream in the bucket.
    fn stream_path(&self, stream_name: &str) -> (r: String)
        ensures
            r@ == "s3://"@ + self.setup().s3.bucket@ + "/"@ + stream_name@ + "/"@,
    {
        let config = self.ffmpeg_manager.config();
        writer::join5("s3://", config.s3.bucket.as_str(), "/", stream_name, "/")
    }

    /// The arguments of the command that lists the files of a stream.
    pub fn list_args(&self, stream_name: &str) -> (r: Vec<String>)
        ensures
            texts(r@) == seq![
                "s3"@,
                "ls"@,
                "s3://"@ + self.setup().s3.bucket@ + "/"@ + stream_name@ + "/"@,
                "--region"@,
                self.setup().s3.region@,
            ],
    {
        let path = self.stream_path(stream_name);
        let list: [&str; 5] = [
            "s3",
            "ls",
            path.as_str(),
            "--region",
            self.ffmpeg_manager.config().s3.region.as_str(),
        ];
        let args = owned_all(&list);
        assert(strs(list@) =~= seq![
            "s3"@,
            "ls"@,
            "s3://"@ + self.setup().s3.bucket@ + "/"@ + stream_name@ + "/"@,
            "--region"@,
            self.setup().s3.region@,
        ]);
        args
    }

    /// The arguments of the command that removes the files of a stream.
    pub fn cleanup_s3_stream(&self, stream_name: &str) -> (r: Vec<String>)
        ensures
            texts(r@) == seq![
                "s3"@,
                "rm"@,
                "s3://"@ + self.setup().s3.bucket@ + "/"@ + stream_name@ + "/"@,
                "--recursive"@,
                "--region"@,
                self.setup().s3.region@,
            ],
    {
        let path = self.stream_path(stream_name);
        let list: [&str; 6] = [
            "s3",
            "rm",
            path.as_str(),
            "--recursive",
            "--region",
            self.ffmpeg_manager.config().s3.region.as_str(),
        ];
        let args = owned_all(&list);
        assert(strs(list@) =~= seq![
            "s3"@,
            "rm"@,
            "s3://"@ + self.setup().s3.bucket@ + "/"@ + stream_name@ + "/"@,
            "--recursive"@,
            "--region"@,
            self.setup().s3.region@,
        ]);
        args
    }

    /// Takes a stream whose encoder has been started.
    pub fn start_hls_conversion(&mut self, stream_id: u32, stream_name: &str, handle: H)
        requires
            old(self).wf(),
        ensures
            final(self).wf(),
            final(self).setup() == old(self).setup(),
            final(self).replays() == old(self).replays(),
            final(self).bucket_url() == old(self).bucket_url(),
            final(self).pipelines() == old(self).pipelines().insert(
                stream_id,
                final(self).pipelines()[stream_id],
            ),
            final(self).pipelines()[stream_id].handle == handle,
            final(self).pipelines()[stream_id].stream_id == stream_id,
            final(self).pipelines()[stream_id].stream_name@ == stream_name@,
            final(self).live() == old(self).live().insert(
                stream_name@,
                final(self).live()[stream_name@],
            ),
            exists|now: Timestamp| #[trigger]
                is_live_metadata(final(self).live()[stream_name@], stream_name@, now),
    {
        self.start_hls_conversion_at(stream_id, stream_name, handle, Timestamp::now());
    }

    /// Takes a stream whose encoder has been started at `now`.
    pub fn start_hls_conversion_at(
        &mut self,
        stream_id: u32,
        stream_name: &str,
        handle: H,
        now: Timestamp,
    )
        requires
            old(self).wf(),
        ensures
            final(self).wf(),
            final(self).setup() == old(self).setup(),
            final(self).replays() == old(self).replays(),
            final(self).bucket_url() == old(self).bucket_url(),
            final(self).pipelines() == old(self).pipelines().insert(
                stream_id,
                final(self).pipelines()[stream_id],
            ),
            final(self).pipelines()[stream_id].handle == handle,
            final(self).pipelines()[stream_id].stream_id == stream_id,
            final(self).pipelines()[stream_id].stream_name@ == stream_name@,
            final(self).live() == old(self).live().insert(
                stream_name@,
                final(self).live()[stream_name@],
            ),
            is_live_metadata(final(self).live()[stream_name@], stream_name@, now),
    {
        self.ffmpeg_manager.start_pipeline(stream_id, stream_name, handle);
        let metadata = StreamMetadata {
            stream_name: stream_name.to_owned(),
            start_time: now,
            end_time: None,
            is_live: true,
            bitrate: 5_000_000,
            resolution: "1920x1080".to_owned(),
            codecs: "avc1.640028,mp4a.40.2".to_owned(),
            frame_rate: Double { bits: SIXTY },
        };
        self.stream_metadata.insert(stream_name.to_owned(), metadata);
    }

    /// Hands out the pipeline of a stream to be stopped, with the directory
    /// that is to be removed.
    pub fn stop_pipeline(&mut self, stream_id: u32) -> (r: Option<
        (MemoryFfmpegPipeline<H>, String),
    >)
        requires
            old(self).wf(),
        ensures
            final(self).wf(),
            final(self).differs_in_pipelines(*old(self)),
            final(self).pipelines() == old(self).pipelines().remove(stream_id),
            match r {
                Some((p, dir)) => {
                    &&& old(self).pipelines().contains_key(stream_id)
                    &&& p == old(self).pipelines()[stream_id]
                    &&& dir@ == temp_dir_of(p.stream_name@)
                },
                None => !old(self).pipelines().contains_key(stream_id),
            },
    {
        self.ffmpeg_manager.stop_pipeline(stream_id)
    }

    /// Takes a stream whose encoder has been stopped, with a listing of its
    /// files where there is one: from now on it can be replayed.
    pub fn stop_hls_conversion(&mut self, stream_name: &str, listing: Option<&str>) -> (r:
        StopUploads)
        requires
            old(self).wf(),
        ensures
            final(self).wf(),
            exists|listed: Timestamp, made: Timestamp, ended: Timestamp| #[trigger]
                old(self).stopped(*final(self), r, stream_name@, listing, listed, made, ended),
    {
        let listed = Timestamp::now();
        let made = Timestamp::now();
        let ended = Timestamp::now();
        self.stop_hls_conversion_at(stream_name, listing, listed, made, ended)
    }

    /// What stopping a stream does.
    pub open spec fn stopped(
        self,
        after: Self,
        uploads: StopUploads,
        stream_name: Seq<char>,
        listing: Option<&str>,
        listed: Timestamp,
        made: Timestamp,
        ended: Timestamp,
    ) -> bool {
        &&& after.setup() == self.setup()
        &&& after.pipelines() == self.pipelines()
        &&& after.bucket_url() == self.bucket_url()
        &&& after.live() == self.live().remove(stream_name)
        &&& after.replays() == (if self.live().contains_key(stream_name) {
            self.replays().insert(
                stream_name,
                completed_metadata(self.live()[stream_name], ended),
            )
        } else {
            self.replays()
        })
        &&& uploads.master@ == playlist_segment(
            stream_name,
            "master.m3u8"@,
            replay_master_of(self.setup().s3.bucket@, stream_name),
            made,
        )
        &&& match (listing, uploads.vod) {
            (Some(text), Some(vod)) => vod@ == playlist_segment(
                stream_name,
                "vod_playlist.m3u8"@,
                vod_playlist_of(
                    stream_url_of(
                        self.setup().s3.bucket@,
                        self.setup().s3.region@,
                        stream_name,
                    ),
                    lines(text@),
                ),
                listed,
            ),
            (None, None) => true,
            _ => false,
        }
    }

    /// Takes a stream whose encoder has been stopped: the playlist of its
    /// segments is made at `listed`, the master playlist at `made`, and the
    /// stream ends at `ended`.
    pub fn stop_hls_conversion_at(
        &mut self,
        stream_name: &str,
        listing: Option<&str>,
        listed: Timestamp,
        made: Timestamp,
        ended: Timestamp,
    ) -> (r: StopUploads)
        requires
            old(self).wf(),
        ensures
            final(self).wf(),
            old(self).stopped(*final(self), r, stream_name@, listing, listed, made, ended),
    {
        let vod = match listing {
            Some(text) => Some(self.generate_vod_playlist(stream_name, text, listed)),
            None => None,
        };
        let master = self.generate_master_playlist(stream_name, made);
        let ghost live = self.live();
        match self.stream_metadata.remove(stream_name) {
            Some(metadata) => {
                self.replay_manager.mark_stream_completed_at(
                    stream_name.to_owned(),
                    metadata,
                    ended,
                );
            },
            None => {
                assert(live.remove(stream_name@) =~= live);
            },
        }
        StopUploads { vod, master }
    }

    /// The upload of the master playlist of a stream that has ended.
    pub fn generate_master_playlist(&self, stream_name: &str, now: Timestamp) -> (r: CliSegment)
        ensures
            r@ == playlist_segment(
                stream_name@,
                "master.m3u8"@,
                replay_master_of(self.setup().s3.bucket@, stream_name@),
                now,
            ),
    {
        let playlist = writer::join5(
            "#EXTM3U\n#EXT-X-VERSION:7\n#EXT-X-INDEPENDENT-SEGMENTS\n\n# VOD Replay Stream\n#EXT-X-STREAM-INF:BANDWIDTH=5000000,RESOLUTION=1920x1080,FRAME-RATE=60.00,CODECS=\"avc1.640028,mp4a.40.2\",NAME=\"1080p60-VOD\"\nhttps://",
            self.ffmpeg_manager.config().s3.bucket.as_str(),
            ".s3.ap-northeast-2.amazonaws.com/",
            stream_name,
            "/vod_playlist.m3u8\n",
        );
        CliS3Uploader::queue_data_at(
            stream_name,
            "master.m3u8",
            playlist.as_str().as_bytes_vec(),
            "application/vnd.apple.mpegurl",
            255,
            now,
        )
    }

    /// The upload of the playlist of all segments of a stream that has ended,
    /// from a listing of its files.
    pub fn generate_vod_playlist(&self, stream_name: &str, listing: &str, now: Timestamp) -> (r:
        CliSegment)
        ensures
            r@ == playlist_segment(
                stream_name@,
                "vod_playlist.m3u8"@,
                vod_playlist_of(
                    stream_url_of(
                        self.setup().s3.bucket@,
                        self.setup().s3.region@,
                        stream_name@,
                    ),
                    lines(listing@),
                ),
                now,
            ),
    {
        let config = self.ffmpeg_manager.config();
        let mut base_url = writer::join5(
            "https://",
            config.s3.bucket.as_str(),
            ".s3.",
            config.s3.region.as_str(),
            ".amazonaws.com/",
        );
        base_url.append(stream_name);
        let (content, _) = vod_playlist(base_url.as_str(), listing);
        CliS3Uploader::queue_data_at(
            stream_name,
            "vod_playlist.m3u8",
            content.as_str().as_bytes_vec(),
            "application/vnd.apple.mpegurl",
            255,
            now,
        )
    }

    /// Hands out the pipeline of a stream to be written to; without one, what
    /// was to be written is dropped.
    pub fn checkout(&mut self, stream_id: u32) -> (r: Option<MemoryFfmpegPipeline<H>>)
        requires
            old(self).wf(),
        ensures
            final(self).wf(),
            final(self).differs_in_pipelines(*old(self)),
            final(self).pipelines() == old(self).pipelines().remove(stream_id),
            match r {
                Some(p) => old(self).pipelines().contains_key(stream_id) && p == old(
                    self,
                ).pipelines()[stream_id],
                None => !old(self).pipelines().contains_key(stream_id),
            },
    {
        self.ffmpeg_manager.checkout(stream_id)
    }

    /// Takes back a pipeline that was handed out, with how the write ended. A
    /// pipeline that could not be written to is dropped and reported as broken.
    pub fn process_stream_data(
        &mut self,
        stream_id: u32,
        pipeline: MemoryFfmpegPipeline<H>,
        written: Result<(), String>,
    ) -> (r: Result<(), String>)
        requires
            old(self).wf(),
        ensures
            final(self).wf(),
            final(self).differs_in_pipelines(*old(self)),
            match written {
                Ok(_) => r is Ok && final(self).pipelines() == old(self).pipelines().insert(
                    stream_id,
                    pipeline,
                ),
                Err(error) => {
                    &&& final(self).pipelines() == old(self).pipelines()
                    &&& r matches Err(e)
                    &&& e@ == broken_text(stream_id, error@)
                },
            },
    {
        self.ffmpeg_manager.send_data(stream_id, pipeline, written)
    }

    /// Asks for the upload of a stream: there is nothing to do, as every file
    /// is uploaded when it is written.
    pub fn upload_stream_to_s3(&self, stream_name: &str) -> (r: Result<(), String>)
        ensures
            r is Ok,
    {
        Ok(())
    }

    /// Asks for the removal of a stream: files stay in the bucket.
    pub fn delete_stream_from_s3(&self, stream_name: &str) -> (r: Result<(), String>)
        ensures
            r is Ok,
    {
        Ok(())
    }

    /// How far the uploads have come.
    pub fn get_s3_upload_status(&self, stream_name: &str, uploader: &CliS3Uploader) -> (r:
        UploadStatusInfo)
        requires
            uploader.wf(),
        ensures
            r.stream_name@ == stream_name@,
            r.pending_uploads == in_flight_count(uploader.uploads().rows()),
            r.active_uploads == in_flight_count(uploader.uploads().rows()),
            r.is_complete == (in_flight_count(uploader.uploads().rows()) == 0),
    {
        let pending: usize = uploader.pending_count();
        let active: usize = uploader.active_count();
        UploadStatusInfo {
            stream_name: stream_name.to_owned(),
            pending_uploads: pending,
            active_uploads: active,
            is_complete: pending == 0 && active == 0,
        }
    }

    /// The number of streams with an encoder.
    pub fn get_active_stream_count(&self) -> (r: usize)
        ensures
            self.pipelines().dom().finite(),
            r == self.pipelines().len(),
    {
        self.ffmpeg_manager.active_pipeline_count()
    }

    /// Whether the stream has an encoder.
    pub fn has_stream(&self, stream_id: u32) -> (r: bool)
        ensures
            r == self.pipelines().contains_key(stream_id),
    {
        self.ffmpeg_manager.has_pipeline(stream_id)
    }

    /// How much memory is in use: none, as files are kept on disk.
    pub fn get_memory_stats(&self) -> (r: MemoryStats)
        ensures
            r.used_bytes == 0,
            r.max_bytes == 0,
            r.usage_percentage == 0,
            r.streams.wf(),
            r.streams@ == Map::<Seq<char>, (usize, usize)>::empty(),
    {
        MemoryStats { used_bytes: 0, max_bytes: 0, usage_percentage: 0, streams: Table::new() }
    }

    /// How many uploads wait and how many are running.
    pub fn get_upload_stats(&self, uploader: &CliS3Uploader) -> (r: UploadStats)
        requires
            uploader.wf(),
        ensures
            r.pending_count == in_flight_count(uploader.uploads().rows()),
            r.active_count == in_flight_count(uploader.uploads().rows()),
    {
        UploadStats {
            pending_count: uploader.pending_count(),
            active_count: uploader.active_count(),
        }
    }

    /// The state of the server: it is well while fewer than a hundred uploads
    /// are pending.
    pub fn health_check(&self, uploader: &CliS3Uploader) -> (r: HealthStatus)
        requires
            uploader.wf(),
        ensures
            r.healthy == (in_flight_count(uploader.uploads().rows()) < 100),
            r.memory_usage_percentage == 0,
            self.pipelines().dom().finite(),
            r.active_streams == self.pipelines().len(),
            r.pending_uploads == in_flight_count(uploader.uploads().rows()),
            r.active_uploads == in_flight_count(uploader.uploads().rows()),
    {
        let memory = self.get_memory_stats();
        let uploads = self.get_upload_stats(uploader);
        health_of(&memory, &uploads, self.get_active_stream_count())
    }

    /// Where streams are authenticated.
    pub fn api_config(&self) -> (r: &ApiConfig)
        ensures
            *r == self.setup().api,
    {
        &self.ffmpeg_manager.config().api
    }

    /// What the manager was configured with.
    pub fn config(&self) -> (r: &Config)
        ensures
            *r == self.setup(),
    {
        self.ffmpeg_manager.config()
    }

    /// The generator of master playlists.
    pub fn master_generator(&self) -> (r: &MasterPlaylistGenerator)
        ensures
            r.url() == self.bucket_url(),
    {
        &self.master_generator
    }

    /// The streams that can be replayed.
    pub fn replay_manager(&self) -> (r: &ReplayManager)
        requires
            self.wf(),
        ensures
            r.wf(),
            r@ == self.replays(),
    {
        &self.replay_manager
    }
}

/// The state of a server: it is well while less than nine tenths of the memory
/// are in use and fewer than a hundred uploads are pending.
pub fn health_of(memory: &MemoryStats, uploads: &UploadStats, active_streams: usize) -> (r:
    HealthStatus)
    ensures
        r.healthy == (memory.usage_percentage < 90 && uploads.pending_count < 100),
        r.memory_usage_percentage == memory.usage_percentage,
        r.active_streams == active_streams,
        r.pending_uploads == uploads.pending_count,
        r.active_uploads == uploads.active_count,
{
    HealthStatus {
        healthy: memory.usage_percentage < 90 && uploads.pending_count < 100,
        memory_usage_percentage: memory.usage_percentage,
        active_streams,
        pending_uploads: uploads.pending_count,
        active_uploads: uploads.active_count,
    }
}

/// A stream that was live and is stopped can be replayed: it is no longer live,
/// it is known as ended, and every other stream is as before.
pub proof fn law_stopped_stream_is_replayable<H>(
    before: MemoryHlsManager<H>,
    after: MemoryHlsManager<H>,
    uploads: StopUploads,
    stream_name: Seq<char>,
    listing: Option<&str>,
    listed: Timestamp,
    made: Timestamp,
    ended: Timestamp,
)
    requires
        before.live().contains_key(stream_name),
        before.stopped(after, uploads, stream_name, listing, listed, made, ended),
    ensures
        !after.live().contains_key(stream_name),
        after.replays().contains_key(stream_name),
        !after.replays()[stream_name].is_live,
        after.replays()[stream_name].end_time == Some(ended),
        after.replays()[stream_name].start_time == before.live()[stream_name].start_time,
        forall|other: Seq<char>|
            other != stream_name ==> (#[trigger] after.live().contains_key(other)
                == before.live().contains_key(other)),
        forall|other: Seq<char>|
            other != stream_name && #[trigger] before.replays().contains_key(other)
                ==> after.replays().contains_key(other) && after.replays()[other]
                == before.replays()[other],
{
}
/// A stream that starts is live from that moment on, without an end, and is
/// known by its name: 1080 lines at five million bits and sixty frames a second.
pub proof fn law_started_stream_is_live(m: StreamMetadata, stream_name: Seq<char>, now: Timestamp)
    requires
        is_live_metadata(m, stream_name, now),
    ensures
        m.stream_name@ == stream_name,
        m.start_time.total_nanos() == now.total_nanos(),
        m.is_live,
        m.end_time is None,
        m.bitrate == 5 * 1_000_000,
        m.resolution@ == "1920"@ + "x"@ + "1080"@,
        m.codecs@ == "avc1.640028"@ + ","@ + "mp4a.40.2"@,
        m.frame_rate == Double::whole(60),
{
    law_named_numbers();
    reveal_strlit("1920x1080");
    reveal_strlit("1920");
    reveal_strlit("x");
    reveal_strlit("1080");
    assert("1920x1080"@ =~= "1920"@ + "x"@ + "1080"@);
    reveal_strlit("avc1.640028,mp4a.40.2");
    reveal_strlit("avc1.640028");
    reveal_strlit(",");
    reveal_strlit("mp4a.40.2");
    assert("avc1.640028,mp4a.40.2"@ =~= "avc1.640028"@ + ","@ + "mp4a.40.2"@);
}

/// Stopping a stream uploads its master playlist, and the playlist of its
/// segments where they were listed: each under its own name in the directory of
/// the stream, as a playlist, before anything else, at the moment when it was
/// made. The playlist of the segments is that of the listing.
pub proof fn law_stopping_uploads_playlists<H>(
    before: MemoryHlsManager<H>,
    after: MemoryHlsManager<H>,
    uploads: StopUploads,
    stream_name: Seq<char>,
    listing: Option<&str>,
    listed: Timestamp,
    made: Timestamp,
    ended: Timestamp,
)
    requires
        before.stopped(after, uploads, stream_name, listing, listed, made, ended),
    ensures
        uploads.vod is Some <==> listing is Some,
        uploads.master@.stream_name == stream_name,
        uploads.master@.file_name == "master"@ + ".m3u8"@,
        uploads.master@.content_type == "application/vnd.apple.mpegurl"@,
        uploads.master@.priority == u8::MAX,
        uploads.master@.created_at == made,
        uploads.master@.data == encode_utf8(
            replay_master_of(before.setup().s3.bucket@, stream_name),
        ),
        uploads.vod matches Some(vod) ==> {
            &&& vod@.stream_name == stream_name
            &&& vod@.file_name == "vod_playlist"@ + ".m3u8"@
            &&& vod@.content_type == "application/vnd.apple.mpegurl"@
            &&& vod@.priority == u8::MAX
            &&& vod@.created_at == listed
            &&& vod@.data == encode_utf8(
                vod_playlist_of(
                    "https://"@ + before.setup().s3.bucket@ + ".s3."@ + before.setup().s3.region@
                        + ".amazonaws.com/"@ + stream_name,
                    lines(listing->0@),
                ),
            )
        },
{
    reveal_strlit("master.m3u8");
    reveal_strlit("master");
    reveal_strlit("vod_playlist.m3u8");
    reveal_strlit("vod_playlist");
    reveal_strlit(".m3u8");
    assert("master.m3u8"@ =~= "master"@ + ".m3u8"@);
    assert("vod_playlist.m3u8"@ =~= "vod_playlist"@ + ".m3u8"@);
}

/// Stopping a stream that is not live makes nothing replayable, and stopping any
/// stream leaves the encoders and the configuration as they are.
pub proof fn law_stopping_touches_that_stream_only<H>(
    before: MemoryHlsManager<H>,
    after: MemoryHlsManager<H>,
    uploads: StopUploads,
    stream_name: Seq<char>,
    listing: Option<&str>,
    listed: Timestamp,
    made: Timestamp,
    ended: Timestamp,
    other: Seq<char>,
)
    requires
        before.stopped(after, uploads, stream_name, listing, listed, made, ended),
    ensures
        !before.live().contains_key(stream_name) ==> after.replays() == before.replays()
            && after.live() == before.live(),
        after.pipelines() == before.pipelines(),
        after.setup() == before.setup(),
        after.bucket_url() == before.bucket_url(),
        other != stream_name ==> after.replays().contains_key(other)
            == before.replays().contains_key(other),
        other != stream_name && before.live().contains_key(other) ==> after.live()[other]
            == before.live()[other],
{
    if !before.live().contains_key(stream_name) {
        assert(before.live().remove(stream_name) =~= before.live());
    }
}

/// Where only the encoders differ, the configuration, what is known of the
/// streams and the address of the bucket are the same.
pub proof fn law_encoders_are_apart<H>(a: MemoryHlsManager<H>, b: MemoryHlsManager<H>)
    requires
        a.differs_in_pipelines(b),
    ensures
        a.setup() == b.setup(),
        a.live() == b.live(),
        a.replays() == b.replays(),
        a.bucket_url() == b.bucket_url(),
{
}

/// The number of a segment is that of the digits directly behind `segment_` in
/// its name, however many there are and whatever follows them. A name without
/// digits there has no number, and neither has one that begins otherwise.
pub proof fn law_number_stands_behind_segment(digits: Seq<char>, rest: Seq<char>, name: Seq<char>)
    requires
        forall|i: int| 0 <= i < digits.len() ==> is_digit(#[trigger] digits[i]),
        rest.len() > 0 ==> !is_digit(rest[0]),
    ensures
        digits.len() > 0 ==> segment_number("segment_"@ + digits + rest) == Some(
            digits_value(digits),
        ),
        segment_number("segment_"@ + rest) is None,
        !has_prefix(name, "segment_"@) ==> segment_number(name) is None,
{
    let front = "segment_"@;
    let n = front.len() as int;
    let one = front + digits + rest;
    let two = front + rest;
    assert(one.take(n) =~= front);
    assert(two.take(n) =~= front);
    assert(one.skip(n) =~= digits + rest);
    assert(two.skip(n) =~= rest);
    lemma_digit_run(digits, rest);
    lemma_digit_run(Seq::empty(), rest);
    assert(Seq::<char>::empty() + rest =~= rest);
}

} // verus!
