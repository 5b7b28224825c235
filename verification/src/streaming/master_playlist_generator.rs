//! Master playlists, and the streams that can be replayed.

use crate::float::{Double, SIXTY, THIRTY};
use crate::number::{
    all_digits, dec, dec_int, decimal, decimal_signed, digits_value, is_digit, lemma_dec_reads_back,
};
use crate::table::{distinct, lemma_row_value, Table};
use crate::text::{first_pos, has_prefix, lemma_first_pos_is};
use crate::time::{rfc3339_text, seconds_between, Timestamp};
use crate::writer;
use crate::writer::{concat, lemma_concat_step};
use vstd::prelude::*;

verus! {

/// Generator of master playlists for the streams in a bucket.
pub struct MasterPlaylistGenerator {
    bucket_url: String,
}

/// What is known of a stream.
#[derive(Clone, Debug)]
pub struct StreamMetadata {
    pub stream_name: String,
    pub start_time: Timestamp,
    pub end_time: Option<Timestamp>,
    pub is_live: bool,
    /// Bit rate in bits per second.
    pub bitrate: u32,
    pub resolution: String,
    pub codecs: String,
    pub frame_rate: Double,
}

/// A rendition of a stream.
#[derive(Clone, Debug)]
pub struct StreamVariant {
    pub name: String,
    /// Bit rate in bits per second.
    pub bandwidth: u32,
    pub resolution: String,
    pub width: u32,
    pub height: u32,
    pub frame_rate: Double,
    pub codecs: String,
}

/// The line that announces a rendition.
pub open spec fn stream_line(
    bandwidth: nat,
    resolution: Seq<char>,
    frame_rate: Double,
    codecs: Seq<char>,
    name: Seq<char>,
) -> Seq<char> {
    "#EXT-X-STREAM-INF:BANDWIDTH="@ + dec(bandwidth) + ",RESOLUTION="@ + resolution
        + ",FRAME-RATE="@ + frame_rate.two_decimals() + ",CODECS=\""@ + codecs + "\",NAME=\""@
        + name + "\"\n"@
}

/// The line that announces a variant.
pub open spec fn variant_line(v: StreamVariant) -> Seq<char> {
    stream_line(v.bandwidth as nat, v.resolution@, v.frame_rate, v.codecs@, v.name@)
}

/// The line with the URL of a file of a stream.
pub open spec fn url_line(bucket_url: Seq<char>, stream: Seq<char>, file: Seq<char>) -> Seq<char> {
    bucket_url + "/"@ + stream + "/"@ + file + "\n"@
}

/// Gives each variant its line and the URL of the live playlist.
pub open spec fn live_liner(bucket_url: Seq<char>, stream: Seq<char>) -> spec_fn(
    StreamVariant,
) -> Seq<char> {
    |v: StreamVariant| variant_line(v) + url_line(bucket_url, stream, "playlist.m3u8"@)
}

/// The file of a variant, by its height.
pub open spec fn variant_file_of(height: nat, is_vod: bool) -> Seq<char> {
    (if is_vod {
        "vod_"@
    } else {
        "live_"@
    }) + dec(height) + "p.m3u8"@
}

/// Gives each variant its line and the URL of its own playlist.
pub open spec fn variant_liner(
    bucket_url: Seq<char>,
    stream: Seq<char>,
    is_vod: bool,
) -> spec_fn(StreamVariant) -> Seq<char> {
    |v: StreamVariant|
        variant_line(v) + url_line(bucket_url, stream, variant_file_of(v.height as nat, is_vod))
}

/// The master playlist of a live stream.
pub open spec fn live_master_of(
    bucket_url: Seq<char>,
    stream: Seq<char>,
    variants: Seq<StreamVariant>,
) -> Seq<char> {
    "#EXTM3U\n#EXT-X-VERSION:7\n#EXT-X-INDEPENDENT-SEGMENTS\n\n"@ + concat(
        variants,
        live_liner(bucket_url, stream),
    )
}

/// The lines on when a stream started and how long it took, where it has ended.
pub open spec fn span_text(m: StreamMetadata) -> Seq<char> {
    match m.end_time {
        Some(end) => "#EXT-X-PROGRAM-DATE-TIME:"@ + rfc3339_text(
            m.start_time.secs(),
            m.start_time.nanos(),
        ) + "\n# Stream Duration: "@ + dec_int(seconds_between(m.start_time, end))
            + " seconds\n"@,
        None => Seq::empty(),
    }
}

/// The master playlist of a stream that is replayed.
pub open spec fn vod_master_of(
    bucket_url: Seq<char>,
    stream: Seq<char>,
    m: StreamMetadata,
) -> Seq<char> {
    "#EXTM3U\n#EXT-X-VERSION:7\n#EXT-X-PLAYLIST-TYPE:VOD\n#EXT-X-INDEPENDENT-SEGMENTS\n"@
        + span_text(m) + "\n"@ + stream_line(
        m.bitrate as nat,
        m.resolution@,
        m.frame_rate,
        m.codecs@,
        "Replay"@,
    ) + url_line(bucket_url, stream, "vod_playlist.m3u8"@)
}

/// The master playlist of a stream in several qualities.
pub open spec fn multi_bitrate_master_of(
    bucket_url: Seq<char>,
    stream: Seq<char>,
    variants: Seq<StreamVariant>,
    is_vod: bool,
) -> Seq<char> {
    "#EXTM3U\n#EXT-X-VERSION:7\n"@ + (if is_vod {
        "#EXT-X-PLAYLIST-TYPE:VOD\n"@
    } else {
        Seq::empty()
    }) + "#EXT-X-INDEPENDENT-SEGMENTS\n\n"@ + concat(
        variants,
        variant_liner(bucket_url, stream, is_vod),
    )
}

fn stream_line_text(
    bandwidth: u32,
    resolution: &str,
    frame_rate: &Double,
    codecs: &str,
    name: &str,
) -> (r: String)
    ensures
        r@ == stream_line(bandwidth as nat, resolution@, *frame_rate, codecs@, name@),
{
    let mut out = writer::join5(
        "#EXT-X-STREAM-INF:BANDWIDTH=",
        decimal(bandwidth as u64).as_str(),
        ",RESOLUTION=",
        resolution,
        ",FRAME-RATE=",
    );
    out.append(frame_rate.text_two().as_str());
    out.append(",CODECS=\"");
    out.append(codecs);
    out.append("\",NAME=\"");
    out.append(name);
    out.append("\"\n");
    out
}

impl MasterPlaylistGenerator {
    /// The URL of the bucket.
    pub closed spec fn url(self) -> Seq<char> {
        self.bucket_url@
    }

    /// A generator for the streams in the bucket at `bucket_url`.
    pub fn new(bucket_url: String) -> (r: Self)
        ensures
            r.url() == bucket_url@,
    {
        MasterPlaylistGenerator { bucket_url }
    }

    fn url_line_text(&self, stream_name: &str, file: &str) -> (r: String)
        ensures
            r@ == url_line(self.url(), stream_name@, file@),
    {
        let mut out = writer::join5(self.bucket_url.as_str(), "/", stream_name, "/", file);
        out.append("\n");
        out
    }

    /// The master playlist of a live stream.
    pub fn generate_live_master(&self, stream_name: &str, variants: Vec<StreamVariant>) -> (r:
        String)
        ensures
            r@ == live_master_of(self.url(), stream_name@, variants@),
    {
        let mut out =
            "#EXTM3U\n#EXT-X-VERSION:7\n#EXT-X-INDEPENDENT-SEGMENTS\n\n".to_owned();
        let ghost head = out@;
        let ghost f = live_liner(self.url(), stream_name@);
        let mut i: usize = 0;
        assert(out@ =~= head + concat(variants@.take(0), f));
        while i < variants.len()
            invariant
                i <= variants.len(),
                f == live_liner(self.url(), stream_name@),
                out@ == head + concat(variants@.take(i as int), f),
            decreases variants.len() - i,
        {
            let v = &variants[i];
            let mut entry = stream_line_text(
                v.bandwidth,
                v.resolution.as_str(),
                &v.frame_rate,
                v.codecs.as_str(),
                v.name.as_str(),
            );
            entry.append(self.url_line_text(stream_name, "playlist.m3u8").as_str());
            proof {
                lemma_concat_step(variants@, f, i as int);
            }
            out.append(entry.as_str());
            assert(out@ =~= head + concat(variants@.take(i + 1), f));
            i = i + 1;
        }
        assert(variants@.take(i as int) =~= variants@);
        out
    }

    /// The master playlist of a stream that is replayed.
    pub fn generate_vod_master(&self, stream_name: &str, metadata: &StreamMetadata) -> (r: String)
        ensures
            r@ == vod_master_of(self.url(), stream_name@, *metadata),
    {
        let mut out =
            "#EXTM3U\n#EXT-X-VERSION:7\n#EXT-X-PLAYLIST-TYPE:VOD\n#EXT-X-INDEPENDENT-SEGMENTS\n".to_owned();
        let ghost head = out@;
        match &metadata.end_time {
            Some(end_time) => {
                let duration: i64 = metadata.start_time.seconds_until(end_time);
                let span = writer::join5(
                    "#EXT-X-PROGRAM-DATE-TIME:",
                    metadata.start_time.rfc3339().as_str(),
                    "\n# Stream Duration: ",
                    decimal_signed(duration).as_str(),
                    " seconds\n",
                );
                out.append(span.as_str());
            },
            None => {
                assert(out@ =~= head + span_text(*metadata));
            },
        }
        out.append("\n");
        let entry = stream_line_text(
            metadata.bitrate,
            metadata.resolution.as_str(),
            &metadata.frame_rate,
            metadata.codecs.as_str(),
            "Replay",
        );
        out.append(entry.as_str());
        out.append(self.url_line_text(stream_name, "vod_playlist.m3u8").as_str());
        out
    }

    /// The master playlist of a stream in several qualities.
    pub fn generate_multi_bitrate_master(
        &self,
        stream_name: &str,
        variants: Vec<StreamVariant>,
        is_vod: bool,
    ) -> (r: String)
        ensures
            r@ == multi_bitrate_master_of(self.url(), stream_name@, variants@, is_vod),
    {
        let mut out = "#EXTM3U\n#EXT-X-VERSION:7\n".to_owned();
        let ghost top = out@;
        if is_vod {
            out.append("#EXT-X-PLAYLIST-TYPE:VOD\n");
        } else {
            assert(out@ =~= top + Seq::<char>::empty());
        }
        out.append("#EXT-X-INDEPENDENT-SEGMENTS\n\n");
        let ghost head = out@;
        let ghost f = variant_liner(self.url(), stream_name@, is_vod);
        let mut i: usize = 0;
        assert(out@ =~= head + concat(variants@.take(0), f));
        while i < variants.len()
            invariant
                i <= variants.len(),
                f == variant_liner(self.url(), stream_name@, is_vod),
                out@ == head + concat(variants@.take(i as int), f),
            decreases variants.len() - i,
        {
            let v = &variants[i];
            let mut entry = stream_line_text(
                v.bandwidth,
                v.resolution.as_str(),
                &v.frame_rate,
                v.codecs.as_str(),
                v.name.as_str(),
            );
            let prefix = if is_vod {
                "vod_"
            } else {
                "live_"
            };
            let file = writer::join3(prefix, decimal(v.height as u64).as_str(), "p.m3u8");
            entry.append(self.url_line_text(stream_name, file.as_str()).as_str());
            proof {
                lemma_concat_step(variants@, f, i as int);
            }
            out.append(entry.as_str());
            assert(out@ =~= head + concat(variants@.take(i + 1), f));
            i = i + 1;
        }
        assert(variants@.take(i as int) =~= variants@);
        out
    }
}

impl StreamVariant {
    /// The rendition of 1920 by 1080.
    pub fn create_1080p() -> (r: Self)
        ensures
            r.name@ == "1080p"@,
            r.bandwidth == 5_000_000,
            r.resolution@ == "1920x1080"@,
            r.width == 1920,
            r.height == 1080,
            r.frame_rate == (Double { bits: SIXTY }),
            r.codecs@ == "avc1.640028,mp4a.40.2"@,
    {
        StreamVariant {
            name: "1080p".to_owned(),
            bandwidth: 5_000_000,
            resolution: "1920x1080".to_owned(),
            width: 1920,
            height: 1080,
            frame_rate: Double { bits: SIXTY },
            codecs: "avc1.640028,mp4a.40.2".to_owned(),
        }
    }

    /// The rendition of 1280 by 720.
    pub fn create_720p() -> (r: Self)
        ensures
            r.name@ == "720p"@,
            r.bandwidth == 3_000_000,
            r.resolution@ == "1280x720"@,
            r.width == 1280,
            r.height == 720,
            r.frame_rate == (Double { bits: SIXTY }),
            r.codecs@ == "avc1.64001f,mp4a.40.2"@,
    {
        StreamVariant {
            name: "720p".to_owned(),
            bandwidth: 3_000_000,
            resolution: "1280x720".to_owned(),
            width: 1280,
            height: 720,
            frame_rate: Double { bits: SIXTY },
            codecs: "avc1.64001f,mp4a.40.2".to_owned(),
        }
    }

    /// The rendition of 854 by 480.
    pub fn create_480p() -> (r: Self)
        ensures
            r.name@ == "480p"@,
            r.bandwidth == 1_500_000,
            r.resolution@ == "854x480"@,
            r.width == 854,
            r.height == 480,
            r.frame_rate == (Double { bits: THIRTY }),
            r.codecs@ == "avc1.64001e,mp4a.40.2"@,
    {
        StreamVariant {
            name: "480p".to_owned(),
            bandwidth: 1_500_000,
            resolution: "854x480".to_owned(),
            width: 854,
            height: 480,
            frame_rate: Double { bits: THIRTY },
            codecs: "avc1.64001e,mp4a.40.2".to_owned(),
        }
    }
}

/// What is known of a stream after it has ended at `now`.
pub open spec fn completed_metadata(m: StreamMetadata, now: Timestamp) -> StreamMetadata {
    StreamMetadata { is_live: false, end_time: Some(now), ..m }
}

/// The streams that have ended and can be replayed.
pub struct ReplayManager {
    completed_streams: Table<StreamMetadata>,
}

impl View for ReplayManager {
    type V = Map<Seq<char>, StreamMetadata>;

    closed spec fn view(&self) -> Map<Seq<char>, StreamMetadata> {
        self.completed_streams@
    }
}

impl ReplayManager {
    /// Stream names are distinct.
    pub closed spec fn wf(self) -> bool {
        self.completed_streams.wf()
    }

    /// The streams with their names, in the order in which they ended first.
    pub closed spec fn streams(self) -> Seq<(Seq<char>, StreamMetadata)> {
        self.completed_streams.rows()
    }

    /// No streams.
    pub fn new() -> (r: Self)
        ensures
            r.wf(),
            r@ == Map::<Seq<char>, StreamMetadata>::empty(),
    {
        ReplayManager { completed_streams: Table::new() }
    }

    /// Takes a stream that has just ended.
    pub fn mark_stream_completed(&mut self, stream_name: String, metadata: StreamMetadata)
        requires
            old(self).wf(),
        ensures
            final(self).wf(),
            exists|now: Timestamp|
                final(self)@ == old(self)@.insert(
                    stream_name@,
                    #[trigger] completed_metadata(metadata, now),
                ),
    {
        self.mark_stream_completed_at(stream_name, metadata, Timestamp::now());
    }

    /// Takes a stream that has ended at `now`.
    pub fn mark_stream_completed_at(
        &mut self,
        stream_name: String,
        metadata: StreamMetadata,
        now: Timestamp,
    )
        requires
            old(self).wf(),
        ensures
            final(self).wf(),
            final(self)@ == old(self)@.insert(stream_name@, completed_metadata(metadata, now)),
    {
        let mut completed = metadata;
        completed.is_live = false;
        completed.end_time = Some(now);
        self.completed_streams.insert(stream_name, completed);
    }

    /// What is known of a stream that has ended.
    pub fn get_completed_stream(&self, stream_name: &str) -> (r: Option<&StreamMetadata>)
        requires
            self.wf(),
        ensures
            match r {
                Some(m) => self@.contains_key(stream_name@) && *m == self@[stream_name@],
                None => !self@.contains_key(stream_name@),
            },
    {
        self.completed_streams.get(stream_name)
    }

    /// All streams that have ended, each once.
    pub fn list_replay_streams(&self) -> (r: Vec<&StreamMetadata>)
        requires
            self.wf(),
        ensures
            r@.len() == self@.len(),
            r@.len() == self.streams().len(),
            distinct(self.streams()),
            forall|i: int| 0 <= i < r@.len() ==> *(#[trigger] r@[i]) == self.streams()[i].1,
            forall|i: int|
                0 <= i < r@.len() ==> self@.contains_key((#[trigger] self.streams()[i]).0)
                    && self@[self.streams()[i].0] == self.streams()[i].1,
    {
        let mut out: Vec<&StreamMetadata> = Vec::new();
        let mut i: usize = 0;
        let n: usize = self.completed_streams.len();
        while i < n
            invariant
                self.wf(),
                n == self.streams().len(),
                i <= n,
                out@.len() == i,
                forall|j: int| 0 <= j < i ==> *(#[trigger] out@[j]) == self.streams()[j].1,
            decreases n - i,
        {
            out.push(self.completed_streams.value_at(i));
            i = i + 1;
        }
        assert forall|j: int| 0 <= j < out@.len() implies self@.contains_key(
            (#[trigger] self.streams()[j]).0,
        ) && self@[self.streams()[j].0] == self.streams()[j].1 by {
            lemma_row_value(self.streams(), j);
        }
        out
    }
}

/// What stands behind `front`, with which the text begins.
pub open spec fn behind(s: Seq<char>, front: Seq<char>) -> Seq<char> {
    s.skip(front.len() as int)
}

proof fn lemma_front(front: Seq<char>, rest: Seq<char>)
    ensures
        has_prefix(front + rest, front),
        behind(front + rest, front) == rest,
{
    assert((front + rest).take(front.len() as int) =~= front);
    assert(behind(front + rest, front) =~= rest);
}

/// The line of a rendition gives, in this order, its bandwidth in digits, its
/// resolution, its frame rate with two decimals, its codecs and its name.
pub open spec fn says_rendition(
    line: Seq<char>,
    bandwidth: nat,
    resolution: Seq<char>,
    frame_rate: Double,
    codecs: Seq<char>,
    name: Seq<char>,
) -> bool {
    let a = behind(line, "#EXT-X-STREAM-INF:BANDWIDTH="@);
    let number = a.take(first_pos(a, ','));
    let b = behind(behind(a, number), ",RESOLUTION="@);
    let c = behind(behind(b, resolution), ",FRAME-RATE="@);
    let d = behind(behind(c, frame_rate.two_decimals()), ",CODECS=\""@);
    let e = behind(behind(d, codecs), "\",NAME=\""@);
    &&& has_prefix(line, "#EXT-X-STREAM-INF:BANDWIDTH="@)
    &&& all_digits(number) && digits_value(number) == bandwidth
    &&& has_prefix(behind(a, number), ",RESOLUTION="@)
    &&& has_prefix(b, resolution)
    &&& has_prefix(behind(b, resolution), ",FRAME-RATE="@)
    &&& has_prefix(c, frame_rate.two_decimals())
    &&& has_prefix(behind(c, frame_rate.two_decimals()), ",CODECS=\""@)
    &&& has_prefix(d, codecs)
    &&& has_prefix(behind(d, codecs), "\",NAME=\""@)
    &&& e == name + "\"\n"@
}

proof fn lemma_stream_line(
    bandwidth: nat,
    resolution: Seq<char>,
    frame_rate: Double,
    codecs: Seq<char>,
    name: Seq<char>,
)
    ensures
        says_rendition(
            stream_line(bandwidth, resolution, frame_rate, codecs, name),
            bandwidth,
            resolution,
            frame_rate,
            codecs,
            name,
        ),
{
    let line = stream_line(bandwidth, resolution, frame_rate, codecs, name);
    let number = dec(bandwidth);
    let rate = frame_rate.two_decimals();
    let e = name + "\"\n"@;
    let d = codecs + ("\",NAME=\""@ + e);
    let c = rate + (",CODECS=\""@ + d);
    let b = resolution + (",FRAME-RATE="@ + c);
    let a = number + (",RESOLUTION="@ + b);
    assert(line =~= "#EXT-X-STREAM-INF:BANDWIDTH="@ + a);
    lemma_front("#EXT-X-STREAM-INF:BANDWIDTH="@, a);
    lemma_front(number, ",RESOLUTION="@ + b);
    lemma_front(",RESOLUTION="@, b);
    lemma_front(resolution, ",FRAME-RATE="@ + c);
    lemma_front(",FRAME-RATE="@, c);
    lemma_front(rate, ",CODECS=\""@ + d);
    lemma_front(",CODECS=\""@, d);
    lemma_front(codecs, "\",NAME=\""@ + e);
    lemma_front("\",NAME=\""@, e);
    lemma_dec_reads_back(bandwidth);
    reveal_strlit(",RESOLUTION=");
    assert forall|i: int| 0 <= i < number.len() implies #[trigger] a[i] != ',' by {
        assert(a[i] == number[i]);
        assert(is_digit(number[i]));
    }
    lemma_first_pos_is(a, ',', number.len() as int);
    assert(a.take(number.len() as int) =~= number);
}

/// The master playlist of a live stream grows by two lines with each rendition
/// and changes in nothing else: what the rendition is, and the address of the
/// live playlist of the stream.
pub proof fn law_live_master_grows_by_rendition(
    bucket_url: Seq<char>,
    stream: Seq<char>,
    variants: Seq<StreamVariant>,
    v: StreamVariant,
)
    ensures
        live_master_of(bucket_url, stream, Seq::empty())
            == "#EXTM3U\n#EXT-X-VERSION:7\n#EXT-X-INDEPENDENT-SEGMENTS\n\n"@,
        exists|line: Seq<char>|
            {
                &&& #[trigger] says_rendition(
                    line,
                    v.bandwidth as nat,
                    v.resolution@,
                    v.frame_rate,
                    v.codecs@,
                    v.name@,
                )
                &&& live_master_of(bucket_url, stream, variants.push(v)) == live_master_of(
                    bucket_url,
                    stream,
                    variants,
                ) + (line + (bucket_url + "/"@ + stream + "/playlist.m3u8\n"@))
            },
{
    let line = variant_line(v);
    let f = live_liner(bucket_url, stream);
    lemma_stream_line(v.bandwidth as nat, v.resolution@, v.frame_rate, v.codecs@, v.name@);
    reveal_strlit("/playlist.m3u8\n");
    reveal_strlit("playlist.m3u8");
    reveal_strlit("/");
    reveal_strlit("\n");
    assert("/playlist.m3u8\n"@ =~= "/"@ + "playlist.m3u8"@ + "\n"@);
    assert(variants.push(v).drop_last() =~= variants);
    assert(url_line(bucket_url, stream, "playlist.m3u8"@) =~= bucket_url + "/"@ + stream
        + "/playlist.m3u8\n"@);
    let head = "#EXTM3U\n#EXT-X-VERSION:7\n#EXT-X-INDEPENDENT-SEGMENTS\n\n"@;
    assert(live_master_of(bucket_url, stream, Seq::empty()) =~= head);
    assert(live_master_of(bucket_url, stream, variants.push(v)) =~= live_master_of(
        bucket_url,
        stream,
        variants,
    ) + (line + (bucket_url + "/"@ + stream + "/playlist.m3u8\n"@)));
}

/// The master playlist of a stream in several qualities grows in the same way,
/// with the address of the playlist that is named after the height; it says
/// that the stream can be replayed exactly where it can.
pub proof fn law_multi_master_grows_by_rendition(
    bucket_url: Seq<char>,
    stream: Seq<char>,
    variants: Seq<StreamVariant>,
    v: StreamVariant,
    is_vod: bool,
)
    ensures
        multi_bitrate_master_of(bucket_url, stream, Seq::empty(), true)
            == "#EXTM3U\n#EXT-X-VERSION:7\n#EXT-X-PLAYLIST-TYPE:VOD\n#EXT-X-INDEPENDENT-SEGMENTS\n\n"@,
        multi_bitrate_master_of(bucket_url, stream, Seq::empty(), false)
            == "#EXTM3U\n#EXT-X-VERSION:7\n#EXT-X-INDEPENDENT-SEGMENTS\n\n"@,
        exists|line: Seq<char>|
            {
                &&& #[trigger] says_rendition(
                    line,
                    v.bandwidth as nat,
                    v.resolution@,
                    v.frame_rate,
                    v.codecs@,
                    v.name@,
                )
                &&& multi_bitrate_master_of(bucket_url, stream, variants.push(v), is_vod)
                    == multi_bitrate_master_of(bucket_url, stream, variants, is_vod) + (line + (
                bucket_url + "/"@ + stream + (if is_vod {
                    "/vod_"@
                } else {
                    "/live_"@
                }) + dec(v.height as nat) + "p.m3u8\n"@))
            },
{
    let line = variant_line(v);
    lemma_stream_line(v.bandwidth as nat, v.resolution@, v.frame_rate, v.codecs@, v.name@);
    reveal_strlit("#EXTM3U\n#EXT-X-VERSION:7\n");
    reveal_strlit("#EXT-X-PLAYLIST-TYPE:VOD\n");
    reveal_strlit("#EXT-X-INDEPENDENT-SEGMENTS\n\n");
    reveal_strlit(
        "#EXTM3U\n#EXT-X-VERSION:7\n#EXT-X-PLAYLIST-TYPE:VOD\n#EXT-X-INDEPENDENT-SEGMENTS\n\n",
    );
    reveal_strlit("#EXTM3U\n#EXT-X-VERSION:7\n#EXT-X-INDEPENDENT-SEGMENTS\n\n");
    assert(multi_bitrate_master_of(bucket_url, stream, Seq::empty(), true)
        =~= "#EXTM3U\n#EXT-X-VERSION:7\n#EXT-X-PLAYLIST-TYPE:VOD\n#EXT-X-INDEPENDENT-SEGMENTS\n\n"@);
    assert(multi_bitrate_master_of(bucket_url, stream, Seq::empty(), false)
        =~= "#EXTM3U\n#EXT-X-VERSION:7\n#EXT-X-INDEPENDENT-SEGMENTS\n\n"@);
    reveal_strlit("/vod_");
    reveal_strlit("vod_");
    reveal_strlit("/live_");
    reveal_strlit("live_");
    reveal_strlit("/");
    reveal_strlit("p.m3u8\n");
    reveal_strlit("p.m3u8");
    reveal_strlit("\n");
    assert("/vod_"@ =~= "/"@ + "vod_"@);
    assert("/live_"@ =~= "/"@ + "live_"@);
    assert("p.m3u8\n"@ =~= "p.m3u8"@ + "\n"@);
    let address = bucket_url + "/"@ + stream + (if is_vod {
        "/vod_"@
    } else {
        "/live_"@
    }) + dec(v.height as nat) + "p.m3u8\n"@;
    assert(url_line(bucket_url, stream, variant_file_of(v.height as nat, is_vod)) =~= address);
    assert(variants.push(v).drop_last() =~= variants);
    assert(multi_bitrate_master_of(bucket_url, stream, variants.push(v), is_vod)
        =~= multi_bitrate_master_of(bucket_url, stream, variants, is_vod) + (line + address));
}

/// The master playlist of a stream that is replayed says what the stream was,
/// with the rendition as the stream had it, and ends in the address of the
/// playlist of its segments. Where the stream has ended, it also says when it
/// began and how many seconds it took.
pub proof fn law_vod_master_says_stream(
    bucket_url: Seq<char>,
    stream: Seq<char>,
    m: StreamMetadata,
)
    ensures
        exists|line: Seq<char>|
            {
                &&& #[trigger] says_rendition(
                    line,
                    m.bitrate as nat,
                    m.resolution@,
                    m.frame_rate,
                    m.codecs@,
                    "Replay"@,
                )
                &&& vod_master_of(bucket_url, stream, m)
                    == "#EXTM3U\n#EXT-X-VERSION:7\n#EXT-X-PLAYLIST-TYPE:VOD\n#EXT-X-INDEPENDENT-SEGMENTS\n"@
                    + (match m.end_time {
                    Some(end) => "#EXT-X-PROGRAM-DATE-TIME:"@ + rfc3339_text(
                        m.start_time.secs(),
                        m.start_time.nanos(),
                    ) + "\n# Stream Duration: "@ + dec_int(seconds_between(m.start_time, end))
                        + " seconds\n"@,
                    None => Seq::empty(),
                }) + "\n"@ + line + (bucket_url + "/"@ + stream + "/vod_playlist.m3u8\n"@)
            },
{
    let line = stream_line(m.bitrate as nat, m.resolution@, m.frame_rate, m.codecs@, "Replay"@);
    lemma_stream_line(m.bitrate as nat, m.resolution@, m.frame_rate, m.codecs@, "Replay"@);
    reveal_strlit("/vod_playlist.m3u8\n");
    reveal_strlit("vod_playlist.m3u8");
    reveal_strlit("/");
    reveal_strlit("\n");
    assert("/vod_playlist.m3u8\n"@ =~= "/"@ + "vod_playlist.m3u8"@ + "\n"@);
    assert(url_line(bucket_url, stream, "vod_playlist.m3u8"@) =~= bucket_url + "/"@ + stream
        + "/vod_playlist.m3u8\n"@);
}

/// A stream that has ended is no longer live and has ended then; everything else
/// that is known of it stays.
pub proof fn law_ended_stream_keeps_the_rest(m: StreamMetadata, now: Timestamp)
    ensures
        ({
            let ended = completed_metadata(m, now);
            &&& !ended.is_live
            &&& ended.end_time == Some(now)
            &&& ended.start_time == m.start_time
            &&& ended.stream_name == m.stream_name
            &&& ended.bitrate == m.bitrate
            &&& ended.resolution == m.resolution
            &&& ended.codecs == m.codecs
            &&& ended.frame_rate == m.frame_rate
        }),
{
}

} // verus!
