//! From the files that the encoder writes to uploads.

use crate::config::ThumbnailConfig;
use crate::float::{law_named_numbers, Double, ONE};
use crate::number::{dec, decimal, digits_value, lemma_dec_reads_back};
use crate::storage::cli_s3_uploader::{CliSegment, CliSegmentModel};
use crate::text;
use crate::text::{
    first_pos, has_prefix, has_suffix, lines, owned_all, strs, texts, trim_start,
};
use crate::time::Timestamp;
use crate::writer;
use crate::writer::{concat, lemma_concat_step};
use std::collections::VecDeque;
use vstd::prelude::*;
use vstd::utf8::encode_utf8;

verus! {

/// The number of segments in a playlist.
pub const MAX_SEGMENTS: usize = 10;

/// The number of names that the record of seen segments keeps.
pub const MAX_PROCESSED: usize = 20;

/// A segment of the playlist.
#[derive(Clone, Debug)]
pub struct SegmentInfo {
    pub file_name: String,
    pub duration: Double,
}

/// The playlist of a stream as it grows.
pub struct LLHlsState {
    segments: VecDeque<SegmentInfo>,
    media_sequence: u64,
    init_uploaded: bool,
    segment_count: u64,
    processed_segments: Vec<String>,
}

/// A segment of the playlist: its name and its duration.
#[verifier::ext_equal]
pub struct WindowEntry {
    pub file_name: Seq<char>,
    pub duration: Double,
}

/// What an [`LLHlsState`] holds.
#[verifier::ext_equal]
pub struct StateModel {
    pub segments: Seq<WindowEntry>,
    pub media_sequence: int,
    pub init_uploaded: bool,
    pub segment_count: int,
    /// The names of the segments seen last, from the oldest to the newest.
    pub processed: Seq<Seq<char>>,
}

impl View for SegmentInfo {
    type V = WindowEntry;

    open spec fn view(&self) -> WindowEntry {
        WindowEntry { file_name: self.file_name@, duration: self.duration }
    }
}

/// The last `count` of the items.
pub open spec fn newest<T>(items: Seq<T>, count: int) -> Seq<T> {
    if items.len() > count {
        items.skip(items.len() - count)
    } else {
        items
    }
}

impl StateModel {
    /// Nothing seen yet.
    pub open spec fn fresh() -> StateModel {
        StateModel {
            segments: Seq::empty(),
            media_sequence: 0,
            init_uploaded: false,
            segment_count: 0,
            processed: Seq::empty(),
        }
    }

    /// The state after a segment has been recorded as seen: the record keeps
    /// the newest [`MAX_PROCESSED`] names.
    pub open spec fn marked(self, file_name: Seq<char>) -> StateModel {
        StateModel {
            processed: newest(
                self.processed.remove_value(file_name).push(file_name),
                MAX_PROCESSED as int,
            ),
            ..self
        }
    }

    /// The state after several segments have been recorded as seen, one after
    /// the other.
    pub open spec fn marked_all(self, names: Seq<Seq<char>>) -> StateModel
        decreases names.len(),
    {
        if names.len() == 0 {
            self
        } else {
            self.marked_all(names.drop_last()).marked(names.last())
        }
    }

    /// The state after a segment has come in: the playlist keeps the newest
    /// [`MAX_SEGMENTS`], and its sequence number counts those that have left.
    pub open spec fn added(self, file_name: Seq<char>, duration: Double) -> StateModel {
        let more = self.segments.push(WindowEntry { file_name, duration });
        StateModel {
            segments: newest(more, MAX_SEGMENTS as int),
            media_sequence: self.media_sequence + (more.len() - newest(
                more,
                MAX_SEGMENTS as int,
            ).len()),
            segment_count: self.segment_count + 1,
            ..self
        }
    }

    /// The state after the initialisation segment has been sent.
    pub open spec fn init_sent(self) -> StateModel {
        StateModel { init_uploaded: true, ..self }
    }
}

/// The two lines of a segment.
pub open spec fn entry_lines(e: WindowEntry) -> Seq<char> {
    "#EXTINF:"@ + e.duration.three_decimals() + ",\n"@ + e.file_name + "\n"@
}

/// [`entry_lines`] as a function value.
pub open spec fn entry_liner() -> spec_fn(WindowEntry) -> Seq<char> {
    |e: WindowEntry| entry_lines(e)
}

/// The text of the playlist.
pub open spec fn window_text(m: StateModel) -> Seq<char> {
    "#EXTM3U\n#EXT-X-VERSION:7\n#EXT-X-TARGETDURATION:1\n#EXT-X-MEDIA-SEQUENCE:"@ + dec(
        m.media_sequence as nat,
    ) + "\n#EXT-X-MAP:URI=\"init.mp4\"\n\n"@ + concat(m.segments, entry_liner())
}

/// The models of the segments.
spec fn entries(segments: Seq<SegmentInfo>) -> Seq<WindowEntry> {
    segments.map_values(|s: SegmentInfo| s@)
}

impl View for LLHlsState {
    type V = StateModel;

    closed spec fn view(&self) -> StateModel {
        StateModel {
            segments: entries(self.segments@),
            media_sequence: self.media_sequence as int,
            init_uploaded: self.init_uploaded,
            segment_count: self.segment_count as int,
            processed: texts(self.processed_segments@),
        }
    }
}

impl LLHlsState {
    /// The playlist fits its window, every segment that came in is in it or
    /// counted by its sequence number, and the record of seen segments is
    /// bounded and holds no name twice.
    pub closed spec fn wf(self) -> bool {
        &&& texts(self.processed_segments@).no_duplicates()
        &&& self.processed_segments@.len() <= MAX_PROCESSED
        &&& self.segments@.len() <= MAX_SEGMENTS
        &&& self.media_sequence + self.segments@.len() == self.segment_count
    }

    /// Every segment that came in is in the playlist, which never holds more
    /// than [`MAX_SEGMENTS`], or counted by its sequence number; and the record
    /// of seen segments never holds more than [`MAX_PROCESSED`] names, nor one of
    /// them twice.
    pub proof fn law_every_segment_is_counted(self)
        requires
            self.wf(),
        ensures
            self@.segments.len() <= MAX_SEGMENTS,
            self@.processed.no_duplicates(),
            self@.processed.len() <= MAX_PROCESSED,
            self@.media_sequence + self@.segments.len() == self@.segment_count,
            0 <= self@.media_sequence,
            self@.segment_count <= u64::MAX,
    {
    }

    /// Nothing seen yet.
    pub fn new() -> (r: Self)
        ensures
            r.wf(),
            r@ == StateModel::fresh(),
    {
        let r = LLHlsState {
            segments: VecDeque::new(),
            media_sequence: 0,
            init_uploaded: false,
            segment_count: 0,
            processed_segments: Vec::new(),
        };
        assert(r@.segments =~= Seq::<WindowEntry>::empty());
        assert(r@.processed =~= Seq::<Seq<char>>::empty());
        r
    }

    /// Where the segment stands on the record of those seen.
    fn seen_at(&self, file_name: &str) -> (r: Option<usize>)
        ensures
            match r {
                Some(at) => at < self.processed_segments@.len() && self@.processed.index_of_first(
                    file_name@,
                ) == Some(at as int) && self@.processed.contains(file_name@),
                None => self@.processed.index_of_first(file_name@) is None
                    && !self@.processed.contains(file_name@),
            },
    {
        let ghost seen = self@.processed;
        proof {
            seen.index_of_first_ensures(file_name@);
        }
        let mut i: usize = 0;
        while i < self.processed_segments.len()
            invariant
                i <= self.processed_segments@.len(),
                seen == texts(self.processed_segments@),
                forall|j: int| 0 <= j < i ==> #[trigger] seen[j] != file_name@,
            decreases self.processed_segments@.len() - i,
        {
            assert(seen[i as int] == self.processed_segments@[i as int]@);
            if text::same(self.processed_segments[i].as_str(), file_name) {
                proof {
                    seen.index_of_first_ensures(file_name@);
                    assert(seen.contains(file_name@));
                }
                return Some(i);
            }
            i = i + 1;
        }
        None
    }

    /// Whether the segment is on record as seen.
    pub fn is_processed(&self, file_name: &str) -> (r: bool)
        ensures
            r == self@.processed.contains(file_name@),
    {
        self.seen_at(file_name).is_some()
    }

    /// Records a segment as seen.
    pub fn mark_processed(&mut self, file_name: String)
        requires
            old(self).wf(),
        ensures
            final(self).wf(),
            final(self)@ == old(self)@.marked(file_name@),
    {
        let ghost before = self@.processed;
        let ghost rest = before.remove_value(file_name@);
        match self.seen_at(file_name.as_str()) {
            Some(at) => {
                proof {
                    before.index_of_first_ensures(file_name@);
                }
                let _ = self.processed_segments.remove(at);
                assert(self@.processed =~= rest);
            },
            None => {},
        }
        assert(!rest.contains(file_name@));
        self.processed_segments.push(file_name);
        assert(self@.processed =~= rest.push(file_name@));
        if self.processed_segments.len() > MAX_PROCESSED {
            let _ = self.processed_segments.remove(0);
            assert(self@.processed =~= rest.push(file_name@).skip(1));
        }
    }

    /// Adds a segment to the playlist.
    pub fn add_segment(&mut self, file_name: String, duration: Double)
        requires
            old(self).wf(),
            old(self)@.segment_count < u64::MAX,
        ensures
            final(self).wf(),
            final(self)@ == old(self)@.added(file_name@, duration),
    {
        let ghost before = self@;
        let ghost more = before.segments.push(WindowEntry { file_name: file_name@, duration });
        self.segments.push_back(SegmentInfo { file_name, duration });
        self.segment_count = self.segment_count + 1;
        assert(self@.segments =~= more);
        if self.segments.len() > MAX_SEGMENTS {
            let gone = self.segments.pop_front();
            self.media_sequence = self.media_sequence + 1;
            assert(self@.segments =~= more.skip(1));
        }
    }

    /// Records the initialisation segment as sent.
    pub fn set_init_uploaded(&mut self)
        requires
            old(self).wf(),
        ensures
            final(self).wf(),
            final(self)@ == old(self)@.init_sent(),
    {
        self.init_uploaded = true;
    }

    /// Whether the initialisation segment has been sent.
    pub fn init_uploaded(&self) -> (r: bool)
        ensures
            r == self@.init_uploaded,
    {
        self.init_uploaded
    }

    /// The number of segments that have come in.
    pub fn segment_count(&self) -> (r: u64)
        ensures
            r == self@.segment_count,
    {
        self.segment_count
    }

    /// The text of the playlist.
    pub fn generate_playlist(&self) -> (r: String)
        requires
            self.wf(),
        ensures
            r@ == window_text(self@),
    {
        let mut out = writer::join3(
            "#EXTM3U\n#EXT-X-VERSION:7\n#EXT-X-TARGETDURATION:1\n#EXT-X-MEDIA-SEQUENCE:",
            decimal(self.media_sequence).as_str(),
            "\n#EXT-X-MAP:URI=\"init.mp4\"\n\n",
        );
        let ghost head = out@;
        let ghost all = self@.segments;
        let mut i: usize = 0;
        assert(out@ =~= head + concat(all.take(0), entry_liner()));
        while i < self.segments.len()
            invariant
                i <= self.segments@.len(),
                all == self@.segments,
                all.len() == self.segments@.len(),
                out@ == head + concat(all.take(i as int), entry_liner()),
            decreases self.segments@.len() - i,
        {
            let segment = &self.segments[i];
            assert(all[i as int] == segment@);
            let duration = segment.duration.text_three();
            let entry = writer::join5(
                "#EXTINF:",
                duration.as_str(),
                ",\n",
                segment.file_name.as_str(),
                "\n",
            );
            proof {
                lemma_concat_step(all, entry_liner(), i as int);
            }
            out.append(entry.as_str());
            assert(out@ =~= head + concat(all.take(i + 1), entry_liner()));
            i = i + 1;
        }
        assert(all.take(i as int) =~= all);
        out
    }
}

/// The text of the number on an `#EXTINF` line, up to the first comma.
pub open spec fn extinf_number_of(line: Seq<char>) -> Option<Seq<char>> {
    if has_prefix(line, "#EXTINF:"@) {
        let rest = trim_start(line, "#EXTINF:"@);
        Some(rest.take(first_pos(rest, ',')))
    } else {
        None
    }
}

/// The number texts of the `#EXTINF` lines.
pub open spec fn extinf_numbers_of(ls: Seq<Seq<char>>) -> Seq<Seq<char>>
    decreases ls.len(),
{
    if ls.len() == 0 {
        Seq::empty()
    } else {
        let before = extinf_numbers_of(ls.drop_last());
        match extinf_number_of(ls.last()) {
            Some(number) => before.push(number),
            None => before,
        }
    }
}

/// The text of the number on an `#EXTINF` line, where `line` is one.
pub fn extinf_number(line: &str) -> (r: Option<String>)
    ensures
        match r {
            Some(number) => extinf_number_of(line@) == Some(number@),
            None => extinf_number_of(line@) is None,
        },
{
    if text::starts_with(line, "#EXTINF:") {
        let rest = text::trim_start_matches(line, "#EXTINF:");
        Some(text::before(rest.as_str(), ','))
    } else {
        None
    }
}

/// The number texts of all `#EXTINF` lines of a playlist.
pub fn extinf_numbers(content: &str) -> (r: Vec<String>)
    ensures
        texts(r@) == extinf_numbers_of(lines(content@)),
{
    let all = text::lines_of(content);
    let ghost ls = texts(all@);
    let mut out: Vec<String> = Vec::new();
    let mut i: usize = 0;
    assert(texts(out@) =~= extinf_numbers_of(ls.take(0)));
    while i < all.len()
        invariant
            i <= all.len(),
            ls == texts(all@),
            texts(out@) == extinf_numbers_of(ls.take(i as int)),
        decreases all.len() - i,
    {
        let ghost before = out@;
        assert(ls.take(i + 1).drop_last() =~= ls.take(i as int));
        match extinf_number(all[i].as_str()) {
            Some(number) => {
                out.push(number);
                assert(texts(out@) =~= texts(before).push(number@));
            },
            None => {},
        }
        i = i + 1;
    }
    assert(ls.take(i as int) =~= ls);
    out
}

/// The last duration that could be read, or `pending` where there is none.
pub open spec fn latest(pending: Option<Double>, durations: Seq<Option<Double>>) -> Option<Double>
    decreases durations.len(),
{
    if durations.len() == 0 {
        pending
    } else if durations.last() is Some {
        durations.last()
    } else {
        latest(pending, durations.drop_last())
    }
}

/// What a file that the encoder has written is.
#[derive(Clone, Copy, Debug, PartialEq, Eq, Structural)]
pub enum FileKind {
    /// A file that is still being written.
    Temporary,
    /// The playlist of the encoder.
    Playlist,
    /// The initialisation segment.
    Init,
    /// A media segment.
    Segment,
    /// Anything else.
    Other,
}

/// What a file is, by its name.
pub open spec fn file_kind_of(file_name: Seq<char>) -> FileKind {
    if has_suffix(file_name, ".tmp"@) {
        FileKind::Temporary
    } else if file_name == "playlist.m3u8"@ {
        FileKind::Playlist
    } else if file_name == "init.mp4"@ {
        FileKind::Init
    } else if has_suffix(file_name, ".m4s"@) {
        FileKind::Segment
    } else {
        FileKind::Other
    }
}

/// What a file is, by its name.
pub fn file_kind(file_name: &str) -> (r: FileKind)
    ensures
        r == file_kind_of(file_name@),
{
    if text::ends_with(file_name, ".tmp") {
        FileKind::Temporary
    } else if text::same(file_name, "playlist.m3u8") {
        FileKind::Playlist
    } else if text::same(file_name, "init.mp4") {
        FileKind::Init
    } else if text::ends_with(file_name, ".m4s") {
        FileKind::Segment
    } else {
        FileKind::Other
    }
}

/// A thumbnail is taken of the segment that is the `count`th: never of the
/// first one, so that the initialisation segment is settled, always of the
/// second, and then at every interval.
pub open spec fn takes_thumbnail(config: ThumbnailConfig, count: int) -> bool {
    config.enabled && count != 1 && (count == 2 || count % config.interval_seconds as int == 0)
}

/// The interval is no obstacle to decide on a thumbnail of the `count`th segment.
pub open spec fn interval_is_usable(config: ThumbnailConfig, count: int) -> bool {
    config.enabled && count != 1 && count != 2 ==> config.interval_seconds > 0
}

/// Whether a thumbnail is taken of the segment that is the `count`th.
pub fn should_extract_thumbnail(config: &ThumbnailConfig, count: u64) -> (r: bool)
    requires
        interval_is_usable(*config, count as int),
    ensures
        r == takes_thumbnail(*config, count as int),
{
    config.enabled && count != 1 && (count == 2 || count % (config.interval_seconds as u64) == 0)
}

/// What is to be done about a file.
#[derive(Debug)]
pub enum FileOutcome {
    /// Nothing.
    Nothing,
    /// The initialisation segment is to be uploaded.
    Init { upload: CliSegment },
    /// The segment is to be uploaded, then the playlist. The file is removed
    /// right away unless a thumbnail is taken of it.
    Segment { upload: CliSegment, playlist: CliSegment, thumbnail: bool },
}

/// What a [`FileWatcher`] holds.
#[verifier::ext_equal]
pub struct WatcherModel {
    pub stream_name: Seq<char>,
    pub thumbnail: ThumbnailConfig,
    pub state: StateModel,
    pub pending_duration: Option<Double>,
}

/// The duration of a segment of which the encoder's playlist says nothing.
pub open spec fn default_duration() -> Double {
    Double { bits: ONE }
}

impl WatcherModel {
    /// After the durations in the encoder's playlist have been read.
    pub open spec fn noted(self, durations: Seq<Option<Double>>) -> WatcherModel {
        WatcherModel { pending_duration: latest(self.pending_duration, durations), ..self }
    }

    /// After the initialisation segment has been sent.
    pub open spec fn init_sent(self) -> WatcherModel {
        WatcherModel { state: self.state.init_sent(), ..self }
    }

    /// The duration of the segment that comes in next.
    pub open spec fn next_duration(self) -> Double {
        match self.pending_duration {
            Some(duration) => duration,
            None => default_duration(),
        }
    }

    /// After a segment has come in.
    pub open spec fn segment_seen(self, file_name: Seq<char>) -> WatcherModel {
        WatcherModel {
            state: self.state.marked(file_name).added(file_name, self.next_duration()),
            pending_duration: None,
            ..self
        }
    }

    /// The file is a segment that is not on record as seen.
    pub open spec fn is_news(self, file_name: Seq<char>) -> bool {
        file_kind_of(file_name) == FileKind::Segment && !self.state.processed.contains(file_name)
    }

    /// A file of the stream as it is uploaded.
    pub open spec fn upload(
        self,
        file_name: Seq<char>,
        data: Seq<u8>,
        content_type: Seq<char>,
        priority: u8,
        now: Timestamp,
    ) -> CliSegmentModel {
        CliSegmentModel {
            stream_name: self.stream_name,
            file_name,
            data,
            content_type,
            priority,
            created_at: now,
        }
    }

    /// What is done about a file, and what the watcher is afterwards.
    pub open spec fn steps(
        self,
        after: WatcherModel,
        outcome: FileOutcome,
        file_name: Seq<char>,
        data: Seq<u8>,
        durations: Seq<Option<Double>>,
        now: Timestamp,
        later: Timestamp,
    ) -> bool {
        match file_kind_of(file_name) {
            FileKind::Playlist => outcome is Nothing && after == self.noted(durations),
            FileKind::Init => if self.state.init_uploaded {
                outcome is Nothing && after == self
            } else {
                &&& after == self.init_sent()
                &&& outcome matches FileOutcome::Init { upload }
                &&& upload@ == self.upload("init.mp4"@, data, "video/mp4"@, 255, now)
            },
            FileKind::Segment => if self.is_news(file_name) {
                &&& after == self.segment_seen(file_name)
                &&& outcome matches FileOutcome::Segment { upload, playlist, thumbnail }
                &&& upload@ == self.upload(file_name, data, "video/iso.segment"@, 150, now)
                &&& playlist@ == self.upload(
                    "playlist.m3u8"@,
                    encode_utf8(window_text(after.state)),
                    "application/vnd.apple.mpegurl"@,
                    200,
                    later,
                )
                &&& thumbnail == takes_thumbnail(self.thumbnail, after.state.segment_count)
            } else {
                outcome is Nothing && after == self
            },
            FileKind::Temporary => outcome is Nothing && after == self,
            FileKind::Other => outcome is Nothing && after == self,
        }
    }
}

/// Turns the files that the encoder writes for a stream into uploads.
pub struct FileWatcher {
    stream_name: String,
    thumbnail: ThumbnailConfig,
    state: LLHlsState,
    pending_duration: Option<Double>,
}

impl View for FileWatcher {
    type V = WatcherModel;

    closed spec fn view(&self) -> WatcherModel {
        WatcherModel {
            stream_name: self.stream_name@,
            thumbnail: self.thumbnail,
            state: self.state@,
            pending_duration: self.pending_duration,
        }
    }
}

impl FileWatcher {
    /// The playlist is well formed.
    pub closed spec fn wf(self) -> bool {
        self.state.wf()
    }

    /// A watcher that has seen no file yet.
    pub fn new(stream_name: String, thumbnail: ThumbnailConfig) -> (r: Self)
        ensures
            r.wf(),
            r@ == (WatcherModel {
                stream_name: stream_name@,
                thumbnail,
                state: StateModel::fresh(),
                pending_duration: None,
            }),
    {
        FileWatcher { stream_name, thumbnail, state: LLHlsState::new(), pending_duration: None }
    }

    /// Whether the file can be taken: where it is a segment that is not on
    /// record as seen, one more can be counted and a thumbnail of it decided on.
    pub fn can_take(&self, file_name: &str) -> (r: bool)
        ensures
            r == (self@.is_news(file_name@) ==> self@.state.segment_count < u64::MAX
                && interval_is_usable(self@.thumbnail, self@.state.segment_count + 1)),
    {
        let news = match file_kind(file_name) {
            FileKind::Segment => !self.state.is_processed(file_name),
            _ => false,
        };
        !news || (self.state.segment_count() < u64::MAX && (!self.thumbnail.enabled
            || self.state.segment_count() <= 1 || self.thumbnail.interval_seconds > 0))
    }

    fn upload(
        &self,
        file_name: &str,
        data: Vec<u8>,
        content_type: &str,
        priority: u8,
        now: Timestamp,
    ) -> (r: CliSegment)
        ensures
            r@ == self@.upload(file_name@, data@, content_type@, priority, now),
    {
        CliSegment {
            stream_name: self.stream_name.clone(),
            file_name: file_name.to_owned(),
            data,
            content_type: content_type.to_owned(),
            priority,
            created_at: now,
        }
    }

    /// The upload of a segment.
    pub fn segment_upload(&self, file_name: &str, data: Vec<u8>) -> (r: CliSegment)
        ensures
            exists|now: Timestamp|
                r@ == #[trigger] self@.upload(
                    file_name@,
                    data@,
                    "video/iso.segment"@,
                    150,
                    now,
                ),
    {
        self.segment_upload_at(file_name, data, Timestamp::now())
    }

    /// The upload of a segment, made at `now`.
    pub fn segment_upload_at(&self, file_name: &str, data: Vec<u8>, now: Timestamp) -> (r: CliSegment)
        ensures
            r@ == self@.upload(file_name@, data@, "video/iso.segment"@, 150, now),
    {
        self.upload(file_name, data, "video/iso.segment", 150, now)
    }

    /// Takes note of the durations in the encoder's playlist.
    fn note_durations(&mut self, durations: &Vec<Option<Double>>)
        requires
            old(self).wf(),
        ensures
            final(self).wf(),
            final(self)@ == old(self)@.noted(durations@),
    {
        let ghost first = self@;
        let ghost all = durations@;
        let mut i: usize = 0;
        assert(all.take(0).len() == 0);
        while i < durations.len()
            invariant
                i <= durations.len(),
                all == durations@,
                self.wf(),
                self@ == first.noted(all.take(i as int)),
            decreases durations.len() - i,
        {
            assert(all.take(i + 1).drop_last() =~= all.take(i as int));
            if durations[i].is_some() {
                self.pending_duration = durations[i];
            }
            i = i + 1;
        }
        assert(all.take(i as int) =~= all);
    }

    /// Takes a file that has been written. `durations` is what the number
    /// texts of its `#EXTINF` lines read as; they are looked at where the file
    /// is the encoder's playlist.
    pub fn on_file(
        &mut self,
        file_name: &str,
        data: Vec<u8>,
        durations: &Vec<Option<Double>>,
    ) -> (r: FileOutcome)
        requires
            old(self).wf(),
            old(self)@.is_news(file_name@) ==> old(self)@.state.segment_count < u64::MAX
                && interval_is_usable(
                old(self)@.thumbnail,
                old(self)@.state.segment_count + 1,
            ),
        ensures
            final(self).wf(),
            exists|now: Timestamp, later: Timestamp| #[trigger]
                old(self)@.steps(final(self)@, r, file_name@, data@, durations@, now, later),
    {
        self.on_file_at(file_name, data, durations, Timestamp::now(), Timestamp::now())
    }

    /// Takes a file that has been written, where its upload is made at `now`
    /// and that of the playlist at `later`.
    pub fn on_file_at(
        &mut self,
        file_name: &str,
        data: Vec<u8>,
        durations: &Vec<Option<Double>>,
        now: Timestamp,
        later: Timestamp,
    ) -> (r: FileOutcome)
        requires
            old(self).wf(),
            old(self)@.is_news(file_name@) ==> old(self)@.state.segment_count < u64::MAX
                && interval_is_usable(
                old(self)@.thumbnail,
                old(self)@.state.segment_count + 1,
            ),
        ensures
            final(self).wf(),
            old(self)@.steps(final(self)@, r, file_name@, data@, durations@, now, later),
    {
        match file_kind(file_name) {
            FileKind::Playlist => {
                self.note_durations(durations);
                FileOutcome::Nothing
            },
            FileKind::Init => {
                if self.state.init_uploaded() {
                    return FileOutcome::Nothing;
                }
                let upload = self.upload("init.mp4", data, "video/mp4", 255, now);
                self.state.set_init_uploaded();
                FileOutcome::Init { upload }
            },
            FileKind::Segment => {
                if self.state.is_processed(file_name) {
                    return FileOutcome::Nothing;
                }
                let duration = match self.pending_duration {
                    Some(duration) => duration,
                    None => Double { bits: ONE },
                };
                self.pending_duration = None;
                let upload = self.segment_upload_at(file_name, data, now);
                self.state.mark_processed(file_name.to_owned());
                self.state.add_segment(file_name.to_owned(), duration);
                let content = self.state.generate_playlist();
                let thumbnail = should_extract_thumbnail(
                    &self.thumbnail,
                    self.state.segment_count(),
                );
                let playlist = self.upload(
                    "playlist.m3u8",
                    content.as_str().as_bytes_vec(),
                    "application/vnd.apple.mpegurl",
                    200,
                    later,
                );
                FileOutcome::Segment { upload, playlist, thumbnail }
            },
            FileKind::Temporary => FileOutcome::Nothing,
            FileKind::Other => FileOutcome::Nothing,
        }
    }
}


/// Where the files of a thumbnail are, and the arguments of the encoder that
/// makes it.
#[derive(Debug)]
pub struct ThumbnailJob {
    pub init_path: String,
    pub thumb_path: String,
    pub combined_path: String,
    pub args: Vec<String>,
}

/// The arguments of the encoder that takes the first frame.
pub open spec fn thumbnail_args_of(watch_dir: Seq<char>, config: ThumbnailConfig) -> Seq<Seq<char>> {
    seq![
        "-y"@,
        "-i"@,
        watch_dir + "/combined.mp4"@,
        "-vf"@,
        "scale="@ + dec(config.width as nat) + ":"@ + dec(config.height as nat),
        "-vframes"@,
        "1"@,
        "-q:v"@,
        dec(config.quality as nat),
        watch_dir + "/thumbnail.jpg"@,
    ]
}

/// The files and the arguments for a thumbnail in `watch_dir`.
pub fn thumbnail_job(watch_dir: &str, config: &ThumbnailConfig) -> (r: ThumbnailJob)
    ensures
        r.init_path@ == watch_dir@ + "/init.mp4"@,
        r.thumb_path@ == watch_dir@ + "/thumbnail.jpg"@,
        r.combined_path@ == watch_dir@ + "/combined.mp4"@,
        texts(r.args@) == thumbnail_args_of(watch_dir@, *config),
{
    let init_path = writer::join2(watch_dir, "/init.mp4");
    let thumb_path = writer::join2(watch_dir, "/thumbnail.jpg");
    let combined_path = writer::join2(watch_dir, "/combined.mp4");
    let width = decimal(config.width as u64);
    let height = decimal(config.height as u64);
    let scale = writer::join4("scale=", width.as_str(), ":", height.as_str());
    let quality = decimal(config.quality as u64);
    let list: [&str; 10] = [
        "-y",
        "-i",
        combined_path.as_str(),
        "-vf",
        scale.as_str(),
        "-vframes",
        "1",
        "-q:v",
        quality.as_str(),
        thumb_path.as_str(),
    ];
    let args = owned_all(&list);
    assert(strs(list@) =~= thumbnail_args_of(watch_dir@, *config));
    ThumbnailJob { init_path, thumb_path, combined_path, args }
}

/// The initialisation segment followed by a media segment: a file that can be
/// decoded by itself.
pub fn combined_media(init: Vec<u8>, segment: &Vec<u8>) -> (r: Vec<u8>)
    ensures
        r@ == init@ + segment@,
{
    let mut out = init;
    let mut i: usize = 0;
    assert(out@ =~= init@ + segment@.take(0));
    while i < segment.len()
        invariant
            i <= segment.len(),
            out@ == init@ + segment@.take(i as int),
        decreases segment.len() - i,
    {
        out.push(segment[i]);
        assert(out@ =~= init@ + segment@.take(i + 1));
        i = i + 1;
    }
    assert(segment@.take(i as int) =~= segment@);
    out
}

/// The upload of a thumbnail made at `now`.
pub open spec fn thumbnail_segment(
    stream_name: Seq<char>,
    data: Seq<u8>,
    now: Timestamp,
) -> CliSegmentModel {
    CliSegmentModel {
        stream_name,
        file_name: "thumbnail.jpg"@,
        data,
        content_type: "image/jpeg"@,
        priority: 50,
        created_at: now,
    }
}

/// The upload of a thumbnail.
pub fn thumbnail_upload(stream_name: &str, data: Vec<u8>) -> (r: CliSegment)
    ensures
        exists|now: Timestamp| r@ == #[trigger] thumbnail_segment(stream_name@, data@, now),
{
    thumbnail_upload_at(stream_name, data, Timestamp::now())
}

/// The upload of a thumbnail, made at `now`.
pub fn thumbnail_upload_at(stream_name: &str, data: Vec<u8>, now: Timestamp) -> (r: CliSegment)
    ensures
        r@ == thumbnail_segment(stream_name@, data@, now),
{
    CliSegment {
        stream_name: stream_name.to_owned(),
        file_name: "thumbnail.jpg".to_owned(),
        data,
        content_type: "image/jpeg".to_owned(),
        priority: 50,
        created_at: now,
    }
}

/// What is done next on the way to a thumbnail.
#[derive(Clone, Copy, Debug, PartialEq, Eq, Structural)]
pub enum ThumbnailStep {
    /// Read the initialisation segment.
    ReadInit,
    /// Read the media segment.
    ReadSegment,
    /// Write the two of them to one file.
    WriteCombined,
    /// Run the encoder; it has gone well where it reports success.
    RunEncoder,
    /// Remove the combined file and the media segment.
    RemoveInputs { encoded: bool },
    /// Read the thumbnail.
    ReadThumbnail,
    /// Upload the thumbnail.
    UploadThumbnail,
    /// Remove the thumbnail.
    RemoveThumbnail,
    /// Remove the media segment.
    RemoveSegment,
    /// Nothing is left to do.
    Done,
}

impl ThumbnailStep {
    /// The step after this one, by whether this one has gone well.
    pub open spec fn following(self, ok: bool) -> ThumbnailStep {
        match self {
            ThumbnailStep::ReadInit => if ok {
                ThumbnailStep::ReadSegment
            } else {
                ThumbnailStep::RemoveSegment
            },
            ThumbnailStep::ReadSegment => if ok {
                ThumbnailStep::WriteCombined
            } else {
                ThumbnailStep::RemoveSegment
            },
            ThumbnailStep::WriteCombined => if ok {
                ThumbnailStep::RunEncoder
            } else {
                ThumbnailStep::RemoveSegment
            },
            ThumbnailStep::RunEncoder => ThumbnailStep::RemoveInputs { encoded: ok },
            ThumbnailStep::RemoveInputs { encoded } => if encoded {
                ThumbnailStep::ReadThumbnail
            } else {
                ThumbnailStep::Done
            },
            ThumbnailStep::ReadThumbnail => if ok {
                ThumbnailStep::UploadThumbnail
            } else {
                ThumbnailStep::Done
            },
            ThumbnailStep::UploadThumbnail => ThumbnailStep::RemoveThumbnail,
            ThumbnailStep::RemoveThumbnail => ThumbnailStep::Done,
            ThumbnailStep::RemoveSegment => ThumbnailStep::Done,
            ThumbnailStep::Done => ThumbnailStep::Done,
        }
    }

    /// The media segment has not been removed before this step.
    pub open spec fn segment_is_there(self) -> bool {
        match self {
            ThumbnailStep::ReadThumbnail => false,
            ThumbnailStep::UploadThumbnail => false,
            ThumbnailStep::RemoveThumbnail => false,
            ThumbnailStep::Done => false,
            _ => true,
        }
    }

    /// A bound on the number of steps that are left.
    pub open spec fn steps_left(self) -> nat {
        match self {
            ThumbnailStep::ReadInit => 8,
            ThumbnailStep::ReadSegment => 7,
            ThumbnailStep::WriteCombined => 6,
            ThumbnailStep::RunEncoder => 5,
            ThumbnailStep::RemoveInputs { .. } => 4,
            ThumbnailStep::ReadThumbnail => 3,
            ThumbnailStep::UploadThumbnail => 2,
            ThumbnailStep::RemoveThumbnail => 1,
            ThumbnailStep::RemoveSegment => 1,
            ThumbnailStep::Done => 0,
        }
    }

    /// The step after this one, by whether this one has gone well.
    pub fn next(&self, ok: bool) -> (r: ThumbnailStep)
        ensures
            r == self.following(ok),
    {
        match *self {
            ThumbnailStep::ReadInit => if ok {
                ThumbnailStep::ReadSegment
            } else {
                ThumbnailStep::RemoveSegment
            },
            ThumbnailStep::ReadSegment => if ok {
                ThumbnailStep::WriteCombined
            } else {
                ThumbnailStep::RemoveSegment
            },
            ThumbnailStep::WriteCombined => if ok {
                ThumbnailStep::RunEncoder
            } else {
                ThumbnailStep::RemoveSegment
            },
            ThumbnailStep::RunEncoder => ThumbnailStep::RemoveInputs { encoded: ok },
            ThumbnailStep::RemoveInputs { encoded } => if encoded {
                ThumbnailStep::ReadThumbnail
            } else {
                ThumbnailStep::Done
            },
            ThumbnailStep::ReadThumbnail => if ok {
                ThumbnailStep::UploadThumbnail
            } else {
                ThumbnailStep::Done
            },
            ThumbnailStep::UploadThumbnail => ThumbnailStep::RemoveThumbnail,
            ThumbnailStep::RemoveThumbnail => ThumbnailStep::Done,
            ThumbnailStep::RemoveSegment => ThumbnailStep::Done,
            ThumbnailStep::Done => ThumbnailStep::Done,
        }
    }
}

/// A thumbnail is uploaded on the way that begins at `step`, where `well` says
/// which steps go well.
pub open spec fn uploads_on_way(step: ThumbnailStep, well: spec_fn(ThumbnailStep) -> bool) -> bool
    decreases step.steps_left(),
{
    if step == ThumbnailStep::Done {
        false
    } else {
        step == ThumbnailStep::UploadThumbnail || uploads_on_way(step.following(well(step)), well)
    }
}

/// The media segment is removed on the way that begins at `step`, where `well`
/// says which steps go well.
pub open spec fn removes_on_way(step: ThumbnailStep, well: spec_fn(ThumbnailStep) -> bool) -> bool
    decreases step.steps_left(),
{
    if step == ThumbnailStep::Done {
        false
    } else {
        step is RemoveInputs || step is RemoveSegment || removes_on_way(
            step.following(well(step)),
            well,
        )
    }
}

/// A thumbnail is uploaded exactly where both reads, the write, the encoder and
/// the last read go well; and whatever goes wrong, the media segment is removed.
pub proof fn law_thumbnail_is_uploaded(well: spec_fn(ThumbnailStep) -> bool)
    ensures
        uploads_on_way(ThumbnailStep::ReadInit, well) <==> well(ThumbnailStep::ReadInit) && well(
            ThumbnailStep::ReadSegment,
        ) && well(ThumbnailStep::WriteCombined) && well(ThumbnailStep::RunEncoder) && well(
            ThumbnailStep::ReadThumbnail,
        ),
        removes_on_way(ThumbnailStep::ReadInit, well),
{
    reveal_with_fuel(uploads_on_way, 9);
    reveal_with_fuel(removes_on_way, 9);
}

/// Whatever goes wrong on the way to a thumbnail, the way ends, and the media
/// segment is removed on it: no step but a removal leads from where the segment
/// is there to where it is not.
pub proof fn law_thumbnail_segment_is_removed(step: ThumbnailStep, ok: bool)
    ensures
        step != ThumbnailStep::Done ==> step.following(ok).steps_left() < step.steps_left(),
        step.steps_left() == 0 <==> step == ThumbnailStep::Done,
        step.segment_is_there() && !step.following(ok).segment_is_there() ==> step
            is RemoveInputs || step is RemoveSegment,
        !ThumbnailStep::Done.segment_is_there(),
{
}

/// A segment that comes in ends the playlist, with the duration that was
/// pending for it or one second.
pub proof fn law_newest_segment_ends_playlist(m: WatcherModel, file_name: Seq<char>)
    ensures
        m.segment_seen(file_name).state.segments.last() == (WindowEntry {
            file_name,
            duration: m.next_duration(),
        }),
        m.segment_seen(file_name).pending_duration is None,
{
}

/// A segment that has just come in is not taken again: further events about its
/// file change nothing.
pub proof fn law_segment_is_taken_once(
    m: WatcherModel,
    after: WatcherModel,
    outcome: FileOutcome,
    file_name: Seq<char>,
    data: Seq<u8>,
    durations: Seq<Option<Double>>,
    now: Timestamp,
    later: Timestamp,
)
    requires
        file_kind_of(file_name) == FileKind::Segment,
        m.segment_seen(file_name).steps(after, outcome, file_name, data, durations, now, later),
    ensures
        outcome is Nothing,
        after == m.segment_seen(file_name),
{
    let state = m.state.marked(file_name);
    assert(state.processed.last() == file_name);
    assert(state.processed.contains(file_name));
}

/// `name` is one of the last `count` of the names.
spec fn among_last(names: Seq<Seq<char>>, name: Seq<char>, count: int) -> bool {
    exists|i: int| 0 <= i < names.len() && names.len() - count <= i && #[trigger] names[i] == name
}

proof fn lemma_mark_ages_by_one(
    state: StateModel,
    file_name: Seq<char>,
    other: Seq<char>,
    count: int,
)
    requires
        state.processed.len() <= MAX_PROCESSED,
        among_last(state.processed, file_name, count),
        0 < count < MAX_PROCESSED,
    ensures
        state.marked(other).processed.len() <= MAX_PROCESSED,
        among_last(state.marked(other).processed, file_name, count + 1),
{
    let names = state.processed;
    let rest = names.remove_value(other);
    let more = rest.push(other);
    let kept = newest(more, MAX_PROCESSED as int);
    let gone = more.len() - kept.len();
    names.index_of_first_ensures(other);
    if other == file_name {
        assert(kept[kept.len() - 1] == file_name);
    } else {
        let i = choose|i: int|
            0 <= i < names.len() && names.len() - count <= i && #[trigger] names[i] == file_name;
        let at = match names.index_of_first(other) {
            Some(j) => if j < i {
                i - 1
            } else {
                i
            },
            None => i,
        };
        assert(rest[at] == file_name);
        assert(more[at] == file_name);
        assert(kept[at - gone] == file_name);
    }
}

proof fn lemma_marks_age(
    state: StateModel,
    file_name: Seq<char>,
    later: Seq<Seq<char>>,
)
    requires
        state.processed.len() <= MAX_PROCESSED,
        later.len() < MAX_PROCESSED,
    ensures
        state.marked(file_name).marked_all(later).processed.len() <= MAX_PROCESSED,
        among_last(
            state.marked(file_name).marked_all(later).processed,
            file_name,
            later.len() as int + 1,
        ),
    decreases later.len(),
{
    let first = state.marked(file_name);
    if later.len() == 0 {
        state.processed.index_of_first_ensures(file_name);
        assert(first.processed[first.processed.len() - 1] == file_name);
    } else {
        lemma_marks_age(state, file_name, later.drop_last());
        lemma_mark_ages_by_one(
            first.marked_all(later.drop_last()),
            file_name,
            later.last(),
            later.len() as int,
        );
    }
}

/// A segment is on record as seen as long as fewer than [`MAX_PROCESSED`]
/// further ones have been recorded.
pub proof fn law_latest_stay_on_record(
    state: StateModel,
    file_name: Seq<char>,
    later: Seq<Seq<char>>,
)
    requires
        state.processed.len() <= MAX_PROCESSED,
        later.len() < MAX_PROCESSED,
    ensures
        state.marked(file_name).marked_all(later).processed.contains(file_name),
{
    lemma_marks_age(state, file_name, later);
    let names = state.marked(file_name).marked_all(later).processed;
    let i = choose|i: int|
        0 <= i < names.len() && names.len() - (later.len() + 1) <= i && #[trigger] names[i]
            == file_name;
    assert(names[i] == file_name);
}

/// No thumbnail is taken of the first segment, and one is taken of the second
/// wherever thumbnails are taken at all.
pub proof fn law_first_segment_is_skipped(config: ThumbnailConfig)
    ensures
        !takes_thumbnail(config, 1),
        takes_thumbnail(config, 2) == config.enabled,
{
}

/// The initialisation segment is sent once: after it has been sent, no file
/// leads to another upload of it.
pub proof fn law_init_is_sent_once(
    m: WatcherModel,
    after: WatcherModel,
    outcome: FileOutcome,
    file_name: Seq<char>,
    data: Seq<u8>,
    durations: Seq<Option<Double>>,
    now: Timestamp,
    later: Timestamp,
)
    requires
        m.state.init_uploaded,
        m.steps(after, outcome, file_name, data, durations, now, later),
    ensures
        outcome !is Init,
        after.state.init_uploaded,
{
}

/// The newest items are the last ones: as many as asked for, or all where there
/// are no more, in their order.
pub proof fn law_newest_are_last<T>(items: Seq<T>, count: int)
    requires
        0 <= count,
    ensures
        newest(items, count).len() == (if items.len() <= count {
            items.len() as int
        } else {
            count
        }),
        forall|i: int|
            0 <= i < newest(items, count).len() ==> #[trigger] newest(items, count)[i]
                == items[items.len() - newest(items, count).len() + i],
{
}

/// A segment that comes in stands at the end of the playlist with its duration.
/// The ten segments that came last are in the playlist, in the order in which
/// they came, and its sequence number counts the others.
pub proof fn law_playlist_holds_last_ten(m: StateModel, file_name: Seq<char>, duration: Double)
    requires
        m.segments.len() <= 10,
    ensures
        ({
            let after = m.added(file_name, duration);
            let n = after.segments.len() as int;
            let gone = m.segments.len() + 1 - n;
            &&& after.segments.last().file_name == file_name
            &&& after.segments.last().duration == duration
            &&& n == (if m.segments.len() < 10 {
                m.segments.len() + 1
            } else {
                10
            })
            &&& forall|i: int|
                0 <= i < n - 1 ==> #[trigger] after.segments[i] == m.segments[i + gone]
            &&& after.media_sequence == m.media_sequence + gone
            &&& after.segment_count == m.segment_count + 1
            &&& after.init_uploaded == m.init_uploaded
            &&& after.processed == m.processed
        }),
{
}

/// A segment that is recorded as seen is the newest on the record, which keeps
/// the others, all but the oldest where it would hold more than twenty, and
/// nothing that was not on it.
pub proof fn law_record_keeps_last_twenty(m: StateModel, file_name: Seq<char>, other: Seq<char>)
    requires
        m.processed.len() <= 20,
    ensures
        ({
            let after = m.marked(file_name);
            &&& after.processed.last() == file_name
            &&& after.processed.len() <= 20
            &&& after.processed.contains(other) ==> other == file_name || m.processed.contains(other)
            &&& m.processed.len() < 20 && m.processed.contains(other) ==> after.processed.contains(
                other,
            )
            &&& after.segments == m.segments
            &&& after.media_sequence == m.media_sequence
            &&& after.segment_count == m.segment_count
            &&& after.init_uploaded == m.init_uploaded
        }),
{
    let names = m.processed;
    let rest = names.remove_value(file_name);
    let more = rest.push(file_name);
    let kept = m.marked(file_name).processed;
    names.index_of_first_ensures(file_name);
    let at = match names.index_of_first(file_name) {
        Some(j) => j,
        None => names.len() as int,
    };
    assert forall|i: int| 0 <= i < rest.len() implies #[trigger] rest[i] == (if i < at {
        names[i]
    } else {
        names[i + 1]
    }) by {}
    let gone = more.len() - kept.len();
    if kept.contains(other) {
        let i = choose|i: int| 0 <= i < kept.len() && kept[i] == other;
        assert(kept[i] == more[i + gone]);
        if i + gone < rest.len() {
            let k = if i + gone < at {
                i + gone
            } else {
                i + gone + 1
            };
            assert(rest[i + gone] == names[k]);
        }
    }
    if names.len() < 20 && names.contains(other) {
        assert(kept =~= more);
        let i = choose|i: int| 0 <= i < names.len() && names[i] == other;
        if other == file_name {
            assert(kept[kept.len() - 1] == other);
        } else {
            let k = if i < at {
                i
            } else {
                i - 1
            };
            assert(rest[k] == names[i]);
            assert(kept[k] == other);
        }
    }
}

/// The text of the playlist names its version, its sequence number and the
/// initialisation segment, and grows by two lines with each segment: how long it
/// lasts and its file.
pub proof fn law_playlist_text_grows(m: StateModel, entries: Seq<WindowEntry>, e: WindowEntry)
    requires
        0 <= m.media_sequence,
    ensures
        ({
            let none = window_text(StateModel { segments: Seq::empty(), ..m });
            let top = "#EXTM3U\n#EXT-X-VERSION:7\n#EXT-X-TARGETDURATION:1\n#EXT-X-MEDIA-SEQUENCE:"@;
            let end = "\n#EXT-X-MAP:URI=\"init.mp4\"\n\n"@;
            let n = top.len() as int;
            let k = none.len() - end.len();
            &&& none.take(n) == top
            &&& digits_value(none.subrange(n, k)) == m.media_sequence
            &&& none.skip(k) == end
        }),
        window_text(StateModel { segments: entries.push(e), ..m }) == window_text(
            StateModel { segments: entries, ..m },
        ) + ("#EXTINF:"@ + e.duration.three_decimals() + ","@ + seq!['\n'] + e.file_name
            + seq!['\n']),
{
    let none = window_text(StateModel { segments: Seq::empty(), ..m });
    let top = "#EXTM3U\n#EXT-X-VERSION:7\n#EXT-X-TARGETDURATION:1\n#EXT-X-MEDIA-SEQUENCE:"@;
    let end = "\n#EXT-X-MAP:URI=\"init.mp4\"\n\n"@;
    let n = top.len() as int;
    let k = none.len() - end.len();
    lemma_dec_reads_back(m.media_sequence as nat);
    assert(none =~= top + dec(m.media_sequence as nat) + end);
    assert(none.take(n) =~= top);
    assert(none.subrange(n, k) =~= dec(m.media_sequence as nat));
    assert(none.skip(k) =~= end);
    reveal_strlit(",\n");
    reveal_strlit(",");
    reveal_strlit("\n");
    assert(",\n"@ =~= ","@ + seq!['\n']);
    assert("\n"@ =~= seq!['\n']);
    assert(entries.push(e).drop_last() =~= entries);
    let own = "#EXTINF:"@ + e.duration.three_decimals() + ","@ + seq!['\n'] + e.file_name
        + seq!['\n'];
    assert(entry_lines(e) =~= own);
    assert(window_text(StateModel { segments: entries.push(e), ..m }) =~= window_text(
        StateModel { segments: entries, ..m },
    ) + own);
}

/// The number of an `#EXTINF` line is what stands between the tag and the first
/// comma, however often the tag is repeated; another line has none.
pub proof fn law_extinf_number_is_read(number: Seq<char>, rest: Seq<char>, line: Seq<char>)
    requires
        !number.contains(','),
        number.len() == 0 || number[0] != '#',
    ensures
        extinf_number_of("#EXTINF:"@ + number + ","@ + rest) == Some(number),
        extinf_number_of("#EXTINF:"@ + number) == Some(number),
        !has_prefix(line, "#EXTINF:"@) ==> extinf_number_of(line) is None,
        has_prefix(line, "#EXTINF:"@) ==> extinf_number_of("#EXTINF:"@ + line) == extinf_number_of(line),
{
    let tag = "#EXTINF:"@;
    reveal_strlit("#EXTINF:");
    reveal_strlit(",");
    text::law_copies_come_off(line, tag);
    text::law_beginning_and_end(line, tag, line);
    let more = number + ","@ + rest;
    let a = tag + more;
    assert(a =~= tag + number + ","@ + rest);
    lemma_tag_once(more);
    lemma_tag_once(number);
    assert forall|i: int| 0 <= i < number.len() implies #[trigger] more[i] != ',' && number[i] != ',' by {
        assert(more[i] == number[i]);
        assert(number.contains(number[i]));
    }
    text::lemma_first_pos_is(more, ',', number.len() as int);
    text::lemma_first_pos_is(number, ',', number.len() as int);
    assert(more.take(number.len() as int) =~= number);
    assert(number.take(number.len() as int) =~= number);
}

/// The tag comes off once, where what follows does not begin with it.
proof fn lemma_tag_once(s: Seq<char>)
    requires
        s.len() > 0 ==> s[0] != '#',
    ensures
        has_prefix("#EXTINF:"@ + s, "#EXTINF:"@),
        trim_start("#EXTINF:"@ + s, "#EXTINF:"@) == s,
{
    let tag = "#EXTINF:"@;
    reveal_strlit("#EXTINF:");
    let whole = tag + s;
    assert(whole.take(tag.len() as int) =~= tag);
    assert(whole.skip(tag.len() as int) =~= s);
    if has_prefix(s, tag) {
        assert(s.take(tag.len() as int)[0] == s[0]);
    }
    assert(trim_start(s, tag) == s);
}

/// The numbers of a playlist are those of its lines, in their order: a further
/// line adds its own at the end, where it has one.
pub proof fn law_numbers_follow_lines(ls: Seq<Seq<char>>, line: Seq<char>)
    ensures
        extinf_numbers_of(Seq::empty()).len() == 0,
        extinf_number_of(line) is None ==> extinf_numbers_of(ls.push(line)) == extinf_numbers_of(ls),
        extinf_number_of(line) matches Some(number) ==> extinf_numbers_of(ls.push(line))
            == extinf_numbers_of(ls).push(number),
{
    assert(ls.push(line).drop_last() =~= ls);
}

/// The duration that a segment gets is the last one that could be read; one that
/// could not be read is passed over.
pub proof fn law_last_duration_counts(
    pending: Option<Double>,
    durations: Seq<Option<Double>>,
    d: Double,
)
    ensures
        latest(pending, Seq::empty()) == pending,
        latest(pending, durations.push(Some(d))) == Some(d),
        latest(pending, durations.push(None)) == latest(pending, durations),
{
    assert(durations.push(Some(d)).drop_last() =~= durations);
    assert(durations.push(None).drop_last() =~= durations);
}

/// What a file is, by its name: one that ends in `.tmp` is being written still,
/// two names are those of the playlist and of the initialisation segment, every
/// other one that ends in `.m4s` is a segment, and no other file is.
pub proof fn law_file_kinds(stem: Seq<char>, name: Seq<char>)
    ensures
        file_kind_of(stem + ".tmp"@) is Temporary,
        file_kind_of(stem + ".m4s"@) is Segment,
        file_kind_of("playlist.m3u8"@) is Playlist,
        file_kind_of("init.mp4"@) is Init,
        file_kind_of(name) is Temporary ==> has_suffix(name, ".tmp"@),
        file_kind_of(name) is Segment ==> has_suffix(name, ".m4s"@),
        file_kind_of(name) is Playlist ==> name == "playlist.m3u8"@,
        file_kind_of(name) is Init ==> name == "init.mp4"@,
{
    reveal_strlit(".tmp");
    reveal_strlit(".m4s");
    reveal_strlit("playlist.m3u8");
    reveal_strlit("init.mp4");
    let t = stem + ".tmp"@;
    assert(t.skip(t.len() - 4) =~= ".tmp"@);
    let s = stem + ".m4s"@;
    assert(s.skip(s.len() - 4) =~= ".m4s"@);
    assert(s.last() == 's');
    lemma_ends_in(s, ".tmp"@);
    assert("playlist.m3u8"@.last() == '8');
    assert("init.mp4"@.last() == '4');
    lemma_ends_in("playlist.m3u8"@, ".tmp"@);
    lemma_ends_in("init.mp4"@, ".tmp"@);
}

/// A text that ends in another ends in the last character of that.
proof fn lemma_ends_in(s: Seq<char>, p: Seq<char>)
    requires
        p.len() > 0,
    ensures
        has_suffix(s, p) ==> s.last() == p.last(),
{
    if has_suffix(s, p) {
        assert(s.skip(s.len() - p.len()).last() == s.last());
    }
}

/// Thumbnails are taken of no segment where they are switched off. Where they
/// are on, one is taken of the second segment and of every segment whose count is
/// a multiple of the interval, but never of the first.
pub proof fn law_thumbnails_at_intervals(config: ThumbnailConfig, count: int, times: int)
    requires
        config.interval_seconds > 0,
    ensures
        !config.enabled ==> !takes_thumbnail(config, count),
        config.enabled && times * config.interval_seconds != 1 ==> takes_thumbnail(
            config,
            times * config.interval_seconds,
        ),
        takes_thumbnail(config, count) && count != 2 ==> count % config.interval_seconds as int == 0,
        !takes_thumbnail(config, 1),
        takes_thumbnail(config, 2) == config.enabled,
{
    vstd::arithmetic::div_mod::lemma_mod_multiples_basic(times, config.interval_seconds as int);
}

/// What a segment that is not on record leads to: its own upload with its data,
/// then that of the playlist as it then is, which ends in the segment with the
/// duration that was pending or a second. The pending duration is used up, the
/// segment is on record, and one more is counted.
pub proof fn law_segment_is_uploaded_then_listed(
    m: WatcherModel,
    after: WatcherModel,
    outcome: FileOutcome,
    stem: Seq<char>,
    data: Seq<u8>,
    durations: Seq<Option<Double>>,
    now: Timestamp,
    later: Timestamp,
)
    requires
        m.state.segments.len() <= 10,
        m.state.processed.len() <= 20,
        !m.state.processed.contains(stem + ".m4s"@),
        m.steps(after, outcome, stem + ".m4s"@, data, durations, now, later),
    ensures
        ({
            let name = stem + ".m4s"@;
            &&& outcome matches FileOutcome::Segment { upload, playlist, thumbnail }
            &&& upload.stream_name@ == m.stream_name
            &&& upload.file_name@ == name
            &&& upload.data@ == data
            &&& upload.content_type@ == "video/iso.segment"@
            &&& upload.priority == 150
            &&& upload.created_at == now
            &&& playlist.stream_name@ == m.stream_name
            &&& playlist.file_name@ == "playlist.m3u8"@
            &&& playlist.data@ == encode_utf8(window_text(after.state))
            &&& playlist.content_type@ == "application/vnd.apple.mpegurl"@
            &&& playlist.priority == 200
            &&& playlist.created_at == later
            &&& thumbnail == takes_thumbnail(m.thumbnail, after.state.segment_count)
            &&& after.state.segments.last().file_name == name
            &&& m.pending_duration matches Some(d) ==> after.state.segments.last().duration == d
            &&& m.pending_duration is None ==> after.state.segments.last().duration
                == Double::whole(1)
            &&& after.pending_duration is None
            &&& after.state.processed.contains(name)
            &&& after.state.segment_count == m.state.segment_count + 1
            &&& after.state.init_uploaded == m.state.init_uploaded
            &&& after.stream_name == m.stream_name
            &&& after.thumbnail == m.thumbnail
        }),
{
    let name = stem + ".m4s"@;
    law_file_kinds(stem, name);
    law_named_numbers();
    law_record_keeps_last_twenty(m.state, name, name);
    law_playlist_holds_last_ten(m.state.marked(name), name, m.next_duration());
    let seen = m.state.marked(name).processed;
    assert(seen[seen.len() - 1] == name);
}

/// What the other files lead to: the initialisation segment is uploaded the
/// first time, the encoder's playlist is read for its durations, and nothing is
/// done about any other file.
pub proof fn law_other_files(
    m: WatcherModel,
    after: WatcherModel,
    outcome: FileOutcome,
    name: Seq<char>,
    data: Seq<u8>,
    durations: Seq<Option<Double>>,
    now: Timestamp,
    later: Timestamp,
)
    requires
        m.steps(after, outcome, name, data, durations, now, later),
    ensures
        name == "init.mp4"@ && !m.state.init_uploaded ==> {
            &&& outcome matches FileOutcome::Init { upload }
            &&& upload.stream_name@ == m.stream_name
            &&& upload.file_name@ == "init.mp4"@
            &&& upload.data@ == data
            &&& upload.content_type@ == "video/mp4"@
            &&& upload.priority == 255
            &&& upload.created_at == now
            &&& after.state.init_uploaded
            &&& after.state.segments == m.state.segments
            &&& after.state.segment_count == m.state.segment_count
            &&& after.pending_duration == m.pending_duration
        },
        name == "init.mp4"@ && m.state.init_uploaded ==> outcome is Nothing && after == m,
        name == "playlist.m3u8"@ ==> outcome is Nothing && after.state == m.state
            && after.pending_duration == latest(m.pending_duration, durations),
        name != "init.mp4"@ && name != "playlist.m3u8"@ && !has_suffix(name, ".m4s"@) ==> outcome
            is Nothing && after == m,
        has_suffix(name, ".tmp"@) ==> outcome is Nothing && after == m,
{
    law_file_kinds(name, name);
}

/// The encoder makes the thumbnail from one frame of the media that were put
/// together, in the size and quality that were configured, beside them.
#[verifier::rlimit(30)]
pub proof fn law_thumbnail_args(watch_dir: Seq<char>, config: ThumbnailConfig)
    ensures
        ({
            let args = thumbnail_args_of(watch_dir, config);
            let n = "scale="@.len() as int;
            let size = args[4].skip(n);
            let p = dec(config.width as nat).len() as int;
            &&& args.len() == 10
            &&& args[0] == "-y"@
            &&& args[1] == "-i"@ && args[2] == watch_dir + "/combined.mp4"@
            &&& args[3] == "-vf"@ && args[4].take(n) == "scale="@
            &&& digits_value(size.take(p)) == config.width && size[p] == ':'
            &&& digits_value(size.skip(p + 1)) == config.height
            &&& args[5] == "-vframes"@ && args[6] == "1"@
            &&& args[7] == "-q:v"@ && digits_value(args[8]) == config.quality
            &&& args[9] == watch_dir + "/thumbnail.jpg"@
        }),
{
    let args = thumbnail_args_of(watch_dir, config);
    let n = "scale="@.len() as int;
    reveal_strlit(":");
    let w = dec(config.width as nat);
    let h = dec(config.height as nat);
    lemma_dec_reads_back(config.width as nat);
    lemma_dec_reads_back(config.height as nat);
    lemma_dec_reads_back(config.quality as nat);
    assert(args[4].take(n) =~= "scale="@);
    assert(args[4].skip(n) =~= w + ":"@ + h);
    assert((w + ":"@ + h).take(w.len() as int) =~= w);
    assert((w + ":"@ + h).skip(w.len() as int + 1) =~= h);
}

/// A thumbnail is uploaded as the picture it is, after the media.
pub proof fn law_thumbnail_upload(stream_name: Seq<char>, data: Seq<u8>, now: Timestamp)
    ensures
        ({
            let upload = thumbnail_segment(stream_name, data, now);
            &&& upload.stream_name == stream_name
            &&& upload.file_name == "thumbnail.jpg"@
            &&& upload.data == data
            &&& upload.content_type == "image/jpeg"@
            &&& upload.priority < 150
            &&& upload.priority == 50
            &&& upload.created_at == now
        }),
{
}

/// A watch begins with no segment in the playlist, none counted and none on
/// record, from the sequence number zero, before the initialisation segment has
/// been sent.
pub proof fn law_watch_begins_empty()
    ensures
        ({
            let m = StateModel::fresh();
            &&& m.segments.len() == 0
            &&& m.media_sequence == m.segment_count == 0
            &&& m.processed.len() == 0
            &&& !m.init_uploaded
        }),
{
}

} // verus!
