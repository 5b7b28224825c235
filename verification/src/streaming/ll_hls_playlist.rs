//! Low-latency HLS media playlists: a sliding window of segments, the parts of
//! each, and the playlist text that announces them.

use crate::float::{law_named_numbers, law_three_times_one, Double, FOUR, ONE, THREE};
use crate::number::{dec, decimal, decimal_signed, parse_signed, parse_unsigned};
use crate::number::{all_digits, dec_int, digits_value, read_signed, read_unsigned};
use crate::number::{lemma_dec_reads_back, lemma_read_signed_dec, lemma_read_unsigned_dec};
use crate::text::{has_prefix, split, texts, trim_end};
use crate::text;
use crate::time::Timestamp;
use crate::writer::{concat, lemma_concat_step, one_line};
use crate::writer;
use std::collections::VecDeque;
use vstd::arithmetic::power2::pow2;
use vstd::prelude::*;

verus! {

/// Generator of the media playlist of one rendition of a stream.
#[derive(Debug)]
pub struct LLHlsPlaylistGenerator {
    /// Name of the stream.
    stream_name: String,
    /// URL of the bucket.
    base_url: String,
    /// Target duration of a segment.
    target_duration: Double,
    /// Target duration of a part.
    part_target: Double,
    /// Distance from the live edge at which a client plays parts.
    part_hold_back: Double,
    /// Sequence number of the first segment in the window.
    media_sequence: u64,
    /// Discontinuity sequence number.
    discontinuity_sequence: u64,
    /// Start of the stream.
    start_date: Timestamp,
    /// The window of segments.
    segments: VecDeque<LLHlsSegment>,
    /// The number of segments that the window keeps beside the newest.
    max_segments: usize,
    /// File name of the initialisation segment.
    init_segment: Option<String>,
    /// Name of the rendition, such as `1080p`.
    quality_name: String,
    /// Bit rate in bits per second.
    bitrate: u64,
}

/// A segment.
#[derive(Clone, Debug)]
pub struct LLHlsSegment {
    /// Sequence number.
    pub sequence: u64,
    /// Duration.
    pub duration: Double,
    /// File name.
    pub filename: String,
    /// Wall-clock time of the start.
    pub program_date_time: Timestamp,
    /// Parts.
    pub parts: Vec<LLHlsPart>,
    /// Bit rate in bits per second.
    pub bitrate: u64,
    /// Whether all parts are there.
    pub is_complete: bool,
}

/// A part of a segment.
#[derive(Clone, Debug)]
pub struct LLHlsPart {
    /// Index in the segment.
    pub index: usize,
    /// Duration.
    pub duration: Double,
    /// File name.
    pub filename: String,
    /// Whether the part can be decoded on its own.
    pub independent: bool,
}

/// How far another rendition has come.
#[derive(Clone, Debug)]
pub struct RenditionReport {
    /// Relative URI.
    pub uri: String,
    /// Last media sequence number.
    pub last_msn: u64,
    /// Last part index.
    pub last_part: usize,
}

/// What a part is.
#[verifier::ext_equal]
pub struct PartModel {
    pub index: usize,
    pub duration: Double,
    pub filename: Seq<char>,
    pub independent: bool,
}

/// What a segment is.
#[verifier::ext_equal]
pub struct SegmentModel {
    pub sequence: u64,
    pub duration: Double,
    pub filename: Seq<char>,
    pub program_date_time: Timestamp,
    pub parts: Seq<PartModel>,
    pub bitrate: u64,
    pub is_complete: bool,
}

/// What a generator holds.
#[verifier::ext_equal]
pub struct GeneratorModel {
    pub stream_name: Seq<char>,
    pub base_url: Seq<char>,
    pub target_duration: Double,
    pub part_target: Double,
    pub part_hold_back: Double,
    pub media_sequence: u64,
    pub discontinuity_sequence: u64,
    pub start_date: Timestamp,
    pub segments: Seq<SegmentModel>,
    pub max_segments: usize,
    pub init_segment: Option<Seq<char>>,
    pub quality_name: Seq<char>,
    pub bitrate: u64,
}

impl View for LLHlsPart {
    type V = PartModel;

    open spec fn view(&self) -> PartModel {
        PartModel {
            index: self.index,
            duration: self.duration,
            filename: self.filename@,
            independent: self.independent,
        }
    }
}

/// The views of a sequence of parts.
pub open spec fn part_models(parts: Seq<LLHlsPart>) -> Seq<PartModel> {
    parts.map_values(|p: LLHlsPart| p@)
}

/// The views of a sequence of segments.
pub open spec fn segment_models(segments: Seq<LLHlsSegment>) -> Seq<SegmentModel> {
    segments.map_values(|s: LLHlsSegment| s@)
}

/// The view of an optional text.
pub open spec fn text_of(s: Option<String>) -> Option<Seq<char>> {
    match s {
        Some(t) => Some(t@),
        None => None,
    }
}

impl View for LLHlsSegment {
    type V = SegmentModel;

    open spec fn view(&self) -> SegmentModel {
        SegmentModel {
            sequence: self.sequence,
            duration: self.duration,
            filename: self.filename@,
            program_date_time: self.program_date_time,
            parts: part_models(self.parts@),
            bitrate: self.bitrate,
            is_complete: self.is_complete,
        }
    }
}

impl View for LLHlsPlaylistGenerator {
    type V = GeneratorModel;

    closed spec fn view(&self) -> GeneratorModel {
        GeneratorModel {
            stream_name: self.stream_name@,
            base_url: self.base_url@,
            target_duration: self.target_duration,
            part_target: self.part_target,
            part_hold_back: self.part_hold_back,
            media_sequence: self.media_sequence,
            discontinuity_sequence: self.discontinuity_sequence,
            start_date: self.start_date,
            segments: segment_models(self.segments@),
            max_segments: self.max_segments,
            init_segment: text_of(self.init_segment),
            quality_name: self.quality_name@,
            bitrate: self.bitrate,
        }
    }
}

impl GeneratorModel {
    /// The sequence number that the next segment gets.
    pub open spec fn next_sequence(self) -> int {
        self.media_sequence + self.segments.len()
    }

    /// A generator with no segments and the standard timing.
    pub open spec fn fresh(
        stream_name: Seq<char>,
        base_url: Seq<char>,
        quality_name: Seq<char>,
        bitrate: u64,
        now: Timestamp,
    ) -> GeneratorModel {
        GeneratorModel {
            stream_name,
            base_url,
            target_duration: Double { bits: FOUR },
            part_target: Double { bits: ONE },
            part_hold_back: Double { bits: THREE },
            media_sequence: 0,
            discontinuity_sequence: 0,
            start_date: now,
            segments: Seq::empty(),
            max_segments: 10,
            init_segment: None,
            quality_name,
            bitrate,
        }
    }

    /// The segment that starts at `now`.
    pub open spec fn new_segment(self, now: Timestamp) -> SegmentModel {
        SegmentModel {
            sequence: self.next_sequence() as u64,
            duration: Double { bits: 0 },
            filename: Seq::empty(),
            program_date_time: now,
            parts: Seq::empty(),
            bitrate: self.bitrate,
            is_complete: false,
        }
    }

    /// How many of the oldest segments leave when one more is added.
    pub open spec fn overflow(self) -> int {
        if self.segments.len() > self.max_segments {
            self.segments.len() - self.max_segments
        } else {
            0
        }
    }

    /// The generator after a segment has started at `now`: the segment stands
    /// at the end, and the oldest leave until the window holds at most
    /// `max_segments` beside it.
    pub open spec fn started(self, now: Timestamp) -> GeneratorModel {
        GeneratorModel {
            segments: self.segments.push(self.new_segment(now)).skip(self.overflow()),
            media_sequence: (self.media_sequence + self.overflow()) as u64,
            ..self
        }
    }

    /// The generator after a part has come to the newest segment; without a
    /// segment nothing changes.
    pub open spec fn with_part(self, part: PartModel) -> GeneratorModel {
        if self.segments.len() == 0 {
            self
        } else {
            let last = self.segments.last();
            GeneratorModel {
                segments: self.segments.drop_last().push(
                    SegmentModel {
                        duration: last.duration.sum(part.duration),
                        parts: last.parts.push(part),
                        ..last
                    },
                ),
                ..self
            }
        }
    }

    /// The generator after the newest segment has been completed; without a
    /// segment nothing changes.
    pub open spec fn completed(
        self,
        filename: Seq<char>,
        total_duration: Double,
        bitrate: u64,
    ) -> GeneratorModel {
        if self.segments.len() == 0 {
            self
        } else {
            GeneratorModel {
                segments: self.segments.drop_last().push(
                    SegmentModel {
                        filename,
                        duration: total_duration,
                        bitrate,
                        is_complete: true,
                        ..self.segments.last()
                    },
                ),
                ..self
            }
        }
    }

    /// The segments are numbered one after the other from `media_sequence` on.
    pub open spec fn numbered(self) -> bool {
        forall|i: int|
            0 <= i < self.segments.len() ==> (#[trigger] self.segments[i]).sequence
                == self.media_sequence + i
    }

    /// Index of the newest part of the newest segment, or zero.
    pub open spec fn part_index(self) -> int {
        if self.segments.len() == 0 || self.segments.last().parts.len() == 0 {
            0
        } else {
            self.segments.last().parts.len() - 1
        }
    }

    /// The number of parts of the newest segment.
    pub open spec fn part_count(self) -> nat {
        if self.segments.len() == 0 {
            0
        } else {
            self.segments.last().parts.len()
        }
    }

    /// Sequence number of the newest segment.
    pub open spec fn current_sequence(self) -> int {
        if self.segments.len() == 0 {
            self.media_sequence as int
        } else {
            self.media_sequence + self.segments.len() - 1
        }
    }
}

/// A line that holds a tag and its value.
pub open spec fn line(tag: Seq<char>, value: Seq<char>) -> Seq<char> {
    tag + value + "\n"@
}

/// A line that holds a tag and its value in quotation marks.
pub open spec fn quoted_line(tag: Seq<char>, value: Seq<char>) -> Seq<char> {
    tag + value + "\"\n"@
}

/// The head of a media playlist.
pub open spec fn head_text(m: GeneratorModel) -> Seq<char> {
    "#EXTM3U\n"@ + "#EXT-X-VERSION:10\n"@ + "#EXT-X-INDEPENDENT-SEGMENTS\n"@ + line(
        "#EXT-X-TARGETDURATION:"@,
        dec(m.target_duration.rounded_up() as nat),
    ) + line(
        "#EXT-X-SERVER-CONTROL:CAN-BLOCK-RELOAD=YES,PART-HOLD-BACK="@,
        m.part_hold_back.six_decimals(),
    ) + line("#EXT-X-PART-INF:PART-TARGET="@, m.part_target.six_decimals()) + line(
        "#EXT-X-MEDIA-SEQUENCE:"@,
        dec(m.media_sequence as nat),
    ) + line("#EXT-X-DISCONTINUITY-SEQUENCE:"@, dec(m.discontinuity_sequence as nat)) + quoted_line(
        "#EXT-X-DATERANGE:ID=\"stream-start\",START-DATE=\""@,
        m.start_date.millis_text(),
    ) + "\n"@
}

/// The line that announces the initialisation segment.
pub open spec fn init_text(init: Option<Seq<char>>) -> Seq<char> {
    match init {
        Some(name) => quoted_line("#EXT-X-MAP:URI=\""@, name),
        None => Seq::empty(),
    }
}

/// What announces a part.
pub open spec fn part_entry(p: PartModel) -> Seq<char> {
    "#EXT-X-PART:DURATION="@ + p.duration.six_decimals() + ",URI=\""@ + p.filename + "\""@
        + independence(p.independent)
}

/// The line that announces a part.
pub open spec fn part_line(p: PartModel) -> Seq<char> {
    part_entry(p) + "\n"@
}

/// The attribute of a part that can be played on its own; another has none.
pub open spec fn independence(independent: bool) -> Seq<char> {
    if independent {
        ",INDEPENDENT=YES"@
    } else {
        Seq::empty()
    }
}

/// Gives each part its line.
pub open spec fn part_liner() -> spec_fn(PartModel) -> Seq<char> {
    |p: PartModel| part_line(p)
}

/// The file name of a part.
pub open spec fn part_name(m: GeneratorModel, sequence: nat, index: nat) -> Seq<char> {
    segment_name(m, sequence) + "_"@ + dec(index)
}

/// The file name of a segment.
pub open spec fn segment_name(m: GeneratorModel, sequence: nat) -> Seq<char> {
    m.quality_name + "_"@ + m.stream_name + "_"@ + dec(sequence)
}

/// What follows the parts of a segment: for a complete one its duration and
/// name, for one in progress with parts a hint of the part that comes next.
pub open spec fn segment_tail(m: GeneratorModel, s: SegmentModel) -> Seq<char> {
    if s.is_complete {
        "#EXTINF:"@ + s.duration.six_decimals() + ",\n"@ + s.filename + "\n"@
    } else if s.parts.len() > 0 {
        quoted_line(
            "#EXT-X-PRELOAD-HINT:TYPE=PART,URI=\""@,
            part_name(m, s.sequence as nat, s.parts.len()),
        )
    } else {
        Seq::empty()
    }
}

/// The lines of a segment.
pub open spec fn segment_text(m: GeneratorModel, s: SegmentModel) -> Seq<char> {
    line("#EXT-X-PROGRAM-DATE-TIME:"@, s.program_date_time.millis_text()) + concat(
        s.parts,
        part_liner(),
    ) + segment_tail(m, s)
}

/// Gives each segment its lines.
pub open spec fn segment_texter(m: GeneratorModel) -> spec_fn(SegmentModel) -> Seq<char> {
    |s: SegmentModel| segment_text(m, s)
}

/// What a rendition report says.
pub open spec fn report_entry(r: RenditionReport) -> Seq<char> {
    "#EXT-X-RENDITION-REPORT:URI=\""@ + r.uri@ + "\",LAST-MSN="@ + dec(r.last_msn as nat)
        + ",LAST-PART="@ + dec(r.last_part as nat)
}

/// The line of a rendition report.
pub open spec fn report_line(r: RenditionReport) -> Seq<char> {
    report_entry(r) + "\n"@
}

/// Gives each rendition report its line.
pub open spec fn report_liner() -> spec_fn(RenditionReport) -> Seq<char> {
    |r: RenditionReport| report_line(r)
}

/// The media playlist of a generator: head, initialisation segment, segments
/// from the oldest to the newest, and the reports on other renditions.
pub open spec fn media_playlist_text(
    m: GeneratorModel,
    reports: Seq<RenditionReport>,
) -> Seq<char> {
    head_text(m) + init_text(m.init_segment) + concat(m.segments, segment_texter(m)) + concat(
        reports,
        report_liner(),
    )
}

/// The dates that a playlist gives hold no line feed.
pub open spec fn dates_are_plain(m: GeneratorModel) -> bool {
    &&& one_line(m.start_date.millis_text())
    &&& forall|i: int|
        0 <= i < m.segments.len() ==> one_line(
            (#[trigger] m.segments[i]).program_date_time.millis_text(),
        )
}

/// A media playlist as data: the complete segments of the window.
#[derive(Clone, Debug)]
pub struct MediaPlaylist {
    pub version: Option<usize>,
    pub target_duration: u64,
    pub media_sequence: u64,
    pub discontinuity_sequence: u64,
    pub end_list: bool,
    pub i_frames_only: bool,
    pub independent_segments: bool,
    pub segments: Vec<MediaSegment>,
}

/// A segment of a [`MediaPlaylist`]; its duration is of single precision.
#[derive(Clone, Debug)]
pub struct MediaSegment {
    pub uri: String,
    pub duration: Double,
    pub discontinuity: bool,
    pub program_date_time: Timestamp,
}

/// What a [`MediaSegment`] says.
#[verifier::ext_equal]
pub struct MediaSegmentModel {
    pub uri: Seq<char>,
    pub duration: Double,
    pub discontinuity: bool,
    pub program_date_time: Timestamp,
}

impl View for MediaSegment {
    type V = MediaSegmentModel;

    open spec fn view(&self) -> MediaSegmentModel {
        MediaSegmentModel {
            uri: self.uri@,
            duration: self.duration,
            discontinuity: self.discontinuity,
            program_date_time: self.program_date_time,
        }
    }
}

/// The entry of a segment in a [`MediaPlaylist`].
pub open spec fn media_entry(s: SegmentModel) -> MediaSegmentModel {
    MediaSegmentModel {
        uri: s.filename + "?type=hls&bitrate="@ + dec(s.bitrate as nat) + "&filetype=.m4v"@,
        duration: s.duration.single(),
        discontinuity: false,
        program_date_time: s.program_date_time,
    }
}

/// The entries of the complete segments among `segments`, in their order.
pub open spec fn media_entries(segments: Seq<SegmentModel>) -> Seq<MediaSegmentModel>
    decreases segments.len(),
{
    if segments.len() == 0 {
        Seq::empty()
    } else {
        let rest = media_entries(segments.drop_last());
        if segments.last().is_complete {
            rest.push(media_entry(segments.last()))
        } else {
            rest
        }
    }
}

impl LLHlsPlaylistGenerator {
    /// A generator for a stream that starts now.
    pub fn new(
        stream_name: String,
        base_url: String,
        quality_name: String,
        bitrate: u64,
    ) -> (r: Self)
        ensures
            exists|now: Timestamp|
                r@ == GeneratorModel::fresh(stream_name@, base_url@, quality_name@, bitrate, now),
            r@.numbered(),
    {
        let now = Timestamp::now();
        Self::new_at(stream_name, base_url, quality_name, bitrate, now)
    }

    /// A generator for a stream that starts at `now`.
    pub fn new_at(
        stream_name: String,
        base_url: String,
        quality_name: String,
        bitrate: u64,
        now: Timestamp,
    ) -> (r: Self)
        ensures
            r@ == GeneratorModel::fresh(stream_name@, base_url@, quality_name@, bitrate, now),
            r@.numbered(),
    {
        let r = Self {
            stream_name,
            base_url,
            target_duration: Double { bits: FOUR },
            part_target: Double { bits: ONE },
            part_hold_back: Double { bits: THREE },
            media_sequence: 0,
            discontinuity_sequence: 0,
            start_date: now,
            segments: VecDeque::new(),
            max_segments: 10,
            init_segment: None,
            quality_name,
            bitrate,
        };
        assert(r@.segments =~= Seq::<SegmentModel>::empty());
        r
    }

    /// Sets the target duration of a segment.
    pub fn with_target_duration(self, duration: Double) -> (r: Self)
        ensures
            r@ == (GeneratorModel { target_duration: duration, ..self@ }),
    {
        let mut out = self;
        out.target_duration = duration;
        out
    }

    /// Sets the target duration of a part; clients hold back three times that.
    pub fn with_part_target(self, duration: Double) -> (r: Self)
        ensures
            r@ == (GeneratorModel {
                part_target: duration,
                part_hold_back: duration.times(3),
                ..self@
            }),
    {
        let mut out = self;
        out.part_target = duration;
        out.part_hold_back = duration.triple();
        out
    }

    /// Sets how many segments the window keeps beside the newest.
    pub fn with_max_segments(self, max: usize) -> (r: Self)
        ensures
            r@ == (GeneratorModel { max_segments: max, ..self@ }),
    {
        let mut out = self;
        out.max_segments = max;
        out
    }

    /// Sets the file name of the initialisation segment.
    pub fn set_init_segment(&mut self, filename: String)
        ensures
            final(self)@ == (GeneratorModel { init_segment: Some(filename@), ..old(self)@ }),
    {
        self.init_segment = Some(filename);
    }

    /// Starts a segment now and returns its sequence number.
    pub fn start_segment(&mut self) -> (r: u64)
        requires
            old(self)@.next_sequence() <= u64::MAX,
        ensures
            r == old(self)@.next_sequence(),
            exists|now: Timestamp| final(self)@ == #[trigger] old(self)@.started(now),
    {
        let now = Timestamp::now();
        self.start_segment_at(now)
    }

    /// Starts a segment at `now` and returns its sequence number.
    pub fn start_segment_at(&mut self, now: Timestamp) -> (r: u64)
        requires
            old(self)@.next_sequence() <= u64::MAX,
        ensures
            r == old(self)@.next_sequence(),
            final(self)@ == old(self)@.started(now),
    {
        let ghost m = self@;
        let sequence: u64 = self.media_sequence + self.segments.len() as u64;
        let segment = LLHlsSegment {
            sequence,
            duration: Double { bits: 0 },
            filename: String::new(),
            program_date_time: now,
            parts: Vec::new(),
            bitrate: self.bitrate,
            is_complete: false,
        };
        assert(segment@ =~= m.new_segment(now)) by {
            assert(segment@.parts =~= Seq::<PartModel>::empty());
        }
        self.segments.push_back(segment);
        let ghost all = m.segments.push(segment@);
        let ghost mut gone: int = 0;
        assert(self@.segments =~= all.skip(0));
        while self.segments.len() - 1 > self.max_segments
            invariant
                0 <= gone <= m.overflow(),
                m.segments.len() + 1 == all.len(),
                m.next_sequence() <= u64::MAX,
                self.segments@.len() == all.len() - gone,
                self.segments@.len() >= 1,
                self@ == (GeneratorModel {
                    segments: all.skip(gone),
                    media_sequence: (m.media_sequence + gone) as u64,
                    ..m
                }),
            decreases self.segments.len(),
        {
            let ghost before = self@.segments;
            let _ = self.segments.pop_front();
            self.media_sequence = self.media_sequence + 1;
            proof {
                gone = gone + 1;
                assert(self@.segments =~= before.skip(1));
                assert(self@.segments =~= all.skip(gone));
            }
        }
        assert(gone == m.overflow());
        sequence
    }

    /// Adds a part to the newest segment.
    pub fn add_part(&mut self, part: LLHlsPart)
        ensures
            final(self)@ == old(self)@.with_part(part@),
    {
        let ghost m = self@;
        match self.segments.pop_back() {
            Some(mut segment) => {
                let ghost last = segment@;
                assert(last == m.segments.last());
                segment.duration = segment.duration.plus(&part.duration);
                segment.parts.push(part);
                assert(segment@.parts =~= last.parts.push(part@));
                self.segments.push_back(segment);
                assert(self@.segments =~= m.segments.drop_last().push(segment@));
            },
            None => {},
        }
    }

    /// Completes the newest segment.
    pub fn complete_segment(&mut self, filename: String, total_duration: Double, bitrate: u64)
        ensures
            final(self)@ == old(self)@.completed(filename@, total_duration, bitrate),
    {
        let ghost m = self@;
        match self.segments.pop_back() {
            Some(mut segment) => {
                assert(segment@ == m.segments.last());
                segment.filename = filename;
                segment.duration = total_duration;
                segment.bitrate = bitrate;
                segment.is_complete = true;
                self.segments.push_back(segment);
                assert(self@.segments =~= m.segments.drop_last().push(segment@));
            },
            None => {},
        }
    }
}

/// Appends a line that holds a tag and its value.
fn push_line(out: &mut String, tag: &str, value: &str)
    ensures
        final(out)@ == old(out)@ + line(tag@, value@),
{
    writer::push3(out, tag, value, "\n");
}

/// Appends a line that holds a tag and its value in quotation marks.
fn push_quoted(out: &mut String, tag: &str, value: &str)
    ensures
        final(out)@ == old(out)@ + quoted_line(tag@, value@),
{
    writer::push3(out, tag, value, "\"\n");
}

/// The lines of the parts of a segment.
fn parts_text(parts: &Vec<LLHlsPart>) -> (r: String)
    ensures
        r@ == concat(part_models(parts@), part_liner()),
{
    let ghost models = part_models(parts@);
    let mut out = String::new();
    let mut i: usize = 0;
    while i < parts.len()
        invariant
            i <= parts.len(),
            models == part_models(parts@),
            out@ == concat(models.take(i as int), part_liner()),
        decreases parts.len() - i,
    {
        let part = &parts[i];
        let mut text = writer::join5(
            "#EXT-X-PART:DURATION=",
            part.duration.text_six().as_str(),
            ",URI=\"",
            part.filename.as_str(),
            "\"",
        );
        let ghost named = text@;
        if part.independent {
            text.append(",INDEPENDENT=YES");
        }
        assert(text@ =~= named + independence(part.independent));
        text.append("\n");
        out.append(text.as_str());
        proof {
            lemma_concat_step(models, part_liner(), i as int);
            assert(models[i as int] == part@);
        }
        i = i + 1;
    }
    assert(models.take(i as int) =~= models);
    out
}

/// The lines of the rendition reports.
fn reports_text(reports: &Vec<RenditionReport>) -> (r: String)
    ensures
        r@ == concat(reports@, report_liner()),
{
    let mut out = String::new();
    let mut i: usize = 0;
    while i < reports.len()
        invariant
            i <= reports.len(),
            out@ == concat(reports@.take(i as int), report_liner()),
        decreases reports.len() - i,
    {
        let report = &reports[i];
        let mut text = writer::join5(
            "#EXT-X-RENDITION-REPORT:URI=\"",
            report.uri.as_str(),
            "\",LAST-MSN=",
            decimal(report.last_msn).as_str(),
            ",LAST-PART=",
        );
        text.append(decimal(report.last_part as u64).as_str());
        text.append("\n");
        out.append(text.as_str());
        proof {
            lemma_concat_step(reports@, report_liner(), i as int);
        }
        i = i + 1;
    }
    assert(reports@.take(i as int) =~= reports@);
    out
}

impl LLHlsPlaylistGenerator {
    /// The head of the playlist.
    fn head(&self) -> (r: String)
        ensures
            r@ == head_text(self@),
            one_line(self@.start_date.millis_text()),
    {
        let target: u64 = self.target_duration.ceiling() as u64;
        let mut out = "#EXTM3U\n".to_owned();
        out.append("#EXT-X-VERSION:10\n");
        out.append("#EXT-X-INDEPENDENT-SEGMENTS\n");
        push_line(&mut out, "#EXT-X-TARGETDURATION:", decimal(target).as_str());
        push_line(
            &mut out,
            "#EXT-X-SERVER-CONTROL:CAN-BLOCK-RELOAD=YES,PART-HOLD-BACK=",
            self.part_hold_back.text_six().as_str(),
        );
        push_line(&mut out, "#EXT-X-PART-INF:PART-TARGET=", self.part_target.text_six().as_str());
        push_line(&mut out, "#EXT-X-MEDIA-SEQUENCE:", decimal(self.media_sequence).as_str());
        push_line(
            &mut out,
            "#EXT-X-DISCONTINUITY-SEQUENCE:",
            decimal(self.discontinuity_sequence).as_str(),
        );
        push_quoted(
            &mut out,
            "#EXT-X-DATERANGE:ID=\"stream-start\",START-DATE=\"",
            self.start_date.rfc3339_millis().as_str(),
        );
        out.append("\n");
        out
    }

    /// The lines of one segment.
    fn segment_lines(&self, segment: &LLHlsSegment) -> (r: String)
        ensures
            r@ == segment_text(self@, segment@),
            one_line(segment@.program_date_time.millis_text()),
    {
        let mut out = String::new();
        push_line(
            &mut out,
            "#EXT-X-PROGRAM-DATE-TIME:",
            segment.program_date_time.rfc3339_millis().as_str(),
        );
        assert(out@ =~= line(
            "#EXT-X-PROGRAM-DATE-TIME:"@,
            segment.program_date_time.millis_text(),
        ));
        out.append(parts_text(&segment.parts).as_str());
        let ghost before = out@;
        if segment.is_complete {
            let text = writer::join5(
                "#EXTINF:",
                segment.duration.text_six().as_str(),
                ",\n",
                segment.filename.as_str(),
                "\n",
            );
            out.append(text.as_str());
        } else if segment.parts.len() > 0 {
            let next = self.generate_part_filename(segment.sequence, segment.parts.len());
            push_quoted(&mut out, "#EXT-X-PRELOAD-HINT:TYPE=PART,URI=\"", next.as_str());
        } else {
            assert(out@ =~= before + segment_tail(self@, segment@));
        }
        out
    }

    /// The media playlist, with reports on other renditions where there are any.
    pub fn generate_media_playlist(
        &self,
        rendition_reports: Option<Vec<RenditionReport>>,
    ) -> (r: String)
        ensures
            r@ == media_playlist_text(
                self@,
                match rendition_reports {
                    Some(reports) => reports@,
                    None => Seq::empty(),
                },
            ),
            dates_are_plain(self@),
    {
        let ghost m = self@;
        let mut out = self.head();
        let ghost head = out@;
        match &self.init_segment {
            Some(init) => {
                push_quoted(&mut out, "#EXT-X-MAP:URI=\"", init.as_str());
            },
            None => {
                assert(out@ =~= head + init_text(m.init_segment));
            },
        }
        let ghost start = out@;
        assert(start == head + init_text(m.init_segment));
        let mut i: usize = 0;
        assert(start + concat(m.segments.take(0), segment_texter(m)) =~= start);
        while i < self.segments.len()
            invariant
                i <= self.segments@.len(),
                m == self@,
                m.segments.len() == self.segments@.len(),
                out@ == start + concat(m.segments.take(i as int), segment_texter(m)),
                forall|j: int|
                    0 <= j < i ==> one_line(
                        (#[trigger] m.segments[j]).program_date_time.millis_text(),
                    ),
            decreases self.segments.len() - i,
        {
            let segment = &self.segments[i];
            let ghost before = out@;
            out.append(self.segment_lines(segment).as_str());
            proof {
                lemma_concat_step(m.segments, segment_texter(m), i as int);
                assert(m.segments[i as int] == segment@);
                assert(out@ =~= start + concat(m.segments.take(i + 1), segment_texter(m)));
            }
            i = i + 1;
        }
        assert(m.segments.take(i as int) =~= m.segments);
        let ghost before = out@;
        match rendition_reports {
            Some(reports) => {
                out.append(reports_text(&reports).as_str());
            },
            None => {
                assert(out@ =~= before + concat(
                    Seq::<RenditionReport>::empty(),
                    report_liner(),
                ));
            },
        }
        out
    }

    /// The complete segments of the window as a [`MediaPlaylist`].
    pub fn to_media_playlist(&self) -> (r: MediaPlaylist)
        ensures
            r.version == Some(10usize),
            r.target_duration == self@.target_duration.truncated(),
            r.media_sequence == self@.media_sequence,
            r.discontinuity_sequence == self@.discontinuity_sequence,
            !r.end_list,
            !r.i_frames_only,
            r.independent_segments,
            r.segments@.map_values(|s: MediaSegment| s@) == media_entries(self@.segments),
    {
        let ghost m = self@;
        let mut segments: Vec<MediaSegment> = Vec::new();
        let mut i: usize = 0;
        assert(segments@.map_values(|s: MediaSegment| s@) =~= media_entries(m.segments.take(0)));
        while i < self.segments.len()
            invariant
                i <= self.segments@.len(),
                m == self@,
                m.segments.len() == self.segments@.len(),
                segments@.map_values(|s: MediaSegment| s@) == media_entries(
                    m.segments.take(i as int),
                ),
            decreases self.segments.len() - i,
        {
            let segment = &self.segments[i];
            assert(m.segments[i as int] == segment@);
            assert(m.segments.take(i + 1).drop_last() =~= m.segments.take(i as int));
            if segment.is_complete {
                let ghost before = segments@.map_values(|s: MediaSegment| s@);
                let entry = MediaSegment {
                    uri: writer::join4(
                        segment.filename.as_str(),
                        "?type=hls&bitrate=",
                        decimal(segment.bitrate).as_str(),
                        "&filetype=.m4v",
                    ),
                    duration: segment.duration.to_single(),
                    discontinuity: false,
                    program_date_time: segment.program_date_time,
                };
                assert(entry@ == media_entry(segment@));
                segments.push(entry);
                assert(segments@.map_values(|s: MediaSegment| s@) =~= before.push(entry@));
            }
            i = i + 1;
        }
        assert(m.segments.take(i as int) =~= m.segments);
        MediaPlaylist {
            version: Some(10),
            target_duration: self.target_duration.whole_part(),
            media_sequence: self.media_sequence,
            discontinuity_sequence: self.discontinuity_sequence,
            end_list: false,
            i_frames_only: false,
            independent_segments: true,
            segments,
        }
    }

    /// The file name of a part.
    pub fn generate_part_filename(&self, sequence: u64, part_index: usize) -> (r: String)
        ensures
            r@ == part_name(self@, sequence as nat, part_index as nat),
    {
        let mut out = self.generate_segment_filename(sequence);
        out.append("_");
        out.append(decimal(part_index as u64).as_str());
        out
    }

    /// The file name of a segment.
    pub fn generate_segment_filename(&self, sequence: u64) -> (r: String)
        ensures
            r@ == segment_name(self@, sequence as nat),
    {
        writer::join5(
            self.quality_name.as_str(),
            "_",
            self.stream_name.as_str(),
            "_",
            decimal(sequence).as_str(),
        )
    }

    /// The sequence number of the newest segment.
    pub fn current_media_sequence(&self) -> (r: u64)
        requires
            self@.current_sequence() <= u64::MAX,
        ensures
            r == self@.current_sequence(),
    {
        let n: usize = self.segments.len();
        if n == 0 {
            self.media_sequence
        } else {
            self.media_sequence + (n - 1) as u64
        }
    }

    /// The number of parts of the newest segment.
    pub fn part_count(&self) -> (r: usize)
        ensures
            r == self@.part_count(),
    {
        let n: usize = self.segments.len();
        if n == 0 {
            return 0;
        }
        assert(self@.segments.last() == self.segments@.last()@);
        self.segments[n - 1].parts.len()
    }

    /// The index of the newest part of the newest segment.
    pub fn current_part_index(&self) -> (r: usize)
        ensures
            r == self@.part_index(),
    {
        let k: usize = self.part_count();
        if k == 0 {
            0
        } else {
            k - 1
        }
    }

    /// The name of the stream.
    pub fn stream_name(&self) -> (r: &str)
        ensures
            r@ == self@.stream_name,
    {
        self.stream_name.as_str()
    }

    /// The name of the rendition.
    pub fn quality_name(&self) -> (r: &str)
        ensures
            r@ == self@.quality_name,
    {
        self.quality_name.as_str()
    }

    /// Sets the sequence number of the first segment in the window.
    pub fn set_media_sequence(&mut self, seq: u64)
        ensures
            final(self)@ == (GeneratorModel { media_sequence: seq, ..old(self)@ }),
    {
        self.media_sequence = seq;
    }

    /// The number of segments in the window.
    pub fn segment_count(&self) -> (r: usize)
        ensures
            r == self@.segments.len(),
    {
        self.segments.len()
    }

    /// Whether one more segment can be numbered.
    pub fn can_start_segment(&self) -> (r: bool)
        ensures
            r == (self@.next_sequence() <= u64::MAX),
    {
        let n: u64 = self.segments.len() as u64;
        n <= u64::MAX - self.media_sequence
    }

    /// The newest segment.
    pub fn last_segment(&self) -> (r: Option<&LLHlsSegment>)
        ensures
            match r {
                Some(s) => self@.segments.len() > 0 && s@ == self@.segments.last(),
                None => self@.segments.len() == 0,
            },
    {
        let n: usize = self.segments.len();
        if n == 0 {
            None
        } else {
            Some(&self.segments[n - 1])
        }
    }

    /// The newest complete segment.
    pub fn last_complete_segment(&self) -> (r: Option<&LLHlsSegment>)
        ensures
            match r {
                Some(s) => exists|i: int|
                    0 <= i < self@.segments.len() && #[trigger] self@.segments[i] == s@
                        && s.is_complete && forall|j: int|
                        i < j < self@.segments.len() ==> !(#[trigger] self@.segments[j]).is_complete,
                None => forall|j: int|
                    0 <= j < self@.segments.len() ==> !(#[trigger] self@.segments[j]).is_complete,
            },
    {
        let mut i: usize = self.segments.len();
        while i > 0
            invariant
                i <= self.segments@.len(),
                self@.segments.len() == self.segments@.len(),
                forall|j: int| i <= j < self@.segments.len() ==> !(#[trigger] self@.segments[j]).is_complete,
            decreases i,
        {
            i = i - 1;
            assert(self@.segments[i as int] == self.segments@[i as int]@);
            if self.segments[i].is_complete {
                return Some(&self.segments[i]);
            }
        }
        None
    }
}

/// What the file name of a segment or part says.
#[derive(Clone, Debug)]
pub struct SegmentInfo {
    pub quality: String,
    pub hash: String,
    pub timestamp: i64,
    pub frame_number: u64,
    pub stream_index: u32,
    pub sequence: u64,
    pub part_index: Option<usize>,
}

/// What a [`SegmentInfo`] says.
#[verifier::ext_equal]
pub struct SegmentInfoModel {
    pub quality: Seq<char>,
    pub hash: Seq<char>,
    pub timestamp: int,
    pub frame_number: int,
    pub stream_index: int,
    pub sequence: int,
    pub part_index: Option<int>,
}

impl View for SegmentInfo {
    type V = SegmentInfoModel;

    open spec fn view(&self) -> SegmentInfoModel {
        SegmentInfoModel {
            quality: self.quality@,
            hash: self.hash@,
            timestamp: self.timestamp as int,
            frame_number: self.frame_number as int,
            stream_index: self.stream_index as int,
            sequence: self.sequence as int,
            part_index: match self.part_index {
                Some(i) => Some(i as int),
                None => None,
            },
        }
    }
}

/// What a file name says: the pieces between underscores, with every trailing
/// `.m4v` and then every trailing `.m4s` taken off. Six are needed, of which
/// the last four are numbers; a seventh that is a number is the part index.
pub open spec fn parsed_filename(filename: Seq<char>) -> Option<SegmentInfoModel> {
    let pieces = split(trim_end(trim_end(filename, ".m4v"@), ".m4s"@), '_');
    if pieces.len() < 6 {
        None
    } else {
        let timestamp = read_signed(pieces[2], i64::MIN as int, i64::MAX as int);
        let frame_number = read_unsigned(pieces[3], u64::MAX as int);
        let stream_index = read_unsigned(pieces[4], u32::MAX as int);
        let sequence = read_unsigned(pieces[5], u64::MAX as int);
        if timestamp is Some && frame_number is Some && stream_index is Some && sequence is Some {
            Some(
                SegmentInfoModel {
                    quality: pieces[0],
                    hash: pieces[1],
                    timestamp: timestamp->0,
                    frame_number: frame_number->0,
                    stream_index: stream_index->0,
                    sequence: sequence->0,
                    part_index: if pieces.len() > 6 {
                        read_unsigned(pieces[6], usize::MAX as int)
                    } else {
                        None
                    },
                },
            )
        } else {
            None
        }
    }
}

/// The file name without its extension.
pub open spec fn file_stem(info: SegmentInfoModel) -> Seq<char> {
    let stem = info.quality + "_"@ + info.hash + "_"@ + dec_int(info.timestamp) + "_"@ + dec(
        info.frame_number as nat,
    ) + "_"@ + dec(info.stream_index as nat) + "_"@ + dec(info.sequence as nat);
    match info.part_index {
        Some(i) => stem + "_"@ + dec(i as nat),
        None => stem,
    }
}

impl SegmentInfo {
    /// Reads a file name such as `1080p_3513129241_1764157633288_11139_0_2673_0.m4v`.
    pub fn parse_filename(filename: &str) -> (r: Option<Self>)
        ensures
            match r {
                Some(info) => parsed_filename(filename@) == Some(info@),
                None => parsed_filename(filename@) is None,
            },
    {
        let trimmed = text::trim_end_matches(filename, ".m4v");
        let name = text::trim_end_matches(trimmed.as_str(), ".m4s");
        let pieces = text::split_on(name.as_str(), '_');
        let ghost model = split(trim_end(trim_end(filename@, ".m4v"@), ".m4s"@), '_');
        assert(texts(pieces@) == model);
        assert(pieces@.len() == model.len());
        if pieces.len() < 6 {
            return None;
        }
        assert(model[0] == pieces@[0]@ && model[1] == pieces@[1]@ && model[2] == pieces@[2]@);
        assert(model[3] == pieces@[3]@ && model[4] == pieces@[4]@ && model[5] == pieces@[5]@);
        let timestamp: i64 = match parse_signed(pieces[2].as_str()) {
            Some(v) => v,
            None => {
                return None;
            },
        };
        let frame_number: u64 = match parse_unsigned(pieces[3].as_str(), u64::MAX) {
            Some(v) => v,
            None => {
                return None;
            },
        };
        let stream_index: u64 = match parse_unsigned(pieces[4].as_str(), u32::MAX as u64) {
            Some(v) => v,
            None => {
                return None;
            },
        };
        let sequence: u64 = match parse_unsigned(pieces[5].as_str(), u64::MAX) {
            Some(v) => v,
            None => {
                return None;
            },
        };
        let part_index: Option<usize> = if pieces.len() > 6 {
            assert(model[6] == pieces@[6]@);
            match parse_unsigned(pieces[6].as_str(), usize::MAX as u64) {
                Some(v) => Some(v as usize),
                None => None,
            }
        } else {
            None
        };
        Some(
            SegmentInfo {
                quality: pieces[0].clone(),
                hash: pieces[1].clone(),
                timestamp,
                frame_number,
                stream_index: stream_index as u32,
                sequence,
                part_index,
            },
        )
    }

    /// The file name.
    pub fn to_filename(&self) -> (r: String)
        ensures
            r@ == file_stem(self@) + ".m4v"@,
    {
        let mut out = writer::join5(
            self.quality.as_str(),
            "_",
            self.hash.as_str(),
            "_",
            decimal_signed(self.timestamp).as_str(),
        );
        out.append("_");
        out.append(decimal(self.frame_number).as_str());
        out.append("_");
        out.append(decimal(self.stream_index as u64).as_str());
        out.append("_");
        out.append(decimal(self.sequence).as_str());
        match self.part_index {
            Some(i) => {
                out.append("_");
                out.append(decimal(i as u64).as_str());
            },
            None => {},
        }
        out.append(".m4v");
        out
    }

    /// Whether the file is a part of a segment.
    pub fn is_part(&self) -> (r: bool)
        ensures
            r == self.part_index is Some,
    {
        self.part_index.is_some()
    }
}

proof fn lemma_digits_free(n: nat)
    ensures
        !dec(n).contains('_'),
        dec(n).len() > 0,
        crate::number::is_digit(dec(n).last()),
{
    lemma_dec_reads_back(n);
    assert(crate::number::is_digit(dec(n)[dec(n).len() - 1]));
    if dec(n).contains('_') {
        let i = choose|i: int| 0 <= i < dec(n).len() && dec(n)[i] == '_';
        assert(crate::number::is_digit(dec(n)[i]));
    }
}

proof fn lemma_no_suffix(s: Seq<char>, p: Seq<char>)
    requires
        s.len() > 0,
        p.len() > 0,
        s.last() != p.last(),
    ensures
        trim_end(s, p) == s,
{
    if text::has_suffix(s, p) {
        assert(s.skip(s.len() - p.len()).last() == s.last());
    }
}

proof fn lemma_timestamp_free(n: int)
    ensures
        !dec_int(n).contains('_'),
{
    let t = dec_int(n);
    if n < 0 {
        lemma_digits_free((-n) as nat);
        if t.contains('_') {
            let i = choose|i: int| 0 <= i < t.len() && t[i] == '_';
            assert(i > 0);
            assert(dec((-n) as nat)[i - 1] == '_');
        }
    } else {
        lemma_digits_free(n as nat);
    }
}

/// The pieces that a file name is put together from.
spec fn filename_pieces(m: SegmentInfoModel) -> Seq<Seq<char>> {
    let six = seq![
        m.quality,
        m.hash,
        dec_int(m.timestamp),
        dec(m.frame_number as nat),
        dec(m.stream_index as nat),
        dec(m.sequence as nat),
    ];
    match m.part_index {
        Some(i) => six.push(dec(i as nat)),
        None => six,
    }
}

proof fn lemma_stem_pieces(m: SegmentInfoModel)
    requires
        !m.quality.contains('_'),
        !m.hash.contains('_'),
    ensures
        split(file_stem(m), '_') == filename_pieces(m),
        file_stem(m).len() > 0,
        crate::number::is_digit(file_stem(m).last()),
{
    reveal_strlit("_");
    assert("_"@ =~= seq!['_']);
    let t = dec_int(m.timestamp);
    let f = dec(m.frame_number as nat);
    let x = dec(m.stream_index as nat);
    let q = dec(m.sequence as nat);
    lemma_timestamp_free(m.timestamp);
    lemma_digits_free(m.frame_number as nat);
    lemma_digits_free(m.stream_index as nat);
    lemma_digits_free(m.sequence as nat);
    let s1 = m.quality;
    let s2 = s1 + "_"@ + m.hash;
    let s3 = s2 + "_"@ + t;
    let s4 = s3 + "_"@ + f;
    let s5 = s4 + "_"@ + x;
    let s6 = s5 + "_"@ + q;
    text::lemma_split_whole(s1, '_');
    text::lemma_split_back(s1, '_', m.hash);
    text::lemma_split_back(s2, '_', t);
    text::lemma_split_back(s3, '_', f);
    text::lemma_split_back(s4, '_', x);
    text::lemma_split_back(s5, '_', q);
    assert(split(s6, '_') =~= seq![m.quality, m.hash, t, f, x, q]);
    assert(s6.last() == q.last());
    if let Some(i) = m.part_index {
        lemma_digits_free(i as nat);
        text::lemma_split_back(s6, '_', dec(i as nat));
        assert((s6 + "_"@ + dec(i as nat)).last() == dec(i as nat).last());
    }
}

/// Reading the file name that was made from an info gives the info back, where
/// neither the quality nor the hash holds an underscore.
pub proof fn law_filename_round_trip(info: SegmentInfo)
    requires
        !info.quality@.contains('_'),
        !info.hash@.contains('_'),
    ensures
        parsed_filename(file_stem(info@) + ".m4v"@) == Some(info@),
{
    let m = info@;
    let stem = file_stem(m);
    lemma_stem_pieces(m);
    reveal_strlit(".m4v");
    reveal_strlit(".m4s");
    // the extension comes off once, and the digit before it stops both trims
    let name = stem + ".m4v"@;
    assert(name.skip(name.len() - 4) =~= ".m4v"@);
    assert(name.take(name.len() - 4) =~= stem);
    lemma_no_suffix(stem, ".m4v"@);
    lemma_no_suffix(stem, ".m4s"@);
    assert(trim_end(name, ".m4v"@) == stem);
    if let Some(i) = m.part_index {
        lemma_read_unsigned_dec(i as nat, usize::MAX as int);
    }
    lemma_read_signed_dec(m.timestamp, i64::MIN as int, i64::MAX as int);
    lemma_read_unsigned_dec(m.frame_number as nat, u64::MAX as int);
    lemma_read_unsigned_dec(m.stream_index as nat, u32::MAX as int);
    lemma_read_unsigned_dec(m.sequence as nat, u64::MAX as int);
}

/// Starting a segment raises the next sequence number by one, keeps the window
/// numbered without gaps, and leaves at most `max_segments` segments beside the
/// new one.
pub proof fn law_window_slides(m: GeneratorModel, now: Timestamp)
    requires
        m.next_sequence() <= u64::MAX,
    ensures
        m.started(now).next_sequence() == m.next_sequence() + 1,
        m.started(now).segments.len() <= m.max_segments + 1,
        m.started(now).segments.last() == m.new_segment(now),
        m.numbered() ==> m.started(now).numbered(),
        forall|i: int|
            0 <= i < m.started(now).segments.len() - 1 ==> (#[trigger] m.started(now).segments[i])
                == m.segments[i + m.overflow()],
{
}

/// Adding a part and completing a segment keep the numbering, the number of
/// segments and every segment but the newest.
pub proof fn law_only_newest_changes(
    m: GeneratorModel,
    part: PartModel,
    filename: Seq<char>,
    duration: Double,
    bitrate: u64,
)
    ensures
        m.with_part(part).segments.len() == m.segments.len(),
        m.completed(filename, duration, bitrate).segments.len() == m.segments.len(),
        m.numbered() ==> m.with_part(part).numbered(),
        m.numbered() ==> m.completed(filename, duration, bitrate).numbered(),
        forall|i: int|
            0 <= i < m.segments.len() - 1 ==> #[trigger] m.with_part(part).segments[i]
                == m.segments[i],
        forall|i: int|
            0 <= i < m.segments.len() - 1 ==> #[trigger] m.completed(
                filename,
                duration,
                bitrate,
            ).segments[i] == m.segments[i],
{
}

/// In a numbered window the file names that the segments and the hinted parts
/// get are those of their sequence numbers: the hint of a segment in progress
/// names the part that `generate_part_filename` names next.
pub proof fn law_hint_names_next_part(m: GeneratorModel, i: int)
    requires
        m.numbered(),
        0 <= i < m.segments.len(),
        !m.segments[i].is_complete,
        m.segments[i].parts.len() > 0,
    ensures
        segment_tail(m, m.segments[i]) == quoted_line(
            "#EXT-X-PRELOAD-HINT:TYPE=PART,URI=\""@,
            part_name(m, (m.media_sequence + i) as nat, m.segments[i].parts.len()),
        ),
{
}

/// A generator starts empty: segments of four seconds and parts of one, of which
/// clients keep three away from the live edge, ten segments beside the newest,
/// and sequence numbers from zero.
pub proof fn law_fresh_generator(
    stream_name: Seq<char>,
    base_url: Seq<char>,
    quality_name: Seq<char>,
    bitrate: u64,
    now: Timestamp,
)
    ensures
        ({
            let g = GeneratorModel::fresh(stream_name, base_url, quality_name, bitrate, now);
            &&& g.stream_name == stream_name
            &&& g.base_url == base_url
            &&& g.quality_name == quality_name
            &&& g.bitrate == bitrate
            &&& g.start_date == now
            &&& g.target_duration == Double::whole(4)
            &&& g.part_target == Double::whole(1)
            &&& g.part_hold_back == g.part_target.times(3)
            &&& g.media_sequence == 0
            &&& g.discontinuity_sequence == 0
            &&& g.segments.len() == 0
            &&& g.max_segments == 10
            &&& g.init_segment is None
            &&& g.part_count() == 0
            &&& g.numbered()
        }),
{
    law_named_numbers();
    law_three_times_one();
}

/// A segment that starts has the next sequence number, begins at that moment, is
/// in progress and has neither duration nor parts. The window then holds the
/// newest segments, as many as it keeps beside the new one and that; its number
/// grows by one for each that has left. Nothing else changes.
pub proof fn law_started_segment(m: GeneratorModel, now: Timestamp)
    requires
        m.media_sequence + m.segments.len() <= u64::MAX,
    ensures
        ({
            let after = m.started(now);
            let s = after.segments.last();
            let n = after.segments.len() as int;
            let gone = m.segments.len() + 1 - n;
            &&& s.sequence == m.media_sequence + m.segments.len()
            &&& s.program_date_time == now
            &&& s.bitrate == m.bitrate
            &&& !s.is_complete
            &&& s.parts.len() == 0
            &&& s.duration.units() == 0 && !s.duration.negative()
            &&& s.filename.len() == 0
            &&& n == (if m.segments.len() <= m.max_segments {
                m.segments.len() as int + 1
            } else {
                m.max_segments + 1
            })
            &&& forall|i: int|
                0 <= i < n - 1 ==> #[trigger] after.segments[i] == m.segments[i + gone]
            &&& after.media_sequence == m.media_sequence + gone
            &&& after == (GeneratorModel {
                segments: after.segments,
                media_sequence: after.media_sequence,
                ..m
            })
        }),
{
    assert(0 * pow2(0) == 0);
}

/// A part that comes to the newest segment stands at the end of its parts and
/// adds its duration to that of the segment; nothing else of the segment, and
/// nothing else at all, changes. Without a segment a part is dropped.
pub proof fn law_part_joins_newest(m: GeneratorModel, part: PartModel)
    ensures
        m.segments.len() == 0 ==> m.with_part(part) == m,
        m.segments.len() > 0 ==> {
            let after = m.with_part(part);
            let old_last = m.segments.last();
            let new_last = after.segments.last();
            &&& new_last.parts == old_last.parts.push(part)
            &&& new_last.duration == old_last.duration.sum(part.duration)
            &&& new_last.sequence == old_last.sequence
            &&& new_last.filename == old_last.filename
            &&& new_last.program_date_time == old_last.program_date_time
            &&& new_last.bitrate == old_last.bitrate
            &&& new_last.is_complete == old_last.is_complete
            &&& after.segments.drop_last() == m.segments.drop_last()
            &&& after == (GeneratorModel { segments: after.segments, ..m })
            &&& after.part_count() == m.part_count() + 1
            &&& after.part_index() == m.part_count()
        },
{
    if m.segments.len() > 0 {
        assert(m.with_part(part).segments.drop_last() =~= m.segments.drop_last());
    }
}

/// A segment that is completed gets the name, the duration and the bit rate that
/// it is completed with, and keeps its number, its moment and its parts; nothing
/// else changes.
pub proof fn law_newest_is_completed(
    m: GeneratorModel,
    filename: Seq<char>,
    duration: Double,
    bitrate: u64,
)
    ensures
        m.segments.len() == 0 ==> m.completed(filename, duration, bitrate) == m,
        m.segments.len() > 0 ==> {
            let after = m.completed(filename, duration, bitrate);
            let old_last = m.segments.last();
            let new_last = after.segments.last();
            &&& new_last.filename == filename
            &&& new_last.duration == duration
            &&& new_last.bitrate == bitrate
            &&& new_last.is_complete
            &&& new_last.parts == old_last.parts
            &&& new_last.sequence == old_last.sequence
            &&& new_last.program_date_time == old_last.program_date_time
            &&& after.segments.drop_last() == m.segments.drop_last()
            &&& after == (GeneratorModel { segments: after.segments, ..m })
        },
{
    if m.segments.len() > 0 {
        assert(m.completed(filename, duration, bitrate).segments.drop_last()
            =~= m.segments.drop_last());
    }
}

/// The newest segment has the number before the one that the next gets; where
/// there is none yet, that is the first number.
pub proof fn law_current_number(m: GeneratorModel)
    ensures
        m.next_sequence() == m.media_sequence + m.segments.len(),
        m.segments.len() > 0 ==> m.current_sequence() == m.next_sequence() - 1,
        m.segments.len() == 0 ==> m.current_sequence() == m.media_sequence,
        m.segments.len() > 0 ==> m.part_count() == m.segments.last().parts.len(),
        m.part_count() > 0 ==> m.part_index() == m.part_count() - 1,
        m.part_count() == 0 ==> m.part_index() == 0,
{
}

/// The name of a segment or part is made of the rendition, the stream and the
/// number, and of the index in the case of a part; the numbers can be read off.
pub proof fn law_names_of_files(m: GeneratorModel, sequence: nat, index: nat)
    requires
        !m.quality_name.contains('_'),
        !m.stream_name.contains('_'),
    ensures
        split(segment_name(m, sequence), '_') == seq![m.quality_name, m.stream_name, dec(sequence)],
        split(part_name(m, sequence, index), '_') == seq![
            m.quality_name,
            m.stream_name,
            dec(sequence),
            dec(index),
        ],
{
    reveal_strlit("_");
    assert("_"@ =~= seq!['_']);
    lemma_digits_free(sequence);
    lemma_digits_free(index);
    let s1 = m.quality_name;
    let s2 = s1 + "_"@ + m.stream_name;
    let s3 = s2 + "_"@ + dec(sequence);
    text::lemma_split_whole(s1, '_');
    text::lemma_split_back(s1, '_', m.stream_name);
    text::lemma_split_back(s2, '_', dec(sequence));
    text::lemma_split_back(s3, '_', dec(index));
    assert(split(segment_name(m, sequence), '_') =~= seq![s1, m.stream_name, dec(sequence)]);
    assert(split(part_name(m, sequence, index), '_') =~= seq![
        s1,
        m.stream_name,
        dec(sequence),
        dec(index),
    ]);
}

/// A file name reads back whichever of the two extensions it has, or none. A
/// name with fewer than six pieces says nothing.
pub proof fn law_filename_reads_by_pieces(info: SegmentInfo, name: Seq<char>)
    requires
        !info.quality@.contains('_'),
        !info.hash@.contains('_'),
    ensures
        parsed_filename(file_stem(info@) + ".m4v"@) == Some(info@),
        parsed_filename(file_stem(info@) + ".m4s"@) == Some(info@),
        parsed_filename(file_stem(info@)) == Some(info@),
        split(trim_end(trim_end(name, ".m4v"@), ".m4s"@), '_').len() < 6 ==> parsed_filename(name)
            is None,
{
    let m = info@;
    let stem = file_stem(m);
    law_filename_round_trip(info);
    lemma_stem_pieces(m);
    reveal_strlit(".m4v");
    reveal_strlit(".m4s");
    let other = stem + ".m4s"@;
    assert(other.skip(other.len() - 4) =~= ".m4s"@);
    assert(other.take(other.len() - 4) =~= stem);
    lemma_no_suffix(other, ".m4v"@);
    lemma_no_suffix(stem, ".m4v"@);
    lemma_no_suffix(stem, ".m4s"@);
    assert(trim_end(other, ".m4s"@) == stem);
    let named = stem + ".m4v"@;
    assert(named.skip(named.len() - 4) =~= ".m4v"@);
    assert(named.take(named.len() - 4) =~= stem);
    assert(trim_end(named, ".m4v"@) == stem);
}

/// The name that is made from an info holds the pieces of the info in order.
pub proof fn law_filename_pieces(info: SegmentInfoModel)
    requires
        !info.quality.contains('_'),
        !info.hash.contains('_'),
        0 <= info.frame_number,
        0 <= info.stream_index,
        0 <= info.sequence,
        info.part_index is Some ==> 0 <= info.part_index->0,
    ensures
        ({
            let pieces = split(file_stem(info), '_');
            &&& pieces.len() == (if info.part_index is Some {
                7int
            } else {
                6
            })
            &&& pieces[0] == info.quality
            &&& pieces[1] == info.hash
            &&& pieces[2] == dec_int(info.timestamp)
            &&& pieces[3] == dec(info.frame_number as nat)
            &&& pieces[4] == dec(info.stream_index as nat)
            &&& pieces[5] == dec(info.sequence as nat)
            &&& info.part_index matches Some(i) ==> pieces[6] == dec(i as nat)
        }),
{
    lemma_stem_pieces(info);
}

/// The entry of a segment in a list of media is about its file, with its bit rate
/// in the query, and has its duration in single precision and its moment.
pub proof fn law_media_entry(s: SegmentModel)
    ensures
        ({
            let e = media_entry(s);
            let n = s.filename.len() as int;
            let k = e.uri.len() - "&filetype=.m4v"@.len();
            &&& e.uri.take(n) == s.filename
            &&& e.uri.subrange(n, n + "?type=hls&bitrate="@.len()) == "?type=hls&bitrate="@
            &&& digits_value(e.uri.subrange(n + "?type=hls&bitrate="@.len(), k)) == s.bitrate
            &&& e.uri.skip(k) == "&filetype=.m4v"@
            &&& e.duration == s.duration.single()
            &&& !e.discontinuity
            &&& e.program_date_time == s.program_date_time
        }),
{
    let e = media_entry(s);
    let n = s.filename.len() as int;
    let q = "?type=hls&bitrate="@.len() as int;
    let k = e.uri.len() - "&filetype=.m4v"@.len();
    lemma_dec_reads_back(s.bitrate as nat);
    assert(e.uri.take(n) =~= s.filename);
    assert(e.uri.subrange(n, n + q) =~= "?type=hls&bitrate="@);
    assert(e.uri.subrange(n + q, k) =~= dec(s.bitrate as nat));
    assert(e.uri.skip(k) =~= "&filetype=.m4v"@);
}

/// A list of media holds an entry for each complete segment, in their order, and
/// none for one in progress.
pub proof fn law_media_list_grows(segments: Seq<SegmentModel>, s: SegmentModel)
    ensures
        media_entries(Seq::empty()).len() == 0,
        s.is_complete ==> media_entries(segments.push(s)) == media_entries(segments).push(
            media_entry(s),
        ),
        !s.is_complete ==> media_entries(segments.push(s)) == media_entries(segments),
{
    assert(segments.push(s).drop_last() =~= segments);
}

/// The name of a segment begins with the rendition, behind which stand the
/// stream and the number in digits, whatever characters the names hold; that of
/// a part goes on with the index.
pub proof fn law_names_hold_their_parts(m: GeneratorModel, sequence: nat, index: nat)
    ensures
        ({
            let name = segment_name(m, sequence);
            let part = part_name(m, sequence, index);
            let q = m.quality_name.len() as int;
            let s = m.stream_name.len() as int;
            let n = name.len() as int;
            &&& name.take(q) == m.quality_name
            &&& name[q] == '_'
            &&& name.subrange(q + 1, q + 1 + s) == m.stream_name
            &&& name[q + 1 + s] == '_'
            &&& all_digits(name.skip(q + s + 2))
            &&& digits_value(name.skip(q + s + 2)) == sequence
            &&& part.take(n) == name
            &&& part[n] == '_'
            &&& all_digits(part.skip(n + 1))
            &&& digits_value(part.skip(n + 1)) == index
        }),
{
    reveal_strlit("_");
    let name = segment_name(m, sequence);
    let part = part_name(m, sequence, index);
    let q = m.quality_name.len() as int;
    let s = m.stream_name.len() as int;
    lemma_dec_reads_back(sequence);
    lemma_dec_reads_back(index);
    assert(name.take(q) =~= m.quality_name);
    assert(name.subrange(q + 1, q + 1 + s) =~= m.stream_name);
    assert(name.skip(q + s + 2) =~= dec(sequence));
    assert(part.take(name.len() as int) =~= name);
    assert(part.skip(name.len() as int + 1) =~= dec(index));
}

/// A file name is read by its first seven pieces: those that follow do not
/// matter, and without a seventh that is a number there is no index of a part.
pub proof fn law_seven_pieces_count(a: Seq<char>, b: Seq<char>)
    requires
        split(trim_end(trim_end(a, ".m4v"@), ".m4s"@), '_').len() > 6,
        split(trim_end(trim_end(b, ".m4v"@), ".m4s"@), '_').len() >= 6,
        split(trim_end(trim_end(a, ".m4v"@), ".m4s"@), '_').take(6) == split(
            trim_end(trim_end(b, ".m4v"@), ".m4s"@),
            '_',
        ).take(6),
    ensures
        ({
            let p = split(trim_end(trim_end(a, ".m4v"@), ".m4s"@), '_');
            let r = split(trim_end(trim_end(b, ".m4v"@), ".m4s"@), '_');
            &&& parsed_filename(a) is Some <==> parsed_filename(b) is Some
            &&& r.len() > 6 && p[6] == r[6] ==> parsed_filename(a) == parsed_filename(b)
            &&& r.len() == 6 && parsed_filename(b) is Some ==> {
                &&& parsed_filename(b)->0.part_index is None
                &&& parsed_filename(a) == Some(
                    SegmentInfoModel {
                        part_index: parsed_filename(a)->0.part_index,
                        ..parsed_filename(b)->0
                    },
                )
            }
            &&& parsed_filename(a) is Some && !all_digits(p[6]) && !has_prefix(p[6], "+"@)
                ==> parsed_filename(a)->0.part_index is None
        }),
{
    let p = split(trim_end(trim_end(a, ".m4v"@), ".m4s"@), '_');
    let r = split(trim_end(trim_end(b, ".m4v"@), ".m4s"@), '_');
    assert forall|i: int| 0 <= i < 6 implies #[trigger] p[i] == r[i] by {
        assert(p.take(6)[i] == r.take(6)[i]);
    }
    reveal_strlit("+");
    if p[6].len() > 0 && p[6][0] == '+' {
        assert(p[6].take(1) =~= "+"@);
    }
}

} // verus!
