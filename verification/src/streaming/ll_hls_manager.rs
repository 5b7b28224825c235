//! The low-latency playlists of all streams.

use crate::float::{
    divide_whole, law_named_numbers, law_three_times_one, whole_ratio, Double, FOUR, ONE,
};
use crate::storage::memory_s3_uploader::{MemorySegment, MemorySegmentModel};
use crate::streaming::ll_hls_playlist::{
    file_stem, law_filename_round_trip, media_playlist_text, parsed_filename, text_of,
    GeneratorModel, LLHlsPart, LLHlsPlaylistGenerator, PartModel, SegmentInfo,
};
use crate::table::{has_name, lemma_row_count, lemma_row_value, row_of, Table};
use crate::text;
use crate::text::{has_prefix, lines, texts, trim_end};
use crate::time::Timestamp;
use crate::writer;
use vstd::arithmetic::power2::pow2;
use vstd::prelude::*;
use vstd::utf8::encode_utf8;

verus! {

/// The playlist of a stream, when it was started and when it last changed.
#[derive(Debug)]
pub struct LLHlsStreamState {
    /// The generator of the playlist.
    pub generator: LLHlsPlaylistGenerator,
    /// The number of parts of the current segment, which is the newest.
    pub current_part_count: usize,
    /// The target duration of a part.
    pub part_target: Double,
    /// The target duration of a segment.
    pub segment_target: Double,
    /// When the stream was started.
    pub start_time: Timestamp,
    /// When the playlist last changed.
    pub last_update: Timestamp,
}

/// What an [`LLHlsStreamState`] holds.
#[verifier::ext_equal]
pub struct StreamStateModel {
    pub generator: GeneratorModel,
    pub current_part_count: usize,
    pub part_target: Double,
    pub segment_target: Double,
    pub start_time: Timestamp,
    pub last_update: Timestamp,
}

impl StreamStateModel {
    /// The record after the playlist has become `g` at `now`.
    pub open spec fn touched(self, g: GeneratorModel, now: Timestamp) -> StreamStateModel {
        StreamStateModel {
            generator: g,
            current_part_count: g.part_count() as usize,
            last_update: now,
            ..self
        }
    }
}

impl View for LLHlsStreamState {
    type V = StreamStateModel;

    open spec fn view(&self) -> StreamStateModel {
        StreamStateModel {
            generator: self.generator@,
            current_part_count: self.current_part_count,
            part_target: self.part_target,
            segment_target: self.segment_target,
            start_time: self.start_time,
            last_update: self.last_update,
        }
    }
}

impl LLHlsStreamState {
    /// The segments are numbered without gaps, and the parts of the newest are
    /// counted.
    pub open spec fn wf(self) -> bool {
        &&& self.generator@.numbered()
        &&& self.generator@.current_sequence() <= u64::MAX
        &&& self.current_part_count == self.generator@.part_count()
    }

    /// Takes note of what the generator holds at `now`.
    fn touch(&mut self, now: Timestamp)
        ensures
            final(self)@ == old(self)@.touched(old(self)@.generator, now),
            final(self).generator == old(self).generator,
            final(self).current_part_count == final(self).generator@.part_count(),
    {
        self.current_part_count = self.generator.part_count();
        self.last_update = now;
    }
}

/// What is known of a stream.
#[derive(Clone, Debug)]
pub struct LLHlsStreamInfo {
    pub stream_name: String,
    pub quality_name: String,
    pub media_sequence: u64,
    pub part_index: usize,
    pub segment_count: usize,
    pub start_time: Timestamp,
    pub last_update: Timestamp,
}

/// The moments at which a stream is started: of its playlist, of its record,
/// and of the last update of that.
#[derive(Clone, Copy, Debug)]
pub struct StartMoments {
    pub playlist: Timestamp,
    pub start_time: Timestamp,
    pub last_update: Timestamp,
}

/// A stream that has just been started.
pub open spec fn started_stream(
    stream_name: Seq<char>,
    base_url: Seq<char>,
    quality_name: Seq<char>,
    bitrate: u64,
    at: StartMoments,
) -> StreamStateModel {
    StreamStateModel {
        generator: GeneratorModel::fresh(stream_name, base_url, quality_name, bitrate, at.playlist),
        current_part_count: 0,
        part_target: Double { bits: ONE },
        segment_target: Double { bits: FOUR },
        start_time: at.start_time,
        last_update: at.last_update,
    }
}

/// The bit rate of `len` bytes that last for `duration`, in whole bits per
/// second; five megabits where the duration is not above zero. The number of
/// bits is rounded to a floating-point number once: eight times such a number is
/// one too.
pub open spec fn bitrate_of(len: nat, duration: Double) -> u64 {
    if duration.is_positive() {
        whole_ratio(len * 8, duration)
    } else {
        5_000_000
    }
}

/// The generator after a file has come in. A part joins the newest segment; a
/// whole segment completes the newest and the next one starts; a file whose
/// name says neither is a segment of its own.
pub open spec fn after_file(
    g: GeneratorModel,
    filename: Seq<char>,
    len: nat,
    duration: Double,
    now: Timestamp,
) -> GeneratorModel {
    match parsed_filename(filename) {
        Some(info) => match info.part_index {
            Some(index) => g.with_part(
                PartModel { index: index as usize, duration, filename, independent: index == 0 },
            ),
            None => g.completed(filename, duration, bitrate_of(len, duration)).started(now),
        },
        None => g.started(now).completed(filename, duration, bitrate_of(len, duration)),
    }
}

/// A file of this name starts a segment.
pub open spec fn starts_segment(filename: Seq<char>) -> bool {
    match parsed_filename(filename) {
        Some(info) => info.part_index is None,
        None => true,
    }
}

/// The upload of a stream's playlist.
pub open spec fn playlist_upload(
    stream_name: Seq<char>,
    g: GeneratorModel,
    now: Timestamp,
) -> MemorySegmentModel {
    MemorySegmentModel {
        stream_name,
        file_name: "chunklist.m3u8"@,
        data: encode_utf8(media_playlist_text(g, Seq::empty())),
        content_type: "application/vnd.apple.mpegurl"@,
        priority: 255,
        created_at: now,
        retry_count: 0,
    }
}

/// The models of the streams of a map.
pub open spec fn stream_models(m: Map<Seq<char>, LLHlsStreamState>) -> Map<
    Seq<char>,
    StreamStateModel,
> {
    m.map_values(|s: LLHlsStreamState| s@)
}

/// What an [`LLHlsManager`] holds.
#[verifier::ext_equal]
pub struct LLHlsManagerModel {
    pub streams: Map<Seq<char>, StreamStateModel>,
    pub bucket: Seq<char>,
    pub base_url: Seq<char>,
}

impl LLHlsManagerModel {
    /// The manager after the generator of a stream has become `g` at `now`.
    pub open spec fn with_generator(
        self,
        name: Seq<char>,
        g: GeneratorModel,
        now: Timestamp,
    ) -> LLHlsManagerModel {
        LLHlsManagerModel {
            streams: self.streams.insert(name, self.streams[name].touched(g, now)),
            ..self
        }
    }

    /// The manager after the initialisation segment of a stream has been set at
    /// `now`; where there is no such stream nothing changes.
    pub open spec fn with_init(
        self,
        name: Seq<char>,
        filename: Seq<char>,
        now: Timestamp,
    ) -> LLHlsManagerModel {
        if self.streams.contains_key(name) {
            self.with_generator(
                name,
                GeneratorModel {
                    init_segment: Some(filename),
                    ..self.streams[name].generator
                },
                now,
            )
        } else {
            self
        }
    }

    /// `after` is the manager after the generator of the stream has become
    /// `g` at `now`, and `upload` the upload of its playlist; where there is
    /// no such stream nothing changes and nothing is uploaded.
    pub open spec fn published(
        self,
        after: LLHlsManagerModel,
        upload: Option<MemorySegment>,
        name: Seq<char>,
        g: GeneratorModel,
        now: Timestamp,
    ) -> bool {
        match upload {
            Some(segment) => {
                &&& self.streams.contains_key(name)
                &&& after == self.with_generator(name, g, now)
                &&& segment@ == playlist_upload(name, g, now)
            },
            None => !self.streams.contains_key(name) && after == self,
        }
    }
}

/// The playlists of all streams.
pub struct LLHlsManager {
    streams: Table<LLHlsStreamState>,
    bucket: String,
    base_url: String,
}

impl View for LLHlsManager {
    type V = LLHlsManagerModel;

    closed spec fn view(&self) -> LLHlsManagerModel {
        LLHlsManagerModel {
            streams: stream_models(self.streams@),
            bucket: self.bucket@,
            base_url: self.base_url@,
        }
    }
}

/// The bit rate of the data, in whole bits per second.
pub fn calculate_bitrate(data: &Vec<u8>, duration: Double) -> (r: u64)
    ensures
        r == bitrate_of(data@.len(), duration),
{
    if duration.above_zero() {
        divide_whole(data.len() as u128 * 8, &duration)
    } else {
        5_000_000
    }
}

impl LLHlsManager {
    /// Stream names are distinct, and every stream is well formed.
    pub closed spec fn wf(self) -> bool {
        &&& self.streams.wf()
        &&& forall|i: int|
            0 <= i < self.streams.rows().len() ==> (#[trigger] self.streams.rows()[i]).1.wf()
    }

    /// The segments of every stream are numbered one after the other.
    pub proof fn law_streams_are_numbered(self, name: Seq<char>)
        requires
            self.wf(),
            self@.streams.contains_key(name),
        ensures
            self@.streams[name].generator.numbered(),
            self@.streams[name].generator.current_sequence() <= u64::MAX,
    {
        let rows = self.streams.rows();
        assert(has_name(rows, name));
        let i = row_of(rows, name);
        lemma_row_value(rows, i);
        assert(rows[i].1.wf());
    }

    /// Every stream counts the parts of its newest segment.
    pub proof fn law_parts_are_counted(self, name: Seq<char>)
        requires
            self.wf(),
            self@.streams.contains_key(name),
        ensures
            self@.streams[name].current_part_count == self@.streams[name].generator.part_count(),
    {
        let rows = self.streams.rows();
        assert(has_name(rows, name));
        let i = row_of(rows, name);
        lemma_row_value(rows, i);
        assert(rows[i].1.wf());
    }

    /// A manager of no streams, which are delivered from a bucket.
    pub fn new(bucket: String) -> (r: Self)
        ensures
            r.wf(),
            r@ == (LLHlsManagerModel {
                streams: Map::empty(),
                bucket: bucket@,
                base_url: "https://"@ + bucket@ + ".s3.ap-northeast-2.amazonaws.com"@,
            }),
    {
        let base_url = writer::join3(
            "https://",
            bucket.as_str(),
            ".s3.ap-northeast-2.amazonaws.com",
        );
        let r = LLHlsManager { streams: Table::new(), bucket, base_url };
        assert(r@.streams =~= Map::<Seq<char>, StreamStateModel>::empty());
        r
    }

    /// The index of a stream, with what is known of it.
    fn find(&self, stream_name: &str) -> (r: Option<usize>)
        requires
            self.wf(),
        ensures
            match r {
                Some(at) => {
                    &&& at < self.streams.rows().len()
                    &&& self.streams.rows()[at as int].0 == stream_name@
                    &&& self.streams.rows()[at as int].1.wf()
                    &&& self@.streams.contains_key(stream_name@)
                    &&& self.streams.rows()[at as int].1@ == self@.streams[stream_name@]
                },
                None => !self@.streams.contains_key(stream_name@),
            },
    {
        let r = self.streams.position(stream_name);
        proof {
            match r {
                Some(at) => {
                    lemma_row_value(self.streams.rows(), at as int);
                },
                None => {},
            }
        }
        r
    }

    /// Starts a stream, in place of one of the same name.
    pub fn start_stream(&mut self, stream_name: &str, quality_name: &str, bitrate: u64)
        requires
            old(self).wf(),
        ensures
            final(self).wf(),
            exists|at: StartMoments|
                final(self)@ == (LLHlsManagerModel {
                    streams: old(self)@.streams.insert(
                        stream_name@,
                        #[trigger] started_stream(
                            stream_name@,
                            old(self)@.base_url,
                            quality_name@,
                            bitrate,
                            at,
                        ),
                    ),
                    ..old(self)@
                }),
    {
        let at = StartMoments {
            playlist: Timestamp::now(),
            start_time: Timestamp::now(),
            last_update: Timestamp::now(),
        };
        self.start_stream_at(stream_name, quality_name, bitrate, at);
    }

    /// Starts a stream at the given moments, in place of one of the same name.
    pub fn start_stream_at(
        &mut self,
        stream_name: &str,
        quality_name: &str,
        bitrate: u64,
        at: StartMoments,
    )
        requires
            old(self).wf(),
        ensures
            final(self).wf(),
            final(self)@ == (LLHlsManagerModel {
                streams: old(self)@.streams.insert(
                    stream_name@,
                    started_stream(
                        stream_name@,
                        old(self)@.base_url,
                        quality_name@,
                        bitrate,
                        at,
                    ),
                ),
                ..old(self)@
            }),
    {
        let ghost first = self@;
        let ghost rows = self.streams.rows();
        let generator = LLHlsPlaylistGenerator::new_at(
            stream_name.to_owned(),
            self.base_url.clone(),
            quality_name.to_owned(),
            bitrate,
            at.playlist,
        ).with_target_duration(Double { bits: FOUR }).with_part_target(
            Double { bits: ONE },
        ).with_max_segments(10);
        let state = LLHlsStreamState {
            generator,
            current_part_count: 0,
            part_target: Double { bits: ONE },
            segment_target: Double { bits: FOUR },
            start_time: at.start_time,
            last_update: at.last_update,
        };
        proof {
            law_three_times_one();
        }
        assert(state@ =~= started_stream(
            stream_name@,
            first.base_url,
            quality_name@,
            bitrate,
            at,
        ));
        self.streams.insert(stream_name.to_owned(), state);
        proof {
            assert(self@.streams =~= first.streams.insert(stream_name@, state@));
            if has_name(rows, stream_name@) {
                let i = row_of(rows, stream_name@);
                assert(self.streams.rows() == rows.update(i, (stream_name@, state)));
            }
            assert forall|i: int| 0 <= i < self.streams.rows().len() implies (
            #[trigger] self.streams.rows()[i]).1.wf() by {
                if i < rows.len() {
                    assert(rows[i].1.wf());
                }
            }
        }
    }

    /// Stops a stream, where there is one.
    pub fn stop_stream(&mut self, stream_name: &str)
        requires
            old(self).wf(),
        ensures
            final(self).wf(),
            final(self)@ == (LLHlsManagerModel {
                streams: old(self)@.streams.remove(stream_name@),
                ..old(self)@
            }),
    {
        let ghost first = self@;
        let ghost rows = self.streams.rows();
        let gone = self.streams.remove(stream_name);
        proof {
            assert(self@.streams =~= first.streams.remove(stream_name@));
            assert forall|i: int| 0 <= i < self.streams.rows().len() implies (
            #[trigger] self.streams.rows()[i]).1.wf() by {
                if gone is Some {
                    let at = choose|at: int|
                        0 <= at < rows.len() && rows[at] == (stream_name@, gone->0)
                            && self.streams.rows() == #[trigger] rows.remove(at);
                    if i < at {
                        assert(rows[i].1.wf());
                    } else {
                        assert(rows[i + 1].1.wf());
                    }
                } else {
                    assert(rows[i].1.wf());
                }
            }
        }
    }

    /// Sets the initialisation segment of a stream, where there is one.
    pub fn set_init_segment(&mut self, stream_name: &str, filename: &str)
        requires
            old(self).wf(),
        ensures
            final(self).wf(),
            exists|now: Timestamp|
                final(self)@ == #[trigger] old(self)@.with_init(stream_name@, filename@, now),
    {
        self.set_init_segment_at(stream_name, filename, Timestamp::now());
    }

    /// Sets the initialisation segment of a stream at `now`, where there is one.
    pub fn set_init_segment_at(&mut self, stream_name: &str, filename: &str, now: Timestamp)
        requires
            old(self).wf(),
        ensures
            final(self).wf(),
            final(self)@ == old(self)@.with_init(stream_name@, filename@, now),
    {
        let ghost first = self@;
        let ghost rows = self.streams.rows();
        match self.find(stream_name) {
            Some(at) => {
                let state = self.streams.value_at_mut(at);
                state.generator.set_init_segment(filename.to_owned());
                state.touch(now);
                proof {
                    let next = self.streams.rows()[at as int].1;
                    assert(self@.streams =~= first.streams.insert(stream_name@, next@));
                    assert(next@.generator.segments == rows[at as int].1@.generator.segments);
                    assert forall|i: int| 0 <= i < self.streams.rows().len() implies (
                    #[trigger] self.streams.rows()[i]).1.wf() by {
                        assert(rows[i].1.wf());
                    }
                }
            },
            None => {},
        }
    }

    /// Whether the next segment of a stream can be numbered; without such a
    /// stream there is nothing to number.
    pub fn can_start_segment(&self, stream_name: &str) -> (r: bool)
        requires
            self.wf(),
        ensures
            r == (self@.streams.contains_key(stream_name@)
                ==> self@.streams[stream_name@].generator.next_sequence() <= u64::MAX),
    {
        match self.find(stream_name) {
            Some(at) => self.streams.value_at(at).generator.can_start_segment(),
            None => true,
        }
    }

    /// Takes a file of a stream, and gives the upload of the playlist.
    pub fn process_segment_file(
        &mut self,
        stream_name: &str,
        filename: &str,
        data: &Vec<u8>,
        duration: Double,
    ) -> (r: Option<MemorySegment>)
        requires
            old(self).wf(),
            old(self)@.streams.contains_key(stream_name@) && starts_segment(filename@) ==> old(
                self,
            )@.streams[stream_name@].generator.next_sequence() <= u64::MAX,
        ensures
            final(self).wf(),
            exists|started: Timestamp, now: Timestamp| #[trigger]
                old(self)@.published(
                    final(self)@,
                    r,
                    stream_name@,
                    after_file(
                        old(self)@.streams[stream_name@].generator,
                        filename@,
                        data@.len(),
                        duration,
                        started,
                    ),
                    now,
                ),
    {
        let started = Timestamp::now();
        let now = Timestamp::now();
        self.process_segment_file_at(stream_name, filename, data, duration, started, now)
    }

    /// Takes a file of a stream: a segment that starts does so at `started`,
    /// and the playlist changes and its upload is made at `now`.
    pub fn process_segment_file_at(
        &mut self,
        stream_name: &str,
        filename: &str,
        data: &Vec<u8>,
        duration: Double,
        started: Timestamp,
        now: Timestamp,
    ) -> (r: Option<MemorySegment>)
        requires
            old(self).wf(),
            old(self)@.streams.contains_key(stream_name@) && starts_segment(filename@) ==> old(
                self,
            )@.streams[stream_name@].generator.next_sequence() <= u64::MAX,
        ensures
            final(self).wf(),
            old(self)@.published(
                final(self)@,
                r,
                stream_name@,
                after_file(
                    old(self)@.streams[stream_name@].generator,
                    filename@,
                    data@.len(),
                    duration,
                    started,
                ),
                now,
            ),
    {
        let ghost first = self@;
        let ghost rows = self.streams.rows();
        let at = match self.find(stream_name) {
            Some(at) => at,
            None => {
                return None;
            },
        };
        let ghost g = first.streams[stream_name@].generator;
        let state = self.streams.value_at_mut(at);
        match SegmentInfo::parse_filename(filename) {
            Some(info) => match info.part_index {
                Some(index) => {
                    let part = LLHlsPart {
                        index,
                        duration,
                        filename: filename.to_owned(),
                        independent: index == 0,
                    };
                    state.generator.add_part(part);
                },
                None => {
                    let bitrate: u64 = calculate_bitrate(data, duration);
                    state.generator.complete_segment(filename.to_owned(), duration, bitrate);
                    let _ = state.generator.start_segment_at(started);
                },
            },
            None => {
                let bitrate: u64 = calculate_bitrate(data, duration);
                let _ = state.generator.start_segment_at(started);
                state.generator.complete_segment(filename.to_owned(), duration, bitrate);
            },
        }
        state.touch(now);
        proof {
            let next = self.streams.rows()[at as int].1;
            let g1 = after_file(g, filename@, data@.len(), duration, started);
            assert(next@.generator == g1);
            assert(self@.streams =~= first.streams.insert(stream_name@, next@));
            assert(self@ =~= first.with_generator(stream_name@, g1, now));
            assert(next.wf());
            assert forall|i: int| 0 <= i < self.streams.rows().len() implies (
            #[trigger] self.streams.rows()[i]).1.wf() by {
                if i != at {
                    assert(rows[i].1.wf());
                }
            }
        }
        self.update_playlist_at(stream_name, now)
    }

    /// The upload of the playlist of a stream, where there is one.
    pub fn update_playlist(&self, stream_name: &str) -> (r: Option<MemorySegment>)
        requires
            self.wf(),
        ensures
            match r {
                Some(segment) => {
                    &&& self@.streams.contains_key(stream_name@)
                    &&& exists|now: Timestamp|
                        segment@ == #[trigger] playlist_upload(
                            stream_name@,
                            self@.streams[stream_name@].generator,
                            now,
                        )
                },
                None => !self@.streams.contains_key(stream_name@),
            },
    {
        self.update_playlist_at(stream_name, Timestamp::now())
    }

    /// The upload of the playlist of a stream, where there is one, made at `now`.
    pub fn update_playlist_at(&self, stream_name: &str, now: Timestamp) -> (r: Option<
        MemorySegment,
    >)
        requires
            self.wf(),
        ensures
            match r {
                Some(segment) => {
                    &&& self@.streams.contains_key(stream_name@)
                    &&& segment@ == playlist_upload(
                        stream_name@,
                        self@.streams[stream_name@].generator,
                        now,
                    )
                },
                None => !self@.streams.contains_key(stream_name@),
            },
    {
        match self.find(stream_name) {
            Some(at) => {
                let content = self.streams.value_at(at).generator.generate_media_playlist(None);
                Some(
                    MemorySegment {
                        stream_name: stream_name.to_owned(),
                        file_name: "chunklist.m3u8".to_owned(),
                        data: content.as_str().as_bytes_vec(),
                        content_type: "application/vnd.apple.mpegurl".to_owned(),
                        priority: 255,
                        created_at: now,
                        retry_count: 0,
                    },
                )
            },
            None => None,
        }
    }

    /// Adds a part to the newest segment of a stream, and gives the upload of
    /// the playlist.
    pub fn add_part(
        &mut self,
        stream_name: &str,
        filename: &str,
        duration: Double,
        independent: bool,
    ) -> (r: Option<MemorySegment>)
        requires
            old(self).wf(),
        ensures
            final(self).wf(),
            exists|now: Timestamp| #[trigger]
                old(self)@.published(
                    final(self)@,
                    r,
                    stream_name@,
                    after_part(
                        old(self)@.streams[stream_name@].generator,
                        filename@,
                        duration,
                        independent,
                    ),
                    now,
                ),
    {
        self.add_part_at(stream_name, filename, duration, independent, Timestamp::now())
    }

    /// Adds a part to the newest segment of a stream at `now`, when the upload
    /// of the playlist is made too.
    pub fn add_part_at(
        &mut self,
        stream_name: &str,
        filename: &str,
        duration: Double,
        independent: bool,
        now: Timestamp,
    ) -> (r: Option<MemorySegment>)
        requires
            old(self).wf(),
        ensures
            final(self).wf(),
            old(self)@.published(
                final(self)@,
                r,
                stream_name@,
                after_part(
                    old(self)@.streams[stream_name@].generator,
                    filename@,
                    duration,
                    independent,
                ),
                now,
            ),
    {
        let ghost first = self@;
        let ghost rows = self.streams.rows();
        let at = match self.find(stream_name) {
            Some(at) => at,
            None => {
                return None;
            },
        };
        let ghost g = first.streams[stream_name@].generator;
        let state = self.streams.value_at_mut(at);
        let part = LLHlsPart {
            index: state.generator.part_count(),
            duration,
            filename: filename.to_owned(),
            independent,
        };
        state.generator.add_part(part);
        state.touch(now);
        proof {
            let next = self.streams.rows()[at as int].1;
            let g1 = after_part(g, filename@, duration, independent);
            assert(next@.generator == g1);
            assert(self@.streams =~= first.streams.insert(stream_name@, next@));
            assert(self@ =~= first.with_generator(stream_name@, g1, now));
            assert forall|i: int| 0 <= i < self.streams.rows().len() implies (
            #[trigger] self.streams.rows()[i]).1.wf() by {
                if i != at {
                    assert(rows[i].1.wf());
                }
            }
        }
        self.update_playlist_at(stream_name, now)
    }

    /// Completes the newest segment of a stream and starts the next one, and
    /// gives the upload of the playlist.
    pub fn complete_segment(
        &mut self,
        stream_name: &str,
        filename: &str,
        duration: Double,
        bitrate: u64,
    ) -> (r: Option<MemorySegment>)
        requires
            old(self).wf(),
            old(self)@.streams.contains_key(stream_name@) ==> old(
                self,
            )@.streams[stream_name@].generator.next_sequence() <= u64::MAX,
        ensures
            final(self).wf(),
            exists|started: Timestamp, now: Timestamp| #[trigger]
                old(self)@.published(
                    final(self)@,
                    r,
                    stream_name@,
                    old(self)@.streams[stream_name@].generator.completed(
                        filename@,
                        duration,
                        bitrate,
                    ).started(started),
                    now,
                ),
    {
        let started = Timestamp::now();
        let now = Timestamp::now();
        self.complete_segment_at(stream_name, filename, duration, bitrate, started, now)
    }

    /// Completes the newest segment of a stream and starts the next one at
    /// `started`; the playlist changes and its upload is made at `now`.
    pub fn complete_segment_at(
        &mut self,
        stream_name: &str,
        filename: &str,
        duration: Double,
        bitrate: u64,
        started: Timestamp,
        now: Timestamp,
    ) -> (r: Option<MemorySegment>)
        requires
            old(self).wf(),
            old(self)@.streams.contains_key(stream_name@) ==> old(
                self,
            )@.streams[stream_name@].generator.next_sequence() <= u64::MAX,
        ensures
            final(self).wf(),
            old(self)@.published(
                final(self)@,
                r,
                stream_name@,
                old(self)@.streams[stream_name@].generator.completed(
                    filename@,
                    duration,
                    bitrate,
                ).started(started),
                now,
            ),
    {
        let ghost first = self@;
        let ghost rows = self.streams.rows();
        let at = match self.find(stream_name) {
            Some(at) => at,
            None => {
                return None;
            },
        };
        let ghost g = first.streams[stream_name@].generator;
        let state = self.streams.value_at_mut(at);
        state.generator.complete_segment(filename.to_owned(), duration, bitrate);
        let _ = state.generator.start_segment_at(started);
        state.touch(now);
        proof {
            let next = self.streams.rows()[at as int].1;
            let g1 = g.completed(filename@, duration, bitrate).started(started);
            assert(next@.generator == g1);
            assert(self@.streams =~= first.streams.insert(stream_name@, next@));
            assert(self@ =~= first.with_generator(stream_name@, g1, now));
            assert forall|i: int| 0 <= i < self.streams.rows().len() implies (
            #[trigger] self.streams.rows()[i]).1.wf() by {
                if i != at {
                    assert(rows[i].1.wf());
                }
            }
        }
        self.update_playlist_at(stream_name, now)
    }

    /// The playlist of a stream as it is now.
    pub fn get_playlist(&self, stream_name: &str) -> (r: Option<String>)
        requires
            self.wf(),
        ensures
            match r {
                Some(content) => {
                    &&& self@.streams.contains_key(stream_name@)
                    &&& content@ == media_playlist_text(
                        self@.streams[stream_name@].generator,
                        Seq::empty(),
                    )
                },
                None => !self@.streams.contains_key(stream_name@),
            },
    {
        match self.find(stream_name) {
            Some(at) => Some(self.streams.value_at(at).generator.generate_media_playlist(None)),
            None => None,
        }
    }

    /// Whether there is such a stream.
    pub fn has_stream(&self, stream_name: &str) -> (r: bool)
        ensures
            r == self@.streams.contains_key(stream_name@),
    {
        self.streams.contains_key(stream_name)
    }

    /// The number of streams.
    pub fn active_stream_count(&self) -> (r: usize)
        requires
            self.wf(),
        ensures
            self@.streams.dom().finite(),
            r == self@.streams.len(),
    {
        proof {
            lemma_row_count(self.streams.rows());
        }
        assert(self@.streams.dom() =~= self.streams@.dom());
        self.streams.len()
    }

    /// What is kept of a stream.
    pub fn get_stream_state(&self, stream_name: &str) -> (r: Option<&LLHlsStreamState>)
        requires
            self.wf(),
        ensures
            match r {
                Some(state) => {
                    &&& self@.streams.contains_key(stream_name@)
                    &&& state@ == self@.streams[stream_name@]
                },
                None => !self@.streams.contains_key(stream_name@),
            },
    {
        match self.find(stream_name) {
            Some(at) => Some(self.streams.value_at(at)),
            None => None,
        }
    }

    /// What is known of a stream.
    pub fn get_stream_info(&self, stream_name: &str) -> (r: Option<LLHlsStreamInfo>)
        requires
            self.wf(),
        ensures
            match r {
                Some(info) => {
                    let state = self@.streams[stream_name@];
                    &&& self@.streams.contains_key(stream_name@)
                    &&& info.stream_name@ == stream_name@
                    &&& info.quality_name@ == state.generator.quality_name
                    &&& info.media_sequence == state.generator.current_sequence()
                    &&& info.part_index == state.generator.part_index()
                    &&& info.segment_count == state.generator.segments.len()
                    &&& info.start_time == state.start_time
                    &&& info.last_update == state.last_update
                },
                None => !self@.streams.contains_key(stream_name@),
            },
    {
        match self.find(stream_name) {
            Some(at) => {
                let state = self.streams.value_at(at);
                Some(
                    LLHlsStreamInfo {
                        stream_name: stream_name.to_owned(),
                        quality_name: state.generator.quality_name().to_owned(),
                        media_sequence: state.generator.current_media_sequence(),
                        part_index: state.generator.current_part_index(),
                        segment_count: state.generator.segment_count(),
                        start_time: state.start_time,
                        last_update: state.last_update,
                    },
                )
            },
            None => None,
        }
    }
}

/// The generator after a part has been added: its index is the number of parts
/// that the newest segment had.
pub open spec fn after_part(
    g: GeneratorModel,
    filename: Seq<char>,
    duration: Double,
    independent: bool,
) -> GeneratorModel {
    g.with_part(
        PartModel { index: g.part_count() as usize, duration, filename, independent },
    )
}

/// A segment as the encoder's playlist lists it.
#[derive(Clone, Debug)]
pub struct ParsedSegment {
    pub filename: String,
    pub duration: Double,
    pub program_date_time: Option<String>,
}

/// What a [`ParsedSegment`] says.
#[verifier::ext_equal]
pub struct ParsedModel {
    pub filename: Seq<char>,
    pub duration: Double,
    pub program_date_time: Option<Seq<char>>,
}

impl View for ParsedSegment {
    type V = ParsedModel;

    open spec fn view(&self) -> ParsedModel {
        ParsedModel {
            filename: self.filename@,
            duration: self.duration,
            program_date_time: text_of(self.program_date_time),
        }
    }
}

/// What has been read of the encoder's playlist.
#[verifier::ext_equal]
pub struct PlaylistReading {
    pub segments: Seq<ParsedModel>,
    /// The duration that the next segment gets.
    pub duration: Double,
    /// The wall-clock time that the next segment gets.
    pub program_time: Option<Seq<char>>,
    /// The number of durations that have been come across.
    pub durations: nat,
}

/// The text of the number on an `#EXTINF` line, without trailing commas.
pub open spec fn listed_duration_of(line: Seq<char>) -> Option<Seq<char>> {
    if has_prefix(line, "#EXTINF:"@) {
        Some(trim_end(line.skip("#EXTINF:"@.len() as int), ","@))
    } else {
        None
    }
}

/// The number texts of the `#EXTINF` lines.
pub open spec fn listed_durations_of(ls: Seq<Seq<char>>) -> Seq<Seq<char>>
    decreases ls.len(),
{
    if ls.len() == 0 {
        Seq::empty()
    } else {
        let before = listed_durations_of(ls.drop_last());
        match listed_duration_of(ls.last()) {
            Some(number) => before.push(number),
            None => before,
        }
    }
}

/// The reading after one more line. A duration that could not be read leaves
/// the one before it.
pub open spec fn read_line(
    before: PlaylistReading,
    line: Seq<char>,
    durations: Seq<Option<Double>>,
) -> PlaylistReading {
    if has_prefix(line, "#EXTINF:"@) {
        let at = before.durations as int;
        PlaylistReading {
            duration: if at < durations.len() && durations[at] is Some {
                durations[at]->0
            } else {
                before.duration
            },
            durations: before.durations + 1,
            ..before
        }
    } else if has_prefix(line, "#EXT-X-PROGRAM-DATE-TIME:"@) {
        PlaylistReading {
            program_time: Some(line.skip("#EXT-X-PROGRAM-DATE-TIME:"@.len() as int)),
            ..before
        }
    } else if !has_prefix(line, "#"@) && line.len() > 0 {
        PlaylistReading {
            segments: before.segments.push(
                ParsedModel {
                    filename: line,
                    duration: before.duration,
                    program_date_time: before.program_time,
                },
            ),
            duration: Double { bits: 0 },
            program_time: None,
            ..before
        }
    } else {
        before
    }
}

/// What the lines say, where `durations` is what the number texts of their
/// `#EXTINF` lines read as.
pub open spec fn read_lines(
    ls: Seq<Seq<char>>,
    durations: Seq<Option<Double>>,
) -> PlaylistReading
    decreases ls.len(),
{
    if ls.len() == 0 {
        PlaylistReading {
            segments: Seq::empty(),
            duration: Double { bits: 0 },
            program_time: None,
            durations: 0,
        }
    } else {
        read_line(read_lines(ls.drop_last(), durations), ls.last(), durations)
    }
}

/// The models of the segments.
pub open spec fn parsed_models(segments: Seq<ParsedSegment>) -> Seq<ParsedModel> {
    segments.map_values(|s: ParsedSegment| s@)
}

/// The number texts of the `#EXTINF` lines of the encoder's playlist, in order.
pub fn listed_durations(content: &str) -> (r: Vec<String>)
    ensures
        texts(r@) == listed_durations_of(lines(content@)),
{
    let all = text::lines_of(content);
    let ghost ls = texts(all@);
    let mut out: Vec<String> = Vec::new();
    let mut i: usize = 0;
    assert(texts(out@) =~= listed_durations_of(ls.take(0)));
    while i < all.len()
        invariant
            i <= all.len(),
            ls == texts(all@),
            texts(out@) == listed_durations_of(ls.take(i as int)),
        decreases all.len() - i,
    {
        let ghost before = out@;
        assert(ls.take(i + 1).drop_last() =~= ls.take(i as int));
        assert(ls[i as int] == all@[i as int]@);
        match text::strip_prefix(all[i].as_str(), "#EXTINF:") {
            Some(rest) => {
                let number = text::trim_end_matches(rest.as_str(), ",");
                out.push(number);
                assert(texts(out@) =~= texts(before).push(number@));
            },
            None => {},
        }
        i = i + 1;
    }
    assert(ls.take(i as int) =~= ls);
    out
}

/// The segments that the encoder's playlist lists, where `durations` is what
/// the texts of [`listed_durations`] read as.
pub fn parse_ffmpeg_playlist(content: &str, durations: &Vec<Option<Double>>) -> (r: Vec<
    ParsedSegment,
>)
    ensures
        parsed_models(r@) == read_lines(lines(content@), durations@).segments,
{
    let all = text::lines_of(content);
    let ghost ls = texts(all@);
    let mut segments: Vec<ParsedSegment> = Vec::new();
    let mut current_duration = Double { bits: 0 };
    let mut current_program_time: Option<String> = None;
    let mut seen: usize = 0;
    let mut i: usize = 0;
    assert(parsed_models(segments@) =~= read_lines(ls.take(0), durations@).segments);
    while i < all.len()
        invariant
            i <= all.len(),
            seen <= i,
            ls == texts(all@),
            read_lines(ls.take(i as int), durations@) == (PlaylistReading {
                segments: parsed_models(segments@),
                duration: current_duration,
                program_time: text_of(current_program_time),
                durations: seen as nat,
            }),
        decreases all.len() - i,
    {
        assert(ls.take(i + 1).drop_last() =~= ls.take(i as int));
        assert(ls[i as int] == all@[i as int]@);
        let line = all[i].as_str();
        if text::starts_with(line, "#EXTINF:") {
            if seen < durations.len() {
                match durations[seen] {
                    Some(duration) => {
                        current_duration = duration;
                    },
                    None => {},
                }
            }
            seen = seen + 1;
        } else {
            match text::strip_prefix(line, "#EXT-X-PROGRAM-DATE-TIME:") {
                Some(time) => {
                    current_program_time = Some(time);
                },
                None => {
                    if !text::starts_with(line, "#") && line.unicode_len() > 0 {
                        let ghost before = segments@;
                        let segment = ParsedSegment {
                            filename: line.to_owned(),
                            duration: current_duration,
                            program_date_time: current_program_time,
                        };
                        segments.push(segment);
                        current_duration = Double { bits: 0 };
                        current_program_time = None;
                        assert(parsed_models(segments@) =~= parsed_models(before).push(segment@));
                    }
                },
            }
        }
        i = i + 1;
    }
    assert(ls.take(i as int) =~= ls);
    segments
}

/// There is a number text for every duration that is come across, so that
/// what they read as can be handed over one for one.
pub proof fn law_durations_match_lines(ls: Seq<Seq<char>>, durations: Seq<Option<Double>>)
    ensures
        read_lines(ls, durations).durations == listed_durations_of(ls).len(),
    decreases ls.len(),
{
    if ls.len() > 0 {
        law_durations_match_lines(ls.drop_last(), durations);
    }
}

/// Whatever a file of a stream is, the segments stay numbered one after the
/// other, and the next number grows by at most one.
pub proof fn law_files_keep_numbering(
    g: GeneratorModel,
    filename: Seq<char>,
    len: nat,
    duration: Double,
    now: Timestamp,
)
    requires
        g.numbered(),
        g.next_sequence() <= u64::MAX,
    ensures
        after_file(g, filename, len, duration, now).numbered(),
        after_file(g, filename, len, duration, now).next_sequence() == g.next_sequence() + (
        if starts_segment(filename) {
            1int
        } else {
            0
        }),
{
}

/// The lines that name segments: those that are neither empty nor begin with a
/// number sign.
pub open spec fn segment_lines(ls: Seq<Seq<char>>) -> Seq<Seq<char>>
    decreases ls.len(),
{
    if ls.len() == 0 {
        Seq::empty()
    } else {
        let before = segment_lines(ls.drop_last());
        if !has_prefix(ls.last(), "#"@) && ls.last().len() > 0 {
            before.push(ls.last())
        } else {
            before
        }
    }
}

proof fn lemma_tag_begins_with_sign(line: Seq<char>)
    ensures
        has_prefix(line, "#EXTINF:"@) ==> has_prefix(line, "#"@),
        has_prefix(line, "#EXT-X-PROGRAM-DATE-TIME:"@) ==> has_prefix(line, "#"@),
{
    reveal_strlit("#");
    reveal_strlit("#EXTINF:");
    reveal_strlit("#EXT-X-PROGRAM-DATE-TIME:");
    if has_prefix(line, "#EXTINF:"@) {
        assert(line[0] == line.take("#EXTINF:"@.len() as int)[0]);
        assert(line.take(1) =~= "#"@);
    }
    if has_prefix(line, "#EXT-X-PROGRAM-DATE-TIME:"@) {
        assert(line[0] == line.take("#EXT-X-PROGRAM-DATE-TIME:"@.len() as int)[0]);
        assert(line.take(1) =~= "#"@);
    }
}

/// Every line that names a segment gives one, in the order of the lines,
/// whatever the durations read as.
pub proof fn law_every_named_segment_is_read(
    ls: Seq<Seq<char>>,
    durations: Seq<Option<Double>>,
)
    ensures
        read_lines(ls, durations).segments.map_values(|s: ParsedModel| s.filename)
            == segment_lines(ls),
    decreases ls.len(),
{
    let names = |s: ParsedModel| s.filename;
    if ls.len() > 0 {
        let before = read_lines(ls.drop_last(), durations);
        let after = read_lines(ls, durations);
        law_every_named_segment_is_read(ls.drop_last(), durations);
        lemma_tag_begins_with_sign(ls.last());
        assert(before.segments.map_values(names) =~= segment_lines(ls.drop_last()));
        if !has_prefix(ls.last(), "#"@) && ls.last().len() > 0 {
            assert(after.segments.map_values(names) =~= before.segments.map_values(names).push(
                ls.last(),
            ));
        }
    }
    assert(read_lines(ls, durations).segments.map_values(names) =~= segment_lines(ls));
}

/// A part that is added to a segment gets the index at which it stands there.
pub proof fn law_added_part_is_indexed(
    g: GeneratorModel,
    filename: Seq<char>,
    duration: Double,
    independent: bool,
)
    requires
        g.segments.len() > 0,
        g.part_count() <= usize::MAX,
    ensures
        after_part(g, filename, duration, independent).part_count() == g.part_count() + 1,
        after_part(g, filename, duration, independent).segments.last().parts.last() == (PartModel {
            index: after_part(g, filename, duration, independent).part_index() as usize,
            duration,
            filename,
            independent,
        }),
{
}

/// A stream starts with an empty playlist of its own, with parts of a second and
/// segments of four.
pub proof fn law_started_stream(
    stream_name: Seq<char>,
    base_url: Seq<char>,
    quality_name: Seq<char>,
    bitrate: u64,
    at: StartMoments,
)
    ensures
        ({
            let s = started_stream(stream_name, base_url, quality_name, bitrate, at);
            &&& s.generator.stream_name == stream_name
            &&& s.generator.base_url == base_url
            &&& s.generator.quality_name == quality_name
            &&& s.generator.bitrate == bitrate
            &&& s.generator.start_date == at.playlist
            &&& s.generator.segments.len() == 0
            &&& s.generator.media_sequence == 0
            &&& s.generator.max_segments == 10
            &&& s.generator.part_target == s.part_target
            &&& s.generator.target_duration == s.segment_target
            &&& s.generator.part_hold_back == s.part_target.times(3)
            &&& s.part_target == Double::whole(1)
            &&& s.segment_target == Double::whole(4)
            &&& s.current_part_count == 0
            &&& s.start_time == at.start_time
            &&& s.last_update == at.last_update
        }),
{
    law_named_numbers();
    law_three_times_one();
}

/// The bit rate of data whose duration is not above zero is taken to be five
/// megabits; otherwise it is eight bits for each byte over the duration, divided
/// as floating-point numbers are, without the fraction.
pub proof fn law_bitrate(len: nat, duration: Double)
    ensures
        !duration.is_positive() ==> bitrate_of(len, duration) == 5_000_000,
        duration.is_positive() ==> bitrate_of(len, duration) == Double::whole(8 * len).over(
            duration,
        ).truncated(),
{
}

/// A part file joins the newest segment, under its own name and index and with
/// its duration; the first of a segment can be played on its own.
pub proof fn law_part_file_joins(
    g: GeneratorModel,
    info: SegmentInfo,
    len: nat,
    duration: Double,
    now: Timestamp,
)
    requires
        !info.quality@.contains('_'),
        !info.hash@.contains('_'),
        info.part_index is Some,
        g.segments.len() > 0,
    ensures
        ({
            let name = file_stem(info@) + ".m4v"@;
            let after = after_file(g, name, len, duration, now);
            let part = after.segments.last().parts.last();
            &&& !starts_segment(name)
            &&& after.segments.len() == g.segments.len()
            &&& after.segments.last().parts.drop_last() == g.segments.last().parts
            &&& part.filename == name
            &&& part.index == info.part_index->0
            &&& part.duration == duration
            &&& part.independent == (info.part_index->0 == 0)
            &&& after.segments.last().duration == g.segments.last().duration.sum(duration)
            &&& after.segments.last().is_complete == g.segments.last().is_complete
            &&& after.segments.drop_last() == g.segments.drop_last()
        }),
{
    let name = file_stem(info@) + ".m4v"@;
    law_filename_round_trip(info);
    let after = after_file(g, name, len, duration, now);
    assert(after.segments.last().parts.drop_last() =~= g.segments.last().parts);
    assert(after.segments.drop_last() =~= g.segments.drop_last());
}

/// A whole segment completes the newest one with its name, duration and bit
/// rate, and the next segment starts.
pub proof fn law_whole_file_completes(
    g: GeneratorModel,
    info: SegmentInfo,
    len: nat,
    duration: Double,
    now: Timestamp,
)
    requires
        !info.quality@.contains('_'),
        !info.hash@.contains('_'),
        info.part_index is None,
        g.segments.len() > 0,
        g.max_segments > 0,
        g.next_sequence() <= u64::MAX,
    ensures
        ({
            let name = file_stem(info@) + ".m4v"@;
            let after = after_file(g, name, len, duration, now);
            let n = after.segments.len() as int;
            let done = after.segments[n - 2];
            let next = after.segments[n - 1];
            &&& starts_segment(name)
            &&& n >= 2
            &&& done.is_complete
            &&& done.filename == name
            &&& done.duration == duration
            &&& done.bitrate == bitrate_of(len, duration)
            &&& done.parts == g.segments.last().parts
            &&& done.sequence == g.segments.last().sequence
            &&& !next.is_complete
            &&& next.parts.len() == 0
            &&& next.sequence == g.next_sequence()
            &&& next.program_date_time == now
        }),
{
    law_filename_round_trip(info);
}

/// A file whose name says nothing is a segment of its own: it stands complete at
/// the end of the window, which began at that moment.
pub proof fn law_other_file_is_a_segment(
    g: GeneratorModel,
    name: Seq<char>,
    len: nat,
    duration: Double,
    now: Timestamp,
)
    requires
        parsed_filename(name) is None,
        g.next_sequence() <= u64::MAX,
    ensures
        ({
            let after = after_file(g, name, len, duration, now);
            let s = after.segments.last();
            &&& starts_segment(name)
            &&& after.segments.len() > 0
            &&& s.is_complete
            &&& s.filename == name
            &&& s.duration == duration
            &&& s.bitrate == bitrate_of(len, duration)
            &&& s.parts.len() == 0
            &&& s.sequence == g.next_sequence()
            &&& s.program_date_time == now
        }),
{
}

/// The playlist of a stream is uploaded under its own name, as what it is and
/// before everything else, with the text that it then has.
pub proof fn law_playlist_upload(stream_name: Seq<char>, g: GeneratorModel, now: Timestamp)
    ensures
        ({
            let upload = playlist_upload(stream_name, g, now);
            &&& upload.stream_name == stream_name
            &&& upload.file_name == "chunklist.m3u8"@
            &&& upload.data == encode_utf8(media_playlist_text(g, Seq::empty()))
            &&& upload.content_type == "application/vnd.apple.mpegurl"@
            &&& upload.priority == u8::MAX
            &&& upload.created_at == now
            &&& upload.retry_count == 0
        }),
{
}

/// What is published of a stream is what its playlist has become; the record
/// counts its parts and tells when. Where there is no such stream, nothing is
/// published and nothing changes. No other stream is touched.
pub proof fn law_only_that_stream_changes(
    m: LLHlsManagerModel,
    after: LLHlsManagerModel,
    upload: Option<MemorySegment>,
    name: Seq<char>,
    g: GeneratorModel,
    now: Timestamp,
    other: Seq<char>,
)
    requires
        m.published(after, upload, name, g, now),
    ensures
        upload is Some <==> m.streams.contains_key(name),
        upload is None ==> after == m,
        upload matches Some(segment) ==> {
            &&& segment@ == playlist_upload(name, g, now)
            &&& after.streams.contains_key(name)
            &&& after.streams[name].generator == g
            &&& g.part_count() <= usize::MAX ==> after.streams[name].current_part_count
                == g.part_count()
            &&& after.streams[name].last_update == now
            &&& after.streams[name].start_time == m.streams[name].start_time
            &&& after.streams[name].part_target == m.streams[name].part_target
            &&& after.streams[name].segment_target == m.streams[name].segment_target
        },
        other != name ==> after.streams.contains_key(other) == m.streams.contains_key(other),
        other != name && m.streams.contains_key(other) ==> after.streams[other] == m.streams[other],
        after.bucket == m.bucket,
        after.base_url == m.base_url,
{
}

/// Setting the initialisation segment of a stream changes that and when it last
/// changed; without such a stream nothing changes.
pub proof fn law_init_is_set(
    m: LLHlsManagerModel,
    name: Seq<char>,
    filename: Seq<char>,
    now: Timestamp,
    other: Seq<char>,
)
    ensures
        !m.streams.contains_key(name) ==> m.with_init(name, filename, now) == m,
        m.streams.contains_key(name) ==> {
            let after = m.with_init(name, filename, now).streams[name];
            &&& after.generator.init_segment == Some(filename)
            &&& after.generator.segments == m.streams[name].generator.segments
            &&& after.generator.media_sequence == m.streams[name].generator.media_sequence
            &&& after.last_update == now
        },
        other != name && m.streams.contains_key(other) ==> m.with_init(
            name,
            filename,
            now,
        ).streams[other] == m.streams[other],
{
}

/// The number of an `#EXTINF` line is what stands behind the tag, without the
/// commas at its end; another line has none. The numbers stand in the order of
/// the lines.
pub proof fn law_listed_duration_is_read(
    number: Seq<char>,
    line: Seq<char>,
    ls: Seq<Seq<char>>,
)
    requires
        number.len() == 0 || number.last() != ',',
    ensures
        listed_duration_of("#EXTINF:"@ + number) == Some(number),
        has_prefix(line, "#EXTINF:"@) ==> listed_duration_of(line + ","@) == listed_duration_of(line),
        !has_prefix(line, "#EXTINF:"@) ==> listed_duration_of(line) is None,
        listed_durations_of(Seq::empty()).len() == 0,
        listed_duration_of(line) is None ==> listed_durations_of(ls.push(line))
            == listed_durations_of(ls),
        listed_duration_of(line) matches Some(n) ==> listed_durations_of(ls.push(line))
            == listed_durations_of(ls).push(n),
{
    let tag = "#EXTINF:"@;
    reveal_strlit(",");
    let b = tag + number;
    assert(b.take(tag.len() as int) =~= tag);
    assert(b.skip(tag.len() as int) =~= number);
    if text::has_suffix(number, ","@) {
        assert(number.skip(number.len() - 1)[0] == number.last());
    }
    assert(trim_end(number, ","@) == number);
    if has_prefix(line, tag) {
        let more = line + ","@;
        let rest = line.skip(tag.len() as int);
        assert(more.take(tag.len() as int) =~= line.take(tag.len() as int));
        assert(more.skip(tag.len() as int) =~= rest + ","@);
        text::law_copies_come_off(rest, ","@);
    }
    assert(ls.push(line).drop_last() =~= ls);
}

/// What the three lines of a segment add to what was read: the segment, with its
/// name, its moment and the duration that its number reads as. Where the number
/// does not read, the duration that was pending stands. What was pending is then
/// used up. An empty line, and any other tag, adds nothing.
pub proof fn law_listed_segment_is_read(
    ls: Seq<Seq<char>>,
    durations: Seq<Option<Double>>,
    time: Seq<char>,
    number: Seq<char>,
    name: Seq<char>,
    other: Seq<char>,
)
    requires
        name.len() > 0,
        name[0] != '#',
        other.len() > 0 ==> other[0] == '#',
        !has_prefix(other, "#EXTINF:"@),
        !has_prefix(other, "#EXT-X-PROGRAM-DATE-TIME:"@),
    ensures
        ({
            let before = read_lines(ls, durations);
            let all = ls.push("#EXT-X-PROGRAM-DATE-TIME:"@ + time).push("#EXTINF:"@ + number).push(
                name,
            );
            let after = read_lines(all, durations);
            let k = before.durations as int;
            &&& after.segments.len() == before.segments.len() + 1
            &&& after.segments.drop_last() == before.segments
            &&& after.segments.last().filename == name
            &&& after.segments.last().program_date_time == Some(time)
            &&& k < durations.len() && durations[k] is Some ==> after.segments.last().duration
                == durations[k]->0
            &&& !(k < durations.len() && durations[k] is Some) ==> after.segments.last().duration
                == before.duration
            &&& after.durations == before.durations + 1
            &&& after.duration.units() == 0
            &&& after.program_time is None
        }),
        read_lines(ls.push(other), durations) == read_lines(ls, durations),
        read_lines(Seq::empty(), durations).segments.len() == 0,
        read_lines(Seq::empty(), durations).durations == 0,
        read_lines(Seq::empty(), durations).program_time is None,
        read_lines(Seq::empty(), durations).duration.units() == 0,
{
    let before = read_lines(ls, durations);
    let t = "#EXT-X-PROGRAM-DATE-TIME:"@;
    let e = "#EXTINF:"@;
    let one = ls.push(t + time);
    let two = one.push(e + number);
    let three = two.push(name);
    reveal_strlit("#EXT-X-PROGRAM-DATE-TIME:");
    reveal_strlit("#EXTINF:");
    reveal_strlit("#");
    assert(one.drop_last() =~= ls);
    assert(two.drop_last() =~= one);
    assert(three.drop_last() =~= two);
    assert((t + time).take(t.len() as int) =~= t);
    assert((t + time).skip(t.len() as int) =~= time);
    assert((e + number).take(e.len() as int) =~= e);
    if has_prefix(t + time, e) {
        assert((t + time).take(e.len() as int)[4] == e[4]);
        assert((t + time)[4] == t[4]);
    }
    lemma_tag_begins_with_sign(name);
    if has_prefix(name, "#"@) {
        assert(name.take(1)[0] == name[0]);
    }
    let first = read_lines(one, durations);
    let second = read_lines(two, durations);
    assert(first == read_line(before, t + time, durations));
    assert(second == read_line(first, e + number, durations));
    assert(read_lines(three, durations) == read_line(second, name, durations));
    assert(ls.push(other).drop_last() =~= ls);
    if other.len() > 0 {
        assert(other.take(1) =~= "#"@);
    }
    let after = read_lines(three, durations);
    assert(after.segments.drop_last() =~= before.segments);
    assert(0 * pow2(0) == 0);
}

} // verus!
