//! Encoder pipelines whose files a watcher uploads.

use crate::config::Config;
use crate::streaming::pipeline::{broken_text, Pipelines};
use crate::text::{owned_all, strs, texts};
use crate::writer;
use std::collections::HashMap;
use vstd::prelude::*;

verus! {

/// A running encoder and the watcher of its files, behind the handle `H`.
#[derive(Debug)]
pub struct MemoryFfmpegPipeline<H> {
    pub handle: H,
    pub stream_id: u32,
    pub stream_name: String,
}

/// Where an encoder writes, and the arguments that it is started with.
#[derive(Debug)]
pub struct PipelinePlan {
    pub output_dir: String,
    pub args: Vec<String>,
}

/// The directory that the encoder of a stream writes to.
pub open spec fn temp_dir_of(stream_name: Seq<char>) -> Seq<char> {
    "/tmp/hls_temp/"@ + stream_name
}

/// The arguments of the encoder: segments of two seconds in fragmented MP4.
pub open spec fn encoder_args_of(temp_dir: Seq<char>) -> Seq<Seq<char>> {
    seq![
        "-y"@,
        "-i"@,
        "pipe:0"@,
        "-c:v"@,
        "libx264"@,
        "-preset"@,
        "ultrafast"@,
        "-tune"@,
        "zerolatency"@,
        "-b:v"@,
        "5000k"@,
        "-maxrate"@,
        "5000k"@,
        "-bufsize"@,
        "10000k"@,
        "-r"@,
        "60"@,
        "-g"@,
        "120"@,
        "-keyint_min"@,
        "60"@,
        "-sc_threshold"@,
        "0"@,
        "-c:a"@,
        "aac"@,
        "-b:a"@,
        "160k"@,
        "-ar"@,
        "44100"@,
        "-ac"@,
        "2"@,
        "-map"@,
        "0:v:0"@,
        "-map"@,
        "0:a:0"@,
        "-f"@,
        "hls"@,
        "-hls_time"@,
        "2"@,
        "-hls_init_time"@,
        "2"@,
        "-hls_list_size"@,
        "15"@,
        "-hls_flags"@,
        "independent_segments+program_date_time+temp_file+delete_segments"@,
        "-hls_segment_type"@,
        "fmp4"@,
        "-hls_fmp4_init_filename"@,
        "init.mp4"@,
        "-hls_segment_filename"@,
        temp_dir + "/segment_%d.m4s"@,
        "-movflags"@,
        "+frag_keyframe+empty_moov+default_base_moof"@,
        "-frag_duration"@,
        "1000000"@,
        "-hls_allow_cache"@,
        "0"@,
        "-hls_start_number_source"@,
        "datetime"@,
        temp_dir + "/playlist.m3u8"@,
    ]
}

/// The directory that the encoder of a stream writes to.
pub fn temp_dir(stream_name: &str) -> (r: String)
    ensures
        r@ == temp_dir_of(stream_name@),
{
    writer::join2("/tmp/hls_temp/", stream_name)
}

/// The pipelines that are running.
pub struct MemoryFfmpegPipelineManager<H> {
    pipelines: Pipelines<MemoryFfmpegPipeline<H>>,
    config: Config,
}

impl<H> View for MemoryFfmpegPipelineManager<H> {
    type V = Map<u32, MemoryFfmpegPipeline<H>>;

    closed spec fn view(&self) -> Map<u32, MemoryFfmpegPipeline<H>> {
        self.pipelines@
    }
}

impl<H> MemoryFfmpegPipelineManager<H> {
    /// What the manager was configured with.
    pub closed spec fn setup(self) -> Config {
        self.config
    }

    /// A manager of no pipelines.
    pub fn new(config: Config) -> (r: Self)
        ensures
            r@ == Map::<u32, MemoryFfmpegPipeline<H>>::empty(),
            r.setup() == config,
    {
        MemoryFfmpegPipelineManager { pipelines: Pipelines::new(), config }
    }

    /// What the manager was configured with.
    pub fn config(&self) -> (r: &Config)
        ensures
            *r == self.setup(),
    {
        &self.config
    }

    /// The arguments of an encoder that writes to `temp_dir`.
    pub fn build_ffmpeg_command(temp_dir: &str) -> (r: Vec<String>)
        ensures
            texts(r@) == encoder_args_of(temp_dir@),
    {
        let pattern = writer::join2(temp_dir, "/segment_%d.m4s");
        let playlist_path = writer::join2(temp_dir, "/playlist.m3u8");
        let list: [&str; 60] = [
            "-y",
            "-i",
            "pipe:0",
            "-c:v",
            "libx264",
            "-preset",
            "ultrafast",
            "-tune",
            "zerolatency",
            "-b:v",
            "5000k",
            "-maxrate",
            "5000k",
            "-bufsize",
            "10000k",
            "-r",
            "60",
            "-g",
            "120",
            "-keyint_min",
            "60",
            "-sc_threshold",
            "0",
            "-c:a",
            "aac",
            "-b:a",
            "160k",
            "-ar",
            "44100",
            "-ac",
            "2",
            "-map",
            "0:v:0",
            "-map",
            "0:a:0",
            "-f",
            "hls",
            "-hls_time",
            "2",
            "-hls_init_time",
            "2",
            "-hls_list_size",
            "15",
            "-hls_flags",
            "independent_segments+program_date_time+temp_file+delete_segments",
            "-hls_segment_type",
            "fmp4",
            "-hls_fmp4_init_filename",
            "init.mp4",
            "-hls_segment_filename",
            pattern.as_str(),
            "-movflags",
            "+frag_keyframe+empty_moov+default_base_moof",
            "-frag_duration",
            "1000000",
            "-hls_allow_cache",
            "0",
            "-hls_start_number_source",
            "datetime",
            playlist_path.as_str(),
        ];
        let args = owned_all(&list);
        assert(strs(list@) =~= encoder_args_of(temp_dir@));
        args
    }

    /// Where the encoder of a stream is to write, and how it is started.
    pub fn plan_pipeline(stream_name: &str) -> (r: PipelinePlan)
        ensures
            r.output_dir@ == temp_dir_of(stream_name@),
            texts(r.args@) == encoder_args_of(temp_dir_of(stream_name@)),
    {
        let output_dir = temp_dir(stream_name);
        let args = Self::build_ffmpeg_command(output_dir.as_str());
        PipelinePlan { output_dir, args }
    }

    /// Takes an encoder that has been started for a stream.
    pub fn start_pipeline(&mut self, stream_id: u32, stream_name: &str, handle: H)
        ensures
            final(self).setup() == old(self).setup(),
            final(self)@.contains_key(stream_id),
            final(self)@ == old(self)@.insert(stream_id, final(self)@[stream_id]),
            final(self)@[stream_id].handle == handle,
            final(self)@[stream_id].stream_id == stream_id,
            final(self)@[stream_id].stream_name@ == stream_name@,
    {
        let pipeline = MemoryFfmpegPipeline {
            handle,
            stream_id,
            stream_name: stream_name.to_owned(),
        };
        self.pipelines.insert(stream_id, pipeline);
    }

    /// Hands out the pipeline of a stream to be written to; without one, what
    /// was to be written is dropped.
    pub fn checkout(&mut self, stream_id: u32) -> (r: Option<MemoryFfmpegPipeline<H>>)
        ensures
            final(self).setup() == old(self).setup(),
            final(self)@ == old(self)@.remove(stream_id),
            match r {
                Some(p) => old(self)@.contains_key(stream_id) && p == old(self)@[stream_id],
                None => !old(self)@.contains_key(stream_id) && final(self)@ == old(self)@,
            },
    {
        self.pipelines.remove(stream_id)
    }

    /// Takes back a pipeline that was handed out, with how the write ended. A
    /// pipeline that could not be written to is dropped and reported as broken.
    pub fn send_data(
        &mut self,
        stream_id: u32,
        pipeline: MemoryFfmpegPipeline<H>,
        written: Result<(), String>,
    ) -> (r: Result<(), String>)
        ensures
            final(self).setup() == old(self).setup(),
            match written {
                Ok(_) => r is Ok && final(self)@ == old(self)@.insert(stream_id, pipeline),
                Err(error) => {
                    &&& final(self)@ == old(self)@
                    &&& r matches Err(e)
                    &&& e@ == broken_text(stream_id, error@)
                },
            },
    {
        self.pipelines.settle(stream_id, pipeline, written)
    }

    /// Hands out the pipeline of a stream to be stopped, with the directory
    /// that is to be removed.
    pub fn stop_pipeline(&mut self, stream_id: u32) -> (r: Option<
        (MemoryFfmpegPipeline<H>, String),
    >)
        ensures
            final(self).setup() == old(self).setup(),
            final(self)@ == old(self)@.remove(stream_id),
            match r {
                Some((p, dir)) => {
                    &&& old(self)@.contains_key(stream_id)
                    &&& p == old(self)@[stream_id]
                    &&& dir@ == temp_dir_of(p.stream_name@)
                },
                None => !old(self)@.contains_key(stream_id),
            },
    {
        match self.pipelines.remove(stream_id) {
            Some(pipeline) => {
                let dir = temp_dir(pipeline.stream_name.as_str());
                Some((pipeline, dir))
            },
            None => None,
        }
    }

    /// Hands out all pipelines to be stopped.
    pub fn stop_all_pipelines(&mut self) -> (r: HashMap<u32, MemoryFfmpegPipeline<H>>)
        ensures
            final(self).setup() == old(self).setup(),
            final(self)@ == Map::<u32, MemoryFfmpegPipeline<H>>::empty(),
            r@ == old(self)@,
    {
        self.pipelines.take_all()
    }

    /// Whether the stream has a pipeline.
    pub fn has_pipeline(&self, stream_id: u32) -> (r: bool)
        ensures
            r == self@.contains_key(stream_id),
    {
        self.pipelines.contains(stream_id)
    }

    /// The number of pipelines.
    pub fn active_pipeline_count(&self) -> (r: usize)
        ensures
            self@.dom().finite(),
            r == self@.len(),
    {
        self.pipelines.len()
    }
}

/// The option stands at `at` among the arguments, and its value behind it.
pub open spec fn option_at(
    args: Seq<Seq<char>>,
    at: int,
    option: Seq<char>,
    value: Seq<char>,
) -> bool {
    0 <= at < args.len() - 1 && args[at] == option && args[at + 1] == value
}

/// The option stands somewhere among the arguments, and its value behind it.
pub open spec fn has_option(args: Seq<Seq<char>>, option: Seq<char>, value: Seq<char>) -> bool {
    exists|at: int| #[trigger] option_at(args, at, option, value)
}

/// Every file of a stream is told to be written under the directory of the
/// stream: the numbered segments, the initialisation segment beside the playlist,
/// and the playlist last. The input comes from a pipe, and a segment lasts two
/// seconds, which is two groups of pictures apart at sixty frames a second.
pub proof fn law_encoder_writes_to_its_directory(stream_name: Seq<char>)
    ensures
        ({
            let dir = "/tmp/hls_temp/"@ + stream_name;
            let args = encoder_args_of(temp_dir_of(stream_name));
            &&& temp_dir_of(stream_name) == dir
            &&& args.last() == dir + "/playlist.m3u8"@
            &&& has_option(args, "-i"@, "pipe:0"@)
            &&& has_option(args, "-c:v"@, "libx264"@)
            &&& has_option(args, "-preset"@, "ultrafast"@)
            &&& has_option(args, "-tune"@, "zerolatency"@)
            &&& has_option(args, "-b:v"@, "5000k"@)
            &&& has_option(args, "-maxrate"@, "5000k"@)
            &&& has_option(args, "-bufsize"@, "10000k"@)
            &&& has_option(args, "-r"@, "60"@)
            &&& has_option(args, "-g"@, "120"@)
            &&& has_option(args, "-keyint_min"@, "60"@)
            &&& has_option(args, "-sc_threshold"@, "0"@)
            &&& has_option(args, "-c:a"@, "aac"@)
            &&& has_option(args, "-b:a"@, "160k"@)
            &&& has_option(args, "-ar"@, "44100"@)
            &&& has_option(args, "-ac"@, "2"@)
            &&& has_option(args, "-f"@, "hls"@)
            &&& has_option(args, "-hls_time"@, "2"@)
            &&& has_option(args, "-hls_list_size"@, "15"@)
            &&& has_option(args, "-hls_segment_type"@, "fmp4"@)
            &&& has_option(args, "-hls_fmp4_init_filename"@, "init.mp4"@)
            &&& has_option(args, "-hls_segment_filename"@, dir + "/segment_%d.m4s"@)
            &&& has_option(args, "-hls_start_number_source"@, "datetime"@)
            &&& args.len() == 60
        }),
{
    let args = encoder_args_of(temp_dir_of(stream_name));
    assert(option_at(args, 1, args[1], args[2]));
    assert(option_at(args, 3, args[3], args[4]));
    assert(option_at(args, 5, args[5], args[6]));
    assert(option_at(args, 7, args[7], args[8]));
    assert(option_at(args, 9, args[9], args[10]));
    assert(option_at(args, 11, args[11], args[12]));
    assert(option_at(args, 13, args[13], args[14]));
    assert(option_at(args, 15, args[15], args[16]));
    assert(option_at(args, 17, args[17], args[18]));
    assert(option_at(args, 19, args[19], args[20]));
    assert(option_at(args, 21, args[21], args[22]));
    assert(option_at(args, 23, args[23], args[24]));
    assert(option_at(args, 25, args[25], args[26]));
    assert(option_at(args, 27, args[27], args[28]));
    assert(option_at(args, 29, args[29], args[30]));
    assert(option_at(args, 35, args[35], args[36]));
    assert(option_at(args, 37, args[37], args[38]));
    assert(option_at(args, 41, args[41], args[42]));
    assert(option_at(args, 45, args[45], args[46]));
    assert(option_at(args, 47, args[47], args[48]));
    assert(option_at(args, 49, args[49], args[50]));
    assert(option_at(args, 57, args[57], args[58]));
}

} // verus!
