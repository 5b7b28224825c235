//! Encoder pipelines that write to the output directory.

use crate::config::Config;
use crate::streaming::pipeline::{broken_text, Pipelines};
use crate::streaming::pipeline_manager::{has_option, option_at, PipelinePlan};
use crate::text::{owned_all, strs, texts};
use crate::writer;
use vstd::prelude::*;

verus! {

/// A running encoder, behind the handle `H`.
#[derive(Debug)]
pub struct FfmpegPipeline<H> {
    pub stdin: H,
    pub stream_id: u32,
}

/// The directory that the encoder of a stream writes to.
pub open spec fn output_dir_of(stream_name: Seq<char>) -> Seq<char> {
    "hls_output/"@ + stream_name
}

/// The URL that the segments of a stream are delivered from.
pub open spec fn segment_url_of(
    bucket: Seq<char>,
    region: Seq<char>,
    stream_name: Seq<char>,
) -> Seq<char> {
    "https://"@ + bucket + ".s3."@ + region + ".amazonaws.com/hls_output/"@ + stream_name + "/"@
}

/// The arguments of the encoder: segments of half a second in fragmented MP4,
/// and a thumbnail every ten seconds.
pub open spec fn low_latency_args_of(output_dir: Seq<char>, base_url: Seq<char>) -> Seq<Seq<char>> {
    seq![
        "-y"@,
        "-i"@,
        "pipe:0"@,
        "-c:v"@,
        "libx264"@,
        "-preset"@,
        "veryfast"@,
        "-tune"@,
        "zerolatency"@,
        "-r"@,
        "60"@,
        "-g"@,
        "60"@,
        "-keyint_min"@,
        "60"@,
        "-sc_threshold"@,
        "0"@,
        "-c:a"@,
        "aac"@,
        "-b:a"@,
        "128k"@,
        "-ar"@,
        "44100"@,
        "-ac"@,
        "2"@,
        "-f"@,
        "hls"@,
        "-hls_time"@,
        "0.5"@,
        "-hls_list_size"@,
        "0"@,
        "-hls_flags"@,
        "delete_segments+program_date_time+temp_file+independent_segments+split_by_time"@,
        "-hls_segment_type"@,
        "fmp4"@,
        "-hls_fmp4_init_filename"@,
        "init.mp4"@,
        "-hls_segment_filename"@,
        output_dir + "/segment_%d.m4s"@,
        "-hls_playlist_type"@,
        "event"@,
        "-hls_allow_cache"@,
        "0"@,
        "-hls_start_number_source"@,
        "datetime"@,
        "-hls_base_url"@,
        base_url,
        output_dir + "/playlist.m3u8"@,
        "-map"@,
        "0:v:0"@,
        "-vf"@,
        "fps=1/10,scale=640:-1"@,
        "-q:v"@,
        "2"@,
        "-update"@,
        "1"@,
        "-f"@,
        "image2"@,
        output_dir + "/thumbnail.jpg"@,
    ]
}

/// The directory that the encoder of a stream writes to, which is also the
/// prefix of its keys.
pub fn output_dir(stream_name: &str) -> (r: String)
    ensures
        r@ == output_dir_of(stream_name@),
{
    writer::join2("hls_output/", stream_name)
}

/// The pipelines that are running.
pub struct FfmpegPipelineManager<H> {
    pipelines: Pipelines<FfmpegPipeline<H>>,
    config: Config,
}

impl<H> View for FfmpegPipelineManager<H> {
    type V = Map<u32, FfmpegPipeline<H>>;

    closed spec fn view(&self) -> Map<u32, FfmpegPipeline<H>> {
        self.pipelines@
    }
}

impl<H> FfmpegPipelineManager<H> {
    /// What the manager was configured with.
    pub closed spec fn setup(self) -> Config {
        self.config
    }

    /// A manager of no pipelines.
    pub fn new(config: Config) -> (r: Self)
        ensures
            r@ == Map::<u32, FfmpegPipeline<H>>::empty(),
            r.setup() == config,
    {
        FfmpegPipelineManager { pipelines: Pipelines::new(), config }
    }

    /// What the manager was configured with.
    pub fn config(&self) -> (r: &Config)
        ensures
            *r == self.setup(),
    {
        &self.config
    }

    /// Where the encoder of a stream is to write, and how it is started.
    pub fn plan_pipeline(&self, stream_name: &str) -> (r: PipelinePlan)
        ensures
            r.output_dir@ == output_dir_of(stream_name@),
            texts(r.args@) == low_latency_args_of(
                output_dir_of(stream_name@),
                segment_url_of(
                    self.setup().s3.bucket@,
                    self.setup().s3.region@,
                    stream_name@,
                ),
            ),
    {
        let output_dir = output_dir(stream_name);
        let pattern = writer::join2(output_dir.as_str(), "/segment_%d.m4s");
        let playlist_path = writer::join2(output_dir.as_str(), "/playlist.m3u8");
        let thumbnail_path = writer::join2(output_dir.as_str(), "/thumbnail.jpg");
        let mut base_url = writer::join5(
            "https://",
            self.config.s3.bucket.as_str(),
            ".s3.",
            self.config.s3.region.as_str(),
            ".amazonaws.com/hls_output/",
        );
        base_url.append(stream_name);
        base_url.append("/");
        let list: [&str; 59] = [
            "-y",
            "-i",
            "pipe:0",
            "-c:v",
            "libx264",
            "-preset",
            "veryfast",
            "-tune",
            "zerolatency",
            "-r",
            "60",
            "-g",
            "60",
            "-keyint_min",
            "60",
            "-sc_threshold",
            "0",
            "-c:a",
            "aac",
            "-b:a",
            "128k",
            "-ar",
            "44100",
            "-ac",
            "2",
            "-f",
            "hls",
            "-hls_time",
            "0.5",
            "-hls_list_size",
            "0",
            "-hls_flags",
            "delete_segments+program_date_time+temp_file+independent_segments+split_by_time",
            "-hls_segment_type",
            "fmp4",
            "-hls_fmp4_init_filename",
            "init.mp4",
            "-hls_segment_filename",
            pattern.as_str(),
            "-hls_playlist_type",
            "event",
            "-hls_allow_cache",
            "0",
            "-hls_start_number_source",
            "datetime",
            "-hls_base_url",
            base_url.as_str(),
            playlist_path.as_str(),
            "-map",
            "0:v:0",
            "-vf",
            "fps=1/10,scale=640:-1",
            "-q:v",
            "2",
            "-update",
            "1",
            "-f",
            "image2",
            thumbnail_path.as_str(),
        ];
        let args = owned_all(&list);
        assert(strs(list@) =~= low_latency_args_of(output_dir@, base_url@));
        PipelinePlan { output_dir, args }
    }

    /// Takes an encoder that has been started for a stream.
    pub fn start_pipeline(&mut self, stream_id: u32, stdin: H)
        ensures
            final(self).setup() == old(self).setup(),
            final(self)@ == old(self)@.insert(stream_id, (FfmpegPipeline { stdin, stream_id })),
    {
        self.pipelines.insert(stream_id, FfmpegPipeline { stdin, stream_id });
    }

    /// Hands out the pipeline of a stream to be written to; without one, what
    /// was to be written is dropped.
    pub fn checkout(&mut self, stream_id: u32) -> (r: Option<FfmpegPipeline<H>>)
        ensures
            final(self).setup() == old(self).setup(),
            final(self)@ == old(self)@.remove(stream_id),
            match r {
                Some(p) => old(self)@.contains_key(stream_id) && p == old(self)@[stream_id],
                None => !old(self)@.contains_key(stream_id) && final(self)@ == old(self)@,
            },
    {
        self.pipelines.remove(stream_id)
    }

    /// Takes back a pipeline that was handed out, with how the write ended. A
    /// pipeline that could not be written to is dropped and reported as broken.
    pub fn send_data(
        &mut self,
        stream_id: u32,
        pipeline: FfmpegPipeline<H>,
        written: Result<(), String>,
    ) -> (r: Result<(), String>)
        ensures
            final(self).setup() == old(self).setup(),
            match written {
                Ok(_) => r is Ok && final(self)@ == old(self)@.insert(stream_id, pipeline),
                Err(error) => {
                    &&& final(self)@ == old(self)@
                    &&& r matches Err(e)
                    &&& e@ == broken_text(stream_id, error@)
                },
            },
    {
        self.pipelines.settle(stream_id, pipeline, written)
    }

    /// Drops the pipeline of a stream, which closes the input of its encoder,
    /// and says whether there was one.
    pub fn stop_pipeline(&mut self, stream_id: u32) -> (r: bool)
        ensures
            final(self).setup() == old(self).setup(),
            final(self)@ == old(self)@.remove(stream_id),
            r == old(self)@.contains_key(stream_id),
    {
        self.pipelines.remove(stream_id).is_some()
    }

    /// Drops all pipelines.
    pub fn stop_all_pipelines(&mut self)
        ensures
            final(self).setup() == old(self).setup(),
            final(self)@ == Map::<u32, FfmpegPipeline<H>>::empty(),
    {
        let _ = self.pipelines.take_all();
    }

    /// Whether the stream has a pipeline.
    pub fn has_pipeline(&self, stream_id: u32) -> (r: bool)
        ensures
            r == self@.contains_key(stream_id),
    {
        self.pipelines.contains(stream_id)
    }

    /// The number of pipelines.
    pub fn active_pipeline_count(&self) -> (r: usize)
        ensures
            self@.dom().finite(),
            r == self@.len(),
    {
        self.pipelines.len()
    }
}

/// Every file of a stream is told to be written under the directory of the
/// stream, and the playlist gives addresses in the bucket and the region under
/// the same directory. The input comes from a pipe, and a segment lasts half a
/// second.
pub proof fn law_low_latency_encoder(
    bucket: Seq<char>,
    region: Seq<char>,
    stream_name: Seq<char>,
)
    ensures
        ({
            let dir = "hls_output/"@ + stream_name;
            let url = "https://"@ + bucket + ".s3."@ + region + ".amazonaws.com/"@ + dir + "/"@;
            let args = low_latency_args_of(
                output_dir_of(stream_name),
                segment_url_of(bucket, region, stream_name),
            );
            &&& output_dir_of(stream_name) == dir
            &&& segment_url_of(bucket, region, stream_name) == url
            &&& has_option(args, "-i"@, "pipe:0"@)
            &&& has_option(args, "-c:v"@, "libx264"@)
            &&& has_option(args, "-preset"@, "veryfast"@)
            &&& has_option(args, "-tune"@, "zerolatency"@)
            &&& has_option(args, "-r"@, "60"@)
            &&& has_option(args, "-g"@, "60"@)
            &&& has_option(args, "-keyint_min"@, "60"@)
            &&& has_option(args, "-sc_threshold"@, "0"@)
            &&& has_option(args, "-c:a"@, "aac"@)
            &&& has_option(args, "-b:a"@, "128k"@)
            &&& has_option(args, "-ar"@, "44100"@)
            &&& has_option(args, "-ac"@, "2"@)
            &&& has_option(args, "-f"@, "hls"@)
            &&& has_option(args, "-hls_time"@, "0.5"@)
            &&& has_option(args, "-hls_list_size"@, "0"@)
            &&& has_option(args, "-hls_segment_type"@, "fmp4"@)
            &&& has_option(args, "-hls_fmp4_init_filename"@, "init.mp4"@)
            &&& has_option(args, "-hls_segment_filename"@, dir + "/segment_%d.m4s"@)
            &&& has_option(args, "-hls_playlist_type"@, "event"@)
            &&& has_option(args, "-hls_start_number_source"@, "datetime"@)
            &&& has_option(args, "-hls_base_url"@, url)
            &&& args.contains(dir + "/playlist.m3u8"@)
            &&& has_option(args, "-vf"@, "fps=1/10,scale=640:-1"@)
            &&& args.last() == dir + "/thumbnail.jpg"@
            &&& args.len() == 59
        }),
{
    let dir = "hls_output/"@ + stream_name;
    let url = "https://"@ + bucket + ".s3."@ + region + ".amazonaws.com/"@ + dir + "/"@;
    reveal_strlit(".amazonaws.com/hls_output/");
    reveal_strlit(".amazonaws.com/");
    reveal_strlit("hls_output/");
    assert(".amazonaws.com/hls_output/"@ =~= ".amazonaws.com/"@ + "hls_output/"@);
    assert(segment_url_of(bucket, region, stream_name) =~= url);
    let args = low_latency_args_of(dir, url);
    assert(option_at(args, 1, args[1], args[2]));
    assert(option_at(args, 3, args[3], args[4]));
    assert(option_at(args, 5, args[5], args[6]));
    assert(option_at(args, 7, args[7], args[8]));
    assert(option_at(args, 9, args[9], args[10]));
    assert(option_at(args, 11, args[11], args[12]));
    assert(option_at(args, 13, args[13], args[14]));
    assert(option_at(args, 15, args[15], args[16]));
    assert(option_at(args, 17, args[17], args[18]));
    assert(option_at(args, 19, args[19], args[20]));
    assert(option_at(args, 21, args[21], args[22]));
    assert(option_at(args, 23, args[23], args[24]));
    assert(option_at(args, 25, args[25], args[26]));
    assert(option_at(args, 27, args[27], args[28]));
    assert(option_at(args, 29, args[29], args[30]));
    assert(option_at(args, 33, args[33], args[34]));
    assert(option_at(args, 35, args[35], args[36]));
    assert(option_at(args, 37, args[37], args[38]));
    assert(option_at(args, 39, args[39], args[40]));
    assert(option_at(args, 43, args[43], args[44]));
    assert(option_at(args, 45, args[45], args[46]));
    assert(option_at(args, 50, args[50], args[51]));
    assert(args[47] == dir + "/playlist.m3u8"@);
}

} // verus!
