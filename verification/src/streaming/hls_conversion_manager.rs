//! Streams whose files go from the output directory to a storage.

use crate::config::{ApiConfig, Config};
use crate::storage::s3_types::UploadStatus;
use crate::streaming::ffmpeg_pipeline::{
    output_dir, output_dir_of, FfmpegPipeline, FfmpegPipelineManager,
};
use crate::streaming::pipeline::broken_text;
use crate::text;
use crate::text::{has_prefix, has_suffix};
use crate::writer;
use vstd::prelude::*;

verus! {

/// A directory whose files go to the keys under a prefix.
#[derive(Debug)]
pub struct UploadPlan {
    pub local_dir: String,
    pub s3_prefix: String,
}

/// The path of `name` in `dir`; an absolute `name` stands for itself.
pub open spec fn path_of(dir: Seq<char>, name: Seq<char>) -> Seq<char> {
    if has_prefix(name, "/"@) {
        name
    } else if dir.len() == 0 || has_suffix(dir, "/"@) {
        dir + name
    } else {
        dir + "/"@ + name
    }
}

/// The path of `name` in `dir`.
pub fn path_in(dir: &str, name: &str) -> (r: String)
    ensures
        r@ == path_of(dir@, name@),
{
    if text::starts_with(name, "/") {
        name.to_owned()
    } else if dir.unicode_len() == 0 || text::ends_with(dir, "/") {
        writer::join2(dir, name)
    } else {
        writer::join3(dir, "/", name)
    }
}

/// The encoders that are running, and whether there is a storage for their
/// files.
pub struct HlsConversionManager<H> {
    ffmpeg_manager: FfmpegPipelineManager<H>,
    has_storage: bool,
    output_dir: String,
}

impl<H> HlsConversionManager<H> {
    /// What the manager was configured with.
    pub closed spec fn setup(self) -> Config {
        self.ffmpeg_manager.setup()
    }

    /// The pipelines that are running, by the number of their stream.
    pub closed spec fn pipelines(self) -> Map<u32, FfmpegPipeline<H>> {
        self.ffmpeg_manager@
    }

    /// There is a storage.
    pub closed spec fn stores(self) -> bool {
        self.has_storage
    }

    /// The output directory.
    pub closed spec fn dir(self) -> Seq<char> {
        self.output_dir@
    }

    /// Everything but the pipelines is as in `other`.
    pub open spec fn differs_in_pipelines(self, other: Self) -> bool {
        self.setup() == other.setup() && self.stores() == other.stores() && self.dir()
            == other.dir()
    }

    /// The plan is that of a stream.
    pub open spec fn plans(self, plan: UploadPlan, stream_name: Seq<char>) -> bool {
        plan.local_dir@ == path_of(self.dir(), stream_name) && plan.s3_prefix@ == output_dir_of(
            stream_name,
        )
    }

    /// A manager of no streams. The storage is there where it could be set up.
    pub fn new(config: Config, output_dir: String, has_storage: bool) -> (r: Self)
        ensures
            r.setup() == config,
            r.dir() == output_dir@,
            r.stores() == has_storage,
            r.pipelines() == Map::<u32, FfmpegPipeline<H>>::empty(),
    {
        HlsConversionManager {
            ffmpeg_manager: FfmpegPipelineManager::new(config),
            has_storage,
            output_dir,
        }
    }

    fn plan(&self, stream_name: &str) -> (r: UploadPlan)
        ensures
            self.plans(r, stream_name@),
    {
        UploadPlan {
            local_dir: path_in(self.output_dir.as_str(), stream_name),
            s3_prefix: output_dir(stream_name),
        }
    }

    /// Takes a stream whose encoder has been started, and says what is to be
    /// watched and uploaded where there is a storage.
    pub fn start_hls_conversion(&mut self, stream_id: u32, stream_name: &str, stdin: H) -> (r:
        Option<UploadPlan>)
        ensures
            final(self).differs_in_pipelines(*old(self)),
            final(self).pipelines() == old(self).pipelines().insert(
                stream_id,
                (FfmpegPipeline { stdin, stream_id }),
            ),
            match r {
                Some(plan) => old(self).stores() && old(self).plans(plan, stream_name@),
                None => !old(self).stores(),
            },
    {
        self.ffmpeg_manager.start_pipeline(stream_id, stdin);
        if self.has_storage {
            Some(self.plan(stream_name))
        } else {
            None
        }
    }

    /// Drops the pipeline of a stream, which closes the input of its encoder,
    /// and says whether there was one.
    pub fn stop_hls_conversion(&mut self, stream_id: u32) -> (r: bool)
        ensures
            final(self).differs_in_pipelines(*old(self)),
            final(self).pipelines() == old(self).pipelines().remove(stream_id),
            r == old(self).pipelines().contains_key(stream_id),
    {
        self.ffmpeg_manager.stop_pipeline(stream_id)
    }

    /// Hands out the pipeline of a stream to be written to; without one, what
    /// was to be written is dropped.
    pub fn checkout(&mut self, stream_id: u32) -> (r: Option<FfmpegPipeline<H>>)
        ensures
            final(self).differs_in_pipelines(*old(self)),
            final(self).pipelines() == old(self).pipelines().remove(stream_id),
            match r {
                Some(p) => {
                    &&& old(self).pipelines().contains_key(stream_id)
                    &&& p == old(self).pipelines()[stream_id]
                },
                None => !old(self).pipelines().contains_key(stream_id),
            },
    {
        self.ffmpeg_manager.checkout(stream_id)
    }

    /// Takes back a pipeline that was handed out, with how the write ended.
    pub fn process_stream_data(
        &mut self,
        stream_id: u32,
        pipeline: FfmpegPipeline<H>,
        written: Result<(), String>,
    ) -> (r: Result<(), String>)
        ensures
            final(self).differs_in_pipelines(*old(self)),
            match written {
                Ok(_) => {
                    &&& r is Ok
                    &&& final(self).pipelines() == old(self).pipelines().insert(
                        stream_id,
                        pipeline,
                    )
                },
                Err(error) => {
                    &&& final(self).pipelines() == old(self).pipelines()
                    &&& r matches Err(e)
                    &&& e@ == broken_text(stream_id, error@)
                },
            },
    {
        self.ffmpeg_manager.send_data(stream_id, pipeline, written)
    }

    /// The status of a stream's uploads: what the storage says of them, where
    /// there is one.
    pub fn get_s3_upload_status(&self, stored: Option<UploadStatus>) -> (r: Option<UploadStatus>)
        ensures
            r == (if self.stores() {
                stored
            } else {
                None
            }),
    {
        if self.has_storage {
            stored
        } else {
            None
        }
    }

    /// What is to be uploaded for a stream.
    pub fn upload_stream_to_s3(&self, stream_name: &str) -> (r: Result<UploadPlan, String>)
        ensures
            match r {
                Ok(plan) => self.stores() && self.plans(plan, stream_name@),
                Err(error) => !self.stores() && error@ == "S3 storage not initialized"@,
            },
    {
        if self.has_storage {
            Ok(self.plan(stream_name))
        } else {
            Err("S3 storage not initialized".to_owned())
        }
    }

    /// The prefix of the keys that are to be removed for a stream.
    pub fn delete_stream_from_s3(&self, stream_name: &str) -> (r: Result<String, String>)
        ensures
            match r {
                Ok(prefix) => self.stores() && prefix@ == output_dir_of(stream_name@),
                Err(error) => !self.stores() && error@ == "S3 storage not initialized"@,
            },
    {
        if self.has_storage {
            Ok(output_dir(stream_name))
        } else {
            Err("S3 storage not initialized".to_owned())
        }
    }

    /// The number of streams with an encoder.
    pub fn get_active_stream_count(&self) -> (r: usize)
        ensures
            self.pipelines().dom().finite(),
            r == self.pipelines().len(),
    {
        self.ffmpeg_manager.active_pipeline_count()
    }

    /// Whether the stream has an encoder.
    pub fn has_stream(&self, stream_id: u32) -> (r: bool)
        ensures
            r == self.pipelines().contains_key(stream_id),
    {
        self.ffmpeg_manager.has_pipeline(stream_id)
    }

    /// Where streams are authenticated.
    pub fn api_config(&self) -> (r: &ApiConfig)
        ensures
            *r == self.setup().api,
    {
        &self.ffmpeg_manager.config().api
    }
}

/// The path of a name in a directory is the two with one slash between them,
/// also where the directory ends in one; a name that begins with a slash is a
/// path already.
pub proof fn law_path_has_one_slash(dir: Seq<char>, name: Seq<char>)
    ensures
        name.len() == 0 || name[0] != '/' ==> {
            &&& dir.len() > 0 && dir.last() != '/' ==> path_of(dir, name) == dir + seq!['/'] + name
            &&& path_of(dir + seq!['/'], name) == dir + seq!['/'] + name
            &&& path_of(Seq::empty(), name) == name
        },
        path_of(dir, seq!['/'] + name) == seq!['/'] + name,
{
    reveal_strlit("/");
    assert("/"@ =~= seq!['/']);
    let slash = dir + seq!['/'];
    assert(slash.skip(slash.len() - 1) =~= "/"@);
    assert((seq!['/'] + name).take(1) =~= "/"@);
    if has_prefix(name, "/"@) {
        assert(name.take(1)[0] == name[0]);
    }
    if dir.len() > 0 && has_suffix(dir, "/"@) {
        assert(dir.skip(dir.len() - 1)[0] == dir.last());
    }
    assert(path_of(Seq::empty(), name) =~= name);
    assert(slash + name =~= dir + seq!['/'] + name);
}

/// What is planned for a stream: the files in its directory go to the keys under
/// its prefix, which are those that the encoder is told to deliver from.
pub proof fn law_plan_of_stream<H>(
    manager: HlsConversionManager<H>,
    plan: UploadPlan,
    stream_name: Seq<char>,
)
    requires
        manager.plans(plan, stream_name),
    ensures
        plan.local_dir@ == path_of(manager.dir(), stream_name),
        plan.s3_prefix@ == "hls_output/"@ + stream_name,
{
}

} // verus!
