//! The streams of the server, as the session handlers see them.

use crate::config::{ApiConfig, Config};
use crate::storage::cli_s3_uploader::CliS3Uploader;
use crate::storage::s3_types::UploadStatus;
use crate::storage::upload::in_flight_count;
use crate::streaming::master_playlist_generator::StreamMetadata;
use crate::streaming::memory_hls_manager::{
    is_live_metadata, MemoryHlsManager, StopUploads, UploadStatusInfo,
};
use crate::streaming::pipeline::broken_text;
use crate::streaming::pipeline_manager::{temp_dir_of, MemoryFfmpegPipeline};
use crate::time::Timestamp;
use vstd::prelude::*;

verus! {

/// The streams of the server.
pub struct HlsConvertor<H> {
    memory_manager: MemoryHlsManager<H>,
}

/// The status of a stream's uploads from that of all uploads: files that are
/// done or have failed are not counted.
pub fn upload_status(stream_name: &str, status: &UploadStatusInfo) -> (r: UploadStatus)
    requires
        status.pending_uploads + status.active_uploads <= usize::MAX,
    ensures
        r.stream_key@ == stream_name@,
        r.total_files == status.pending_uploads + status.active_uploads,
        r.uploaded_files == 0,
        r.failed_files == 0,
        r.is_complete == status.is_complete,
{
    UploadStatus {
        stream_key: stream_name.to_owned(),
        total_files: status.pending_uploads + status.active_uploads,
        uploaded_files: 0,
        failed_files: 0,
        is_complete: status.is_complete,
    }
}

impl<H> HlsConvertor<H> {
    /// The manager of the streams.
    pub closed spec fn manager(self) -> MemoryHlsManager<H> {
        self.memory_manager
    }

    /// The manager is well formed.
    pub open spec fn wf(self) -> bool {
        self.manager().wf()
    }

    /// A convertor of no streams.
    pub fn new(config: Config) -> (r: Self)
        ensures
            r.wf(),
            r.manager().setup() == config,
            r.manager().pipelines() == Map::<u32, MemoryFfmpegPipeline<H>>::empty(),
            r.manager().live() == Map::<Seq<char>, StreamMetadata>::empty(),
            r.manager().replays() == Map::<Seq<char>, StreamMetadata>::empty(),
            r.manager().bucket_url() == "https://"@ + config.s3.bucket@ + ".s3."@ + config.s3.region@
                + ".amazonaws.com"@,
    {
        HlsConvertor { memory_manager: MemoryHlsManager::new(config) }
    }

    /// Takes a stream whose encoder has been started.
    pub fn start_hls_conversion(&mut self, stream_id: u32, stream_name: &str, handle: H)
        requires
            old(self).wf(),
        ensures
            final(self).wf(),
            final(self).manager().setup() == old(self).manager().setup(),
            final(self).manager().replays() == old(self).manager().replays(),
            final(self).manager().bucket_url() == old(self).manager().bucket_url(),
            final(self).manager().pipelines() == old(self).manager().pipelines().insert(
                stream_id,
                final(self).manager().pipelines()[stream_id],
            ),
            final(self).manager().pipelines()[stream_id].handle == handle,
            final(self).manager().pipelines()[stream_id].stream_id == stream_id,
            final(self).manager().pipelines()[stream_id].stream_name@ == stream_name@,
            final(self).manager().live() == old(self).manager().live().insert(
                stream_name@,
                final(self).manager().live()[stream_name@],
            ),
            exists|now: Timestamp| #[trigger]
                is_live_metadata(
                    final(self).manager().live()[stream_name@],
                    stream_name@,
                    now,
                ),
    {
        self.memory_manager.start_hls_conversion(stream_id, stream_name, handle);
    }

    /// Hands out the pipeline of a stream to be stopped, with the directory
    /// that is to be removed.
    pub fn stop_pipeline(&mut self, stream_id: u32) -> (r: Option<
        (MemoryFfmpegPipeline<H>, String),
    >)
        requires
            old(self).wf(),
        ensures
            final(self).wf(),
            final(self).manager().differs_in_pipelines(old(self).manager()),
            final(self).manager().pipelines() == old(self).manager().pipelines().remove(stream_id),
            match r {
                Some((p, dir)) => {
                    &&& old(self).manager().pipelines().contains_key(stream_id)
                    &&& p == old(self).manager().pipelines()[stream_id]
                    &&& dir@ == temp_dir_of(p.stream_name@)
                },
                None => !old(self).manager().pipelines().contains_key(stream_id),
            },
    {
        self.memory_manager.stop_pipeline(stream_id)
    }

    /// Takes a stream whose encoder has been stopped, with a listing of its
    /// files where there is one.
    pub fn stop_hls_conversion(&mut self, stream_name: &str, listing: Option<&str>) -> (r:
        StopUploads)
        requires
            old(self).wf(),
        ensures
            final(self).wf(),
            exists|listed: Timestamp, made: Timestamp, ended: Timestamp| #[trigger]
                old(self).manager().stopped(
                    final(self).manager(),
                    r,
                    stream_name@,
                    listing,
                    listed,
                    made,
                    ended,
                ),
    {
        let ghost before = self.memory_manager;
        let r = self.memory_manager.stop_hls_conversion(stream_name, listing);
        proof {
            let (listed, made, ended) = choose|
                listed: Timestamp,
                made: Timestamp,
                ended: Timestamp,
            | #[trigger]
                before.stopped(
                    self.memory_manager,
                    r,
                    stream_name@,
                    listing,
                    listed,
                    made,
                    ended,
                );
            assert(old(self).manager().stopped(
                self.manager(),
                r,
                stream_name@,
                listing,
                listed,
                made,
                ended,
            ));
        }
        r
    }

    /// Hands out the pipeline of a stream to be written to; without one, what
    /// was to be written is dropped.
    pub fn checkout(&mut self, stream_id: u32) -> (r: Option<MemoryFfmpegPipeline<H>>)
        requires
            old(self).wf(),
        ensures
            final(self).wf(),
            final(self).manager().differs_in_pipelines(old(self).manager()),
            final(self).manager().pipelines() == old(self).manager().pipelines().remove(stream_id),
            match r {
                Some(p) => {
                    &&& old(self).manager().pipelines().contains_key(stream_id)
                    &&& p == old(self).manager().pipelines()[stream_id]
                },
                None => !old(self).manager().pipelines().contains_key(stream_id),
            },
    {
        self.memory_manager.checkout(stream_id)
    }

    /// Takes back a pipeline that was handed out, with how the write ended.
    pub fn process_stream_data(
        &mut self,
        stream_id: u32,
        pipeline: MemoryFfmpegPipeline<H>,
        written: Result<(), String>,
    ) -> (r: Result<(), String>)
        requires
            old(self).wf(),
        ensures
            final(self).wf(),
            final(self).manager().differs_in_pipelines(old(self).manager()),
            match written {
                Ok(_) => {
                    &&& r is Ok
                    &&& final(self).manager().pipelines() == old(
                        self,
                    ).manager().pipelines().insert(stream_id, pipeline)
                },
                Err(error) => {
                    &&& final(self).manager().pipelines() == old(self).manager().pipelines()
                    &&& r matches Err(e)
                    &&& e@ == broken_text(stream_id, error@)
                },
            },
    {
        self.memory_manager.process_stream_data(stream_id, pipeline, written)
    }

    /// Asks for the upload of a stream: there is nothing to do, as every file
    /// is uploaded when it is written.
    pub fn upload_stream_to_s3(&self, stream_name: &str) -> (r: Result<(), String>)
        ensures
            r is Ok,
    {
        self.memory_manager.upload_stream_to_s3(stream_name)
    }

    /// How far the uploads have come.
    pub fn get_s3_upload_status(&self, stream_name: &str, uploader: &CliS3Uploader) -> (r: Option<
        UploadStatus,
    >)
        requires
            uploader.wf(),
            2 * in_flight_count(uploader.uploads().rows()) <= usize::MAX,
        ensures
            r matches Some(status) && {
                &&& status.stream_key@ == stream_name@
                &&& status.total_files == 2 * in_flight_count(uploader.uploads().rows())
                &&& status.uploaded_files == 0
                &&& status.failed_files == 0
                &&& status.is_complete == (in_flight_count(uploader.uploads().rows()) == 0)
            },
    {
        let status = self.memory_manager.get_s3_upload_status(stream_name, uploader);
        Some(upload_status(stream_name, &status))
    }

    /// Asks for the removal of a stream: files stay in the bucket.
    pub fn delete_stream_from_s3(&self, stream_name: &str) -> (r: Result<(), String>)
        ensures
            r is Ok,
    {
        self.memory_manager.delete_stream_from_s3(stream_name)
    }

    /// Asks for the upload of a file: there is nothing to do, as every file is
    /// uploaded when it is written.
    pub fn upload_file_to_s3(&self, stream_name: &str, file_name: &str) -> (r: Result<(), String>)
        ensures
            r is Ok,
    {
        Ok(())
    }

    /// The number of streams with an encoder.
    pub fn get_active_stream_count(&self) -> (r: usize)
        ensures
            self.manager().pipelines().dom().finite(),
            r == self.manager().pipelines().len(),
    {
        self.memory_manager.get_active_stream_count()
    }

    /// Whether the stream has an encoder.
    pub fn has_stream(&self, stream_id: u32) -> (r: bool)
        ensures
            r == self.manager().pipelines().contains_key(stream_id),
    {
        self.memory_manager.has_stream(stream_id)
    }

    /// Where streams are authenticated.
    pub fn api_config(&self) -> (r: &ApiConfig)
        ensures
            *r == self.manager().setup().api,
    {
        self.memory_manager.api_config()
    }

    /// The manager of the streams.
    pub fn memory_manager(&self) -> (r: &MemoryHlsManager<H>)
        ensures
            *r == self.manager(),
    {
        &self.memory_manager
    }
}

} // verus!
