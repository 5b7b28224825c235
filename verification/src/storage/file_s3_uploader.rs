//! Uploads through a fixed pool of workers that take jobs from a channel.

use crate::buffer::{bytes_from_vec, bytes_len, bytes_of};
pub use crate::storage::upload::UploadState;
use crate::storage::upload::{
    attempts_from, count_in_flight, error_kind, in_flight_count, key_of, kind_of,
    law_attempts_are_bounded, object_key, outcome_of, put_object, put_object_of, recorded,
    tries_again, AttemptOutcome, ErrorKind, PutObject,
};
use crate::table::Table;
use crate::time::Timestamp;
use bytes::Bytes;
use vstd::prelude::*;

verus! {

/// The number of failed attempts after which another one is made.
pub const MAX_RETRIES: u8 = 3;

/// A file to be uploaded.
pub struct UploadJob {
    pub key: String,
    pub data: Bytes,
    pub content_type: String,
    pub file_size_kb: usize,
}

/// The record of the uploads of a pool of workers.
pub struct FileS3Uploader {
    bucket: String,
    active_uploads: Table<UploadState>,
    worker_count: usize,
}

/// The wait before the attempt that follows `retry_count` failed ones, the
/// last of which gave `error`.
pub open spec fn backoff_of(error: Seq<char>, retry_count: u8) -> int {
    (match kind_of(error) {
        ErrorKind::SlowDown => 2000int,
        ErrorKind::Connection => 500,
        ErrorKind::Timeout => 1000,
        ErrorKind::Other => 200,
    }) * retry_count
}

/// The wait in milliseconds before the attempt that follows `retry_count`
/// failed ones.
pub fn calculate_backoff(error_str: &str, retry_count: u8) -> (r: u64)
    ensures
        r == backoff_of(error_str@, retry_count),
{
    let base: u64 = match error_kind(error_str) {
        ErrorKind::SlowDown => 2000,
        ErrorKind::Connection => 500,
        ErrorKind::Timeout => 1000,
        ErrorKind::Other => 200,
    };
    assert(base * retry_count <= 2000 * 255) by (nonlinear_arith)
        requires
            base <= 2000,
            retry_count <= 255,
    ;
    base * retry_count as u64
}

impl FileS3Uploader {
    /// The record of uploads by key.
    pub closed spec fn uploads(self) -> Table<UploadState> {
        self.active_uploads
    }

    /// The bucket.
    pub closed spec fn bucket(self) -> Seq<char> {
        self.bucket@
    }

    /// The number of workers.
    pub closed spec fn workers(self) -> usize {
        self.worker_count
    }

    /// The record holds every key at most once.
    pub open spec fn wf(self) -> bool {
        self.uploads().wf()
    }

    /// Bucket and workers are those of `other`.
    pub open spec fn same_setup(self, other: Self) -> bool {
        self.bucket() == other.bucket() && self.workers() == other.workers()
    }

    /// An uploader with at least sixteen workers.
    pub fn new(bucket: String, worker_count: usize) -> (r: Self)
        ensures
            r.wf(),
            r.uploads()@ == Map::<Seq<char>, UploadState>::empty(),
            r.bucket() == bucket@,
            r.workers() == (if worker_count >= 16 {
                worker_count
            } else {
                16
            }),
    {
        let effective: usize = if worker_count >= 16 {
            worker_count
        } else {
            16
        };
        FileS3Uploader { bucket, active_uploads: Table::new(), worker_count: effective }
    }

    /// The number of workers.
    pub fn worker_limit(&self) -> (r: usize)
        ensures
            r == self.workers(),
    {
        self.worker_count
    }

    /// The number of jobs that the channel holds: two for each worker.
    pub fn channel_capacity(&self) -> (r: usize)
        requires
            self.workers() * 2 <= usize::MAX,
        ensures
            r == self.workers() * 2,
    {
        self.worker_count * 2
    }

    /// Makes the job that uploads a file, and records it as being uploaded.
    pub fn queue_data(
        &mut self,
        stream_name: &str,
        file_name: &str,
        data: Vec<u8>,
        content_type: &str,
    ) -> (r: UploadJob)
        requires
            old(self).wf(),
        ensures
            final(self).wf(),
            final(self).same_setup(*old(self)),
            final(self).uploads()@ == old(self).uploads()@.insert(
                key_of(stream_name@, file_name@),
                UploadState::Uploading,
            ),
            r.key@ == key_of(stream_name@, file_name@),
            bytes_of(r.data) == data@,
            r.content_type@ == content_type@,
            r.file_size_kb == data@.len() / 1024,
    {
        let key = object_key(stream_name, file_name);
        let file_size_kb: usize = data.len() / 1024;
        self.active_uploads.insert(key.clone(), UploadState::Uploading);
        UploadJob {
            key,
            data: bytes_from_vec(data),
            content_type: content_type.to_owned(),
            file_size_kb,
        }
    }

    /// Records that the channel did not take the job of `key`.
    pub fn queue_failed(&mut self, key: String)
        requires
            old(self).wf(),
        ensures
            final(self).wf(),
            final(self).same_setup(*old(self)),
            exists|error: String|
                error@ == "Failed to queue"@ && final(self).uploads()@
                    == #[trigger] old(self).uploads()@.insert(key@, UploadState::Failed(error)),
    {
        let error = "Failed to queue".to_owned();
        self.active_uploads.insert(key, UploadState::Failed(error));
    }

    /// Records how the attempt number `attempt`, counted from zero, ended and
    /// says what follows. The last failure is recorded unless its text is empty.
    pub fn after_attempt(
        &mut self,
        job: &UploadJob,
        attempt: u8,
        result: Result<(), String>,
    ) -> (r: AttemptOutcome)
        requires
            old(self).wf(),
        ensures
            final(self).wf(),
            final(self).same_setup(*old(self)),
            r == outcome_of(
                attempt as int,
                MAX_RETRIES as int,
                result is Ok,
                (match result {
                    Ok(_) => 0,
                    Err(error) => backoff_of(error@, (attempt + 1) as u8),
                }) as u64,
            ),
            final(self).uploads()@ == recorded(
                old(self).uploads()@,
                job.key@,
                attempt as int,
                MAX_RETRIES as int,
                result,
                false,
            ),
            tries_again(attempt as int, MAX_RETRIES as int, result is Ok) ==> final(self).uploads()
                == old(self).uploads(),
    {
        match result {
            Ok(_) => {
                self.active_uploads.insert(job.key.clone(), UploadState::Completed);
                AttemptOutcome::Done
            },
            Err(error) => if attempt < MAX_RETRIES {
                AttemptOutcome::Retry { wait_ms: calculate_backoff(error.as_str(), attempt + 1) }
            } else {
                if !error.as_str().is_empty() {
                    self.active_uploads.insert(job.key.clone(), UploadState::Failed(error));
                }
                AttemptOutcome::GaveUp
            },
        }
    }

    /// The request that uploads a job, made now.
    pub fn upload_request(&self, job: &UploadJob) -> (r: PutObject)
        ensures
            r@.content_length == bytes_of(job.data).len(),
            exists|now: Timestamp|
                r@ == #[trigger] put_object_of(
                    self.bucket(),
                    job.key@,
                    r@.content_length,
                    job.content_type@,
                    now,
                ),
    {
        self.upload_request_at(job, &Timestamp::now())
    }

    /// The request that uploads a job, made at `now`.
    pub fn upload_request_at(&self, job: &UploadJob, now: &Timestamp) -> (r: PutObject)
        ensures
            r@.content_length == bytes_of(job.data).len(),
            r@ == put_object_of(
                self.bucket(),
                job.key@,
                r@.content_length,
                job.content_type@,
                *now,
            ),
    {
        put_object(
            self.bucket.as_str(),
            job.key.as_str(),
            bytes_len(&job.data),
            job.content_type.as_str(),
            now,
        )
    }

    /// The number of uploads in flight.
    pub fn pending_count(&self) -> (r: usize)
        requires
            self.wf(),
        ensures
            r == in_flight_count(self.uploads().rows()),
    {
        count_in_flight(&self.active_uploads)
    }

    /// The number of uploads in flight.
    pub fn active_count(&self) -> (r: usize)
        requires
            self.wf(),
        ensures
            r == in_flight_count(self.uploads().rows()),
    {
        self.pending_count()
    }
}

/// The wait grows with the number of failures, and is there after the first.
pub proof fn law_waits_grow(error: Seq<char>, retry_count: u8)
    requires
        retry_count < u8::MAX,
    ensures
        backoff_of(error, retry_count) < backoff_of(error, (retry_count + 1) as u8),
        backoff_of(error, 0) == 0,
{
}

/// An upload that never goes well is attempted four times, and one that does is
/// attempted no more after that.
pub proof fn law_four_attempts(ok: spec_fn(int) -> bool)
    ensures
        attempts_from(0, MAX_RETRIES as int, ok) <= 4,
        (forall|i: int| 0 <= i < 4 ==> !#[trigger] ok(i)) ==> attempts_from(
            0,
            MAX_RETRIES as int,
            ok,
        ) == 4,
        forall|i: int|
            0 <= i < 4 && #[trigger] ok(i) ==> attempts_from(0, MAX_RETRIES as int, ok) <= i + 1,
{
    law_attempts_are_bounded(0, MAX_RETRIES as int, ok);
    let n = attempts_from(0, MAX_RETRIES as int, ok);
    assert forall|i: int| 0 <= i < 4 && #[trigger] ok(i) implies n <= i + 1 by {
        if n > i + 1 {
            assert(!ok(i));
        }
    }
}

/// The wait is two seconds for each failure where the service asks to slow
/// down, one where there was a timeout, half a second where the connection was
/// at fault, and a fifth of a second otherwise.
pub proof fn law_wait_by_kind(error: Seq<char>, retry_count: u8)
    ensures
        kind_of(error) is SlowDown ==> backoff_of(error, retry_count) == 2000 * retry_count,
        kind_of(error) is Timeout ==> backoff_of(error, retry_count) == 1000 * retry_count,
        kind_of(error) is Connection ==> backoff_of(error, retry_count) == 500 * retry_count,
        kind_of(error) is Other ==> backoff_of(error, retry_count) == 200 * retry_count,
{
}

} // verus!
