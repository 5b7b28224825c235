//! Uploads from memory through a queue ordered by priority.

use crate::storage::upload::{
    count_in_flight, error_kind, in_flight_count, key_of, kind_of, object_key, outcome_of, put_object,
    put_object_of, recorded, tries_again, AttemptOutcome, ErrorKind, InFlight, PutObject,
};
use crate::table::Table;
use crate::text::{has_infix, has_suffix};
use crate::text;
use crate::time::Timestamp;
use std::collections::VecDeque;
use vstd::prelude::*;

verus! {

/// A file of a stream that waits in memory for its upload.
#[derive(Clone, Debug)]
pub struct MemorySegment {
    pub stream_name: String,
    pub file_name: String,
    pub data: Vec<u8>,
    pub content_type: String,
    /// From 0, the lowest, to 255, the highest.
    pub priority: u8,
    pub created_at: Timestamp,
    pub retry_count: u8,
}

/// What a [`MemorySegment`] says.
#[verifier::ext_equal]
pub struct MemorySegmentModel {
    pub stream_name: Seq<char>,
    pub file_name: Seq<char>,
    pub data: Seq<u8>,
    pub content_type: Seq<char>,
    pub priority: u8,
    pub created_at: Timestamp,
    pub retry_count: u8,
}

impl View for MemorySegment {
    type V = MemorySegmentModel;

    open spec fn view(&self) -> MemorySegmentModel {
        MemorySegmentModel {
            stream_name: self.stream_name@,
            file_name: self.file_name@,
            data: self.data@,
            content_type: self.content_type@,
            priority: self.priority,
            created_at: self.created_at,
            retry_count: self.retry_count,
        }
    }
}

/// The record of an upload.
#[derive(Debug)]
pub enum UploadState {
    Pending,
    Uploading,
    Completed,
    Failed(String),
}

impl Clone for UploadState {
    fn clone(&self) -> (r: Self)
        ensures
            r == *self,
    {
        match self {
            UploadState::Pending => UploadState::Pending,
            UploadState::Uploading => UploadState::Uploading,
            UploadState::Completed => UploadState::Completed,
            UploadState::Failed(e) => UploadState::Failed(e.clone()),
        }
    }
}

impl InFlight for UploadState {
    open spec fn in_flight(&self) -> bool {
        self is Uploading
    }

    open spec fn completed() -> Self {
        UploadState::Completed
    }

    open spec fn failed(error: String) -> Self {
        UploadState::Failed(error)
    }

    proof fn lemma_distinct(error: String) {
    }

    fn is_in_flight(&self) -> (r: bool) {
        matches!(self, UploadState::Uploading)
    }
}

/// An upload that a worker has taken on.
pub struct UploadTask {
    pub segment: MemorySegment,
    pub state: UploadState,
    /// The number of attempts that have failed.
    pub attempt: u8,
}

/// The uploads that wait, and the record of those that were taken on.
pub struct MemoryS3Uploader {
    bucket: String,
    upload_queue: VecDeque<MemorySegment>,
    active_uploads: Table<UploadState>,
    worker_count: usize,
    max_retries: u8,
}

/// Where a segment of priority `priority` enters the queue: before the first
/// segment of a lower priority.
pub open spec fn insert_pos(queue: Seq<MemorySegment>, priority: u8) -> int
    decreases queue.len(),
{
    if queue.len() == 0 || queue[0].priority < priority {
        0
    } else {
        1 + insert_pos(queue.skip(1), priority)
    }
}

/// The queue after a segment has entered it.
pub open spec fn queued(queue: Seq<MemorySegment>, segment: MemorySegment) -> Seq<MemorySegment> {
    queue.insert(insert_pos(queue, segment.priority), segment)
}

/// The queue after segments have entered it one after the other.
pub open spec fn queued_all(
    queue: Seq<MemorySegment>,
    segments: Seq<MemorySegment>,
) -> Seq<MemorySegment>
    decreases segments.len(),
{
    if segments.len() == 0 {
        queue
    } else {
        queued(queued_all(queue, segments.drop_last()), segments.last())
    }
}

/// No segment of the queue has a higher priority than one before it.
pub open spec fn by_priority(queue: Seq<MemorySegment>) -> bool {
    forall|i: int, j: int|
        0 <= i <= j < queue.len() ==> #[trigger] queue[i].priority >= #[trigger] queue[j].priority
}

/// The wait before the attempt that follows `failures` failed ones, the last
/// of which gave `error`.
pub open spec fn backoff_ms_of(error: Seq<char>, failures: u8) -> int {
    (match kind_of(error) {
        ErrorKind::SlowDown => 2000int,
        ErrorKind::Connection => 500,
        ErrorKind::Timeout => 1000,
        ErrorKind::Other => 300,
    }) * failures
}

/// The wait before the attempt that follows `failures` failed ones.
pub fn backoff_ms(error: &str, failures: u8) -> (r: u64)
    ensures
        r == backoff_ms_of(error@, failures),
{
    let base: u64 = match error_kind(error) {
        ErrorKind::SlowDown => 2000,
        ErrorKind::Connection => 500,
        ErrorKind::Timeout => 1000,
        ErrorKind::Other => 300,
    };
    assert(base * failures <= 2000 * 255) by (nonlinear_arith)
        requires
            base <= 2000,
            failures <= 255,
    ;
    base * failures as u64
}

/// The media type of a file, by its extension.
pub open spec fn content_type_of(file_name: Seq<char>) -> Seq<char> {
    if has_suffix(file_name, ".m3u8"@) {
        "application/vnd.apple.mpegurl"@
    } else if has_suffix(file_name, ".ts"@) {
        "video/mp2t"@
    } else if has_suffix(file_name, ".m4s"@) {
        "video/iso.segment"@
    } else if has_suffix(file_name, ".mp4"@) {
        "video/mp4"@
    } else {
        "application/octet-stream"@
    }
}

/// The media type of a file.
pub fn content_type(file_name: &str) -> (r: &'static str)
    ensures
        r@ == content_type_of(file_name@),
{
    if text::ends_with(file_name, ".m3u8") {
        "application/vnd.apple.mpegurl"
    } else if text::ends_with(file_name, ".ts") {
        "video/mp2t"
    } else if text::ends_with(file_name, ".m4s") {
        "video/iso.segment"
    } else if text::ends_with(file_name, ".mp4") {
        "video/mp4"
    } else {
        "application/octet-stream"
    }
}

/// The priority of a file: playlists first, then initialisation segments.
pub open spec fn priority_of(file_name: Seq<char>) -> u8 {
    if has_suffix(file_name, ".m3u8"@) {
        255
    } else if has_infix(file_name, "init"@) {
        200
    } else {
        100
    }
}

/// The priority of a file.
pub fn priority(file_name: &str) -> (r: u8)
    ensures
        r == priority_of(file_name@),
{
    if text::ends_with(file_name, ".m3u8") {
        255
    } else if text::contains(file_name, "init") {
        200
    } else {
        100
    }
}

/// A file of a stream as it enters the queue at `now`.
pub open spec fn segment_of(
    stream_name: Seq<char>,
    file_name: Seq<char>,
    data: Seq<u8>,
    now: Timestamp,
) -> MemorySegmentModel {
    MemorySegmentModel {
        stream_name,
        file_name,
        data,
        content_type: content_type_of(file_name),
        priority: priority_of(file_name),
        created_at: now,
        retry_count: 0,
    }
}

/// The files of a stream as they enter the queue at `now`.
pub open spec fn stream_batch(
    stream_name: Seq<char>,
    files: Seq<(Seq<char>, Vec<u8>)>,
    now: Timestamp,
) -> Seq<MemorySegmentModel> {
    Seq::new(files.len(), |i: int| segment_of(stream_name, files[i].0, files[i].1@, now))
}

/// The views of a sequence of segments.
pub open spec fn models(segments: Seq<MemorySegment>) -> Seq<MemorySegmentModel> {
    segments.map_values(|s: MemorySegment| s@)
}

proof fn lemma_insert_pos(queue: Seq<MemorySegment>, priority: u8)
    ensures
        0 <= insert_pos(queue, priority) <= queue.len(),
        forall|i: int|
            0 <= i < insert_pos(queue, priority) ==> #[trigger] queue[i].priority >= priority,
        insert_pos(queue, priority) < queue.len() ==> queue[insert_pos(queue, priority)].priority
            < priority,
    decreases queue.len(),
{
    if queue.len() == 0 || queue[0].priority < priority {
    } else {
        lemma_insert_pos(queue.skip(1), priority);
        assert forall|i: int| 0 <= i < insert_pos(queue, priority) implies #[trigger] queue[i].priority
            >= priority by {
            if i > 0 {
                assert(queue.skip(1)[i - 1] == queue[i]);
            }
        }
    }
}

proof fn lemma_insert_pos_is(queue: Seq<MemorySegment>, priority: u8, p: int)
    requires
        0 <= p <= queue.len(),
        forall|i: int| 0 <= i < p ==> #[trigger] queue[i].priority >= priority,
        p < queue.len() ==> queue[p].priority < priority,
    ensures
        insert_pos(queue, priority) == p,
{
    lemma_insert_pos(queue, priority);
    let q = insert_pos(queue, priority);
    if q < p {
        assert(queue[q].priority >= priority);
    } else if p < q {
        assert(queue[p].priority >= priority);
    }
}

/// A queue ordered by priority stays so, and a segment that enters it stands
/// behind every segment of its own or a higher priority and before every other.
pub proof fn law_queue_stays_ordered(queue: Seq<MemorySegment>, segment: MemorySegment)
    requires
        by_priority(queue),
    ensures
        by_priority(queued(queue, segment)),
        forall|i: int|
            0 <= i < queue.len() ==> (#[trigger] queue[i].priority >= segment.priority <==> i
                < insert_pos(queue, segment.priority)),
{
    lemma_insert_pos(queue, segment.priority);
    let p = insert_pos(queue, segment.priority);
    let after = queued(queue, segment);
    assert forall|i: int| 0 <= i < queue.len() implies (#[trigger] queue[i].priority
        >= segment.priority <==> i < p) by {
        if i >= p {
            assert(queue[p].priority >= queue[i].priority);
        }
    }
    assert forall|i: int, j: int| 0 <= i <= j < after.len() implies #[trigger] after[i].priority
        >= #[trigger] after[j].priority by {
        let a = if i <= p { i } else { i - 1 };
        let b = if j <= p { j } else { j - 1 };
        if i != p && j != p {
            assert(queue[a].priority >= queue[b].priority);
        } else if i == p && j > p {
            assert(queue[b].priority < segment.priority);
        } else if j == p && i < p {
            assert(queue[a].priority >= segment.priority);
        }
    }
}

/// A queue filled from empty is ordered by priority, whatever came in.
pub proof fn law_filled_queue_is_ordered(segments: Seq<MemorySegment>)
    ensures
        by_priority(queued_all(Seq::empty(), segments)),
        queued_all(Seq::empty(), segments).to_multiset() == segments.to_multiset(),
    decreases segments.len(),
{
    if segments.len() == 0 {
        assert(queued_all(Seq::empty(), segments) =~= segments);
    } else {
        let rest = segments.drop_last();
        law_filled_queue_is_ordered(rest);
        let before = queued_all(Seq::empty(), rest);
        law_queue_stays_ordered(before, segments.last());
        lemma_insert_pos(before, segments.last().priority);
        broadcast use vstd::seq_lib::group_to_multiset_ensures;

        assert(segments =~= rest.push(segments.last()));
    }
}

impl MemoryS3Uploader {
    /// The segments that wait, the next one first.
    pub closed spec fn queue(self) -> Seq<MemorySegment> {
        self.upload_queue@
    }

    /// The record of uploads by key.
    pub closed spec fn uploads(self) -> Table<UploadState> {
        self.active_uploads
    }

    /// The bucket.
    pub closed spec fn bucket(self) -> Seq<char> {
        self.bucket@
    }

    /// The number of uploads that may run at a time.
    pub closed spec fn workers(self) -> usize {
        self.worker_count
    }

    /// The number of failed attempts after which another one is made.
    pub closed spec fn retries(self) -> u8 {
        self.max_retries
    }

    /// The record holds every key at most once.
    pub open spec fn wf(self) -> bool {
        self.uploads().wf() && self.retries() < u8::MAX
    }

    /// Bucket, workers and retries are those of `other`.
    pub open spec fn same_setup(self, other: Self) -> bool {
        self.bucket() == other.bucket() && self.workers() == other.workers() && self.retries()
            == other.retries()
    }

    /// An uploader with nothing to do, at least eight workers and five retries.
    pub fn new(bucket: String, worker_count: usize) -> (r: Self)
        ensures
            r.wf(),
            r.queue() == Seq::<MemorySegment>::empty(),
            r.uploads()@ == Map::<Seq<char>, UploadState>::empty(),
            r.bucket() == bucket@,
            r.workers() == (if worker_count >= 8 {
                worker_count
            } else {
                8
            }),
            r.retries() == 5,
    {
        let effective: usize = if worker_count >= 8 {
            worker_count
        } else {
            8
        };
        MemoryS3Uploader {
            bucket,
            upload_queue: VecDeque::new(),
            active_uploads: Table::new(),
            worker_count: effective,
            max_retries: 5,
        }
    }

    /// Puts a segment into the queue before the first one of a lower priority,
    /// and returns the length of the queue: as many workers are to be started.
    pub fn queue_segment(&mut self, segment: MemorySegment) -> (r: usize)
        requires
            old(self).wf(),
        ensures
            final(self).wf(),
            final(self).same_setup(*old(self)),
            final(self).uploads() == old(self).uploads(),
            final(self).queue() == queued(old(self).queue(), segment),
            r == final(self).queue().len(),
    {
        let n: usize = self.upload_queue.len();
        let mut pos: usize = 0;
        while pos < n && self.upload_queue[pos].priority >= segment.priority
            invariant
                n == self.upload_queue@.len(),
                pos <= n,
                forall|i: int| 0 <= i < pos ==> #[trigger] self.upload_queue@[i].priority >= segment.priority,
            decreases n - pos,
        {
            pos = pos + 1;
        }
        proof {
            lemma_insert_pos_is(self.upload_queue@, segment.priority, pos as int);
        }
        self.upload_queue.insert(pos, segment);
        self.upload_queue.len()
    }

    /// Takes the next segment out of the queue and records it as being uploaded.
    pub fn next_task(&mut self) -> (r: Option<UploadTask>)
        requires
            old(self).wf(),
        ensures
            final(self).wf(),
            final(self).same_setup(*old(self)),
            match r {
                Some(task) => {
                    &&& old(self).queue().len() > 0
                    &&& task.segment == old(self).queue()[0]
                    &&& task.state is Uploading
                    &&& task.attempt == 0
                    &&& final(self).queue() == old(self).queue().skip(1)
                    &&& final(self).uploads()@ == old(self).uploads()@.insert(
                        key_of(task.segment.stream_name@, task.segment.file_name@),
                        UploadState::Uploading,
                    )
                },
                None => {
                    &&& old(self).queue().len() == 0
                    &&& final(self).queue() == old(self).queue()
                    &&& final(self).uploads() == old(self).uploads()
                },
            },
    {
        match self.upload_queue.pop_front() {
            Some(segment) => {
                let key = object_key(segment.stream_name.as_str(), segment.file_name.as_str());
                self.active_uploads.insert(key, UploadState::Uploading);
                assert(self.queue() =~= old(self).queue().skip(1));
                Some(UploadTask { segment, state: UploadState::Uploading, attempt: 0 })
            },
            None => None,
        }
    }

    /// Records how an attempt ended and says what follows: after a success the
    /// upload is complete; after a failure it is tried again after a wait that
    /// grows with the failures, until no attempt is left.
    pub fn after_attempt(
        &mut self,
        task: &mut UploadTask,
        result: Result<(), String>,
    ) -> (r: AttemptOutcome)
        requires
            old(self).wf(),
            old(task).attempt <= old(self).retries(),
        ensures
            final(self).wf(),
            final(self).same_setup(*old(self)),
            final(self).queue() == old(self).queue(),
            final(task).segment == old(task).segment,
            ({
                let key = key_of(old(task).segment.stream_name@, old(task).segment.file_name@);
                let attempt = old(task).attempt as int;
                let last = old(self).retries() as int;
                &&& r == outcome_of(
                    attempt,
                    last,
                    result is Ok,
                    (match result {
                        Ok(_) => 0,
                        Err(error) => backoff_ms_of(error@, (attempt + 1) as u8),
                    }) as u64,
                )
                &&& final(task).attempt == (if result is Ok {
                    attempt
                } else {
                    attempt + 1
                })
                &&& final(task).state == (match result {
                    Ok(_) => UploadState::Completed,
                    Err(error) => if tries_again(attempt, last, false) {
                        old(task).state
                    } else {
                        UploadState::Failed(error)
                    },
                })
                &&& final(self).uploads()@ == recorded(
                    old(self).uploads()@,
                    key,
                    attempt,
                    last,
                    result,
                    true,
                )
                &&& tries_again(attempt, last, result is Ok) ==> final(self).uploads() == old(
                    self,
                ).uploads()
            }),
    {
        let key = object_key(task.segment.stream_name.as_str(), task.segment.file_name.as_str());
        match result {
            Ok(_) => {
                task.state = UploadState::Completed;
                self.active_uploads.insert(key, UploadState::Completed);
                AttemptOutcome::Done
            },
            Err(error) => {
                task.attempt = task.attempt + 1;
                if task.attempt <= self.max_retries {
                    AttemptOutcome::Retry { wait_ms: backoff_ms(error.as_str(), task.attempt) }
                } else {
                    task.state = UploadState::Failed(error.clone());
                    self.active_uploads.insert(key, UploadState::Failed(error));
                    AttemptOutcome::GaveUp
                }
            },
        }
    }

    /// The request that uploads the segment of a task, made now.
    pub fn upload_request(&self, task: &UploadTask) -> (r: PutObject)
        ensures
            exists|now: Timestamp|
                r@ == #[trigger] put_object_of(
                    self.bucket(),
                    key_of(task.segment.stream_name@, task.segment.file_name@),
                    task.segment.data.len(),
                    task.segment.content_type@,
                    now,
                ),
    {
        self.upload_request_at(task, &Timestamp::now())
    }

    /// The request that uploads the segment of a task, made at `now`.
    pub fn upload_request_at(&self, task: &UploadTask, now: &Timestamp) -> (r: PutObject)
        ensures
            r@ == put_object_of(
                self.bucket(),
                key_of(task.segment.stream_name@, task.segment.file_name@),
                task.segment.data.len(),
                task.segment.content_type@,
                *now,
            ),
    {
        let key = object_key(task.segment.stream_name.as_str(), task.segment.file_name.as_str());
        put_object(
            self.bucket.as_str(),
            key.as_str(),
            task.segment.data.len(),
            task.segment.content_type.as_str(),
            now,
        )
    }

    /// Puts segments into the queue one after the other.
    pub fn batch_upload(&mut self, segments: Vec<MemorySegment>)
        requires
            old(self).wf(),
        ensures
            final(self).wf(),
            final(self).same_setup(*old(self)),
            final(self).uploads() == old(self).uploads(),
            final(self).queue() == queued_all(old(self).queue(), segments@),
    {
        let ghost all = segments@;
        let mut rest = segments;
        let ghost mut done: int = 0;
        assert(all.skip(0) =~= all);
        assert(all.take(0) =~= Seq::<MemorySegment>::empty());
        while rest.len() > 0
            invariant
                0 <= done <= all.len(),
                rest@ == all.skip(done),
                self.wf(),
                self.same_setup(*old(self)),
                self.uploads() == old(self).uploads(),
                self.queue() == queued_all(old(self).queue(), all.take(done)),
            decreases rest.len(),
        {
            let segment = rest.remove(0);
            let _ = self.queue_segment(segment);
            proof {
                assert(all.take(done + 1).drop_last() =~= all.take(done));
                assert(rest@ =~= all.skip(done + 1));
                done = done + 1;
            }
        }
        assert(all.take(done) =~= all);
    }

    /// Puts the files of a stream into the queue now, each with the media type
    /// and the priority that its name gives it.
    pub fn upload_stream_from_memory(&mut self, stream_name: &str, segments: &Table<Vec<u8>>)
        requires
            old(self).wf(),
            segments.wf(),
        ensures
            final(self).wf(),
            final(self).same_setup(*old(self)),
            final(self).uploads() == old(self).uploads(),
            exists|batch: Seq<MemorySegment>, now: Timestamp|
                {
                    &&& final(self).queue() == #[trigger] queued_all(old(self).queue(), batch)
                    &&& models(batch) == #[trigger] stream_batch(
                        stream_name@,
                        segments.rows(),
                        now,
                    )
                },
    {
        self.upload_stream_from_memory_at(stream_name, segments, Timestamp::now());
    }

    /// Puts the files of a stream into the queue at `now`, each with the media
    /// type and the priority that its name gives it.
    pub fn upload_stream_from_memory_at(
        &mut self,
        stream_name: &str,
        segments: &Table<Vec<u8>>,
        now: Timestamp,
    )
        requires
            old(self).wf(),
            segments.wf(),
        ensures
            final(self).wf(),
            final(self).same_setup(*old(self)),
            final(self).uploads() == old(self).uploads(),
            exists|batch: Seq<MemorySegment>|
                {
                    &&& final(self).queue() == #[trigger] queued_all(old(self).queue(), batch)
                    &&& models(batch) == stream_batch(stream_name@, segments.rows(), now)
                },
    {
        let mut batch: Vec<MemorySegment> = Vec::new();
        let mut i: usize = 0;
        while i < segments.len()
            invariant
                segments.wf(),
                i <= segments.rows().len(),
                batch.len() == i,
                forall|j: int|
                    0 <= j < i ==> (#[trigger] batch@[j])@ == segment_of(
                        stream_name@,
                        segments.rows()[j].0,
                        segments.rows()[j].1@,
                        now,
                    ),
            decreases segments.rows().len() - i,
        {
            let file_name = segments.name_at(i);
            let data = segments.value_at(i).clone();
            let segment = MemorySegment {
                stream_name: stream_name.to_owned(),
                file_name: file_name.to_owned(),
                data,
                content_type: content_type(file_name).to_owned(),
                priority: priority(file_name),
                created_at: now,
                retry_count: 0,
            };
            assert(segment.data@ =~= segments.rows()[i as int].1@);
            batch.push(segment);
            i = i + 1;
        }
        assert(models(batch@) =~= stream_batch(stream_name@, segments.rows(), now));
        self.batch_upload(batch);
    }

    /// The record of the upload of `key`.
    pub fn get_upload_status(&self, key: &str) -> (r: Option<UploadState>)
        requires
            self.wf(),
        ensures
            match r {
                Some(state) => self.uploads()@.contains_key(key@) && state == self.uploads()@[key@],
                None => !self.uploads()@.contains_key(key@),
            },
    {
        match self.active_uploads.get(key) {
            Some(state) => Some(state.clone()),
            None => None,
        }
    }

    /// The number of segments that wait.
    pub fn pending_count(&self) -> (r: usize)
        ensures
            r == self.queue().len(),
    {
        self.upload_queue.len()
    }

    /// The number of uploads in flight.
    pub fn active_count(&self) -> (r: usize)
        requires
            self.wf(),
        ensures
            r == in_flight_count(self.uploads().rows()),
    {
        count_in_flight(&self.active_uploads)
    }

    /// The number of uploads that may run at a time.
    pub fn worker_limit(&self) -> (r: usize)
        ensures
            r == self.workers(),
    {
        self.worker_count
    }
}

/// The wait grows with the number of failures, and is there after the first.
pub proof fn law_waits_grow(error: Seq<char>, failures: u8)
    requires
        failures < u8::MAX,
    ensures
        backoff_ms_of(error, failures) < backoff_ms_of(error, (failures + 1) as u8),
        backoff_ms_of(error, 0) == 0,
{
}

/// The wait is two seconds for each failure where the service asks to slow
/// down, one where there was a timeout, half a second where the connection was
/// at fault, and three tenths of a second otherwise.
pub proof fn law_wait_by_kind(error: Seq<char>, failures: u8)
    ensures
        kind_of(error) is SlowDown ==> backoff_ms_of(error, failures) == 2000 * failures,
        kind_of(error) is Timeout ==> backoff_ms_of(error, failures) == 1000 * failures,
        kind_of(error) is Connection ==> backoff_ms_of(error, failures) == 500 * failures,
        kind_of(error) is Other ==> backoff_ms_of(error, failures) == 300 * failures,
{
}

proof fn lemma_ending(stem: Seq<char>, tail: Seq<char>, other: Seq<char>)
    requires
        tail.len() > 1,
        other.len() > 1,
        tail.last() != other.last() || tail[tail.len() - 2] != other[other.len() - 2],
    ensures
        has_suffix(stem + tail, tail),
        !has_suffix(stem + tail, other),
{
    let s = stem + tail;
    assert(s.skip(s.len() - tail.len()) =~= tail);
    if has_suffix(s, other) {
        let end = s.skip(s.len() - other.len());
        assert(end.last() == s.last());
        assert(end[end.len() - 2] == s[s.len() - 2]);
    }
}

/// What a file is uploaded as: playlists, transport and fragmented segments and
/// movies each as what they are, everything else as bytes.
pub proof fn law_content_type_by_extension(stem: Seq<char>, file_name: Seq<char>)
    ensures
        content_type_of(stem + ".m3u8"@) == "application/vnd.apple.mpegurl"@,
        content_type_of(stem + ".ts"@) == "video/mp2t"@,
        content_type_of(stem + ".m4s"@) == "video/iso.segment"@,
        content_type_of(stem + ".mp4"@) == "video/mp4"@,
        (forall|s: Seq<char>|
            #![trigger s + ".m3u8"@]
            file_name != s + ".m3u8"@ && file_name != s + ".ts"@ && file_name != s + ".m4s"@
                && file_name != s + ".mp4"@) ==> content_type_of(file_name)
            == "application/octet-stream"@,
{
    reveal_strlit(".m3u8");
    reveal_strlit(".ts");
    reveal_strlit(".m4s");
    reveal_strlit(".mp4");
    lemma_ending(stem, ".m3u8"@, ".ts"@);
    lemma_ending(stem, ".ts"@, ".m3u8"@);
    lemma_ending(stem, ".m4s"@, ".m3u8"@);
    lemma_ending(stem, ".m4s"@, ".ts"@);
    lemma_ending(stem, ".mp4"@, ".m3u8"@);
    lemma_ending(stem, ".mp4"@, ".ts"@);
    lemma_ending(stem, ".mp4"@, ".m4s"@);
    if forall|s: Seq<char>|
        #![trigger s + ".m3u8"@]
        file_name != s + ".m3u8"@ && file_name != s + ".ts"@ && file_name != s + ".m4s"@
            && file_name != s + ".mp4"@ {
        if has_suffix(file_name, ".m3u8"@) {
            let s = file_name.take(file_name.len() - ".m3u8"@.len());
            let shown = s + ".m3u8"@;
            assert(file_name =~= s + ".m3u8"@);
        }
        if has_suffix(file_name, ".ts"@) {
            let s = file_name.take(file_name.len() - ".ts"@.len());
            let shown = s + ".m3u8"@;
            assert(file_name =~= s + ".ts"@);
        }
        if has_suffix(file_name, ".m4s"@) {
            let s = file_name.take(file_name.len() - ".m4s"@.len());
            let shown = s + ".m3u8"@;
            assert(file_name =~= s + ".m4s"@);
        }
        if has_suffix(file_name, ".mp4"@) {
            let s = file_name.take(file_name.len() - ".mp4"@.len());
            let shown = s + ".m3u8"@;
            assert(file_name =~= s + ".mp4"@);
        }
    }
}

/// Playlists go before everything, initialisation segments before all other
/// media, wherever their names say so.
pub proof fn law_priority_by_name(before: Seq<char>, after: Seq<char>)
    ensures
        priority_of(before + ".m3u8"@) == 255,
        priority_of(before + "init"@ + after) >= 200,
        !has_suffix(before + "init"@ + after, ".m3u8"@) ==> priority_of(before + "init"@ + after)
            == 200,
        !has_suffix(before, ".m3u8"@) && !has_infix(before, "init"@) ==> priority_of(before) == 100,
{
    let list = before + ".m3u8"@;
    assert(list.skip(list.len() - ".m3u8"@.len()) =~= ".m3u8"@);
    let s = before + "init"@ + after;
    let i = before.len() as int;
    assert(s.subrange(i, i + "init"@.len()) =~= "init"@);
    assert(text::occurs_at(s, "init"@, i));
}

/// A file enters the queue as itself: with its stream, name and data, the type
/// and the priority that its name gives it, and no failure yet.
pub proof fn law_batch_is_made_of_files(
    stream_name: Seq<char>,
    files: Seq<(Seq<char>, Vec<u8>)>,
    now: Timestamp,
)
    ensures
        stream_batch(stream_name, files, now).len() == files.len(),
        forall|i: int|
            #![trigger files[i]]
            0 <= i < files.len() ==> {
                let s = stream_batch(stream_name, files, now)[i];
                &&& s.stream_name == stream_name
                &&& s.file_name == files[i].0
                &&& s.data == files[i].1@
                &&& s.content_type == content_type_of(files[i].0)
                &&& s.priority == priority_of(files[i].0)
                &&& s.created_at == now
                &&& s.retry_count == 0
            },
{
}

/// A segment that enters the queue changes nothing of the others: those before
/// it stay where they are, and those behind it move up by one.
pub proof fn law_entering_moves_no_other(queue: Seq<MemorySegment>, segment: MemorySegment)
    ensures
        ({
            let after = queued(queue, segment);
            let p = insert_pos(queue, segment.priority);
            &&& 0 <= p <= queue.len()
            &&& after.len() == queue.len() + 1
            &&& after[p] == segment
            &&& forall|i: int| 0 <= i < p ==> after[i] == #[trigger] queue[i]
            &&& forall|i: int| p <= i < queue.len() ==> after[i + 1] == #[trigger] queue[i]
            &&& forall|i: int| 0 <= i < p ==> #[trigger] queue[i].priority >= segment.priority
            &&& p < queue.len() ==> queue[p].priority < segment.priority
        }),
{
    lemma_insert_pos(queue, segment.priority);
}

/// Segments that enter one after the other: the last of them enters the queue
/// that the others have made.
pub proof fn law_batch_enters_in_turn(
    queue: Seq<MemorySegment>,
    segments: Seq<MemorySegment>,
    segment: MemorySegment,
)
    ensures
        queued_all(queue, Seq::empty()) == queue,
        queued_all(queue, segments.push(segment)) == queued(queued_all(queue, segments), segment),
{
    assert(segments.push(segment).drop_last() =~= segments);
}

/// An upload is in flight exactly while it is on record as being uploaded.
pub proof fn law_in_flight_while_uploading(error: String)
    ensures
        UploadState::Uploading.in_flight(),
        !UploadState::Pending.in_flight(),
        !UploadState::Completed.in_flight(),
        !UploadState::Failed(error).in_flight(),
        <UploadState as InFlight>::completed() == UploadState::Completed,
        <UploadState as InFlight>::failed(error) == UploadState::Failed(error),
{
}

} // verus!
