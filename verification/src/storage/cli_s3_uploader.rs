//! Uploads through the AWS command-line tool.

use crate::number::{dec, decimal, is_digit, lemma_dec_reads_back};
pub use crate::storage::upload::UploadState;
use crate::storage::upload::{
    attempts_from, cache_control, cache_control_of, count_in_flight, in_flight_count, key_of,
    law_attempts_are_bounded, object_key, outcome_of, recorded, tries_again, AttemptOutcome,
};
use crate::table::Table;
use crate::text::{lemma_split_front, lemma_split_whole, owned_all, split, strs, texts};
use crate::time::Timestamp;
use crate::writer;
use vstd::prelude::*;

verus! {

/// The number of failed attempts after which another one is made.
pub const MAX_RETRIES: u8 = 3;

/// A file of a stream that waits for its upload.
#[derive(Clone, Debug)]
pub struct CliSegment {
    pub stream_name: String,
    pub file_name: String,
    pub data: Vec<u8>,
    pub content_type: String,
    pub priority: u8,
    pub created_at: Timestamp,
}

/// What a [`CliSegment`] says.
#[verifier::ext_equal]
pub struct CliSegmentModel {
    pub stream_name: Seq<char>,
    pub file_name: Seq<char>,
    pub data: Seq<u8>,
    pub content_type: Seq<char>,
    pub priority: u8,
    pub created_at: Timestamp,
}

impl View for CliSegment {
    type V = CliSegmentModel;

    open spec fn view(&self) -> CliSegmentModel {
        CliSegmentModel {
            stream_name: self.stream_name@,
            file_name: self.file_name@,
            data: self.data@,
            content_type: self.content_type@,
            priority: self.priority,
            created_at: self.created_at,
        }
    }
}

/// Where and with which credentials files are uploaded, and the record of the
/// uploads.
pub struct CliS3Uploader {
    bucket: String,
    region: String,
    endpoint_url: Option<String>,
    access_key: String,
    secret_key: String,
    active_uploads: Table<UploadState>,
    worker_count: usize,
}

/// What an uploader was set up with.
#[verifier::ext_equal]
pub struct CliSetup {
    pub bucket: Seq<char>,
    pub region: Seq<char>,
    pub endpoint_url: Option<Seq<char>>,
    pub access_key: Seq<char>,
    pub secret_key: Seq<char>,
    pub workers: usize,
}

/// How a run of the command-line tool ended.
#[derive(Debug)]
pub enum CliRun {
    /// The temporary file could not be written.
    NotWritten { error: String },
    /// The task that runs the tool was lost.
    NotJoined { error: String },
    /// The tool could not be started.
    NotStarted { error: String },
    /// The tool ran.
    Exited { success: bool, stderr: String },
}

/// What went wrong in a run, if anything did.
pub open spec fn run_error(run: CliRun) -> Option<Seq<char>> {
    match run {
        CliRun::NotWritten { error } => Some("Failed to write temp file: "@ + error@),
        CliRun::NotJoined { error } => Some("Task join error: "@ + error@),
        CliRun::NotStarted { error } => Some("Failed to execute AWS CLI: "@ + error@),
        CliRun::Exited { success, stderr } => if success {
            None
        } else {
            Some("AWS CLI failed: "@ + stderr@)
        },
    }
}

/// Whether a run uploaded the file, or what went wrong.
pub fn run_result(run: &CliRun) -> (r: Result<(), String>)
    ensures
        match r {
            Ok(_) => run_error(*run) is None,
            Err(error) => run_error(*run) == Some(error@),
        },
{
    match run {
        CliRun::NotWritten { error } => Err(
            writer::join2("Failed to write temp file: ", error.as_str()),
        ),
        CliRun::NotJoined { error } => Err(writer::join2("Task join error: ", error.as_str())),
        CliRun::NotStarted { error } => Err(
            writer::join2("Failed to execute AWS CLI: ", error.as_str()),
        ),
        CliRun::Exited { success, stderr } => if *success {
            Ok(())
        } else {
            Err(writer::join2("AWS CLI failed: ", stderr.as_str()))
        },
    }
}

/// The name of the moment `secs` seconds and `nanos` nanoseconds after the
/// Unix epoch.
pub open spec fn moment_name(secs: nat, nanos: nat) -> Seq<char> {
    dec(secs) + "_"@ + dec(nanos)
}

/// The name of a moment.
pub fn uuid_at(secs: u64, nanos: u32) -> (r: String)
    ensures
        r@ == moment_name(secs as nat, nanos as nat),
{
    writer::join3(decimal(secs).as_str(), "_", decimal(nanos as u64).as_str())
}

/// The name of the current moment.
pub fn uuid_simple() -> (r: String)
    ensures
        exists|now: Timestamp|
            0 <= now.secs() && r@ == moment_name(now.secs() as nat, #[trigger] now.nanos() as nat),
{
    let now = Timestamp::now();
    uuid_at(now.unix_secs() as u64, now.subsec_nanos())
}

/// The path of the temporary file of the name `uuid`.
pub fn temp_path(uuid: &str) -> (r: String)
    ensures
        r@ == "/tmp/s3_upload_"@ + uuid@,
{
    writer::join2("/tmp/s3_upload_", uuid)
}

/// The arguments that have the tool upload the file at `path` under `key`.
pub open spec fn upload_args_of(
    setup: CliSetup,
    path: Seq<char>,
    key: Seq<char>,
    content_type: Seq<char>,
) -> Seq<Seq<char>> {
    let args = seq![
        "s3"@,
        "cp"@,
        path,
        "s3://"@ + setup.bucket + "/"@ + key,
        "--region"@,
        setup.region,
        "--content-type"@,
        content_type,
        "--cache-control"@,
        cache_control_of(key),
    ];
    match setup.endpoint_url {
        Some(endpoint) => if endpoint.len() > 0 {
            args + seq!["--endpoint-url"@, endpoint]
        } else {
            args
        },
        None => args,
    }
}

impl CliS3Uploader {
    /// What the uploader was set up with.
    pub closed spec fn setup(self) -> CliSetup {
        CliSetup {
            bucket: self.bucket@,
            region: self.region@,
            endpoint_url: match self.endpoint_url {
                Some(e) => Some(e@),
                None => None,
            },
            access_key: self.access_key@,
            secret_key: self.secret_key@,
            workers: self.worker_count,
        }
    }

    /// The record of uploads by key.
    pub closed spec fn uploads(self) -> Table<UploadState> {
        self.active_uploads
    }

    /// The record holds every key at most once.
    pub open spec fn wf(self) -> bool {
        self.uploads().wf()
    }

    /// An uploader with at least 32 uploads at a time.
    pub fn new(
        bucket: String,
        region: String,
        endpoint_url: Option<String>,
        access_key: String,
        secret_key: String,
        worker_count: usize,
    ) -> (r: Self)
        ensures
            r.wf(),
            r.uploads()@ == Map::<Seq<char>, UploadState>::empty(),
            r.setup() == (CliSetup {
                bucket: bucket@,
                region: region@,
                endpoint_url: match endpoint_url {
                    Some(e) => Some(e@),
                    None => None,
                },
                access_key: access_key@,
                secret_key: secret_key@,
                workers: if worker_count >= 32 {
                    worker_count
                } else {
                    32
                },
            }),
    {
        let effective: usize = if worker_count >= 32 {
            worker_count
        } else {
            32
        };
        CliS3Uploader {
            bucket,
            region,
            endpoint_url,
            access_key,
            secret_key,
            active_uploads: Table::new(),
            worker_count: effective,
        }
    }

    /// The number of uploads that may run at a time.
    pub fn worker_limit(&self) -> (r: usize)
        ensures
            r == self.setup().workers,
    {
        self.worker_count
    }

    /// The key of a segment.
    pub fn segment_key(segment: &CliSegment) -> (r: String)
        ensures
            r@ == key_of(segment.stream_name@, segment.file_name@),
    {
        object_key(segment.stream_name.as_str(), segment.file_name.as_str())
    }

    /// The segment that queues a file now.
    pub fn queue_data(
        stream_name: &str,
        file_name: &str,
        data: Vec<u8>,
        content_type: &str,
        priority: u8,
    ) -> (r: CliSegment)
        ensures
            exists|now: Timestamp|
                r@ == (CliSegmentModel {
                    stream_name: stream_name@,
                    file_name: file_name@,
                    data: data@,
                    content_type: content_type@,
                    priority,
                    created_at: now,
                }),
    {
        Self::queue_data_at(stream_name, file_name, data, content_type, priority, Timestamp::now())
    }

    /// The segment that queues a file at `now`.
    pub fn queue_data_at(
        stream_name: &str,
        file_name: &str,
        data: Vec<u8>,
        content_type: &str,
        priority: u8,
        now: Timestamp,
    ) -> (r: CliSegment)
        ensures
            r@ == (CliSegmentModel {
                stream_name: stream_name@,
                file_name: file_name@,
                data: data@,
                content_type: content_type@,
                priority,
                created_at: now,
            }),
    {
        CliSegment {
            stream_name: stream_name.to_owned(),
            file_name: file_name.to_owned(),
            data,
            content_type: content_type.to_owned(),
            priority,
            created_at: now,
        }
    }

    /// Records a segment as being uploaded.
    pub fn queue_segment(&mut self, segment: &CliSegment) -> (r: String)
        requires
            old(self).wf(),
        ensures
            final(self).wf(),
            final(self).setup() == old(self).setup(),
            r@ == key_of(segment.stream_name@, segment.file_name@),
            final(self).uploads()@ == old(self).uploads()@.insert(r@, UploadState::Uploading),
    {
        let key = Self::segment_key(segment);
        self.active_uploads.insert(key.clone(), UploadState::Uploading);
        key
    }

    /// Records how the attempt number `attempt`, counted from zero, ended and
    /// says what follows.
    pub fn after_attempt(
        &mut self,
        key: &str,
        attempt: u8,
        result: Result<(), String>,
    ) -> (r: AttemptOutcome)
        requires
            old(self).wf(),
        ensures
            final(self).wf(),
            final(self).setup() == old(self).setup(),
            r == outcome_of(
                attempt as int,
                MAX_RETRIES as int,
                result is Ok,
                (200 * (attempt + 1)) as u64,
            ),
            final(self).uploads()@ == recorded(
                old(self).uploads()@,
                key@,
                attempt as int,
                MAX_RETRIES as int,
                result,
                true,
            ),
            tries_again(attempt as int, MAX_RETRIES as int, result is Ok) ==> final(self).uploads()
                == old(self).uploads(),
    {
        match result {
            Ok(_) => {
                self.active_uploads.insert(key.to_owned(), UploadState::Completed);
                AttemptOutcome::Done
            },
            Err(error) => if attempt < MAX_RETRIES {
                AttemptOutcome::Retry { wait_ms: 200 * (attempt as u64 + 1) }
            } else {
                self.active_uploads.insert(key.to_owned(), UploadState::Failed(error));
                AttemptOutcome::GaveUp
            },
        }
    }

    /// The arguments that have the tool upload the file at `path` under `key`.
    pub fn upload_args(&self, path: &str, key: &str, content_type: &str) -> (r: Vec<String>)
        ensures
            texts(r@) == upload_args_of(self.setup(), path@, key@, content_type@),
    {
        let target = writer::join4("s3://", self.bucket.as_str(), "/", key);
        let list = [
            "s3",
            "cp",
            path,
            target.as_str(),
            "--region",
            self.region.as_str(),
            "--content-type",
            content_type,
            "--cache-control",
            cache_control(key),
        ];
        let mut out = owned_all(&list);
        let ghost base = CliSetup { endpoint_url: None, ..self.setup() };
        let ghost head = upload_args_of(base, path@, key@, content_type@);
        assert(texts(out@) =~= head) by {
            assert(strs(list@) =~= head);
        }
        match &self.endpoint_url {
            Some(endpoint) => if !endpoint.as_str().is_empty() {
                out.push("--endpoint-url".to_owned());
                out.push(endpoint.clone());
                assert(texts(out@) =~= head + seq!["--endpoint-url"@, endpoint@]);
            },
            None => {},
        }
        assert(texts(out@) =~= upload_args_of(self.setup(), path@, key@, content_type@));
        out
    }

    /// The environment variables that hand the credentials to the tool.
    pub fn environment(&self) -> (r: Vec<(String, String)>)
        ensures
            r@.map_values(|v: (String, String)| (v.0@, v.1@)) == seq![
                ("AWS_ACCESS_KEY_ID"@, self.setup().access_key),
                ("AWS_SECRET_ACCESS_KEY"@, self.setup().secret_key),
                ("AWS_DEFAULT_REGION"@, self.setup().region),
            ],
    {
        let mut out: Vec<(String, String)> = Vec::new();
        out.push(("AWS_ACCESS_KEY_ID".to_owned(), self.access_key.clone()));
        out.push(("AWS_SECRET_ACCESS_KEY".to_owned(), self.secret_key.clone()));
        out.push(("AWS_DEFAULT_REGION".to_owned(), self.region.clone()));
        assert(out@.map_values(|v: (String, String)| (v.0@, v.1@)) =~= seq![
            ("AWS_ACCESS_KEY_ID"@, self.setup().access_key),
            ("AWS_SECRET_ACCESS_KEY"@, self.setup().secret_key),
            ("AWS_DEFAULT_REGION"@, self.setup().region),
        ]);
        out
    }

    /// The number of uploads in flight.
    pub fn pending_count(&self) -> (r: usize)
        requires
            self.wf(),
        ensures
            r == in_flight_count(self.uploads().rows()),
    {
        count_in_flight(&self.active_uploads)
    }

    /// The number of uploads in flight.
    pub fn active_count(&self) -> (r: usize)
        requires
            self.wf(),
        ensures
            r == in_flight_count(self.uploads().rows()),
    {
        self.pending_count()
    }
}

/// An upload that never goes well is attempted four times, and one that does is
/// attempted no more after that.
pub proof fn law_four_attempts(ok: spec_fn(int) -> bool)
    ensures
        attempts_from(0, MAX_RETRIES as int, ok) <= 4,
        (forall|i: int| 0 <= i < 4 ==> !#[trigger] ok(i)) ==> attempts_from(
            0,
            MAX_RETRIES as int,
            ok,
        ) == 4,
        forall|i: int|
            0 <= i < 4 && #[trigger] ok(i) ==> attempts_from(0, MAX_RETRIES as int, ok) <= i + 1,
{
    law_attempts_are_bounded(0, MAX_RETRIES as int, ok);
    let n = attempts_from(0, MAX_RETRIES as int, ok);
    assert forall|i: int| 0 <= i < 4 && #[trigger] ok(i) implies n <= i + 1 by {
        if n > i + 1 {
            assert(!ok(i));
        }
    }
}

/// Each way in which a run goes wrong is reported by what it was and what was
/// said of it; only a run that ends well is not reported.
pub proof fn law_run_errors(error: String, success: bool)
    ensures
        run_error(CliRun::NotWritten { error }) == Some("Failed to write temp file: "@ + error@),
        run_error(CliRun::NotJoined { error }) == Some("Task join error: "@ + error@),
        run_error(CliRun::NotStarted { error }) == Some("Failed to execute AWS CLI: "@ + error@),
        run_error(CliRun::Exited { success: false, stderr: error }) == Some(
            "AWS CLI failed: "@ + error@,
        ),
        run_error(CliRun::Exited { success, stderr: error }) is None <==> success,
{
}

/// The names of two moments differ.
pub proof fn law_moments_have_own_names(secs: nat, nanos: nat, other_secs: nat, other_nanos: nat)
    requires
        moment_name(secs, nanos) == moment_name(other_secs, other_nanos),
    ensures
        secs == other_secs,
        nanos == other_nanos,
        split(moment_name(secs, nanos), '_') == seq![dec(secs), dec(nanos)],
{
    lemma_moment_name(secs, nanos);
    lemma_moment_name(other_secs, other_nanos);
    let pieces = split(moment_name(secs, nanos), '_');
    lemma_dec_reads_back(secs);
    lemma_dec_reads_back(nanos);
    lemma_dec_reads_back(other_secs);
    lemma_dec_reads_back(other_nanos);
    assert(pieces[0] == dec(other_secs) && pieces[1] == dec(other_nanos));
}

proof fn lemma_moment_name(secs: nat, nanos: nat)
    ensures
        split(moment_name(secs, nanos), '_') == seq![dec(secs), dec(nanos)],
{
    reveal_strlit("_");
    assert("_"@ =~= seq!['_']);
    lemma_dec_reads_back(secs);
    lemma_dec_reads_back(nanos);
    if dec(secs).contains('_') {
        let i = choose|i: int| 0 <= i < dec(secs).len() && dec(secs)[i] == '_';
        assert(is_digit(dec(secs)[i]));
    }
    if dec(nanos).contains('_') {
        let i = choose|i: int| 0 <= i < dec(nanos).len() && dec(nanos)[i] == '_';
        assert(is_digit(dec(nanos)[i]));
    }
    lemma_split_front(dec(secs), '_', dec(nanos));
    lemma_split_whole(dec(nanos), '_');
    assert(split(moment_name(secs, nanos), '_') =~= seq![dec(secs), dec(nanos)]);
}

/// The tool is told to copy the file at the path to the key in the bucket. Each
/// option is followed by its value: the region and the media type as they are,
/// how long caches may keep the object, and the endpoint only where one is named.
pub proof fn law_upload_args(
    setup: CliSetup,
    path: Seq<char>,
    key: Seq<char>,
    content_type: Seq<char>,
)
    ensures
        ({
            let args = upload_args_of(setup, path, key, content_type);
            &&& args[0] == "s3"@ && args[1] == "cp"@
            &&& args[2] == path
            &&& args[3] == "s3://"@ + setup.bucket + "/"@ + key
            &&& args[4] == "--region"@ && args[5] == setup.region
            &&& args[6] == "--content-type"@ && args[7] == content_type
            &&& args[8] == "--cache-control"@ && args[9] == cache_control_of(key)
            &&& (setup.endpoint_url is None || setup.endpoint_url->0.len() == 0) ==> args.len()
                == 10
            &&& setup.endpoint_url matches Some(endpoint) ==> endpoint.len() > 0 ==> {
                &&& args.len() == 12
                &&& args[10] == "--endpoint-url"@ && args[11] == endpoint
            }
        }),
{
}

} // verus!
