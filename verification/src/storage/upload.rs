//! What the uploaders have in common: object keys, request headers, the kinds
//! of errors, and the record of uploads in flight.

use crate::table::Table;
use crate::text::{has_infix, has_suffix};
use crate::text;
use crate::time::{rfc3339_text, Timestamp};
use crate::writer;
use vstd::prelude::*;

verus! {

/// The key of a file of a stream.
pub open spec fn key_of(stream_name: Seq<char>, file_name: Seq<char>) -> Seq<char> {
    stream_name + "/"@ + file_name
}

/// The key of a file of a stream.
pub fn object_key(stream_name: &str, file_name: &str) -> (r: String)
    ensures
        r@ == key_of(stream_name@, file_name@),
{
    writer::join3(stream_name, "/", file_name)
}

/// How long caches may keep an object: playlists not at all, the
/// initialisation segment for a day, everything else for an hour.
pub open spec fn cache_control_of(key: Seq<char>) -> Seq<char> {
    if has_suffix(key, ".m3u8"@) {
        "no-cache, no-store, must-revalidate"@
    } else if has_suffix(key, "init.mp4"@) {
        "public, max-age=86400"@
    } else {
        "public, max-age=3600"@
    }
}

/// How long caches may keep an object.
pub fn cache_control(key: &str) -> (r: &'static str)
    ensures
        r@ == cache_control_of(key@),
{
    if text::ends_with(key, ".m3u8") {
        "no-cache, no-store, must-revalidate"
    } else if text::ends_with(key, "init.mp4") {
        "public, max-age=86400"
    } else {
        "public, max-age=3600"
    }
}

/// The kinds of errors that an upload is retried after.
#[derive(Clone, Copy, Debug, PartialEq, Eq, Structural)]
pub enum ErrorKind {
    SlowDown,
    Connection,
    Timeout,
    Other,
}

/// The kind of an error, by what its text mentions.
pub open spec fn kind_of(error: Seq<char>) -> ErrorKind {
    if has_infix(error, "SlowDown"@) {
        ErrorKind::SlowDown
    } else if has_infix(error, "connection"@) || has_infix(error, "Connection"@) || has_infix(
        error,
        "re-used"@,
    ) || has_infix(error, "dispatch"@) {
        ErrorKind::Connection
    } else if has_infix(error, "timeout"@) || has_infix(error, "Timeout"@) {
        ErrorKind::Timeout
    } else {
        ErrorKind::Other
    }
}

/// The kind of an error.
pub fn error_kind(error: &str) -> (r: ErrorKind)
    ensures
        r == kind_of(error@),
{
    if text::contains(error, "SlowDown") {
        ErrorKind::SlowDown
    } else if text::contains(error, "connection") || text::contains(error, "Connection")
        || text::contains(error, "re-used") || text::contains(error, "dispatch") {
        ErrorKind::Connection
    } else if text::contains(error, "timeout") || text::contains(error, "Timeout") {
        ErrorKind::Timeout
    } else {
        ErrorKind::Other
    }
}

/// A request that stores an object.
#[derive(Clone, Debug)]
pub struct PutObject {
    pub bucket: String,
    pub key: String,
    pub content_length: usize,
    pub content_type: String,
    pub cache_control: String,
    /// Names and values of the metadata.
    pub metadata: Vec<(String, String)>,
}

/// What a [`PutObject`] says.
#[verifier::ext_equal]
pub struct PutObjectModel {
    pub bucket: Seq<char>,
    pub key: Seq<char>,
    pub content_length: usize,
    pub content_type: Seq<char>,
    pub cache_control: Seq<char>,
    pub metadata: Seq<(Seq<char>, Seq<char>)>,
}

impl View for PutObject {
    type V = PutObjectModel;

    open spec fn view(&self) -> PutObjectModel {
        PutObjectModel {
            bucket: self.bucket@,
            key: self.key@,
            content_length: self.content_length,
            content_type: self.content_type@,
            cache_control: self.cache_control@,
            metadata: self.metadata@.map_values(|m: (String, String)| (m.0@, m.1@)),
        }
    }
}

/// The request that stores an object of `length` bytes at `now`. A playlist
/// carries the time of the upload and its type as metadata.
pub open spec fn put_object_of(
    bucket: Seq<char>,
    key: Seq<char>,
    length: usize,
    content_type: Seq<char>,
    now: Timestamp,
) -> PutObjectModel {
    PutObjectModel {
        bucket,
        key,
        content_length: length,
        content_type,
        cache_control: cache_control_of(key),
        metadata: if has_suffix(key, ".m3u8"@) {
            seq![
                ("x-amz-meta-last-modified"@, rfc3339_text(now.secs(), now.nanos())),
                ("x-amz-meta-type"@, "playlist"@),
            ]
        } else {
            Seq::empty()
        },
    }
}

/// The request that stores an object of `length` bytes at `now`.
pub fn put_object(
    bucket: &str,
    key: &str,
    length: usize,
    content_type: &str,
    now: &Timestamp,
) -> (r: PutObject)
    ensures
        r@ == put_object_of(bucket@, key@, length, content_type@, *now),
{
    let mut metadata: Vec<(String, String)> = Vec::new();
    if text::ends_with(key, ".m3u8") {
        metadata.push(("x-amz-meta-last-modified".to_owned(), now.rfc3339()));
        metadata.push(("x-amz-meta-type".to_owned(), "playlist".to_owned()));
    }
    let r = PutObject {
        bucket: bucket.to_owned(),
        key: key.to_owned(),
        content_length: length,
        content_type: content_type.to_owned(),
        cache_control: cache_control(key).to_owned(),
        metadata,
    };
    assert(r@.metadata =~= put_object_of(bucket@, key@, length, content_type@, *now).metadata);
    r
}

/// What follows an attempt to upload.
#[derive(Clone, Copy, Debug, PartialEq, Eq, Structural)]
pub enum AttemptOutcome {
    /// The object is stored.
    Done,
    /// Wait and try once more.
    Retry { wait_ms: u64 },
    /// No attempt is left.
    GaveUp,
}

/// The record of an upload.
#[derive(Debug)]
pub enum UploadState {
    Uploading,
    Completed,
    Failed(String),
}

impl Clone for UploadState {
    fn clone(&self) -> (r: Self)
        ensures
            r == *self,
    {
        match self {
            UploadState::Uploading => UploadState::Uploading,
            UploadState::Completed => UploadState::Completed,
            UploadState::Failed(e) => UploadState::Failed(e.clone()),
        }
    }
}

/// The record of an upload: in flight, completed or failed.
pub trait InFlight: Sized {
    /// The upload is in flight.
    spec fn in_flight(&self) -> bool;

    /// The record of an upload that is complete.
    spec fn completed() -> Self;

    /// The record of an upload that has failed.
    spec fn failed(error: String) -> Self;

    /// A record says one thing only.
    proof fn lemma_distinct(error: String)
        ensures
            Self::completed() != Self::failed(error),
            !Self::completed().in_flight(),
            !Self::failed(error).in_flight(),
    ;

    /// Whether the upload is in flight.
    fn is_in_flight(&self) -> (r: bool)
        ensures
            r == self.in_flight(),
    ;
}

impl InFlight for UploadState {
    open spec fn in_flight(&self) -> bool {
        self is Uploading
    }

    open spec fn completed() -> Self {
        UploadState::Completed
    }

    open spec fn failed(error: String) -> Self {
        UploadState::Failed(error)
    }

    proof fn lemma_distinct(error: String) {
    }

    fn is_in_flight(&self) -> (r: bool) {
        matches!(self, UploadState::Uploading)
    }
}

/// Another attempt follows the attempt number `attempt`, counted from zero: it
/// has not gone well and is not the attempt number `last`.
pub open spec fn tries_again(attempt: int, last: int, ok: bool) -> bool {
    !ok && attempt < last
}

/// What follows the attempt number `attempt`, where `wait_ms` is the wait
/// before the next.
pub open spec fn outcome_of(attempt: int, last: int, ok: bool, wait_ms: u64) -> AttemptOutcome {
    if ok {
        AttemptOutcome::Done
    } else if tries_again(attempt, last, ok) {
        AttemptOutcome::Retry { wait_ms }
    } else {
        AttemptOutcome::GaveUp
    }
}

/// The number of attempts that are made from the attempt number `attempt` on,
/// where `ok` says which go well.
pub open spec fn attempts_from(attempt: int, last: int, ok: spec_fn(int) -> bool) -> nat
    decreases last - attempt,
{
    if tries_again(attempt, last, ok(attempt)) {
        1 + attempts_from(attempt + 1, last, ok)
    } else {
        1
    }
}

/// The record after the attempt number `attempt` at the upload of `key`: what
/// it was where another attempt follows, and otherwise how the upload ended. A
/// failure of which nothing is said is recorded where `blank` says so.
pub open spec fn recorded<V: InFlight>(
    record: Map<Seq<char>, V>,
    key: Seq<char>,
    attempt: int,
    last: int,
    result: Result<(), String>,
    blank: bool,
) -> Map<Seq<char>, V> {
    match result {
        Ok(_) => record.insert(key, V::completed()),
        Err(error) => if tries_again(attempt, last, false) || (error@.len() == 0 && !blank) {
            record
        } else {
            record.insert(key, V::failed(error))
        },
    }
}

/// The record after all attempts from the number `attempt` on, where `results`
/// says how each ends that is made.
pub open spec fn record_from<V: InFlight>(
    record: Map<Seq<char>, V>,
    key: Seq<char>,
    attempt: int,
    last: int,
    results: spec_fn(int) -> Result<(), String>,
    blank: bool,
) -> Map<Seq<char>, V>
    decreases last - attempt,
{
    let after = recorded(record, key, attempt, last, results(attempt), blank);
    if tries_again(attempt, last, results(attempt) is Ok) {
        record_from(after, key, attempt + 1, last, results, blank)
    } else {
        after
    }
}

/// Which of the attempts go well.
pub open spec fn going_well(results: spec_fn(int) -> Result<(), String>) -> spec_fn(int) -> bool {
    |i: int| results(i) is Ok
}

/// Attempts are made until one goes well or the attempt number `last` has been
/// made, and no further ones.
pub proof fn law_attempts_are_bounded(attempt: int, last: int, ok: spec_fn(int) -> bool)
    requires
        attempt <= last,
    ensures
        1 <= attempts_from(attempt, last, ok) <= last - attempt + 1,
        forall|i: int|
            attempt <= i < attempt + attempts_from(attempt, last, ok) - 1 ==> !#[trigger] ok(i),
        ok(attempt + attempts_from(attempt, last, ok) - 1) || attempts_from(attempt, last, ok)
            == last - attempt + 1,
        ok(attempt + attempts_from(attempt, last, ok) - 1) <==> exists|i: int|
            attempt <= i <= last && #[trigger] ok(i),
    decreases last - attempt,
{
    if tries_again(attempt, last, ok(attempt)) {
        law_attempts_are_bounded(attempt + 1, last, ok);
    }
}

proof fn lemma_record_from<V: InFlight>(
    record: Map<Seq<char>, V>,
    key: Seq<char>,
    attempt: int,
    last: int,
    results: spec_fn(int) -> Result<(), String>,
    blank: bool,
)
    requires
        attempt <= last,
    ensures
        record_from(record, key, attempt, last, results, blank) == recorded(
            record,
            key,
            last,
            last,
            results(attempt + attempts_from(attempt, last, going_well(results)) - 1),
            blank,
        ),
    decreases last - attempt,
{
    if tries_again(attempt, last, results(attempt) is Ok) {
        lemma_record_from(record, key, attempt + 1, last, results, blank);
    }
}

/// An upload that is on record as in flight is attempted at most `last` + 1
/// times, and is on record as completed afterwards exactly where one of the
/// attempts that could be made goes well. Where none does, the failure of the
/// last is on record, unless nothing is said of it and such failures are not
/// recorded. No other upload is touched.
pub proof fn law_upload_ends<V: InFlight>(
    record: Map<Seq<char>, V>,
    key: Seq<char>,
    last: int,
    results: spec_fn(int) -> Result<(), String>,
    blank: bool,
)
    requires
        0 <= last,
        record.contains_key(key),
        record[key].in_flight(),
    ensures
        attempts_from(0, last, going_well(results)) <= last + 1,
        record_from(record, key, 0, last, results, blank)[key] == V::completed() <==> exists|i: int|
            0 <= i <= last && #[trigger] results(i) is Ok,
        record_from(record, key, 0, last, results, blank)[key] == V::completed() || ({
            &&& results(last) matches Err(error)
            &&& error@.len() > 0 || blank ==> record_from(record, key, 0, last, results, blank)[key]
                == V::failed(error)
        }),
        record_from(record, key, 0, last, results, blank).remove(key) == record.remove(key),
{
    let ok = going_well(results);
    law_attempts_are_bounded(0, last, ok);
    lemma_record_from(record, key, 0, last, results, blank);
    let after = record_from(record, key, 0, last, results, blank);
    match results(last) {
        Ok(_) => {
            assert(ok(last));
        },
        Err(error) => {
            V::lemma_distinct(error);
        },
    }
    assert(after.remove(key) =~= record.remove(key));
    if exists|i: int| 0 <= i <= last && #[trigger] results(i) is Ok {
        let i = choose|i: int| 0 <= i <= last && #[trigger] results(i) is Ok;
        assert(ok(i));
    }
    if exists|i: int| 0 <= i <= last && #[trigger] ok(i) {
        let i = choose|i: int| 0 <= i <= last && #[trigger] ok(i);
        assert(results(i) is Ok);
    }
}

/// The number of rows whose upload is in flight.
pub open spec fn in_flight_count<V: InFlight>(rows: Seq<(Seq<char>, V)>) -> nat
    decreases rows.len(),
{
    if rows.len() == 0 {
        0
    } else {
        in_flight_count(rows.drop_last()) + (if rows.last().1.in_flight() {
            1nat
        } else {
            0
        })
    }
}

/// The number of uploads in flight.
pub fn count_in_flight<V: InFlight>(table: &Table<V>) -> (r: usize)
    requires
        table.wf(),
    ensures
        r == in_flight_count(table.rows()),
{
    let mut n: usize = 0;
    let mut i: usize = 0;
    assert(table.rows().take(0) =~= Seq::<(Seq<char>, V)>::empty());
    while i < table.len()
        invariant
            table.wf(),
            i <= table.rows().len(),
            n <= i,
            n == in_flight_count(table.rows().take(i as int)),
        decreases table.rows().len() - i,
    {
        assert(table.rows().take(i + 1).drop_last() =~= table.rows().take(i as int));
        if table.value_at(i).is_in_flight() {
            n = n + 1;
        }
        i = i + 1;
    }
    assert(table.rows().take(i as int) =~= table.rows());
    n
}

/// The key of a file is the name of the stream, a slash and the name of the
/// file.
pub proof fn law_key_parts(stream_name: Seq<char>, file_name: Seq<char>)
    ensures
        ({
            let key = key_of(stream_name, file_name);
            let n = stream_name.len() as int;
            &&& key.len() == n + 1 + file_name.len()
            &&& key.take(n) == stream_name
            &&& key[n] == '/'
            &&& key.skip(n + 1) == file_name
        }),
{
    reveal_strlit("/");
    let key = key_of(stream_name, file_name);
    let n = stream_name.len() as int;
    assert(key.take(n) =~= stream_name);
    assert(key.skip(n + 1) =~= file_name);
}

/// Two texts do not both end a name, where their last characters differ.
proof fn lemma_ends_otherwise(s: Seq<char>, p: Seq<char>, q: Seq<char>)
    requires
        p.len() > 0,
        q.len() > 0,
        p.last() != q.last(),
        has_suffix(s, p),
    ensures
        !has_suffix(s, q),
{
    assert(s.skip(s.len() - p.len()).last() == s.last());
    if has_suffix(s, q) {
        assert(s.skip(s.len() - q.len()).last() == s.last());
    }
}

/// Whatever its stream and its directory are, a playlist is never kept by a
/// cache, an initialisation segment is kept for a day, and every other file for
/// an hour.
pub proof fn law_cache_times(stem: Seq<char>, key: Seq<char>)
    ensures
        cache_control_of(stem + ".m3u8"@) == "no-cache, no-store, must-revalidate"@,
        cache_control_of(stem + "init.mp4"@) == "public, max-age=86400"@,
        cache_control_of(stem + ".m4s"@) == "public, max-age=3600"@,
        cache_control_of(stem + ".ts"@) == "public, max-age=3600"@,
        cache_control_of(stem + ".jpg"@) == "public, max-age=3600"@,
        (forall|s: Seq<char>| key != #[trigger] (s + ".m3u8"@) && key != s + "init.mp4"@)
            ==> cache_control_of(key) == "public, max-age=3600"@,
{
    reveal_strlit(".m3u8");
    reveal_strlit("init.mp4");
    reveal_strlit(".m4s");
    reveal_strlit(".ts");
    reveal_strlit(".jpg");
    let list = stem + ".m3u8"@;
    assert(list.skip(list.len() - ".m3u8"@.len()) =~= ".m3u8"@);
    let init = stem + "init.mp4"@;
    assert(init.skip(init.len() - "init.mp4"@.len()) =~= "init.mp4"@);
    lemma_ends_otherwise(init, "init.mp4"@, ".m3u8"@);
    let part = stem + ".m4s"@;
    assert(part.skip(part.len() - ".m4s"@.len()) =~= ".m4s"@);
    lemma_ends_otherwise(part, ".m4s"@, ".m3u8"@);
    lemma_ends_otherwise(part, ".m4s"@, "init.mp4"@);
    let ts = stem + ".ts"@;
    assert(ts.skip(ts.len() - ".ts"@.len()) =~= ".ts"@);
    lemma_ends_otherwise(ts, ".ts"@, ".m3u8"@);
    lemma_ends_otherwise(ts, ".ts"@, "init.mp4"@);
    let jpg = stem + ".jpg"@;
    assert(jpg.skip(jpg.len() - ".jpg"@.len()) =~= ".jpg"@);
    lemma_ends_otherwise(jpg, ".jpg"@, ".m3u8"@);
    lemma_ends_otherwise(jpg, ".jpg"@, "init.mp4"@);
    if forall|s: Seq<char>| key != #[trigger] (s + ".m3u8"@) && key != s + "init.mp4"@ {
        if has_suffix(key, ".m3u8"@) {
            let s = key.take(key.len() - ".m3u8"@.len());
            assert(key =~= s + ".m3u8"@);
        }
        if has_suffix(key, "init.mp4"@) {
            let s = key.take(key.len() - "init.mp4"@.len());
            let other = s + ".m3u8"@;
            assert(key =~= s + "init.mp4"@);
        }
    }
}

/// A request names the bucket, the key, the length and the media type that it
/// was made for. Only a playlist carries metadata: when it was uploaded, and
/// that it is a playlist.
pub proof fn law_put_says_what_is_stored(
    bucket: Seq<char>,
    key: Seq<char>,
    length: usize,
    content_type: Seq<char>,
    now: Timestamp,
)
    ensures
        ({
            let put = put_object_of(bucket, key, length, content_type, now);
            let list = put_object_of(bucket, key + ".m3u8"@, length, content_type, now);
            &&& put.bucket == bucket
            &&& put.key == key
            &&& put.content_length == length
            &&& put.content_type == content_type
            &&& put.cache_control == cache_control_of(key)
            &&& put.metadata.len() == 0 || put.metadata.len() == 2
            &&& put.metadata.len() == 2 ==> exists|stem: Seq<char>|
                key == #[trigger] (stem + ".m3u8"@)
            &&& list.metadata.len() == 2
            &&& list.metadata[0].0 == "x-amz-meta-last-modified"@
            &&& list.metadata[0].1 == rfc3339_text(now.secs(), now.nanos())
            &&& list.metadata[1].0 == "x-amz-meta-type"@
            &&& list.metadata[1].1 == "playlist"@
        }),
{
    let named = key + ".m3u8"@;
    assert(named.skip(named.len() - ".m3u8"@.len()) =~= ".m3u8"@);
    if has_suffix(key, ".m3u8"@) {
        let stem = key.take(key.len() - ".m3u8"@.len());
        assert(key =~= stem + ".m3u8"@);
    }
}

/// A text that is put together from three holds the middle one.
proof fn lemma_holds_middle(a: Seq<char>, b: Seq<char>, c: Seq<char>)
    ensures
        has_infix(a + b + c, b),
{
    let s = a + b + c;
    let i = a.len() as int;
    assert(s.subrange(i, i + b.len()) =~= b);
    assert(text::occurs_at(s, b, i));
}

/// The kind of an error is told by a word that it holds anywhere: that the
/// service asks to slow down goes before all else, trouble with the connection
/// before a timeout, and an error that mentions none of it is of no known kind.
pub proof fn law_error_kind_by_word(before: Seq<char>, after: Seq<char>)
    ensures
        kind_of(before + "SlowDown"@ + after) is SlowDown,
        kind_of(before + "connection"@ + after) is Connection || has_infix(
            before + "connection"@ + after,
            "SlowDown"@,
        ),
        kind_of(before + "Connection"@ + after) is Connection || has_infix(
            before + "Connection"@ + after,
            "SlowDown"@,
        ),
        kind_of(before + "re-used"@ + after) is Connection || has_infix(
            before + "re-used"@ + after,
            "SlowDown"@,
        ),
        kind_of(before + "dispatch"@ + after) is Connection || has_infix(
            before + "dispatch"@ + after,
            "SlowDown"@,
        ),
        !(kind_of(before + "timeout"@ + after) is Other),
        !(kind_of(before + "Timeout"@ + after) is Other),
        kind_of(before) is SlowDown ==> has_infix(before, "SlowDown"@),
        kind_of(before) is Connection ==> has_infix(before, "connection"@) || has_infix(
            before,
            "Connection"@,
        ) || has_infix(before, "re-used"@) || has_infix(before, "dispatch"@),
        kind_of(before) is Timeout ==> (has_infix(before, "timeout"@) || has_infix(
            before,
            "Timeout"@,
        )) && !has_infix(before, "connection"@) && !has_infix(before, "Connection"@)
            && !has_infix(before, "re-used"@) && !has_infix(before, "dispatch"@),
{
    lemma_holds_middle(before, "SlowDown"@, after);
    lemma_holds_middle(before, "connection"@, after);
    lemma_holds_middle(before, "Connection"@, after);
    lemma_holds_middle(before, "re-used"@, after);
    lemma_holds_middle(before, "dispatch"@, after);
    lemma_holds_middle(before, "timeout"@, after);
    lemma_holds_middle(before, "Timeout"@, after);
}

/// What follows an attempt: nothing where it has gone well; where it has not,
/// another one after the wait, except after the last.
pub proof fn law_outcomes(attempt: int, last: int, wait_ms: u64)
    ensures
        outcome_of(attempt, last, true, wait_ms) is Done,
        attempt < last ==> outcome_of(attempt, last, false, wait_ms) == (AttemptOutcome::Retry {
            wait_ms,
        }),
        attempt >= last ==> outcome_of(attempt, last, false, wait_ms) is GaveUp,
{
}

/// Every row whose upload is in flight counts for one, wherever it stands, and
/// no other row counts.
pub proof fn law_in_flight_are_counted<V: InFlight>(
    rows: Seq<(Seq<char>, V)>,
    more: Seq<(Seq<char>, V)>,
    key: Seq<char>,
    state: V,
)
    ensures
        in_flight_count(Seq::<(Seq<char>, V)>::empty()) == 0,
        in_flight_count(rows.push((key, state)) + more) == in_flight_count(rows + more) + (
        if state.in_flight() {
            1int
        } else {
            0
        }),
    decreases more.len(),
{
    if more.len() == 0 {
        assert(rows.push((key, state)) + more =~= rows.push((key, state)));
        assert(rows + more =~= rows);
        assert(rows.push((key, state)).drop_last() =~= rows);
    } else {
        let rest = more.drop_last();
        law_in_flight_are_counted(rows, rest, key, state);
        assert((rows.push((key, state)) + more).drop_last() =~= rows.push((key, state)) + rest);
        assert((rows + more).drop_last() =~= rows + rest);
    }
}

/// An upload is in flight exactly while it is on record as being uploaded.
pub proof fn law_in_flight_while_uploading(error: String)
    ensures
        UploadState::Uploading.in_flight(),
        !UploadState::Completed.in_flight(),
        !UploadState::Failed(error).in_flight(),
        <UploadState as InFlight>::completed() == UploadState::Completed,
        <UploadState as InFlight>::failed(error) == UploadState::Failed(error),
{
}

/// The record after an attempt, for one upload and for the others: a success is
/// recorded as such; a failure that is tried again changes nothing; the last one
/// is recorded with what was said of it. The record of every other key stays.
pub proof fn law_attempt_is_recorded<V: InFlight>(
    record: Map<Seq<char>, V>,
    key: Seq<char>,
    attempt: int,
    last: int,
    result: Result<(), String>,
    blank: bool,
    other: Seq<char>,
)
    ensures
        result is Ok ==> recorded(record, key, attempt, last, result, blank).contains_pair(
            key,
            V::completed(),
        ),
        result is Err && attempt < last ==> recorded(record, key, attempt, last, result, blank)
            == record,
        result matches Err(error) ==> attempt >= last && (error@.len() > 0 || blank) ==> recorded(
            record,
            key,
            attempt,
            last,
            result,
            blank,
        ).contains_pair(key, V::failed(error)),
        result matches Err(error) ==> attempt >= last && error@.len() == 0 && !blank ==> recorded(
            record,
            key,
            attempt,
            last,
            result,
            blank,
        ) == record,
        other != key ==> recorded(record, key, attempt, last, result, blank).contains_key(other)
            == record.contains_key(other),
        other != key && record.contains_key(other) ==> recorded(
            record,
            key,
            attempt,
            last,
            result,
            blank,
        )[other] == record[other],
{
}

} // verus!
