//! Uploads to the storage of the Bunny content delivery network.

use crate::http::{
    header_of, is_success, lemma_header, success_code, HttpRequest, HttpRequestModel, Method,
};
use crate::number::{dec, decimal, digits_value, lemma_dec_reads_back};
use crate::storage::upload::{
    attempts_from, key_of, law_attempts_are_bounded, object_key, tries_again,
};
use crate::text::has_suffix;
use crate::text;
use crate::writer;
use vstd::prelude::*;

verus! {

/// The number of attempts at an upload.
pub const MAX_ATTEMPTS: u8 = 5;

/// A storage zone, and the number of uploads in flight.
pub struct BunnyUploader {
    storage_zone: String,
    api_key: String,
    cdn_hostname: Option<String>,
    active_count: usize,
}

/// What an uploader was set up with.
#[verifier::ext_equal]
pub struct BunnySetup {
    pub storage_zone: Seq<char>,
    pub api_key: Seq<char>,
    pub cdn_hostname: Option<Seq<char>>,
}

/// An object in a storage zone.
#[derive(Clone, Debug)]
pub struct StorageObject {
    pub guid: String,
    pub storage_zone_name: String,
    pub path: String,
    pub object_name: String,
    pub length: i64,
    pub last_changed: String,
    pub server_id: i32,
    pub is_directory: bool,
    pub user_id: String,
    pub date_created: String,
    pub storage_zone_id: i64,
    pub checksum: Option<String>,
    pub replicated_zones: Option<String>,
}

/// How the service answered an upload.
#[derive(Debug)]
pub enum PutReply {
    /// With a status code.
    Status(u16),
    /// Not at all.
    Transport(String),
}

/// What follows an attempt to upload.
#[derive(Debug)]
pub enum PutOutcome {
    /// The object is stored.
    Done,
    /// Wait and try once more.
    Retry { wait_ms: u64 },
    /// No attempt is left.
    Failed(String),
}

/// The address of an object in the storage of a zone.
pub open spec fn storage_url_of(storage_zone: Seq<char>, path: Seq<char>) -> Seq<char> {
    "https://sg.storage.bunnycdn.com/"@ + storage_zone + "/"@ + path
}

/// The public address of an object.
pub open spec fn cdn_url_of(setup: BunnySetup, path: Seq<char>) -> Seq<char> {
    match setup.cdn_hostname {
        Some(hostname) => "https://"@ + hostname + "/"@ + path,
        None => "https://"@ + setup.storage_zone + ".b-cdn.net/"@ + path,
    }
}

/// How long caches may keep an object: playlists not at all, everything else
/// for a year.
pub open spec fn bunny_cache_control_of(key: Seq<char>) -> Seq<char> {
    if has_suffix(key, ".m3u8"@) {
        "no-cache, no-store, must-revalidate, max-age=0"@
    } else {
        "public, max-age=31536000"@
    }
}

/// The request that stores an object.
pub open spec fn bunny_put_of(
    setup: BunnySetup,
    key: Seq<char>,
    content_type: Seq<char>,
) -> HttpRequestModel {
    HttpRequestModel {
        method: Method::Put,
        url: storage_url_of(setup.storage_zone, key),
        headers: seq![
            ("AccessKey"@, setup.api_key),
            ("Content-Type"@, content_type),
            ("Cache-Control"@, bunny_cache_control_of(key)),
        ],
    }
}

/// What went wrong with an attempt, if anything did.
pub open spec fn put_error(reply: PutReply) -> Option<Seq<char>> {
    match reply {
        PutReply::Status(status) => if success_code(status) {
            None
        } else {
            Some("HTTP "@ + dec(status as nat))
        },
        PutReply::Transport(error) => Some(error@),
    }
}

/// The wait after the failed attempt number `attempt`, counted from zero; it
/// is longer where the service did not answer.
pub open spec fn put_wait_ms(reply: PutReply, attempt: u8) -> int {
    match reply {
        PutReply::Status(_) => 100 * (attempt + 1),
        PutReply::Transport(_) => 200 * (attempt + 1),
    }
}

/// How long caches may keep an object.
pub fn bunny_cache_control(key: &str) -> (r: &'static str)
    ensures
        r@ == bunny_cache_control_of(key@),
{
    if text::ends_with(key, ".m3u8") {
        "no-cache, no-store, must-revalidate, max-age=0"
    } else {
        "public, max-age=31536000"
    }
}

/// Says what follows the attempt number `attempt`, counted from zero, at an
/// upload.
pub fn upload_with_retry(attempt: u8, reply: PutReply) -> (r: PutOutcome)
    ensures
        match put_error(reply) {
            None => r is Done,
            Some(error) => if tries_again(attempt as int, MAX_ATTEMPTS - 1, false) {
                r == (PutOutcome::Retry { wait_ms: put_wait_ms(reply, attempt) as u64 })
            } else {
                r matches PutOutcome::Failed(e) && e@ == error
            },
        },
{
    match reply {
        PutReply::Status(status) => if is_success(status) {
            PutOutcome::Done
        } else if attempt < MAX_ATTEMPTS - 1 {
            PutOutcome::Retry { wait_ms: 100 * (attempt as u64 + 1) }
        } else {
            PutOutcome::Failed(writer::join2("HTTP ", decimal(status as u64).as_str()))
        },
        PutReply::Transport(error) => if attempt < MAX_ATTEMPTS - 1 {
            PutOutcome::Retry { wait_ms: 200 * (attempt as u64 + 1) }
        } else {
            PutOutcome::Failed(error)
        },
    }
}

/// Whether a deletion succeeded, or what to report; `line` is the status line.
pub fn delete_result(status: u16, line: &str) -> (r: Result<(), String>)
    ensures
        match r {
            Ok(_) => success_code(status),
            Err(error) => !success_code(status) && error@ == "Delete failed: "@ + line@,
        },
{
    if is_success(status) {
        Ok(())
    } else {
        Err(writer::join2("Delete failed: ", line))
    }
}

/// Whether a listing succeeded, or what to report; `line` is the status line.
pub fn list_result(status: u16, line: &str) -> (r: Result<(), String>)
    ensures
        match r {
            Ok(_) => success_code(status),
            Err(error) => !success_code(status) && error@ == "List failed: "@ + line@,
        },
{
    if is_success(status) {
        Ok(())
    } else {
        Err(writer::join2("List failed: ", line))
    }
}

/// Whether a purge succeeded, which only the code 204 says, or what to report;
/// `line` is the status line.
pub fn purge_result(status: u16, line: &str) -> (r: Result<(), String>)
    ensures
        match r {
            Ok(_) => status == 204,
            Err(error) => status != 204 && error@ == "Purge failed: "@ + line@,
        },
{
    if status == 204 {
        Ok(())
    } else {
        Err(writer::join2("Purge failed: ", line))
    }
}

impl BunnyUploader {
    /// What the uploader was set up with.
    pub closed spec fn setup(self) -> BunnySetup {
        BunnySetup {
            storage_zone: self.storage_zone@,
            api_key: self.api_key@,
            cdn_hostname: match self.cdn_hostname {
                Some(h) => Some(h@),
                None => None,
            },
        }
    }

    /// The number of uploads in flight.
    pub closed spec fn in_flight(self) -> usize {
        self.active_count
    }

    /// An uploader with nothing in flight.
    pub fn new(
        storage_zone: String,
        api_key: String,
        cdn_hostname: Option<String>,
    ) -> (r: Self)
        ensures
            r.setup() == (BunnySetup {
                storage_zone: storage_zone@,
                api_key: api_key@,
                cdn_hostname: match cdn_hostname {
                    Some(h) => Some(h@),
                    None => None,
                },
            }),
            r.in_flight() == 0,
    {
        BunnyUploader { storage_zone, api_key, cdn_hostname, active_count: 0 }
    }

    /// The public address of an object.
    pub fn get_cdn_url(&self, path: &str) -> (r: String)
        ensures
            r@ == cdn_url_of(self.setup(), path@),
    {
        match &self.cdn_hostname {
            Some(hostname) => writer::join4("https://", hostname.as_str(), "/", path),
            None => writer::join4("https://", self.storage_zone.as_str(), ".b-cdn.net/", path),
        }
    }

    /// Counts an upload as in flight and returns the key of the file.
    pub fn queue_data(&mut self, stream_name: &str, file_name: &str) -> (r: String)
        requires
            old(self).in_flight() < usize::MAX,
        ensures
            final(self).setup() == old(self).setup(),
            final(self).in_flight() == old(self).in_flight() + 1,
            r@ == key_of(stream_name@, file_name@),
    {
        self.active_count = self.active_count + 1;
        object_key(stream_name, file_name)
    }

    /// Counts an upload as ended, however it ended.
    pub fn upload_ended(&mut self)
        requires
            old(self).in_flight() > 0,
        ensures
            final(self).setup() == old(self).setup(),
            final(self).in_flight() == old(self).in_flight() - 1,
    {
        self.active_count = self.active_count - 1;
    }

    /// The request that stores an object.
    pub fn upload_request(&self, key: &str, content_type: &str) -> (r: HttpRequest)
        ensures
            r@ == bunny_put_of(self.setup(), key@, content_type@),
    {
        let url = writer::join4(
            "https://sg.storage.bunnycdn.com/",
            self.storage_zone.as_str(),
            "/",
            key,
        );
        let r = HttpRequest::new(Method::Put, url).with_header(
            "AccessKey",
            self.api_key.as_str(),
        ).with_header("Content-Type", content_type).with_header(
            "Cache-Control",
            bunny_cache_control(key),
        );
        assert(r@ =~= bunny_put_of(self.setup(), key@, content_type@));
        r
    }

    /// The request that deletes an object.
    pub fn delete_file(&self, path: &str) -> (r: HttpRequest)
        ensures
            r@ == (HttpRequestModel {
                method: Method::Delete,
                url: storage_url_of(self.setup().storage_zone, path@),
                headers: seq![("AccessKey"@, self.setup().api_key)],
            }),
    {
        let url = writer::join4(
            "https://sg.storage.bunnycdn.com/",
            self.storage_zone.as_str(),
            "/",
            path,
        );
        let r = HttpRequest::new(Method::Delete, url).with_header(
            "AccessKey",
            self.api_key.as_str(),
        );
        assert(r@.headers =~= seq![("AccessKey"@, self.setup().api_key)]);
        r
    }

    /// The request that lists the objects under a path.
    pub fn list_files(&self, path: &str) -> (r: HttpRequest)
        ensures
            r@ == (HttpRequestModel {
                method: Method::Get,
                url: storage_url_of(self.setup().storage_zone, path@) + "/"@,
                headers: seq![
                    ("AccessKey"@, self.setup().api_key),
                    ("Accept"@, "application/json"@),
                ],
            }),
    {
        let url = writer::join5(
            "https://sg.storage.bunnycdn.com/",
            self.storage_zone.as_str(),
            "/",
            path,
            "/",
        );
        let r = HttpRequest::new(Method::Get, url).with_header(
            "AccessKey",
            self.api_key.as_str(),
        ).with_header("Accept", "application/json");
        assert(r@.headers =~= seq![
            ("AccessKey"@, self.setup().api_key),
            ("Accept"@, "application/json"@),
        ]);
        r
    }

    /// The request that empties the cache of a pull zone.
    pub fn purge_cache(&self, pull_zone_id: &str, account_api_key: &str) -> (r: HttpRequest)
        ensures
            r@ == (HttpRequestModel {
                method: Method::Post,
                url: "https://api.bunny.net/pullzone/"@ + pull_zone_id@ + "/purgeCache"@,
                headers: seq![("AccessKey"@, account_api_key@)],
            }),
    {
        let url = writer::join3("https://api.bunny.net/pullzone/", pull_zone_id, "/purgeCache");
        let r = HttpRequest::new(Method::Post, url).with_header("AccessKey", account_api_key);
        assert(r@.headers =~= seq![("AccessKey"@, account_api_key@)]);
        r
    }

    /// The number of uploads in flight.
    pub fn pending_count(&self) -> (r: usize)
        ensures
            r == self.in_flight(),
    {
        self.active_count
    }

    /// The number of uploads in flight.
    pub fn active_count(&self) -> (r: usize)
        ensures
            r == self.in_flight(),
    {
        self.active_count
    }
}

/// Which of the attempts that get these replies go well.
pub open spec fn put_well(replies: spec_fn(int) -> PutReply) -> spec_fn(int) -> bool {
    |i: int| put_error(replies(i)) is None
}

/// What is reported of an upload in the end, where `replies` says what each
/// attempt gets that is made: nothing where it has gone well.
pub open spec fn put_ending(replies: spec_fn(int) -> PutReply) -> Option<Seq<char>> {
    put_error(replies(attempts_from(0, MAX_ATTEMPTS - 1, put_well(replies)) - 1))
}

/// An upload is attempted at most [`MAX_ATTEMPTS`] times, goes well exactly
/// where one of the attempts that could be made does, and is otherwise reported
/// to have failed as the last did.
pub proof fn law_upload_ends(replies: spec_fn(int) -> PutReply)
    ensures
        attempts_from(0, MAX_ATTEMPTS - 1, put_well(replies)) <= MAX_ATTEMPTS,
        put_ending(replies) is None <==> exists|i: int|
            0 <= i < MAX_ATTEMPTS && put_error(#[trigger] replies(i)) is None,
        put_ending(replies) is Some ==> put_ending(replies) == put_error(
            replies(MAX_ATTEMPTS - 1),
        ),
{
    let ok = put_well(replies);
    law_attempts_are_bounded(0, MAX_ATTEMPTS - 1, ok);
    if exists|i: int| 0 <= i < MAX_ATTEMPTS && put_error(#[trigger] replies(i)) is None {
        let i = choose|i: int|
            0 <= i < MAX_ATTEMPTS && put_error(#[trigger] replies(i)) is None;
        assert(ok(i));
    }
    if exists|i: int| 0 <= i <= MAX_ATTEMPTS - 1 && #[trigger] ok(i) {
        let i = choose|i: int| 0 <= i <= MAX_ATTEMPTS - 1 && #[trigger] ok(i);
        assert(put_error(replies(i)) is None);
    }
}

/// Objects are stored under the zone and delivered from its public host, or
/// from the host that was configured; either way the path of the object ends the
/// address.
pub proof fn law_addresses_end_in_path(setup: BunnySetup, zone: Seq<char>, path: Seq<char>)
    ensures
        storage_url_of(zone, path) == "https://sg.storage.bunnycdn.com/"@ + zone + seq!['/'] + path,
        setup.cdn_hostname is None ==> cdn_url_of(setup, path) == "https://"@ + setup.storage_zone
            + ".b-cdn.net"@ + seq!['/'] + path,
        setup.cdn_hostname matches Some(hostname) ==> cdn_url_of(setup, path) == "https://"@
            + hostname + seq!['/'] + path,
{
    reveal_strlit("/");
    reveal_strlit(".b-cdn.net/");
    reveal_strlit(".b-cdn.net");
    assert("/"@ =~= seq!['/']);
    assert(".b-cdn.net/"@ =~= ".b-cdn.net"@ + seq!['/']);
    if setup.cdn_hostname is None {
        assert(cdn_url_of(setup, path) =~= "https://"@ + setup.storage_zone + ".b-cdn.net"@
            + seq!['/'] + path);
    }
}

/// A playlist is never kept by a cache, and every other object for a year.
pub proof fn law_bunny_cache_times(stem: Seq<char>, key: Seq<char>)
    ensures
        bunny_cache_control_of(stem + ".m3u8"@) == "no-cache, no-store, must-revalidate, max-age=0"@,
        (forall|s: Seq<char>| key != #[trigger] (s + ".m3u8"@)) ==> bunny_cache_control_of(key)
            == "public, max-age=31536000"@,
{
    let list = stem + ".m3u8"@;
    assert(list.skip(list.len() - ".m3u8"@.len()) =~= ".m3u8"@);
    if has_suffix(key, ".m3u8"@) {
        let s = key.take(key.len() - ".m3u8"@.len());
        assert(key =~= s + ".m3u8"@);
    }
}

/// The request that stores an object goes to its address in the storage and
/// carries the key of the zone, the media type and how long caches may keep the
/// object.
pub proof fn law_bunny_put(setup: BunnySetup, key: Seq<char>, content_type: Seq<char>)
    ensures
        ({
            let put = bunny_put_of(setup, key, content_type);
            &&& put.method is Put
            &&& put.url == storage_url_of(setup.storage_zone, key)
            &&& put.headers.len() == 3
            &&& header_of(put.headers, "AccessKey"@) == Some(setup.api_key)
            &&& header_of(put.headers, "Content-Type"@) == Some(content_type)
            &&& header_of(put.headers, "Cache-Control"@) == Some(bunny_cache_control_of(key))
        }),
{
    let put = bunny_put_of(setup, key, content_type);
    reveal_strlit("AccessKey");
    reveal_strlit("Content-Type");
    reveal_strlit("Cache-Control");
    assert("AccessKey"@.len() == 9 && "Content-Type"@.len() == 12 && "Cache-Control"@.len() == 13);
    assert(put.headers[0].0 == "AccessKey"@ && put.headers[1].0 == "Content-Type"@);
    assert(put.headers[2].0 == "Cache-Control"@);
    lemma_header(put.headers, 0);
    lemma_header(put.headers, 1);
    lemma_header(put.headers, 2);
}

/// An attempt has gone well exactly where the service answers with success;
/// otherwise its code or the trouble on the way is reported.
pub proof fn law_put_errors(status: u16, error: String)
    ensures
        put_error(PutReply::Status(status)) is None <==> 200 <= status <= 299,
        put_error(PutReply::Status(status)) matches Some(told) ==> {
            &&& told.take(5) == "HTTP "@
            &&& digits_value(told.skip(5)) == status
        },
        put_error(PutReply::Transport(error)) == Some(error@),
{
    reveal_strlit("HTTP ");
    lemma_dec_reads_back(status as nat);
    let told = "HTTP "@ + dec(status as nat);
    assert(told.take(5) =~= "HTTP "@);
    assert(told.skip(5) =~= dec(status as nat));
}

/// The wait after a failed attempt grows by a tenth of a second with each, and
/// by twice that where the service did not answer.
pub proof fn law_put_waits(status: u16, error: String, attempt: u8)
    ensures
        put_wait_ms(PutReply::Status(status), 0) == 100,
        put_wait_ms(PutReply::Transport(error), 0) == 200,
        attempt < u8::MAX ==> put_wait_ms(PutReply::Status(status), (attempt + 1) as u8)
            == put_wait_ms(PutReply::Status(status), attempt) + 100,
        attempt < u8::MAX ==> put_wait_ms(PutReply::Transport(error), (attempt + 1) as u8)
            == put_wait_ms(PutReply::Transport(error), attempt) + 200,
{
}

/// An upload that never goes well is attempted five times.
pub proof fn law_five_attempts(replies: spec_fn(int) -> PutReply)
    ensures
        attempts_from(0, MAX_ATTEMPTS - 1, put_well(replies)) <= 5,
        (forall|i: int| 0 <= i < 5 ==> put_error(#[trigger] replies(i)) is Some) ==> attempts_from(
            0,
            MAX_ATTEMPTS - 1,
            put_well(replies),
        ) == 5,
{
    let ok = put_well(replies);
    law_attempts_are_bounded(0, MAX_ATTEMPTS - 1, ok);
    let n = attempts_from(0, MAX_ATTEMPTS - 1, ok);
    if forall|i: int| 0 <= i < 5 ==> put_error(#[trigger] replies(i)) is Some {
        assert(put_error(replies(n - 1)) is Some);
        assert(!ok(n - 1));
    }
}

} // verus!
