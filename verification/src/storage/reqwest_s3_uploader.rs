//! Uploads straight to the REST interface of S3, with requests signed by
//! version 4 of the AWS signature process.

use crate::digest::{hex_encode, hex_lower, hmac_sha256, hmac_sha256_of, sha256, sha256_of};
use crate::http::{header_of, lemma_header, HttpRequest, HttpRequestModel, Method};
pub use crate::storage::upload::UploadState;
use crate::storage::upload::{
    attempts_from, cache_control, cache_control_of, count_in_flight, in_flight_count, key_of,
    law_attempts_are_bounded, object_key, outcome_of, recorded, tries_again, AttemptOutcome,
};
use crate::table::Table;
use crate::text::{lemma_split_front, lemma_split_whole, split};
use crate::time::{strftime_text, Timestamp};
use crate::writer;
use vstd::prelude::*;
use vstd::utf8::encode_utf8;

verus! {

/// The number of failed attempts after which another one is made.
pub const MAX_RETRIES: u8 = 3;

/// Where and with which credentials files are uploaded, and the record of the
/// uploads.
pub struct ReqwestS3Uploader {
    bucket: String,
    region: String,
    access_key: String,
    secret_key: String,
    active_uploads: Table<UploadState>,
    worker_count: usize,
}

/// What an uploader was set up with.
#[verifier::ext_equal]
pub struct SigningSetup {
    pub bucket: Seq<char>,
    pub region: Seq<char>,
    pub access_key: Seq<char>,
    pub secret_key: Seq<char>,
    pub workers: usize,
}

/// The headers that the signature covers.
pub open spec fn signed_headers() -> Seq<char> {
    "cache-control;content-type;host;x-amz-content-sha256;x-amz-date"@
}

/// The name of the signature process.
pub open spec fn algorithm() -> Seq<char> {
    "AWS4-HMAC-SHA256"@
}

/// The host of the bucket.
pub open spec fn host_of(setup: SigningSetup) -> Seq<char> {
    setup.bucket + ".s3."@ + setup.region + ".amazonaws.com"@
}

/// The day of the request.
pub open spec fn date_stamp_of(now: Timestamp) -> Seq<char> {
    strftime_text(now.secs(), now.nanos(), "%Y%m%d"@)
}

/// The moment of the request.
pub open spec fn amz_date_of(now: Timestamp) -> Seq<char> {
    strftime_text(now.secs(), now.nanos(), "%Y%m%dT%H%M%SZ"@)
}

/// The digest of the body.
pub open spec fn payload_hash_of(data: Seq<u8>) -> Seq<char> {
    hex_lower(sha256_of(data))
}

/// The headers of the request in canonical form, one a line.
pub open spec fn canonical_headers_of(
    setup: SigningSetup,
    key: Seq<char>,
    data: Seq<u8>,
    content_type: Seq<char>,
    now: Timestamp,
) -> Seq<char> {
    "cache-control:"@ + cache_control_of(key) + "\ncontent-type:"@ + content_type + "\nhost:"@
        + host_of(setup) + "\nx-amz-content-sha256:"@ + payload_hash_of(data) + "\nx-amz-date:"@
        + amz_date_of(now) + "\n"@
}

/// The request in canonical form.
pub open spec fn canonical_request_of(
    setup: SigningSetup,
    key: Seq<char>,
    data: Seq<u8>,
    content_type: Seq<char>,
    now: Timestamp,
) -> Seq<char> {
    "PUT\n/"@ + key + "\n\n"@ + canonical_headers_of(setup, key, data, content_type, now) + "\n"@
        + signed_headers() + "\n"@ + payload_hash_of(data)
}

/// What the credentials are good for.
pub open spec fn scope_of(setup: SigningSetup, now: Timestamp) -> Seq<char> {
    date_stamp_of(now) + "/"@ + setup.region + "/s3/aws4_request"@
}

/// The text that is signed.
pub open spec fn string_to_sign_of(
    setup: SigningSetup,
    key: Seq<char>,
    data: Seq<u8>,
    content_type: Seq<char>,
    now: Timestamp,
) -> Seq<char> {
    algorithm() + "\n"@ + amz_date_of(now) + "\n"@ + scope_of(setup, now) + "\n"@ + hex_lower(
        sha256_of(encode_utf8(canonical_request_of(setup, key, data, content_type, now))),
    )
}

/// The code of a text under a key.
pub open spec fn signed_with(key: Seq<u8>, msg: Seq<char>) -> Seq<u8> {
    hmac_sha256_of(key, encode_utf8(msg))
}

/// The key that requests of a day, a region and the service are signed with.
pub open spec fn signing_key_of(setup: SigningSetup, now: Timestamp) -> Seq<u8> {
    let date = signed_with(encode_utf8("AWS4"@ + setup.secret_key), date_stamp_of(now));
    let region = signed_with(date, setup.region);
    let service = signed_with(region, "s3"@);
    signed_with(service, "aws4_request"@)
}

/// The value of the `Authorization` header.
pub open spec fn authorization_of(
    setup: SigningSetup,
    key: Seq<char>,
    data: Seq<u8>,
    content_type: Seq<char>,
    now: Timestamp,
) -> Seq<char> {
    algorithm() + " Credential="@ + setup.access_key + "/"@ + scope_of(setup, now)
        + ", SignedHeaders="@ + signed_headers() + ", Signature="@ + hex_lower(
        signed_with(
            signing_key_of(setup, now),
            string_to_sign_of(setup, key, data, content_type, now),
        ),
    )
}

/// The signed request that stores `data` under `key`.
pub open spec fn signed_put_of(
    setup: SigningSetup,
    key: Seq<char>,
    data: Seq<u8>,
    content_type: Seq<char>,
    now: Timestamp,
) -> HttpRequestModel {
    HttpRequestModel {
        method: Method::Put,
        url: "https://"@ + host_of(setup) + "/"@ + key,
        headers: seq![
            ("Host"@, host_of(setup)),
            ("Content-Type"@, content_type),
            ("Cache-Control"@, cache_control_of(key)),
            ("x-amz-date"@, amz_date_of(now)),
            ("x-amz-content-sha256"@, payload_hash_of(data)),
            ("Authorization"@, authorization_of(setup, key, data, content_type, now)),
        ],
    }
}

/// The HMAC-SHA-256 code of a text under a key.
pub fn sign(key: &[u8], msg: &str) -> (r: Vec<u8>)
    ensures
        r@ == signed_with(key@, msg@),
        r@.len() == 32,
{
    hmac_sha256(key, msg.as_bytes())
}

/// What to report of a reply that refuses an upload.
pub open spec fn refusal_of(status: Seq<char>, body: Seq<char>) -> Seq<char> {
    "S3 upload failed: "@ + status + " - "@ + body
}

/// Whether a reply accepts an upload, or what to report; `status` is the
/// status line.
pub fn upload_result(success: bool, status: &str, body: &str) -> (r: Result<(), String>)
    ensures
        match r {
            Ok(_) => success,
            Err(error) => !success && error@ == refusal_of(status@, body@),
        },
{
    if success {
        Ok(())
    } else {
        Err(writer::join4("S3 upload failed: ", status, " - ", body))
    }
}

impl ReqwestS3Uploader {
    /// What the uploader was set up with.
    pub closed spec fn setup(self) -> SigningSetup {
        SigningSetup {
            bucket: self.bucket@,
            region: self.region@,
            access_key: self.access_key@,
            secret_key: self.secret_key@,
            workers: self.worker_count,
        }
    }

    /// The record of uploads by key.
    pub closed spec fn uploads(self) -> Table<UploadState> {
        self.active_uploads
    }

    /// The record holds every key at most once.
    pub open spec fn wf(self) -> bool {
        self.uploads().wf()
    }

    /// An uploader with at least sixteen uploads at a time.
    pub fn new(
        bucket: String,
        region: String,
        access_key: String,
        secret_key: String,
        max_concurrent: usize,
    ) -> (r: Self)
        ensures
            r.wf(),
            r.uploads()@ == Map::<Seq<char>, UploadState>::empty(),
            r.setup() == (SigningSetup {
                bucket: bucket@,
                region: region@,
                access_key: access_key@,
                secret_key: secret_key@,
                workers: if max_concurrent >= 16 {
                    max_concurrent
                } else {
                    16
                },
            }),
    {
        let effective: usize = if max_concurrent >= 16 {
            max_concurrent
        } else {
            16
        };
        ReqwestS3Uploader {
            bucket,
            region,
            access_key,
            secret_key,
            active_uploads: Table::new(),
            worker_count: effective,
        }
    }

    /// The number of uploads that may run at a time.
    pub fn worker_limit(&self) -> (r: usize)
        ensures
            r == self.setup().workers,
    {
        self.worker_count
    }

    /// Records a file as being uploaded and returns its key.
    pub fn queue_data(&mut self, stream_name: &str, file_name: &str) -> (r: String)
        requires
            old(self).wf(),
        ensures
            final(self).wf(),
            final(self).setup() == old(self).setup(),
            r@ == key_of(stream_name@, file_name@),
            final(self).uploads()@ == old(self).uploads()@.insert(r@, UploadState::Uploading),
    {
        let key = object_key(stream_name, file_name);
        self.active_uploads.insert(key.clone(), UploadState::Uploading);
        key
    }

    /// Records how the attempt number `attempt`, counted from zero, ended and
    /// says what follows.
    pub fn after_attempt(
        &mut self,
        key: &str,
        attempt: u8,
        result: Result<(), String>,
    ) -> (r: AttemptOutcome)
        requires
            old(self).wf(),
        ensures
            final(self).wf(),
            final(self).setup() == old(self).setup(),
            r == outcome_of(
                attempt as int,
                MAX_RETRIES as int,
                result is Ok,
                (100 * (attempt + 1)) as u64,
            ),
            final(self).uploads()@ == recorded(
                old(self).uploads()@,
                key@,
                attempt as int,
                MAX_RETRIES as int,
                result,
                true,
            ),
            tries_again(attempt as int, MAX_RETRIES as int, result is Ok) ==> final(self).uploads()
                == old(self).uploads(),
    {
        match result {
            Ok(_) => {
                self.active_uploads.insert(key.to_owned(), UploadState::Completed);
                AttemptOutcome::Done
            },
            Err(error) => if attempt < MAX_RETRIES {
                AttemptOutcome::Retry { wait_ms: 100 * (attempt as u64 + 1) }
            } else {
                self.active_uploads.insert(key.to_owned(), UploadState::Failed(error));
                AttemptOutcome::GaveUp
            },
        }
    }

    /// The key that requests at `now` are signed with.
    fn signing_key(&self, date_stamp: &str, now: &Timestamp) -> (r: Vec<u8>)
        requires
            date_stamp@ == date_stamp_of(*now),
        ensures
            r@ == signing_key_of(self.setup(), *now),
    {
        let secret = writer::join2("AWS4", self.secret_key.as_str());
        let date = sign(secret.as_str().as_bytes(), date_stamp);
        let region = sign(date.as_slice(), self.region.as_str());
        let service = sign(region.as_slice(), "s3");
        sign(service.as_slice(), "aws4_request")
    }

    /// The signed request that stores `data` under `key`, made now.
    pub fn upload_to_s3_direct(&self, key: &str, data: &[u8], content_type: &str) -> (r: HttpRequest)
        ensures
            exists|now: Timestamp|
                r@ == #[trigger] signed_put_of(self.setup(), key@, data@, content_type@, now),
    {
        self.upload_to_s3_direct_at(key, data, content_type, &Timestamp::now())
    }

    /// The signed request that stores `data` under `key`, made at `now`.
    pub fn upload_to_s3_direct_at(
        &self,
        key: &str,
        data: &[u8],
        content_type: &str,
        now: &Timestamp,
    ) -> (r: HttpRequest)
        ensures
            r@ == signed_put_of(self.setup(), key@, data@, content_type@, *now),
    {
        let date_stamp = now.date_stamp();
        let amz_date = now.basic_date_time();
        let host = writer::join4(
            self.bucket.as_str(),
            ".s3.",
            self.region.as_str(),
            ".amazonaws.com",
        );
        let url = writer::join4("https://", host.as_str(), "/", key);
        let payload_hash = hex_encode(sha256(data).as_slice());
        let cache = cache_control(key);
        let signed = "cache-control;content-type;host;x-amz-content-sha256;x-amz-date";

        let mut headers = writer::join5(
            "cache-control:",
            cache,
            "\ncontent-type:",
            content_type,
            "\nhost:",
        );
        headers.append(host.as_str());
        headers.append("\nx-amz-content-sha256:");
        headers.append(payload_hash.as_str());
        headers.append("\nx-amz-date:");
        headers.append(amz_date.as_str());
        headers.append("\n");

        let mut canonical = writer::join5("PUT\n/", key, "\n\n", headers.as_str(), "\n");
        canonical.append(signed);
        canonical.append("\n");
        canonical.append(payload_hash.as_str());

        let scope = writer::join4(
            date_stamp.as_str(),
            "/",
            self.region.as_str(),
            "/s3/aws4_request",
        );
        let canonical_hash = hex_encode(sha256(canonical.as_str().as_bytes()).as_slice());
        let mut to_sign = writer::join5(
            "AWS4-HMAC-SHA256",
            "\n",
            amz_date.as_str(),
            "\n",
            scope.as_str(),
        );
        to_sign.append("\n");
        to_sign.append(canonical_hash.as_str());

        let signing_key = self.signing_key(date_stamp.as_str(), now);
        let code = sign(signing_key.as_slice(), to_sign.as_str());
        let signature = hex_encode(code.as_slice());

        let mut authorization = writer::join5(
            "AWS4-HMAC-SHA256",
            " Credential=",
            self.access_key.as_str(),
            "/",
            scope.as_str(),
        );
        authorization.append(", SignedHeaders=");
        authorization.append(signed);
        authorization.append(", Signature=");
        authorization.append(signature.as_str());

        let r = HttpRequest::new(Method::Put, url).with_header("Host", host.as_str()).with_header(
            "Content-Type",
            content_type,
        ).with_header("Cache-Control", cache).with_header(
            "x-amz-date",
            amz_date.as_str(),
        ).with_header("x-amz-content-sha256", payload_hash.as_str()).with_header(
            "Authorization",
            authorization.as_str(),
        );
        assert(r@ =~= signed_put_of(self.setup(), key@, data@, content_type@, *now));
        r
    }

    /// The number of uploads in flight.
    pub fn pending_count(&self) -> (r: usize)
        requires
            self.wf(),
        ensures
            r == in_flight_count(self.uploads().rows()),
    {
        count_in_flight(&self.active_uploads)
    }

    /// The number of uploads in flight.
    pub fn active_count(&self) -> (r: usize)
        requires
            self.wf(),
        ensures
            r == in_flight_count(self.uploads().rows()),
    {
        self.pending_count()
    }
}

/// What is signed is what is sent: the canonical headers hold the values of
/// the headers of the request, the digest among them is that of the body, and
/// the canonical request names the path of the address.
pub proof fn law_signature_covers_request(
    setup: SigningSetup,
    key: Seq<char>,
    data: Seq<u8>,
    content_type: Seq<char>,
    now: Timestamp,
)
    ensures
        ({
            let sent = signed_put_of(setup, key, data, content_type, now);
            let headers = canonical_headers_of(setup, key, data, content_type, now);
            &&& headers == "cache-control:"@ + sent.headers[2].1 + "\ncontent-type:"@
                + sent.headers[1].1 + "\nhost:"@ + sent.headers[0].1 + "\nx-amz-content-sha256:"@
                + sent.headers[4].1 + "\nx-amz-date:"@ + sent.headers[3].1 + "\n"@
            &&& sent.headers[4].1 == hex_lower(sha256_of(data))
            &&& sent.url == "https://"@ + sent.headers[0].1 + "/"@ + key
            &&& canonical_request_of(setup, key, data, content_type, now) == "PUT\n/"@ + key
                + "\n\n"@ + headers + "\n"@ + signed_headers() + "\n"@ + sent.headers[4].1
        }),
{
}

/// What the service computes of a request that it is sent: the code of the text
/// to sign under the key of the day and the region. It takes the values of the
/// signed headers from the request, and the secret from its own books.
pub open spec fn service_code(
    sent: HttpRequestModel,
    path: Seq<char>,
    secret_key: Seq<char>,
    day: Seq<char>,
    region: Seq<char>,
) -> Seq<u8> {
    let value = |name: Seq<char>| header_of(sent.headers, name)->0;
    let request = "PUT\n"@ + path + "\n\n"@ + "cache-control:"@ + value("Cache-Control"@)
        + "\ncontent-type:"@ + value("Content-Type"@) + "\nhost:"@ + value("Host"@)
        + "\nx-amz-content-sha256:"@ + value("x-amz-content-sha256"@) + "\nx-amz-date:"@ + value(
        "x-amz-date"@,
    ) + "\n"@ + "\n"@ + "cache-control;content-type;host;x-amz-content-sha256;x-amz-date"@ + "\n"@
        + value("x-amz-content-sha256"@);
    let to_sign = "AWS4-HMAC-SHA256"@ + "\n"@ + value("x-amz-date"@) + "\n"@ + (day + "/"@ + region
        + "/s3/aws4_request"@) + "\n"@ + hex_lower(sha256_of(encode_utf8(request)));
    let of_day = hmac_sha256_of(encode_utf8("AWS4"@ + secret_key), encode_utf8(day));
    let of_region = hmac_sha256_of(of_day, encode_utf8(region));
    let of_service = hmac_sha256_of(of_region, encode_utf8("s3"@));
    let key = hmac_sha256_of(of_service, encode_utf8("aws4_request"@));
    hmac_sha256_of(key, encode_utf8(to_sign))
}

proof fn lemma_sent_headers(
    setup: SigningSetup,
    key: Seq<char>,
    data: Seq<u8>,
    content_type: Seq<char>,
    now: Timestamp,
)
    ensures
        ({
            let sent = signed_put_of(setup, key, data, content_type, now).headers;
            &&& header_of(sent, "Host"@) == Some(host_of(setup))
            &&& header_of(sent, "Content-Type"@) == Some(content_type)
            &&& header_of(sent, "Cache-Control"@) == Some(cache_control_of(key))
            &&& header_of(sent, "x-amz-date"@) == Some(amz_date_of(now))
            &&& header_of(sent, "x-amz-content-sha256"@) == Some(payload_hash_of(data))
            &&& header_of(sent, "Authorization"@) == Some(
                authorization_of(setup, key, data, content_type, now),
            )
        }),
{
    let sent = signed_put_of(setup, key, data, content_type, now).headers;
    reveal_strlit("Host");
    reveal_strlit("Content-Type");
    reveal_strlit("Cache-Control");
    reveal_strlit("x-amz-date");
    reveal_strlit("x-amz-content-sha256");
    reveal_strlit("Authorization");
    assert("Cache-Control"@[0] == 'C' && "Authorization"@[0] == 'A');
    assert("Host"@.len() == 4 && "Content-Type"@.len() == 12 && "Cache-Control"@.len() == 13);
    assert("x-amz-date"@.len() == 10 && "x-amz-content-sha256"@.len() == 20);
    assert(sent[0].0 == "Host"@ && sent[1].0 == "Content-Type"@ && sent[2].0 == "Cache-Control"@);
    assert(sent[3].0 == "x-amz-date"@ && sent[4].0 == "x-amz-content-sha256"@);
    lemma_header(sent, 0);
    lemma_header(sent, 1);
    lemma_header(sent, 2);
    lemma_header(sent, 3);
    lemma_header(sent, 4);
    lemma_header(sent, 5);
}

/// The service accepts the request: it is sent to the host of the bucket in the
/// region of the setup, and its credentials name the access key, the day, that
/// region, the service and the signed headers, with the very signature that the
/// service computes of what it was sent. The digest in the request is that of
/// the body, and the moment in it is the one of the request.
pub proof fn law_service_accepts_request(
    setup: SigningSetup,
    key: Seq<char>,
    data: Seq<u8>,
    content_type: Seq<char>,
    now: Timestamp,
)
    ensures
        ({
            let sent = signed_put_of(setup, key, data, content_type, now);
            let day = strftime_text(now.secs(), now.nanos(), "%Y%m%d"@);
            let host = setup.bucket + ".s3."@ + setup.region + ".amazonaws.com"@;
            let code = service_code(sent, "/"@ + key, setup.secret_key, day, setup.region);
            &&& sent.method is Put
            &&& sent.url == "https://"@ + host + "/"@ + key
            &&& header_of(sent.headers, "Host"@) == Some(host)
            &&& header_of(sent.headers, "Content-Type"@) == Some(content_type)
            &&& header_of(sent.headers, "Cache-Control"@) == Some(cache_control_of(key))
            &&& header_of(sent.headers, "x-amz-date"@) == Some(
                strftime_text(now.secs(), now.nanos(), "%Y%m%dT%H%M%SZ"@),
            )
            &&& header_of(sent.headers, "x-amz-content-sha256"@) == Some(hex_lower(sha256_of(data)))
            &&& header_of(sent.headers, "Authorization"@) == Some(
                "AWS4-HMAC-SHA256"@ + " Credential="@ + setup.access_key + "/"@ + (day + "/"@
                    + setup.region + "/s3/aws4_request"@) + ", SignedHeaders="@
                    + "cache-control;content-type;host;x-amz-content-sha256;x-amz-date"@
                    + ", Signature="@ + hex_lower(code),
            )
        }),
{
    lemma_sent_headers(setup, key, data, content_type, now);
    let sent = signed_put_of(setup, key, data, content_type, now);
    let value = |name: Seq<char>| header_of(sent.headers, name)->0;
    let request = "PUT\n"@ + ("/"@ + key) + "\n\n"@ + "cache-control:"@ + value("Cache-Control"@)
        + "\ncontent-type:"@ + value("Content-Type"@) + "\nhost:"@ + value("Host"@)
        + "\nx-amz-content-sha256:"@ + value("x-amz-content-sha256"@) + "\nx-amz-date:"@ + value(
        "x-amz-date"@,
    ) + "\n"@ + "\n"@ + "cache-control;content-type;host;x-amz-content-sha256;x-amz-date"@ + "\n"@
        + value("x-amz-content-sha256"@);
    reveal_strlit("PUT\n/");
    reveal_strlit("PUT\n");
    reveal_strlit("/");
    assert("PUT\n/"@ =~= "PUT\n"@ + "/"@);
    assert(request =~= canonical_request_of(setup, key, data, content_type, now));
}

/// The region and the day of an upload matter to its signature in two places:
/// the scope that the credentials name, and the key that signs. Each part of the
/// scope can be read off between slashes, where the region and the day hold none.
pub proof fn law_scope_names_day_and_region(setup: SigningSetup, now: Timestamp)
    requires
        !setup.region.contains('/'),
        !strftime_text(now.secs(), now.nanos(), "%Y%m%d"@).contains('/'),
    ensures
        split(scope_of(setup, now), '/') == seq![
            strftime_text(now.secs(), now.nanos(), "%Y%m%d"@),
            setup.region,
            "s3"@,
            "aws4_request"@,
        ],
{
    let day = strftime_text(now.secs(), now.nanos(), "%Y%m%d"@);
    let scope = scope_of(setup, now);
    reveal_strlit("/s3/aws4_request");
    reveal_strlit("s3");
    reveal_strlit("aws4_request");
    reveal_strlit("/");
    let last = "aws4_request"@;
    assert(scope =~= day + seq!['/'] + (setup.region + seq!['/'] + ("s3"@ + seq!['/'] + last)));
    lemma_split_front(day, '/', setup.region + seq!['/'] + ("s3"@ + seq!['/'] + last));
    lemma_split_front(setup.region, '/', "s3"@ + seq!['/'] + last);
    lemma_split_front("s3"@, '/', last);
    lemma_split_whole(last, '/');
    assert(split(scope, '/') =~= seq![day, setup.region, "s3"@, last]);
}

/// What is reported of a refused upload holds the status line and behind it the
/// body of the reply.
pub proof fn law_refusal_tells_status_and_body(status: Seq<char>, body: Seq<char>)
    ensures
        ({
            let told = refusal_of(status, body);
            let n = "S3 upload failed: "@.len() as int;
            let k = n + status.len();
            &&& told.take(n) == "S3 upload failed: "@
            &&& told.subrange(n, k) == status
            &&& told.subrange(k, k + 3) == " - "@
            &&& told.skip(k + 3) == body
        }),
{
    let told = refusal_of(status, body);
    reveal_strlit(" - ");
    let n = "S3 upload failed: "@.len() as int;
    let k = n + status.len();
    assert(told.take(n) =~= "S3 upload failed: "@);
    assert(told.subrange(n, k) =~= status);
    assert(told.subrange(k, k + 3) =~= " - "@);
    assert(told.skip(k + 3) =~= body);
}

/// An upload that never goes well is attempted four times, and one that does is
/// attempted no more after that.
pub proof fn law_four_attempts(ok: spec_fn(int) -> bool)
    ensures
        attempts_from(0, MAX_RETRIES as int, ok) <= 4,
        (forall|i: int| 0 <= i < 4 ==> !#[trigger] ok(i)) ==> attempts_from(
            0,
            MAX_RETRIES as int,
            ok,
        ) == 4,
        forall|i: int|
            0 <= i < 4 && #[trigger] ok(i) ==> attempts_from(0, MAX_RETRIES as int, ok) <= i + 1,
{
    law_attempts_are_bounded(0, MAX_RETRIES as int, ok);
    let n = attempts_from(0, MAX_RETRIES as int, ok);
    assert forall|i: int| 0 <= i < 4 && #[trigger] ok(i) implies n <= i + 1 by {
        if n > i + 1 {
            assert(!ok(i));
        }
    }
}

} // verus!
