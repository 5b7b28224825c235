//! What a publishing session does with what it receives.

use crate::streaming::ll_hls_playlist::text_of;
use crate::text;
use crate::text::first_pos;
use std::collections::hash_map::DefaultHasher;
use std::hash::{Hash, Hasher};
use vstd::prelude::*;
use vstd::std_specs::hash::DefaultHasherAdditionalSpecFns;

verus! {

/// What `<str as Hash>::hash` writes to a hasher for a text.
pub uninterp spec fn hash_writes(s: Seq<char>) -> Seq<Seq<u8>>;

/// Calls `<str as Hash>::hash`: it feeds the hasher with what it writes for the
/// text, which depends on the text alone, after whatever was written before.
#[verifier::external_body]
fn hash_text(s: &str, state: &mut DefaultHasher)
    ensures
        final(state)@ == old(state)@ + hash_writes(s@),
{
    s.hash(state)
}

/// The low 32 bits of a hash, or one where they are all zero.
pub open spec fn id_of_hash(hash: u64) -> u32 {
    let low = (hash as int % 0x1_0000_0000) as u32;
    if low == 0 {
        1
    } else {
        low
    }
}

/// The number of the stream of this name.
pub open spec fn stream_number(name: Seq<char>) -> u32 {
    id_of_hash(DefaultHasher::spec_finish(hash_writes(name)))
}

/// The low 32 bits of a hash, or one where they are all zero.
pub fn id_from_hash(hash: u64) -> (r: u32)
    ensures
        r == id_of_hash(hash),
        r != 0,
{
    let low: u32 = (hash % 0x1_0000_0000) as u32;
    if low == 0 {
        1
    } else {
        low
    }
}

/// The four bytes of a number, the most significant first.
pub open spec fn be32(n: u32) -> Seq<u8> {
    seq![
        (n as int / 0x100_0000) as u8,
        (n as int / 0x1_0000 % 0x100) as u8,
        (n as int / 0x100 % 0x100) as u8,
        (n as int % 0x100) as u8,
    ]
}

/// The number that bytes stand for, the most significant first.
pub open spec fn be_value(bytes: Seq<u8>) -> int
    decreases bytes.len(),
{
    if bytes.len() == 0 {
        0
    } else {
        be_value(bytes.drop_last()) * 0x100 + bytes.last()
    }
}

fn push_be32(out: &mut Vec<u8>, n: u32)
    ensures
        final(out)@ == old(out)@ + be32(n),
{
    let ghost before = out@;
    out.push((n / 0x100_0000) as u8);
    out.push((n / 0x1_0000 % 0x100) as u8);
    out.push((n / 0x100 % 0x100) as u8);
    out.push((n % 0x100) as u8);
    assert(out@ =~= before + be32(n));
}

fn push_be24(out: &mut Vec<u8>, n: u32)
    ensures
        final(out)@ == old(out)@ + be32(n).skip(1),
{
    let ghost before = out@;
    out.push((n / 0x1_0000 % 0x100) as u8);
    out.push((n / 0x100 % 0x100) as u8);
    out.push((n % 0x100) as u8);
    assert(out@ =~= before + be32(n).skip(1));
}

/// The header of an FLV file with audio and video: signature, version, flags,
/// the offset of the data, and the size of the tag before the first.
pub open spec fn flv_header_bytes() -> Seq<u8> {
    seq![0x46u8, 0x4c, 0x56, 1, 5] + be32(9) + be32(0)
}

/// The header of an FLV file with audio and video.
pub fn flv_header() -> (r: Vec<u8>)
    ensures
        r@ == flv_header_bytes(),
{
    let mut header: Vec<u8> = Vec::new();
    header.push(0x46);
    header.push(0x4c);
    header.push(0x56);
    header.push(1);
    header.push(5);
    assert(header@ =~= seq![0x46u8, 0x4c, 0x56, 1, 5]);
    push_be32(&mut header, 9);
    push_be32(&mut header, 0);
    header
}

/// What a message of a session carries.
#[derive(Clone, Copy, Debug, PartialEq, Eq, Structural)]
pub enum MediaKind {
    Video,
    Audio,
    /// Metadata.
    Amf0,
}

/// The type of the tag that carries a kind of message.
pub open spec fn tag_type_of(kind: MediaKind) -> u8 {
    match kind {
        MediaKind::Video => 9,
        MediaKind::Audio => 8,
        MediaKind::Amf0 => 18,
    }
}

/// The size of a payload as a tag counts it: in 32 bits.
pub open spec fn counted_size(payload: Seq<u8>) -> u32 {
    (payload.len() as int % 0x1_0000_0000) as u32
}

/// An FLV tag: its type, the size of its data in three bytes, the timestamp
/// with its highest byte last, a stream number of zero, the data, and the size
/// of the whole.
pub open spec fn flv_tag_bytes(kind: MediaKind, timestamp: u32, payload: Seq<u8>) -> Seq<u8> {
    let size = counted_size(payload);
    seq![tag_type_of(kind)] + be32(size).skip(1) + be32(timestamp).skip(1) + be32(timestamp).take(1)
        + seq![0u8, 0, 0] + payload + be32((size + 11) as u32)
}

/// An FLV tag.
pub fn flv_tag(kind: MediaKind, timestamp: u32, payload: &[u8]) -> (r: Vec<u8>)
    requires
        counted_size(payload@) + 11 <= u32::MAX,
    ensures
        r@ == flv_tag_bytes(kind, timestamp, payload@),
{
    let size: u32 = (payload.len() as u64 % 0x1_0000_0000) as u32;
    let tag_type: u8 = match kind {
        MediaKind::Video => 9,
        MediaKind::Audio => 8,
        MediaKind::Amf0 => 18,
    };
    let mut tag: Vec<u8> = Vec::new();
    tag.push(tag_type);
    assert(tag@ =~= seq![tag_type_of(kind)]);
    push_be24(&mut tag, size);
    push_be24(&mut tag, timestamp);
    let ghost before = tag@;
    tag.push((timestamp / 0x100_0000) as u8);
    assert(tag@ =~= before + be32(timestamp).take(1));
    let ghost before = tag@;
    tag.push(0);
    tag.push(0);
    tag.push(0);
    assert(tag@ =~= before + seq![0u8, 0, 0]);
    let ghost before = tag@;
    let mut i: usize = 0;
    assert(tag@ =~= before + payload@.take(0));
    while i < payload.len()
        invariant
            i <= payload@.len(),
            tag@ == before + payload@.take(i as int),
        decreases payload@.len() - i,
    {
        tag.push(payload[i]);
        assert(tag@ =~= before + payload@.take(i + 1));
        i = i + 1;
    }
    assert(payload@.take(i as int) =~= payload@);
    push_be32(&mut tag, size + 11);
    tag
}

/// The key of a stream without the parameters behind a question mark.
pub open spec fn clean_key(stream_key: Seq<char>) -> Seq<char> {
    stream_key.take(first_pos(stream_key, '?'))
}

/// What a session knows.
#[verifier::ext_equal]
pub struct SessionModel {
    pub internal_stream_id: Option<u32>,
    pub authed_stream_id: Option<Seq<char>>,
    pub stream_key: Option<Seq<char>>,
}

impl SessionModel {
    /// The session after its stream has been given up.
    pub open spec fn unpublished(self) -> SessionModel {
        SessionModel { internal_stream_id: None, ..self }
    }
}

/// A publishing session.
#[derive(Debug)]
pub struct RtmpSessionHandler {
    internal_stream_id: Option<u32>,
    authed_stream_id: Option<String>,
    stream_key: Option<String>,
}

impl View for RtmpSessionHandler {
    type V = SessionModel;

    closed spec fn view(&self) -> SessionModel {
        SessionModel {
            internal_stream_id: self.internal_stream_id,
            authed_stream_id: text_of(self.authed_stream_id),
            stream_key: text_of(self.stream_key),
        }
    }
}

impl RtmpSessionHandler {
    /// A session that has not published yet.
    pub fn new() -> (r: Self)
        ensures
            r@ == (SessionModel {
                internal_stream_id: None,
                authed_stream_id: None,
                stream_key: None,
            }),
    {
        RtmpSessionHandler { internal_stream_id: None, authed_stream_id: None, stream_key: None }
    }

    /// Keeps the key of the stream without its parameters, and gives it.
    pub fn sanitize_stream_key(&mut self, stream_key: &str) -> (r: String)
        ensures
            r@ == clean_key(stream_key@),
            final(self)@ == (SessionModel { stream_key: Some(r@), ..old(self)@ }),
    {
        let user_key = text::before(stream_key, '?');
        self.stream_key = Some(user_key.clone());
        user_key
    }

    /// The number of the stream of this name. It is never zero.
    pub fn generate_stream_id(stream_name: &str) -> (r: u32)
        ensures
            r == stream_number(stream_name@),
            r != 0,
    {
        let mut hasher = DefaultHasher::new();
        hash_text(stream_name, &mut hasher);
        assert(hasher@ =~= hash_writes(stream_name@));
        id_from_hash(hasher.finish())
    }

    /// Takes the name that the stream goes by once its key has been accepted,
    /// and gives the number of the stream.
    pub fn on_publish(&mut self, authed_stream_id: String) -> (r: u32)
        ensures
            r == stream_number(authed_stream_id@),
            final(self)@ == (SessionModel {
                internal_stream_id: Some(r),
                authed_stream_id: Some(authed_stream_id@),
                ..old(self)@
            }),
    {
        let id: u32 = Self::generate_stream_id(authed_stream_id.as_str());
        self.internal_stream_id = Some(id);
        self.authed_stream_id = Some(authed_stream_id);
        id
    }

    /// The number and the name of the stream that is to be stopped, where one
    /// has been published. The session has then published none.
    pub fn on_unpublish(&mut self) -> (r: Option<(u32, String)>)
        ensures
            final(self)@ == old(self)@.unpublished(),
            match r {
                Some((id, name)) => {
                    &&& old(self)@.internal_stream_id == Some(id)
                    &&& name@ == (match old(self)@.authed_stream_id {
                        Some(authed) => authed,
                        None => "unknown"@,
                    })
                },
                None => old(self)@.internal_stream_id is None,
            },
    {
        match self.internal_stream_id.take() {
            Some(id) => {
                let name = match &self.authed_stream_id {
                    Some(authed) => authed.clone(),
                    None => "unknown".to_owned(),
                };
                Some((id, name))
            },
            None => None,
        }
    }

    /// The tag that is to be written for a message, and the number of the
    /// stream, while one is published; what comes before or after is dropped.
    pub fn on_data(&self, kind: MediaKind, timestamp: u32, payload: &[u8]) -> (r: Option<
        (u32, Vec<u8>),
    >)
        requires
            self@.internal_stream_id is Some ==> counted_size(payload@) + 11 <= u32::MAX,
        ensures
            match r {
                Some((id, tag)) => {
                    &&& self@.internal_stream_id == Some(id)
                    &&& tag@ == flv_tag_bytes(kind, timestamp, payload@)
                },
                None => self@.internal_stream_id is None,
            },
    {
        match self.internal_stream_id {
            Some(id) => Some((id, flv_tag(kind, timestamp, payload))),
            None => None,
        }
    }

    /// The number of the published stream.
    pub fn internal_stream_id(&self) -> (r: Option<u32>)
        ensures
            r == self@.internal_stream_id,
    {
        self.internal_stream_id
    }

    /// The key of the stream, without its parameters.
    pub fn stream_key(&self) -> (r: Option<&str>)
        ensures
            match r {
                Some(key) => self@.stream_key == Some(key@),
                None => self@.stream_key is None,
            },
    {
        match &self.stream_key {
            Some(key) => Some(key.as_str()),
            None => None,
        }
    }
}

/// A stream is stopped once: a session that has given up its stream has none to
/// give up, and giving it up again changes nothing.
pub proof fn law_stream_is_stopped_once(m: SessionModel)
    ensures
        m.unpublished().internal_stream_id is None,
        m.unpublished().unpublished() == m.unpublished(),
        m.unpublished().stream_key == m.stream_key,
{
}

/// The key that is kept holds no question mark and begins the key that came.
pub proof fn law_clean_key_is_clean(stream_key: Seq<char>)
    ensures
        !clean_key(stream_key).contains('?'),
        text::has_prefix(stream_key, clean_key(stream_key)),
        !stream_key.contains('?') ==> clean_key(stream_key) == stream_key,
{
    text::lemma_first_pos(stream_key, '?');
    let p = first_pos(stream_key, '?');
    let clean = clean_key(stream_key);
    if clean.contains('?') {
        let i = choose|i: int| 0 <= i < clean.len() && clean[i] == '?';
        assert(stream_key[i] == '?');
    }
    assert(stream_key.take(clean.len() as int) =~= clean);
    if p < stream_key.len() {
        assert(stream_key[p] == '?');
    } else {
        assert(clean =~= stream_key);
    }
}

/// The four bytes of a number stand for it.
pub proof fn law_be32_reads_back(n: u32)
    ensures
        be_value(be32(n)) == n,
        n < 0x100_0000 ==> be_value(be32(n).skip(1)) == n,
{
    let b = be32(n);
    reveal_with_fuel(be_value, 5);
    assert(b.drop_last().drop_last().drop_last().drop_last() =~= Seq::<u8>::empty());
    let t = b.skip(1);
    assert(t.drop_last().drop_last().drop_last() =~= Seq::<u8>::empty());
    assert(t.last() == b[3] && t.drop_last().last() == b[2]
        && t.drop_last().drop_last().last() == b[1]);
}

/// A tag is fifteen bytes longer than its data. Where the data is shorter than
/// sixteen mebibytes, the three bytes behind the type stand for its length, and
/// the last four bytes for the length of the tag without them.
#[verifier::rlimit(30)]
pub proof fn law_tag_tells_its_size(kind: MediaKind, timestamp: u32, payload: Seq<u8>)
    requires
        payload.len() < 0x100_0000,
    ensures
        flv_tag_bytes(kind, timestamp, payload).len() == payload.len() + 15,
        be_value(flv_tag_bytes(kind, timestamp, payload).subrange(1, 4)) == payload.len(),
        be_value(flv_tag_bytes(kind, timestamp, payload).skip(11 + payload.len() as int))
            == payload.len() + 11,
        flv_tag_bytes(kind, timestamp, payload).subrange(11, 11 + payload.len() as int) == payload,
{
    let tag = flv_tag_bytes(kind, timestamp, payload);
    let size = counted_size(payload);
    law_be32_reads_back(size);
    law_be32_reads_back((size + 11) as u32);
    assert(tag.subrange(1, 4) =~= be32(size).skip(1));
    assert(tag.skip(11 + payload.len() as int) =~= be32((size + 11) as u32));
    assert(tag.subrange(11, 11 + payload.len() as int) =~= payload);
}

/// What four bytes stand for, and the last three of them.
proof fn lemma_be32(n: u32)
    ensures
        be32(n).len() == 4,
        be32(n)[0] * 0x100_0000 + be32(n)[1] * 0x1_0000 + be32(n)[2] * 0x100 + be32(n)[3] == n,
        be32(n)[1] * 0x1_0000 + be32(n)[2] * 0x100 + be32(n)[3] == n as int % 0x100_0000,
{
}

/// Where the bytes of a tag stand.
proof fn lemma_tag_bytes(kind: u8, size: Seq<u8>, stamp: Seq<u8>, data: Seq<u8>, whole: Seq<u8>)
    requires
        size.len() == 4,
        stamp.len() == 4,
        whole.len() == 4,
    ensures
        ({
            let tag = seq![kind] + size.skip(1) + stamp.skip(1) + stamp.take(1) + seq![0u8, 0, 0]
                + data + whole;
            let n = data.len() as int;
            &&& tag.len() == n + 15
            &&& tag[0] == kind
            &&& tag[1] == size[1] && tag[2] == size[2] && tag[3] == size[3]
            &&& tag[4] == stamp[1] && tag[5] == stamp[2] && tag[6] == stamp[3] && tag[7] == stamp[0]
            &&& tag[8] == 0 && tag[9] == 0 && tag[10] == 0
            &&& forall|i: int| 0 <= i < n ==> tag[11 + i] == #[trigger] data[i]
            &&& tag[n + 11] == whole[0] && tag[n + 12] == whole[1]
            &&& tag[n + 13] == whole[2] && tag[n + 14] == whole[3]
        }),
{
}

/// What a tag says can be read off its bytes: the first is the type of the
/// message; the next three are the length of the data, the most significant
/// byte first; three more and behind them the highest one are the timestamp of
/// the message, whatever its kind; three zeros; the data; and the length of all
/// that in four bytes.
pub proof fn law_tag_carries_its_message(kind: MediaKind, timestamp: u32, payload: Seq<u8>)
    requires
        payload.len() + 11 <= u32::MAX,
    ensures
        ({
            let tag = flv_tag_bytes(kind, timestamp, payload);
            let n = payload.len() as int;
            &&& tag.len() == n + 15
            &&& kind is Audio ==> tag[0] == 8
            &&& kind is Video ==> tag[0] == 9
            &&& kind is Amf0 ==> tag[0] == 18
            &&& tag[1] * 0x1_0000 + tag[2] * 0x100 + tag[3] == n % 0x100_0000
            &&& tag[4] * 0x1_0000 + tag[5] * 0x100 + tag[6] + tag[7] * 0x100_0000 == timestamp
            &&& tag[8] == 0 && tag[9] == 0 && tag[10] == 0
            &&& forall|i: int| 0 <= i < n ==> tag[11 + i] == #[trigger] payload[i]
            &&& tag[n + 11] * 0x100_0000 + tag[n + 12] * 0x1_0000 + tag[n + 13] * 0x100 + tag[n + 14]
                == n + 11
        }),
{
    let tag = flv_tag_bytes(kind, timestamp, payload);
    let n = payload.len() as int;
    let size = counted_size(payload);
    assert(size == n);
    lemma_be32(size);
    lemma_be32(timestamp);
    lemma_be32((size + 11) as u32);
    lemma_tag_bytes(
        tag_type_of(kind),
        be32(size),
        be32(timestamp),
        payload,
        be32((size + 11) as u32),
    );
    assert(tag[0] == tag_type_of(kind));
}

/// Two messages have the same tag only where they are of one kind, of one
/// moment and carry the same data.
pub proof fn law_tags_tell_messages_apart(
    kind: MediaKind,
    timestamp: u32,
    payload: Seq<u8>,
    other_kind: MediaKind,
    other_timestamp: u32,
    other_payload: Seq<u8>,
)
    requires
        payload.len() + 11 <= u32::MAX,
        other_payload.len() + 11 <= u32::MAX,
        flv_tag_bytes(kind, timestamp, payload) == flv_tag_bytes(
            other_kind,
            other_timestamp,
            other_payload,
        ),
    ensures
        kind == other_kind,
        timestamp == other_timestamp,
        payload == other_payload,
{
    law_tag_carries_its_message(kind, timestamp, payload);
    law_tag_carries_its_message(other_kind, other_timestamp, other_payload);
    let tag = flv_tag_bytes(kind, timestamp, payload);
    assert forall|i: int| 0 <= i < payload.len() implies payload[i] == other_payload[i] by {
        assert(tag[11 + i] == payload[i]);
        assert(tag[11 + i] == other_payload[i]);
    }
    assert(payload =~= other_payload);
}

/// The header spells `FLV` and its version, has the bits of audio and of video
/// set and no other, says that the data begins behind its own nine bytes, and is
/// followed by the size of a tag that is not there.
pub proof fn law_header_announces_both_tracks()
    ensures
        ({
            let h = flv_header_bytes();
            &&& h.len() == 13
            &&& h[0] == 'F' as u32 && h[1] == 'L' as u32 && h[2] == 'V' as u32
            &&& h[3] == 1
            &&& h[4] == 4 + 1
            &&& h[5] * 0x100_0000 + h[6] * 0x1_0000 + h[7] * 0x100 + h[8] == h.len() - 4
            &&& forall|i: int| 9 <= i < 13 ==> #[trigger] h[i] == 0
        }),
{
}

/// The number of a stream agrees with the hash of its name in the low 32 bits,
/// and is one where these are zero.
pub proof fn law_number_is_low_half(hash: u64)
    ensures
        hash as int % 0x1_0000_0000 != 0 ==> (hash - id_of_hash(hash)) % 0x1_0000_0000 == 0,
        hash as int % 0x1_0000_0000 == 0 ==> id_of_hash(hash) == 1,
        id_of_hash(hash) > 0,
{
}

/// The number of a stream comes from the hash of its whole name.
pub proof fn law_number_comes_from_name(name: Seq<char>)
    ensures
        stream_number(name) > 0,
        stream_number(name) != 1 ==> (DefaultHasher::spec_finish(hash_writes(name)) - stream_number(
            name,
        )) % 0x1_0000_0000 == 0,
        stream_number(name) == 1 ==> DefaultHasher::spec_finish(hash_writes(name)) as int
            % 0x1_0000_0000 <= 1,
{
}

/// A session that gives up its stream forgets the number of that, and nothing
/// else.
pub proof fn law_session_forgets_number_only(m: SessionModel)
    ensures
        m.unpublished().internal_stream_id is None,
        m.unpublished().authed_stream_id == m.authed_stream_id,
        m.unpublished().stream_key == m.stream_key,
{
}

/// A key without a question mark is kept as it is, whatever parameters follow
/// it.
pub proof fn law_parameters_are_cut_off(key: Seq<char>, parameters: Seq<char>)
    requires
        !key.contains('?'),
    ensures
        clean_key(key) == key,
        clean_key(key + seq!['?'] + parameters) == key,
{
    let s = key + seq!['?'] + parameters;
    law_clean_key_is_clean(key);
    assert forall|i: int| 0 <= i < key.len() implies #[trigger] s[i] != '?' by {
        assert(s[i] == key[i]);
        assert(key.contains(key[i]));
    }
    text::lemma_first_pos_is(s, '?', key.len() as int);
    assert(s.take(key.len() as int) =~= key);
}

} // verus!
