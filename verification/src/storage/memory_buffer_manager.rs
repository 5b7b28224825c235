//! Stream data kept in memory within a budget.

use crate::buffer::{bytes_clone, bytes_from_vec, bytes_len, bytes_of, bytes_to_vec};
use crate::order::{in_order, lemma_lex_total, lex_le, lex_less, sort_texts, up_to, Lexical};
use crate::table::{as_map, distinct, has_name, lemma_row_count, lemma_row_value, names, row_of, Table};
use crate::text::texts;
use crate::time::Timestamp;
use crate::writer;
use bytes::Bytes;
use vstd::prelude::*;

verus! {

/// What is in memory of one stream.
pub struct StreamBuffer {
    pub stream_name: String,
    pub segments: Table<Bytes>,
    pub playlist: Option<Bytes>,
    pub init_segment: Option<Bytes>,
    /// The number of bytes in the buffer.
    pub total_size: usize,
    pub last_updated: Timestamp,
}

/// What a [`StreamBuffer`] holds.
#[verifier::ext_equal]
pub struct BufferModel {
    pub stream_name: Seq<char>,
    pub segments: Map<Seq<char>, Seq<u8>>,
    pub playlist: Option<Seq<u8>>,
    pub init_segment: Option<Seq<u8>>,
    pub total_size: int,
    pub last_updated: Timestamp,
}

/// The bytes of an optional buffer.
pub open spec fn content_of(b: Option<Bytes>) -> Option<Seq<u8>> {
    match b {
        Some(x) => Some(bytes_of(x)),
        None => None,
    }
}

/// The number of bytes of an optional buffer.
pub open spec fn size_of(b: Option<Seq<u8>>) -> int {
    match b {
        Some(x) => x.len() as int,
        None => 0,
    }
}

/// The bytes of each buffer of a map.
pub open spec fn contents(m: Map<Seq<char>, Bytes>) -> Map<Seq<char>, Seq<u8>> {
    m.map_values(|b: Bytes| bytes_of(b))
}

impl View for StreamBuffer {
    type V = BufferModel;

    open spec fn view(&self) -> BufferModel {
        BufferModel {
            stream_name: self.stream_name@,
            segments: contents(self.segments@),
            playlist: content_of(self.playlist),
            init_segment: content_of(self.init_segment),
            total_size: self.total_size as int,
            last_updated: self.last_updated,
        }
    }
}

impl BufferModel {
    /// A buffer with nothing in it.
    pub open spec fn fresh(stream_name: Seq<char>, now: Timestamp) -> BufferModel {
        BufferModel {
            stream_name,
            segments: Map::empty(),
            playlist: None,
            init_segment: None,
            total_size: 0,
            last_updated: now,
        }
    }

    /// The bytes that are there: those of the segments, of the playlist and of
    /// the initialisation segment.
    pub open spec fn held(self) -> int {
        sum_of(self.segments, byte_counts()) + size_of(self.playlist) + size_of(self.init_segment)
    }

    /// The number of bytes of the segment named `name`, zero where there is none.
    pub open spec fn segment_size(self, name: Seq<char>) -> int {
        if self.segments.contains_key(name) {
            self.segments[name].len() as int
        } else {
            0
        }
    }

    /// The buffer after a segment has come in at `now`, in place of one of the
    /// same name.
    pub open spec fn with_segment(
        self,
        name: Seq<char>,
        data: Seq<u8>,
        now: Timestamp,
    ) -> BufferModel {
        BufferModel {
            segments: self.segments.insert(name, data),
            total_size: self.total_size - self.segment_size(name) + data.len(),
            last_updated: now,
            ..self
        }
    }

    /// The buffer after the playlist has been replaced at `now`.
    pub open spec fn with_playlist(self, data: Seq<u8>, now: Timestamp) -> BufferModel {
        BufferModel {
            playlist: Some(data),
            total_size: self.total_size - size_of(self.playlist) + data.len(),
            last_updated: now,
            ..self
        }
    }

    /// The buffer after the initialisation segment has been replaced at `now`.
    pub open spec fn with_init_segment(self, data: Seq<u8>, now: Timestamp) -> BufferModel {
        BufferModel {
            init_segment: Some(data),
            total_size: self.total_size - size_of(self.init_segment) + data.len(),
            last_updated: now,
            ..self
        }
    }

    /// `after` is this buffer with only the `keep` segments whose names come
    /// last in the order of texts; what leaves is no longer accounted for.
    pub open spec fn cleaned_to(self, after: BufferModel, keep: nat) -> bool {
        if self.segments.len() <= keep {
            after == self
        } else {
            &&& after.stream_name == self.stream_name
            &&& after.playlist == self.playlist
            &&& after.init_segment == self.init_segment
            &&& after.last_updated == self.last_updated
            &&& after.segments.submap_of(self.segments)
            &&& after.segments.len() == keep
            &&& forall|gone: Seq<char>, kept: Seq<char>|
                self.segments.contains_key(gone) && !after.segments.contains_key(gone)
                    && after.segments.contains_key(kept) ==> #[trigger] lex_less(gone, kept)
            &&& self.total_size - after.total_size == self.held() - after.held()
            &&& after.total_size <= self.total_size
        }
    }
}

proof fn lemma_contents_len(m: Map<Seq<char>, Bytes>)
    ensures
        contents(m).dom() == m.dom(),
        contents(m).len() == m.len(),
{
    assert(contents(m).dom() =~= m.dom());
}

impl StreamBuffer {
    /// Segment names are distinct, and the bytes that are there are accounted
    /// for.
    pub open spec fn wf(self) -> bool {
        self.segments.wf() && self@.total_size == self@.held()
    }

    proof fn lemma_segments(self)
        requires
            self.wf(),
        ensures
            self@.segments.dom().finite(),
            sum_of(self@.segments, byte_counts()) >= 0,
            forall|name: Seq<char>| 0 <= #[trigger] self@.segment_size(name) <= sum_of(
                self@.segments,
                byte_counts(),
            ),
    {
        lemma_row_count(self.segments.rows());
        lemma_contents_len(self.segments@);
        lemma_sum_nonneg(self@.segments, byte_counts());
        assert forall|name: Seq<char>| 0 <= #[trigger] self@.segment_size(name) <= sum_of(
            self@.segments,
            byte_counts(),
        ) by {
            if self@.segments.contains_key(name) {
                lemma_sum_remove(self@.segments, byte_counts(), name);
                lemma_sum_nonneg(self@.segments.remove(name), byte_counts());
            }
        }
    }

    /// An empty buffer.
    pub fn new(stream_name: String) -> (r: Self)
        ensures
            r.wf(),
            exists|now: Timestamp| r@ == #[trigger] BufferModel::fresh(stream_name@, now),
    {
        Self::new_at(stream_name, Timestamp::now())
    }

    /// An empty buffer, made at `now`.
    pub fn new_at(stream_name: String, now: Timestamp) -> (r: Self)
        ensures
            r.wf(),
            r@ == BufferModel::fresh(stream_name@, now),
    {
        let r = StreamBuffer {
            stream_name,
            segments: Table::new(),
            playlist: None,
            init_segment: None,
            total_size: 0,
            last_updated: now,
        };
        assert(r@.segments =~= Map::<Seq<char>, Seq<u8>>::empty());
        r
    }

    /// Adds a segment, in place of one of the same name.
    pub fn add_segment(&mut self, name: String, data: Bytes)
        requires
            old(self).wf(),
            old(self)@.total_size - old(self)@.segment_size(name@) + bytes_of(data).len()
                <= usize::MAX,
        ensures
            final(self).wf(),
            exists|now: Timestamp|
                final(self)@ == #[trigger] old(self)@.with_segment(name@, bytes_of(data), now),
    {
        self.add_segment_at(name, data, Timestamp::now());
    }

    /// Adds a segment at `now`, in place of one of the same name.
    pub fn add_segment_at(&mut self, name: String, data: Bytes, now: Timestamp)
        requires
            old(self).wf(),
            old(self)@.total_size - old(self)@.segment_size(name@) + bytes_of(data).len()
                <= usize::MAX,
        ensures
            final(self).wf(),
            final(self)@ == old(self)@.with_segment(name@, bytes_of(data), now),
    {
        let ghost m = self@;
        let ghost table = self.segments@;
        proof {
            self.lemma_segments();
            assert(m.segment_size(name@) <= m.total_size);
            lemma_sum_insert(m.segments, byte_counts(), name@, bytes_of(data));
        }
        match self.segments.get(name.as_str()) {
            Some(replaced) => {
                self.total_size = self.total_size - bytes_len(replaced);
            },
            None => {},
        }
        self.total_size = self.total_size + bytes_len(&data);
        self.segments.insert(name, data);
        self.last_updated = now;
        assert(contents(table.insert(name@, data)) =~= m.segments.insert(name@, bytes_of(data)));
    }

    /// Replaces the playlist.
    pub fn update_playlist(&mut self, data: Bytes)
        requires
            old(self).wf(),
            old(self)@.total_size - size_of(old(self)@.playlist) + bytes_of(data).len() <= usize::MAX,
        ensures
            final(self).wf(),
            exists|now: Timestamp|
                final(self)@ == #[trigger] old(self)@.with_playlist(bytes_of(data), now),
    {
        self.update_playlist_at(data, Timestamp::now());
    }

    /// Replaces the playlist at `now`.
    pub fn update_playlist_at(&mut self, data: Bytes, now: Timestamp)
        requires
            old(self).wf(),
            old(self)@.total_size - size_of(old(self)@.playlist) + bytes_of(data).len() <= usize::MAX,
        ensures
            final(self).wf(),
            final(self)@ == old(self)@.with_playlist(bytes_of(data), now),
    {
        proof {
            self.lemma_segments();
        }
        match &self.playlist {
            Some(replaced) => {
                self.total_size = self.total_size - bytes_len(replaced);
            },
            None => {},
        }
        self.total_size = self.total_size + bytes_len(&data);
        self.playlist = Some(data);
        self.last_updated = now;
    }

    /// Replaces the initialisation segment.
    pub fn set_init_segment(&mut self, data: Bytes)
        requires
            old(self).wf(),
            old(self)@.total_size - size_of(old(self)@.init_segment) + bytes_of(data).len() <= usize::MAX,
        ensures
            final(self).wf(),
            exists|now: Timestamp|
                final(self)@ == #[trigger] old(self)@.with_init_segment(bytes_of(data), now),
    {
        self.set_init_segment_at(data, Timestamp::now());
    }

    /// Replaces the initialisation segment at `now`.
    pub fn set_init_segment_at(&mut self, data: Bytes, now: Timestamp)
        requires
            old(self).wf(),
            old(self)@.total_size - size_of(old(self)@.init_segment) + bytes_of(data).len() <= usize::MAX,
        ensures
            final(self).wf(),
            final(self)@ == old(self)@.with_init_segment(bytes_of(data), now),
    {
        proof {
            self.lemma_segments();
        }
        match &self.init_segment {
            Some(replaced) => {
                self.total_size = self.total_size - bytes_len(replaced);
            },
            None => {},
        }
        self.total_size = self.total_size + bytes_len(&data);
        self.init_segment = Some(data);
        self.last_updated = now;
    }

    /// The names of the segments, in order.
    fn sorted_names(&self) -> (r: Vec<String>)
        requires
            self.segments.wf(),
        ensures
            in_order::<Lexical>(texts(r@)),
            texts(r@).no_duplicates(),
            r@.len() == self.segments.rows().len(),
            forall|k: Seq<char>| texts(r@).contains(k) <==> #[trigger] self.segments@.contains_key(k),
    {
        let ghost rows = self.segments.rows();
        let mut list: Vec<String> = Vec::new();
        let mut i: usize = 0;
        while i < self.segments.len()
            invariant
                self.segments.wf(),
                rows == self.segments.rows(),
                i <= rows.len(),
                list@.len() == i,
                forall|j: int| 0 <= j < i ==> (#[trigger] list@[j])@ == rows[j].0,
            decreases rows.len() - i,
        {
            list.push(self.segments.name_at(i).to_owned());
            i = i + 1;
        }
        assert(texts(list@) =~= names(rows));
        let r = sort_texts::<Lexical>(list);
        proof {
            let ns = names(rows);
            let out = texts(r@);
            assert(ns.no_duplicates()) by {
                assert forall|a: int, b: int| 0 <= a < ns.len() && 0 <= b < ns.len() && a
                    != b implies ns[a] != ns[b] by {
                    if a < b {
                        assert(rows[a].0 != rows[b].0);
                    } else {
                        assert(rows[b].0 != rows[a].0);
                    }
                }
            }
            ns.lemma_multiset_has_no_duplicates();
            out.lemma_multiset_has_no_duplicates_conv();
            assert forall|k: Seq<char>| out.contains(k) <==> #[trigger] self.segments@.contains_key(
                k,
            ) by {
                vstd::seq_lib::to_multiset_contains(out, k);
                vstd::seq_lib::to_multiset_contains(ns, k);
                if ns.contains(k) {
                    let a = choose|a: int| 0 <= a < ns.len() && ns[a] == k;
                    assert(rows[a].0 == k);
                }
                if has_name(rows, k) {
                    assert(ns[row_of(rows, k)] == k);
                }
            }
        }
        r
    }

    /// Drops all but the `keep_count` segments whose names come last.
    pub fn cleanup_old_segments(&mut self, keep_count: usize)
        requires
            old(self).wf(),
        ensures
            final(self).wf(),
            old(self)@.cleaned_to(final(self)@, keep_count as nat),
    {
        let ghost m = self@;
        let n: usize = self.segments.len();
        proof {
            lemma_contents_len(self.segments@);
        }
        if n <= keep_count {
            return;
        }
        let ordered = self.sorted_names();
        let ghost sorted = texts(ordered@);
        let ghost table = self.segments@;
        let remove_count: usize = n - keep_count;
        let mut i: usize = 0;
        while i < remove_count
            invariant
                i <= remove_count < ordered@.len() + 1,
                remove_count == n - keep_count,
                ordered@.len() == n,
                sorted == texts(ordered@),
                sorted.no_duplicates(),
                forall|k: Seq<char>| sorted.contains(k) <==> #[trigger] table.contains_key(k),
                table == old(self).segments@,
                self.wf(),
                self.segments.rows().len() == n - i,
                forall|k: Seq<char>| #[trigger]
                    self.segments@.contains_key(k) <==> table.contains_key(k)
                        && !sorted.take(i as int).contains(k),
                forall|k: Seq<char>|
                    self.segments@.contains_key(k) ==> #[trigger] self.segments@[k] == table[k],
                m == old(self)@,
                m.total_size == m.held(),
                self@.stream_name == m.stream_name,
                self@.playlist == m.playlist,
                self@.init_segment == m.init_segment,
                self@.last_updated == m.last_updated,
                self@.total_size <= m.total_size,
            decreases remove_count - i,
        {
            let ghost before = self@;
            let ghost rest = self.segments@;
            proof {
                self.lemma_segments();
            }
            let name = &ordered[i];
            assert(sorted[i as int] == name@);
            assert(!sorted.take(i as int).contains(name@)) by {
                if sorted.take(i as int).contains(name@) {
                    let j = choose|j: int|
                        0 <= j < i && #[trigger] sorted.take(i as int)[j] == name@;
                    assert(sorted[j] == sorted[i as int]);
                }
            }
            assert(sorted.contains(name@));
            assert(table.contains_key(name@));
            let taken = self.segments.remove(name.as_str());
            match taken {
                Some(data) => {
                    proof {
                        assert(contents(rest.remove(name@)) =~= before.segments.remove(name@));
                        assert(before.segment_size(name@) <= before.total_size);
                        lemma_sum_remove(before.segments, byte_counts(), name@);
                    }
                    self.total_size = self.total_size - bytes_len(&data);
                },
                None => {},
            }
            proof {
                assert(sorted.take(i + 1) =~= sorted.take(i as int).push(name@));
                assert forall|k: Seq<char>| #[trigger]
                    self.segments@.contains_key(k) <==> table.contains_key(k) && !sorted.take(
                        i + 1,
                    ).contains(k) by {
                    if sorted.take(i + 1).contains(k) && k != name@ {
                        let j = choose|j: int|
                            0 <= j < i + 1 && #[trigger] sorted.take(i + 1)[j] == k;
                        assert(sorted.take(i as int)[j] == k);
                    }
                    if sorted.take(i as int).contains(k) {
                        let j = choose|j: int|
                            0 <= j < i && #[trigger] sorted.take(i as int)[j] == k;
                        assert(sorted.take(i + 1)[j] == k);
                    }
                    assert(sorted.take(i + 1)[i as int] == name@);
                }
            }
            i = i + 1;
        }
        proof {
            lemma_row_count(self.segments.rows());
            lemma_contents_len(self.segments@);
            assert(self@.segments.submap_of(m.segments));
            assert forall|gone: Seq<char>, kept: Seq<char>|
                m.segments.contains_key(gone) && !self@.segments.contains_key(gone)
                    && self@.segments.contains_key(kept) implies #[trigger] lex_less(gone, kept) by {
                assert(table.contains_key(gone));
                assert(self.segments@.contains_key(kept));
                assert(!self.segments@.contains_key(gone));
                assert(sorted.take(i as int).contains(gone));
                let a = choose|a: int| 0 <= a < i && #[trigger] sorted.take(i as int)[a] == gone;
                assert(sorted.contains(kept));
                let b = choose|b: int| 0 <= b < sorted.len() && sorted[b] == kept;
                if b < i {
                    assert(sorted.take(i as int)[b] == kept);
                }
                assert(up_to::<Lexical>(sorted[a], sorted[b]));
                lemma_lex_total(gone, kept);
            }
        }
    }
}

/// The models of the buffers of a map.
pub open spec fn models(m: Map<Seq<char>, StreamBuffer>) -> Map<Seq<char>, BufferModel> {
    m.map_values(|b: StreamBuffer| b@)
}

/// What `size` makes of the values of a map, added up.
pub open spec fn sum_of<V>(m: Map<Seq<char>, V>, size: spec_fn(V) -> int) -> int
    decreases m.dom().len(),
{
    if m.dom().finite() && m.dom().len() > 0 {
        let name = m.dom().choose();
        size(m[name]) + sum_of(m.remove(name), size)
    } else {
        0
    }
}

/// Gives each sequence of bytes its length.
pub open spec fn byte_counts() -> spec_fn(Seq<u8>) -> int {
    |data: Seq<u8>| data.len() as int
}

/// Gives each buffer what is accounted for in it.
pub open spec fn total_sizes() -> spec_fn(BufferModel) -> int {
    |b: BufferModel| b.total_size
}

/// The bytes accounted for in all buffers together.
pub open spec fn total_of(m: Map<Seq<char>, BufferModel>) -> int {
    sum_of(m, total_sizes())
}

/// No buffer has been updated less recently than that of `name`.
pub open spec fn least_recent(m: Map<Seq<char>, BufferModel>, name: Seq<char>) -> bool {
    &&& m.contains_key(name)
    &&& forall|other: Seq<char>| #[trigger]
        m.contains_key(other) ==> m[name].last_updated.total_nanos()
            <= m[other].last_updated.total_nanos()
}

/// The number of segments that a buffer of `count` keeps when room is made.
pub open spec fn halved(count: nat) -> nat {
    if count / 2 > 1 {
        count / 2
    } else {
        1
    }
}

/// `after` is `before` after room has been made: one of the least recently
/// updated buffers has lost the first half of its segments.
pub open spec fn room_made(
    before: Map<Seq<char>, BufferModel>,
    after: Map<Seq<char>, BufferModel>,
) -> bool {
    if before == Map::<Seq<char>, BufferModel>::empty() {
        after == before
    } else {
        exists|name: Seq<char>| #[trigger]
            least_recent(before, name) && after == before.insert(name, after[name])
                && before[name].cleaned_to(after[name], halved(before[name].segments.len()))
    }
}

/// What a store into the stream `name` answers where there is none.
pub open spec fn not_found(name: Seq<char>) -> Seq<char> {
    "Stream buffer not found: "@ + name
}

/// What [`MemoryBufferManager::get_stream_data`] gives for a buffer: its
/// files under their names, where a segment hides a file of the same name.
pub open spec fn files_of(b: BufferModel) -> Map<Seq<char>, Seq<u8>> {
    let none = Map::<Seq<char>, Seq<u8>>::empty();
    let first = match b.playlist {
        Some(data) => none.insert("playlist.m3u8"@, data),
        None => none,
    };
    let second = match b.init_segment {
        Some(data) => first.insert("init.mp4"@, data),
        None => first,
    };
    second.union_prefer_right(b.segments)
}

proof fn lemma_sum_remove<V>(m: Map<Seq<char>, V>, size: spec_fn(V) -> int, name: Seq<char>)
    requires
        m.dom().finite(),
        m.contains_key(name),
    ensures
        sum_of(m, size) == size(m[name]) + sum_of(m.remove(name), size),
    decreases m.dom().len(),
{
    assert(m.dom().len() > 0) by {
        if m.dom().len() == 0 {
            assert(m.dom() =~= Set::empty());
        }
    }
    let first = m.dom().choose();
    assert(m.dom().contains(first));
    if first != name {
        lemma_sum_remove(m.remove(first), size, name);
        lemma_sum_remove(m.remove(name), size, first);
        assert(m.remove(first).remove(name) =~= m.remove(name).remove(first));
    }
}

proof fn lemma_sum_insert<V>(
    m: Map<Seq<char>, V>,
    size: spec_fn(V) -> int,
    name: Seq<char>,
    v: V,
)
    requires
        m.dom().finite(),
    ensures
        m.contains_key(name) ==> sum_of(m.insert(name, v), size) == sum_of(m, size) - size(m[name])
            + size(v),
        !m.contains_key(name) ==> sum_of(m.insert(name, v), size) == sum_of(m, size) + size(v),
{
    let more = m.insert(name, v);
    lemma_sum_remove(more, size, name);
    if m.contains_key(name) {
        lemma_sum_remove(m, size, name);
        assert(more.remove(name) =~= m.remove(name));
    } else {
        assert(more.remove(name) =~= m);
    }
}

proof fn lemma_sum_nonneg<V>(m: Map<Seq<char>, V>, size: spec_fn(V) -> int)
    requires
        m.dom().finite(),
        forall|name: Seq<char>| #[trigger] m.contains_key(name) ==> size(m[name]) >= 0,
    ensures
        sum_of(m, size) >= 0,
    decreases m.dom().len(),
{
    if m.dom().len() > 0 {
        let name = m.dom().choose();
        assert(m.contains_key(name));
        assert forall|other: Seq<char>| #[trigger] m.remove(name).contains_key(other) implies size(
            m.remove(name)[other],
        ) >= 0 by {
            assert(m.contains_key(other));
        }
        lemma_sum_nonneg(m.remove(name), size);
    }
}

/// The bytes accounted for in the rows.
spec fn rows_total(rows: Seq<(Seq<char>, StreamBuffer)>) -> int
    decreases rows.len(),
{
    if rows.len() == 0 {
        0
    } else {
        rows_total(rows.drop_last()) + rows.last().1@.total_size
    }
}

proof fn lemma_rows_total(rows: Seq<(Seq<char>, StreamBuffer)>)
    requires
        distinct(rows),
    ensures
        rows_total(rows) == total_of(models(as_map(rows))),
    decreases rows.len(),
{
    lemma_row_count(rows);
    let m = models(as_map(rows));
    assert(m.dom() =~= as_map(rows).dom());
    if rows.len() > 0 {
        let less = rows.drop_last();
        let at = rows.len() - 1;
        let name = rows[at].0;
        lemma_rows_total(less);
        lemma_row_value(rows, at);
        lemma_sum_remove(m, total_sizes(), name);
        assert(m.remove(name) =~= models(as_map(less))) by {
            assert forall|k: Seq<char>| m.remove(name).contains_key(k) == models(
                as_map(less),
            ).contains_key(k) by {
                if has_name(rows, k) && k != name {
                    assert(less[row_of(rows, k)].0 == k);
                }
                if has_name(less, k) {
                    let i = row_of(less, k);
                    assert(rows[i].0 == k);
                    assert(rows[i].0 != rows[at].0);
                }
            }
            assert forall|k: Seq<char>| #[trigger] models(as_map(less)).contains_key(
                k,
            ) implies models(as_map(less))[k] == m.remove(name)[k] by {
                let i = row_of(less, k);
                assert(less[i].0 == k);
                assert(rows[i].0 == k);
                lemma_row_value(less, i);
                lemma_row_value(rows, i);
            }
        }
    }
}

proof fn lemma_rows_total_step(rows: Seq<(Seq<char>, StreamBuffer)>, i: int)
    requires
        0 <= i < rows.len(),
        forall|j: int| 0 <= j < rows.len() ==> (#[trigger] rows[j]).1@.total_size >= 0,
    ensures
        rows_total(rows.take(i + 1)) == rows_total(rows.take(i)) + rows[i].1@.total_size,
        rows_total(rows.take(i + 1)) <= rows_total(rows),
    decreases rows.len() - i,
{
    assert(rows.take(i + 1).drop_last() =~= rows.take(i));
    if i + 1 < rows.len() {
        lemma_rows_total_step(rows, i + 1);
    } else {
        assert(rows.take(i + 1) =~= rows);
    }
}

/// What a [`MemoryBufferManager`] holds.
#[verifier::ext_equal]
pub struct BufferManagerModel {
    pub buffers: Map<Seq<char>, BufferModel>,
    pub max_buffer_size: int,
    pub max_segments_per_stream: nat,
}

impl BufferManagerModel {
    /// The manager with other buffers.
    pub open spec fn with_buffers(self, buffers: Map<Seq<char>, BufferModel>) -> BufferManagerModel {
        BufferManagerModel { buffers, ..self }
    }

    /// `len` more bytes would not fit the budget.
    pub open spec fn over_budget(self, len: nat) -> bool {
        total_of(self.buffers) + len > self.max_buffer_size
    }

    /// `ready` is what there is to store `len` more bytes into.
    pub open spec fn ready_for(self, len: nat, ready: Map<Seq<char>, BufferModel>) -> bool {
        if self.over_budget(len) {
            room_made(self.buffers, ready)
        } else {
            ready == self.buffers
        }
    }

    /// `after` is the manager after a segment of the stream `stream` has been
    /// stored at `now` into `ready`.
    pub open spec fn segment_stored(
        self,
        ready: Map<Seq<char>, BufferModel>,
        after: BufferManagerModel,
        stream: Seq<char>,
        name: Seq<char>,
        data: Seq<u8>,
        now: Timestamp,
    ) -> bool {
        &&& self.ready_for(data.len(), ready)
        &&& if ready.contains_key(stream) {
            &&& after == self.with_buffers(ready.insert(stream, after.buffers[stream]))
            &&& ready[stream].with_segment(name, data, now).cleaned_to(
                after.buffers[stream],
                self.max_segments_per_stream,
            )
        } else {
            after == self.with_buffers(ready)
        }
    }
}

/// The streams in memory, within a budget.
pub struct MemoryBufferManager {
    buffers: Table<StreamBuffer>,
    max_buffer_size: usize,
    max_segments_per_stream: usize,
}

impl View for MemoryBufferManager {
    type V = BufferManagerModel;

    closed spec fn view(&self) -> BufferManagerModel {
        BufferManagerModel {
            buffers: models(self.buffers@),
            max_buffer_size: self.max_buffer_size as int,
            max_segments_per_stream: self.max_segments_per_stream as nat,
        }
    }
}

impl MemoryBufferManager {
    /// Stream names are distinct, and every buffer is well formed.
    pub closed spec fn wf(self) -> bool {
        &&& self.buffers.wf()
        &&& forall|i: int|
            0 <= i < self.buffers.rows().len() ==> (#[trigger] self.buffers.rows()[i]).1.wf()
    }

    proof fn lemma_buffer_wf(self, name: Seq<char>)
        requires
            self.wf(),
            self@.buffers.contains_key(name),
        ensures
            self.buffers@[name].wf(),
            self@.buffers[name].total_size >= 0,
    {
        let rows = self.buffers.rows();
        assert(has_name(rows, name));
        let i = row_of(rows, name);
        lemma_row_value(rows, i);
        assert(rows[i].1.wf());
    }

    proof fn lemma_finite(self)
        requires
            self.wf(),
        ensures
            self@.buffers.dom().finite(),
            self@.buffers.dom() == self.buffers@.dom(),
            self@.buffers.len() == self.buffers.rows().len(),
    {
        lemma_row_count(self.buffers.rows());
        assert(self@.buffers.dom() =~= self.buffers@.dom());
    }

    proof fn lemma_room_for_one(self, name: Seq<char>)
        requires
            self.wf(),
            self@.buffers.contains_key(name),
        ensures
            self@.buffers[name].total_size <= total_of(self@.buffers),
    {
        let m = self@.buffers;
        self.lemma_finite();
        lemma_sum_remove(m, total_sizes(), name);
        assert forall|other: Seq<char>| #[trigger] m.remove(name).contains_key(other) implies m.remove(
            name,
        )[other].total_size >= 0 by {
            assert(m.contains_key(other));
            self.lemma_buffer_wf(other);
        }
        lemma_sum_nonneg(m.remove(name), total_sizes());
    }

    /// What is accounted for in each buffer are the bytes that are there.
    pub proof fn law_usage_is_what_is_held(self, name: Seq<char>)
        requires
            self.wf(),
            self@.buffers.contains_key(name),
        ensures
            self@.buffers[name].total_size == self@.buffers[name].held(),
    {
        self.lemma_buffer_wf(name);
    }

    /// A manager of no streams, with a budget in mebibytes.
    pub fn new(max_buffer_size_mb: usize, max_segments_per_stream: usize) -> (r: Self)
        requires
            max_buffer_size_mb * 1048576 <= usize::MAX,
        ensures
            r.wf(),
            r@ == (BufferManagerModel {
                buffers: Map::empty(),
                max_buffer_size: max_buffer_size_mb * 1048576,
                max_segments_per_stream: max_segments_per_stream as nat,
            }),
    {
        let r = MemoryBufferManager {
            buffers: Table::new(),
            max_buffer_size: max_buffer_size_mb * 1048576,
            max_segments_per_stream,
        };
        assert(r@.buffers =~= Map::<Seq<char>, BufferModel>::empty());
        r
    }

    /// Adds a stream with nothing in it.
    pub fn create_stream(&mut self, stream_name: String) -> (r: Result<(), String>)
        requires
            old(self).wf(),
        ensures
            final(self).wf(),
            r is Ok,
            exists|now: Timestamp|
                final(self)@ == old(self)@.with_buffers(
                    old(self)@.buffers.insert(
                        stream_name@,
                        #[trigger] BufferModel::fresh(stream_name@, now),
                    ),
                ),
    {
        self.create_stream_at(stream_name, Timestamp::now());
        Ok(())
    }

    /// Adds a stream with nothing in it, at `now`.
    pub fn create_stream_at(&mut self, stream_name: String, now: Timestamp)
        requires
            old(self).wf(),
        ensures
            final(self).wf(),
            final(self)@ == old(self)@.with_buffers(
                old(self)@.buffers.insert(stream_name@, BufferModel::fresh(stream_name@, now)),
            ),
    {
        let ghost before = *self;
        let ghost rows = self.buffers.rows();
        let fresh = StreamBuffer::new_at(stream_name.clone(), now);
        let ghost name = stream_name@;
        self.buffers.insert(stream_name, fresh);
        proof {
            assert(self@.buffers =~= before@.buffers.insert(name, fresh@));
            if has_name(rows, name) {
                let at = row_of(rows, name);
                assert(self.buffers.rows() == rows.update(at, (name, fresh)));
            }
            assert forall|i: int| 0 <= i < self.buffers.rows().len() implies (
            #[trigger] self.buffers.rows()[i]).1.wf() by {
                if i < rows.len() {
                    assert(rows[i].1.wf());
                }
            }
        }
    }

    /// The bytes accounted for in all buffers together, where they can be
    /// counted.
    fn get_total_size(&self) -> (r: Option<usize>)
        requires
            self.wf(),
        ensures
            match r {
                Some(total) => total == total_of(self@.buffers),
                None => total_of(self@.buffers) > usize::MAX,
            },
    {
        let ghost rows = self.buffers.rows();
        proof {
            lemma_rows_total(rows);
            assert(rows_total(rows.take(0)) == 0);
        }
        let mut sum: usize = 0;
        let mut i: usize = 0;
        while i < self.buffers.len()
            invariant
                self.wf(),
                rows == self.buffers.rows(),
                rows_total(rows) == total_of(self@.buffers),
                i <= rows.len(),
                sum == rows_total(rows.take(i as int)),
            decreases rows.len() - i,
        {
            proof {
                assert forall|j: int| 0 <= j < rows.len() implies (#[trigger] rows[j]).1@.total_size
                    >= 0 by {
                    assert(rows[j].1.wf());
                }
                lemma_rows_total_step(rows, i as int);
            }
            let more: usize = self.buffers.value_at(i).total_size;
            if more > usize::MAX - sum {
                return None;
            }
            sum = sum + more;
            i = i + 1;
        }
        assert(rows.take(i as int) =~= rows);
        Some(sum)
    }

    /// Whether `len` more bytes can be counted.
    pub fn can_count(&self, len: usize) -> (r: bool)
        requires
            self.wf(),
        ensures
            r == (total_of(self@.buffers) + len <= usize::MAX),
    {
        match self.get_total_size() {
            Some(total) => len <= usize::MAX - total,
            None => false,
        }
    }

    /// The index of a least recently updated buffer.
    fn oldest(&self) -> (r: Option<usize>)
        requires
            self.wf(),
        ensures
            match r {
                Some(at) => {
                    &&& at < self.buffers.rows().len()
                    &&& least_recent(self@.buffers, self.buffers.rows()[at as int].0)
                },
                None => self.buffers.rows().len() == 0,
            },
    {
        let ghost rows = self.buffers.rows();
        if self.buffers.len() == 0 {
            return None;
        }
        let mut at: usize = 0;
        let mut i: usize = 1;
        while i < self.buffers.len()
            invariant
                self.wf(),
                rows == self.buffers.rows(),
                at < i <= rows.len(),
                forall|j: int|
                    0 <= j < i ==> rows[at as int].1.last_updated.total_nanos() <= (
                    #[trigger] rows[j]).1.last_updated.total_nanos(),
            decreases rows.len() - i,
        {
            if self.buffers.value_at(i).last_updated.is_before(
                &self.buffers.value_at(at).last_updated,
            ) {
                at = i;
            }
            i = i + 1;
        }
        proof {
            let m = self@.buffers;
            let name = rows[at as int].0;
            lemma_row_value(rows, at as int);
            assert forall|other: Seq<char>| #[trigger] m.contains_key(
                other,
            ) implies m[name].last_updated.total_nanos() <= m[other].last_updated.total_nanos() by {
                assert(has_name(rows, other));
                let j = row_of(rows, other);
                lemma_row_value(rows, j);
                assert(rows[at as int].1.last_updated.total_nanos()
                    <= rows[j].1.last_updated.total_nanos());
            }
        }
        Some(at)
    }

    /// Drops the first half of the segments of a least recently updated stream.
    fn cleanup_oldest_segments(&mut self)
        requires
            old(self).wf(),
        ensures
            final(self).wf(),
            final(self)@ == old(self)@.with_buffers(final(self)@.buffers),
            final(self)@.buffers.dom() == old(self)@.buffers.dom(),
            total_of(final(self)@.buffers) <= total_of(old(self)@.buffers),
            room_made(old(self)@.buffers, final(self)@.buffers),
    {
        let ghost before = *self;
        let ghost rows = self.buffers.rows();
        proof {
            self.lemma_finite();
        }
        match self.oldest() {
            Some(at) => {
                let ghost name = rows[at as int].0;
                proof {
                    lemma_row_value(rows, at as int);
                    assert(rows[at as int].1.wf());
                    lemma_contents_len(rows[at as int].1.segments@);
                }
                let buffer = self.buffers.value_at_mut(at);
                let count: usize = buffer.segments.len();
                let keep: usize = if count / 2 > 1 {
                    count / 2
                } else {
                    1
                };
                buffer.cleanup_old_segments(keep);
                proof {
                    let m = before@.buffers;
                    let cleaned = self.buffers.rows()[at as int].1;
                    assert(self@.buffers =~= m.insert(name, cleaned@));
                    assert(m[name] == rows[at as int].1@);
                    assert(least_recent(m, name));
                    assert(m.contains_key(name));
                    assert(self@.buffers.dom() =~= m.dom());
                    lemma_sum_insert(m, total_sizes(), name, cleaned@);
                    assert forall|i: int| 0 <= i < self.buffers.rows().len() implies (
                    #[trigger] self.buffers.rows()[i]).1.wf() by {
                        assert(rows[i].1.wf());
                    }
                }
            },
            None => {
                assert(self@.buffers =~= Map::<Seq<char>, BufferModel>::empty()) by {
                    assert forall|k: Seq<char>| !self@.buffers.contains_key(k) by {
                        assert(!has_name(rows, k));
                    }
                }
            },
        }
    }

    /// The index of the buffer of a stream, with what is known of it.
    fn find(&self, stream_name: &str) -> (r: Option<usize>)
        requires
            self.wf(),
        ensures
            match r {
                Some(at) => {
                    &&& at < self.buffers.rows().len()
                    &&& self.buffers.rows()[at as int].0 == stream_name@
                    &&& self.buffers.rows()[at as int].1.wf()
                    &&& self@.buffers.contains_key(stream_name@)
                    &&& self.buffers.rows()[at as int].1@ == self@.buffers[stream_name@]
                },
                None => !self@.buffers.contains_key(stream_name@),
            },
    {
        let r = self.buffers.position(stream_name);
        proof {
            match r {
                Some(at) => {
                    lemma_row_value(self.buffers.rows(), at as int);
                },
                None => {},
            }
        }
        r
    }

    /// Stores a segment. Where it would not fit the budget, room is made
    /// first, also where there is no such stream.
    pub fn store_segment(&mut self, stream_name: &str, segment_name: &str, data: Vec<u8>) -> (r:
        Result<(), String>)
        requires
            old(self).wf(),
            total_of(old(self)@.buffers) + data@.len() <= usize::MAX,
        ensures
            final(self).wf(),
            match r {
                Ok(_) => old(self)@.buffers.contains_key(stream_name@),
                Err(error) => !old(self)@.buffers.contains_key(stream_name@) && error@ == not_found(
                    stream_name@,
                ),
            },
            exists|ready: Map<Seq<char>, BufferModel>, now: Timestamp| #[trigger]
                old(self)@.segment_stored(
                    ready,
                    final(self)@,
                    stream_name@,
                    segment_name@,
                    data@,
                    now,
                ),
    {
        self.store_segment_at(stream_name, segment_name, data, Timestamp::now())
    }

    /// Stores a segment at `now`. Where it would not fit the budget, room is
    /// made first, also where there is no such stream.
    pub fn store_segment_at(
        &mut self,
        stream_name: &str,
        segment_name: &str,
        data: Vec<u8>,
        now: Timestamp,
    ) -> (r: Result<(), String>)
        requires
            old(self).wf(),
            total_of(old(self)@.buffers) + data@.len() <= usize::MAX,
        ensures
            final(self).wf(),
            match r {
                Ok(_) => old(self)@.buffers.contains_key(stream_name@),
                Err(error) => !old(self)@.buffers.contains_key(stream_name@) && error@ == not_found(
                    stream_name@,
                ),
            },
            exists|ready: Map<Seq<char>, BufferModel>| #[trigger]
                old(self)@.segment_stored(
                    ready,
                    final(self)@,
                    stream_name@,
                    segment_name@,
                    data@,
                    now,
                ),
    {
        let ghost first = self@;
        let total_size: usize = self.get_total_size().unwrap();
        if total_size + data.len() > self.max_buffer_size {
            self.cleanup_oldest_segments();
        }
        let ghost ready = self@.buffers;
        let ghost rows = self.buffers.rows();
        assert(first.ready_for(data@.len(), ready));
        assert(self@ == first.with_buffers(ready));
        match self.find(stream_name) {
            Some(at) => {
                proof {
                    self.lemma_room_for_one(stream_name@);
                }
                let keep: usize = self.max_segments_per_stream;
                let buffer = self.buffers.value_at_mut(at);
                buffer.add_segment_at(segment_name.to_owned(), bytes_from_vec(data), now);
                buffer.cleanup_old_segments(keep);
                proof {
                    let stored = self.buffers.rows()[at as int].1;
                    assert(self@.buffers =~= ready.insert(stream_name@, stored@));
                    assert(self@ =~= first.with_buffers(
                        ready.insert(stream_name@, self@.buffers[stream_name@]),
                    ));
                    assert forall|i: int| 0 <= i < self.buffers.rows().len() implies (
                    #[trigger] self.buffers.rows()[i]).1.wf() by {
                        assert(rows[i].1.wf());
                    }
                    assert(first.segment_stored(
                        ready,
                        self@,
                        stream_name@,
                        segment_name@,
                        data@,
                        now,
                    ));
                }
                Ok(())
            },
            None => {
                assert(first.segment_stored(
                    ready,
                    self@,
                    stream_name@,
                    segment_name@,
                    data@,
                    now,
                ));
                Err(missing(stream_name))
            },
        }
    }

    /// Stores a playlist.
    pub fn store_playlist(&mut self, stream_name: &str, data: Vec<u8>) -> (r: Result<(), String>)
        requires
            old(self).wf(),
            old(self)@.buffers.contains_key(stream_name@) ==> old(
                self,
            )@.buffers[stream_name@].total_size - size_of(
                old(self)@.buffers[stream_name@].playlist,
            ) + data@.len() <= usize::MAX,
        ensures
            final(self).wf(),
            match r {
                Ok(_) => {
                    &&& old(self)@.buffers.contains_key(stream_name@)
                    &&& exists|now: Timestamp|
                        final(self)@ == old(self)@.with_buffers(
                            old(self)@.buffers.insert(
                                stream_name@,
                                #[trigger] old(self)@.buffers[stream_name@].with_playlist(
                                    data@,
                                    now,
                                ),
                            ),
                        )
                },
                Err(error) => {
                    &&& !old(self)@.buffers.contains_key(stream_name@)
                    &&& error@ == not_found(stream_name@)
                    &&& final(self)@ == old(self)@
                },
            },
    {
        self.store_playlist_at(stream_name, data, Timestamp::now())
    }

    /// Stores a playlist at `now`.
    pub fn store_playlist_at(&mut self, stream_name: &str, data: Vec<u8>, now: Timestamp) -> (r:
        Result<(), String>)
        requires
            old(self).wf(),
            old(self)@.buffers.contains_key(stream_name@) ==> old(
                self,
            )@.buffers[stream_name@].total_size - size_of(
                old(self)@.buffers[stream_name@].playlist,
            ) + data@.len() <= usize::MAX,
        ensures
            final(self).wf(),
            match r {
                Ok(_) => {
                    &&& old(self)@.buffers.contains_key(stream_name@)
                    &&& final(self)@ == old(self)@.with_buffers(
                        old(self)@.buffers.insert(
                            stream_name@,
                            old(self)@.buffers[stream_name@].with_playlist(data@, now),
                        ),
                    )
                },
                Err(error) => {
                    &&& !old(self)@.buffers.contains_key(stream_name@)
                    &&& error@ == not_found(stream_name@)
                    &&& final(self)@ == old(self)@
                },
            },
    {
        let ghost first = self@;
        let ghost rows = self.buffers.rows();
        match self.find(stream_name) {
            Some(at) => {
                let buffer = self.buffers.value_at_mut(at);
                buffer.update_playlist_at(bytes_from_vec(data), now);
                proof {
                    let stored = self.buffers.rows()[at as int].1;
                    assert(self@.buffers =~= first.buffers.insert(stream_name@, stored@));
                    assert forall|i: int| 0 <= i < self.buffers.rows().len() implies (
                    #[trigger] self.buffers.rows()[i]).1.wf() by {
                        assert(rows[i].1.wf());
                    }
                }
                Ok(())
            },
            None => Err(missing(stream_name)),
        }
    }

    /// Stores an initialisation segment.
    pub fn store_init_segment(&mut self, stream_name: &str, data: Vec<u8>) -> (r: Result<
        (),
        String,
    >)
        requires
            old(self).wf(),
            old(self)@.buffers.contains_key(stream_name@) ==> old(
                self,
            )@.buffers[stream_name@].total_size - size_of(
                old(self)@.buffers[stream_name@].init_segment,
            ) + data@.len() <= usize::MAX,
        ensures
            final(self).wf(),
            match r {
                Ok(_) => {
                    &&& old(self)@.buffers.contains_key(stream_name@)
                    &&& exists|now: Timestamp|
                        final(self)@ == old(self)@.with_buffers(
                            old(self)@.buffers.insert(
                                stream_name@,
                                #[trigger] old(self)@.buffers[stream_name@].with_init_segment(
                                    data@,
                                    now,
                                ),
                            ),
                        )
                },
                Err(error) => {
                    &&& !old(self)@.buffers.contains_key(stream_name@)
                    &&& error@ == not_found(stream_name@)
                    &&& final(self)@ == old(self)@
                },
            },
    {
        self.store_init_segment_at(stream_name, data, Timestamp::now())
    }

    /// Stores an initialisation segment at `now`.
    pub fn store_init_segment_at(
        &mut self,
        stream_name: &str,
        data: Vec<u8>,
        now: Timestamp,
    ) -> (r: Result<(), String>)
        requires
            old(self).wf(),
            old(self)@.buffers.contains_key(stream_name@) ==> old(
                self,
            )@.buffers[stream_name@].total_size - size_of(
                old(self)@.buffers[stream_name@].init_segment,
            ) + data@.len() <= usize::MAX,
        ensures
            final(self).wf(),
            match r {
                Ok(_) => {
                    &&& old(self)@.buffers.contains_key(stream_name@)
                    &&& final(self)@ == old(self)@.with_buffers(
                        old(self)@.buffers.insert(
                            stream_name@,
                            old(self)@.buffers[stream_name@].with_init_segment(data@, now),
                        ),
                    )
                },
                Err(error) => {
                    &&& !old(self)@.buffers.contains_key(stream_name@)
                    &&& error@ == not_found(stream_name@)
                    &&& final(self)@ == old(self)@
                },
            },
    {
        let ghost first = self@;
        let ghost rows = self.buffers.rows();
        match self.find(stream_name) {
            Some(at) => {
                let buffer = self.buffers.value_at_mut(at);
                buffer.set_init_segment_at(bytes_from_vec(data), now);
                proof {
                    let stored = self.buffers.rows()[at as int].1;
                    assert(self@.buffers =~= first.buffers.insert(stream_name@, stored@));
                    assert forall|i: int| 0 <= i < self.buffers.rows().len() implies (
                    #[trigger] self.buffers.rows()[i]).1.wf() by {
                        assert(rows[i].1.wf());
                    }
                }
                Ok(())
            },
            None => Err(missing(stream_name)),
        }
    }

    /// All files of a stream, under their names.
    pub fn get_stream_data(&self, stream_name: &str) -> (r: Option<Table<Vec<u8>>>)
        requires
            self.wf(),
        ensures
            match r {
                Some(files) => {
                    &&& files.wf()
                    &&& self@.buffers.contains_key(stream_name@)
                    &&& vectors(files@) == files_of(self@.buffers[stream_name@])
                },
                None => !self@.buffers.contains_key(stream_name@),
            },
    {
        match self.find(stream_name) {
            Some(at) => {
                let buffer = self.buffers.value_at(at);
                let mut files: Table<Vec<u8>> = Table::new();
                let ghost none = Map::<Seq<char>, Seq<u8>>::empty();
                assert(vectors(files@) =~= none);
                match &buffer.playlist {
                    Some(data) => {
                        insert_file(&mut files, "playlist.m3u8", bytes_to_vec(data));
                    },
                    None => {},
                }
                match &buffer.init_segment {
                    Some(data) => {
                        insert_file(&mut files, "init.mp4", bytes_to_vec(data));
                    },
                    None => {},
                }
                let ghost head = vectors(files@);
                let ghost rows = buffer.segments.rows();
                let mut i: usize = 0;
                assert(head =~= head.union_prefer_right(contents(as_map(rows.take(0)))));
                while i < buffer.segments.len()
                    invariant
                        files.wf(),
                        buffer.segments.wf(),
                        rows == buffer.segments.rows(),
                        i <= rows.len(),
                        vectors(files@) == head.union_prefer_right(
                            contents(as_map(rows.take(i as int))),
                        ),
                    decreases rows.len() - i,
                {
                    proof {
                        lemma_take_one(rows, i as int);
                    }
                    insert_file(
                        &mut files,
                        buffer.segments.name_at(i),
                        bytes_to_vec(buffer.segments.value_at(i)),
                    );
                    assert(vectors(files@) =~= head.union_prefer_right(
                        contents(as_map(rows.take(i + 1))),
                    ));
                    i = i + 1;
                }
                assert(rows.take(i as int) =~= rows);
                Some(files)
            },
            None => None,
        }
    }

    /// A segment of a stream.
    pub fn get_segment(&self, stream_name: &str, segment_name: &str) -> (r: Option<Bytes>)
        requires
            self.wf(),
        ensures
            match r {
                Some(data) => {
                    &&& self@.buffers.contains_key(stream_name@)
                    &&& self@.buffers[stream_name@].segments.contains_key(segment_name@)
                    &&& bytes_of(data) == self@.buffers[stream_name@].segments[segment_name@]
                },
                None => !self@.buffers.contains_key(stream_name@)
                    || !self@.buffers[stream_name@].segments.contains_key(segment_name@),
            },
    {
        match self.find(stream_name) {
            Some(at) => match self.buffers.value_at(at).segments.get(segment_name) {
                Some(data) => Some(bytes_clone(data)),
                None => None,
            },
            None => None,
        }
    }

    /// The playlist of a stream.
    pub fn get_playlist(&self, stream_name: &str) -> (r: Option<Bytes>)
        requires
            self.wf(),
        ensures
            content_of(r) == (if self@.buffers.contains_key(stream_name@) {
                self@.buffers[stream_name@].playlist
            } else {
                None
            }),
    {
        match self.find(stream_name) {
            Some(at) => match &self.buffers.value_at(at).playlist {
                Some(data) => Some(bytes_clone(data)),
                None => None,
            },
            None => None,
        }
    }

    /// Forgets a stream.
    pub fn remove_stream(&mut self, stream_name: &str) -> (r: Result<(), String>)
        requires
            old(self).wf(),
        ensures
            final(self).wf(),
            r is Ok,
            final(self)@ == old(self)@.with_buffers(old(self)@.buffers.remove(stream_name@)),
    {
        let ghost first = self@;
        let ghost rows = self.buffers.rows();
        let gone = self.buffers.remove(stream_name);
        proof {
            assert(self@.buffers =~= first.buffers.remove(stream_name@));
            assert forall|i: int| 0 <= i < self.buffers.rows().len() implies (
            #[trigger] self.buffers.rows()[i]).1.wf() by {
                if gone is Some {
                    let at = choose|at: int|
                        0 <= at < rows.len() && rows[at] == (stream_name@, gone->0)
                            && self.buffers.rows() == #[trigger] rows.remove(at);
                    if i < at {
                        assert(rows[i].1.wf());
                    } else {
                        assert(rows[i + 1].1.wf());
                    }
                }
            }
        }
        Ok(())
    }

    /// For each stream the number of its segments and the bytes accounted for.
    pub fn get_stats(&self) -> (r: Table<(usize, usize)>)
        requires
            self.wf(),
        ensures
            r.wf(),
            r@.dom() == self@.buffers.dom(),
            forall|name: Seq<char>| #[trigger]
                self@.buffers.contains_key(name) ==> {
                    &&& r@[name].0 == self@.buffers[name].segments.len()
                    &&& r@[name].1 == self@.buffers[name].total_size
                },
    {
        let ghost rows = self.buffers.rows();
        let mut stats: Table<(usize, usize)> = Table::new();
        let mut i: usize = 0;
        while i < self.buffers.len()
            invariant
                self.wf(),
                stats.wf(),
                rows == self.buffers.rows(),
                i <= rows.len(),
                forall|name: Seq<char>| #[trigger]
                    stats@.contains_key(name) <==> has_name(rows.take(i as int), name),
                forall|j: int|
                    0 <= j < i ==> {
                        &&& stats@[(#[trigger] rows[j]).0].0 == rows[j].1@.segments.len()
                        &&& stats@[rows[j].0].1 == rows[j].1.total_size
                    },
            decreases rows.len() - i,
        {
            let buffer = self.buffers.value_at(i);
            let ghost before = stats@;
            proof {
                assert(rows[i as int].1.wf());
                lemma_contents_len(buffer.segments@);
            }
            stats.insert(
                self.buffers.name_at(i).to_owned(),
                (buffer.segments.len(), buffer.total_size),
            );
            proof {
                let name = rows[i as int].0;
                let now = rows.take(i as int);
                let next = rows.take(i + 1);
                assert forall|k: Seq<char>| #[trigger] stats@.contains_key(k) <==> has_name(
                    next,
                    k,
                ) by {
                    if has_name(now, k) {
                        assert(next[row_of(now, k)].0 == k);
                    }
                    if has_name(next, k) && k != name {
                        assert(now[row_of(next, k)].0 == k);
                    }
                    assert(next[i as int].0 == name);
                    assert(before.contains_key(k) <==> has_name(now, k));
                }
                assert forall|j: int| 0 <= j < i + 1 implies {
                    &&& stats@[(#[trigger] rows[j]).0].0 == rows[j].1@.segments.len()
                    &&& stats@[rows[j].0].1 == rows[j].1.total_size
                } by {
                    if j < i {
                        assert(rows[j].0 != rows[i as int].0);
                    }
                }
            }
            i = i + 1;
        }
        proof {
            assert(rows.take(i as int) =~= rows);
            assert(stats@.dom() =~= self@.buffers.dom()) by {
                assert forall|k: Seq<char>| stats@.contains_key(k) == self@.buffers.contains_key(
                    k,
                ) by {}
            }
            assert forall|name: Seq<char>| #[trigger] self@.buffers.contains_key(name) implies {
                &&& stats@[name].0 == self@.buffers[name].segments.len()
                &&& stats@[name].1 == self@.buffers[name].total_size
            } by {
                let at = row_of(rows, name);
                assert(has_name(rows, name));
                lemma_row_value(rows, at);
                assert(rows[at].0 == name);
            }
        }
        stats
    }

    /// The bytes accounted for, and the budget.
    pub fn get_memory_usage(&self) -> (r: (usize, usize))
        requires
            self.wf(),
            total_of(self@.buffers) <= usize::MAX,
        ensures
            r.0 == total_of(self@.buffers),
            r.1 == self@.max_buffer_size,
    {
        (self.get_total_size().unwrap(), self.max_buffer_size)
    }
}

/// The contents of the vectors of a map.
pub open spec fn vectors(m: Map<Seq<char>, Vec<u8>>) -> Map<Seq<char>, Seq<u8>> {
    m.map_values(|v: Vec<u8>| v@)
}

fn insert_file(files: &mut Table<Vec<u8>>, name: &str, data: Vec<u8>)
    requires
        old(files).wf(),
    ensures
        final(files).wf(),
        vectors(final(files)@) == vectors(old(files)@).insert(name@, data@),
{
    let ghost before = files@;
    files.insert(name.to_owned(), data);
    assert(vectors(files@) =~= vectors(before).insert(name@, data@));
}

fn missing(stream_name: &str) -> (r: String)
    ensures
        r@ == not_found(stream_name@),
{
    writer::join2("Stream buffer not found: ", stream_name)
}

proof fn lemma_take_one(rows: Seq<(Seq<char>, Bytes)>, i: int)
    requires
        distinct(rows),
        0 <= i < rows.len(),
    ensures
        contents(as_map(rows.take(i + 1))) == contents(as_map(rows.take(i))).insert(
            rows[i].0,
            bytes_of(rows[i].1),
        ),
{
    let now = rows.take(i);
    let next = rows.take(i + 1);
    let name = rows[i].0;
    assert(distinct(now)) by {
        assert forall|a: int, b: int| 0 <= a < b < now.len() implies #[trigger] now[a].0
            != #[trigger] now[b].0 by {
            assert(rows[a].0 != rows[b].0);
        }
    }
    assert(distinct(next)) by {
        assert forall|a: int, b: int| 0 <= a < b < next.len() implies #[trigger] next[a].0
            != #[trigger] next[b].0 by {
            assert(rows[a].0 != rows[b].0);
        }
    }
    assert forall|k: Seq<char>| has_name(next, k) == (has_name(now, k) || k == name) by {
        if has_name(now, k) {
            assert(next[row_of(now, k)].0 == k);
        }
        if has_name(next, k) && k != name {
            assert(now[row_of(next, k)].0 == k);
        }
        assert(next[i].0 == name);
    }
    assert forall|k: Seq<char>| has_name(next, k) implies #[trigger] contents(as_map(next))[k]
        == contents(as_map(now)).insert(name, bytes_of(rows[i].1))[k] by {
        if k == name {
            lemma_row_value(next, i);
        } else {
            let at = row_of(now, k);
            assert(has_name(now, k));
            lemma_row_value(now, at);
            assert(next[at].0 == k);
            lemma_row_value(next, at);
        }
    }
    assert(contents(as_map(next)) =~= contents(as_map(now)).insert(name, bytes_of(rows[i].1)));
}

/// A stream never keeps more segments than its manager allows: whatever is
/// stored, at most `max_segments_per_stream` segments of the stream stay.
pub proof fn law_segments_are_bounded(
    before: BufferManagerModel,
    ready: Map<Seq<char>, BufferModel>,
    after: BufferManagerModel,
    stream: Seq<char>,
    name: Seq<char>,
    data: Seq<u8>,
    now: Timestamp,
)
    requires
        ready.contains_key(stream),
        before.segment_stored(ready, after, stream, name, data, now),
    ensures
        after.buffers[stream].segments.len() <= after.max_segments_per_stream,
{
}

/// What is read of a segment is what was last stored under its name. A segment
/// that is stored is there afterwards unless there are too many and its name is
/// among the first in the order of texts; every other segment that is still
/// there is as before.
pub proof fn law_stored_segment_reads_back(
    before: BufferManagerModel,
    ready: Map<Seq<char>, BufferModel>,
    after: BufferManagerModel,
    stream: Seq<char>,
    name: Seq<char>,
    data: Seq<u8>,
    now: Timestamp,
)
    requires
        ready.contains_key(stream),
        before.segment_stored(ready, after, stream, name, data, now),
    ensures
        ({
            let stored = ready[stream].with_segment(name, data, now).segments;
            let kept = after.buffers[stream].segments;
            let max = before.max_segments_per_stream;
            &&& kept.contains_key(name) ==> kept[name] == data
            &&& forall|other: Seq<char>|
                other != name && #[trigger] kept.contains_key(other)
                    ==> ready[stream].segments.contains_key(other) && kept[other]
                    == ready[stream].segments[other]
            &&& stored.len() <= max ==> kept == stored
            &&& max > 0 && (forall|other: Seq<char>| #[trigger]
                stored.contains_key(other) ==> lex_le(other, name)) ==> kept.contains_key(name)
        }),
{
    let full = ready[stream].with_segment(name, data, now);
    let kept = after.buffers[stream].segments;
    assert forall|k: Seq<char>| #[trigger] kept.contains_key(k) implies full.segments.contains_key(
        k,
    ) && kept[k] == full.segments[k] by {
        assert(kept.dom().contains(k));
        if full.segments.len() > before.max_segments_per_stream {
            assert(full.segments.dom().contains(k));
        }
    }
    if before.max_segments_per_stream > 0 && (forall|other: Seq<char>| #[trigger]
        full.segments.contains_key(other) ==> lex_le(other, name)) && !kept.contains_key(name) {
        assert(full.segments.contains_key(name));
        assert(full.segments.len() > before.max_segments_per_stream);
        assert(kept.len() > 0);
        assert(exists|k: Seq<char>| kept.contains_key(k)) by {
            if forall|k: Seq<char>| !kept.contains_key(k) {
                assert(kept.dom() =~= Set::empty());
            }
        }
        let k = choose|k: Seq<char>| kept.contains_key(k);
        assert(lex_less(name, k));
        lemma_lex_total(k, name);
    }
}

/// Making room never takes the last segment of a stream, and never raises
/// what is accounted for.
pub proof fn law_room_keeps_one_segment(
    before: Map<Seq<char>, BufferModel>,
    after: Map<Seq<char>, BufferModel>,
    stream: Seq<char>,
)
    requires
        room_made(before, after),
        before.contains_key(stream),
        before[stream].segments.len() > 0,
    ensures
        after.contains_key(stream),
        after[stream].segments.len() > 0,
        after[stream].total_size <= before[stream].total_size,
{
}

/// Where the bytes that are there are accounted for, they still are after a
/// segment, the playlist or the initialisation segment has come in, in place
/// of another or not.
pub proof fn law_storing_keeps_account(
    b: BufferModel,
    name: Seq<char>,
    data: Seq<u8>,
    now: Timestamp,
)
    requires
        b.segments.dom().finite(),
        b.total_size == b.held(),
    ensures
        b.with_segment(name, data, now).total_size == b.with_segment(name, data, now).held(),
        b.with_playlist(data, now).total_size == b.with_playlist(data, now).held(),
        b.with_init_segment(data, now).total_size == b.with_init_segment(data, now).held(),
{
    lemma_sum_insert(b.segments, byte_counts(), name, data);
}

/// A segment that is replaced is no longer accounted for: it costs nothing to
/// have stored another under the name before.
pub proof fn law_replacing_costs_the_difference(
    b: BufferModel,
    name: Seq<char>,
    first: Seq<u8>,
    second: Seq<u8>,
    now: Timestamp,
)
    ensures
        b.with_segment(name, first, now).with_segment(name, second, now).total_size
            == b.with_segment(name, second, now).total_size,
        first.len() == second.len() ==> b.with_segment(name, first, now).with_segment(
            name,
            second,
            now,
        ).total_size == b.with_segment(name, first, now).total_size,
{
}

/// A buffer starts empty, for its stream.
pub proof fn law_fresh_buffer(stream_name: Seq<char>, now: Timestamp)
    ensures
        ({
            let b = BufferModel::fresh(stream_name, now);
            &&& b.stream_name == stream_name
            &&& b.segments.dom() == Set::<Seq<char>>::empty()
            &&& b.playlist is None
            &&& b.init_segment is None
            &&& b.total_size == 0
            &&& b.held() == 0
            &&& b.last_updated == now
        }),
{
    assert(BufferModel::fresh(stream_name, now).segments.dom() =~= Set::<Seq<char>>::empty());
}

/// What is stored into a buffer is what it holds then, and the moment is
/// remembered; nothing else that it holds changes.
pub proof fn law_buffer_holds_what_is_stored(
    b: BufferModel,
    name: Seq<char>,
    data: Seq<u8>,
    now: Timestamp,
    other: Seq<char>,
)
    ensures
        ({
            let a = b.with_segment(name, data, now);
            &&& a.segments.contains_pair(name, data)
            &&& other != name ==> a.segments.contains_key(other) == b.segments.contains_key(other)
            &&& other != name && b.segments.contains_key(other) ==> a.segments[other]
                == b.segments[other]
            &&& a.playlist == b.playlist && a.init_segment == b.init_segment
            &&& a.stream_name == b.stream_name && a.last_updated == now
            &&& !b.segments.contains_key(name) ==> a.total_size == b.total_size + data.len()
            &&& b.segments.contains_key(name) ==> a.total_size == b.total_size
                - b.segments[name].len() + data.len()
        }),
        ({
            let a = b.with_playlist(data, now);
            &&& a.playlist == Some(data)
            &&& a.segments == b.segments && a.init_segment == b.init_segment
            &&& a.stream_name == b.stream_name && a.last_updated == now
            &&& b.playlist is None ==> a.total_size == b.total_size + data.len()
            &&& b.playlist matches Some(p) ==> a.total_size == b.total_size - p.len() + data.len()
        }),
        ({
            let a = b.with_init_segment(data, now);
            &&& a.init_segment == Some(data)
            &&& a.segments == b.segments && a.playlist == b.playlist
            &&& a.stream_name == b.stream_name && a.last_updated == now
            &&& b.init_segment is None ==> a.total_size == b.total_size + data.len()
            &&& b.init_segment matches Some(p) ==> a.total_size == b.total_size - p.len()
                + data.len()
        }),
{
}

/// What a buffer holds counts every byte of every file in it: taking a segment
/// out lowers it by the length of that, and the playlist and the initialisation
/// segment count as much as they are long.
pub proof fn law_every_byte_is_held(b: BufferModel, name: Seq<char>)
    requires
        b.segments.dom().finite(),
        b.segments.contains_key(name),
    ensures
        b.held() == (BufferModel { segments: b.segments.remove(name), ..b }).held()
            + b.segments[name].len(),
        b.playlist matches Some(p) ==> b.held() == (BufferModel { playlist: None, ..b }).held()
            + p.len(),
        b.init_segment matches Some(p) ==> b.held() == (BufferModel {
            init_segment: None,
            ..b
        }).held() + p.len(),
{
    lemma_sum_remove(b.segments, byte_counts(), name);
}

/// Cleaning keeps as many segments as asked for, or all where there are no more:
/// those whose names come last, with their data. The playlist, the initialisation
/// segment and the moment of the last update stay.
pub proof fn law_cleaning_keeps_last_names(
    b: BufferModel,
    after: BufferModel,
    keep: nat,
    one: Seq<char>,
    two: Seq<char>,
)
    requires
        b.cleaned_to(after, keep),
        b.segments.dom().finite(),
    ensures
        after.segments.len() == (if b.segments.len() <= keep {
            b.segments.len()
        } else {
            keep
        }),
        after.segments.contains_key(one) ==> b.segments.contains_key(one) && after.segments[one]
            == b.segments[one],
        b.segments.contains_key(two) && after.segments.contains_key(one) && lex_less(one, two)
            ==> after.segments.contains_key(two),
        after.playlist == b.playlist,
        after.init_segment == b.init_segment,
        after.stream_name == b.stream_name,
        after.last_updated == b.last_updated,
        b.total_size - after.total_size == b.held() - after.held(),
{
    if after.segments.contains_key(one) && b.segments.len() > keep {
        assert(after.segments.dom().contains(one));
        assert(b.segments.dom().contains(one));
    }
    if b.segments.contains_key(two) && after.segments.contains_key(one) && lex_less(one, two)
        && !after.segments.contains_key(two) {
        assert(lex_less(two, one));
        lemma_lex_total(one, two);
    }
}

/// Room is made in one stream alone, and no stream has been updated less
/// recently than that: it keeps the last half of its segments, and at least one.
pub proof fn law_room_is_made_in_least_recent(
    before: Map<Seq<char>, BufferModel>,
    after: Map<Seq<char>, BufferModel>,
)
    requires
        room_made(before, after),
        before != Map::<Seq<char>, BufferModel>::empty(),
    ensures
        exists|name: Seq<char>|
            {
                &&& #[trigger] before.contains_key(name)
                &&& forall|other: Seq<char>| #[trigger]
                    before.contains_key(other) ==> before[name].last_updated.total_nanos()
                        <= before[other].last_updated.total_nanos()
                &&& forall|other: Seq<char>|
                    other != name && #[trigger] before.contains_key(other) ==> after.contains_key(
                        other,
                    ) && after[other] == before[other]
                &&& before[name].segments.len() >= 2 ==> before[name].cleaned_to(
                    after[name],
                    before[name].segments.len() / 2,
                )
                &&& before[name].segments.len() < 2 ==> after[name] == before[name]
            },
        after.dom() == before.dom(),
{
    let name = choose|name: Seq<char>| #[trigger]
        least_recent(before, name) && after == before.insert(name, after[name])
            && before[name].cleaned_to(after[name], halved(before[name].segments.len()));
    assert(before.contains_key(name));
    assert(after.dom() =~= before.dom());
}

/// The bytes of all streams together: another stream adds its own to those of
/// the others. The budget is overrun where what is to come does not fit beside
/// them.
pub proof fn law_budget_counts_all_streams(
    m: BufferManagerModel,
    name: Seq<char>,
    b: BufferModel,
    len: nat,
)
    requires
        m.buffers.dom().finite(),
        !m.buffers.contains_key(name),
    ensures
        total_of(Map::empty()) == 0,
        total_of(m.buffers.insert(name, b)) == total_of(m.buffers) + b.total_size,
        m.over_budget(len) <==> m.max_buffer_size - total_of(m.buffers) < len,
{
    let more = m.buffers.insert(name, b);
    lemma_sum_remove(more, total_sizes(), name);
    assert(more.remove(name) =~= m.buffers);
    assert(Map::<Seq<char>, BufferModel>::empty().dom() =~= Set::empty());
}

/// The files of a stream are its segments, each under its name, and its playlist
/// and its initialisation segment under theirs, unless a segment has that name.
pub proof fn law_files_of_stream(b: BufferModel, name: Seq<char>)
    ensures
        b.segments.contains_key(name) ==> files_of(b).contains_pair(name, b.segments[name]),
        b.playlist matches Some(p) ==> !b.segments.contains_key("playlist.m3u8"@)
            ==> files_of(b).contains_pair("playlist.m3u8"@, p),
        b.init_segment matches Some(p) ==> !b.segments.contains_key("init.mp4"@)
            ==> files_of(b).contains_pair("init.mp4"@, p),
        files_of(b).contains_key(name) ==> b.segments.contains_key(name) || (name
            == "playlist.m3u8"@ && b.playlist is Some) || (name == "init.mp4"@ && b.init_segment
            is Some),
{
    reveal_strlit("playlist.m3u8");
    reveal_strlit("init.mp4");
    assert("playlist.m3u8"@.len() != "init.mp4"@.len());
}

/// What is answered of a stream that is not there names it.
pub proof fn law_missing_stream_is_named(name: Seq<char>)
    ensures
        ({
            let n = "Stream buffer not found: "@.len() as int;
            &&& not_found(name).take(n) == "Stream buffer not found: "@
            &&& not_found(name).skip(n) == name
        }),
{
    let n = "Stream buffer not found: "@.len() as int;
    assert(not_found(name).take(n) =~= "Stream buffer not found: "@);
    assert(not_found(name).skip(n) =~= name);
}

/// Storing a segment makes room first where the budget asks for it, and only
/// then; the segment goes into its stream, which then keeps no more than it may,
/// and no stream but that and the one that made room changes.
pub proof fn law_storing_within_budget(
    before: BufferManagerModel,
    ready: Map<Seq<char>, BufferModel>,
    after: BufferManagerModel,
    stream: Seq<char>,
    name: Seq<char>,
    data: Seq<u8>,
    now: Timestamp,
    other: Seq<char>,
)
    requires
        before.segment_stored(ready, after, stream, name, data, now),
    ensures
        total_of(before.buffers) + data.len() <= before.max_buffer_size ==> ready == before.buffers,
        total_of(before.buffers) + data.len() > before.max_buffer_size ==> room_made(
            before.buffers,
            ready,
        ),
        !ready.contains_key(stream) ==> after.buffers == ready,
        other != stream && ready.contains_key(other) ==> after.buffers.contains_key(other)
            && after.buffers[other] == ready[other],
        ready.contains_key(stream) ==> ready[stream].with_segment(name, data, now).cleaned_to(
            after.buffers[stream],
            before.max_segments_per_stream,
        ),
        after.max_buffer_size == before.max_buffer_size,
        after.max_segments_per_stream == before.max_segments_per_stream,
{
}

} // verus!
