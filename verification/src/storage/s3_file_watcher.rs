//! Collects changed files into batches and turns each batch into uploads,
//! playlists first.

use crate::storage::s3_types::{UploadTask, UploadTaskModel};
use crate::text::{chars_of, has_suffix};
use crate::text;
use crate::writer;
use vstd::prelude::*;

verus! {

/// The wait in milliseconds after which a batch is processed.
pub const BATCH_DELAY_MS: u64 = 100;

/// The number of files at which a batch is processed without waiting.
pub const BATCH_FILES: usize = 5;

/// A changed file: its path and its name.
#[derive(Clone, Debug)]
pub struct ChangedFile {
    pub path: String,
    pub file_name: String,
}

/// What a [`ChangedFile`] says.
#[verifier::ext_equal]
pub struct ChangedFileModel {
    pub path: Seq<char>,
    pub file_name: Seq<char>,
}

impl View for ChangedFile {
    type V = ChangedFileModel;

    open spec fn view(&self) -> ChangedFileModel {
        ChangedFileModel { path: self.path@, file_name: self.file_name@ }
    }
}

/// The views of a sequence of changed files.
pub open spec fn file_models(files: Seq<ChangedFile>) -> Seq<ChangedFileModel> {
    files.map_values(|f: ChangedFile| f@)
}

/// The views of a sequence of tasks.
pub open spec fn task_models(tasks: Seq<UploadTask>) -> Seq<UploadTaskModel> {
    tasks.map_values(|t: UploadTask| t@)
}

/// The files of a stream that have changed since the last batch.
pub struct S3FileWatcher {
    stream_key: String,
    s3_prefix: String,
    pending: Vec<ChangedFile>,
}

/// A file of the stream, by its extension.
pub open spec fn is_stream_file_name(file_name: Seq<char>) -> bool {
    ||| has_suffix(file_name, ".ts"@)
    ||| has_suffix(file_name, ".m3u8"@)
    ||| has_suffix(file_name, ".m4s"@)
    ||| has_suffix(file_name, ".mp4"@)
    ||| has_suffix(file_name, ".jpg"@)
    ||| has_suffix(file_name, ".png"@)
}

/// Whether a file belongs to the stream.
pub fn is_stream_file(file_name: &str) -> (r: bool)
    ensures
        r == is_stream_file_name(file_name@),
{
    text::ends_with(file_name, ".ts") || text::ends_with(file_name, ".m3u8") || text::ends_with(
        file_name,
        ".m4s",
    ) || text::ends_with(file_name, ".mp4") || text::ends_with(file_name, ".jpg")
        || text::ends_with(file_name, ".png")
}

/// Position of the last `c` in `s`, or -1.
pub open spec fn last_pos(s: Seq<char>, c: char) -> int
    decreases s.len(),
{
    if s.len() == 0 {
        -1
    } else if s.last() == c {
        s.len() - 1
    } else {
        last_pos(s.drop_last(), c)
    }
}

/// The extension of a file name: what follows the last dot, unless the name has
/// no dot but at its start.
pub open spec fn extension_of(file_name: Seq<char>) -> Option<Seq<char>> {
    let p = last_pos(file_name, '.');
    if p > 0 {
        Some(file_name.skip(p + 1))
    } else {
        None
    }
}

/// The extension of a file name.
pub fn extension(file_name: &str) -> (r: Option<String>)
    ensures
        match r {
            Some(e) => extension_of(file_name@) == Some(e@),
            None => extension_of(file_name@) is None,
        },
{
    let chars = chars_of(file_name);
    let n: usize = chars.len();
    let mut i: usize = n;
    assert(file_name@.take(n as int) =~= file_name@);
    while i > 0
        invariant
            i <= n,
            n == chars.len(),
            chars@ == file_name@,
            last_pos(file_name@.take(i as int), '.') == last_pos(file_name@, '.'),
        decreases i,
    {
        assert(file_name@.take(i as int).drop_last() =~= file_name@.take(i - 1));
        if chars[i - 1] == '.' {
            if i == 1 {
                return None;
            }
            assert(file_name@.subrange(i as int, n as int) =~= file_name@.skip(i as int));
            return Some(file_name.substring_char(i, n).to_owned());
        }
        i = i - 1;
    }
    None
}

/// The media type of a file, by its extension.
pub open spec fn media_type_of(file_name: Seq<char>) -> Seq<char> {
    match extension_of(file_name) {
        Some(e) => if e == "m3u8"@ {
            "application/vnd.apple.mpegurl"@
        } else if e == "m4s"@ || e == "mp4"@ {
            "video/mp4"@
        } else if e == "ts"@ {
            "video/mp2t"@
        } else if e == "json"@ {
            "application/json"@
        } else if e == "jpg"@ || e == "jpeg"@ {
            "image/jpeg"@
        } else if e == "png"@ {
            "image/png"@
        } else {
            "application/octet-stream"@
        },
        None => "application/octet-stream"@,
    }
}

/// The files of a batch whose names do or do not end in `.m3u8`, in order.
pub open spec fn of_kind(files: Seq<ChangedFileModel>, playlist: bool) -> Seq<ChangedFileModel>
    decreases files.len(),
{
    if files.len() == 0 {
        Seq::empty()
    } else {
        let rest = of_kind(files.drop_last(), playlist);
        if has_suffix(files.last().file_name, ".m3u8"@) == playlist {
            rest.push(files.last())
        } else {
            rest
        }
    }
}

/// The order in which the files of a batch are uploaded: playlists first, and
/// otherwise as they came in.
pub open spec fn upload_order(files: Seq<ChangedFileModel>) -> Seq<ChangedFileModel> {
    of_kind(files, true) + of_kind(files, false)
}

/// The upload of a file.
pub open spec fn task_of(
    stream_key: Seq<char>,
    s3_prefix: Seq<char>,
    file: ChangedFileModel,
) -> UploadTaskModel {
    UploadTaskModel {
        stream_key,
        file_path: file.path,
        s3_key: s3_prefix + "/"@ + file.file_name,
        content_type: media_type_of(file.file_name),
    }
}

/// The path occurs among the files.
pub open spec fn has_path(files: Seq<ChangedFileModel>, path: Seq<char>) -> bool {
    exists|i: int| 0 <= i < files.len() && (#[trigger] files[i]).path == path
}

impl S3FileWatcher {
    /// The name of the stream.
    pub closed spec fn stream(self) -> Seq<char> {
        self.stream_key@
    }

    /// The prefix of the keys.
    pub closed spec fn prefix(self) -> Seq<char> {
        self.s3_prefix@
    }

    /// The files that wait, in the order in which they came in.
    pub closed spec fn files(self) -> Seq<ChangedFileModel> {
        file_models(self.pending@)
    }

    /// No path waits twice.
    pub open spec fn wf(self) -> bool {
        forall|i: int, j: int|
            0 <= i < j < self.files().len() ==> (#[trigger] self.files()[i]).path
                != (#[trigger] self.files()[j]).path
    }

    /// A watcher with nothing to upload.
    pub fn new(stream_key: String, s3_prefix: String) -> (r: Self)
        ensures
            r.wf(),
            r.stream() == stream_key@,
            r.prefix() == s3_prefix@,
            r.files() == Seq::<ChangedFileModel>::empty(),
    {
        let r = S3FileWatcher { stream_key, s3_prefix, pending: Vec::new() };
        assert(r.files() =~= Seq::<ChangedFileModel>::empty());
        r
    }

    /// Takes note of a changed file, where it belongs to the stream and does
    /// not wait already.
    pub fn note_change(&mut self, path: String, file_name: String)
        requires
            old(self).wf(),
        ensures
            final(self).wf(),
            final(self).stream() == old(self).stream(),
            final(self).prefix() == old(self).prefix(),
            final(self).files() == if is_stream_file_name(file_name@) && !has_path(
                old(self).files(),
                path@,
            ) {
                old(self).files().push(ChangedFileModel { path: path@, file_name: file_name@ })
            } else {
                old(self).files()
            },
    {
        if !is_stream_file(file_name.as_str()) {
            return;
        }
        let mut i: usize = 0;
        while i < self.pending.len()
            invariant
                i <= self.pending.len(),
                self.files().len() == self.pending.len(),
                *self == *old(self),
                self.wf(),
                forall|j: int| 0 <= j < i ==> (#[trigger] self.files()[j]).path != path@,
            decreases self.pending.len() - i,
        {
            assert(self.files()[i as int] == self.pending@[i as int]@);
            if text::same(self.pending[i].path.as_str(), path.as_str()) {
                return;
            }
            i = i + 1;
        }
        self.pending.push(ChangedFile { path, file_name });
        assert(self.files() =~= old(self).files().push(
            ChangedFileModel { path: path@, file_name: file_name@ },
        ));
    }

    /// The batch is to be processed, `elapsed_ms` milliseconds after the last
    /// one: there has been a wait or enough files have come together.
    pub open spec fn is_due(self, elapsed_ms: u64) -> bool {
        elapsed_ms >= BATCH_DELAY_MS || self.files().len() >= BATCH_FILES
    }

    /// Whether the batch is to be processed, `elapsed_ms` milliseconds after
    /// the last one.
    pub fn batch_is_due(&self, elapsed_ms: u64) -> (r: bool)
        ensures
            r == self.is_due(elapsed_ms),
    {
        elapsed_ms >= BATCH_DELAY_MS || self.pending.len() >= BATCH_FILES
    }

    /// The milliseconds after which the batch is to be looked at again,
    /// `elapsed_ms` milliseconds after the last one, though no file changes.
    pub fn wait_ms(&self, elapsed_ms: u64) -> (r: u64)
        ensures
            r == (if self.is_due(elapsed_ms) {
                0
            } else {
                BATCH_DELAY_MS - elapsed_ms
            }),
            r == 0 <==> self.is_due(elapsed_ms),
            self.is_due((elapsed_ms + r) as u64),
    {
        if self.batch_is_due(elapsed_ms) {
            0
        } else {
            BATCH_DELAY_MS - elapsed_ms
        }
    }

    /// The uploads of one kind of files of the batch, after those in `tasks`.
    fn push_tasks(&self, tasks: &mut Vec<UploadTask>, playlist: bool)
        ensures
            task_models(final(tasks)@) == task_models(old(tasks)@) + of_kind(
                self.files(),
                playlist,
            ).map_values(|f: ChangedFileModel| task_of(self.stream(), self.prefix(), f)),
    {
        let ghost files = self.files();
        let ghost before = task_models(tasks@);
        let ghost f = |f: ChangedFileModel| task_of(self.stream(), self.prefix(), f);
        let mut i: usize = 0;
        assert(task_models(tasks@) =~= before + of_kind(files.take(0), playlist).map_values(f));
        while i < self.pending.len()
            invariant
                i <= self.pending.len(),
                files == self.files(),
                files.len() == self.pending.len(),
                f == (|f: ChangedFileModel| task_of(self.stream(), self.prefix(), f)),
                task_models(tasks@) == before + of_kind(
                    files.take(i as int),
                    playlist,
                ).map_values(f),
            decreases self.pending.len() - i,
        {
            let file = &self.pending[i];
            assert(files[i as int] == file@);
            assert(files.take(i + 1).drop_last() =~= files.take(i as int));
            let ghost held = task_models(tasks@);
            let ghost chosen = of_kind(files.take(i as int), playlist);
            if text::ends_with(file.file_name.as_str(), ".m3u8") == playlist {
                let task = self.task_for(file);
                tasks.push(task);
                assert(task_models(tasks@) =~= held.push(task@));
                assert(chosen.push(file@).map_values(f) =~= chosen.map_values(f).push(task@));
                assert(task_models(tasks@) =~= before + chosen.push(file@).map_values(f));
            }
            i = i + 1;
        }
        assert(files.take(i as int) =~= files);
    }

    /// The upload of a file.
    fn task_for(&self, file: &ChangedFile) -> (r: UploadTask)
        ensures
            r@ == task_of(self.stream(), self.prefix(), file@),
    {
        UploadTask {
            stream_key: self.stream_key.clone(),
            file_path: file.path.clone(),
            s3_key: writer::join3(self.s3_prefix.as_str(), "/", file.file_name.as_str()),
            content_type: Self::get_content_type(file.file_name.as_str()).to_owned(),
        }
    }

    /// Empties the batch and returns its uploads, playlists first.
    pub fn process_pending_files(&mut self) -> (r: Vec<UploadTask>)
        ensures
            final(self).wf(),
            final(self).stream() == old(self).stream(),
            final(self).prefix() == old(self).prefix(),
            final(self).files() == Seq::<ChangedFileModel>::empty(),
            task_models(r@) == upload_order(old(self).files()).map_values(
                |f: ChangedFileModel| task_of(old(self).stream(), old(self).prefix(), f),
            ),
    {
        let ghost files = self.files();
        let ghost f = |f: ChangedFileModel| task_of(self.stream(), self.prefix(), f);
        let mut tasks: Vec<UploadTask> = Vec::new();
        self.push_tasks(&mut tasks, true);
        self.push_tasks(&mut tasks, false);
        assert(task_models(tasks@) =~= upload_order(files).map_values(f));
        self.pending.clear();
        assert(self.files() =~= Seq::<ChangedFileModel>::empty());
        tasks
    }

    /// The media type of a file.
    pub fn get_content_type(file_name: &str) -> (r: &'static str)
        ensures
            r@ == media_type_of(file_name@),
    {
        match extension(file_name) {
            Some(e) => {
                let e = e.as_str();
                if text::same(e, "m3u8") {
                    "application/vnd.apple.mpegurl"
                } else if text::same(e, "m4s") || text::same(e, "mp4") {
                    "video/mp4"
                } else if text::same(e, "ts") {
                    "video/mp2t"
                } else if text::same(e, "json") {
                    "application/json"
                } else if text::same(e, "jpg") || text::same(e, "jpeg") {
                    "image/jpeg"
                } else if text::same(e, "png") {
                    "image/png"
                } else {
                    "application/octet-stream"
                }
            },
            None => "application/octet-stream",
        }
    }
}

proof fn lemma_kinds_part(files: Seq<ChangedFileModel>)
    ensures
        (of_kind(files, true) + of_kind(files, false)).to_multiset() == files.to_multiset(),
        forall|i: int|
            0 <= i < of_kind(files, true).len() ==> has_suffix(
                (#[trigger] of_kind(files, true)[i]).file_name,
                ".m3u8"@,
            ),
        forall|i: int|
            0 <= i < of_kind(files, false).len() ==> !has_suffix(
                (#[trigger] of_kind(files, false)[i]).file_name,
                ".m3u8"@,
            ),
    decreases files.len(),
{
    broadcast use vstd::seq_lib::group_to_multiset_ensures;

    if files.len() == 0 {
        assert(of_kind(files, true) + of_kind(files, false) =~= files);
    } else {
        let rest = files.drop_last();
        let last = files.last();
        lemma_kinds_part(rest);
        let a = of_kind(rest, true);
        let b = of_kind(rest, false);
        assert(files =~= rest.push(last));
        if has_suffix(last.file_name, ".m3u8"@) {
            assert(a.push(last) + b =~= (a + b).insert(a.len() as int, last));
        } else {
            assert(a + b.push(last) =~= (a + b).push(last));
        }
    }
}

/// The order of upload keeps exactly the files of the batch and has no
/// playlist behind another file.
pub proof fn law_playlists_first(files: Seq<ChangedFileModel>)
    ensures
        upload_order(files).to_multiset() == files.to_multiset(),
        forall|i: int, j: int|
            0 <= i < j < upload_order(files).len() && has_suffix(
                (#[trigger] upload_order(files)[j]).file_name,
                ".m3u8"@,
            ) ==> has_suffix((#[trigger] upload_order(files)[i]).file_name, ".m3u8"@),
{
    lemma_kinds_part(files);
    let a = of_kind(files, true);
    let b = of_kind(files, false);
    assert forall|i: int, j: int|
        0 <= i < j < upload_order(files).len() && has_suffix(
            (#[trigger] upload_order(files)[j]).file_name,
            ".m3u8"@,
        ) implies has_suffix((#[trigger] upload_order(files)[i]).file_name, ".m3u8"@) by {
        if j >= a.len() {
            assert(upload_order(files)[j] == b[j - a.len()]);
        } else {
            assert(upload_order(files)[i] == a[i]);
        }
    }
}

/// A name that ends in `tail` has it as its suffix.
proof fn lemma_tail(stem: Seq<char>, tail: Seq<char>)
    ensures
        has_suffix(stem + tail, tail),
{
    let s = stem + tail;
    assert(s.skip(s.len() - tail.len()) =~= tail);
}

/// A file is taken for one of the stream exactly where its name is made of
/// something and one of six extensions, whatever comes before the extension.
pub proof fn law_stream_files_by_extension(file_name: Seq<char>)
    ensures
        is_stream_file_name(file_name + ".ts"@),
        is_stream_file_name(file_name + ".m3u8"@),
        is_stream_file_name(file_name + ".m4s"@),
        is_stream_file_name(file_name + ".mp4"@),
        is_stream_file_name(file_name + ".jpg"@),
        is_stream_file_name(file_name + ".png"@),
        is_stream_file_name(file_name) ==> exists|stem: Seq<char>|
            #![trigger stem + ".ts"@]
            file_name == stem + ".ts"@ || file_name == stem + ".m3u8"@ || file_name == stem
                + ".m4s"@ || file_name == stem + ".mp4"@ || file_name == stem + ".jpg"@ || file_name
                == stem + ".png"@,
{
    lemma_tail(file_name, ".ts"@);
    lemma_tail(file_name, ".m3u8"@);
    lemma_tail(file_name, ".m4s"@);
    lemma_tail(file_name, ".mp4"@);
    lemma_tail(file_name, ".jpg"@);
    lemma_tail(file_name, ".png"@);
    if is_stream_file_name(file_name) {
        let tail = if has_suffix(file_name, ".ts"@) {
            ".ts"@
        } else if has_suffix(file_name, ".m3u8"@) {
            ".m3u8"@
        } else if has_suffix(file_name, ".m4s"@) {
            ".m4s"@
        } else if has_suffix(file_name, ".mp4"@) {
            ".mp4"@
        } else if has_suffix(file_name, ".jpg"@) {
            ".jpg"@
        } else {
            ".png"@
        };
        let stem = file_name.take(file_name.len() - tail.len());
        assert(file_name =~= stem + tail);
        let shown = stem + ".ts"@;
    }
}

/// Every file that the encoder of a stream is told to write is taken for one of
/// the stream: its playlist, its initialisation segment, each numbered segment
/// and the thumbnail.
pub proof fn law_encoder_output_is_noted(number: Seq<char>)
    ensures
        is_stream_file_name("playlist.m3u8"@),
        is_stream_file_name("init.mp4"@),
        is_stream_file_name("segment_"@ + number + ".m4s"@),
        is_stream_file_name("thumbnail.jpg"@),
{
    reveal_strlit("playlist.m3u8");
    reveal_strlit("playlist");
    reveal_strlit(".m3u8");
    reveal_strlit("init.mp4");
    reveal_strlit("init");
    reveal_strlit(".mp4");
    reveal_strlit("thumbnail.jpg");
    reveal_strlit("thumbnail");
    reveal_strlit(".jpg");
    assert("playlist.m3u8"@ =~= "playlist"@ + ".m3u8"@);
    assert("init.mp4"@ =~= "init"@ + ".mp4"@);
    assert("thumbnail.jpg"@ =~= "thumbnail"@ + ".jpg"@);
    law_stream_files_by_extension("playlist"@);
    law_stream_files_by_extension("init"@);
    law_stream_files_by_extension("thumbnail"@);
    law_stream_files_by_extension("segment_"@ + number);
}

/// Where the last dot of a name is.
proof fn lemma_last_pos(stem: Seq<char>, extension: Seq<char>)
    requires
        !extension.contains('.'),
    ensures
        last_pos(stem + seq!['.'] + extension, '.') == stem.len(),
    decreases extension.len(),
{
    let s = stem + seq!['.'] + extension;
    if extension.len() == 0 {
        assert(s.last() == '.');
    } else {
        assert(s.last() == extension.last());
        assert(extension.contains(extension[extension.len() - 1]));
        let rest = extension.drop_last();
        if rest.contains('.') {
            let i = choose|i: int| 0 <= i < rest.len() && rest[i] == '.';
            assert(extension[i] == '.');
        }
        lemma_last_pos(stem, rest);
        assert(s.drop_last() =~= stem + seq!['.'] + rest);
    }
}

/// The extension of a name is what stands behind its last dot, unless nothing
/// stands before that; a name without a dot has none.
pub proof fn law_extension_follows_last_dot(stem: Seq<char>, extension: Seq<char>)
    requires
        !extension.contains('.'),
    ensures
        stem.len() > 0 ==> extension_of(stem + seq!['.'] + extension) == Some(extension),
        stem.len() == 0 ==> extension_of(stem + seq!['.'] + extension) is None,
        extension_of(extension) is None,
{
    lemma_last_pos(stem, extension);
    let s = stem + seq!['.'] + extension;
    assert(s.skip(stem.len() as int + 1) =~= extension);
    lemma_no_dot(extension);
}

proof fn lemma_no_dot(s: Seq<char>)
    requires
        !s.contains('.'),
    ensures
        last_pos(s, '.') == -1,
    decreases s.len(),
{
    if s.len() > 0 {
        assert(s.contains(s[s.len() - 1]));
        let rest = s.drop_last();
        if rest.contains('.') {
            let i = choose|i: int| 0 <= i < rest.len() && rest[i] == '.';
            assert(s[i] == '.');
        }
        lemma_no_dot(rest);
    }
}

/// The extension of a name that ends in a dot and an extension.
proof fn lemma_typed(stem: Seq<char>, dotted: Seq<char>, extension: Seq<char>)
    requires
        stem.len() > 0,
        dotted =~= seq!['.'] + extension,
        !extension.contains('.'),
    ensures
        extension_of(stem + dotted) == Some(extension),
{
    law_extension_follows_last_dot(stem, extension);
    assert(stem + dotted =~= stem + seq!['.'] + extension);
}

/// What a file is uploaded as: playlists, fragmented and transport segments,
/// documents and pictures each as what they are, everything else as bytes.
pub proof fn law_media_type_by_extension(stem: Seq<char>, extension: Seq<char>)
    requires
        stem.len() > 0,
        !extension.contains('.'),
    ensures
        media_type_of(stem + ".m3u8"@) == "application/vnd.apple.mpegurl"@,
        media_type_of(stem + ".m4s"@) == "video/mp4"@,
        media_type_of(stem + ".mp4"@) == "video/mp4"@,
        media_type_of(stem + ".ts"@) == "video/mp2t"@,
        media_type_of(stem + ".json"@) == "application/json"@,
        media_type_of(stem + ".jpg"@) == "image/jpeg"@,
        media_type_of(stem + ".jpeg"@) == "image/jpeg"@,
        media_type_of(stem + ".png"@) == "image/png"@,
        extension != "m3u8"@ && extension != "m4s"@ && extension != "mp4"@ && extension != "ts"@
            && extension != "json"@ && extension != "jpg"@ && extension != "jpeg"@ && extension
            != "png"@ ==> media_type_of(stem + seq!['.'] + extension)
            == "application/octet-stream"@,
        media_type_of(extension) == "application/octet-stream"@,
{
    reveal_strlit(".m3u8");
    reveal_strlit("m3u8");
    lemma_typed(stem, ".m3u8"@, "m3u8"@);
    reveal_strlit(".m4s");
    reveal_strlit("m4s");
    lemma_typed(stem, ".m4s"@, "m4s"@);
    reveal_strlit(".mp4");
    reveal_strlit("mp4");
    lemma_typed(stem, ".mp4"@, "mp4"@);
    reveal_strlit(".ts");
    reveal_strlit("ts");
    lemma_typed(stem, ".ts"@, "ts"@);
    reveal_strlit(".json");
    reveal_strlit("json");
    lemma_typed(stem, ".json"@, "json"@);
    reveal_strlit(".jpg");
    reveal_strlit("jpg");
    lemma_typed(stem, ".jpg"@, "jpg"@);
    reveal_strlit(".jpeg");
    reveal_strlit("jpeg");
    lemma_typed(stem, ".jpeg"@, "jpeg"@);
    reveal_strlit(".png");
    reveal_strlit("png");
    lemma_typed(stem, ".png"@, "png"@);
    assert("m4s"@[1] != "mp4"@[1]);
    assert("ts"@.len() == 2 && "m4s"@.len() == 3 && "m3u8"@.len() == 4);
    assert("jpg"@[0] != "m4s"@[0] && "jpg"@[0] != "mp4"@[0] && "png"@[0] != "m4s"@[0]);
    assert("json"@[1] != "jpeg"@[1] && "json"@[0] != "m3u8"@[0] && "jpeg"@[0] != "m3u8"@[0]);
    assert("png"@[0] != "jpg"@[0] && "png"@[0] != "mp4"@[0]);
    law_extension_follows_last_dot(stem, extension);
}

/// The upload of a changed file reads the file at its path and goes to the key
/// made of the prefix and the name, for the stream that is watched.
pub proof fn law_task_keeps_path_and_name(
    stream_key: Seq<char>,
    s3_prefix: Seq<char>,
    file: ChangedFileModel,
)
    ensures
        ({
            let task = task_of(stream_key, s3_prefix, file);
            let n = s3_prefix.len() as int;
            &&& task.stream_key == stream_key
            &&& task.file_path == file.path
            &&& task.s3_key.len() == n + 1 + file.file_name.len()
            &&& task.s3_key.take(n) == s3_prefix
            &&& task.s3_key[n] == '/'
            &&& task.s3_key.skip(n + 1) == file.file_name
            &&& task.content_type == media_type_of(file.file_name)
        }),
{
    reveal_strlit("/");
    let task = task_of(stream_key, s3_prefix, file);
    let n = s3_prefix.len() as int;
    assert(task.s3_key.take(n) =~= s3_prefix);
    assert(task.s3_key.skip(n + 1) =~= file.file_name);
}

/// The name of a changed file is that of a playlist, or is not.
pub open spec fn named_playlist(playlist: bool) -> spec_fn(ChangedFileModel) -> bool {
    |f: ChangedFileModel| has_suffix(f.file_name, ".m3u8"@) == playlist
}

proof fn lemma_of_kind(files: Seq<ChangedFileModel>, playlist: bool)
    ensures
        of_kind(files, playlist) == files.filter(named_playlist(playlist)),
        of_kind(files, playlist).filter(named_playlist(playlist)) == of_kind(files, playlist),
        of_kind(files, playlist).filter(named_playlist(!playlist)) == Seq::<
            ChangedFileModel,
        >::empty(),
    decreases files.len(),
{
    reveal(Seq::filter);
    if files.len() > 0 {
        lemma_of_kind(files.drop_last(), playlist);
        let rest = of_kind(files.drop_last(), playlist);
        assert(rest.push(files.last()).drop_last() =~= rest);
    }
    assert(of_kind(files, playlist).filter(named_playlist(!playlist)) =~= Seq::<
        ChangedFileModel,
    >::empty());
    assert(of_kind(files, playlist) =~= files.filter(named_playlist(playlist)));
}

/// Playlists among themselves, and other files among themselves, are uploaded
/// in the order in which they came in.
pub proof fn law_upload_order_is_stable(files: Seq<ChangedFileModel>)
    ensures
        upload_order(files).filter(named_playlist(true)) == files.filter(named_playlist(true)),
        upload_order(files).filter(named_playlist(false)) == files.filter(named_playlist(false)),
{
    broadcast use Seq::filter_distributes_over_add;

    lemma_of_kind(files, true);
    lemma_of_kind(files, false);
    let a = of_kind(files, true);
    let b = of_kind(files, false);
    assert(upload_order(files).filter(named_playlist(true)) =~= a);
    assert(upload_order(files).filter(named_playlist(false)) =~= b);
}

/// A batch waits no longer than a tenth of a second, and not at all once five
/// files have come together; an emptier one is not processed sooner.
pub proof fn law_batch_is_due_in_time(watcher: S3FileWatcher, elapsed_ms: u64)
    ensures
        elapsed_ms >= 100 ==> watcher.is_due(elapsed_ms),
        watcher.files().len() >= 5 ==> watcher.is_due(elapsed_ms),
        elapsed_ms < 100 && watcher.files().len() < 5 ==> !watcher.is_due(elapsed_ms),
{
}

/// The path occurs among the files once a file with that path has come in, and
/// not before.
pub proof fn law_path_is_known_once_noted(
    files: Seq<ChangedFileModel>,
    file: ChangedFileModel,
    path: Seq<char>,
)
    ensures
        !has_path(Seq::empty(), path),
        has_path(files.push(file), path) <==> has_path(files, path) || file.path == path,
{
    let more = files.push(file);
    if has_path(files, path) {
        let i = choose|i: int| 0 <= i < files.len() && (#[trigger] files[i]).path == path;
        assert(more[i].path == path);
    }
    if file.path == path {
        assert(more[files.len() as int].path == path);
    }
    if has_path(more, path) {
        let i = choose|i: int| 0 <= i < more.len() && (#[trigger] more[i]).path == path;
        if i < files.len() {
            assert(files[i].path == path);
        }
    }
}

} // verus!
