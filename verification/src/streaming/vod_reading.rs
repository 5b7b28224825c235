//! What a client reads in the playlist of a stream that has ended.

use crate::order::{law_sorting_is_unique, lemma_sorted, sorted};
use crate::streaming::memory_hls_manager::{
    is_whole_segment, listed_file_of, listed_segments, lists_init, playlist_segment,
    replay_master_of, stream_url_of, vod_liner, vod_playlist_of, ByNumber,
};
use crate::text::{has_prefix, has_suffix, lemma_words_are_solid, lines, without_cr, words};
use crate::time::Timestamp;
use crate::writer::{
    concat, ended, lemma_concat_add, lemma_lines_of_unlines, lemma_unlines_one, one_line, unlines,
};
use vstd::prelude::*;
use vstd::utf8::encode_utf8;

verus! {

/// A line of a listing names the file: it is the fourth word.
pub open spec fn names_file(file: Seq<char>) -> spec_fn(Seq<char>) -> bool {
    |line: Seq<char>| words(line).len() >= 4 && words(line)[3] == file
}

/// The two lines of a segment.
spec fn entry_lines(base_url: Seq<char>, file: Seq<char>) -> Seq<Seq<char>> {
    seq!["#EXTINF:2.000000,"@, base_url + "/"@ + file]
}

spec fn entries_lines(base_url: Seq<char>, files: Seq<Seq<char>>) -> Seq<Seq<char>>
    decreases files.len(),
{
    if files.len() == 0 {
        Seq::empty()
    } else {
        entries_lines(base_url, files.drop_last()) + entry_lines(base_url, files.last())
    }
}

/// The line number `at` gives a duration of two seconds, and the next one the
/// address of the file.
pub open spec fn says_segment(
    out: Seq<Seq<char>>,
    at: int,
    base_url: Seq<char>,
    file: Seq<char>,
) -> bool {
    &&& out[at] == "#EXTINF:2.000000,"@
    &&& out[at + 1] == without_cr(base_url + "/"@ + file)
}

/// The two lines of a segment stand at `at`.
spec fn entry_at(all: Seq<Seq<char>>, at: int, base_url: Seq<char>, file: Seq<char>) -> bool {
    all[at] == "#EXTINF:2.000000,"@ && all[at + 1] == base_url + "/"@ + file
}

spec fn vod_lines(base_url: Seq<char>, ls: Seq<Seq<char>>) -> Seq<Seq<char>> {
    seq![
        "#EXTM3U"@,
        "#EXT-X-VERSION:7"@,
        "#EXT-X-TARGETDURATION:2"@,
        "#EXT-X-PLAYLIST-TYPE:VOD"@,
        "#EXT-X-MEDIA-SEQUENCE:0"@,
    ] + (if lists_init(ls) {
        seq!["#EXT-X-MAP:URI=\"init.mp4\""@]
    } else {
        Seq::empty()
    }) + seq![Seq::<char>::empty()] + entries_lines(
        base_url,
        sorted::<ByNumber>(listed_segments(ls)),
    ) + seq!["#EXT-X-ENDLIST"@]
}

proof fn lemma_entries(base_url: Seq<char>, files: Seq<Seq<char>>)
    ensures
        concat(files, vod_liner(base_url)) == unlines(entries_lines(base_url, files)),
        entries_lines(base_url, files).len() == 2 * files.len(),
        forall|j: int|
            0 <= j < files.len() ==> entry_at(
                entries_lines(base_url, files),
                2 * j,
                base_url,
                #[trigger] files[j],
            ),
    decreases files.len(),
{
    let all = entries_lines(base_url, files);
    if files.len() == 0 {
        assert(unlines(all) =~= Seq::<char>::empty());
    } else {
        let rest = files.drop_last();
        let file = files.last();
        let before = entries_lines(base_url, rest);
        lemma_entries(base_url, rest);
        let own = entry_lines(base_url, file);
        lemma_concat_add(before, own, ended());
        assert(own =~= seq![own[0]] + seq![own[1]]);
        lemma_concat_add(seq![own[0]], seq![own[1]], ended());
        lemma_unlines_one(own[0]);
        lemma_unlines_one(own[1]);
        reveal_strlit("#EXTINF:2.000000,\n");
        reveal_strlit("#EXTINF:2.000000,");
        reveal_strlit("\n");
        assert("#EXTINF:2.000000,\n"@ =~= "#EXTINF:2.000000,"@ + "\n"@);
        assert(vod_liner(base_url)(file) =~= unlines(own));
        assert(unlines(all) =~= unlines(before) + unlines(own));
        assert forall|j: int| 0 <= j < files.len() implies entry_at(
            all,
            2 * j,
            base_url,
            #[trigger] files[j],
        ) by {
            if j < rest.len() {
                assert(entry_at(before, 2 * j, base_url, rest[j]));
                assert(all[2 * j] == before[2 * j]);
                assert(all[2 * j + 1] == before[2 * j + 1]);
            } else {
                assert(all[2 * j] == own[0]);
                assert(all[2 * j + 1] == own[1]);
            }
        }
    }
}

/// The files that a listing names hold no line feed.
proof fn lemma_files_are_plain(ls: Seq<Seq<char>>)
    ensures
        forall|i: int|
            0 <= i < listed_segments(ls).len() ==> one_line(#[trigger] listed_segments(ls)[i]),
    decreases ls.len(),
{
    if ls.len() > 0 {
        lemma_files_are_plain(ls.drop_last());
        let line = ls.last();
        if words(line).len() >= 4 {
            let file = words(line)[3];
            assert(one_line(file)) by {
                assert forall|k: int| 0 <= k < file.len() implies #[trigger] file[k] != '\n' by {
                    lemma_words_are_solid(line, 3, k);
                }
            }
        }
        let before = listed_segments(ls.drop_last());
        assert forall|i: int| 0 <= i < listed_segments(ls).len() implies one_line(
            #[trigger] listed_segments(ls)[i],
        ) by {
            if i < before.len() {
                assert(listed_segments(ls)[i] == before[i]);
            }
        }
    }
}

proof fn lemma_sorted_are_plain(ls: Seq<Seq<char>>)
    ensures
        forall|i: int|
            0 <= i < sorted::<ByNumber>(listed_segments(ls)).len() ==> one_line(
                #[trigger] sorted::<ByNumber>(listed_segments(ls))[i],
            ),
{
    broadcast use vstd::seq_lib::group_to_multiset_ensures;

    let some = listed_segments(ls);
    let all = sorted::<ByNumber>(some);
    lemma_files_are_plain(ls);
    lemma_sorted::<ByNumber>(some);
    assert forall|i: int| 0 <= i < all.len() implies one_line(#[trigger] all[i]) by {
        assert(all.contains(all[i]));
        assert(all.to_multiset().count(all[i]) > 0);
        assert(some.contains(all[i]));
    }
}

proof fn lemma_head_text()
    ensures
        unlines(
            seq![
                "#EXTM3U"@,
                "#EXT-X-VERSION:7"@,
                "#EXT-X-TARGETDURATION:2"@,
                "#EXT-X-PLAYLIST-TYPE:VOD"@,
                "#EXT-X-MEDIA-SEQUENCE:0"@,
            ],
        )
            == "#EXTM3U\n#EXT-X-VERSION:7\n#EXT-X-TARGETDURATION:2\n#EXT-X-PLAYLIST-TYPE:VOD\n#EXT-X-MEDIA-SEQUENCE:0\n"@,
{
    let a = "#EXTM3U"@;
    let b = "#EXT-X-VERSION:7"@;
    let c = "#EXT-X-TARGETDURATION:2"@;
    let d = "#EXT-X-PLAYLIST-TYPE:VOD"@;
    let e = "#EXT-X-MEDIA-SEQUENCE:0"@;
    reveal_strlit("#EXTM3U");
    reveal_strlit("#EXT-X-VERSION:7");
    reveal_strlit("#EXT-X-TARGETDURATION:2");
    reveal_strlit("#EXT-X-PLAYLIST-TYPE:VOD");
    reveal_strlit("#EXT-X-MEDIA-SEQUENCE:0");
    reveal_strlit("\n");
    reveal_strlit(
        "#EXTM3U\n#EXT-X-VERSION:7\n#EXT-X-TARGETDURATION:2\n#EXT-X-PLAYLIST-TYPE:VOD\n#EXT-X-MEDIA-SEQUENCE:0\n",
    );
    lemma_five(a, b, c, d, e);
    let n = "\n"@;
    assert(a + n + (b + n) + (c + n) + (d + n) + (e + n)
        =~= "#EXTM3U\n#EXT-X-VERSION:7\n#EXT-X-TARGETDURATION:2\n#EXT-X-PLAYLIST-TYPE:VOD\n#EXT-X-MEDIA-SEQUENCE:0\n"@);
}

/// The text of five lines.
proof fn lemma_five(a: Seq<char>, b: Seq<char>, c: Seq<char>, d: Seq<char>, e: Seq<char>)
    ensures
        unlines(seq![a, b, c, d, e]) == a + "\n"@ + (b + "\n"@) + (c + "\n"@) + (d + "\n"@) + (e
            + "\n"@),
{
    lemma_unlines_one(a);
    lemma_unlines_one(b);
    lemma_unlines_one(c);
    lemma_unlines_one(d);
    lemma_unlines_one(e);
    lemma_concat_add(seq![a], seq![b], ended());
    lemma_concat_add(seq![a] + seq![b], seq![c], ended());
    lemma_concat_add(seq![a] + seq![b] + seq![c], seq![d], ended());
    lemma_concat_add(seq![a] + seq![b] + seq![c] + seq![d], seq![e], ended());
    assert(seq![a, b, c, d, e] =~= seq![a] + seq![b] + seq![c] + seq![d] + seq![e]);
}

proof fn lemma_vod_text(base_url: Seq<char>, ls: Seq<Seq<char>>)
    ensures
        vod_playlist_of(base_url, ls) == unlines(vod_lines(base_url, ls)),
{
    let head = seq![
        "#EXTM3U"@,
        "#EXT-X-VERSION:7"@,
        "#EXT-X-TARGETDURATION:2"@,
        "#EXT-X-PLAYLIST-TYPE:VOD"@,
        "#EXT-X-MEDIA-SEQUENCE:0"@,
    ];
    let init = if lists_init(ls) {
        seq!["#EXT-X-MAP:URI=\"init.mp4\""@]
    } else {
        Seq::<Seq<char>>::empty()
    };
    let blank = seq![Seq::<char>::empty()];
    let files = sorted::<ByNumber>(listed_segments(ls));
    let middle = entries_lines(base_url, files);
    let last = seq!["#EXT-X-ENDLIST"@];
    lemma_head_text();
    lemma_entries(base_url, files);
    lemma_concat_add(head, init, ended());
    lemma_concat_add(head + init, blank, ended());
    lemma_concat_add(head + init + blank, middle, ended());
    lemma_concat_add(head + init + blank + middle, last, ended());
    lemma_unlines_one("#EXT-X-MAP:URI=\"init.mp4\""@);
    lemma_unlines_one(Seq::<char>::empty());
    lemma_unlines_one("#EXT-X-ENDLIST"@);
    reveal_strlit("#EXT-X-MAP:URI=\"init.mp4\"\n");
    reveal_strlit("#EXT-X-MAP:URI=\"init.mp4\"");
    reveal_strlit("#EXT-X-ENDLIST\n");
    reveal_strlit("#EXT-X-ENDLIST");
    reveal_strlit("\n");
    assert("#EXT-X-MAP:URI=\"init.mp4\"\n"@ =~= "#EXT-X-MAP:URI=\"init.mp4\""@ + "\n"@);
    assert("#EXT-X-ENDLIST\n"@ =~= "#EXT-X-ENDLIST"@ + "\n"@);
    assert(Seq::<char>::empty() + "\n"@ =~= "\n"@);
    assert(unlines(Seq::<Seq<char>>::empty()) =~= Seq::<char>::empty());
}

/// What the playlist of a stream that has ended says, line by line. The
/// initialisation segment is announced, before every segment, exactly where some
/// line of the listing names it, whichever line that is. Then each segment has a
/// line for its duration and one for its address under `base_url`, and the list
/// is closed.
pub proof fn law_vod_playlist_lines(base_url: Seq<char>, ls: Seq<Seq<char>>)
    requires
        one_line(base_url),
    ensures
        ({
            let out = lines(vod_playlist_of(base_url, ls));
            let files = sorted::<ByNumber>(listed_segments(ls));
            let has_init = exists|i: int|
                0 <= i < ls.len() && #[trigger] names_file("init.mp4"@)(ls[i]);
            let h: int = if has_init {
                7
            } else {
                6
            };
            &&& out.len() == h + 2 * files.len() + 1
            &&& out[0] == "#EXTM3U"@
            &&& out[1] == "#EXT-X-VERSION:7"@
            &&& out[2] == "#EXT-X-TARGETDURATION:2"@
            &&& out[3] == "#EXT-X-PLAYLIST-TYPE:VOD"@
            &&& out[4] == "#EXT-X-MEDIA-SEQUENCE:0"@
            &&& has_init ==> out[5] == "#EXT-X-MAP:URI=\"init.mp4\""@
            &&& out[h - 1].len() == 0
            &&& forall|j: int|
                0 <= j < files.len() ==> says_segment(
                    out,
                    h + 2 * j,
                    base_url,
                    #[trigger] files[j],
                )
            &&& out.last() == "#EXT-X-ENDLIST"@
        }),
{
    let all = vod_lines(base_url, ls);
    let files = sorted::<ByNumber>(listed_segments(ls));
    let middle = entries_lines(base_url, files);
    let has_init = exists|i: int| 0 <= i < ls.len() && #[trigger] names_file("init.mp4"@)(ls[i]);
    lemma_init(ls);
    lemma_vod_text(base_url, ls);
    lemma_entries(base_url, files);
    lemma_sorted_are_plain(ls);
    reveal_strlit("#EXTM3U");
    reveal_strlit("#EXT-X-VERSION:7");
    reveal_strlit("#EXT-X-TARGETDURATION:2");
    reveal_strlit("#EXT-X-PLAYLIST-TYPE:VOD");
    reveal_strlit("#EXT-X-MEDIA-SEQUENCE:0");
    reveal_strlit("#EXT-X-MAP:URI=\"init.mp4\"");
    reveal_strlit("#EXT-X-ENDLIST");
    reveal_strlit("#EXTINF:2.000000,");
    reveal_strlit("/");
    let h: int = if has_init {
        7
    } else {
        6
    };
    assert forall|j: int| 0 <= j < files.len() implies entry_at(
        all,
        h + 2 * j,
        base_url,
        #[trigger] files[j],
    ) by {
        assert(entry_at(middle, 2 * j, base_url, files[j]));
        assert(all[h + 2 * j] == middle[2 * j]);
        assert(all[h + 2 * j + 1] == middle[2 * j + 1]);
    }
    assert forall|i: int| 0 <= i < all.len() implies one_line(#[trigger] all[i]) by {
        if h <= i < h + 2 * files.len() {
            let j = (i - h) / 2;
            assert(one_line(files[j]));
            assert(entry_at(all, h + 2 * j, base_url, files[j]));
            assert(one_line(base_url + "/"@ + files[j]));
            assert(i == h + 2 * j || i == h + 2 * j + 1);
        }
    }
    lemma_lines_of_unlines(all);
    let out = lines(vod_playlist_of(base_url, ls));
    assert forall|i: int| 0 <= i < all.len() implies #[trigger] out[i] == without_cr(all[i]) by {}
    assert forall|j: int| 0 <= j < files.len() implies says_segment(
        out,
        h + 2 * j,
        base_url,
        #[trigger] files[j],
    ) by {
        assert(entry_at(all, h + 2 * j, base_url, files[j]));
        assert(out[h + 2 * j] == without_cr(all[h + 2 * j]));
        assert(out[h + 2 * j + 1] == without_cr(all[h + 2 * j + 1]));
    }
    assert(out.last() == without_cr(all[all.len() - 1]));
    assert(out[0] == without_cr(all[0]));
    assert(out[1] == without_cr(all[1]));
    assert(out[2] == without_cr(all[2]));
    assert(out[3] == without_cr(all[3]));
    assert(out[4] == without_cr(all[4]));
    assert(out[5] == without_cr(all[5]));
    assert(out[6] == without_cr(all[6]));
    assert(all[h - 1] =~= Seq::<char>::empty());
    assert(all.len() == h + 2 * files.len() + 1);
}

proof fn lemma_init(ls: Seq<Seq<char>>)
    ensures
        lists_init(ls) == exists|i: int|
            0 <= i < ls.len() && #[trigger] names_file("init.mp4"@)(ls[i]),
{
    if lists_init(ls) {
        let i = choose|i: int|
            0 <= i < ls.len() && listed_file_of(#[trigger] ls[i]) == Some("init.mp4"@);
        assert(names_file("init.mp4"@)(ls[i]));
    }
    if exists|i: int| 0 <= i < ls.len() && #[trigger] names_file("init.mp4"@)(ls[i]) {
        let i = choose|i: int| 0 <= i < ls.len() && #[trigger] names_file("init.mp4"@)(ls[i]);
        assert(listed_file_of(ls[i]) == Some("init.mp4"@));
    }
}

/// Where no line of the listing names the initialisation segment, no line of
/// the playlist announces one, for addresses that do not look like tags.
pub proof fn law_vod_announces_no_other_init(base_url: Seq<char>, ls: Seq<Seq<char>>)
    requires
        one_line(base_url),
        base_url.len() > 0,
        base_url[0] != '#',
        forall|i: int| 0 <= i < ls.len() ==> !#[trigger] names_file("init.mp4"@)(ls[i]),
    ensures
        forall|i: int|
            0 <= i < lines(vod_playlist_of(base_url, ls)).len() ==> !has_prefix(
                #[trigger] lines(vod_playlist_of(base_url, ls))[i],
                "#EXT-X-MAP"@,
            ),
{
    law_vod_playlist_lines(base_url, ls);
    let out = lines(vod_playlist_of(base_url, ls));
    let files = sorted::<ByNumber>(listed_segments(ls));
    let tag = "#EXT-X-MAP"@;
    reveal_strlit("#EXT-X-MAP");
    reveal_strlit("#EXTM3U");
    reveal_strlit("#EXT-X-VERSION:7");
    reveal_strlit("#EXT-X-TARGETDURATION:2");
    reveal_strlit("#EXT-X-PLAYLIST-TYPE:VOD");
    reveal_strlit("#EXT-X-MEDIA-SEQUENCE:0");
    reveal_strlit("#EXT-X-ENDLIST");
    reveal_strlit("#EXTINF:2.000000,");
    reveal_strlit("/");
    assert forall|i: int| 0 <= i < out.len() implies !has_prefix(#[trigger] out[i], tag) by {
        let l = out[i];
        if has_prefix(l, tag) {
            assert(l[0] == tag[0] && l[4] == tag[4] && l[7] == tag[7] && l[8] == tag[8]) by {
                assert(l.take(tag.len() as int)[0] == tag[0]);
                assert(l.take(tag.len() as int)[4] == tag[4]);
                assert(l.take(tag.len() as int)[7] == tag[7]);
                assert(l.take(tag.len() as int)[8] == tag[8]);
            }
            if 6 <= i < 6 + 2 * files.len() {
                let j = (i - 6) / 2;
                let f = files[j];
                assert(says_segment(out, 6 + 2 * j, base_url, f));
                assert((base_url + "/"@ + f)[0] == base_url[0]);
                assert(i == 6 + 2 * j || i == 6 + 2 * j + 1);
            }
        }
    }
}

proof fn lemma_listed_count(ls: Seq<Seq<char>>, file: Seq<char>)
    ensures
        listed_segments(ls).to_multiset().count(file) == (if has_prefix(file, "segment_"@)
            && has_suffix(file, ".m4s"@) && !has_suffix(file, "part0.m4s"@) && !has_suffix(
            file,
            "part1.m4s"@,
        ) {
            ls.filter(names_file(file)).len()
        } else {
            0
        }),
    decreases ls.len(),
{
    broadcast use vstd::seq_lib::group_to_multiset_ensures;

    reveal(Seq::filter);
    reveal_strlit("segment_");
    reveal_strlit("init.mp4");
    if ls.len() > 0 {
        let rest = ls.drop_last();
        lemma_listed_count(rest, file);
        let line = ls.last();
        let before = listed_segments(rest);
        if has_prefix("init.mp4"@, "segment_"@) {
            assert("init.mp4"@.take("segment_"@.len() as int)[0] == 's');
        }
        if words(line).len() >= 4 {
            let named = words(line)[3];
            assert(listed_file_of(line) == Some(named));
            if named != "init.mp4"@ && is_whole_segment(named) {
                assert(listed_segments(ls) =~= before.push(named));
            } else {
                assert(listed_segments(ls) =~= before);
            }
        } else {
            assert(listed_file_of(line) is None);
            assert(listed_segments(ls) =~= before);
        }
    } else {
        assert(listed_segments(ls) =~= Seq::<Seq<char>>::empty());
    }
}

/// A file is in the playlist as often as the listing names it, where it is a
/// segment in fragmented MP4 and neither of the two parts that a segment may have
/// beside it; no other file is in it.
pub proof fn law_vod_holds_listed_segments(ls: Seq<Seq<char>>, file: Seq<char>)
    ensures
        sorted::<ByNumber>(listed_segments(ls)).to_multiset().count(file) == (if has_prefix(
            file,
            "segment_"@,
        ) && has_suffix(file, ".m4s"@) && !has_suffix(file, "part0.m4s"@) && !has_suffix(
            file,
            "part1.m4s"@,
        ) {
            ls.filter(names_file(file)).len()
        } else {
            0
        }),
{
    lemma_listed_count(ls, file);
    lemma_sorted::<ByNumber>(listed_segments(ls));
}

proof fn lemma_listed_add(a: Seq<Seq<char>>, b: Seq<Seq<char>>)
    ensures
        listed_segments(a + b) == listed_segments(a) + listed_segments(b),
    decreases b.len(),
{
    if b.len() == 0 {
        assert(a + b =~= a);
        assert(listed_segments(a) + listed_segments(b) =~= listed_segments(a));
    } else {
        lemma_listed_add(a, b.drop_last());
        assert((a + b).drop_last() =~= a + b.drop_last());
        assert(listed_segments(a + b) =~= listed_segments(a) + listed_segments(b));
    }
}

/// The playlist does not depend on the order of the listing: exchanging its two
/// halves, wherever they part, gives the same text.
pub proof fn law_vod_ignores_order_of_listing(
    base_url: Seq<char>,
    a: Seq<Seq<char>>,
    b: Seq<Seq<char>>,
)
    ensures
        vod_playlist_of(base_url, a + b) == vod_playlist_of(base_url, b + a),
{
    broadcast use vstd::seq_lib::group_to_multiset_ensures;

    let x = listed_segments(a);
    let y = listed_segments(b);
    lemma_listed_add(a, b);
    lemma_listed_add(b, a);
    vstd::seq_lib::lemma_multiset_commutative(x, y);
    vstd::seq_lib::lemma_multiset_commutative(y, x);
    assert((x + y).to_multiset() =~= (y + x).to_multiset());
    lemma_sorted::<ByNumber>(x + y);
    lemma_sorted::<ByNumber>(y + x);
    law_sorting_is_unique::<ByNumber>(sorted::<ByNumber>(x + y), sorted::<ByNumber>(y + x));
    let c = a + b;
    let d = b + a;
    lemma_init(c);
    lemma_init(d);
    if lists_init(c) {
        let i = choose|i: int| 0 <= i < c.len() && #[trigger] names_file("init.mp4"@)(c[i]);
        let k = if i < a.len() {
            i + b.len()
        } else {
            i - a.len()
        };
        assert(d[k] == c[i]);
        assert(names_file("init.mp4"@)(d[k]));
    }
    if lists_init(d) {
        let i = choose|i: int| 0 <= i < d.len() && #[trigger] names_file("init.mp4"@)(d[i]);
        let k = if i < b.len() {
            i + a.len()
        } else {
            i - b.len()
        };
        assert(c[k] == d[i]);
        assert(names_file("init.mp4"@)(c[k]));
    }
}

/// The address of a stream is that of its bucket in its region, and its name.
pub proof fn law_stream_address(bucket: Seq<char>, region: Seq<char>, stream_name: Seq<char>)
    ensures
        ({
            let url = stream_url_of(bucket, region, stream_name);
            let host = value_behind(url, "https://"@);
            &&& has_prefix(url, "https://"@)
            &&& has_prefix(host, bucket)
            &&& has_prefix(value_behind(host, bucket), ".s3."@)
            &&& has_prefix(value_behind(value_behind(host, bucket), ".s3."@), region)
            &&& value_behind(value_behind(value_behind(host, bucket), ".s3."@), region)
                == ".amazonaws.com/"@ + stream_name
        }),
{
    let url = stream_url_of(bucket, region, stream_name);
    let tail = ".amazonaws.com/"@ + stream_name;
    assert(url =~= "https://"@ + (bucket + (".s3."@ + (region + tail))));
    lemma_behind("https://"@, bucket + (".s3."@ + (region + tail)));
    lemma_behind(bucket, ".s3."@ + (region + tail));
    lemma_behind(".s3."@, region + tail);
    lemma_behind(region, tail);
}

/// What stands behind `front`, with which the text begins.
pub open spec fn value_behind(s: Seq<char>, front: Seq<char>) -> Seq<char> {
    s.skip(front.len() as int)
}

proof fn lemma_behind(front: Seq<char>, rest: Seq<char>)
    ensures
        has_prefix(front + rest, front),
        value_behind(front + rest, front) == rest,
{
    assert((front + rest).take(front.len() as int) =~= front);
    assert(value_behind(front + rest, front) =~= rest);
}

/// The master playlist of a stream that has ended leads to the playlist of its
/// segments in its bucket: its last line is the address of that.
pub proof fn law_replay_master_leads_to_vod(bucket: Seq<char>, stream_name: Seq<char>)
    ensures
        has_prefix(replay_master_of(bucket, stream_name), "#EXTM3U\n"@),
        has_suffix(
            replay_master_of(bucket, stream_name),
            "\nhttps://"@ + bucket + ".s3.ap-northeast-2.amazonaws.com/"@ + stream_name
                + "/vod_playlist.m3u8\n"@,
        ),
{
    let s = replay_master_of(bucket, stream_name);
    let end = "\nhttps://"@ + bucket + ".s3.ap-northeast-2.amazonaws.com/"@ + stream_name
        + "/vod_playlist.m3u8\n"@;
    reveal_strlit("#EXTM3U\n");
    reveal_strlit("\nhttps://");
    reveal_strlit(
        "#EXTM3U\n#EXT-X-VERSION:7\n#EXT-X-INDEPENDENT-SEGMENTS\n\n# VOD Replay Stream\n#EXT-X-STREAM-INF:BANDWIDTH=5000000,RESOLUTION=1920x1080,FRAME-RATE=60.00,CODECS=\"avc1.640028,mp4a.40.2\",NAME=\"1080p60-VOD\"\nhttps://",
    );
    assert(s.take("#EXTM3U\n"@.len() as int) =~= "#EXTM3U\n"@);
    assert(s.skip(s.len() - end.len()) =~= end);
}

/// A playlist is uploaded as what it is, before everything else, under its name
/// and with its text.
pub proof fn law_playlist_is_uploaded_first(
    stream_name: Seq<char>,
    file_name: Seq<char>,
    content: Seq<char>,
    now: Timestamp,
)
    ensures
        ({
            let upload = playlist_segment(stream_name, file_name, content, now);
            &&& upload.stream_name == stream_name
            &&& upload.file_name == file_name
            &&& upload.data == encode_utf8(content)
            &&& upload.content_type == "application/vnd.apple.mpegurl"@
            &&& upload.priority == u8::MAX
            &&& upload.created_at == now
        }),
{
}

} // verus!
