//! The lines of a low-latency media playlist.

use crate::float::Double;
use crate::number::{dec, dec_fixed, dec_point, digit_char, is_digit, lemma_dec_reads_back};
use crate::streaming::ll_hls_playlist::{
    dates_are_plain, head_text, independence, init_text, media_playlist_text,
    part_entry, part_liner, part_name, report_entry, report_liner, segment_tail, segment_text,
    segment_texter, GeneratorModel, PartModel, RenditionReport, SegmentModel,
};
use crate::text::{has_prefix, lines, without_cr};
use crate::writer::{
    concat, ended, lemma_concat_add, lemma_lines_of_unlines, lemma_unlines_one, one_line, stripped,
    unlines,
};
use vstd::prelude::*;

verus! {

/// The lines of the head of a playlist, of which the last is empty.
pub open spec fn head_lines(m: GeneratorModel) -> Seq<Seq<char>> {
    seq![
        "#EXTM3U"@,
        "#EXT-X-VERSION:10"@,
        "#EXT-X-INDEPENDENT-SEGMENTS"@,
        "#EXT-X-TARGETDURATION:"@ + dec(m.target_duration.rounded_up() as nat),
        "#EXT-X-SERVER-CONTROL:CAN-BLOCK-RELOAD=YES,PART-HOLD-BACK="@
            + m.part_hold_back.six_decimals(),
        "#EXT-X-PART-INF:PART-TARGET="@ + m.part_target.six_decimals(),
        "#EXT-X-MEDIA-SEQUENCE:"@ + dec(m.media_sequence as nat),
        "#EXT-X-DISCONTINUITY-SEQUENCE:"@ + dec(m.discontinuity_sequence as nat),
        "#EXT-X-DATERANGE:ID=\"stream-start\",START-DATE=\""@ + m.start_date.millis_text() + "\""@,
        Seq::empty(),
    ]
}

/// The line of the initialisation segment, where there is one.
pub open spec fn init_lines(init: Option<Seq<char>>) -> Seq<Seq<char>> {
    match init {
        Some(name) => seq!["#EXT-X-MAP:URI=\""@ + name + "\""@],
        None => Seq::empty(),
    }
}

/// The line of the wall-clock time of a segment.
pub open spec fn time_entry(s: SegmentModel) -> Seq<char> {
    "#EXT-X-PROGRAM-DATE-TIME:"@ + s.program_date_time.millis_text()
}

/// The line of the duration of a segment.
pub open spec fn duration_entry(s: SegmentModel) -> Seq<char> {
    "#EXTINF:"@ + s.duration.six_decimals() + ","@
}

/// The line that hints at the part that comes next in a segment.
pub open spec fn hint_entry(m: GeneratorModel, s: SegmentModel) -> Seq<char> {
    "#EXT-X-PRELOAD-HINT:TYPE=PART,URI=\""@ + part_name(m, s.sequence as nat, s.parts.len())
        + "\""@
}

/// The segment is in progress and has parts.
pub open spec fn is_hinted(s: SegmentModel) -> bool {
    !s.is_complete && s.parts.len() > 0
}

/// The lines that follow the parts of a segment.
pub open spec fn tail_lines(m: GeneratorModel, s: SegmentModel) -> Seq<Seq<char>> {
    if s.is_complete {
        seq![duration_entry(s), s.filename]
    } else if s.parts.len() > 0 {
        seq![hint_entry(m, s)]
    } else {
        Seq::empty()
    }
}

/// Gives each part its line.
pub open spec fn part_entries() -> spec_fn(PartModel) -> Seq<char> {
    |p: PartModel| part_entry(p)
}

/// Gives each report its line.
pub open spec fn report_entries() -> spec_fn(RenditionReport) -> Seq<char> {
    |r: RenditionReport| report_entry(r)
}

/// The lines of a segment.
pub open spec fn segment_lines(m: GeneratorModel, s: SegmentModel) -> Seq<Seq<char>> {
    seq![time_entry(s)] + s.parts.map_values(part_entries()) + tail_lines(m, s)
}

/// The lines of segments, from the oldest to the newest.
pub open spec fn window_lines(m: GeneratorModel, segments: Seq<SegmentModel>) -> Seq<Seq<char>>
    decreases segments.len(),
{
    if segments.len() == 0 {
        Seq::empty()
    } else {
        window_lines(m, segments.drop_last()) + segment_lines(m, segments.last())
    }
}

/// The lines of a playlist.
pub open spec fn playlist_lines(
    m: GeneratorModel,
    reports: Seq<RenditionReport>,
) -> Seq<Seq<char>> {
    head_lines(m) + init_lines(m.init_segment) + window_lines(m, m.segments) + reports.map_values(
        report_entries(),
    )
}

proof fn lemma_mapped<T>(items: Seq<T>, f: spec_fn(T) -> Seq<char>, g: spec_fn(T) -> Seq<char>)
    requires
        forall|x: T| #[trigger] f(x) == g(x) + "\n"@,
    ensures
        concat(items, f) == unlines(items.map_values(g)),
    decreases items.len(),
{
    let all = items.map_values(g);
    if items.len() > 0 {
        lemma_mapped(items.drop_last(), f, g);
        assert(all.drop_last() =~= items.drop_last().map_values(g));
        assert(all.last() == g(items.last()));
    }
}

proof fn lemma_tail(m: GeneratorModel, s: SegmentModel)
    ensures
        segment_tail(m, s) == unlines(tail_lines(m, s)),
{
    reveal_strlit("\n");
    reveal_strlit(",");
    reveal_strlit(",\n");
    reveal_strlit("\"");
    reveal_strlit("\"\n");
    let ls = tail_lines(m, s);
    if s.is_complete {
        lemma_unlines_one(duration_entry(s));
        lemma_unlines_one(s.filename);
        lemma_concat_add(seq![duration_entry(s)], seq![s.filename], ended());
        assert(ls =~= seq![duration_entry(s)] + seq![s.filename]);
        assert(segment_tail(m, s) =~= unlines(ls));
    } else if s.parts.len() > 0 {
        lemma_unlines_one(hint_entry(m, s));
        assert(segment_tail(m, s) =~= unlines(ls));
    }
}

proof fn lemma_segment(m: GeneratorModel, s: SegmentModel)
    ensures
        segment_text(m, s) == unlines(segment_lines(m, s)),
{
    let time = seq![time_entry(s)];
    let parts = s.parts.map_values(part_entries());
    lemma_tail(m, s);
    lemma_unlines_one(time_entry(s));
    lemma_mapped(s.parts, part_liner(), part_entries());
    lemma_concat_add(time, parts, ended());
    lemma_concat_add(time + parts, tail_lines(m, s), ended());
}

proof fn lemma_window(m: GeneratorModel, segments: Seq<SegmentModel>)
    ensures
        concat(segments, segment_texter(m)) == unlines(window_lines(m, segments)),
    decreases segments.len(),
{
    if segments.len() > 0 {
        lemma_window(m, segments.drop_last());
        lemma_segment(m, segments.last());
        lemma_concat_add(
            window_lines(m, segments.drop_last()),
            segment_lines(m, segments.last()),
            ended(),
        );
    }
}

proof fn lemma_unlines_push(ls: Seq<Seq<char>>, l: Seq<char>)
    ensures
        unlines(ls.push(l)) == unlines(ls) + l + "\n"@,
{
    assert(ls.push(l).drop_last() =~= ls);
    assert(unlines(ls) + (l + "\n"@) =~= unlines(ls) + l + "\n"@);
}

proof fn lemma_head(m: GeneratorModel)
    ensures
        head_text(m) == unlines(head_lines(m)),
{
    reveal_strlit("\n");
    reveal_strlit("\"");
    reveal_strlit("\"\n");
    reveal_strlit("#EXTM3U");
    reveal_strlit("#EXTM3U\n");
    reveal_strlit("#EXT-X-VERSION:10");
    reveal_strlit("#EXT-X-VERSION:10\n");
    reveal_strlit("#EXT-X-INDEPENDENT-SEGMENTS");
    reveal_strlit("#EXT-X-INDEPENDENT-SEGMENTS\n");
    assert("#EXTM3U\n"@ =~= "#EXTM3U"@ + "\n"@);
    assert("#EXT-X-VERSION:10\n"@ =~= "#EXT-X-VERSION:10"@ + "\n"@);
    assert("#EXT-X-INDEPENDENT-SEGMENTS\n"@ =~= "#EXT-X-INDEPENDENT-SEGMENTS"@ + "\n"@);
    assert("\"\n"@ =~= "\""@ + "\n"@);
    lemma_joined(m);
}

proof fn lemma_joined(m: GeneratorModel)
    requires
        "#EXTM3U\n"@ == "#EXTM3U"@ + "\n"@,
        "#EXT-X-VERSION:10\n"@ == "#EXT-X-VERSION:10"@ + "\n"@,
        "#EXT-X-INDEPENDENT-SEGMENTS\n"@ == "#EXT-X-INDEPENDENT-SEGMENTS"@ + "\n"@,
        "\"\n"@ == "\""@ + "\n"@,
    ensures
        head_text(m) == unlines(head_lines(m)),
{
    let ls = head_lines(m);
    assert(unlines(Seq::<Seq<char>>::empty()) =~= Seq::<char>::empty());
    let none = Seq::<Seq<char>>::empty();
    lemma_unlines_push(none, ls[0]);
    lemma_unlines_push(ls.take(1), ls[1]);
    lemma_unlines_push(ls.take(2), ls[2]);
    lemma_unlines_push(ls.take(3), ls[3]);
    lemma_unlines_push(ls.take(4), ls[4]);
    lemma_unlines_push(ls.take(5), ls[5]);
    lemma_unlines_push(ls.take(6), ls[6]);
    lemma_unlines_push(ls.take(7), ls[7]);
    lemma_unlines_push(ls.take(8), ls[8]);
    lemma_unlines_push(ls.take(9), ls[9]);
    assert(ls.take(1) =~= none.push(ls[0]));
    assert(ls.take(2) =~= ls.take(1).push(ls[1]));
    assert(ls.take(3) =~= ls.take(2).push(ls[2]));
    assert(ls.take(4) =~= ls.take(3).push(ls[3]));
    assert(ls.take(5) =~= ls.take(4).push(ls[4]));
    assert(ls.take(6) =~= ls.take(5).push(ls[5]));
    assert(ls.take(7) =~= ls.take(6).push(ls[6]));
    assert(ls.take(8) =~= ls.take(7).push(ls[7]));
    assert(ls.take(9) =~= ls.take(8).push(ls[8]));
    assert(ls =~= ls.take(9).push(ls[9]));
    assert(head_text(m) =~= unlines(ls));
}

/// The text of a playlist is made of its lines, each of which ends in a
/// newline.
pub proof fn law_playlist_is_its_lines(m: GeneratorModel, reports: Seq<RenditionReport>)
    ensures
        media_playlist_text(m, reports) == unlines(playlist_lines(m, reports)),
{
    let head = head_lines(m);
    let init = init_lines(m.init_segment);
    let window = window_lines(m, m.segments);
    let last = reports.map_values(report_entries());
    lemma_head(m);
    lemma_window(m, m.segments);
    lemma_mapped(reports, report_liner(), report_entries());
    assert(init_text(m.init_segment) =~= unlines(init)) by {
        match m.init_segment {
            Some(name) => {
                reveal_strlit("\n");
                reveal_strlit("\"");
                reveal_strlit("\"\n");
                lemma_unlines_one(init[0]);
                assert(init =~= seq![init[0]]);
            },
            None => {},
        }
    }
    lemma_concat_add(head, init, ended());
    lemma_concat_add(head + init, window, ended());
    lemma_concat_add(head + init + window, last, ended());
}

/// A file name that can stand on a line of its own: it holds no line feed and
/// does not begin like a tag.
pub open spec fn is_file_line(name: Seq<char>) -> bool {
    one_line(name) && (name.len() > 0 ==> name[0] != '#')
}

/// No name that a playlist gives holds a line feed, and no file name of a
/// complete segment begins like a tag.
pub open spec fn names_are_plain(m: GeneratorModel, reports: Seq<RenditionReport>) -> bool {
    &&& one_line(m.quality_name)
    &&& one_line(m.stream_name)
    &&& m.init_segment is Some ==> one_line(m.init_segment->0)
    &&& forall|i: int| 0 <= i < m.segments.len() ==> segment_is_plain(#[trigger] m.segments[i])
    &&& forall|i: int| 0 <= i < reports.len() ==> one_line((#[trigger] reports[i]).uri@)
}

/// The names of a segment and of its parts are plain.
pub open spec fn segment_is_plain(s: SegmentModel) -> bool {
    &&& s.is_complete ==> is_file_line(s.filename)
    &&& forall|i: int| 0 <= i < s.parts.len() ==> one_line((#[trigger] s.parts[i]).filename)
}

proof fn lemma_numeral(n: nat)
    ensures
        one_line(dec(n)),
{
    lemma_dec_reads_back(n);
    assert forall|i: int| 0 <= i < dec(n).len() implies #[trigger] dec(n)[i] != '\n' by {
        assert(is_digit(dec(n)[i]));
    }
}

proof fn lemma_fixed(n: nat, width: nat)
    ensures
        one_line(dec_fixed(n, width)),
    decreases width,
{
    if width > 0 {
        lemma_fixed(n / 10, (width - 1) as nat);
        assert(is_digit(digit_char((n % 10) as int)));
    }
}

proof fn lemma_point(n: nat, scale: nat, width: nat)
    ensures
        one_line(dec_point(n, scale, width)),
{
    lemma_numeral(n / scale);
    lemma_fixed(n % scale, width);
}

proof fn lemma_printed(d: Double, scale: nat, width: nat)
    ensures
        one_line(d.printed(scale, width)),
{
    reveal_strlit("NaN");
    reveal_strlit("inf");
    reveal_strlit("-");
    lemma_point(d.scaled(scale), scale, width);
}

proof fn lemma_decimals(d: Double)
    ensures
        one_line(d.six_decimals()),
{
    lemma_printed(d, 1_000_000, 6);
}

proof fn lemma_head_is_plain(m: GeneratorModel)
    requires
        one_line(m.start_date.millis_text()),
    ensures
        forall|i: int| 0 <= i < head_lines(m).len() ==> one_line(#[trigger] head_lines(m)[i]),
{
    reveal_strlit("#EXTM3U");
    reveal_strlit("#EXT-X-VERSION:10");
    reveal_strlit("#EXT-X-INDEPENDENT-SEGMENTS");
    reveal_strlit("#EXT-X-TARGETDURATION:");
    reveal_strlit("#EXT-X-SERVER-CONTROL:CAN-BLOCK-RELOAD=YES,PART-HOLD-BACK=");
    reveal_strlit("#EXT-X-PART-INF:PART-TARGET=");
    reveal_strlit("#EXT-X-MEDIA-SEQUENCE:");
    reveal_strlit("#EXT-X-DISCONTINUITY-SEQUENCE:");
    reveal_strlit("#EXT-X-DATERANGE:ID=\"stream-start\",START-DATE=\"");
    reveal_strlit("\"");
    let ls = head_lines(m);
    lemma_numeral(m.target_duration.rounded_up() as nat);
    lemma_decimals(m.part_hold_back);
    lemma_decimals(m.part_target);
    lemma_numeral(m.media_sequence as nat);
    lemma_numeral(m.discontinuity_sequence as nat);
    assert(one_line(ls[0]));
    assert(one_line(ls[1]));
    assert(one_line(ls[2]));
    assert(one_line(ls[3]));
    assert(one_line(ls[4]));
    assert(one_line(ls[5]));
    assert(one_line(ls[6]));
    assert(one_line(ls[7]));
    assert(one_line(ls[8]));
    assert(one_line(ls[9]));
}

proof fn lemma_part_is_plain(p: PartModel)
    requires
        one_line(p.filename),
    ensures
        one_line(part_entry(p)),
{
    reveal_strlit("#EXT-X-PART:DURATION=");
    reveal_strlit(",URI=\"");
    reveal_strlit("\"");
    reveal_strlit(",INDEPENDENT=YES");
    lemma_decimals(p.duration);
    assert(one_line(independence(p.independent)));
}

proof fn lemma_segment_is_plain(m: GeneratorModel, s: SegmentModel)
    requires
        one_line(m.quality_name),
        one_line(m.stream_name),
        one_line(s.program_date_time.millis_text()),
        segment_is_plain(s),
    ensures
        forall|i: int|
            0 <= i < segment_lines(m, s).len() ==> one_line(#[trigger] segment_lines(m, s)[i]),
{
    let ls = segment_lines(m, s);
    let n = s.parts.len() as int;
    assert forall|i: int| 0 <= i < ls.len() implies one_line(#[trigger] ls[i]) by {
        if i == 0 {
            reveal_strlit("#EXT-X-PROGRAM-DATE-TIME:");
            assert(one_line(time_entry(s)));
        } else if i <= n {
            lemma_part_is_plain(s.parts[i - 1]);
            assert(ls[i] == part_entry(s.parts[i - 1]));
        } else {
            assert(ls[i] == tail_lines(m, s)[i - 1 - n]);
            if s.is_complete {
                reveal_strlit("#EXTINF:");
                reveal_strlit(",");
                lemma_decimals(s.duration);
                assert(one_line(duration_entry(s)));
            } else {
                reveal_strlit("#EXT-X-PRELOAD-HINT:TYPE=PART,URI=\"");
                reveal_strlit("\"");
                reveal_strlit("_");
                lemma_numeral(s.sequence as nat);
                lemma_numeral(s.parts.len());
                assert(one_line(part_name(m, s.sequence as nat, s.parts.len())));
                assert(one_line(hint_entry(m, s)));
            }
        }
    }
}

proof fn lemma_window_is_plain(m: GeneratorModel, segments: Seq<SegmentModel>)
    requires
        one_line(m.quality_name),
        one_line(m.stream_name),
        forall|i: int|
            0 <= i < segments.len() ==> segment_is_plain(#[trigger] segments[i]) && one_line(
                segments[i].program_date_time.millis_text(),
            ),
    ensures
        forall|i: int|
            0 <= i < window_lines(m, segments).len() ==> one_line(
                #[trigger] window_lines(m, segments)[i],
            ),
    decreases segments.len(),
{
    if segments.len() > 0 {
        lemma_window_is_plain(m, segments.drop_last());
        assert(segment_is_plain(segments[segments.len() - 1]));
        lemma_segment_is_plain(m, segments.last());
        let before = window_lines(m, segments.drop_last());
        let ls = window_lines(m, segments);
        assert forall|i: int| 0 <= i < ls.len() implies one_line(#[trigger] ls[i]) by {
            if i < before.len() {
                assert(ls[i] == before[i]);
            } else {
                assert(ls[i] == segment_lines(m, segments.last())[i - before.len()]);
            }
        }
    }
}

/// Where no name holds a line feed, the lines of the text of a playlist are
/// those of the playlist, but for a final carriage return.
pub proof fn law_playlist_reads_as_its_lines(m: GeneratorModel, reports: Seq<RenditionReport>)
    requires
        names_are_plain(m, reports),
        dates_are_plain(m),
    ensures
        lines(media_playlist_text(m, reports)) == playlist_lines(m, reports).map_values(stripped()),
{
    let head = head_lines(m);
    let init = init_lines(m.init_segment);
    let window = window_lines(m, m.segments);
    let last = reports.map_values(report_entries());
    let ls = playlist_lines(m, reports);
    law_playlist_is_its_lines(m, reports);
    lemma_head_is_plain(m);
    assert forall|i: int| 0 <= i < m.segments.len() implies segment_is_plain(
        #[trigger] m.segments[i],
    ) && one_line(m.segments[i].program_date_time.millis_text()) by {
    }
    lemma_window_is_plain(m, m.segments);
    assert forall|i: int| 0 <= i < ls.len() implies one_line(#[trigger] ls[i]) by {
        let a = head.len() as int;
        let b = a + init.len();
        let c = b + window.len();
        if i < a {
            assert(ls[i] == head[i]);
        } else if i < b {
            assert(ls[i] == init[i - a]);
            reveal_strlit("#EXT-X-MAP:URI=\"");
            reveal_strlit("\"");
            assert(one_line("#EXT-X-MAP:URI=\""@ + m.init_segment->0 + "\""@));
        } else if i < c {
            assert(ls[i] == window[i - b]);
        } else {
            let r = reports[i - c];
            assert(ls[i] == report_entry(r));
            reveal_strlit("#EXT-X-RENDITION-REPORT:URI=\"");
            reveal_strlit("\",LAST-MSN=");
            reveal_strlit(",LAST-PART=");
            lemma_numeral(r.last_msn as nat);
            lemma_numeral(r.last_part as nat);
        }
    }
    lemma_lines_of_unlines(ls);
}

/// The lines that begin with a tag.
pub open spec fn begins_with(tag: Seq<char>) -> spec_fn(Seq<char>) -> bool {
    |l: Seq<char>| has_prefix(l, tag)
}

/// The segments that are complete.
pub open spec fn complete() -> spec_fn(SegmentModel) -> bool {
    |s: SegmentModel| s.is_complete
}

/// The segments that are in progress and have parts.
pub open spec fn hinted() -> spec_fn(SegmentModel) -> bool {
    |s: SegmentModel| is_hinted(s)
}

/// Gives each segment the line of its duration.
pub open spec fn duration_entries() -> spec_fn(SegmentModel) -> Seq<char> {
    |s: SegmentModel| duration_entry(s)
}

/// Gives each segment the line that hints at its next part.
pub open spec fn hint_entries(m: GeneratorModel) -> spec_fn(SegmentModel) -> Seq<char> {
    |s: SegmentModel| hint_entry(m, s)
}

/// The parts of all segments, in the order of the segments.
pub open spec fn all_parts(segments: Seq<SegmentModel>) -> Seq<PartModel>
    decreases segments.len(),
{
    if segments.len() == 0 {
        Seq::empty()
    } else {
        all_parts(segments.drop_last()) + segments.last().parts
    }
}

/// `line` begins with none of the tags of durations, parts, hints and the
/// initialisation segment.
spec fn is_other(line: Seq<char>) -> bool {
    &&& !has_prefix(line, "#EXTINF:"@)
    &&& !has_prefix(line, "#EXT-X-PART:"@)
    &&& !has_prefix(line, "#EXT-X-PRELOAD-HINT:"@)
    &&& !has_prefix(line, "#EXT-X-MAP:"@)
}

proof fn lemma_differs(line: Seq<char>, tag: Seq<char>, k: int)
    requires
        0 <= k < tag.len(),
        k < line.len() ==> line[k] != tag[k],
    ensures
        !has_prefix(line, tag),
{
    if has_prefix(line, tag) {
        assert(line.take(tag.len() as int)[k] == line[k]);
    }
}

/// Where in a line it differs from each of the four tags.
proof fn lemma_other(line: Seq<char>, duration: int, part: int, hint: int, init: int)
    requires
        0 <= duration < "#EXTINF:"@.len(),
        0 <= part < "#EXT-X-PART:"@.len(),
        0 <= hint < "#EXT-X-PRELOAD-HINT:"@.len(),
        0 <= init < "#EXT-X-MAP:"@.len(),
        duration < line.len() ==> line[duration] != "#EXTINF:"@[duration],
        part < line.len() ==> line[part] != "#EXT-X-PART:"@[part],
        hint < line.len() ==> line[hint] != "#EXT-X-PRELOAD-HINT:"@[hint],
        init < line.len() ==> line[init] != "#EXT-X-MAP:"@[init],
    ensures
        is_other(line),
{
    lemma_differs(line, "#EXTINF:"@, duration);
    lemma_differs(line, "#EXT-X-PART:"@, part);
    lemma_differs(line, "#EXT-X-PRELOAD-HINT:"@, hint);
    lemma_differs(line, "#EXT-X-MAP:"@, init);
}

proof fn lemma_head_is_other(m: GeneratorModel)
    ensures
        forall|i: int| 0 <= i < head_lines(m).len() ==> is_other(#[trigger] head_lines(m)[i]),
{
    reveal_strlit("#EXTINF:");
    reveal_strlit("#EXT-X-PART:");
    reveal_strlit("#EXT-X-PRELOAD-HINT:");
    reveal_strlit("#EXT-X-MAP:");
    reveal_strlit("#EXTM3U");
    reveal_strlit("#EXT-X-VERSION:10");
    reveal_strlit("#EXT-X-INDEPENDENT-SEGMENTS");
    reveal_strlit("#EXT-X-TARGETDURATION:");
    reveal_strlit("#EXT-X-SERVER-CONTROL:CAN-BLOCK-RELOAD=YES,PART-HOLD-BACK=");
    reveal_strlit("#EXT-X-PART-INF:PART-TARGET=");
    reveal_strlit("#EXT-X-MEDIA-SEQUENCE:");
    reveal_strlit("#EXT-X-DISCONTINUITY-SEQUENCE:");
    reveal_strlit("#EXT-X-DATERANGE:ID=\"stream-start\",START-DATE=\"");
    let ls = head_lines(m);
    lemma_other(ls[0], 4, 4, 4, 4);
    lemma_other(ls[1], 4, 7, 7, 7);
    lemma_other(ls[2], 4, 7, 7, 7);
    lemma_other(ls[3], 4, 7, 7, 7);
    lemma_other(ls[4], 4, 7, 7, 7);
    lemma_other(ls[5], 4, 11, 8, 7);
    lemma_other(ls[6], 4, 7, 7, 8);
    lemma_other(ls[7], 4, 7, 7, 7);
    lemma_other(ls[8], 4, 7, 7, 7);
    lemma_other(ls[9], 0, 0, 0, 0);
}

proof fn lemma_report_is_other(r: RenditionReport)
    ensures
        is_other(report_entry(r)),
{
    reveal_strlit("#EXTINF:");
    reveal_strlit("#EXT-X-PART:");
    reveal_strlit("#EXT-X-PRELOAD-HINT:");
    reveal_strlit("#EXT-X-MAP:");
    reveal_strlit("#EXT-X-RENDITION-REPORT:URI=\"");
    lemma_other(report_entry(r), 4, 7, 7, 7);
}

proof fn lemma_time_is_other(s: SegmentModel)
    ensures
        is_other(time_entry(s)),
{
    reveal_strlit("#EXTINF:");
    reveal_strlit("#EXT-X-PART:");
    reveal_strlit("#EXT-X-PRELOAD-HINT:");
    reveal_strlit("#EXT-X-MAP:");
    reveal_strlit("#EXT-X-PROGRAM-DATE-TIME:");
    lemma_other(time_entry(s), 4, 8, 9, 7);
}

proof fn lemma_file_is_other(name: Seq<char>)
    requires
        is_file_line(name),
    ensures
        is_other(name),
{
    reveal_strlit("#EXTINF:");
    reveal_strlit("#EXT-X-PART:");
    reveal_strlit("#EXT-X-PRELOAD-HINT:");
    reveal_strlit("#EXT-X-MAP:");
    lemma_other(name, 0, 0, 0, 0);
}

/// A line that begins with one of the four tags begins with no other of them.
proof fn lemma_one_tag(line: Seq<char>)
    ensures
        has_prefix(line, "#EXTINF:"@) ==> !has_prefix(line, "#EXT-X-PART:"@) && !has_prefix(
            line,
            "#EXT-X-PRELOAD-HINT:"@,
        ) && !has_prefix(line, "#EXT-X-MAP:"@),
        has_prefix(line, "#EXT-X-PART:"@) ==> !has_prefix(line, "#EXT-X-PRELOAD-HINT:"@)
            && !has_prefix(line, "#EXT-X-MAP:"@),
        has_prefix(line, "#EXT-X-PRELOAD-HINT:"@) ==> !has_prefix(line, "#EXT-X-MAP:"@),
{
    reveal_strlit("#EXTINF:");
    reveal_strlit("#EXT-X-PART:");
    reveal_strlit("#EXT-X-PRELOAD-HINT:");
    reveal_strlit("#EXT-X-MAP:");
    if has_prefix(line, "#EXTINF:"@) {
        assert(line.take(8)[4] == line[4]);
        lemma_differs(line, "#EXT-X-PART:"@, 4);
        lemma_differs(line, "#EXT-X-PRELOAD-HINT:"@, 4);
        lemma_differs(line, "#EXT-X-MAP:"@, 4);
    }
    if has_prefix(line, "#EXT-X-PART:"@) {
        assert(line.take(12)[7] == line[7]);
        assert(line.take(12)[8] == line[8]);
        lemma_differs(line, "#EXT-X-PRELOAD-HINT:"@, 8);
        lemma_differs(line, "#EXT-X-MAP:"@, 7);
    }
    if has_prefix(line, "#EXT-X-PRELOAD-HINT:"@) {
        assert(line.take(20)[7] == line[7]);
        lemma_differs(line, "#EXT-X-MAP:"@, 7);
    }
}

proof fn lemma_own_tags(m: GeneratorModel, s: SegmentModel, p: PartModel, name: Seq<char>)
    ensures
        has_prefix(duration_entry(s), "#EXTINF:"@),
        has_prefix(part_entry(p), "#EXT-X-PART:"@),
        has_prefix(hint_entry(m, s), "#EXT-X-PRELOAD-HINT:"@),
        has_prefix("#EXT-X-MAP:URI=\""@ + name + "\""@, "#EXT-X-MAP:"@),
{
    reveal_strlit("#EXTINF:");
    reveal_strlit("#EXT-X-PART:");
    reveal_strlit("#EXT-X-PRELOAD-HINT:");
    reveal_strlit("#EXT-X-MAP:");
    reveal_strlit("#EXT-X-PART:DURATION=");
    reveal_strlit("#EXT-X-PRELOAD-HINT:TYPE=PART,URI=\"");
    reveal_strlit("#EXT-X-MAP:URI=\"");
    assert(duration_entry(s).take(8) =~= "#EXTINF:"@);
    assert(part_entry(p).take(12) =~= "#EXT-X-PART:"@);
    assert(hint_entry(m, s).take(20) =~= "#EXT-X-PRELOAD-HINT:"@);
    assert(("#EXT-X-MAP:URI=\""@ + name + "\""@).take(11) =~= "#EXT-X-MAP:"@);
}

proof fn lemma_filter_none<T>(items: Seq<T>, keep: spec_fn(T) -> bool)
    requires
        forall|i: int| 0 <= i < items.len() ==> !keep(#[trigger] items[i]),
    ensures
        items.filter(keep) == Seq::<T>::empty(),
    decreases items.len(),
{
    reveal(Seq::filter);
    if items.len() > 0 {
        lemma_filter_none(items.drop_last(), keep);
    } else {
        assert(items =~= Seq::<T>::empty());
    }
}

proof fn lemma_filter_all<T>(items: Seq<T>, keep: spec_fn(T) -> bool)
    requires
        forall|i: int| 0 <= i < items.len() ==> keep(#[trigger] items[i]),
    ensures
        items.filter(keep) == items,
    decreases items.len(),
{
    reveal(Seq::filter);
    if items.len() > 0 {
        lemma_filter_all(items.drop_last(), keep);
        assert(items =~= items.drop_last().push(items.last()));
    }
}

/// What the four tags pick from the lines of a segment.
proof fn lemma_segment_picks(m: GeneratorModel, s: SegmentModel)
    requires
        segment_is_plain(s),
    ensures
        segment_lines(m, s).filter(begins_with("#EXTINF:"@)) == (if s.is_complete {
            seq![duration_entry(s)]
        } else {
            Seq::empty()
        }),
        segment_lines(m, s).filter(begins_with("#EXT-X-PART:"@)) == s.parts.map_values(
            part_entries(),
        ),
        segment_lines(m, s).filter(begins_with("#EXT-X-PRELOAD-HINT:"@)) == (if is_hinted(s) {
            seq![hint_entry(m, s)]
        } else {
            Seq::empty()
        }),
        segment_lines(m, s).filter(begins_with("#EXT-X-MAP:"@)) == Seq::<Seq<char>>::empty(),
{
    broadcast use Seq::filter_distributes_over_add;

    let time = seq![time_entry(s)];
    let parts = s.parts.map_values(part_entries());
    let tail = tail_lines(m, s);
    let none = Seq::<Seq<char>>::empty();
    let d = begins_with("#EXTINF:"@);
    let p = begins_with("#EXT-X-PART:"@);
    let h = begins_with("#EXT-X-PRELOAD-HINT:"@);
    let i = begins_with("#EXT-X-MAP:"@);
    lemma_time_is_other(s);
    lemma_filter_none(time, d);
    lemma_filter_none(time, p);
    lemma_filter_none(time, h);
    lemma_filter_none(time, i);
    assert forall|k: int| 0 <= k < parts.len() implies p(#[trigger] parts[k]) && !d(parts[k])
        && !h(parts[k]) && !i(parts[k]) by {
        lemma_own_tags(m, s, s.parts[k], none[0]);
        lemma_one_tag(parts[k]);
    }
    lemma_filter_all(parts, p);
    lemma_filter_none(parts, d);
    lemma_filter_none(parts, h);
    lemma_filter_none(parts, i);
    lemma_own_tags(m, s, s.parts[0], none[0]);
    if s.is_complete {
        lemma_file_is_other(s.filename);
        lemma_one_tag(duration_entry(s));
        let first = seq![duration_entry(s)];
        let second = seq![s.filename];
        assert(tail =~= first + second);
        lemma_filter_all(first, d);
        lemma_filter_none(first, p);
        lemma_filter_none(first, h);
        lemma_filter_none(first, i);
        lemma_filter_none(second, d);
        lemma_filter_none(second, p);
        lemma_filter_none(second, h);
        lemma_filter_none(second, i);
        assert(first + none =~= first);
        assert(none + none =~= none);
    } else if s.parts.len() > 0 {
        lemma_one_tag(hint_entry(m, s));
        lemma_filter_all(tail, h);
        lemma_filter_none(tail, d);
        lemma_filter_none(tail, p);
        lemma_filter_none(tail, i);
    } else {
        lemma_filter_none(tail, d);
        lemma_filter_none(tail, p);
        lemma_filter_none(tail, h);
        lemma_filter_none(tail, i);
    }
    assert(none + none + tail.filter(d) =~= tail.filter(d));
    assert(none + parts + none =~= parts);
    assert(none + none + tail.filter(h) =~= tail.filter(h));
    assert(none + none + none =~= none);
}

proof fn lemma_map_filter<T>(
    items: Seq<T>,
    keep: spec_fn(T) -> bool,
    f: spec_fn(T) -> Seq<char>,
)
    requires
        items.len() > 0,
    ensures
        items.filter(keep).map_values(f) == items.drop_last().filter(keep).map_values(f) + (if keep(
            items.last(),
        ) {
            seq![f(items.last())]
        } else {
            Seq::empty()
        }),
{
    reveal(Seq::filter);
    let rest = items.drop_last().filter(keep);
    if keep(items.last()) {
        assert(rest.push(items.last()).map_values(f) =~= rest.map_values(f) + seq![
            f(items.last()),
        ]);
    } else {
        assert(rest.map_values(f) + Seq::<Seq<char>>::empty() =~= rest.map_values(f));
    }
}

/// The lines that `f` gives for each segment, one after the other.
spec fn flat(segments: Seq<SegmentModel>, f: spec_fn(SegmentModel) -> Seq<Seq<char>>) -> Seq<
    Seq<char>,
>
    decreases segments.len(),
{
    if segments.len() == 0 {
        Seq::empty()
    } else {
        flat(segments.drop_last(), f) + f(segments.last())
    }
}

/// What is picked from the lines of segments is what is picked from the lines
/// of each.
proof fn lemma_window_pick(
    m: GeneratorModel,
    segments: Seq<SegmentModel>,
    keep: spec_fn(Seq<char>) -> bool,
    f: spec_fn(SegmentModel) -> Seq<Seq<char>>,
)
    requires
        forall|i: int|
            0 <= i < segments.len() ==> segment_lines(m, #[trigger] segments[i]).filter(keep) == f(
                segments[i],
            ),
    ensures
        window_lines(m, segments).filter(keep) == flat(segments, f),
    decreases segments.len(),
{
    if segments.len() == 0 {
        lemma_filter_none(window_lines(m, segments), keep);
    } else {
        let rest = segments.drop_last();
        lemma_window_pick(m, rest, keep, f);
        assert(segments[segments.len() - 1] == segments.last());
        Seq::filter_distributes_over_add(
            window_lines(m, rest),
            segment_lines(m, segments.last()),
            keep,
        );
    }
}

/// Gives a segment that is kept its line, and another none.
spec fn line_where(keep: spec_fn(SegmentModel) -> bool, f: spec_fn(SegmentModel) -> Seq<char>) ->
    spec_fn(SegmentModel) -> Seq<Seq<char>> {
    |s: SegmentModel|
        if keep(s) {
            seq![f(s)]
        } else {
            Seq::empty()
        }
}

proof fn lemma_flat_kept(
    segments: Seq<SegmentModel>,
    keep: spec_fn(SegmentModel) -> bool,
    f: spec_fn(SegmentModel) -> Seq<char>,
)
    ensures
        flat(segments, line_where(keep, f)) == segments.filter(keep).map_values(f),
    decreases segments.len(),
{
    if segments.len() == 0 {
        lemma_filter_none(segments, keep);
        assert(Seq::<SegmentModel>::empty().map_values(f) =~= Seq::<Seq<char>>::empty());
    } else {
        lemma_flat_kept(segments.drop_last(), keep, f);
        lemma_map_filter(segments, keep, f);
    }
}

/// Gives each segment the lines of its parts.
spec fn part_lines() -> spec_fn(SegmentModel) -> Seq<Seq<char>> {
    |s: SegmentModel| s.parts.map_values(part_entries())
}

proof fn lemma_flat_parts(segments: Seq<SegmentModel>)
    ensures
        flat(segments, part_lines()) == all_parts(segments).map_values(part_entries()),
    decreases segments.len(),
{
    if segments.len() == 0 {
        assert(all_parts(segments).map_values(part_entries()) =~= Seq::<Seq<char>>::empty());
    } else {
        let rest = segments.drop_last();
        lemma_flat_parts(rest);
        assert(all_parts(segments).map_values(part_entries()) =~= all_parts(rest).map_values(
            part_entries(),
        ) + segments.last().parts.map_values(part_entries()));
    }
}

/// The lines of durations among the lines of segments.
proof fn lemma_window_durations(m: GeneratorModel, segments: Seq<SegmentModel>)
    requires
        forall|i: int| 0 <= i < segments.len() ==> segment_is_plain(#[trigger] segments[i]),
    ensures
        window_lines(m, segments).filter(begins_with("#EXTINF:"@)) == segments.filter(
            complete(),
        ).map_values(duration_entries()),
{
    let keep = begins_with("#EXTINF:"@);
    let f = line_where(complete(), duration_entries());
    assert forall|k: int| 0 <= k < segments.len() implies segment_lines(
        m,
        #[trigger] segments[k],
    ).filter(keep) == f(segments[k]) by {
        lemma_segment_picks(m, segments[k]);
    }
    lemma_window_pick(m, segments, keep, f);
    lemma_flat_kept(segments, complete(), duration_entries());
}

/// The lines of parts among the lines of segments.
proof fn lemma_window_parts(m: GeneratorModel, segments: Seq<SegmentModel>)
    requires
        forall|i: int| 0 <= i < segments.len() ==> segment_is_plain(#[trigger] segments[i]),
    ensures
        window_lines(m, segments).filter(begins_with("#EXT-X-PART:"@)) == all_parts(
            segments,
        ).map_values(part_entries()),
{
    let keep = begins_with("#EXT-X-PART:"@);
    let f = part_lines();
    assert forall|k: int| 0 <= k < segments.len() implies segment_lines(
        m,
        #[trigger] segments[k],
    ).filter(keep) == f(segments[k]) by {
        lemma_segment_picks(m, segments[k]);
    }
    lemma_window_pick(m, segments, keep, f);
    lemma_flat_parts(segments);
}

/// The lines of hints among the lines of segments.
proof fn lemma_window_hints(m: GeneratorModel, segments: Seq<SegmentModel>)
    requires
        forall|i: int| 0 <= i < segments.len() ==> segment_is_plain(#[trigger] segments[i]),
    ensures
        window_lines(m, segments).filter(begins_with("#EXT-X-PRELOAD-HINT:"@)) == segments.filter(
            hinted(),
        ).map_values(hint_entries(m)),
{
    let keep = begins_with("#EXT-X-PRELOAD-HINT:"@);
    let f = line_where(hinted(), hint_entries(m));
    assert forall|k: int| 0 <= k < segments.len() implies segment_lines(
        m,
        #[trigger] segments[k],
    ).filter(keep) == f(segments[k]) by {
        lemma_segment_picks(m, segments[k]);
    }
    lemma_window_pick(m, segments, keep, f);
    lemma_flat_kept(segments, hinted(), hint_entries(m));
}

/// No line of a segment announces the initialisation segment.
proof fn lemma_window_inits(m: GeneratorModel, segments: Seq<SegmentModel>)
    requires
        forall|i: int| 0 <= i < segments.len() ==> segment_is_plain(#[trigger] segments[i]),
    ensures
        window_lines(m, segments).filter(begins_with("#EXT-X-MAP:"@)) == Seq::<Seq<char>>::empty(),
{
    let keep = begins_with("#EXT-X-MAP:"@);
    let never = |s: SegmentModel| false;
    let f = line_where(never, duration_entries());
    assert forall|k: int| 0 <= k < segments.len() implies segment_lines(
        m,
        #[trigger] segments[k],
    ).filter(keep) == f(segments[k]) by {
        lemma_segment_picks(m, segments[k]);
    }
    lemma_window_pick(m, segments, keep, f);
    lemma_flat_kept(segments, never, duration_entries());
    lemma_filter_none(segments, never);
    assert(Seq::<SegmentModel>::empty().map_values(duration_entries())
        =~= Seq::<Seq<char>>::empty());
}

/// Taking a final carriage return off lines changes nothing of those that begin
/// with a tag, where these end in something else.
proof fn lemma_stripped(ls: Seq<Seq<char>>, tag: Seq<char>)
    requires
        forall|i: int|
            0 <= i < ls.len() && has_prefix(#[trigger] ls[i], tag) ==> without_cr(ls[i]) == ls[i],
    ensures
        ls.map_values(stripped()).filter(begins_with(tag)) == ls.filter(begins_with(tag)),
    decreases ls.len(),
{
    reveal(Seq::filter);
    let all = ls.map_values(stripped());
    if ls.len() == 0 {
        assert(all =~= ls);
    } else {
        let l = ls.last();
        lemma_stripped(ls.drop_last(), tag);
        assert(all.drop_last() =~= ls.drop_last().map_values(stripped()));
        assert(ls[ls.len() - 1] == l);
        if has_prefix(without_cr(l), tag) {
            assert(l.take(tag.len() as int) =~= without_cr(l).take(tag.len() as int));
        }
    }
}

/// Lines of which those that begin with a tag are `picked`, which do not end in
/// a carriage return.
proof fn lemma_picked(ls: Seq<Seq<char>>, tag: Seq<char>, picked: Seq<Seq<char>>)
    requires
        ls.filter(begins_with(tag)) == picked,
        forall|i: int| 0 <= i < picked.len() ==> without_cr(#[trigger] picked[i]) == picked[i],
    ensures
        ls.map_values(stripped()).filter(begins_with(tag)) == picked,
{
    assert forall|i: int| 0 <= i < ls.len() && has_prefix(#[trigger] ls[i], tag) implies without_cr(
        ls[i],
    ) == ls[i] by {
        ls.lemma_filter_contains(begins_with(tag), i);
        let j = choose|j: int| 0 <= j < picked.len() && picked[j] == ls[i];
        assert(without_cr(picked[j]) == picked[j]);
    }
    lemma_stripped(ls, tag);
}

/// No line with one of the four tags ends in a carriage return.
proof fn lemma_ends(m: GeneratorModel, s: SegmentModel, p: PartModel, name: Seq<char>)
    ensures
        without_cr(duration_entry(s)) == duration_entry(s),
        without_cr(part_entry(p)) == part_entry(p),
        without_cr(hint_entry(m, s)) == hint_entry(m, s),
        without_cr("#EXT-X-MAP:URI=\""@ + name + "\""@) == "#EXT-X-MAP:URI=\""@ + name + "\""@,
{
    reveal_strlit(",");
    reveal_strlit("\"");
    reveal_strlit(",INDEPENDENT=YES");
    assert(duration_entry(s).last() == ',');
    assert(part_entry(p).last() == (if p.independent {
        'S'
    } else {
        '"'
    }));
    assert(hint_entry(m, s).last() == '"');
    assert(("#EXT-X-MAP:URI=\""@ + name + "\""@).last() == '"');
}

/// What is kept of four runs of lines is what is kept of each.
proof fn lemma_runs(
    a: Seq<Seq<char>>,
    b: Seq<Seq<char>>,
    c: Seq<Seq<char>>,
    d: Seq<Seq<char>>,
    keep: spec_fn(Seq<char>) -> bool,
)
    ensures
        (a + b + c + d).filter(keep) == a.filter(keep) + b.filter(keep) + c.filter(keep) + d.filter(
            keep,
        ),
{
    broadcast use Seq::filter_distributes_over_add;

}

/// The line of the initialisation segment has its own tag and no other.
proof fn lemma_init_picks(m: GeneratorModel)
    ensures
        init_lines(m.init_segment).filter(begins_with("#EXTINF:"@)) == Seq::<Seq<char>>::empty(),
        init_lines(m.init_segment).filter(begins_with("#EXT-X-PART:"@)) == Seq::<
            Seq<char>,
        >::empty(),
        init_lines(m.init_segment).filter(begins_with("#EXT-X-PRELOAD-HINT:"@)) == Seq::<
            Seq<char>,
        >::empty(),
        init_lines(m.init_segment).filter(begins_with("#EXT-X-MAP:"@)) == init_lines(
            m.init_segment,
        ),
{
    let init = init_lines(m.init_segment);
    let d = begins_with("#EXTINF:"@);
    let p = begins_with("#EXT-X-PART:"@);
    let h = begins_with("#EXT-X-PRELOAD-HINT:"@);
    let i = begins_with("#EXT-X-MAP:"@);
    assert forall|k: int| 0 <= k < init.len() implies i(#[trigger] init[k]) && !d(init[k])
        && !p(init[k]) && !h(init[k]) by {
        lemma_own_tags(m, m.segments[0], m.segments[0].parts[0], m.init_segment->0);
        lemma_one_tag(init[k]);
    }
    lemma_filter_none(init, d);
    lemma_filter_none(init, p);
    lemma_filter_none(init, h);
    lemma_filter_all(init, i);
}

/// Lines with none of the four tags are not picked by any.
proof fn lemma_others(ls: Seq<Seq<char>>)
    requires
        forall|k: int| 0 <= k < ls.len() ==> is_other(#[trigger] ls[k]),
    ensures
        ls.filter(begins_with("#EXTINF:"@)) == Seq::<Seq<char>>::empty(),
        ls.filter(begins_with("#EXT-X-PART:"@)) == Seq::<Seq<char>>::empty(),
        ls.filter(begins_with("#EXT-X-PRELOAD-HINT:"@)) == Seq::<Seq<char>>::empty(),
        ls.filter(begins_with("#EXT-X-MAP:"@)) == Seq::<Seq<char>>::empty(),
{
    lemma_filter_none(ls, begins_with("#EXTINF:"@));
    lemma_filter_none(ls, begins_with("#EXT-X-PART:"@));
    lemma_filter_none(ls, begins_with("#EXT-X-PRELOAD-HINT:"@));
    lemma_filter_none(ls, begins_with("#EXT-X-MAP:"@));
}

/// What the lines of a playlist announce.
proof fn lemma_announced(m: GeneratorModel, reports: Seq<RenditionReport>)
    requires
        names_are_plain(m, reports),
    ensures
        playlist_lines(m, reports).filter(begins_with("#EXTINF:"@)) == m.segments.filter(
            complete(),
        ).map_values(duration_entries()),
        playlist_lines(m, reports).filter(begins_with("#EXT-X-PART:"@)) == all_parts(
            m.segments,
        ).map_values(part_entries()),
        playlist_lines(m, reports).filter(begins_with("#EXT-X-PRELOAD-HINT:"@))
            == m.segments.filter(hinted()).map_values(hint_entries(m)),
        playlist_lines(m, reports).filter(begins_with("#EXT-X-MAP:"@)) == init_lines(
            m.init_segment,
        ),
{
    let head = head_lines(m);
    let init = init_lines(m.init_segment);
    let window = window_lines(m, m.segments);
    let last = reports.map_values(report_entries());
    let none = Seq::<Seq<char>>::empty();
    let d = begins_with("#EXTINF:"@);
    let p = begins_with("#EXT-X-PART:"@);
    let h = begins_with("#EXT-X-PRELOAD-HINT:"@);
    let i = begins_with("#EXT-X-MAP:"@);
    lemma_head_is_other(m);
    lemma_others(head);
    lemma_init_picks(m);
    lemma_window_durations(m, m.segments);
    lemma_window_parts(m, m.segments);
    lemma_window_hints(m, m.segments);
    lemma_window_inits(m, m.segments);
    assert forall|k: int| 0 <= k < last.len() implies is_other(#[trigger] last[k]) by {
        lemma_report_is_other(reports[k]);
    }
    lemma_others(last);
    lemma_runs(head, init, window, last, d);
    lemma_runs(head, init, window, last, p);
    lemma_runs(head, init, window, last, h);
    lemma_runs(head, init, window, last, i);
    assert(none + none + window.filter(d) + none =~= window.filter(d));
    assert(none + none + window.filter(p) + none =~= window.filter(p));
    assert(none + none + window.filter(h) + none =~= window.filter(h));
    assert(none + init + none + none =~= init);
}

/// Where no name holds a line feed and no file name of a complete segment
/// begins like a tag, the text of a playlist announces every complete segment
/// with its duration once, every part of every segment once, hints at the next
/// part of every segment that is in progress and has parts, and announces the
/// initialisation segment where there is one; each in the order of the
/// segments and of their parts, and nothing else of the kind.
pub proof fn law_playlist_announces_everything(m: GeneratorModel, reports: Seq<RenditionReport>)
    requires
        names_are_plain(m, reports),
        dates_are_plain(m),
    ensures
        lines(media_playlist_text(m, reports)).filter(begins_with("#EXTINF:"@))
            == m.segments.filter(complete()).map_values(duration_entries()),
        lines(media_playlist_text(m, reports)).filter(begins_with("#EXT-X-PART:"@)) == all_parts(
            m.segments,
        ).map_values(part_entries()),
        lines(media_playlist_text(m, reports)).filter(begins_with("#EXT-X-PRELOAD-HINT:"@))
            == m.segments.filter(hinted()).map_values(hint_entries(m)),
        lines(media_playlist_text(m, reports)).filter(begins_with("#EXT-X-MAP:"@)) == init_lines(
            m.init_segment,
        ),
{
    let ls = playlist_lines(m, reports);
    let durations = m.segments.filter(complete()).map_values(duration_entries());
    let hints = m.segments.filter(hinted()).map_values(hint_entries(m));
    let parts = all_parts(m.segments).map_values(part_entries());
    let any = m.segments[0];
    let part = any.parts[0];
    let name = m.init_segment->0;
    law_playlist_reads_as_its_lines(m, reports);
    lemma_announced(m, reports);
    assert forall|k: int| 0 <= k < durations.len() implies without_cr(#[trigger] durations[k])
        == durations[k] by {
        lemma_ends(m, m.segments.filter(complete())[k], part, name);
    }
    assert forall|k: int| 0 <= k < parts.len() implies without_cr(#[trigger] parts[k])
        == parts[k] by {
        lemma_ends(m, any, all_parts(m.segments)[k], name);
    }
    assert forall|k: int| 0 <= k < hints.len() implies without_cr(#[trigger] hints[k])
        == hints[k] by {
        lemma_ends(m, m.segments.filter(hinted())[k], part, name);
    }
    lemma_ends(m, any, part, name);
    lemma_picked(ls, "#EXTINF:"@, durations);
    lemma_picked(ls, "#EXT-X-PART:"@, parts);
    lemma_picked(ls, "#EXT-X-PRELOAD-HINT:"@, hints);
    lemma_picked(ls, "#EXT-X-MAP:"@, init_lines(m.init_segment));
}

} // verus!
