//! What a client reads in a low-latency media playlist.

use crate::float::Double;
use crate::number::{dec, dec_fixed, dec_point, digit_char, digits_value, is_digit, lemma_dec_reads_back};
use crate::streaming::ll_hls_playlist::{
    dates_are_plain, independence, media_playlist_text, part_entry, part_name, report_entry,
    segment_name, GeneratorModel, PartModel, RenditionReport, SegmentModel,
};
use crate::streaming::playlist_lines::{
    all_parts, begins_with, duration_entry, head_lines, hint_entry, init_lines,
    law_playlist_announces_everything, law_playlist_reads_as_its_lines, names_are_plain,
    part_entries, playlist_lines, report_entries, segment_lines, tail_lines, time_entry,
    window_lines,
};
use crate::text::{first_pos, has_prefix, lemma_first_pos_is, lines, without_cr};
use crate::writer::stripped;
use vstd::prelude::*;

verus! {

/// What stands before the first `mark`.
pub open spec fn up_to_mark(s: Seq<char>, mark: char) -> Seq<char> {
    s.take(first_pos(s, mark))
}

/// What stands behind the first `mark`.
pub open spec fn behind_mark(s: Seq<char>, mark: char) -> Seq<char> {
    s.skip(first_pos(s, mark) + 1)
}

/// What stands behind `tag`, with which the line begins.
pub open spec fn value_of(line: Seq<char>, tag: Seq<char>) -> Seq<char> {
    line.skip(tag.len() as int)
}

/// A text parts at its first mark.
proof fn lemma_mark(before: Seq<char>, mark: char, after: Seq<char>)
    requires
        !before.contains(mark),
    ensures
        up_to_mark(before + seq![mark] + after, mark) == before,
        behind_mark(before + seq![mark] + after, mark) == after,
{
    let s = before + seq![mark] + after;
    let n = before.len() as int;
    assert forall|i: int| 0 <= i < n implies #[trigger] s[i] != mark by {
        assert(s[i] == before[i]);
        assert(before.contains(before[i]));
    }
    lemma_first_pos_is(s, mark, n);
    assert(s.take(n) =~= before);
    assert(s.skip(n + 1) =~= after);
}

proof fn lemma_fixed_digits(n: nat, width: nat)
    ensures
        forall|i: int| 0 <= i < dec_fixed(n, width).len() ==> is_digit(#[trigger] dec_fixed(n, width)[i]),
    decreases width,
{
    if width > 0 {
        let rest = dec_fixed(n / 10, (width - 1) as nat);
        lemma_fixed_digits(n / 10, (width - 1) as nat);
        assert(is_digit(digit_char((n % 10) as int)));
        assert forall|i: int| 0 <= i < dec_fixed(n, width).len() implies is_digit(
            #[trigger] dec_fixed(n, width)[i],
        ) by {
            if i < rest.len() {
                assert(dec_fixed(n, width)[i] == rest[i]);
            }
        }
    }
}

proof fn lemma_point_chars(n: nat, scale: nat, width: nat)
    ensures
        forall|i: int|
            0 <= i < dec_point(n, scale, width).len() ==> is_digit(
                #[trigger] dec_point(n, scale, width)[i],
            ) || dec_point(n, scale, width)[i] == '.',
{
    let s = dec_point(n, scale, width);
    let whole = dec(n / scale);
    let rest = dec_fixed(n % scale, width);
    lemma_dec_reads_back(n / scale);
    lemma_fixed_digits(n % scale, width);
    assert forall|i: int| 0 <= i < s.len() implies is_digit(#[trigger] s[i]) || s[i] == '.' by {
        if i < whole.len() {
            assert(s[i] == whole[i]);
        } else if i > whole.len() {
            assert(s[i] == rest[i - whole.len() - 1]);
        }
    }
}

/// A printed number holds no comma.
proof fn lemma_no_comma(d: Double, scale: nat, width: nat)
    ensures
        !d.printed(scale, width).contains(','),
{
    reveal_strlit("NaN");
    reveal_strlit("inf");
    reveal_strlit("-");
    let s = d.printed(scale, width);
    let n = d.scaled(scale);
    let body = dec_point(n, scale, width);
    lemma_point_chars(n, scale, width);
    if s.contains(',') {
        let i = choose|i: int| 0 <= i < s.len() && s[i] == ',';
        if !d.is_nan() && !d.is_infinite() {
            let k: int = if d.negative() {
                1
            } else {
                0
            };
            if i >= k {
                assert(s[i] == body[i - k]);
            }
        }
    }
}

/// The line of a part says how long the part lasts, which file it is, and
/// whether it can be played on its own: the number between the tag and the
/// comma, the name between the quotation marks, and what follows these.
pub open spec fn says_part(line: Seq<char>, p: PartModel) -> bool {
    let tag = "#EXT-X-PART:DURATION="@;
    let rest = behind_mark(value_of(line, tag), ',');
    let name = value_of(rest, "URI=\""@);
    &&& has_prefix(line, tag)
    &&& up_to_mark(value_of(line, tag), ',') == p.duration.six_decimals()
    &&& has_prefix(rest, "URI=\""@)
    &&& has_prefix(name, p.filename)
    &&& value_of(name, p.filename) == (if p.independent {
        "\",INDEPENDENT=YES"@
    } else {
        "\""@
    })
    &&& !p.filename.contains('"') ==> up_to_mark(name, '"') == p.filename
}

proof fn lemma_part_entry(p: PartModel)
    ensures
        says_part(part_entry(p), p),
        without_cr(part_entry(p)) == part_entry(p),
{
    let tag = "#EXT-X-PART:DURATION="@;
    let number = p.duration.six_decimals();
    let end = if p.independent {
        "\",INDEPENDENT=YES"@
    } else {
        "\""@
    };
    reveal_strlit(",URI=\"");
    reveal_strlit("URI=\"");
    reveal_strlit("\"");
    reveal_strlit(",INDEPENDENT=YES");
    reveal_strlit("\",INDEPENDENT=YES");
    assert("\",INDEPENDENT=YES"@ =~= "\""@ + ",INDEPENDENT=YES"@);
    let line = part_entry(p);
    let name = p.filename + end;
    let rest = "URI=\""@ + name;
    let value = number + seq![','] + rest;
    assert(independence(p.independent) =~= end.skip(1));
    assert(line =~= tag + value);
    assert(line.take(tag.len() as int) =~= tag);
    assert(value_of(line, tag) =~= value);
    lemma_no_comma(p.duration, 1_000_000, 6);
    lemma_mark(number, ',', rest);
    assert(rest.take("URI=\""@.len() as int) =~= "URI=\""@);
    assert(value_of(rest, "URI=\""@) =~= name);
    assert(name.take(p.filename.len() as int) =~= p.filename);
    assert(value_of(name, p.filename) =~= end);
    if !p.filename.contains('"') {
        assert(name =~= p.filename + seq!['"'] + end.skip(1));
        lemma_mark(p.filename, '"', end.skip(1));
    }
    assert(line.last() == end.last());
}

/// The generator with other segments in its window.
pub open spec fn with_window(m: GeneratorModel, segments: Seq<SegmentModel>) -> GeneratorModel {
    GeneratorModel { segments, ..m }
}

proof fn lemma_names_alone(m: GeneratorModel, other: Seq<SegmentModel>, segments: Seq<SegmentModel>)
    ensures
        window_lines(with_window(m, other), segments) == window_lines(m, segments),
    decreases segments.len(),
{
    if segments.len() > 0 {
        let s = segments.last();
        lemma_names_alone(m, other, segments.drop_last());
        assert(part_name(with_window(m, other), s.sequence as nat, s.parts.len()) == part_name(
            m,
            s.sequence as nat,
            s.parts.len(),
        ));
        assert(tail_lines(with_window(m, other), s) == tail_lines(m, s));
        assert(segment_lines(with_window(m, other), s) == segment_lines(m, s));
    }
}

/// A playlist without segments and reports: which lines it has, in order. The
/// numbers read back as what they stand for.
pub proof fn law_head_of_playlist(m: GeneratorModel)
    requires
        names_are_plain(with_window(m, Seq::empty()), Seq::empty()),
        dates_are_plain(with_window(m, Seq::empty())),
    ensures
        ({
            let ls = lines(media_playlist_text(with_window(m, Seq::empty()), Seq::empty()));
            &&& ls.len() == (if m.init_segment is Some {
                11int
            } else {
                10
            })
            &&& ls[0] == "#EXTM3U"@
            &&& ls[1] == "#EXT-X-VERSION:10"@
            &&& ls[2] == "#EXT-X-INDEPENDENT-SEGMENTS"@
            &&& has_prefix(ls[3], "#EXT-X-TARGETDURATION:"@)
            &&& digits_value(value_of(ls[3], "#EXT-X-TARGETDURATION:"@))
                == m.target_duration.rounded_up()
            &&& has_prefix(ls[4], "#EXT-X-SERVER-CONTROL:CAN-BLOCK-RELOAD=YES,PART-HOLD-BACK="@)
            &&& value_of(ls[4], "#EXT-X-SERVER-CONTROL:CAN-BLOCK-RELOAD=YES,PART-HOLD-BACK="@)
                == m.part_hold_back.six_decimals()
            &&& has_prefix(ls[5], "#EXT-X-PART-INF:PART-TARGET="@)
            &&& value_of(ls[5], "#EXT-X-PART-INF:PART-TARGET="@) == m.part_target.six_decimals()
            &&& has_prefix(ls[6], "#EXT-X-MEDIA-SEQUENCE:"@)
            &&& digits_value(value_of(ls[6], "#EXT-X-MEDIA-SEQUENCE:"@)) == m.media_sequence
            &&& has_prefix(ls[7], "#EXT-X-DISCONTINUITY-SEQUENCE:"@)
            &&& digits_value(value_of(ls[7], "#EXT-X-DISCONTINUITY-SEQUENCE:"@))
                == m.discontinuity_sequence
            &&& ls[8] == "#EXT-X-DATERANGE:ID=\"stream-start\",START-DATE=\""@
                + m.start_date.millis_text() + "\""@
            &&& ls[9].len() == 0
            &&& m.init_segment matches Some(name) ==> ls[10] == "#EXT-X-MAP:URI=\""@ + name + "\""@
        }),
{
    let empty = with_window(m, Seq::empty());
    let none = Seq::<RenditionReport>::empty();
    let all = playlist_lines(empty, none);
    let ls = lines(media_playlist_text(empty, none));
    law_playlist_reads_as_its_lines(empty, none);
    assert(none.map_values(report_entries()) =~= Seq::<Seq<char>>::empty());
    let head = head_lines(empty);
    assert(all =~= head + init_lines(m.init_segment));
    lemma_head_ends(empty);
    lemma_numbered("#EXT-X-TARGETDURATION:"@, m.target_duration.rounded_up() as nat);
    lemma_numbered("#EXT-X-MEDIA-SEQUENCE:"@, m.media_sequence as nat);
    lemma_numbered("#EXT-X-DISCONTINUITY-SEQUENCE:"@, m.discontinuity_sequence as nat);
    lemma_valued(
        "#EXT-X-SERVER-CONTROL:CAN-BLOCK-RELOAD=YES,PART-HOLD-BACK="@,
        m.part_hold_back.six_decimals(),
    );
    lemma_valued("#EXT-X-PART-INF:PART-TARGET="@, m.part_target.six_decimals());
    assert forall|i: int| 0 <= i < 10 implies #[trigger] ls[i] == head[i] by {
        assert(all[i] == head[i]);
        assert(without_cr(head[i]) == head[i]);
    }
    if m.init_segment is Some {
        reveal_strlit("\"");
        let l = "#EXT-X-MAP:URI=\""@ + m.init_segment->0 + "\""@;
        assert(all[10] == l);
        assert(l.last() == '"');
    }
}

/// A tag and a numeral read back.
proof fn lemma_numbered(tag: Seq<char>, n: nat)
    ensures
        has_prefix(tag + dec(n), tag),
        digits_value(value_of(tag + dec(n), tag)) == n,
        is_digit((tag + dec(n)).last()),
{
    lemma_valued(tag, dec(n));
    lemma_dec_reads_back(n);
    assert((tag + dec(n)).last() == dec(n)[dec(n).len() - 1]);
}

/// A tag and its value read back.
proof fn lemma_valued(tag: Seq<char>, value: Seq<char>)
    ensures
        has_prefix(tag + value, tag),
        value_of(tag + value, tag) == value,
{
    assert((tag + value).take(tag.len() as int) =~= tag);
    assert(value_of(tag + value, tag) =~= value);
}

/// A printed number ends in a digit or a letter.
proof fn lemma_printed_end(tag: Seq<char>, d: Double)
    ensures
        without_cr(tag + d.six_decimals()) == tag + d.six_decimals(),
{
    let scale: nat = 1_000_000;
    reveal_strlit("NaN");
    reveal_strlit("inf");
    let s = d.six_decimals();
    let n = d.scaled(scale);
    let body = dec_point(n, scale, 6);
    lemma_point_chars(n, scale, 6);
    lemma_dec_reads_back(n / scale);
    assert(body.len() > 0);
    if !d.is_nan() && !d.is_infinite() {
        assert(s.last() == body[body.len() - 1]);
    }
    assert(s.len() > 0);
    assert((tag + s).last() == s.last());
}

/// No line of the head ends in a carriage return.
proof fn lemma_head_ends(m: GeneratorModel)
    ensures
        forall|i: int| 0 <= i < 10 ==> without_cr(#[trigger] head_lines(m)[i]) == head_lines(m)[i],
{
    let head = head_lines(m);
    reveal_strlit("#EXTM3U");
    reveal_strlit("#EXT-X-VERSION:10");
    reveal_strlit("#EXT-X-INDEPENDENT-SEGMENTS");
    reveal_strlit("\"");
    lemma_numbered("#EXT-X-TARGETDURATION:"@, m.target_duration.rounded_up() as nat);
    lemma_numbered("#EXT-X-MEDIA-SEQUENCE:"@, m.media_sequence as nat);
    lemma_numbered("#EXT-X-DISCONTINUITY-SEQUENCE:"@, m.discontinuity_sequence as nat);
    lemma_printed_end(
        "#EXT-X-SERVER-CONTROL:CAN-BLOCK-RELOAD=YES,PART-HOLD-BACK="@,
        m.part_hold_back,
    );
    lemma_printed_end("#EXT-X-PART-INF:PART-TARGET="@, m.part_target);
    assert(without_cr(head[0]) == head[0]);
    assert(without_cr(head[1]) == head[1]);
    assert(without_cr(head[2]) == head[2]);
    assert(without_cr(head[3]) == head[3]);
    assert(without_cr(head[4]) == head[4]);
    assert(without_cr(head[5]) == head[5]);
    assert(without_cr(head[6]) == head[6]);
    assert(without_cr(head[7]) == head[7]);
    assert(head[8].last() == '"');
    assert(without_cr(head[8]) == head[8]);
    assert(without_cr(head[9]) == head[9]);
}

/// One more segment in the window adds its lines to a playlist and changes no
/// other line: when it began; one line for each of its parts, which says that
/// part; and then, where it is complete, how long it lasts and its file, or,
/// where it is in progress and has parts, the name that its next part gets.
pub proof fn law_segment_adds_its_lines(
    m: GeneratorModel,
    segments: Seq<SegmentModel>,
    s: SegmentModel,
)
    requires
        names_are_plain(with_window(m, segments.push(s)), Seq::empty()),
        dates_are_plain(with_window(m, segments.push(s))),
    ensures
        ({
            let before = lines(media_playlist_text(with_window(m, segments), Seq::empty()));
            let after = lines(media_playlist_text(with_window(m, segments.push(s)), Seq::empty()));
            let n = before.len() as int;
            let k = s.parts.len() as int;
            &&& after.len() == n + 1 + k + (if s.is_complete {
                2int
            } else if k > 0 {
                1
            } else {
                0
            })
            &&& forall|i: int| 0 <= i < n ==> #[trigger] after[i] == before[i]
            &&& after[n] == without_cr(
                "#EXT-X-PROGRAM-DATE-TIME:"@ + s.program_date_time.millis_text(),
            )
            &&& forall|j: int| 0 <= j < k ==> says_part(#[trigger] after[n + 1 + j], s.parts[j])
            &&& s.is_complete ==> {
                &&& has_prefix(after[n + 1 + k], "#EXTINF:"@)
                &&& up_to_mark(value_of(after[n + 1 + k], "#EXTINF:"@), ',')
                    == s.duration.six_decimals()
                &&& behind_mark(value_of(after[n + 1 + k], "#EXTINF:"@), ',').len() == 0
                &&& after[n + 2 + k] == without_cr(s.filename)
            }
            &&& !s.is_complete && k > 0 ==> after[n + 1 + k]
                == "#EXT-X-PRELOAD-HINT:TYPE=PART,URI=\""@ + (m.quality_name + "_"@ + m.stream_name
                + "_"@ + dec(s.sequence as nat) + "_"@ + dec(s.parts.len())) + "\""@
        }),
{
    let more = segments.push(s);
    let a = with_window(m, segments);
    let b = with_window(m, more);
    let none = Seq::<RenditionReport>::empty();
    assert forall|i: int| 0 <= i < segments.len() implies a.segments[i] == #[trigger] b.segments[i]
        && segments[i] == more[i] by {}
    assert(names_are_plain(a, none)) by {
        assert forall|i: int| 0 <= i < segments.len() implies
            crate::streaming::playlist_lines::segment_is_plain(#[trigger] a.segments[i]) by {
            assert(b.segments[i] == a.segments[i]);
        }
    }
    assert(dates_are_plain(a)) by {
        assert forall|i: int| 0 <= i < segments.len() implies crate::writer::one_line(
            (#[trigger] a.segments[i]).program_date_time.millis_text(),
        ) by {
            assert(b.segments[i] == a.segments[i]);
        }
    }
    law_playlist_reads_as_its_lines(a, none);
    law_playlist_reads_as_its_lines(b, none);
    lemma_names_alone(m, segments, segments);
    lemma_names_alone(m, more, more);
    lemma_names_alone(m, more, segments);
    assert(more.drop_last() =~= segments);
    let shown = none.map_values(report_entries());
    assert(shown =~= Seq::<Seq<char>>::empty());
    let la = playlist_lines(a, none);
    let lb = playlist_lines(b, none);
    let own = segment_lines(m, s);
    assert(head_lines(a) =~= head_lines(b));
    assert(lb =~= la + own);
    let before = lines(media_playlist_text(a, none));
    let after = lines(media_playlist_text(b, none));
    let n = before.len() as int;
    let k = s.parts.len() as int;
    assert(after =~= before + own.map_values(stripped()));
    assert forall|i: int| 0 <= i < own.len() implies #[trigger] after[n + i] == without_cr(own[i]) by {
        assert(after[n + i] == own.map_values(stripped())[i]);
    }
    assert(after[n + 0] == without_cr(own[0]));
    assert(own[0] == time_entry(s));
    assert forall|j: int| 0 <= j < k implies says_part(#[trigger] after[n + 1 + j], s.parts[j]) by {
        assert(own[1 + j] == part_entry(s.parts[j]));
        lemma_part_entry(s.parts[j]);
        assert(after[n + (1 + j)] == without_cr(own[1 + j]));
    }
    let tail = tail_lines(m, s);
    assert forall|i: int| 0 <= i < tail.len() implies #[trigger] own[1 + k + i] == tail[i] by {}
    if s.is_complete {
        assert(own[1 + k + 0] == tail[0]);
        assert(own[1 + k + 1] == tail[1]);
        assert(after[n + (1 + k)] == without_cr(own[1 + k]));
        assert(after[n + (2 + k)] == without_cr(own[2 + k]));
        lemma_duration_entry(s);
    } else if k > 0 {
        assert(own[1 + k + 0] == tail[0]);
        assert(after[n + (1 + k)] == without_cr(own[1 + k]));
        reveal_strlit("\"");
        let hint = hint_entry(m, s);
        assert(hint.last() == '"');
        assert(part_name(m, s.sequence as nat, s.parts.len()) == segment_name(
            m,
            s.sequence as nat,
        ) + "_"@ + dec(s.parts.len()));
    }
}

proof fn lemma_duration_entry(s: SegmentModel)
    ensures
        has_prefix(duration_entry(s), "#EXTINF:"@),
        up_to_mark(value_of(duration_entry(s), "#EXTINF:"@), ',') == s.duration.six_decimals(),
        behind_mark(value_of(duration_entry(s), "#EXTINF:"@), ',').len() == 0,
        without_cr(duration_entry(s)) == duration_entry(s),
{
    let number = s.duration.six_decimals();
    let tag = "#EXTINF:"@;
    reveal_strlit(",");
    let value = number + seq![','] + Seq::<char>::empty();
    assert(duration_entry(s) =~= tag + value);
    lemma_valued(tag, value);
    lemma_no_comma(s.duration, 1_000_000, 6);
    lemma_mark(number, ',', Seq::<char>::empty());
    assert(duration_entry(s).last() == ',');
}

/// One more report adds a line to the end of a playlist and changes no other:
/// which rendition it is about, and the last segment and part of that.
pub proof fn law_report_adds_its_line(
    m: GeneratorModel,
    reports: Seq<RenditionReport>,
    r: RenditionReport,
)
    requires
        names_are_plain(m, reports.push(r)),
        dates_are_plain(m),
    ensures
        ({
            let before = lines(media_playlist_text(m, reports));
            let after = lines(media_playlist_text(m, reports.push(r)));
            let line = after.last();
            let rest = value_of(line, "#EXT-X-RENDITION-REPORT:URI=\""@ + r.uri@ + "\",LAST-MSN="@);
            let part = value_of(behind_mark(rest, ','), "LAST-PART="@);
            &&& after == before.push(line)
            &&& has_prefix(line, "#EXT-X-RENDITION-REPORT:URI=\""@ + r.uri@ + "\",LAST-MSN="@)
            &&& digits_value(up_to_mark(rest, ',')) == r.last_msn
            &&& has_prefix(behind_mark(rest, ','), "LAST-PART="@)
            &&& digits_value(part) == r.last_part
        }),
{
    let more = reports.push(r);
    assert(names_are_plain(m, reports)) by {
        assert forall|i: int| 0 <= i < reports.len() implies crate::writer::one_line(
            (#[trigger] reports[i]).uri@,
        ) by {
            assert(more[i] == reports[i]);
        }
    }
    law_playlist_reads_as_its_lines(m, reports);
    law_playlist_reads_as_its_lines(m, more);
    let entry = report_entry(r);
    assert(more.map_values(report_entries()) =~= reports.map_values(report_entries()).push(entry));
    assert(playlist_lines(m, more) =~= playlist_lines(m, reports).push(entry));
    let tag = "#EXT-X-RENDITION-REPORT:URI=\""@ + r.uri@ + "\",LAST-MSN="@;
    let msn = dec(r.last_msn as nat);
    let part = dec(r.last_part as nat);
    reveal_strlit(",LAST-PART=");
    reveal_strlit("LAST-PART=");
    let rest = msn + seq![','] + ("LAST-PART="@ + part);
    assert(entry =~= tag + rest);
    lemma_valued(tag, rest);
    lemma_dec_reads_back(r.last_msn as nat);
    lemma_numbered("LAST-PART="@, r.last_part as nat);
    if msn.contains(',') {
        let i = choose|i: int| 0 <= i < msn.len() && msn[i] == ',';
        assert(is_digit(msn[i]));
    }
    lemma_mark(msn, ',', "LAST-PART="@ + part);
    assert(entry.last() == ("LAST-PART="@ + part).last());
    assert(without_cr(entry) == entry);
    let before = lines(media_playlist_text(m, reports));
    let after = lines(media_playlist_text(m, more));
    assert(after =~= before.push(entry));
}

/// The parts that a playlist announces are those of its window: the k-th line
/// with the tag of a part says the k-th part, counted through the segments.
pub proof fn law_part_lines_say_the_parts(
    m: GeneratorModel,
    reports: Seq<RenditionReport>,
    k: int,
)
    requires
        names_are_plain(m, reports),
        dates_are_plain(m),
        0 <= k < all_parts(m.segments).len(),
    ensures
        lines(media_playlist_text(m, reports)).filter(begins_with("#EXT-X-PART:"@)).len()
            == all_parts(m.segments).len(),
        says_part(
            lines(media_playlist_text(m, reports)).filter(begins_with("#EXT-X-PART:"@))[k],
            all_parts(m.segments)[k],
        ),
{
    law_playlist_announces_everything(m, reports);
    lemma_part_entry(all_parts(m.segments)[k]);
    assert(all_parts(m.segments).map_values(part_entries())[k] == part_entry(
        all_parts(m.segments)[k],
    ));
}

} // verus!
