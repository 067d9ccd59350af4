//! The line wrapper: raw text to an ordered sequence of display lines that
//! are grapheme-cluster safe and hold at most `max_cols` clusters each.
//!
//! A physical line that is bracketed by the recognized highlight escape pair
//! is stripped of the markers and flagged; any other occurrence of the
//! markers is literal text.

use vstd::prelude::*;
use vstd::seq_lib::lemma_flatten_concat;
use vstd::string::{StrSliceExecFns, StringExecFns};
use unicode_segmentation::UnicodeSegmentation;
use crate::types::DisplayLine;

verus! {

/// The escape sequence that opens a highlighted line.
pub open spec fn start_marker() -> Seq<char> {
    seq!['\u{1b}', '[', '3', '2', 'm']
}

/// The escape sequence that closes a highlighted line.
pub open spec fn end_marker() -> Seq<char> {
    seq!['\u{1b}', '[', '0', 'm']
}

/// Whether the whole line is bracketed by the highlight escape pair: the
/// opening sequence as prefix and, after it, the closing sequence as suffix.
pub open spec fn has_markers(line: Seq<char>) -> bool {
    &&& line.len() >= 9
    &&& line.take(5) == start_marker()
    &&& line.skip(line.len() - 4) == end_marker()
}

/// The line with a recognized highlight escape pair removed; any other line
/// is kept as it is.
pub open spec fn stripped(line: Seq<char>) -> Seq<char> {
    if has_markers(line) {
        line.subrange(5, line.len() - 4)
    } else {
        line
    }
}

/// The physical lines of a text: the segments between newline characters,
/// with empty segments kept, so a text of `k` newlines has `k + 1` lines.
pub open spec fn split_lines(s: Seq<char>) -> Seq<Seq<char>>
    decreases s.len(),
{
    if s.len() == 0 {
        seq![Seq::<char>::empty()]
    } else if s[0] == '\n' {
        seq![Seq::<char>::empty()] + split_lines(s.skip(1))
    } else {
        let rest = split_lines(s.skip(1));
        seq![seq![s[0]] + rest[0]] + rest.skip(1)
    }
}

/// The grapheme clusters of a character sequence, as the Unicode extended
/// grapheme cluster segmentation yields them. The clusters depend on the
/// characters alone; what they are is stated only where the segmenter is
/// called.
pub uninterp spec fn graphemes_of(s: Seq<char>) -> Seq<Seq<char>>;

/// The display lines that a sequence of grapheme clusters yields: the
/// clusters are grouped into runs of at most `width`, every run but the last
/// exactly `width` long, and each run is concatenated into one line carrying
/// the highlight flag `hl`. No clusters give no lines.
pub open spec fn chunk_lines(gs: Seq<Seq<char>>, width: int, hl: bool) -> Seq<(Seq<char>, bool)>
    decreases gs.len(),
{
    if gs.len() == 0 {
        Seq::<(Seq<char>, bool)>::empty()
    } else if width < 1 || gs.len() <= width {
        seq![(gs.flatten(), hl)]
    } else {
        seq![(gs.take(width).flatten(), hl)] + chunk_lines(gs.skip(width), width, hl)
    }
}

/// The display lines of one physical line: an empty line stays as one empty
/// display line, any other line is stripped, segmented into clusters and cut
/// into runs of at most `width` clusters.
pub open spec fn wrap_line(line: Seq<char>, width: int) -> Seq<(Seq<char>, bool)> {
    if line.len() == 0 {
        seq![(Seq::<char>::empty(), false)]
    } else {
        chunk_lines(graphemes_of(stripped(line)), width, has_markers(line))
    }
}

/// The display lines of a sequence of physical lines, in order.
pub open spec fn wrap_lines_all(ls: Seq<Seq<char>>, width: int) -> Seq<(Seq<char>, bool)>
    decreases ls.len(),
{
    if ls.len() == 0 {
        Seq::<(Seq<char>, bool)>::empty()
    } else {
        wrap_line(ls[0], width) + wrap_lines_all(ls.skip(1), width)
    }
}

/// All display lines of a text, before the trailing-newline adjustment.
pub open spec fn wrap_all(text: Seq<char>, width: int) -> Seq<(Seq<char>, bool)> {
    wrap_lines_all(split_lines(text), width)
}

/// All display lines of a text: a single trailing empty display line is
/// dropped, so a trailing newline does not show as a blank line.
pub open spec fn wrap_spec(text: Seq<char>, width: int) -> Seq<(Seq<char>, bool)> {
    let all = wrap_all(text, width);
    if all.len() > 0 && all.last().0.len() == 0 {
        all.drop_last()
    } else {
        all
    }
}

/// The views of a vector of display lines, in order.
pub open spec fn views_of(lines: Seq<DisplayLine>) -> Seq<(Seq<char>, bool)> {
    lines.map_values(|l: DisplayLine| l@)
}

/// The concatenation of the texts of a sequence of display lines.
pub open spec fn texts_concat(dls: Seq<(Seq<char>, bool)>) -> Seq<char>
    decreases dls.len(),
{
    if dls.len() == 0 {
        Seq::<char>::empty()
    } else {
        dls[0].0 + texts_concat(dls.skip(1))
    }
}

/// The partition facts the segmenter guarantees of every segmentation it
/// returns: the clusters of `s`, in order, concatenate back to `s`, and
/// each cluster is non-empty.
pub open spec fn graphemes_partition(s: Seq<char>) -> bool {
    &&& graphemes_of(s).flatten() == s
    &&& forall|i: int| 0 <= i < graphemes_of(s).len() ==> (#[trigger] graphemes_of(s)[i]).len() > 0
}

/// A sequence of non-empty sequences has at least as many elements in its
/// concatenation as it has members; so a text never has more grapheme
/// clusters than characters.
pub proof fn lemma_flatten_len_ge_count(gs: Seq<Seq<char>>)
    requires
        forall|i: int| 0 <= i < gs.len() ==> (#[trigger] gs[i]).len() > 0,
    ensures
        gs.flatten().len() >= gs.len(),
    decreases gs.len(),
{
    if gs.len() > 0 {
        assert(forall|i: int|
            0 <= i < gs.drop_first().len() ==> (#[trigger] gs.drop_first()[i]).len() > 0);
        lemma_flatten_len_ge_count(gs.drop_first());
        assert(gs.flatten() == gs.first() + gs.drop_first().flatten());
        assert(gs[0].len() > 0);
    }
}

/// Relies on unicode_segmentation's `UnicodeSegmentation::graphemes` with
/// extended clusters: the clusters are determined by the characters alone,
/// each cluster is a non-empty substring, and in order they concatenate back
/// to the input.
#[verifier::external_body]
pub(crate) fn grapheme_clusters(s: &str) -> (r: Vec<String>)
    ensures
        r.deep_view() == graphemes_of(s@),
        r.deep_view().flatten() == s@,
        forall|i: int| 0 <= i < r.deep_view().len() ==> r.deep_view()[i].len() > 0,
{
    UnicodeSegmentation::graphemes(s, true).map(|g| g.to_string()).collect()
}

/// Detects and strips the highlight escape pair; returns the text to wrap
/// and whether the line was bracketed by the pair.
fn strip_markers_exec<'a>(line: &'a str) -> (r: (&'a str, bool))
    ensures
        r.0@ == stripped(line@),
        r.1 == has_markers(line@),
{
    let n = line.unicode_len();
    if n >= 9
        && line.get_char(0) == '\u{1b}'
        && line.get_char(1) == '['
        && line.get_char(2) == '3'
        && line.get_char(3) == '2'
        && line.get_char(4) == 'm'
        && line.get_char(n - 4) == '\u{1b}'
        && line.get_char(n - 3) == '['
        && line.get_char(n - 2) == '0'
        && line.get_char(n - 1) == 'm' {
        proof {
            assert(line@.take(5) =~= start_marker());
            assert(line@.skip(n - 4) =~= end_marker());
        }
        (line.substring_char(5, n - 4), true)
    } else {
        proof {
            if has_markers(line@) {
                assert(line@.take(5)[0] == line@[0]);
                assert(line@.take(5)[1] == line@[1]);
                assert(line@.take(5)[2] == line@[2]);
                assert(line@.take(5)[3] == line@[3]);
                assert(line@.take(5)[4] == line@[4]);
                assert(line@.skip(n - 4)[0] == line@[n - 4]);
                assert(line@.skip(n - 4)[1] == line@[n - 3]);
                assert(line@.skip(n - 4)[2] == line@[n - 2]);
                assert(line@.skip(n - 4)[3] == line@[n - 1]);
                assert(false);
            }
        }
        (line, false)
    }
}

/// Cuts a text at every newline character, keeping empty segments.
fn split_newlines<'a>(text: &'a str) -> (r: Vec<&'a str>)
    ensures
        r.deep_view() == split_lines(text@),
{
    let n = text.unicode_len();
    let mut r: Vec<&'a str> = Vec::new();
    let mut start: usize = 0;
    let mut i: usize = 0;
    proof {
        assert(text@.skip(0) =~= text@);
        assert(r.deep_view() =~= Seq::<Seq<char>>::empty());
        assert(r.deep_view() + split_lines(text@) =~= split_lines(text@));
    }
    while i < n
        invariant
            0 <= start <= i <= n,
            n == text@.len(),
            forall|j: int| start <= j < i ==> text@[j] != '\n',
            r.deep_view() + split_lines(text@.skip(start as int)) == split_lines(text@),
        decreases n - i,
    {
        let c = text.get_char(i);
        if c == '\n' {
            let seg = text.substring_char(start, i);
            let ghost old_dv = r.deep_view();
            r.push(seg);
            proof {
                let tail = text@.skip(start as int);
                assert(tail[i - start] == '\n');
                lemma_split_lines_step(tail, i - start);
                assert(tail.take(i - start) =~= seg@);
                assert(tail.skip(i - start + 1) =~= text@.skip(i + 1));
                assert(r.deep_view() =~= old_dv + seq![seg@]);
                assert(r.deep_view() + split_lines(text@.skip(i + 1)) =~= split_lines(text@));
            }
            start = i + 1;
        }
        i += 1;
    }
    let seg = text.substring_char(start, n);
    let ghost old_dv = r.deep_view();
    r.push(seg);
    proof {
        let tail = text@.skip(start as int);
        lemma_split_lines_no_newline(tail);
        assert(tail =~= seg@);
        assert(r.deep_view() =~= old_dv + seq![seg@]);
        assert(r.deep_view() =~= split_lines(text@));
    }
    r
}

/// The display-line views after a push are the views so far plus the view of
/// the pushed line.
proof fn lemma_views_of_push(s: Seq<DisplayLine>, l: DisplayLine)
    ensures
        views_of(s.push(l)) == views_of(s).push(l@),
{
    assert(views_of(s.push(l)) =~= views_of(s).push(l@));
}

/// Splits the text on newlines, detects whole-line highlight markers, and
/// wraps every physical line into display lines of at most `width` grapheme
/// clusters; a single trailing empty display line is dropped. Beside the
/// result it hands callers the segmenter's partition fact for every
/// non-empty physical line, on which the round-trip law rests.
pub fn split_and_wrap_lines(text: &str, width: usize) -> (lines: Vec<DisplayLine>)
    requires
        width >= 1,
    ensures
        views_of(lines@) == wrap_spec(text@, width as int),
        forall|m: int|
            0 <= m < split_lines(text@).len() && (#[trigger] split_lines(text@)[m]).len() > 0
                ==> graphemes_partition(stripped(split_lines(text@)[m])),
{
    let segs = split_newlines(text);
    let ghost segd = segs.deep_view();
    let mut lines: Vec<DisplayLine> = Vec::new();
    let mut idx: usize = 0;
    proof {
        assert(segd.skip(0) =~= segd);
        assert(views_of(lines@) =~= Seq::<(Seq<char>, bool)>::empty());
    }
    while idx < segs.len()
        invariant
            width >= 1,
            idx <= segs.len(),
            segd == segs.deep_view(),
            segd == split_lines(text@),
            forall|m: int|
                0 <= m < idx && (#[trigger] segd[m]).len() > 0 ==> graphemes_partition(
                    stripped(segd[m]),
                ),
            views_of(lines@) + wrap_lines_all(segd.skip(idx as int), width as int) == wrap_all(
                text@,
                width as int,
            ),
        decreases segs.len() - idx,
    {
        let seg: &str = segs[idx];
        let ghost pre = views_of(lines@);
        let ghost line_v = segd[idx as int];
        proof {
            assert(seg@ == segd[idx as int]);
            assert(segd.skip(idx as int)[0] == segd[idx as int]);
            assert(segd.skip(idx as int).skip(1) =~= segd.skip(idx as int + 1));
            assert(wrap_lines_all(segd.skip(idx as int), width as int) == wrap_line(
                line_v,
                width as int,
            ) + wrap_lines_all(segd.skip(idx as int + 1), width as int));
        }
        let ghost rest = wrap_lines_all(segd.skip(idx as int + 1), width as int);
        if seg.is_empty() {
            let ghost lv = lines@;
            lines.push(DisplayLine { text: String::new(), highlighted: false });
            proof {
                lemma_views_of_push(lv, lines@.last());
                assert(wrap_line(line_v, width as int) == seq![(Seq::<char>::empty(), false)]);
                assert(views_of(lines@) + rest =~= (pre + wrap_line(line_v, width as int)) + rest);
                assert((pre + wrap_line(line_v, width as int)) + rest =~= pre + (wrap_line(
                    line_v,
                    width as int,
                ) + rest));
            }
        } else {
            let (interior, color) = strip_markers_exec(seg);
            let gs = grapheme_clusters(interior);
            let ghost gsd = gs.deep_view();
            proof {
                assert(gsd == graphemes_of(stripped(line_v)));
                assert(graphemes_partition(stripped(line_v)));
                assert(wrap_line(line_v, width as int) == chunk_lines(
                    gsd,
                    width as int,
                    has_markers(line_v),
                ));
                assert(gsd.skip(0) =~= gsd);
            }
            let mut k: usize = 0;
            while k < gs.len()
                invariant
                    width >= 1,
                    k <= gs.len(),
                    gsd == gs.deep_view(),
                    color == has_markers(line_v),
                    views_of(lines@) + chunk_lines(gsd.skip(k as int), width as int, color) + rest
                        == wrap_all(text@, width as int),
                decreases gs.len() - k,
            {
                let remaining = gs.len() - k;
                let end: usize = if remaining < width {
                    gs.len()
                } else {
                    k + width
                };
                let mut chunk_text = String::new();
                let mut j: usize = k;
                proof {
                    assert(gsd.subrange(k as int, k as int) =~= Seq::<Seq<char>>::empty());
                    assert(gsd.subrange(k as int, k as int).flatten() =~= Seq::<char>::empty());
                }
                while j < end
                    invariant
                        k <= j <= end <= gs.len(),
                        gsd == gs.deep_view(),
                        chunk_text@ == gsd.subrange(k as int, j as int).flatten(),
                    decreases end - j,
                {
                    chunk_text.append(gs[j].as_str());
                    proof {
                        let prefix = gsd.subrange(k as int, j as int);
                        prefix.lemma_flatten_push(gsd[j as int]);
                        assert(gsd.subrange(k as int, j as int + 1) =~= prefix.push(
                            gsd[j as int],
                        ));
                    }
                    j += 1;
                }
                let ghost pre_k = views_of(lines@);
                let ghost lv = lines@;
                lines.push(DisplayLine { text: chunk_text, highlighted: color });
                proof {
                    lemma_views_of_push(lv, lines@.last());
                    let tail_gs = gsd.skip(k as int);
                    if remaining <= width {
                        assert(gsd.subrange(k as int, end as int) =~= tail_gs);
                        assert(chunk_lines(tail_gs, width as int, color) == seq![
                            (tail_gs.flatten(), color),
                        ]);
                        assert(gsd.skip(end as int) =~= Seq::<Seq<char>>::empty());
                        assert(chunk_lines(gsd.skip(end as int), width as int, color)
                            =~= Seq::<(Seq<char>, bool)>::empty());
                    } else {
                        assert(gsd.subrange(k as int, end as int) =~= tail_gs.take(width as int));
                        assert(tail_gs.skip(width as int) =~= gsd.skip(end as int));
                        assert(chunk_lines(tail_gs, width as int, color) == seq![
                            (tail_gs.take(width as int).flatten(), color),
                        ] + chunk_lines(gsd.skip(end as int), width as int, color));
                    }
                    assert(views_of(lines@) + chunk_lines(gsd.skip(end as int), width as int, color)
                        + rest =~= pre_k + chunk_lines(tail_gs, width as int, color) + rest);
                }
                k = end;
            }
            proof {
                assert(gsd.skip(gs.len() as int) =~= Seq::<Seq<char>>::empty());
                assert(chunk_lines(gsd.skip(k as int), width as int, color)
                    =~= Seq::<(Seq<char>, bool)>::empty());
                assert(views_of(lines@) + wrap_lines_all(segd.skip(idx as int + 1), width as int)
                    =~= views_of(lines@) + chunk_lines(gsd.skip(k as int), width as int, color)
                    + rest);
            }
        }
        idx += 1;
    }
    proof {
        assert(segd.skip(segs.len() as int) =~= Seq::<Seq<char>>::empty());
        assert(views_of(lines@) =~= views_of(lines@) + wrap_lines_all(
            segd.skip(segs.len() as int),
            width as int,
        ));
        assert(views_of(lines@) == wrap_all(text@, width as int));
    }
    let mut drop_last = false;
    if lines.len() > 0 {
        let last = &lines[lines.len() - 1];
        if last.text.as_str().is_empty() {
            drop_last = true;
        }
    }
    proof {
        let all = wrap_all(text@, width as int);
        assert(lines@.len() == all.len());
        if lines@.len() > 0 {
            assert(views_of(lines@)[lines@.len() - 1] == lines@.last()@);
            assert(all.last().0 == lines@.last().text@);
        }
    }
    if drop_last {
        let ghost lv = lines@;
        lines.pop();
        proof {
            assert(views_of(lines@) =~= views_of(lv).drop_last());
        }
    }
    lines
}

/// Every display line of a wrapped cluster sequence carries the flag the
/// wrapping was asked for.
pub proof fn lemma_chunk_lines_flag(gs: Seq<Seq<char>>, width: int, hl: bool, i: int)
    requires
        0 <= i < chunk_lines(gs, width, hl).len(),
    ensures
        chunk_lines(gs, width, hl)[i].1 == hl,
    decreases gs.len(),
{
    if gs.len() == 0 {
    } else if width < 1 || gs.len() <= width {
    } else if i > 0 {
        lemma_chunk_lines_flag(gs.skip(width), width, hl, i - 1);
    }
}

/// Every display line produced from a cluster sequence is the concatenation
/// of a run of consecutive whole clusters, at most `width` of them: the
/// cluster count never exceeds the column bound, and no cluster is split
/// across two display lines. The returned pair bounds the run.
pub proof fn lemma_chunk_lines_shape(gs: Seq<Seq<char>>, width: int, hl: bool, i: int) -> (r: (
    int,
    int,
))
    requires
        width >= 1,
        0 <= i < chunk_lines(gs, width, hl).len(),
    ensures
        0 <= r.0 <= r.1 <= gs.len(),
        r.1 - r.0 <= width,
        chunk_lines(gs, width, hl)[i].0 == gs.subrange(r.0, r.1).flatten(),
    decreases gs.len(),
{
    if gs.len() <= width {
        assert(gs.subrange(0, gs.len() as int) =~= gs);
        (0, gs.len() as int)
    } else if i == 0 {
        assert(gs.subrange(0, width) =~= gs.take(width));
        (0, width)
    } else {
        let (k, l) = lemma_chunk_lines_shape(gs.skip(width), width, hl, i - 1);
        assert(gs.subrange(k + width, l + width) =~= gs.skip(width).subrange(k, l));
        (k + width, l + width)
    }
}

/// Any display line of one wrapped physical line is the concatenation of at
/// most `width` consecutive grapheme clusters of the stripped line: the
/// column bound holds and a multi-code-point cluster is never cut apart.
/// The returned pair gives the run of clusters the line consists of.
pub proof fn lemma_wrap_line_cluster_bound(line: Seq<char>, width: int, i: int) -> (r: (int, int))
    requires
        width >= 1,
        0 <= i < wrap_line(line, width).len(),
    ensures
        ({
            let gs = graphemes_of(stripped(line));
            &&& 0 <= r.0 <= r.1 <= gs.len()
            &&& r.1 - r.0 <= width
            &&& wrap_line(line, width)[i].0 == gs.subrange(r.0, r.1).flatten()
        }),
{
    let gs = graphemes_of(stripped(line));
    if line.len() == 0 {
        assert(gs.subrange(0, 0) =~= Seq::<Seq<char>>::empty());
        assert(gs.subrange(0, 0).flatten() =~= Seq::<char>::empty());
        (0, 0)
    } else {
        lemma_chunk_lines_shape(gs, width, has_markers(line), i)
    }
}

/// Concatenating the display lines of a wrapped cluster sequence, in order,
/// gives back the concatenation of all clusters: nothing is lost, duplicated
/// or reordered.
pub proof fn lemma_chunk_lines_round_trip(gs: Seq<Seq<char>>, width: int, hl: bool)
    requires
        width >= 1,
    ensures
        texts_concat(chunk_lines(gs, width, hl)) == gs.flatten(),
    decreases gs.len(),
{
    if gs.len() == 0 {
        assert(texts_concat(chunk_lines(gs, width, hl)) =~= gs.flatten());
    } else if gs.len() <= width {
        let one = chunk_lines(gs, width, hl);
        assert(one.skip(1) =~= Seq::<(Seq<char>, bool)>::empty());
        assert(texts_concat(Seq::<(Seq<char>, bool)>::empty()) == Seq::<char>::empty());
        assert(texts_concat(one) == one[0].0 + texts_concat(one.skip(1)));
        assert(texts_concat(one) =~= gs.flatten());
    } else {
        lemma_chunk_lines_round_trip(gs.skip(width), width, hl);
        lemma_flatten_concat(gs.take(width), gs.skip(width));
        assert(gs.take(width) + gs.skip(width) =~= gs);
        let all = chunk_lines(gs, width, hl);
        assert(all.skip(1) =~= chunk_lines(gs.skip(width), width, hl));
        assert(texts_concat(all) =~= gs.flatten());
    }
}

/// Concatenating the texts of all display lines of one physical line, in
/// order and ignoring the highlight flag, reconstructs the stripped line
/// content exactly. The premise is the partition fact the grapheme segmenter
/// guarantees of every segmentation it returns, which `split_and_wrap_lines`
/// re-exports for every non-empty physical line.
pub proof fn lemma_wrap_line_round_trip(line: Seq<char>, width: int)
    requires
        width >= 1,
        line.len() > 0 ==> graphemes_partition(stripped(line)),
    ensures
        texts_concat(wrap_line(line, width)) == stripped(line),
{
    if line.len() == 0 {
        assert(!has_markers(line));
        let one = wrap_line(line, width);
        assert(one.skip(1) =~= Seq::<(Seq<char>, bool)>::empty());
        assert(texts_concat(Seq::<(Seq<char>, bool)>::empty()) == Seq::<char>::empty());
        assert(texts_concat(one) == one[0].0 + texts_concat(one.skip(1)));
        assert(texts_concat(one) =~= line);
    } else {
        lemma_chunk_lines_round_trip(graphemes_of(stripped(line)), width, has_markers(line));
    }
}

/// Where a display line of a sequence of physical lines comes from: the
/// physical line's index and the display line's place in its wrapping.
proof fn lemma_wrap_lines_all_index(ls: Seq<Seq<char>>, width: int, i: int) -> (r: (int, int))
    requires
        0 <= i < wrap_lines_all(ls, width).len(),
    ensures
        0 <= r.0 < ls.len(),
        0 <= r.1 < wrap_line(ls[r.0], width).len(),
        wrap_lines_all(ls, width)[i] == wrap_line(ls[r.0], width)[r.1],
    decreases ls.len(),
{
    let head = wrap_line(ls[0], width);
    if i < head.len() {
        (0, i)
    } else {
        let (m, j) = lemma_wrap_lines_all_index(ls.skip(1), width, i - head.len());
        assert(wrap_lines_all(ls, width)[i] == wrap_lines_all(ls.skip(1), width)[i - head.len()]);
        assert(ls.skip(1)[m] == ls[m + 1]);
        (m + 1, j)
    }
}

/// Every display line of a wrapped text is the concatenation of a run of at
/// most `width` consecutive grapheme clusters of the stripped physical line
/// it came from: the column bound holds everywhere, and no cluster is ever
/// split across two display lines. The result names the physical line and
/// the run.
pub proof fn lemma_wrap_spec_cluster_bound(text: Seq<char>, width: int, i: int) -> (r: (
    int,
    int,
    int,
))
    requires
        width >= 1,
        0 <= i < wrap_spec(text, width).len(),
    ensures
        ({
            let gs = graphemes_of(stripped(split_lines(text)[r.0]));
            &&& 0 <= r.0 < split_lines(text).len()
            &&& 0 <= r.1 <= r.2 <= gs.len()
            &&& r.2 - r.1 <= width
            &&& wrap_spec(text, width)[i].0 == gs.subrange(r.1, r.2).flatten()
        }),
{
    assert(wrap_spec(text, width)[i] == wrap_all(text, width)[i]);
    let (m, j) = lemma_wrap_lines_all_index(split_lines(text), width, i);
    let (k, l) = lemma_wrap_line_cluster_bound(split_lines(text)[m], width, j);
    (m, k, l)
}

/// Every character of every physical line occurs in the text it was split
/// from.
pub proof fn lemma_split_lines_chars(s: Seq<char>, i: int, j: int)
    requires
        0 <= i < split_lines(s).len(),
        0 <= j < split_lines(s)[i].len(),
    ensures
        s.contains(split_lines(s)[i][j]),
    decreases s.len(),
{
    let c = split_lines(s)[i][j];
    if s.len() == 0 {
    } else if s[0] == '\n' {
        assert(i >= 1);
        assert(split_lines(s)[i] == split_lines(s.skip(1))[i - 1]);
        lemma_split_lines_chars(s.skip(1), i - 1, j);
        let t = choose|t: int| 0 <= t < s.skip(1).len() && s.skip(1)[t] == c;
        assert(s[t + 1] == c);
    } else {
        let rest = split_lines(s.skip(1));
        lemma_split_lines_nonempty(s.skip(1));
        if i == 0 {
            assert(split_lines(s)[0] == seq![s[0]] + rest[0]);
            if j == 0 {
                assert(s[0] == c);
            } else {
                assert(rest[0][j - 1] == c);
                lemma_split_lines_chars(s.skip(1), 0, j - 1);
                let t = choose|t: int| 0 <= t < s.skip(1).len() && s.skip(1)[t] == c;
                assert(s[t + 1] == c);
            }
        } else {
            assert(split_lines(s)[i] == rest[i]);
            lemma_split_lines_chars(s.skip(1), i, j);
            let t = choose|t: int| 0 <= t < s.skip(1).len() && s.skip(1)[t] == c;
            assert(s[t + 1] == c);
        }
    }
}

/// The physical line a display line came from: its index, such that a
/// highlighted display line means that line was bracketed by the markers.
proof fn lemma_wrap_lines_all_source(ls: Seq<Seq<char>>, width: int, i: int) -> (m: int)
    requires
        0 <= i < wrap_lines_all(ls, width).len(),
    ensures
        0 <= m < ls.len(),
        wrap_lines_all(ls, width)[i].1 ==> has_markers(ls[m]),
{
    let (m, j) = lemma_wrap_lines_all_index(ls, width, i);
    if ls[m].len() > 0 {
        lemma_chunk_lines_flag(graphemes_of(stripped(ls[m])), width, has_markers(ls[m]), j);
    }
    m
}

/// A text that holds no escape character yields no highlighted display line:
/// without the marker convention nothing is ever tinted.
pub proof fn lemma_no_escape_no_highlight(text: Seq<char>, width: int, i: int)
    requires
        width >= 1,
        !text.contains('\u{1b}'),
        0 <= i < wrap_spec(text, width).len(),
    ensures
        wrap_spec(text, width)[i].1 == false,
{
    assert(wrap_spec(text, width)[i] == wrap_all(text, width)[i]);
    if wrap_all(text, width)[i].1 {
        let m = lemma_wrap_lines_all_source(split_lines(text), width, i);
        let line = split_lines(text)[m];
        assert(line.take(5)[0] == line[0]);
        assert(start_marker()[0] == '\u{1b}');
        assert(line[0] == '\u{1b}');
        lemma_split_lines_chars(text, m, 0);
        assert(false);
    }
}

/// A text always has at least one physical line.
pub proof fn lemma_split_lines_nonempty(s: Seq<char>)
    ensures
        split_lines(s).len() >= 1,
    decreases s.len(),
{
    if s.len() != 0 && s[0] != '\n' {
        lemma_split_lines_nonempty(s.skip(1));
    }
}

/// A text without newlines is a single physical line.
pub proof fn lemma_split_lines_no_newline(s: Seq<char>)
    requires
        forall|i: int| 0 <= i < s.len() ==> s[i] != '\n',
    ensures
        split_lines(s) == seq![s],
    decreases s.len(),
{
    if s.len() == 0 {
        assert(s =~= Seq::<char>::empty());
        assert(split_lines(s) =~= seq![s]);
    } else {
        assert(s[0] != '\n');
        lemma_split_lines_no_newline(s.skip(1));
        let rest = split_lines(s.skip(1));
        assert(split_lines(s) == seq![seq![s[0]] + rest[0]] + rest.skip(1));
        assert(rest[0] == s.skip(1));
        assert(seq![s[0]] + rest[0] =~= s);
        assert(rest.skip(1) =~= Seq::<Seq<char>>::empty());
        assert(split_lines(s) =~= seq![s]);
    }
}

/// Splitting at the first newline: everything before it is the first
/// physical line, and the rest of the text splits on its own.
pub proof fn lemma_split_lines_step(s: Seq<char>, i: int)
    requires
        0 <= i < s.len(),
        s[i] == '\n',
        forall|j: int| 0 <= j < i ==> s[j] != '\n',
    ensures
        split_lines(s) == seq![s.take(i)] + split_lines(s.skip(i + 1)),
    decreases i,
{
    if i == 0 {
        assert(s.take(0) =~= Seq::<char>::empty());
        assert(split_lines(s) =~= seq![s.take(0)] + split_lines(s.skip(1)));
    } else {
        let t = s.skip(1);
        assert(forall|j: int| 0 <= j < i - 1 ==> t[j] != '\n');
        lemma_split_lines_step(t, i - 1);
        lemma_split_lines_nonempty(t.skip(i));
        assert(t.skip(i) =~= s.skip(i + 1));
        assert(t.take(i - 1) =~= s.subrange(1, i));
        assert(seq![s[0]] + s.subrange(1, i) =~= s.take(i));
        assert(split_lines(s) =~= seq![s.take(i)] + split_lines(s.skip(i + 1)));
    }
}

} // verus!
