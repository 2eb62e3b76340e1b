//! Which columns the glyphs of a shaped run belong to. The grid places clusters;
//! the advances of a font only place glyphs within one.

use vstd::prelude::*;
use vstd::utf8::*;
use crate::ordering;
use crate::ordering::Keyed;
use crate::renderer::shaping;
use crate::terminal::frame;
use crate::terminal::frame::{CellView, TerminalCellPatch};

verus! {

/// How many bytes a character takes in UTF-8.
pub open spec fn utf8_length(character: char) -> int {
    if (character as u32) < 0x80 {
        1
    } else if (character as u32) < 0x800 {
        2
    } else if (character as u32) < 0x10000 {
        3
    } else {
        4
    }
}

fn character_length(character: char) -> (bytes: usize)
    ensures
        bytes == utf8_length(character),
{
    let code: u32 = character as u32;
    if code < 0x80 {
        1
    } else if code < 0x800 {
        2
    } else if code < 0x10000 {
        3
    } else {
        4
    }
}

/// How many bytes a text takes in UTF-8.
pub open spec fn text_length(shown: Seq<char>) -> int
    decreases shown.len(),
{
    if shown.len() == 0 {
        0
    } else {
        text_length(shown.drop_last()) + utf8_length(shown.last())
    }
}

/// How many bytes the text of some cells takes.
pub open spec fn cells_length(cells: Seq<CellView>) -> int
    decreases cells.len(),
{
    if cells.len() == 0 {
        0
    } else {
        cells_length(cells.drop_last()) + text_length(shaping::cell_text(cells.last()))
    }
}

/// The bytes `start..end` of a run, which belong to the columns
/// `start_column..end_column`.
#[derive(Clone, Copy, Debug, PartialEq, Eq, Structural)]
pub struct ByteInterval {
    pub start: usize,
    pub end: usize,
    pub start_column: usize,
    pub end_column: usize,
}

/// Whether the intervals are those of the cells: each cell has the bytes of its
/// character and its marks, behind those of the cells before it.
pub open spec fn maps_cells(cells: Seq<CellView>, intervals: Seq<ByteInterval>) -> bool {
    intervals.len() == cells.len() && forall|i: int|
        0 <= i < cells.len() ==> {
            &&& (#[trigger] intervals[i]).start == cells_length(cells.take(i))
            &&& intervals[i].end == cells_length(cells.take(i + 1))
            &&& intervals[i].start_column == cells[i].column
            &&& intervals[i].end_column == cells[i].column + cells[i].width_in_columns
        }
}

proof fn lemma_text_grows(shown: Seq<char>, count: int)
    requires
        0 <= count <= shown.len(),
    ensures
        0 <= text_length(shown.take(count)) <= text_length(shown),
    decreases shown.len(),
{
    if count == shown.len() {
        assert(shown.take(count) == shown);
        if count > 0 {
            lemma_text_grows(shown.drop_last(), count - 1);
        }
    } else {
        lemma_text_grows(shown.drop_last(), count);
        assert(shown.drop_last().take(count) == shown.take(count));
    }
}

proof fn lemma_cells_grow(cells: Seq<CellView>, count: int)
    requires
        0 <= count <= cells.len(),
    ensures
        0 <= cells_length(cells.take(count)) <= cells_length(cells),
    decreases cells.len(),
{
    if cells.len() > 0 {
        let shown = shaping::cell_text(cells.last());
        lemma_text_grows(shown, shown.len() as int);
        assert(shown.take(shown.len() as int) == shown);
    }
    if count == cells.len() {
        assert(cells.take(count) == cells);
        if count > 0 {
            lemma_cells_grow(cells.drop_last(), count - 1);
        }
    } else {
        lemma_cells_grow(cells.drop_last(), count);
        assert(cells.drop_last().take(count) == cells.take(count));
    }
}

fn cell_length(cell: &TerminalCellPatch) -> (bytes: usize)
    requires
        text_length(shaping::cell_text(cell@)) <= usize::MAX,
    ensures
        bytes == text_length(shaping::cell_text(cell@)),
{
    let ghost shown = shaping::cell_text(cell@);
    let mut bytes: usize = character_length(cell.character);
    proof {
        reveal_with_fuel(text_length, 2);
        assert(shown.take(1) == seq![cell.character]);
        assert(shown.take(1).drop_last() == Seq::<char>::empty());
        assert(shown.take(1).last() == cell.character);
        assert(bytes == text_length(shown.take(1)));
    }
    match &cell.zerowidth {
        Some(list) => {
            let mut index: usize = 0;
            while index < list.len()
                invariant
                    index <= list@.len(),
                    shown == seq![cell.character] + list@,
                    text_length(shown) <= usize::MAX,
                    bytes == text_length(shown.take(index + 1)),
                decreases list.len() - index,
            {
                proof {
                    assert(shown.take(index + 2).drop_last() == shown.take(index + 1));
                    assert(shown.take(index + 2).last() == list@[index as int]);
                    lemma_text_grows(shown, index + 2);
                }
                bytes += character_length(list[index]);
                index += 1;
            }
            assert(shown.take(index + 1) == shown);
        },
        None => {
            assert(shown.take(1) == shown);
        },
    }
    bytes
}

/// The bytes and the columns of each cell of a run. The text of the run has to
/// fit into memory.
pub fn map_bytes(cells: &Vec<TerminalCellPatch>) -> (intervals: Vec<ByteInterval>)
    requires
        cells_length(frame::cell_views(cells@)) <= usize::MAX,
        forall|i: int|
            0 <= i < cells@.len() ==> (#[trigger] cells@[i]).column + cells@[i].width_in_columns
                <= usize::MAX,
    ensures
        maps_cells(frame::cell_views(cells@), intervals@),
{
    let ghost all = frame::cell_views(cells@);
    let mut intervals: Vec<ByteInterval> = Vec::new();
    let mut byte: usize = 0;
    let mut index: usize = 0;
    while index < cells.len()
        invariant
            index <= cells@.len(),
            all == frame::cell_views(cells@),
            cells_length(all) <= usize::MAX,
            forall|i: int|
                0 <= i < cells@.len() ==> (#[trigger] cells@[i]).column
                    + cells@[i].width_in_columns <= usize::MAX,
            intervals@.len() == index,
            byte == cells_length(all.take(index as int)),
            forall|i: int|
                0 <= i < index ==> {
                    &&& (#[trigger] intervals@[i]).start == cells_length(all.take(i))
                    &&& intervals@[i].end == cells_length(all.take(i + 1))
                    &&& intervals@[i].start_column == all[i].column
                    &&& intervals@[i].end_column == all[i].column + all[i].width_in_columns
                },
        decreases cells.len() - index,
    {
        let cell: &TerminalCellPatch = &cells[index];
        proof {
            assert(all.take(index + 1).drop_last() == all.take(index as int));
            assert(all.take(index + 1).last() == cell@);
            lemma_cells_grow(all, index + 1);
            lemma_cells_grow(all, index as int);
        }
        let start: usize = byte;
        byte += cell_length(cell);
        intervals.push(
            ByteInterval {
                start,
                end: byte,
                start_column: cell.column,
                end_column: cell.column + cell.width_in_columns,
            },
        );
        index += 1;
    }
    intervals
}

/// The intervals of a run lie one behind the other, without a gap, from its
/// first byte to its last.
pub proof fn intervals_cover_the_text(cells: Seq<CellView>, intervals: Seq<ByteInterval>)
    requires
        maps_cells(cells, intervals),
        cells.len() > 0,
    ensures
        intervals[0].start == 0,
        intervals.last().end == cells_length(cells),
        forall|i: int|
            0 <= i < intervals.len() - 1 ==> (#[trigger] intervals[i]).end == intervals[i
                + 1].start,
{
    assert(cells.take(0) == Seq::<CellView>::empty());
    assert(cells.take(cells.len() as int) == cells);
    assert(intervals.last() == intervals[cells.len() - 1]);
    assert forall|i: int| 0 <= i < intervals.len() - 1 implies (#[trigger] intervals[i]).end
        == intervals[i + 1].start by {
        assert(intervals[i + 1].start == cells_length(cells.take(i + 1)));
    }
}

/// The bytes `start..end` that a shaped glyph stands for.
#[derive(Clone, Copy, Debug, PartialEq, Eq, Structural)]
pub struct GlyphBytes {
    pub start: usize,
    pub end: usize,
}

/// How many of the first intervals end at a byte or before it.
pub open spec fn ended_by(intervals: Seq<ByteInterval>, byte: int) -> int
    decreases intervals.len(),
{
    if intervals.len() > 0 && intervals[0].end <= byte {
        1 + ended_by(intervals.skip(1), byte)
    } else {
        0
    }
}

/// How many of the first intervals start before a byte.
pub open spec fn started_before(intervals: Seq<ByteInterval>, byte: int) -> int
    decreases intervals.len(),
{
    if intervals.len() > 0 && intervals[0].start < byte {
        1 + started_before(intervals.skip(1), byte)
    } else {
        0
    }
}

proof fn lemma_counts(intervals: Seq<ByteInterval>, byte: int)
    ensures
        0 <= ended_by(intervals, byte) <= intervals.len(),
        0 <= started_before(intervals, byte) <= intervals.len(),
    decreases intervals.len(),
{
    if intervals.len() > 0 {
        lemma_counts(intervals.skip(1), byte);
    }
}

fn count_ended(intervals: &Vec<ByteInterval>, byte: usize) -> (count: usize)
    ensures
        count == ended_by(intervals@, byte as int),
        count <= intervals@.len(),
{
    let mut count: usize = 0;
    assert(intervals@.skip(0) == intervals@);
    while count < intervals.len() && intervals[count].end <= byte
        invariant
            count <= intervals@.len(),
            ended_by(intervals@, byte as int) == count + ended_by(
                intervals@.skip(count as int),
                byte as int,
            ),
        decreases intervals.len() - count,
    {
        assert(intervals@.skip(count as int).skip(1) == intervals@.skip(count + 1));
        count += 1;
    }
    count
}

fn count_started(intervals: &Vec<ByteInterval>, byte: usize) -> (count: usize)
    ensures
        count == started_before(intervals@, byte as int),
        count <= intervals@.len(),
{
    let mut count: usize = 0;
    assert(intervals@.skip(0) == intervals@);
    while count < intervals.len() && intervals[count].start < byte
        invariant
            count <= intervals@.len(),
            started_before(intervals@, byte as int) == count + started_before(
                intervals@.skip(count as int),
                byte as int,
            ),
        decreases intervals.len() - count,
    {
        assert(intervals@.skip(count as int).skip(1) == intervals@.skip(count + 1));
        count += 1;
    }
    count
}

/// The columns `start..end` of a glyph.
#[derive(Clone, Copy, Debug, PartialEq, Eq, Structural)]
pub struct GlyphSpan {
    pub start: usize,
    pub end: usize,
    pub glyph: usize,
}

impl Keyed for GlyphSpan {
    open spec fn key(&self) -> int {
        self.start as int
    }

    fn sort_key(&self) -> u64 {
        self.start as u64
    }
}

/// The columns of the cells whose bytes a glyph stands for; none where it
/// stands for no byte of the run.
pub open spec fn span_of(intervals: Seq<ByteInterval>, glyph: GlyphBytes, index: usize) -> Option<
    GlyphSpan,
> {
    let first = ended_by(intervals, glyph.start as int);
    let last = started_before(intervals, glyph.end as int);
    if first < last {
        Some(
            GlyphSpan {
                start: intervals[first].start_column,
                end: intervals[last - 1].end_column,
                glyph: index,
            },
        )
    } else {
        None
    }
}

/// The columns of the glyphs that have any, in the order of the glyphs.
pub open spec fn spans_of(intervals: Seq<ByteInterval>, glyphs: Seq<GlyphBytes>) -> Seq<GlyphSpan>
    decreases glyphs.len(),
{
    if glyphs.len() == 0 {
        Seq::empty()
    } else {
        let before = spans_of(intervals, glyphs.drop_last());
        match span_of(intervals, glyphs.last(), (glyphs.len() - 1) as usize) {
            Some(span) => before.push(span),
            None => before,
        }
    }
}

/// The index of a glyph within its run.
#[derive(Clone, Copy, Debug, PartialEq, Eq, Structural)]
pub struct GlyphIndex {
    pub index: usize,
}

impl Keyed for GlyphIndex {
    open spec fn key(&self) -> int {
        self.index as int
    }

    fn sort_key(&self) -> u64 {
        self.index as u64
    }
}

/// The glyphs of a run that share columns.
#[derive(Debug)]
pub struct Cluster {
    pub start_column: usize,
    pub end_column: usize,
    pub glyphs: Vec<GlyphIndex>,
}

/// What a `Cluster` holds.
#[verifier::ext_equal]
pub struct ClusterView {
    pub start_column: usize,
    pub end_column: usize,
    pub glyphs: Seq<GlyphIndex>,
}

impl View for Cluster {
    type V = ClusterView;

    open spec fn view(&self) -> ClusterView {
        ClusterView {
            start_column: self.start_column,
            end_column: self.end_column,
            glyphs: self.glyphs@,
        }
    }
}

/// What a list of clusters holds.
pub open spec fn cluster_views(clusters: Seq<Cluster>) -> Seq<ClusterView> {
    clusters.map_values(|cluster: Cluster| cluster@)
}

/// The clusters with one more span: it joins the last cluster where it starts
/// before that ends.
pub open spec fn joined(clusters: Seq<ClusterView>, span: GlyphSpan) -> Seq<ClusterView> {
    if clusters.len() > 0 && span.start < clusters.last().end_column {
        let last = clusters.last();
        clusters.drop_last().push(
            ClusterView {
                start_column: last.start_column,
                end_column: if last.end_column < span.end {
                    span.end
                } else {
                    last.end_column
                },
                glyphs: last.glyphs.push(GlyphIndex { index: span.glyph }),
            },
        )
    } else {
        clusters.push(
            ClusterView {
                start_column: span.start,
                end_column: span.end,
                glyphs: seq![GlyphIndex { index: span.glyph }],
            },
        )
    }
}

/// The clusters of some spans.
pub open spec fn merged(spans: Seq<GlyphSpan>) -> Seq<ClusterView>
    decreases spans.len(),
{
    if spans.len() == 0 {
        Seq::empty()
    } else {
        joined(merged(spans.drop_last()), spans.last())
    }
}

/// A cluster whose glyphs stand in the order of the run.
pub open spec fn in_order(cluster: ClusterView) -> ClusterView {
    ClusterView { glyphs: ordering::sorted_by_key(cluster.glyphs), ..cluster }
}

/// The clusters of a run from left to right.
pub open spec fn clusters_of(intervals: Seq<ByteInterval>, glyphs: Seq<GlyphBytes>) -> Seq<
    ClusterView,
> {
    merged(ordering::sorted_by_key(spans_of(intervals, glyphs))).map_values(
        |cluster: ClusterView| in_order(cluster),
    )
}

fn glyph_spans(intervals: &Vec<ByteInterval>, glyphs: &Vec<GlyphBytes>) -> (spans: Vec<GlyphSpan>)
    ensures
        spans@ == spans_of(intervals@, glyphs@),
{
    let mut spans: Vec<GlyphSpan> = Vec::new();
    let mut index: usize = 0;
    assert(glyphs@.take(0) == Seq::<GlyphBytes>::empty());
    while index < glyphs.len()
        invariant
            index <= glyphs@.len(),
            spans@ == spans_of(intervals@, glyphs@.take(index as int)),
        decreases glyphs.len() - index,
    {
        proof {
            assert(glyphs@.take(index + 1).drop_last() == glyphs@.take(index as int));
            assert(glyphs@.take(index + 1).last() == glyphs@[index as int]);
            lemma_counts(intervals@, glyphs@[index as int].start as int);
            lemma_counts(intervals@, glyphs@[index as int].end as int);
        }
        let first = count_ended(intervals, glyphs[index].start);
        let last = count_started(intervals, glyphs[index].end);
        if first < last {
            spans.push(
                GlyphSpan {
                    start: intervals[first].start_column,
                    end: intervals[last - 1].end_column,
                    glyph: index,
                },
            );
        }
        index += 1;
    }
    assert(glyphs@.take(index as int) == glyphs@);
    spans
}

fn merge_spans(spans: &Vec<GlyphSpan>) -> (clusters: Vec<Cluster>)
    ensures
        cluster_views(clusters@) == merged(spans@),
{
    let mut clusters: Vec<Cluster> = Vec::new();
    let mut index: usize = 0;
    assert(cluster_views(clusters@) == merged(spans@.take(0)));
    while index < spans.len()
        invariant
            index <= spans@.len(),
            cluster_views(clusters@) == merged(spans@.take(index as int)),
        decreases spans.len() - index,
    {
        let span: GlyphSpan = spans[index];
        let ghost before = cluster_views(clusters@);
        proof {
            assert(spans@.take(index + 1).drop_last() == spans@.take(index as int));
            assert(spans@.take(index + 1).last() == span);
        }
        let count: usize = clusters.len();
        if count > 0 {
            assert(before.last() == clusters@.last()@);
        }
        if count > 0 && span.start < clusters[count - 1].end_column {
            let ghost others = clusters@.drop_last();
            match clusters.pop() {
                Some(mut last) => {
                    let ghost view = last@;
                    if last.end_column < span.end {
                        last.end_column = span.end;
                    }
                    last.glyphs.push(GlyphIndex { index: span.glyph });
                    let ghost next = last@;
                    clusters.push(last);
                    assert(cluster_views(clusters@) == cluster_views(others).push(next));
                    assert(before.drop_last() == cluster_views(others));
                },
                None => {},
            }
        } else {
            let mut list: Vec<GlyphIndex> = Vec::new();
            list.push(GlyphIndex { index: span.glyph });
            assert(list@ == seq![GlyphIndex { index: span.glyph }]);
            let cluster = Cluster {
                start_column: span.start,
                end_column: span.end,
                glyphs: list,
            };
            let ghost next = cluster@;
            clusters.push(cluster);
            assert(cluster_views(clusters@) == before.push(next));
        }
        assert(cluster_views(clusters@) =~= joined(before, span));
        index += 1;
    }
    assert(spans@.take(index as int) == spans@);
    clusters
}

/// Gathers the shaped glyphs of a run into clusters: glyphs whose columns
/// overlap belong together, and keep the order that the shaper gave them.
pub fn cluster_glyphs(intervals: &Vec<ByteInterval>, glyphs: &Vec<GlyphBytes>) -> (clusters: Vec<
    Cluster,
>)
    ensures
        cluster_views(clusters@) == clusters_of(intervals@, glyphs@),
{
    let spans = glyph_spans(intervals, glyphs);
    let sorted = ordering::sort_by_key(spans);
    let mut rest = merge_spans(&sorted);
    let ghost all = merged(sorted@);
    let ghost expected = clusters_of(intervals@, glyphs@);
    let mut clusters: Vec<Cluster> = Vec::new();
    let mut index: usize = 0;
    let total: usize = rest.len();
    assert(cluster_views(clusters@) == expected.take(0));
    while index < total
        invariant
            index <= total,
            total == all.len(),
            all == merged(ordering::sorted_by_key(spans_of(intervals@, glyphs@))),
            expected == clusters_of(intervals@, glyphs@),
            cluster_views(rest@) == all.skip(index as int),
            cluster_views(clusters@) == expected.take(index as int),
        decreases total - index,
    {
        let ghost before = rest@;
        let ghost done = cluster_views(clusters@);
        assert(cluster_views(rest@).len() == total - index);
        let cluster = rest.remove(0);
        proof {
            assert(cluster@ == cluster_views(before)[0]);
            assert(cluster@ == all[index as int]);
            assert(cluster_views(rest@) =~= all.skip(index + 1)) by {
                assert forall|i: int| 0 <= i < rest@.len() implies cluster_views(rest@)[i]
                    == all.skip(index + 1)[i] by {
                    assert(rest@[i] == before[i + 1]);
                    assert(cluster_views(before)[i + 1] == all.skip(index as int)[i + 1]);
                }
            }
        }
        let arranged = Cluster {
            start_column: cluster.start_column,
            end_column: cluster.end_column,
            glyphs: ordering::sort_by_key(cluster.glyphs),
        };
        let ghost view = arranged@;
        clusters.push(arranged);
        proof {
            assert(view == expected[index as int]);
            assert(cluster_views(clusters@) == done.push(view));
            assert(expected.take(index + 1) == expected.take(index as int).push(
                expected[index as int],
            ));
        }
        index += 1;
    }
    assert(expected.take(total as int) == expected);
    clusters
}

/// The glyphs of all clusters, one cluster after another.
pub open spec fn clustered_glyphs(clusters: Seq<ClusterView>) -> Seq<GlyphIndex>
    decreases clusters.len(),
{
    if clusters.len() == 0 {
        Seq::empty()
    } else {
        clustered_glyphs(clusters.drop_last()) + clusters.last().glyphs
    }
}

/// Merging spans into clusters keeps every glyph, each once, and in its order.
pub proof fn merging_keeps_every_glyph(spans: Seq<GlyphSpan>)
    ensures
        clustered_glyphs(merged(spans)) == spans.map_values(
            |span: GlyphSpan| GlyphIndex { index: span.glyph },
        ),
    decreases spans.len(),
{
    let index_of = |span: GlyphSpan| GlyphIndex { index: span.glyph };
    if spans.len() == 0 {
        assert(clustered_glyphs(merged(spans)) =~= spans.map_values(index_of));
    } else {
        merging_keeps_every_glyph(spans.drop_last());
        let before = merged(spans.drop_last());
        let after = merged(spans);
        let added = index_of(spans.last());
        assert(spans.map_values(index_of) =~= spans.drop_last().map_values(index_of).push(added));
        if before.len() > 0 && spans.last().start < before.last().end_column {
            assert(after.drop_last() =~= before.drop_last());
            assert(clustered_glyphs(after) =~= clustered_glyphs(before).push(added));
        } else {
            assert(after.drop_last() =~= before);
            assert(clustered_glyphs(after) =~= clustered_glyphs(before).push(added));
        }
    }
}

/// Clusters never overlap: each ends before the next one starts.
pub proof fn clusters_never_overlap(spans: Seq<GlyphSpan>)
    requires
        ordering::ascending(spans),
        forall|i: int| 0 <= i < spans.len() ==> (#[trigger] spans[i]).start < spans[i].end,
    ensures
        forall|i: int, j: int|
            0 <= i < j < merged(spans).len() ==> (#[trigger] merged(spans)[i]).end_column <= (
            #[trigger] merged(spans)[j]).start_column,
        forall|i: int|
            0 <= i < merged(spans).len() ==> (#[trigger] merged(spans)[i]).start_column < merged(
                spans,
            )[i].end_column,
        spans.len() > 0 ==> merged(spans).len() > 0 && merged(spans).last().start_column
            <= spans.last().start,
    decreases spans.len(),
{
    if spans.len() > 0 {
        let shorter = spans.drop_last();
        assert(ordering::ascending(shorter)) by {
            assert forall|i: int, j: int| 0 <= i <= j < shorter.len() implies shorter[i].key()
                <= shorter[j].key() by {
                assert(spans[i].key() <= spans[j].key());
            }
        }
        assert forall|i: int| 0 <= i < shorter.len() implies (#[trigger] shorter[i]).start
            < shorter[i].end by {
            assert(spans[i].start < spans[i].end);
        }
        clusters_never_overlap(shorter);
        let before = merged(shorter);
        let after = merged(spans);
        let span = spans.last();
        assert(span == spans[spans.len() - 1]);
        if shorter.len() > 0 {
            assert(spans[shorter.len() - 1].key() <= spans[spans.len() - 1].key());
        }
        assert forall|i: int, j: int| 0 <= i < j < after.len() implies (
        #[trigger] after[i]).end_column <= (#[trigger] after[j]).start_column by {
            if j < before.len() {
                if before.len() > 0 && span.start < before.last().end_column {
                    assert(after[i] == before[i]);
                    assert(before[i].end_column <= before[j].start_column);
                    assert(after[j].start_column == before[j].start_column);
                } else {
                    assert(before[i].end_column <= before[j].start_column);
                }
            } else if i < before.len() - 1 {
                assert(before[i].end_column <= before[before.len() - 1].start_column);
            }
        }
    }
}

proof fn lemma_text_from_first(shown: Seq<char>)
    requires
        shown.len() > 0,
    ensures
        text_length(shown) == utf8_length(shown[0]) + text_length(shown.drop_first()),
    decreases shown.len(),
{
    reveal_with_fuel(text_length, 2);
    let rest = shown.drop_first();
    if shown.len() == 1 {
        assert(rest =~= Seq::<char>::empty());
        assert(shown.drop_last() =~= Seq::<char>::empty());
    } else {
        let shorter = shown.drop_last();
        lemma_text_from_first(shorter);
        assert(shorter.drop_first() =~= rest.drop_last());
        assert(rest.last() == shown.last());
    }
}

/// The length of a text is the number of the bytes that it is encoded with.
pub proof fn lengths_count_the_bytes(shown: Seq<char>)
    ensures
        text_length(shown) == encode_utf8(shown).len(),
    decreases shown.len(),
{
    if shown.len() > 0 {
        lemma_text_from_first(shown);
        lengths_count_the_bytes(shown.drop_first());
        char_is_scalar(shown[0]);
    }
}

/// Each cell of a run has as many bytes as its character and its marks are encoded
/// with, and the columns that it takes on the screen.
pub proof fn cells_have_their_bytes_and_columns(
    cells: Seq<CellView>,
    intervals: Seq<ByteInterval>,
    place: int,
)
    requires
        maps_cells(cells, intervals),
        0 <= place < cells.len(),
    ensures
        intervals[place].end - intervals[place].start == encode_utf8(
            shaping::cell_text(cells[place]),
        ).len(),
        intervals[place].start_column == cells[place].column,
        intervals[place].end_column - intervals[place].start_column
            == cells[place].width_in_columns,
{
    lengths_count_the_bytes(shaping::cell_text(cells[place]));
    assert(cells.take(place + 1).drop_last() =~= cells.take(place));
    assert(cells.take(place + 1).last() == cells[place]);
    assert(intervals[place].end == cells_length(cells.take(place + 1)));
}

proof fn lemma_counted(intervals: Seq<ByteInterval>, byte: int, place: int)
    requires
        0 <= place < intervals.len(),
        forall|i: int| 0 <= i < intervals.len() ==> (#[trigger] intervals[i]).start < intervals[i].end,
        forall|i: int, j: int|
            0 <= i < j < intervals.len() ==> (#[trigger] intervals[i]).end <= (
            #[trigger] intervals[j]).start,
    ensures
        place < ended_by(intervals, byte) <==> intervals[place].end <= byte,
        place < started_before(intervals, byte) <==> intervals[place].start < byte,
    decreases intervals.len(),
{
    let rest = intervals.skip(1);
    assert forall|i: int| 0 <= i < rest.len() implies (#[trigger] rest[i]).start < rest[i].end by {
        assert(intervals[i + 1].start < intervals[i + 1].end);
    }
    assert forall|i: int, j: int| 0 <= i < j < rest.len() implies (#[trigger] rest[i]).end <= (
    #[trigger] rest[j]).start by {
        assert(intervals[i + 1].end <= intervals[j + 1].start);
    }
    lemma_counts(rest, byte);
    assert(intervals[0].start < intervals[0].end);
    assert(intervals[place].start < intervals[place].end);
    if place > 0 {
        lemma_counted(rest, byte, place - 1);
        assert(intervals[0].end <= intervals[place].start);
    }
}

/// A glyph takes the columns of the cells whose text it stands for: from the first
/// cell that has one of its bytes to the last one. A glyph that stands for no byte
/// of the run takes none.
pub proof fn glyphs_take_the_columns_of_their_text(
    intervals: Seq<ByteInterval>,
    glyph: GlyphBytes,
    index: usize,
    first: int,
    last: int,
)
    requires
        forall|i: int| 0 <= i < intervals.len() ==> (#[trigger] intervals[i]).start < intervals[i].end,
        forall|i: int, j: int|
            0 <= i < j < intervals.len() ==> (#[trigger] intervals[i]).end <= (
            #[trigger] intervals[j]).start,
        0 <= first <= last < intervals.len(),
        intervals[first].end > glyph.start,
        intervals[last].start < glyph.end,
        first > 0 ==> intervals[first - 1].end <= glyph.start,
        last < intervals.len() - 1 ==> intervals[last + 1].start >= glyph.end,
    ensures
        span_of(intervals, glyph, index) == Some(
            GlyphSpan {
                start: intervals[first].start_column,
                end: intervals[last].end_column,
                glyph: index,
            },
        ),
{
    lemma_counted(intervals, glyph.start as int, first);
    lemma_counted(intervals, glyph.end as int, last);
    lemma_counts(intervals, glyph.start as int);
    lemma_counts(intervals, glyph.end as int);
    if first > 0 {
        lemma_counted(intervals, glyph.start as int, first - 1);
    }
    if last < intervals.len() - 1 {
        lemma_counted(intervals, glyph.end as int, last + 1);
    }
}

/// Every glyph stands in a cluster that holds all of its columns, and every cluster
/// starts and ends with a glyph.
pub proof fn clusters_hold_the_columns_of_their_glyphs(spans: Seq<GlyphSpan>, place: int)
    requires
        ordering::ascending(spans),
        forall|i: int| 0 <= i < spans.len() ==> (#[trigger] spans[i]).start < spans[i].end,
        0 <= place < spans.len(),
    ensures
        exists|k: int|
            0 <= k < merged(spans).len() && (#[trigger] merged(spans)[k]).start_column
                <= spans[place].start && spans[place].end <= merged(spans)[k].end_column
                && merged(spans)[k].glyphs.contains(GlyphIndex { index: spans[place].glyph }),
        spans.len() > 0 ==> merged(spans)[0].start_column == spans[0].start,
    decreases spans.len(),
{
    let shorter = spans.drop_last();
    let before = merged(shorter);
    let after = merged(spans);
    let span = spans.last();
    let wanted = GlyphIndex { index: spans[place].glyph };
    assert(ordering::ascending(shorter)) by {
        assert forall|i: int, j: int| 0 <= i <= j < shorter.len() implies shorter[i].key()
            <= shorter[j].key() by {
            assert(spans[i].key() <= spans[j].key());
        }
    }
    assert forall|i: int| 0 <= i < shorter.len() implies (#[trigger] shorter[i]).start
        < shorter[i].end by {
        assert(spans[i].start < spans[i].end);
    }
    clusters_never_overlap(shorter);
    if shorter.len() > 0 {
        assert(spans[shorter.len() - 1].key() <= spans[spans.len() - 1].key());
        clusters_hold_the_columns_of_their_glyphs(shorter, 0);
    }
    if place < shorter.len() {
        clusters_hold_the_columns_of_their_glyphs(shorter, place);
        let k = choose|k: int|
            0 <= k < before.len() && (#[trigger] before[k]).start_column <= shorter[place].start
                && shorter[place].end <= before[k].end_column && before[k].glyphs.contains(
                wanted,
            );
        let i = choose|i: int| 0 <= i < before[k].glyphs.len() && before[k].glyphs[i] == wanted;
        assert(after[k].glyphs[i] == wanted);
        assert(after[k].glyphs.contains(wanted));
        assert(after[k].start_column <= spans[place].start);
    } else {
        let k = after.len() - 1;
        assert(after[k] == after.last());
        assert(after[k].glyphs.last() == wanted);
        assert(after[k].glyphs[after[k].glyphs.len() - 1] == wanted);
        assert(after[k].start_column <= span.start);
        assert(after[k].glyphs.contains(wanted));
    }
}

proof fn lemma_spans_listed(intervals: Seq<ByteInterval>, glyphs: Seq<GlyphBytes>, place: int)
    requires
        0 <= place < glyphs.len() <= usize::MAX,
    ensures
        span_of(intervals, glyphs[place], place as usize) matches Some(span) ==> spans_of(
            intervals,
            glyphs,
        ).contains(span),
    decreases glyphs.len(),
{
    let shorter = glyphs.drop_last();
    let before = spans_of(intervals, shorter);
    let all = spans_of(intervals, glyphs);
    if let Some(span) = span_of(intervals, glyphs[place], place as usize) {
        if place < shorter.len() {
            assert(shorter[place] == glyphs[place]);
            lemma_spans_listed(intervals, shorter, place);
            let i = choose|i: int| 0 <= i < before.len() && before[i] == span;
            assert(all[i] == span);
        } else {
            assert(all[before.len() as int] == span);
        }
    }
}

/// A glyph that stands for text of the run is one of those that are gathered, with
/// the columns of that text.
pub proof fn glyphs_with_text_are_gathered(
    intervals: Seq<ByteInterval>,
    glyphs: Seq<GlyphBytes>,
    place: int,
)
    requires
        0 <= place < glyphs.len() <= usize::MAX,
    ensures
        span_of(intervals, glyphs[place], place as usize) matches Some(span)
            ==> ordering::sorted_by_key(spans_of(intervals, glyphs)).contains(span),
{
    broadcast use vstd::seq_lib::group_to_multiset_ensures;

    lemma_spans_listed(intervals, glyphs, place);
    let spans = spans_of(intervals, glyphs);
    ordering::sort_is_stable(spans);
    if let Some(span) = span_of(intervals, glyphs[place], place as usize) {
        assert(spans.to_multiset().count(span) > 0);
        assert(ordering::sorted_by_key(spans).to_multiset().count(span) > 0);
    }
}

/// Within a cluster the glyphs stand in the order that the shaper gave them; each
/// cluster has the columns and the glyphs that were gathered for it.
pub proof fn clusters_keep_the_order_of_the_run(
    intervals: Seq<ByteInterval>,
    glyphs: Seq<GlyphBytes>,
    place: int,
)
    requires
        0 <= place < clusters_of(intervals, glyphs).len(),
    ensures
        ({
            let cluster = clusters_of(intervals, glyphs)[place];
            let gathered = merged(ordering::sorted_by_key(spans_of(intervals, glyphs)))[place];
            &&& cluster.start_column == gathered.start_column
            &&& cluster.end_column == gathered.end_column
            &&& cluster.glyphs.to_multiset() == gathered.glyphs.to_multiset()
            &&& forall|i: int, j: int|
                0 <= i < j < cluster.glyphs.len() ==> cluster.glyphs[i].index
                    <= cluster.glyphs[j].index
        }),
{
    let gathered = merged(ordering::sorted_by_key(spans_of(intervals, glyphs)))[place];
    ordering::sort_is_stable(gathered.glyphs);
    let cluster = clusters_of(intervals, glyphs)[place];
    assert forall|i: int, j: int| 0 <= i < j < cluster.glyphs.len() implies cluster.glyphs[i].index
        <= cluster.glyphs[j].index by {
        assert(cluster.glyphs[i].key() <= cluster.glyphs[j].key());
    }
}

} // verus!
