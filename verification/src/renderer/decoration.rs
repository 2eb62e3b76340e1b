//! Decorations lie between the background of the cells and their text.

use vstd::prelude::*;
use crate::ordering;
use crate::ordering::Keyed;
use crate::terminal::frame::{DecorationKind, DecorationRange};
use crate::terminal::palette::RgbaColor;

verus! {

/// The colours of the decorations.
#[derive(Clone, Copy, Debug, PartialEq, Eq, Structural)]
pub struct DecorationTheme {
    pub selection_background: RgbaColor,
    pub search_match_background: RgbaColor,
    pub search_current_background: RgbaColor,
}

/// The colour of a kind of decoration.
pub open spec fn color_of_kind(kind: DecorationKind, theme: DecorationTheme) -> RgbaColor {
    match kind {
        DecorationKind::Selection => theme.selection_background,
        DecorationKind::SearchMatch => theme.search_match_background,
        DecorationKind::SearchCurrent => theme.search_current_background,
    }
}

pub fn decoration_color(kind: DecorationKind, theme: DecorationTheme) -> (color: RgbaColor)
    ensures
        color == color_of_kind(kind, theme),
{
    match kind {
        DecorationKind::Selection => theme.selection_background,
        DecorationKind::SearchMatch => theme.search_match_background,
        DecorationKind::SearchCurrent => theme.search_current_background,
    }
}

/// Whether the decorations of a row differ.
pub open spec fn row_differs(
    previous: Seq<DecorationRange>,
    next: Seq<DecorationRange>,
    row: int,
) -> bool {
    ordering::having_key(previous, row) != ordering::having_key(next, row)
}

/// In an ascending sequence the items with one key stand together.
proof fn lemma_group(items: Seq<DecorationRange>, from: int, to: int, row: int)
    requires
        ordering::ascending(items),
        0 <= from <= to <= items.len(),
        forall|i: int| from <= i < to ==> (#[trigger] items[i]).key() == row,
        forall|i: int| 0 <= i < from ==> (#[trigger] items[i]).key() < row,
        forall|i: int| to <= i < items.len() ==> (#[trigger] items[i]).key() > row,
    ensures
        ordering::having_key(items, row) == items.subrange(from, to),
    decreases items.len(),
{
    if items.len() > 0 {
        let shorter = items.drop_last();
        let last = items.len() - 1;
        assert(items.last() == items[last]);
        if to == items.len() && from < to {
            lemma_group(shorter, from, to - 1, row);
            assert(shorter.subrange(from, to - 1).push(items.last()) == items.subrange(from, to));
        } else if to == items.len() {
            lemma_group(shorter, from - 1, to - 1, row);
            assert(shorter.subrange(from - 1, to - 1) == items.subrange(from, to));
        } else {
            lemma_group(shorter, from, to, row);
            assert(shorter.subrange(from, to) == items.subrange(from, to));
        }
    } else {
        assert(items == items.subrange(from, to));
    }
}

/// No decoration lies in a row that has no number.
proof fn lemma_no_such_row(items: Seq<DecorationRange>, row: int)
    requires
        row < 0 || row > usize::MAX,
    ensures
        ordering::having_key(items, row) == Seq::<DecorationRange>::empty(),
    decreases items.len(),
{
    if items.len() > 0 {
        lemma_no_such_row(items.drop_last(), row);
    }
}

proof fn lemma_last_of_group(items: Seq<DecorationRange>, row: int)
    requires
        ordering::ascending(items),
        ordering::having_key(items, row).len() > 0,
    ensures
        items.len() > 0,
        items.last().key() >= row,
    decreases items.len(),
{
    if items.last().key() != row {
        let shorter = items.drop_last();
        assert(ordering::ascending(shorter)) by {
            assert forall|i: int, j: int| 0 <= i <= j < shorter.len() implies shorter[i].key()
                <= shorter[j].key() by {
                assert(items[i].key() <= items[j].key());
            }
        }
        lemma_last_of_group(shorter, row);
        assert(items[shorter.len() - 1].key() <= items[items.len() - 1].key());
    }
}

/// Ascending sequences with the same groups are the same.
proof fn lemma_same_groups(left: Seq<DecorationRange>, right: Seq<DecorationRange>)
    requires
        ordering::ascending(left),
        ordering::ascending(right),
        forall|row: int| ordering::having_key(left, row) == ordering::having_key(right, row),
    ensures
        left == right,
    decreases left.len() + right.len(),
{
    if left.len() > 0 {
        lemma_last_of_group(right, left.last().key());
    }
    if right.len() > 0 {
        lemma_last_of_group(left, right.last().key());
    }
    if left.len() > 0 {
        let row = left.last().key();
        assert(right.last().key() == row);
        let one = left.drop_last();
        let other = right.drop_last();
        assert(ordering::having_key(left, row).last() == left.last());
        assert(ordering::having_key(right, row).last() == right.last());
        assert(ordering::ascending(one)) by {
            assert forall|i: int, j: int| 0 <= i <= j < one.len() implies one[i].key()
                <= one[j].key() by {
                assert(left[i].key() <= left[j].key());
            }
        }
        assert(ordering::ascending(other)) by {
            assert forall|i: int, j: int| 0 <= i <= j < other.len() implies other[i].key()
                <= other[j].key() by {
                assert(right[i].key() <= right[j].key());
            }
        }
        assert forall|key: int| ordering::having_key(one, key) == ordering::having_key(
            other,
            key,
        ) by {
            assert(ordering::having_key(left, key) == ordering::having_key(right, key));
            if key == row {
                assert(ordering::having_key(left, key).drop_last() =~= ordering::having_key(
                    one,
                    key,
                ));
                assert(ordering::having_key(right, key).drop_last() =~= ordering::having_key(
                    other,
                    key,
                ));
            }
        }
        lemma_same_groups(one, other);
        assert(one.push(left.last()) =~= left);
        assert(other.push(right.last()) =~= right);
    } else {
        assert(left =~= right);
    }
}

fn group_end(items: &Vec<DecorationRange>, from: usize, row: usize) -> (to: usize)
    requires
        from <= items@.len(),
    ensures
        from <= to <= items@.len(),
        forall|i: int| from <= i < to ==> (#[trigger] items@[i]).row == row,
        to < items@.len() ==> items@[to as int].row != row,
{
    let mut to: usize = from;
    while to < items.len() && items[to].row == row
        invariant
            from <= to <= items@.len(),
            forall|i: int| from <= i < to ==> (#[trigger] items@[i]).row == row,
        decreases items.len() - to,
    {
        to += 1;
    }
    to
}

fn groups_equal(
    left: &Vec<DecorationRange>,
    from: usize,
    to: usize,
    right: &Vec<DecorationRange>,
    start: usize,
    end: usize,
) -> (equal: bool)
    requires
        from <= to <= left@.len(),
        start <= end <= right@.len(),
    ensures
        equal == (left@.subrange(from as int, to as int) == right@.subrange(
            start as int,
            end as int,
        )),
{
    let ghost one = left@.subrange(from as int, to as int);
    let ghost other = right@.subrange(start as int, end as int);
    if to - from != end - start {
        assert(one.len() != other.len());
        return false;
    }
    let mut index: usize = 0;
    while index < to - from
        invariant
            from <= to <= left@.len(),
            start <= end <= right@.len(),
            to - from == end - start,
            index <= to - from,
            one == left@.subrange(from as int, to as int),
            other == right@.subrange(start as int, end as int),
            forall|i: int| 0 <= i < index ==> one[i] == other[i],
        decreases to - from - index,
    {
        if left[from + index] != right[start + index] {
            assert(one[index as int] != other[index as int]);
            return false;
        }
        assert(one[index as int] == other[index as int]);
        index += 1;
    }
    assert(one == other);
    true
}

/// The rows whose decorations differ, in ascending order and each once.
pub fn changed_rows(previous: &Vec<DecorationRange>, next: &Vec<DecorationRange>) -> (rows: Vec<
    usize,
>)
    requires
        ordering::ascending(previous@),
        ordering::ascending(next@),
    ensures
        forall|i: int, j: int| 0 <= i < j < rows@.len() ==> rows@[i] < rows@[j],
        forall|row: usize| #[trigger]
            rows@.contains(row) <==> row_differs(previous@, next@, row as int),
{
    let mut rows: Vec<usize> = Vec::new();
    let mut i: usize = 0;
    let mut j: usize = 0;
    proof {
        assert forall|row: usize|
            (forall|k: int| 0 <= k < previous@.len() ==> row < (#[trigger] previous@[k]).row) && (
            forall|k: int| 0 <= k < next@.len() ==> row < (#[trigger] next@[k]).row) implies (
        #[trigger] rows@.contains(row) <==> row_differs(previous@, next@, row as int)) by {
            lemma_group(previous@, 0, 0, row as int);
            lemma_group(next@, 0, 0, row as int);
            assert(previous@.subrange(0, 0) == next@.subrange(0, 0));
        }
    }
    while i < previous.len() || j < next.len()
        invariant
            i <= previous@.len(),
            j <= next@.len(),
            ordering::ascending(previous@),
            ordering::ascending(next@),
            forall|a: int, b: int| 0 <= a < b < rows@.len() ==> rows@[a] < rows@[b],
            forall|a: int, k: int|
                0 <= a < rows@.len() && i <= k < previous@.len() ==> #[trigger] rows@[a]
                    < (#[trigger] previous@[k]).row,
            forall|a: int, k: int|
                0 <= a < rows@.len() && j <= k < next@.len() ==> #[trigger] rows@[a] < (
                #[trigger] next@[k]).row,
            forall|a: int, k: int|
                0 <= a < i && i <= k < previous@.len() ==> (#[trigger] previous@[a]).row < (
                #[trigger] previous@[k]).row,
            forall|a: int, k: int|
                0 <= a < j && j <= k < next@.len() ==> (#[trigger] next@[a]).row < (
                #[trigger] next@[k]).row,
            forall|a: int, k: int|
                0 <= a < i && j <= k < next@.len() ==> (#[trigger] previous@[a]).row < (
                #[trigger] next@[k]).row,
            forall|a: int, k: int|
                0 <= a < j && i <= k < previous@.len() ==> (#[trigger] next@[a]).row < (
                #[trigger] previous@[k]).row,
            forall|row: usize|
                (forall|k: int| i <= k < previous@.len() ==> row < (#[trigger] previous@[k]).row)
                    && (forall|k: int| j <= k < next@.len() ==> row < (#[trigger] next@[k]).row)
                    ==> (#[trigger] rows@.contains(row) <==> row_differs(
                    previous@,
                    next@,
                    row as int,
                )),
        decreases previous.len() - i + (next.len() - j),
    {
        let row: usize = if i == previous.len() {
            next[j].row
        } else if j == next.len() {
            previous[i].row
        } else if next[j].row < previous[i].row {
            next[j].row
        } else {
            previous[i].row
        };
        let i_end = group_end(previous, i, row);
        let j_end = group_end(next, j, row);
        let ghost before = rows@;
        proof {
            assert forall|k: int| i_end <= k < previous@.len() implies (
            #[trigger] previous@[k]).key() > row by {
                assert(previous@[i_end as int].key() <= previous@[k].key());
                if i < previous@.len() {
                    assert(previous@[i as int].key() <= previous@[i_end as int].key());
                }
            }
            assert forall|k: int| j_end <= k < next@.len() implies (#[trigger] next@[k]).key()
                > row by {
                assert(next@[j_end as int].key() <= next@[k].key());
                if j < next@.len() {
                    assert(next@[j as int].key() <= next@[j_end as int].key());
                }
            }
            assert forall|k: int| 0 <= k < i implies (#[trigger] previous@[k]).key() < row by {
                if i < previous@.len() && previous@[i as int].row == row {
                } else {
                    assert(next@[j as int].row == row);
                }
            }
            assert forall|k: int| 0 <= k < j implies (#[trigger] next@[k]).key() < row by {
                if j < next@.len() && next@[j as int].row == row {
                } else {
                    assert(previous@[i as int].row == row);
                }
            }
            lemma_group(previous@, i as int, i_end as int, row as int);
            lemma_group(next@, j as int, j_end as int, row as int);
        }
        let equal = groups_equal(previous, i, i_end, next, j, j_end);
        if !equal {
            rows.push(row);
        }
        proof {
            assert forall|other: usize|
                (forall|k: int|
                    i_end <= k < previous@.len() ==> other < (#[trigger] previous@[k]).row) && (
                forall|k: int| j_end <= k < next@.len() ==> other < (#[trigger] next@[k]).row)
                implies (#[trigger] rows@.contains(other) <==> row_differs(
                previous@,
                next@,
                other as int,
            )) by {
                lemma_push_contains(before, row, other);
                if other == row {
                    assert(!before.contains(row)) by {
                        if before.contains(row) {
                            let a = choose|a: int| 0 <= a < before.len() && before[a] == row;
                            if i < previous@.len() && previous@[i as int].row == row {
                                assert(before[a] < previous@[i as int].row);
                            } else {
                                assert(before[a] < next@[j as int].row);
                            }
                        }
                    }
                } else if other < row {
                    assert forall|k: int| i <= k < previous@.len() implies other < (
                    #[trigger] previous@[k]).row by {
                        assert(previous@[i as int].key() <= previous@[k].key());
                    }
                    assert forall|k: int| j <= k < next@.len() implies other < (
                    #[trigger] next@[k]).row by {
                        assert(next@[j as int].key() <= next@[k].key());
                    }
                    assert(before.contains(other) <==> row_differs(
                        previous@,
                        next@,
                        other as int,
                    ));
                } else {
                    assert(!before.contains(other)) by {
                        if before.contains(other) {
                            let a = choose|a: int| 0 <= a < before.len() && before[a] == other;
                            if i < previous@.len() && previous@[i as int].row == row {
                                assert(before[a] < previous@[i as int].row);
                            } else {
                                assert(before[a] < next@[j as int].row);
                            }
                        }
                    }
                    lemma_group(previous@, i_end as int, i_end as int, other as int);
                    lemma_group(next@, j_end as int, j_end as int, other as int);
                    assert(previous@.subrange(i_end as int, i_end as int) == next@.subrange(
                        j_end as int,
                        j_end as int,
                    ));
                }
            }
        }
        i = i_end;
        j = j_end;
    }
    rows
}

proof fn lemma_push_contains(list: Seq<usize>, added: usize, value: usize)
    ensures
        list.push(added).contains(value) <==> list.contains(value) || value == added,
{
    let longer = list.push(added);
    if longer.contains(value) {
        let i = choose|i: int| 0 <= i < longer.len() && longer[i] == value;
        if i < list.len() {
            assert(list[i] == value);
        }
    }
    if list.contains(value) {
        let i = choose|i: int| 0 <= i < list.len() && list[i] == value;
        assert(longer[i] == value);
    }
    assert(longer[list.len() as int] == added);
}

/// The decorations that are on the screen, in the order of the rows.
pub struct DecorationLayer {
    ranges: Vec<DecorationRange>,
}

impl View for DecorationLayer {
    type V = Seq<DecorationRange>;

    closed spec fn view(&self) -> Seq<DecorationRange> {
        self.ranges@
    }
}

impl DecorationLayer {
    pub fn new() -> (layer: DecorationLayer)
        ensures
            layer@ == Seq::<DecorationRange>::empty(),
    {
        DecorationLayer { ranges: Vec::new() }
    }

    pub fn is_empty(&self) -> (empty: bool)
        ensures
            empty == (self@.len() == 0),
    {
        self.ranges.len() == 0
    }

    pub fn clear(&mut self)
        ensures
            final(self)@ == Seq::<DecorationRange>::empty(),
    {
        self.ranges = Vec::new();
    }

    /// The decorations of a row, as the range `start..end` of their indices.
    pub fn instance_range(&self, row: usize) -> (range: (usize, usize))
        requires
            ordering::ascending(self@),
        ensures
            range.0 <= range.1 <= self@.len(),
            forall|i: int| 0 <= i < range.0 ==> (#[trigger] self@[i]).row < row,
            forall|i: int| range.0 <= i < range.1 ==> (#[trigger] self@[i]).row == row,
            forall|i: int| range.1 <= i < self@.len() ==> (#[trigger] self@[i]).row > row,
    {
        let mut start: usize = 0;
        while start < self.ranges.len() && self.ranges[start].row < row
            invariant
                start <= self.ranges@.len(),
                forall|i: int| 0 <= i < start ==> (#[trigger] self.ranges@[i]).row < row,
            decreases self.ranges.len() - start,
        {
            start += 1;
        }
        let end = group_end(&self.ranges, start, row);
        proof {
            assert forall|i: int| end <= i < self.ranges@.len() implies (
            #[trigger] self.ranges@[i]).row > row by {
                assert(self.ranges@[end as int].key() <= self.ranges@[i].key());
                if start < self.ranges@.len() {
                    assert(self.ranges@[start as int].key() <= self.ranges@[end as int].key());
                }
            }
        }
        (start, end)
    }

    /// One of the decorations.
    pub fn range(&self, index: usize) -> (range: DecorationRange)
        requires
            index < self@.len(),
        ensures
            range == self@[index as int],
    {
        self.ranges[index]
    }

    /// Takes over the decorations of a frame; gives the rows to redraw.
    pub fn replace(&mut self, ranges: &Vec<DecorationRange>) -> (rows: Vec<usize>)
        requires
            ordering::ascending(old(self)@),
            ordering::ascending(ranges@),
        ensures
            forall|i: int, j: int| 0 <= i < j < rows@.len() ==> rows@[i] < rows@[j],
            forall|row: usize| #[trigger]
                rows@.contains(row) <==> row_differs(old(self)@, ranges@, row as int),
            final(self)@ == ranges@,
    {
        let rows = changed_rows(&self.ranges, ranges);
        if rows.len() == 0 {
            proof {
                assert forall|row: int| ordering::having_key(self.ranges@, row)
                    == ordering::having_key(ranges@, row) by {
                    if 0 <= row <= usize::MAX {
                        assert(!rows@.contains(row as usize));
                    } else {
                        lemma_no_such_row(self.ranges@, row);
                        lemma_no_such_row(ranges@, row);
                    }
                }
                lemma_same_groups(self.ranges@, ranges@);
            }
            return rows;
        }
        let mut copy: Vec<DecorationRange> = Vec::new();
        let mut index: usize = 0;
        while index < ranges.len()
            invariant
                index <= ranges@.len(),
                copy@ == ranges@.take(index as int),
            decreases ranges.len() - index,
        {
            copy.push(ranges[index]);
            assert(ranges@.take(index + 1) == ranges@.take(index as int).push(
                ranges@[index as int],
            ));
            index += 1;
        }
        assert(ranges@.take(index as int) == ranges@);
        self.ranges = copy;
        rows
    }
}

proof fn lemma_row_filter(items: Seq<DecorationRange>, row: int)
    ensures
        ordering::having_key(items, row) == items.filter(|range: DecorationRange| range.row == row),
    decreases items.len(),
{
    reveal(Seq::filter);
    if items.len() > 0 {
        lemma_row_filter(items.drop_last(), row);
    }
}

/// A row is drawn anew for its decorations if and only if the ranges that lie in it
/// are others than before: in their columns, in what they mark, in their number or
/// in their order. The ranges of other rows do not count.
pub proof fn rows_differ_where_their_ranges_do(
    previous: Seq<DecorationRange>,
    next: Seq<DecorationRange>,
    row: int,
)
    ensures
        row_differs(previous, next, row) <==> previous.filter(
            |range: DecorationRange| range.row == row,
        ) != next.filter(|range: DecorationRange| range.row == row),
{
    lemma_row_filter(previous, row);
    lemma_row_filter(next, row);
}

/// A range that is new in a list has its row drawn anew.
pub proof fn new_ranges_are_drawn(
    previous: Seq<DecorationRange>,
    next: Seq<DecorationRange>,
    range: DecorationRange,
)
    requires
        previous.contains(range) != next.contains(range),
    ensures
        row_differs(previous, next, range.row as int),
{
    let row = range.row as int;
    lemma_row_filter(previous, row);
    lemma_row_filter(next, row);
    let wanted = |item: DecorationRange| item.row == row;
    if !row_differs(previous, next, row) {
        if previous.contains(range) {
            let i = choose|i: int| 0 <= i < previous.len() && previous[i] == range;
            previous.lemma_filter_contains(wanted, i);
            let kept = next.filter(wanted);
            let j = choose|j: int| 0 <= j < kept.len() && kept[j] == range;
            next.lemma_filter_pred(wanted, j);
            next.lemma_filter_contains_rev(wanted, range);
        } else {
            let i = choose|i: int| 0 <= i < next.len() && next[i] == range;
            next.lemma_filter_contains(wanted, i);
            previous.lemma_filter_contains_rev(wanted, range);
        }
    }
}

/// Each kind of decoration has the colour that the theme gives it.
pub proof fn kinds_have_their_colors(kind: DecorationKind, theme: DecorationTheme)
    ensures
        kind is Selection ==> color_of_kind(kind, theme) == theme.selection_background,
        kind is SearchMatch ==> color_of_kind(kind, theme) == theme.search_match_background,
        kind is SearchCurrent ==> color_of_kind(kind, theme) == theme.search_current_background,
{
}

} // verus!
