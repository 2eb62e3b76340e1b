//! Frames that were merged before the renderer saw them.

use vstd::prelude::*;
use crate::renderer::grid;
use crate::renderer::grid::GridView;
use crate::terminal::frame::{FrameView, RowView};
use crate::terminal::worker;

verus! {

/// Whether two grids hold the same cells with the same paint.
pub open spec fn same_content(one: GridView, other: GridView) -> bool {
    &&& one.columns == other.columns
    &&& one.rows == other.rows
    &&& one.cells == other.cells
    &&& one.paint == other.paint
}

proof fn lemma_rows_one_after_another(view: GridView, first: Seq<RowView>, second: Seq<RowView>)
    ensures
        grid::with_rows(view, first + second) == grid::with_rows(
            grid::with_rows(view, first),
            second,
        ),
    decreases second.len(),
{
    if second.len() == 0 {
        assert(first + second =~= first);
    } else {
        assert((first + second).drop_last() =~= first + second.drop_last());
        assert((first + second).last() == second.last());
        lemma_rows_one_after_another(view, first, second.drop_last());
    }
}

proof fn lemma_rows_on_same_content(one: GridView, other: GridView, patches: Seq<RowView>)
    requires
        same_content(one, other),
    ensures
        same_content(grid::with_rows(one, patches), grid::with_rows(other, patches)),
    decreases patches.len(),
{
    if patches.len() > 0 {
        lemma_rows_on_same_content(one, other, patches.drop_last());
    }
}

proof fn lemma_rows_keep_the_rest(view: GridView, patches: Seq<RowView>)
    ensures
        ({
            let after = grid::with_rows(view, patches);
            &&& after.columns == view.columns
            &&& after.rows == view.rows
            &&& after.generation == view.generation
        }),
    decreases patches.len(),
{
    if patches.len() > 0 {
        lemma_rows_keep_the_rest(view, patches.drop_last());
    }
}

pub(crate) proof fn lemma_frame_content(view: GridView, patch: FrameView)
    ensures
        ({
            let ready = grid::ready_for(view, patch);
            let after = grid::with_frame(view, patch);
            &&& same_content(after, grid::with_rows(ready, patch.changed_rows))
            &&& after.columns == ready.columns
            &&& after.rows == ready.rows
            &&& after.generation == Some(patch.generation)
            &&& after.decorations == patch.decorations
            &&& after.cursor == patch.cursor
        }),
{
    lemma_rows_keep_the_rest(grid::ready_for(view, patch), patch.changed_rows);
}

/// A frame that waited in the mailbox and was merged with a later one shows what
/// the two would have shown one after the other: no patch hides another one.
pub proof fn merged_frames_draw_like_single_ones(
    view: GridView,
    pending: FrameView,
    incoming: FrameView,
)
    requires
        grid::acceptable(view, pending),
        !pending.metadata_only,
        !incoming.metadata_only,
        !worker::replaces(pending, incoming),
        !worker::overflows(pending, incoming),
    ensures
        ({
            let merged = worker::published(Some(pending), incoming).0;
            let between = grid::with_frame(view, pending);
            let once = grid::with_frame(view, merged);
            let twice = grid::with_frame(between, incoming);
            &&& grid::acceptable(view, merged)
            &&& grid::acceptable(between, incoming)
            &&& same_content(once, twice)
            &&& once.generation == twice.generation
            &&& once.decorations == twice.decorations
            &&& once.cursor == twice.cursor
        }),
{
    let merged = worker::published(Some(pending), incoming).0;
    let between = grid::with_frame(view, pending);
    let ready = grid::ready_for(view, pending);
    assert(merged.changed_rows == pending.changed_rows + incoming.changed_rows);
    if pending.full_redraw {
        assert forall|row: int| 0 <= row < merged.rows implies (
        #[trigger] merged.changed_rows[row]).row == row && merged.changed_rows[row].start_column
            == 0 && merged.changed_rows[row].end_column == merged.columns by {
            assert(merged.changed_rows[row] == pending.changed_rows[row]);
        }
    }
    assert(grid::ready_for(view, merged) == ready);
    lemma_frame_content(view, pending);
    lemma_frame_content(view, merged);
    lemma_frame_content(between, incoming);
    lemma_rows_one_after_another(ready, pending.changed_rows, incoming.changed_rows);
    lemma_rows_on_same_content(
        grid::with_rows(ready, pending.changed_rows),
        grid::ready_for(between, incoming),
        incoming.changed_rows,
    );
}

} // verus!
