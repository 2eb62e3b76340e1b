//! Figures about the frames that were drawn.

use vstd::prelude::*;
use crate::ordering;
use crate::ordering::Keyed;
use crate::terminal::frame::FullRedrawReason;

verus! {

/// How long figures are gathered before they are reported, in nanoseconds.
pub const REPORT_INTERVAL: u64 = 1_000_000_000;

/// A measured time.
#[derive(Clone, Copy, Debug, PartialEq, Eq, Structural)]
pub struct Sample {
    pub value: u64,
}

impl Keyed for Sample {
    open spec fn key(&self) -> int {
        self.value as int
    }

    fn sort_key(&self) -> u64 {
        self.value
    }
}

/// The place of a reason in the list of counters.
pub open spec fn place_of_reason(reason: FullRedrawReason) -> int {
    match reason {
        FullRedrawReason::TerminalDamage => 0,
        FullRedrawReason::RendererRequest => 1,
        FullRedrawReason::Resize => 2,
    }
}

pub fn reason_index(reason: FullRedrawReason) -> (index: usize)
    ensures
        index == place_of_reason(reason),
{
    match reason {
        FullRedrawReason::TerminalDamage => 0,
        FullRedrawReason::RendererRequest => 1,
        FullRedrawReason::Resize => 2,
    }
}

/// The mean time in microseconds, rounded down; of no times it is zero.
pub fn average_us(total_ns: u128, count: u64) -> (mean: u128)
    ensures
        mean == (total_ns as int / 1000) / (if count == 0 {
            1
        } else {
            count as int
        }),
{
    let micros: u128 = total_ns / 1000;
    if count == 0 {
        micros
    } else {
        micros / (count as u128)
    }
}

/// The samples of a list of times.
pub open spec fn as_samples(times: Seq<u64>) -> Seq<Sample> {
    times.map_values(|time: u64| Sample { value: time })
}

/// The rank, counted from one, of the given percentage of a number of samples:
/// the least rank that covers it.
pub open spec fn nearest_rank(count: int, percentage: int) -> int {
    let rank = (count * percentage + 99) / 100;
    if rank < 1 {
        1
    } else {
        rank
    }
}

/// The time that the given percentage of the samples does not exceed; zero
/// where there are none.
pub open spec fn percentile_of(times: Seq<u64>, percentage: int) -> u64 {
    if times.len() == 0 {
        0
    } else {
        ordering::sorted_by_key(as_samples(times))[nearest_rank(
            times.len() as int,
            percentage,
        ) - 1].value
    }
}

proof fn lemma_rank(count: int, percentage: int)
    requires
        count > 0,
        0 <= percentage <= 100,
    ensures
        1 <= nearest_rank(count, percentage) <= count,
{
    assert(count * percentage <= count * 100) by (nonlinear_arith)
        requires
            count > 0,
            0 <= percentage <= 100,
    ;
}

/// The percentile by the nearest rank.
pub fn percentile(times: &Vec<u64>, percentage: usize) -> (time: u64)
    requires
        percentage <= 100,
    ensures
        time == percentile_of(times@, percentage as int),
{
    if times.len() == 0 {
        return 0;
    }
    let mut samples: Vec<Sample> = Vec::new();
    let mut index: usize = 0;
    while index < times.len()
        invariant
            index <= times@.len(),
            samples@ == as_samples(times@).take(index as int),
        decreases times.len() - index,
    {
        samples.push(Sample { value: times[index] });
        assert(as_samples(times@).take(index + 1) == as_samples(times@).take(index as int).push(
            as_samples(times@)[index as int],
        ));
        index += 1;
    }
    assert(as_samples(times@).take(index as int) == as_samples(times@));
    proof {
        ordering::sort_is_stable(samples@);
        lemma_rank(times@.len() as int, percentage as int);
        assert(times@.len() * percentage <= times@.len() * 100) by (nonlinear_arith)
            requires
                percentage <= 100,
        ;
    }
    let sorted = ordering::sort_by_key(samples);
    let rank: u128 = ((times.len() as u128) * (percentage as u128) + 99) / 100;
    let place: usize = if rank < 1 {
        0
    } else {
        (rank - 1) as usize
    };
    sorted[place].value
}

/// A percentile is one of the samples, and a higher percentage never gives a
/// shorter time.
pub proof fn percentiles_ascend(times: Seq<u64>, low: int, high: int)
    requires
        times.len() > 0,
        0 <= low <= high <= 100,
    ensures
        times.contains(percentile_of(times, low)),
        percentile_of(times, low) <= percentile_of(times, high),
{
    let samples = as_samples(times);
    let sorted = ordering::sorted_by_key(samples);
    ordering::sort_is_stable(samples);
    ordering::sort_keeps_members(samples);
    lemma_rank(times.len() as int, low);
    lemma_rank(times.len() as int, high);
    assert(times.len() * low <= times.len() * high) by (nonlinear_arith)
        requires
            low <= high,
            times.len() > 0,
    ;
    let place = nearest_rank(times.len() as int, low) - 1;
    let other = nearest_rank(times.len() as int, high) - 1;
    assert(samples.contains(sorted[place]));
    let i = choose|i: int| 0 <= i < samples.len() && samples[i] == sorted[place];
    assert(times[i] == sorted[place].value);
    assert(sorted[place].key() <= sorted[other].key());
}

/// The figures of one interval.
#[derive(Debug)]
pub struct PerfStats {
    /// When the interval started, in nanoseconds.
    pub interval_started: Option<u64>,
    pub applied_frames: u64,
    pub rendered_frames: u64,
    pub patch_full_redraws: u64,
    pub terminal_damage_redraws: u64,
    pub renderer_request_redraws: u64,
    pub resize_redraws: u64,
    pub full_surface_renders: u64,
    pub input_dirty_rows: u64,
    pub rendered_dirty_rows: u64,
    pub processed_cells: u64,
    pub text_spans: u64,
    pub uploaded_bytes: u64,
    pub apply_time_ns: u128,
    pub render_time_ns: u128,
    pub apply_samples_us: Vec<u64>,
    pub render_samples_us: Vec<u64>,
}

/// What is reported of one interval.
#[derive(Clone, Copy, Debug, PartialEq, Eq, Structural)]
pub struct PerfReport {
    pub applied_frames: u64,
    pub rendered_frames: u64,
    pub patch_full_redraws: u64,
    pub full_surface_renders: u64,
    pub terminal_damage_redraws: u64,
    pub renderer_request_redraws: u64,
    pub resize_redraws: u64,
    pub input_dirty_rows: u64,
    pub rendered_dirty_rows: u64,
    pub processed_cells: u64,
    pub text_spans: u64,
    pub uploaded_bytes: u64,
    pub apply_average_us: u128,
    pub apply_p95_us: u64,
    pub apply_p99_us: u64,
    pub render_average_us: u128,
    pub render_p95_us: u64,
    pub render_p99_us: u64,
}

/// The report on the figures of an interval.
pub open spec fn is_report(stats: PerfStats, report: PerfReport) -> bool {
    &&& report.applied_frames == stats.applied_frames
    &&& report.rendered_frames == stats.rendered_frames
    &&& report.patch_full_redraws == stats.patch_full_redraws
    &&& report.full_surface_renders == stats.full_surface_renders
    &&& report.terminal_damage_redraws == stats.terminal_damage_redraws
    &&& report.renderer_request_redraws == stats.renderer_request_redraws
    &&& report.resize_redraws == stats.resize_redraws
    &&& report.input_dirty_rows == stats.input_dirty_rows
    &&& report.rendered_dirty_rows == stats.rendered_dirty_rows
    &&& report.processed_cells == stats.processed_cells
    &&& report.text_spans == stats.text_spans
    &&& report.uploaded_bytes == stats.uploaded_bytes
    &&& report.apply_average_us == (stats.apply_time_ns as int / 1000) / (if stats.applied_frames
        == 0 {
        1
    } else {
        stats.applied_frames as int
    })
    &&& report.apply_p95_us == percentile_of(stats.apply_samples_us@, 95)
    &&& report.apply_p99_us == percentile_of(stats.apply_samples_us@, 99)
    &&& report.render_average_us == (stats.render_time_ns as int / 1000) / (
    if stats.rendered_frames == 0 {
        1
    } else {
        stats.rendered_frames as int
    })
    &&& report.render_p95_us == percentile_of(stats.render_samples_us@, 95)
    &&& report.render_p99_us == percentile_of(stats.render_samples_us@, 99)
}

/// Whether no figure is counted yet.
pub open spec fn is_blank(stats: PerfStats) -> bool {
    &&& stats.applied_frames == 0
    &&& stats.rendered_frames == 0
    &&& stats.patch_full_redraws == 0
    &&& stats.terminal_damage_redraws == 0
    &&& stats.renderer_request_redraws == 0
    &&& stats.resize_redraws == 0
    &&& stats.full_surface_renders == 0
    &&& stats.input_dirty_rows == 0
    &&& stats.rendered_dirty_rows == 0
    &&& stats.processed_cells == 0
    &&& stats.text_spans == 0
    &&& stats.uploaded_bytes == 0
    &&& stats.apply_time_ns == 0
    &&& stats.render_time_ns == 0
    &&& stats.apply_samples_us@.len() == 0
    &&& stats.render_samples_us@.len() == 0
}

/// The start of the interval that a figure at a time belongs to.
pub open spec fn interval_of(stats: PerfStats, now: u64) -> Option<u64> {
    if stats.interval_started is Some {
        stats.interval_started
    } else {
        Some(now)
    }
}

/// One more, where a condition holds.
pub open spec fn counted(condition: bool) -> int {
    if condition {
        1
    } else {
        0
    }
}

impl PerfStats {
    pub fn new(started: Option<u64>) -> (stats: PerfStats)
        ensures
            stats.interval_started == started,
            is_blank(stats),
    {
        PerfStats {
            interval_started: started,
            applied_frames: 0,
            rendered_frames: 0,
            patch_full_redraws: 0,
            terminal_damage_redraws: 0,
            renderer_request_redraws: 0,
            resize_redraws: 0,
            full_surface_renders: 0,
            input_dirty_rows: 0,
            rendered_dirty_rows: 0,
            processed_cells: 0,
            text_spans: 0,
            uploaded_bytes: 0,
            apply_time_ns: 0,
            render_time_ns: 0,
            apply_samples_us: Vec::new(),
            render_samples_us: Vec::new(),
        }
    }

    /// Starts an interval, where none has started.
    pub fn start_interval(&mut self, now: u64)
        ensures
            *final(self) == (PerfStats {
                interval_started: interval_of(*old(self), now),
                ..*old(self)
            }),
    {
        if self.interval_started.is_none() {
            self.interval_started = Some(now);
        }
    }

    /// Counts a frame that was taken over. The counters must have room for it.
    pub fn record_apply(
        &mut self,
        full_redraw_reason: Option<FullRedrawReason>,
        dirty_rows: usize,
        cells: usize,
        text_spans: usize,
        bytes: usize,
        elapsed_ns: u64,
        now: u64,
    )
        requires
            old(self).applied_frames < u64::MAX,
            old(self).patch_full_redraws < u64::MAX,
            old(self).terminal_damage_redraws < u64::MAX,
            old(self).renderer_request_redraws < u64::MAX,
            old(self).resize_redraws < u64::MAX,
            old(self).input_dirty_rows + dirty_rows <= u64::MAX,
            old(self).processed_cells + cells <= u64::MAX,
            old(self).text_spans + text_spans <= u64::MAX,
            old(self).uploaded_bytes + bytes <= u64::MAX,
            old(self).apply_time_ns + elapsed_ns <= u128::MAX,
        ensures
            final(self).interval_started == interval_of(*old(self), now),
            final(self).applied_frames == old(self).applied_frames + 1,
            final(self).patch_full_redraws == old(self).patch_full_redraws + counted(
                full_redraw_reason is Some,
            ),
            final(self).terminal_damage_redraws == old(self).terminal_damage_redraws + counted(
                full_redraw_reason == Some(FullRedrawReason::TerminalDamage),
            ),
            final(self).renderer_request_redraws == old(self).renderer_request_redraws + counted(
                full_redraw_reason == Some(FullRedrawReason::RendererRequest),
            ),
            final(self).resize_redraws == old(self).resize_redraws + counted(
                full_redraw_reason == Some(FullRedrawReason::Resize),
            ),
            final(self).input_dirty_rows == old(self).input_dirty_rows + dirty_rows,
            final(self).processed_cells == old(self).processed_cells + cells,
            final(self).text_spans == old(self).text_spans + text_spans,
            final(self).uploaded_bytes == old(self).uploaded_bytes + bytes,
            final(self).apply_time_ns == old(self).apply_time_ns + elapsed_ns,
            final(self).apply_samples_us@ == old(self).apply_samples_us@.push(elapsed_ns / 1000),
            final(self).rendered_frames == old(self).rendered_frames,
            final(self).full_surface_renders == old(self).full_surface_renders,
            final(self).rendered_dirty_rows == old(self).rendered_dirty_rows,
            final(self).render_time_ns == old(self).render_time_ns,
            final(self).render_samples_us@ == old(self).render_samples_us@,
    {
        self.start_interval(now);
        self.applied_frames += 1;
        if let Some(reason) = full_redraw_reason {
            self.patch_full_redraws += 1;
            match reason {
                FullRedrawReason::TerminalDamage => {
                    self.terminal_damage_redraws += 1;
                },
                FullRedrawReason::RendererRequest => {
                    self.renderer_request_redraws += 1;
                },
                FullRedrawReason::Resize => {
                    self.resize_redraws += 1;
                },
            }
        }
        self.input_dirty_rows += dirty_rows as u64;
        self.processed_cells += cells as u64;
        self.text_spans += text_spans as u64;
        self.uploaded_bytes += bytes as u64;
        self.apply_time_ns += elapsed_ns as u128;
        self.apply_samples_us.push(elapsed_ns / 1000);
    }

    /// Counts a frame that was drawn; gives a report where one is due. The
    /// counters must have room for it.
    pub fn record_render(
        &mut self,
        full_surface: bool,
        dirty_rows: usize,
        elapsed_ns: u64,
        now: u64,
    ) -> (report: Option<PerfReport>)
        requires
            old(self).rendered_frames < u64::MAX,
            old(self).full_surface_renders < u64::MAX,
            old(self).rendered_dirty_rows + dirty_rows <= u64::MAX,
            old(self).render_time_ns + elapsed_ns <= u128::MAX,
        ensures
            report is Some <==> now - interval_of(*old(self), now)->0 >= REPORT_INTERVAL,
            report is None ==> {
                &&& final(self).interval_started == interval_of(*old(self), now)
                &&& final(self).rendered_frames == old(self).rendered_frames + 1
                &&& final(self).full_surface_renders == old(self).full_surface_renders + counted(
                    full_surface,
                )
                &&& final(self).rendered_dirty_rows == old(self).rendered_dirty_rows + dirty_rows
                &&& final(self).render_time_ns == old(self).render_time_ns + elapsed_ns
                &&& final(self).render_samples_us@ == old(self).render_samples_us@.push(
                    elapsed_ns / 1000,
                )
                &&& final(self).applied_frames == old(self).applied_frames
                &&& final(self).patch_full_redraws == old(self).patch_full_redraws
                &&& final(self).terminal_damage_redraws == old(self).terminal_damage_redraws
                &&& final(self).renderer_request_redraws == old(self).renderer_request_redraws
                &&& final(self).resize_redraws == old(self).resize_redraws
                &&& final(self).input_dirty_rows == old(self).input_dirty_rows
                &&& final(self).processed_cells == old(self).processed_cells
                &&& final(self).text_spans == old(self).text_spans
                &&& final(self).uploaded_bytes == old(self).uploaded_bytes
                &&& final(self).apply_time_ns == old(self).apply_time_ns
                &&& final(self).apply_samples_us@ == old(self).apply_samples_us@
            },
            report matches Some(report) ==> {
                &&& final(self).interval_started == Some(now)
                &&& is_blank(*final(self))
                &&& report.rendered_frames == old(self).rendered_frames + 1
                &&& report.applied_frames == old(self).applied_frames
                &&& report.full_surface_renders == old(self).full_surface_renders + counted(
                    full_surface,
                )
                &&& report.patch_full_redraws == old(self).patch_full_redraws
                &&& report.terminal_damage_redraws == old(self).terminal_damage_redraws
                &&& report.renderer_request_redraws == old(self).renderer_request_redraws
                &&& report.resize_redraws == old(self).resize_redraws
                &&& report.input_dirty_rows == old(self).input_dirty_rows
                &&& report.rendered_dirty_rows == old(self).rendered_dirty_rows + dirty_rows
                &&& report.processed_cells == old(self).processed_cells
                &&& report.text_spans == old(self).text_spans
                &&& report.uploaded_bytes == old(self).uploaded_bytes
                &&& report.apply_p95_us == percentile_of(old(self).apply_samples_us@, 95)
                &&& report.apply_p99_us == percentile_of(old(self).apply_samples_us@, 99)
                &&& report.render_p95_us == percentile_of(
                    old(self).render_samples_us@.push(elapsed_ns / 1000),
                    95,
                )
                &&& report.render_p99_us == percentile_of(
                    old(self).render_samples_us@.push(elapsed_ns / 1000),
                    99,
                )
                &&& report.apply_average_us == (old(self).apply_time_ns as int / 1000) / (if old(self).applied_frames == 0 {
                    1
                } else {
                    old(self).applied_frames as int
                })
                &&& report.render_average_us == ((old(self).render_time_ns + elapsed_ns) / 1000) / (
                old(self).rendered_frames + 1)
            },
    {
        self.start_interval(now);
        self.rendered_frames += 1;
        if full_surface {
            self.full_surface_renders += 1;
        }
        self.rendered_dirty_rows += dirty_rows as u64;
        self.render_time_ns += elapsed_ns as u128;
        self.render_samples_us.push(elapsed_ns / 1000);
        self.take_due_report(now)
    }

    /// The report, once the interval is over; a new interval starts with it.
    fn take_due_report(&mut self, now: u64) -> (report: Option<PerfReport>)
        ensures
            report is Some <==> old(self).interval_started is Some && now - old(self).interval_started->0 >= REPORT_INTERVAL,
            report is None ==> *final(self) == *old(self),
            report matches Some(report) ==> is_report(*old(self), report) && final(self).interval_started == Some(now) && is_blank(*final(self)),
    {
        let started = match self.interval_started {
            Some(started) => started,
            None => {
                return None;
            },
        };
        if now < started || now - started < REPORT_INTERVAL {
            return None;
        }
        let report = PerfReport {
            applied_frames: self.applied_frames,
            rendered_frames: self.rendered_frames,
            patch_full_redraws: self.patch_full_redraws,
            full_surface_renders: self.full_surface_renders,
            terminal_damage_redraws: self.terminal_damage_redraws,
            renderer_request_redraws: self.renderer_request_redraws,
            resize_redraws: self.resize_redraws,
            input_dirty_rows: self.input_dirty_rows,
            rendered_dirty_rows: self.rendered_dirty_rows,
            processed_cells: self.processed_cells,
            text_spans: self.text_spans,
            uploaded_bytes: self.uploaded_bytes,
            apply_average_us: average_us(self.apply_time_ns, self.applied_frames),
            apply_p95_us: percentile(&self.apply_samples_us, 95),
            apply_p99_us: percentile(&self.apply_samples_us, 99),
            render_average_us: average_us(self.render_time_ns, self.rendered_frames),
            render_p95_us: percentile(&self.render_samples_us, 95),
            render_p99_us: percentile(&self.render_samples_us, 99),
        };
        *self = PerfStats::new(Some(now));
        Some(report)
    }
}

/// A percentile is found by its rank among the samples in ascending order: the rank
/// covers the percentage, and the rank below it does not.
pub proof fn percentiles_cover_their_share(times: Seq<u64>, percentage: int)
    requires
        times.len() > 0,
        0 < percentage <= 100,
    ensures
        exists|sorted: Seq<u64>, rank: int|
            #![trigger sorted[rank - 1]]
            sorted.to_multiset() == times.to_multiset() && (forall|i: int, j: int|
                0 <= i <= j < sorted.len() ==> sorted[i] <= sorted[j]) && 1 <= rank
                <= sorted.len() && 100 * rank >= times.len() * percentage && 100 * (rank - 1)
                < times.len() * percentage && sorted[rank - 1] == percentile_of(times, percentage),
        percentile_of(Seq::empty(), percentage) == 0,
{
    broadcast use vstd::seq_lib::group_to_multiset_ensures;

    let samples = as_samples(times);
    let ordered = ordering::sorted_by_key(samples);
    ordering::sort_is_stable(samples);
    lemma_rank(times.len() as int, percentage);
    let sorted = ordered.map_values(|sample: Sample| sample.value);
    let rank = nearest_rank(times.len() as int, percentage);
    let product = times.len() * percentage;
    assert(product > 0) by (nonlinear_arith)
        requires
            times.len() > 0,
            percentage > 0,
            product == times.len() * percentage,
    ;
    assert(rank == (product + 99) / 100);
    assert forall|i: int, j: int| 0 <= i <= j < sorted.len() implies sorted[i] <= sorted[j] by {
        assert(ordered[i].key() <= ordered[j].key());
    }
    assert(samples.map_values(|sample: Sample| sample.value) =~= times);
    lemma_values_keep_their_number(ordered, samples);
    assert(sorted[rank - 1] == percentile_of(times, percentage));
}

proof fn lemma_values_keep_their_number(left: Seq<Sample>, right: Seq<Sample>)
    requires
        left.to_multiset() == right.to_multiset(),
    ensures
        left.map_values(|sample: Sample| sample.value).to_multiset() == right.map_values(
            |sample: Sample| sample.value,
        ).to_multiset(),
{
    let values = |sample: Sample| sample.value;
    assert forall|value: u64|
        left.map_values(values).to_multiset().count(value) == right.map_values(
            values,
        ).to_multiset().count(value) by {
        lemma_value_count(left, value);
        lemma_value_count(right, value);
    }
    assert(left.map_values(values).to_multiset() =~= right.map_values(values).to_multiset());
}

proof fn lemma_value_count(samples: Seq<Sample>, value: u64)
    ensures
        samples.map_values(|sample: Sample| sample.value).to_multiset().count(value)
            == samples.to_multiset().count(Sample { value }),
    decreases samples.len(),
{
    broadcast use vstd::seq_lib::group_to_multiset_ensures;

    let values = |sample: Sample| sample.value;
    if samples.len() == 0 {
        assert(samples.map_values(values).len() == 0);
        samples.to_multiset_ensures();
        samples.map_values(values).to_multiset_ensures();
        assert(samples.map_values(values) =~= Seq::<u64>::empty());
        assert(samples =~= Seq::<Sample>::empty());
        assert(!samples.contains(Sample { value }));
        assert(!samples.map_values(values).contains(value));
    } else {
        let shorter = samples.drop_last();
        lemma_value_count(shorter, value);
        assert(samples =~= shorter.push(samples.last()));
        assert(samples.map_values(values) =~= shorter.map_values(values).push(
            samples.last().value,
        ));
        assert(samples.to_multiset() =~= shorter.to_multiset().insert(samples.last()));
        assert(samples.map_values(values).to_multiset() =~= shorter.map_values(
            values,
        ).to_multiset().insert(samples.last().value));
    }
}

/// Each reason for a redraw has a counter of its own.
pub proof fn reasons_are_counted_apart(reason: FullRedrawReason)
    ensures
        place_of_reason(reason) == 0 <==> reason is TerminalDamage,
        place_of_reason(reason) == 1 <==> reason is RendererRequest,
        place_of_reason(reason) == 2 <==> reason is Resize,
{
}

/// A report gives the figures of its interval, and of the times the percentiles 95
/// and 99.
pub proof fn reports_give_the_figures(stats: PerfStats, report: PerfReport)
    requires
        is_report(stats, report),
    ensures
        report.applied_frames == stats.applied_frames,
        report.rendered_frames == stats.rendered_frames,
        report.full_surface_renders == stats.full_surface_renders,
        report.patch_full_redraws == stats.patch_full_redraws,
        report.input_dirty_rows == stats.input_dirty_rows,
        report.rendered_dirty_rows == stats.rendered_dirty_rows,
        report.processed_cells == stats.processed_cells,
        report.text_spans == stats.text_spans,
        report.uploaded_bytes == stats.uploaded_bytes,
        report.apply_p95_us == percentile_of(stats.apply_samples_us@, 95),
        report.apply_p99_us == percentile_of(stats.apply_samples_us@, 99),
        report.render_p95_us == percentile_of(stats.render_samples_us@, 95),
        report.render_p99_us == percentile_of(stats.render_samples_us@, 99),
{
}

} // verus!
