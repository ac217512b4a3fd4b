//! What recording a whole data section yields, stated independently of the
//! step-by-step recorder and proved against it: which main frames are kept,
//! which time stamps slow and GPS frames get, and the row-major layout of
//! every stream.

use vstd::prelude::*;

use crate::samples::{
    append_row, effective_stride, empty_series, flag_at, fresh_recorder, replay, step, widen_row,
    widen_sample, FrameEventView, RecorderView, SeriesView,
};

verus! {

/// A row of raw samples with the time stamp it is recorded under.
pub type StampedRow = (u64, Seq<Option<u32>>);

/// The main frames among `events`, in order, each with its own time stamp.
pub open spec fn main_rows(events: Seq<FrameEventView>) -> Seq<StampedRow>
    decreases events.len(),
{
    if events.len() == 0 {
        Seq::empty()
    } else {
        let rest = main_rows(events.drop_last());
        match events.last() {
            FrameEventView::Main { time, values } => rest.push((time, values)),
            _ => rest,
        }
    }
}

/// The time stamp of the last main frame among `events`; 0 if there is none.
pub open spec fn latest_main_time(events: Seq<FrameEventView>) -> u64
    decreases events.len(),
{
    if events.len() == 0 {
        0
    } else {
        match events.last() {
            FrameEventView::Main { time, .. } => time,
            _ => latest_main_time(events.drop_last()),
        }
    }
}

/// The slow frames among `events`, in order, each stamped with the time of
/// the latest main frame before it (0 if there is none).
pub open spec fn slow_rows(events: Seq<FrameEventView>) -> Seq<StampedRow>
    decreases events.len(),
{
    if events.len() == 0 {
        Seq::empty()
    } else {
        let rest = slow_rows(events.drop_last());
        match events.last() {
            FrameEventView::Slow { values } => rest.push(
                (latest_main_time(events.drop_last()), values),
            ),
            _ => rest,
        }
    }
}

/// The GPS frames among `events`, in order, each stamped with the time of
/// the latest main frame before it (0 if there is none).
pub open spec fn gps_rows(events: Seq<FrameEventView>) -> Seq<StampedRow>
    decreases events.len(),
{
    if events.len() == 0 {
        Seq::empty()
    } else {
        let rest = gps_rows(events.drop_last());
        match events.last() {
            FrameEventView::Gps { values } => rest.push(
                (latest_main_time(events.drop_last()), values),
            ),
            _ => rest,
        }
    }
}

/// The rows kept out of `rows` by taking every `stride`-th one, starting
/// with the first: `count` of them.
pub open spec fn every_nth(rows: Seq<StampedRow>, stride: nat, count: nat) -> Seq<StampedRow> {
    Seq::new(count, |j: int| rows[j * stride])
}

/// Sample `col` of row `row` in a row-major buffer with `cols` columns.
pub open spec fn cell(values: Seq<Option<i64>>, cols: nat, row: int, col: int) -> Option<i64> {
    values[row * cols + col]
}

/// `series` holds exactly `rows`: their time stamps in order, and their
/// samples read with the signedness `flags`, row-major with `cols` columns.
pub open spec fn laid_out(
    series: SeriesView,
    rows: Seq<StampedRow>,
    flags: Seq<bool>,
    cols: nat,
) -> bool {
    &&& series.times.len() == rows.len()
    &&& series.values.len() == rows.len() * cols
    &&& forall|i: int| 0 <= i < rows.len() ==> series.times[i] == #[trigger] rows[i].0
    &&& forall|i: int, c: int|
        0 <= i < rows.len() && 0 <= c < cols ==> #[trigger] cell(series.values, cols, i, c)
            == widen_sample(rows[i].1[c], flag_at(flags, c))
}

/// Every row of `rows` has `cols` samples.
pub open spec fn rows_have(rows: Seq<StampedRow>, cols: nat) -> bool {
    forall|i: int| 0 <= i < rows.len() ==> (#[trigger] rows[i]).1.len() == cols
}

/// The number `count` of kept rows out of `seen`: the `j`-th row is kept
/// exactly when `j * stride < seen`.
pub open spec fn kept_count(count: nat, stride: nat, seen: nat) -> bool {
    count * stride >= seen && (count == 0 || (count - 1) * stride < seen)
}

proof fn lemma_append_laid_out(
    series: SeriesView,
    rows: Seq<StampedRow>,
    flags: Seq<bool>,
    cols: nat,
    time: u64,
    row: Seq<Option<u32>>,
)
    requires
        laid_out(series, rows, flags, cols),
        row.len() == cols,
    ensures
        laid_out(append_row(series, time, row, flags), rows.push((time, row)), flags, cols),
{
    let next = append_row(series, time, row, flags);
    let all = rows.push((time, row));
    let n = rows.len();
    assert((n + 1) * cols == n * cols + cols) by (nonlinear_arith);
    assert forall|i: int| 0 <= i < all.len() implies next.times[i] == #[trigger] all[i].0 by {
        if i < n {
            assert(all[i] == rows[i]);
        }
    }
    assert forall|i: int, c: int| 0 <= i < all.len() && 0 <= c < cols implies #[trigger] cell(
        next.values,
        cols,
        i,
        c,
    ) == widen_sample(all[i].1[c], flag_at(flags, c)) by {
        if i < n {
            assert(i * cols + c < n * cols) by (nonlinear_arith)
                requires
                    0 <= i < n,
                    0 <= c < cols,
            ;
            assert(0 <= i * cols) by (nonlinear_arith)
                requires
                    0 <= i,
            ;
            assert(all[i] == rows[i]);
            assert(cell(series.values, cols, i, c) == widen_sample(rows[i].1[c], flag_at(flags, c)));
        } else {
            assert(i * cols == n * cols);
            assert(next.values[n * cols + c] == widen_row(row, flags)[c]);
        }
    }
}

proof fn lemma_kept_on_boundary(count: nat, stride: nat, seen: nat)
    requires
        stride >= 1,
        kept_count(count, stride, seen),
        seen % stride == 0,
    ensures
        count * stride == seen,
        kept_count(count + 1, stride, seen + 1),
{
    let q = seen / stride;
    assert(seen == q * stride) by (nonlinear_arith)
        requires
            stride >= 1,
            seen % stride == 0,
            q == seen / stride,
    ;
    if count * stride > seen {
        assert(count > q) by (nonlinear_arith)
            requires
                count * stride > q * stride,
                stride >= 1,
        ;
        assert((count - 1) * stride >= q * stride) by (nonlinear_arith)
            requires
                count - 1 >= q,
                stride >= 1,
        ;
    }
    assert((count + 1) * stride == count * stride + stride) by (nonlinear_arith);
}

proof fn lemma_kept_off_boundary(count: nat, stride: nat, seen: nat)
    requires
        stride >= 1,
        kept_count(count, stride, seen),
        seen % stride != 0,
    ensures
        kept_count(count, stride, seen + 1),
{
    vstd::arithmetic::div_mod::lemma_mod_multiples_basic(count as int, stride as int);
    assert(count * stride != seen);
}

proof fn lemma_kept_rows_prefix(rows: Seq<StampedRow>, row: StampedRow, stride: nat, count: nat)
    requires
        stride >= 1,
        count == 0 || (count - 1) * stride < rows.len(),
    ensures
        every_nth(rows.push(row), stride, count) == every_nth(rows, stride, count),
{
    assert forall|j: int| 0 <= j < count implies #[trigger] (j * stride) < rows.len() by {
        assert(j * stride <= (count - 1) * stride) by (nonlinear_arith)
            requires
                0 <= j <= count - 1,
                stride >= 1,
        ;
    }
    assert(every_nth(rows.push(row), stride, count) =~= every_nth(rows, stride, count));
}

/// What holds of a recorder after recording `events` from a fresh start.
spec fn replay_shape(
    r: RecorderView,
    start: RecorderView,
    events: Seq<FrameEventView>,
    main_cols: nat,
    slow_cols: nat,
    gps_cols: nat,
) -> bool {
    &&& r.stride == start.stride
    &&& r.keep_gps == start.keep_gps
    &&& r.main_signed == start.main_signed
    &&& r.slow_signed == start.slow_signed
    &&& r.gps_signed == start.gps_signed
    &&& r.main_seen == main_rows(events).len()
    &&& r.last_time == latest_main_time(events)
    &&& kept_count(r.main.times.len(), r.stride, r.main_seen)
    &&& r.main.times =~= every_nth(main_rows(events), r.stride, r.main.times.len()).map_values(
        |row: StampedRow| row.0,
    )
    &&& r.slow.times =~= slow_rows(events).map_values(|row: StampedRow| row.0)
    &&& (r.keep_gps ==> r.gps.times =~= gps_rows(events).map_values(|row: StampedRow| row.0))
    &&& (!r.keep_gps ==> r.gps == empty_series())
    &&& rows_have(main_rows(events), main_cols) ==> laid_out(
        r.main,
        every_nth(main_rows(events), r.stride, r.main.times.len()),
        r.main_signed,
        main_cols,
    )
    &&& rows_have(slow_rows(events), slow_cols) ==> laid_out(
        r.slow,
        slow_rows(events),
        r.slow_signed,
        slow_cols,
    )
    &&& (r.keep_gps && rows_have(gps_rows(events), gps_cols)) ==> laid_out(
        r.gps,
        gps_rows(events),
        r.gps_signed,
        gps_cols,
    )
}

proof fn lemma_replay_shape(
    start: RecorderView,
    events: Seq<FrameEventView>,
    main_cols: nat,
    slow_cols: nat,
    gps_cols: nat,
)
    requires
        start.stride >= 1,
        start.main_seen == 0,
        start.last_time == 0,
        start.main == empty_series(),
        start.slow == empty_series(),
        start.gps == empty_series(),
    ensures
        replay_shape(replay(start, events), start, events, main_cols, slow_cols, gps_cols),
    decreases events.len(),
{
    let r = replay(start, events);
    if events.len() == 0 {
        assert(every_nth(main_rows(events), r.stride, 0) =~= Seq::<StampedRow>::empty());
        assert(r.main.times =~= every_nth(main_rows(events), r.stride, 0).map_values(
            |row: StampedRow| row.0,
        ));
        assert(r.slow.times =~= slow_rows(events).map_values(|row: StampedRow| row.0));
        assert(r.gps.times =~= gps_rows(events).map_values(|row: StampedRow| row.0));
        assert(0 * main_cols == 0 && 0 * slow_cols == 0 && 0 * gps_cols == 0) by (nonlinear_arith);
    } else {
        let before = events.drop_last();
        let last = events.last();
        let p = replay(start, before);
        lemma_replay_shape(start, before, main_cols, slow_cols, gps_cols);
        assert(r == step(p, last));
        let main_fit = rows_have(main_rows(events), main_cols);
        let slow_fit = rows_have(slow_rows(events), slow_cols);
        let gps_fit = rows_have(gps_rows(events), gps_cols);
        if main_fit {
            assert forall|i: int| 0 <= i < main_rows(before).len() implies (
            #[trigger] main_rows(before)[i]).1.len() == main_cols by {
                assert(main_rows(events)[i] == main_rows(before)[i]);
            }
        }
        if slow_fit {
            assert forall|i: int| 0 <= i < slow_rows(before).len() implies (
            #[trigger] slow_rows(before)[i]).1.len() == slow_cols by {
                assert(slow_rows(events)[i] == slow_rows(before)[i]);
            }
        }
        if gps_fit {
            assert forall|i: int| 0 <= i < gps_rows(before).len() implies (
            #[trigger] gps_rows(before)[i]).1.len() == gps_cols by {
                assert(gps_rows(events)[i] == gps_rows(before)[i]);
            }
        }
        let k = p.stride;
        let seen = p.main_seen;
        let count = p.main.times.len();
        match last {
            FrameEventView::Main { time, values } => {
                let rows = main_rows(before);
                assert(main_rows(events) == rows.push((time, values)));
                if seen % k == 0 {
                    lemma_kept_on_boundary(count, k, seen);
                    lemma_kept_rows_prefix(rows, (time, values), k, count);
                    assert(every_nth(rows.push((time, values)), k, count + 1) =~= every_nth(
                        rows,
                        k,
                        count,
                    ).push((time, values)));
                    if main_fit {
                        assert(main_rows(events)[rows.len() as int] == (time, values));
                        lemma_append_laid_out(
                            p.main,
                            every_nth(rows, k, count),
                            p.main_signed,
                            main_cols,
                            time,
                            values,
                        );
                    }
                } else {
                    lemma_kept_off_boundary(count, k, seen);
                    lemma_kept_rows_prefix(rows, (time, values), k, count);
                }
            },
            FrameEventView::Slow { values } => {
                assert(slow_rows(events) == slow_rows(before).push((p.last_time, values)));
                if slow_fit {
                    assert(slow_rows(events)[slow_rows(before).len() as int] == (
                        p.last_time,
                        values,
                    ));
                    lemma_append_laid_out(
                        p.slow,
                        slow_rows(before),
                        p.slow_signed,
                        slow_cols,
                        p.last_time,
                        values,
                    );
                }
            },
            FrameEventView::Gps { values } => {
                assert(gps_rows(events) == gps_rows(before).push((p.last_time, values)));
                if gps_fit && p.keep_gps {
                    assert(gps_rows(events)[gps_rows(before).len() as int] == (
                        p.last_time,
                        values,
                    ));
                    lemma_append_laid_out(
                        p.gps,
                        gps_rows(before),
                        p.gps_signed,
                        gps_cols,
                        p.last_time,
                        values,
                    );
                }
            },
            FrameEventView::Other => {},
        }
    }
}

/// Down-sampling of main frames. With `k` the effective stride (1 for a
/// requested stride of 0), recording `events` from a fresh recorder keeps
/// the `j`-th row exactly when `j * k` is below the number of main frames
/// (`kept_count`); the `j`-th kept row is the `(j * k)`-th main frame, with
/// its own time stamp; a stride of 0 or 1 keeps every main frame; and when
/// every main frame has `main_cols` samples, the kept rows are laid out
/// row-major: sample `c` of kept row `j` is at `j * main_cols + c`.
pub proof fn law_main_downsampling(
    main_stride: u32,
    main_signed: Seq<bool>,
    slow_signed: Seq<bool>,
    gps_signed: Seq<bool>,
    keep_gps: bool,
    events: Seq<FrameEventView>,
    main_cols: nat,
)
    ensures
        ({
            let r = replay(
                fresh_recorder(main_stride, main_signed, slow_signed, gps_signed, keep_gps),
                events,
            );
            let k = effective_stride(main_stride);
            let rows = main_rows(events);
            &&& kept_count(r.main.times.len(), k, rows.len())
            &&& forall|j: int|
                0 <= j < r.main.times.len() ==> #[trigger] r.main.times[j] == rows[j * k].0
            &&& main_stride <= 1 ==> r.main.times.len() == rows.len()
            &&& rows_have(rows, main_cols) ==> laid_out(
                r.main,
                every_nth(rows, k, r.main.times.len()),
                main_signed,
                main_cols,
            )
        }),
{
    let start = fresh_recorder(main_stride, main_signed, slow_signed, gps_signed, keep_gps);
    lemma_replay_shape(start, events, main_cols, 0, 0);
    let r = replay(start, events);
    let k = effective_stride(main_stride);
    let rows = main_rows(events);
    assert forall|j: int| 0 <= j < r.main.times.len() implies #[trigger] r.main.times[j]
        == rows[j * k].0 by {
        assert(r.main.times[j] == every_nth(rows, k, r.main.times.len())[j].0);
    }
    if main_stride <= 1 {
        let n = r.main.times.len();
        assert(k == 1);
        assert(n * 1 == n && (n - 1) * 1 == n - 1) by (nonlinear_arith);
    }
}

/// Time stamps of slow and GPS frames. Recording `events` from a fresh
/// recorder keeps every slow frame, stamped with the time of the latest main
/// frame before it (0 if there is none), whether or not that main frame was
/// kept; GPS frames likewise when GPS frames are kept, and none otherwise.
/// When every slow (GPS) frame has `slow_cols` (`gps_cols`) samples, the
/// rows are laid out row-major.
pub proof fn law_slow_and_gps_stamps(
    main_stride: u32,
    main_signed: Seq<bool>,
    slow_signed: Seq<bool>,
    gps_signed: Seq<bool>,
    keep_gps: bool,
    events: Seq<FrameEventView>,
    slow_cols: nat,
    gps_cols: nat,
)
    ensures
        ({
            let r = replay(
                fresh_recorder(main_stride, main_signed, slow_signed, gps_signed, keep_gps),
                events,
            );
            &&& r.slow.times == slow_rows(events).map_values(|row: StampedRow| row.0)
            &&& keep_gps ==> r.gps.times == gps_rows(events).map_values(|row: StampedRow| row.0)
            &&& !keep_gps ==> r.gps == empty_series()
            &&& rows_have(slow_rows(events), slow_cols) ==> laid_out(
                r.slow,
                slow_rows(events),
                slow_signed,
                slow_cols,
            )
            &&& (keep_gps && rows_have(gps_rows(events), gps_cols)) ==> laid_out(
                r.gps,
                gps_rows(events),
                gps_signed,
                gps_cols,
            )
        }),
{
    let start = fresh_recorder(main_stride, main_signed, slow_signed, gps_signed, keep_gps);
    lemma_replay_shape(start, events, 0, slow_cols, gps_cols);
}

/// The items of `events` that are frames, in order: logged events left out.
pub open spec fn frames_only(events: Seq<FrameEventView>) -> Seq<FrameEventView>
    decreases events.len(),
{
    if events.len() == 0 {
        Seq::empty()
    } else {
        let rest = frames_only(events.drop_first());
        match events[0] {
            FrameEventView::Other => rest,
            _ => seq![events[0]] + rest,
        }
    }
}

/// Recording a non-empty sequence is recording its first item, then the rest.
proof fn lemma_replay_first(start: RecorderView, events: Seq<FrameEventView>)
    requires
        events.len() > 0,
    ensures
        replay(start, events) == replay(step(start, events[0]), events.drop_first()),
    decreases events.len(),
{
    if events.len() > 1 {
        let first = step(start, events[0]);
        lemma_replay_first(start, events.drop_last());
        assert(events.drop_last().drop_first() =~= events.drop_first().drop_last());
        assert(events.drop_last()[0] == events[0]);
        assert(events.drop_first().last() == events.last());
        assert(replay(start, events) == step(replay(start, events.drop_last()), events.last()));
        assert(replay(start, events.drop_last()) == replay(
            first,
            events.drop_last().drop_first(),
        ));
        assert(replay(first, events.drop_first()) == step(
            replay(first, events.drop_first().drop_last()),
            events.drop_first().last(),
        ));
    } else {
        assert(events.drop_last() =~= Seq::<FrameEventView>::empty());
        assert(events.drop_first() =~= Seq::<FrameEventView>::empty());
        assert(events.last() == events[0]);
        assert(replay(start, events.drop_last()) == start);
    }
}

/// Logged events never reach the recorded streams: recording `events` from
/// any state gives the same state as recording only their frames.
pub proof fn law_logged_events_ignored(start: RecorderView, events: Seq<FrameEventView>)
    ensures
        replay(start, events) == replay(start, frames_only(events)),
    decreases events.len(),
{
    if events.len() > 0 {
        let rest = events.drop_first();
        lemma_replay_first(start, events);
        law_logged_events_ignored(step(start, events[0]), rest);
        match events[0] {
            FrameEventView::Other => {
                law_logged_events_ignored(start, rest);
            },
            _ => {
                let kept = seq![events[0]] + frames_only(rest);
                lemma_replay_first(start, kept);
                assert(kept.drop_first() =~= frames_only(rest));
            },
        }
    }
}

/// The main rows kept when recording `events` from a fresh recorder with
/// stride `main_stride`.
pub open spec fn kept_main_rows(
    main_stride: u32,
    main_signed: Seq<bool>,
    slow_signed: Seq<bool>,
    gps_signed: Seq<bool>,
    keep_gps: bool,
    events: Seq<FrameEventView>,
) -> Seq<StampedRow> {
    every_nth(
        main_rows(events),
        effective_stride(main_stride),
        replay(
            fresh_recorder(main_stride, main_signed, slow_signed, gps_signed, keep_gps),
            events,
        ).main.times.len(),
    )
}

/// The main rows kept at stride `s2` are among those kept at stride `s1`, in
/// the same order: the `j`-th row kept at `s2` is the `(j * (s2 / s1))`-th
/// row kept at `s1`, which exists.
pub open spec fn kept_at_multiple(
    s1: u32,
    s2: u32,
    main_signed: Seq<bool>,
    slow_signed: Seq<bool>,
    gps_signed: Seq<bool>,
    keep_gps: bool,
    events: Seq<FrameEventView>,
) -> bool {
    &&& kept_main_rows(s2, main_signed, slow_signed, gps_signed, keep_gps, events).len() > 0 ==> (
    kept_main_rows(s2, main_signed, slow_signed, gps_signed, keep_gps, events).len() - 1) * (s2
        / s1) < kept_main_rows(s1, main_signed, slow_signed, gps_signed, keep_gps, events).len()
    &&& forall|j: int|
        0 <= j < kept_main_rows(s2, main_signed, slow_signed, gps_signed, keep_gps, events).len()
            ==> #[trigger] kept_main_rows(
            s2,
            main_signed,
            slow_signed,
            gps_signed,
            keep_gps,
            events,
        )[j] == kept_main_rows(s1, main_signed, slow_signed, gps_signed, keep_gps, events)[j * (s2
            / s1)]
}

/// Kept main rows at two strides. At a stride `s2` no smaller than `s1` (both
/// at least 1) no more main frames are kept than at `s1`; and when `s2` is a
/// multiple of `s1`, the `j`-th row kept at `s2` is the `(j * (s2 / s1))`-th
/// row kept at `s1`, so the frames kept at `s2` are among those kept at `s1`,
/// in the same order. The main time stamps are those of the kept rows
/// (`law_main_downsampling`).
pub proof fn law_stride_monotone(
    s1: u32,
    s2: u32,
    main_signed: Seq<bool>,
    slow_signed: Seq<bool>,
    gps_signed: Seq<bool>,
    keep_gps: bool,
    events: Seq<FrameEventView>,
)
    requires
        1 <= s1 <= s2,
    ensures
        kept_main_rows(s2, main_signed, slow_signed, gps_signed, keep_gps, events).len()
            <= kept_main_rows(s1, main_signed, slow_signed, gps_signed, keep_gps, events).len(),
        s2 % s1 == 0 ==> kept_at_multiple(
            s1,
            s2,
            main_signed,
            slow_signed,
            gps_signed,
            keep_gps,
            events,
        ),
{
    law_main_downsampling(s1, main_signed, slow_signed, gps_signed, keep_gps, events, 0);
    law_main_downsampling(s2, main_signed, slow_signed, gps_signed, keep_gps, events, 0);
    let kept1 = kept_main_rows(s1, main_signed, slow_signed, gps_signed, keep_gps, events);
    let kept2 = kept_main_rows(s2, main_signed, slow_signed, gps_signed, keep_gps, events);
    let rows = main_rows(events);
    let l1 = kept1.len();
    let l2 = kept2.len();
    let k1 = s1 as nat;
    let k2 = s2 as nat;
    assert(effective_stride(s1) == k1 && effective_stride(s2) == k2);
    if l2 > l1 {
        assert((l2 - 1) * k2 >= l1 * k1) by (nonlinear_arith)
            requires
                l2 >= l1 + 1,
                k2 >= k1,
                k1 >= 1,
        ;
    }
    if s2 % s1 == 0 {
        let q = s2 / s1;
        assert(k2 == q * k1) by (nonlinear_arith)
            requires
                k2 % k1 == 0,
                q == k2 / k1,
                k1 >= 1,
        ;
        assert forall|j: int|
            0 <= j < kept_main_rows(s2, main_signed, slow_signed, gps_signed, keep_gps, events).len()
                implies (j * (s2 / s1) < kept_main_rows(
                s1,
                main_signed,
                slow_signed,
                gps_signed,
                keep_gps,
                events,
            ).len() && #[trigger] kept_main_rows(
                s2,
                main_signed,
                slow_signed,
                gps_signed,
                keep_gps,
                events,
            )[j] == kept_main_rows(
                s1,
                main_signed,
                slow_signed,
                gps_signed,
                keep_gps,
                events,
            )[j * (s2 / s1)]) by {
            assert(j * k2 <= (l2 - 1) * k2) by (nonlinear_arith)
                requires
                    0 <= j <= l2 - 1,
                    k2 >= 1,
            ;
            assert(j * k2 == (j * q) * k1) by (nonlinear_arith)
                requires
                    k2 == q * k1,
            ;
            assert(0 <= j * q) by (nonlinear_arith)
                requires
                    0 <= j,
                    q >= 0,
            ;
            if j * q >= l1 {
                assert((j * q) * k1 >= l1 * k1) by (nonlinear_arith)
                    requires
                        j * q >= l1,
                        k1 >= 1,
                ;
            }
            assert(kept2[j] == rows[j * k2]);
            assert(kept1[j * q] == rows[(j * q) * k1]);
        }
        if l2 > 0 {
            assert(kept_main_rows(s2, main_signed, slow_signed, gps_signed, keep_gps, events)[l2
                - 1] == kept_main_rows(s1, main_signed, slow_signed, gps_signed, keep_gps, events)[(
            l2 - 1) * (s2 / s1)]);
        }
    }
}

} // verus!
