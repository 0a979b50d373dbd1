//! What holds of every run and of every session.

use vstd::prelude::*;

use crate::clock::{hours_nanos, Moment, NANOS_PER_SECOND, SECONDS_PER_HOUR};
use crate::feed::{is_run, is_run_so_far, met_at, request_after, samples_in, RunEvent};
use crate::monitor::{holds_samples, CpuMonitor};
use crate::session::{
    is_session, law_session_counts_snapshots_only, session_action, session_after_all, snapshots_in,
    suits_at, time_is_up, SessionAction, SessionEvent,
};

verus! {

/// A run with a limit asks the provider only, and the snapshots that it got are its samples, one
/// by one.
proof fn lemma_limited_run_so_far(
    events: Seq<RunEvent>,
    limit: usize,
    duration_hours: u8,
    start: Moment,
    n: int,
)
    requires
        is_run_so_far(events, Some(limit), duration_hours, start),
        0 <= n <= events.len(),
        n == events.len() ==> n == 0 || events.last() matches RunEvent::Answered(Ok(_)),
    ensures
        n <= limit,
        samples_in(events.take(n)).len() == n,
        forall|i: int|
            0 <= i < n ==> (#[trigger] events[i] matches RunEvent::Answered(Ok(s))
                && samples_in(events.take(n))[i] == s@),
    decreases n,
{
    if n > 0 {
        let init = events.take(n - 1);
        lemma_limited_run_so_far(events, limit, duration_hours, start, n - 1);
        assert(events.take(n).drop_last() =~= init);
        assert(met_at(events, Some(limit), duration_hours, start, n - 1));
        if n < events.len() {
            assert(met_at(events, Some(limit), duration_hours, start, n));
        }
    }
}

/// A run with a limit, whose provider gives `good` snapshots and then fails, asks the provider
/// until it has failed or the limit is reached. The snapshots that it got are its samples, in the
/// order in which they came.
pub proof fn law_limited_run_asks_until_done(
    events: Seq<RunEvent>,
    limit: usize,
    duration_hours: u8,
    start: Moment,
    good: nat,
)
    requires
        is_run(events, Some(limit), duration_hours, start),
        forall|i: int|
            0 <= i < events.len() ==> (#[trigger] events[i] matches RunEvent::Answered(answer)
                ==> (i < good ==> answer is Ok) && (i == good ==> answer is Err)),
    ensures
        events.len() == if good < limit {
            good + 1
        } else {
            limit as nat
        },
        samples_in(events).len() == if good < limit {
            good
        } else {
            limit as nat
        },
        forall|i: int| 0 <= i < events.len() ==> #[trigger] events[i] is Answered,
        forall|i: int|
            0 <= i < samples_in(events).len() ==> (#[trigger] events[i] matches RunEvent::Answered(
                Ok(s),
            ) && samples_in(events)[i] == s@),
{
    let len = events.len() as int;
    assert(events.take(len) =~= events);
    if len > 0 {
        let last = events[len - 1];
        let init = events.take(len - 1);
        assert(met_at(events, Some(limit), duration_hours, start, len - 1));
        assert(events.drop_last() =~= init);
        lemma_limited_run_so_far(events, limit, duration_hours, start, len - 1);
        if last matches RunEvent::Answered(Ok(_)) {
            lemma_limited_run_so_far(events, limit, duration_hours, start, len);
        }
        if len - 1 > good {
            assert(events[good as int] matches RunEvent::Answered(Ok(_)));
        }
    }
}

/// A run with a limit has no more samples than the limit says.
pub proof fn lemma_limited_run_stays_below(
    events: Seq<RunEvent>,
    limit: usize,
    duration_hours: u8,
    start: Moment,
)
    requires
        is_run(events, Some(limit), duration_hours, start),
    ensures
        samples_in(events).len() <= limit,
{
    let len = events.len() as int;
    assert(events.take(len) =~= events);
    if len > 0 {
        assert(met_at(events, Some(limit), duration_hours, start, len - 1));
        assert(events.drop_last() =~= events.take(len - 1));
        lemma_limited_run_so_far(events, limit, duration_hours, start, len - 1);
        if events.last() matches RunEvent::Answered(Ok(_)) {
            lemma_limited_run_so_far(events, limit, duration_hours, start, len);
        }
    }
}

/// A run without a limit looks at the clock before each sample and takes the sample only while its
/// time is not up. It ends when its time is up, when the provider fails, or with the greatest
/// count of samples.
pub proof fn law_timed_run_keeps_its_time(
    events: Seq<RunEvent>,
    duration_hours: u8,
    start: Moment,
)
    requires
        is_run(events, None, duration_hours, start),
    ensures
        forall|i: int|
            0 <= i < events.len() && #[trigger] events[i] is Answered ==> i > 0 && (events[i - 1]
                matches RunEvent::Read(now) && now.instant() - start.instant() < hours_nanos(
                duration_hours,
            )),
        samples_in(events).len() >= usize::MAX || (events.len() > 0 && match events.last() {
            RunEvent::Read(now) => now.instant() - start.instant() >= hours_nanos(duration_hours),
            RunEvent::Answered(answer) => answer is Err,
        }),
{
    assert forall|i: int| 0 <= i < events.len() && #[trigger] events[i] is Answered implies i > 0
        && (events[i - 1] matches RunEvent::Read(now) && now.instant() - start.instant()
        < hours_nanos(duration_hours)) by {
        let init = events.take(i);
        assert(met_at(events, None, duration_hours, start, i));
        if i > 0 {
            assert(init.last() == events[i - 1]);
        }
    }
}

/// A run of no hours takes no sample: it reads the clock once and ends.
pub proof fn law_run_without_time_takes_nothing(events: Seq<RunEvent>, start: Moment)
    requires
        is_run(events, None, 0, start),
        forall|i: int|
            0 <= i < events.len() ==> (#[trigger] events[i] matches RunEvent::Read(now)
                ==> now.instant() >= start.instant()),
    ensures
        events.len() == 1,
        samples_in(events).len() == 0,
{
    law_timed_run_keeps_its_time(events, 0, start);
    assert(samples_in(Seq::<RunEvent>::empty()).len() == 0);
    if events.len() == 0 {
        assert(events =~= Seq::empty());
    } else {
        assert(met_at(events, None, 0, start, 0));
        if events.len() > 1 {
            let first = events.take(1);
            assert(first.last() == events[0]);
            assert(met_at(events, None, 0, start, 1));
        }
        assert(events.drop_last() =~= Seq::empty());
    }
}

/// Whether two runs, begun at `start_a` and `start_b`, got the same: snapshots of the same
/// processes, failures at the same place, and the same time since the start.
pub open spec fn same_event(a: RunEvent, start_a: Moment, b: RunEvent, start_b: Moment) -> bool {
    match (a, b) {
        (RunEvent::Read(x), RunEvent::Read(y)) => x.instant() - start_a.instant() == y.instant()
            - start_b.instant(),
        (RunEvent::Answered(Ok(x)), RunEvent::Answered(Ok(y))) => x@ == y@,
        (RunEvent::Answered(Ok(_)), RunEvent::Answered(Err(_))) => false,
        (RunEvent::Answered(Err(_)), RunEvent::Answered(Ok(_))) => false,
        _ => true,
    }
}

/// As far as two runs got, they have the same samples and ask for the same next.
proof fn lemma_same_run_so_far(
    a: Seq<RunEvent>,
    start_a: Moment,
    b: Seq<RunEvent>,
    start_b: Moment,
    max_samples: Option<usize>,
    hours_a: u8,
    hours_b: u8,
    n: int,
)
    requires
        is_run_so_far(a, max_samples, hours_a, start_a),
        is_run_so_far(b, max_samples, hours_b, start_b),
        max_samples is None ==> hours_a == hours_b,
        forall|i: int|
            #![trigger a[i]]
            #![trigger b[i]]
            0 <= i < a.len() && i < b.len() ==> same_event(a[i], start_a, b[i], start_b),
        0 <= n <= a.len(),
        n <= b.len(),
    ensures
        samples_in(a.take(n)) == samples_in(b.take(n)),
        request_after(a.take(n), max_samples, hours_a, start_a) == request_after(
            b.take(n),
            max_samples,
            hours_b,
            start_b,
        ),
    decreases n,
{
    if n > 0 {
        lemma_same_run_so_far(a, start_a, b, start_b, max_samples, hours_a, hours_b, n - 1);
        assert(a.take(n).drop_last() =~= a.take(n - 1));
        assert(b.take(n).drop_last() =~= b.take(n - 1));
        assert(met_at(a, max_samples, hours_a, start_a, n - 1));
        assert(met_at(b, max_samples, hours_b, start_b, n - 1));
    } else {
        assert(a.take(0) =~= b.take(0));
    }
}

/// A run begins afresh: what it leaves in a monitor follows from what it got alone. Two monitors,
/// whatever they held before, that get the same hold the same number of samples and the same
/// totals. How long they are to run plays a part only where there is no limit.
pub proof fn law_run_begins_afresh(
    monitor_a: CpuMonitor,
    a: Seq<RunEvent>,
    start_a: Moment,
    monitor_b: CpuMonitor,
    b: Seq<RunEvent>,
    start_b: Moment,
    max_samples: Option<usize>,
    hours_a: u8,
    hours_b: u8,
    clk_tck: u64,
)
    requires
        is_run(a, max_samples, hours_a, start_a),
        is_run(b, max_samples, hours_b, start_b),
        max_samples is None ==> hours_a == hours_b,
        holds_samples(monitor_a, a, clk_tck),
        holds_samples(monitor_b, b, clk_tck),
        forall|i: int|
            #![trigger a[i]]
            #![trigger b[i]]
            0 <= i < a.len() && i < b.len() ==> same_event(a[i], start_a, b[i], start_b),
    ensures
        a.len() == b.len(),
        samples_in(a) == samples_in(b),
        monitor_a.total_samples == monitor_b.total_samples,
        monitor_a.group_totals@ == monitor_b.group_totals@,
{
    let n = if a.len() <= b.len() {
        a.len() as int
    } else {
        b.len() as int
    };
    lemma_same_run_so_far(a, start_a, b, start_b, max_samples, hours_a, hours_b, n);
    assert(a.take(a.len() as int) =~= a);
    assert(b.take(b.len() as int) =~= b);
    if n < a.len() {
        assert(met_at(a, max_samples, hours_a, start_a, n));
    }
    if n < b.len() {
        assert(met_at(b, max_samples, hours_b, start_b, n));
    }
}

/// A session that no one interrupts takes a snapshot at each of its wakes and ends with that of the
/// first wake at which its time is up: never before, and never after one more pause. One of no
/// hours ends with its first snapshot.
pub proof fn law_session_lasts_its_duration(
    interval: u16,
    duration_hours: u8,
    start: Moment,
    events: Seq<SessionEvent>,
)
    requires
        is_session(interval, duration_hours, start, events),
        session_action(interval, duration_hours, start, events) is Finish,
        forall|i: int| 0 <= i < events.len() ==> #[trigger] events[i] !is Interrupted,
    ensures
        events.len() >= 1,
        events.last() is Snapshot || events.last() is SnapshotFailed,
        events.len() == 1 <==> duration_hours == 0,
        duration_hours > 0 ==> events[events.len() - 2] is Woke,
        forall|i: int|
            0 <= i < events.len() ==> (#[trigger] events[i] matches SessionEvent::Woke(now) ==> (
            time_is_up(duration_hours, start, now) <==> i == events.len() - 2)),
{
    let len = events.len() as int;
    assert(events[len - 1] !is Interrupted);
    assert(suits_at(interval, duration_hours, start, events, len - 1));
    assert(events.drop_last() =~= events.take(len - 1));
    if len >= 2 {
        assert(events.take(len - 1).last() == events[len - 2]);
        assert(suits_at(interval, duration_hours, start, events, 0));
        assert(suits_at(interval, duration_hours, start, events, 1));
        assert(events.take(1).last() == events[0]);
        assert(events.take(1).drop_last() =~= Seq::empty());
    }
    assert forall|i: int| 0 <= i < len && #[trigger] events[i] is Woke implies (time_is_up(
        duration_hours,
        start,
        events[i]->Woke_0,
    ) <==> i == len - 2) by {
        let woken = events.take(i + 1);
        assert(woken.last() == events[i]);
        if i + 1 < len {
            assert(suits_at(interval, duration_hours, start, events, i + 1));
        }
        if i + 2 < len {
            let after = events.take(i + 2);
            assert(after.last() == events[i + 1]);
            assert(after.drop_last() =~= woken);
            assert(suits_at(interval, duration_hours, start, events, i + 2));
        }
    }
}

/// When a session was last woken, or began where it was not woken yet.
pub open spec fn last_wake(start: Moment, events: Seq<SessionEvent>) -> Moment
    decreases events.len(),
{
    if events.len() == 0 {
        start
    } else {
        match events.last() {
            SessionEvent::Woke(now) => now,
            _ => last_wake(start, events.drop_last()),
        }
    }
}

/// Whether the event at `i` is as it should be: a snapshot that succeeded, or a wake exactly as many
/// seconds after the wake before it as the session asked to pause for.
pub open spec fn is_paced_at(
    interval: u16,
    duration_hours: u8,
    start: Moment,
    events: Seq<SessionEvent>,
    i: int,
) -> bool {
    match events[i] {
        SessionEvent::Snapshot(_) => true,
        SessionEvent::SnapshotFailed => false,
        SessionEvent::Woke(now) => session_action(
            interval,
            duration_hours,
            start,
            events.take(i),
        ) matches SessionAction::Sleep(pause) && now.instant() == last_wake(
            start,
            events.take(i),
        ).instant() + pause * NANOS_PER_SECOND,
        SessionEvent::Interrupted => false,
    }
}

/// Whether all goes well in a session: every snapshot succeeds, no one interrupts, and each pause
/// takes exactly as long as the session asked for. Snapshots take no time.
pub open spec fn is_paced(
    interval: u16,
    duration_hours: u8,
    start: Moment,
    events: Seq<SessionEvent>,
) -> bool {
    forall|i: int|
        0 <= i < events.len() ==> #[trigger] is_paced_at(
            interval,
            duration_hours,
            start,
            events,
            i,
        )
}

/// In a paced session snapshots and pauses take turns, and it is woken every `interval` seconds.
proof fn lemma_snapshots_and_pauses_take_turns(
    interval: u16,
    duration_hours: u8,
    start: Moment,
    events: Seq<SessionEvent>,
    n: int,
)
    requires
        is_session(interval, duration_hours, start, events),
        is_paced(interval, duration_hours, start, events),
        0 <= n <= events.len(),
    ensures
        snapshots_in(events.take(n)).len() == (n + 1) / 2,
        last_wake(start, events.take(n)).instant() == start.instant() + n / 2 * interval
            * NANOS_PER_SECOND,
        forall|i: int|
            0 <= i < n ==> if i % 2 == 0 {
                #[trigger] events[i] is Snapshot
            } else {
                events[i] matches SessionEvent::Woke(now) && now.instant() == start.instant() + (i
                    + 1) / 2 * interval * NANOS_PER_SECOND
            },
    decreases n,
{
    if n > 0 {
        let init = events.take(n - 1);
        lemma_snapshots_and_pauses_take_turns(interval, duration_hours, start, events, n - 1);
        assert(events.take(n).drop_last() =~= init);
        assert(suits_at(interval, duration_hours, start, events, n - 1));
        assert(is_paced_at(interval, duration_hours, start, events, n - 1));
        if n > 1 {
            assert(init.last() == events[n - 2]);
        }
        if n % 2 == 0 {
            let (k, step) = ((n - 1) / 2, interval as int);
            assert(n / 2 == k + 1);
            assert((k + 1) * step == k * step + step) by (nonlinear_arith);
        }
    } else {
        assert(0 * interval == 0);
    }
}

/// A session whose pauses take exactly as long as it asks for, and whose snapshots all succeed, ends
/// with the sample of the first wake that is its whole duration after its start. Where the interval
/// fits into the duration, it ends exactly then, with one sample for each interval: with 8640 of
/// them, 24 hours after its start, at 10 seconds.
pub proof fn law_paced_session_samples_each_interval(
    interval: u16,
    duration_hours: u8,
    start: Moment,
    clk_tck: u64,
    events: Seq<SessionEvent>,
)
    requires
        interval > 0,
        is_session(interval, duration_hours, start, events),
        is_paced(interval, duration_hours, start, events),
    ensures
        session_action(interval, duration_hours, start, events) == SessionAction::Finish,
        session_after_all(clk_tck, events).samples == (duration_hours * SECONDS_PER_HOUR + interval
            - 1) / interval as int,
        duration_hours > 0 ==> (events[events.len() - 2] matches SessionEvent::Woke(now)
            && now.instant() - start.instant() == session_after_all(clk_tck, events).samples
            * interval * NANOS_PER_SECOND),
        (duration_hours * SECONDS_PER_HOUR) % interval as int == 0 ==> {
            &&& session_after_all(clk_tck, events).samples == duration_hours * SECONDS_PER_HOUR
                / interval as int
            &&& duration_hours > 0 ==> (events[events.len() - 2] matches SessionEvent::Woke(now)
                && now.instant() - start.instant() == hours_nanos(duration_hours))
        },
{
    let len = events.len() as int;
    lemma_snapshots_and_pauses_take_turns(interval, duration_hours, start, events, len);
    law_session_counts_snapshots_only(clk_tck, events);
    assert(events.take(len) =~= events);
    assert forall|i: int| 0 <= i < len implies #[trigger] events[i] !is Interrupted && events[i]
        !is SnapshotFailed by {
        assert(is_paced_at(interval, duration_hours, start, events, i));
    }
    if len > 0 {
        assert(events[len - 1] !is SnapshotFailed);
    }
    law_session_lasts_its_duration(interval, duration_hours, start, events);
    let wakes = len / 2;
    let (i, d) = (interval as int, duration_hours * SECONDS_PER_HOUR);
    assert(events[len - 1] is Snapshot);
    if duration_hours > 0 {
        assert(events[len - 2] is Woke);
        assert((len - 2 + 1) / 2 == wakes);
        if wakes > 1 {
            assert(events[len - 4] is Woke);
            assert((len - 4 + 1) / 2 == wakes - 1);
        }
        if wakes == 1 {
            assert((wakes - 1) * i == 0) by (nonlinear_arith)
                requires
                    wakes == 1,
            ;
        }
        assert((wakes - 1) * i < d);
        assert(d <= wakes * i);
    }
    assert(wakes == (d + i - 1) / i && (d % i == 0 ==> wakes == d / i && wakes * i == d))
        by (nonlinear_arith)
        requires
            i > 0,
            d >= 0,
            wakes >= 0,
            d == 0 ==> wakes == 0,
            d > 0 ==> (wakes - 1) * i < d <= wakes * i,
    ;
}

} // verus!
