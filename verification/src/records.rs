//! What the operations of a monitor give, told by what goes into them and what comes out of them.

use vstd::prelude::*;

use crate::accounts::{differ_by, growth, has_grown, lemma_views};
use crate::clock::{rate_was_read, rfc3339_of, rfc3339_text, Moment};
use crate::feed::{
    answered, came_from, law_answers_are_the_providers, samples_in, Feed, RunEvent,
};
use crate::groups::{merged, with_added, GroupTotals};
use crate::laws::{law_ranking_leaves_none_out, lemma_idle_group_used_nothing};
use crate::monitor::{
    is_clock_text, ran, totals_of, CpuMonitor, MonitorError, MonitorReport, ProcessSnaphotProvider,
};
use crate::outcomes::lemma_seconds_count_ticks;
use crate::process::{classify_proccess, ProcessType};
use crate::runs::{
    law_limited_run_asks_until_done, law_timed_run_keeps_its_time, lemma_limited_run_stays_below,
};
use crate::seconds::CpuSeconds;
use crate::snapshot::{
    busy, group_busy, seconds_between, usage_below, usage_between, usage_share, ProcessSnapshot,
    Processes, PID_COUNT,
};
use crate::steps::nanos_between;

verus! {

/// A new monitor has the settings that it was made with and nothing else.
pub proof fn law_new_monitor_has_its_settings(
    duration_hours: u8,
    interval: u16,
    res: CpuMonitor,
    name: Seq<char>,
)
    requires
        call_ensures(CpuMonitor::new, (duration_hours, interval), res),
    ensures
        res.duration_hours == duration_hours,
        res.interval == interval,
        res.total_samples == 0,
        !res.group_totals@.contains_key(name),
        res.started_at is None,
{
}

/// To reset a monitor and to begin with it both forget what it held and keep its settings. One that
/// begins shows when.
pub proof fn law_reset_and_begin_forget(
    reset: &mut CpuMonitor,
    begun: &mut CpuMonitor,
    start: Moment,
    name: Seq<char>,
)
    requires
        call_ensures(CpuMonitor::reset, (reset,), ()),
        call_ensures(CpuMonitor::begin, (begun, &start), ()),
    ensures
        final(reset).duration_hours == old(reset).duration_hours,
        final(reset).interval == old(reset).interval,
        final(reset).total_samples == 0,
        !final(reset).group_totals@.contains_key(name),
        final(reset).started_at is None,
        final(begun).duration_hours == old(begun).duration_hours,
        final(begun).interval == old(begun).interval,
        final(begun).total_samples == 0,
        !final(begun).group_totals@.contains_key(name),
        final(begun).started_at matches Some(text) && text@ == rfc3339_text(
            start.secs,
            start.nanos,
            start.offset,
        ),
{
}

/// The time of a monitor is the time of all its groups.
pub proof fn law_time_of_a_monitor_is_of_its_groups(
    monitor: CpuMonitor,
    all: CpuSeconds,
    of_groups: CpuSeconds,
)
    requires
        call_ensures(CpuMonitor::total_cpu_seconds, (&monitor,), all),
        call_ensures(GroupTotals::total, (&monitor.group_totals,), of_groups),
    ensures
        all@ == of_groups@,
{
}

/// A sample is counted once and changes no setting. The first sample, and one without processes,
/// add no time.
pub proof fn law_sample_is_counted_once(
    monitor: &mut CpuMonitor,
    prev: Option<ProcessSnapshot>,
    cur: ProcessSnapshot,
    clk_tck: u64,
)
    requires
        call_ensures(CpuMonitor::record_sample, (monitor, &prev, &cur, clk_tck), ()),
    ensures
        final(monitor).total_samples == old(monitor).total_samples + 1,
        final(monitor).duration_hours == old(monitor).duration_hours,
        final(monitor).interval == old(monitor).interval,
        final(monitor).started_at == old(monitor).started_at,
        prev is None || cur.processes@.dom() == Set::<u32>::empty()
            ==> final(monitor).group_totals@ == old(monitor).group_totals@,
{
    if cur.processes@.dom() == Set::<u32>::empty() && prev is Some {
        let used = usage_between(cur@, prev->0@, clk_tck);
        assert forall|pid: u32| !busy(cur@, prev->0@, clk_tck, pid) by {
            assert(cur@.contains_key(pid) ==> cur.processes@.dom().contains(pid));
        }
        assert(used =~= Map::<Seq<char>, real>::empty());
        assert(merged(old(monitor).group_totals@, used) =~= old(monitor).group_totals@);
    }
}

proof fn lemma_one_more_below(
    fewer: Processes,
    more: Processes,
    prev: Processes,
    clk_tck: u64,
    pid: u32,
    name: Seq<char>,
    n: nat,
)
    requires
        !fewer.contains_key(pid),
        more == fewer.insert(pid, more[pid]),
        n <= PID_COUNT,
    ensures
        usage_below(more, prev, clk_tck, name, n) == usage_below(fewer, prev, clk_tck, name, n) + (
        if pid < n {
            usage_share(more, prev, clk_tck, name, pid)
        } else {
            0 as real
        }),
    decreases n,
{
    if n > 0 {
        lemma_one_more_below(fewer, more, prev, clk_tck, pid, name, (n - 1) as nat);
        let other = (n - 1) as u32;
        if other != pid {
            assert(more.contains_key(other) == fewer.contains_key(other));
            assert(fewer.contains_key(other) ==> more[other] == fewer[other]);
        }
    }
}

proof fn lemma_one_more_process(
    fewer: Processes,
    more: Processes,
    prev: Processes,
    clk_tck: u64,
    pid: u32,
)
    requires
        !fewer.contains_key(pid),
        more == fewer.insert(pid, more[pid]),
    ensures
        busy(more, prev, clk_tck, pid) ==> usage_between(more, prev, clk_tck) == with_added(
            usage_between(fewer, prev, clk_tck),
            more[pid].group(),
            seconds_between(more, prev, clk_tck, pid),
        ),
        !busy(more, prev, clk_tck, pid) ==> usage_between(more, prev, clk_tck) == usage_between(
            fewer,
            prev,
            clk_tck,
        ),
{
    let (a, b) = (usage_between(fewer, prev, clk_tck), usage_between(more, prev, clk_tck));
    assert forall|other: u32| other != pid implies #[trigger] busy(more, prev, clk_tck, other)
        == busy(fewer, prev, clk_tck, other) && (busy(fewer, prev, clk_tck, other)
        ==> more[other] == fewer[other]) by {
        assert(more.contains_key(other) == fewer.contains_key(other));
        assert(fewer.contains_key(other) ==> more[other] == fewer[other]);
    }
    assert(!busy(fewer, prev, clk_tck, pid));
    assert forall|name: Seq<char>| #[trigger]
        group_busy(more, prev, clk_tck, name) <==> group_busy(fewer, prev, clk_tck, name) || (busy(
            more,
            prev,
            clk_tck,
            pid,
        ) && more[pid].group() == name) by {
        if group_busy(fewer, prev, clk_tck, name) {
            let other = choose|other: u32| #[trigger]
                busy(fewer, prev, clk_tck, other) && fewer[other].group() == name;
            assert(busy(more, prev, clk_tck, other));
        }
        if group_busy(more, prev, clk_tck, name) {
            let other = choose|other: u32| #[trigger]
                busy(more, prev, clk_tck, other) && more[other].group() == name;
            if other != pid {
                assert(busy(fewer, prev, clk_tck, other));
            }
        }
    }
    assert forall|name: Seq<char>| #[trigger]
        usage_below(more, prev, clk_tck, name, PID_COUNT as nat) == usage_below(
            fewer,
            prev,
            clk_tck,
            name,
            PID_COUNT as nat,
        ) + usage_share(more, prev, clk_tck, name, pid) by {
        lemma_one_more_below(fewer, more, prev, clk_tck, pid, name, PID_COUNT as nat);
    }
    assert forall|name: Seq<char>| !group_busy(fewer, prev, clk_tck, name) implies #[trigger]
        usage_below(fewer, prev, clk_tck, name, PID_COUNT as nat) == 0 as real by {
        lemma_idle_group_used_nothing(fewer, prev, clk_tck, name);
    }
    if busy(more, prev, clk_tck, pid) {
        assert(b =~= with_added(
            a,
            more[pid].group(),
            seconds_between(more, prev, clk_tck, pid),
        ));
    } else {
        assert(b =~= a);
    }
}

/// One process more in a sample is its own time more in its own group, and nothing anywhere else:
/// the ticks by which its counters have grown, under the group that its kind and its command line
/// name. One that was not there before, has not grown or is measured by a clock that stands still
/// adds nothing.
pub proof fn law_each_process_is_accounted_to_its_own_group(
    without: &mut CpuMonitor,
    with: &mut CpuMonitor,
    prev: ProcessSnapshot,
    fewer: ProcessSnapshot,
    more: ProcessSnapshot,
    clk_tck: u64,
    pid: u32,
    cmdline: &str,
    comm: &str,
    kind: ProcessType,
    text: String,
    name: String,
    used: real,
)
    requires
        call_ensures(CpuMonitor::record_sample, (without, &Some(prev), &fewer, clk_tck), ()),
        call_ensures(CpuMonitor::record_sample, (with, &Some(prev), &more, clk_tck), ()),
        old(without).group_totals@ == old(with).group_totals@,
        !fewer.processes@.contains_key(pid),
        more.processes@ == fewer.processes@.insert(pid, more.processes@[pid]),
        call_ensures(classify_proccess, (cmdline, comm), kind),
        cmdline@ == more.processes@[pid].cmdline@,
        comm@ == more.processes@[pid].comm@,
        call_ensures(ProcessType::converte, (&kind, text), name),
        text@ == cmdline@,
        used * (clk_tck as int as real) == growth(
            more.processes@[pid],
            prev.processes@[pid],
        ) as real,
    ensures
        has_grown(more, prev, pid) && clk_tck > 0 ==> differ_by(
            final(without).group_totals@,
            final(with).group_totals@,
            name@,
            used,
        ),
        !has_grown(more, prev, pid) || clk_tck == 0 ==> final(with).group_totals@
            == final(without).group_totals@,
{
    lemma_views(more, prev, clk_tck, pid);
    lemma_views(fewer, prev, clk_tck, pid);
    assert(more@ =~= fewer@.insert(pid, more@[pid]));
    lemma_one_more_process(fewer@, more@, prev@, clk_tck, pid);
    let totals = old(without).group_totals@;
    let (a, b) = (
        usage_between(fewer@, prev@, clk_tck),
        usage_between(more@, prev@, clk_tck),
    );
    if has_grown(more, prev, pid) && clk_tck > 0 {
        let ticks = growth(more.processes@[pid], prev.processes@[pid]);
        lemma_seconds_count_ticks(ticks, clk_tck);
        let (s, c) = (seconds_between(more@, prev@, clk_tck, pid), clk_tck as int as real);
        assert(s == used) by (nonlinear_arith)
            requires
                s * c == ticks as real,
                used * c == ticks as real,
                c > 0 as real,
        ;
        assert(more@[pid].group() == name@);
        assert(b == with_added(a, name@, used));
    }
}

/// A sample puts each process that has grown under a group that starts with the label of what its
/// texts name: one that names a miner, in whatever case, is shown as suspicious, with its command
/// line.
pub proof fn law_each_grown_process_shows_under_its_label(
    monitor: &mut CpuMonitor,
    prev: ProcessSnapshot,
    cur: ProcessSnapshot,
    clk_tck: u64,
    pid: u32,
    cmdline: &str,
    comm: &str,
    kind: ProcessType,
)
    requires
        call_ensures(CpuMonitor::record_sample, (monitor, &Some(prev), &cur, clk_tck), ()),
        has_grown(cur, prev, pid),
        clk_tck > 0,
        call_ensures(classify_proccess, (cmdline, comm), kind),
        cmdline@ == cur.processes@[pid].cmdline@,
        comm@ == cur.processes@[pid].comm@,
    ensures
        kind is Suspicious ==> final(monitor).group_totals@.contains_key(
            "⚠️ Suspicious"@ + ":"@ + cmdline@,
        ),
        kind is Docker ==> final(monitor).group_totals@.contains_key(
            "🐋 Docker"@ + ":"@ + cmdline@,
        ),
        kind is Proc ==> final(monitor).group_totals@.contains_key("⚙ Proc"@ + ":"@ + cmdline@),
        kind is Gitlab ==> final(monitor).group_totals@.contains_key("🦊 Gitlab"@),
        kind is System ==> final(monitor).group_totals@.contains_key("💻 System"@),
{
    lemma_views(cur, prev, clk_tck, pid);
    assert(busy(cur@, prev@, clk_tck, pid));
    assert(group_busy(cur@, prev@, clk_tck, cur@[pid].group()));
}

/// To collect a sample is to ask the provider once and to record what it gave. Where it gave
/// nothing, the monitor stays as it is and the provider's error is handed on.
pub proof fn law_collecting_is_recording_an_answer<P: ProcessSnaphotProvider>(
    collecting: &mut CpuMonitor,
    recording: &mut CpuMonitor,
    provider: &P,
    prev: Option<ProcessSnapshot>,
    cur: ProcessSnapshot,
    clk_tck: u64,
    res: Result<Option<ProcessSnapshot>, MonitorError>,
)
    requires
        call_ensures(
            CpuMonitor::collect_sample::<P>,
            (collecting, provider, &prev, clk_tck),
            res,
        ),
        call_ensures(CpuMonitor::record_sample, (recording, &prev, &cur, clk_tck), ()),
        *old(recording) == *old(collecting),
    ensures
        res != Ok::<Option<ProcessSnapshot>, MonitorError>(None),
        res matches Ok(Some(given)) ==> call_ensures(P::take_snapshot, (provider,), Ok(given)) && (
        given == cur ==> {
            &&& final(collecting).total_samples == final(recording).total_samples
            &&& final(collecting).group_totals@ == final(recording).group_totals@
            &&& final(collecting).started_at == final(recording).started_at
        }),
        res matches Err(error) ==> call_ensures(P::take_snapshot, (provider,), Err(error))
            && *final(collecting) == *old(collecting),
{
}

/// The totals of a row of samples are those of recording them one after the other, from nothing.
pub proof fn law_row_is_recorded_sample_by_sample(
    monitor: &mut CpuMonitor,
    row: Seq<Processes>,
    prev: Option<ProcessSnapshot>,
    cur: ProcessSnapshot,
    clk_tck: u64,
    name: Seq<char>,
)
    requires
        call_ensures(CpuMonitor::record_sample, (monitor, &prev, &cur, clk_tck), ()),
        old(monitor).group_totals@ == totals_of(row, clk_tck),
        row.len() == 0 <==> prev is None,
        prev matches Some(p) ==> p@ == row.last(),
    ensures
        final(monitor).group_totals@ == totals_of(row.push(cur@), clk_tck),
        row.len() == 0 ==> !totals_of(row, clk_tck).contains_key(name),
{
    let longer = row.push(cur@);
    assert(longer.drop_last() =~= row);
    if row.len() > 0 {
        assert(longer[longer.len() - 2] == row.last());
    }
}

/// The samples of a run are the snapshots that came, one by one, whatever came between them.
pub proof fn law_samples_are_the_snapshots_that_came(events: Seq<RunEvent>, event: RunEvent)
    ensures
        samples_in(Seq::<RunEvent>::empty()) == Seq::<Processes>::empty(),
        samples_in(events.push(event)) == match event {
            RunEvent::Answered(Ok(snapshot)) => samples_in(events).push(snapshot@),
            _ => samples_in(events),
        },
{
    assert(events.push(event).drop_last() =~= events);
}

proof fn lemma_limited_run_of_answers<P: ProcessSnaphotProvider>(
    monitor: CpuMonitor,
    provider: &P,
    limit: usize,
    start: Moment,
    clk_tck: u64,
    events: Seq<RunEvent>,
    good: nat,
)
    requires
        ran(monitor, provider, Some(limit), start, clk_tck, events),
        forall|answer: Result<ProcessSnapshot, MonitorError>| #[trigger]
            call_ensures(P::take_snapshot, (provider,), answer) ==> if good > 0 {
                answer is Ok
            } else {
                answer is Err
            },
        good == 0 || good >= events.len(),
    ensures
        monitor.total_samples == if good == 0 {
            0
        } else {
            limit as int
        },
{
    assert forall|i: int| 0 <= i < events.len() implies (
    #[trigger] events[i] matches RunEvent::Answered(answer) ==> (i < good ==> answer is Ok) && (i
        == good ==> answer is Err)) by {
        if let RunEvent::Answered(answer) = events[i] {
            law_answers_are_the_providers(provider, i as nat, answer);
        }
    }
    law_limited_run_asks_until_done(events, limit, monitor.duration_hours, start, good);
}

/// A run with a limit, of a provider that never fails, reports exactly as many samples as the limit
/// says; of a provider that always fails it reports none, and no group.
pub proof fn law_limited_run_reports_its_limit<P: ProcessSnaphotProvider>(
    monitor: &mut CpuMonitor,
    provider: &P,
    limit: usize,
    res: Result<MonitorReport, MonitorError>,
    name: Seq<char>,
)
    requires
        call_ensures(CpuMonitor::run::<P>, (monitor, provider, Some(limit)), res),
    ensures
        res is Ok,
        res->Ok_0.duration_hours == old(monitor).duration_hours,
        res->Ok_0.total_samples <= limit,
        res->Ok_0.total_samples < limit ==> exists|error: MonitorError| #[trigger]
            call_ensures(P::take_snapshot, (provider,), Err(error)),
        (forall|answer: Result<ProcessSnapshot, MonitorError>| #[trigger]
            call_ensures(P::take_snapshot, (provider,), answer) ==> answer is Ok)
            ==> res->Ok_0.total_samples == limit,
        (forall|answer: Result<ProcessSnapshot, MonitorError>| #[trigger]
            call_ensures(P::take_snapshot, (provider,), answer) ==> answer is Err)
            ==> res->Ok_0.total_samples == 0 && !res->Ok_0.groups@.contains_key(name),
{
    let report = res->Ok_0;
    let (start, clk_tck, events) = choose|start: Moment, clk_tck: u64, events: Seq<RunEvent>|
        #[trigger] ran(*final(monitor), provider, Some(limit), start, clk_tck, events);
    assert(ran(*final(monitor), provider, Some(limit), start, clk_tck, events));
    lemma_limited_run_stays_below(events, limit, final(monitor).duration_hours, start);
    if report.total_samples < limit {
        let last = events.len() - 1;
        assert(answered(provider, last as nat, events[last]->Answered_0));
        law_answers_are_the_providers(provider, last as nat, events[last]->Answered_0);
        assert(call_ensures(
            P::take_snapshot,
            (provider,),
            Err(events[last]->Answered_0->Err_0),
        ));
    }
    if forall|answer: Result<ProcessSnapshot, MonitorError>| #[trigger]
        call_ensures(P::take_snapshot, (provider,), answer) ==> answer is Ok {
        lemma_limited_run_of_answers(
            *final(monitor),
            provider,
            limit,
            start,
            clk_tck,
            events,
            events.len() + 1,
        );
    }
    if forall|answer: Result<ProcessSnapshot, MonitorError>| #[trigger]
        call_ensures(P::take_snapshot, (provider,), answer) ==> answer is Err {
        lemma_limited_run_of_answers(*final(monitor), provider, limit, start, clk_tck, events, 0);
    }
}

/// The snapshots among a row of events.
pub open spec fn snapshots_among(events: Seq<RunEvent>) -> Seq<ProcessSnapshot>
    decreases events.len(),
{
    if events.len() == 0 {
        Seq::empty()
    } else {
        match events.last() {
            RunEvent::Answered(Ok(snapshot)) => snapshots_among(events.drop_last()).push(snapshot),
            _ => snapshots_among(events.drop_last()),
        }
    }
}

proof fn lemma_snapshots_among<P: ProcessSnaphotProvider>(events: Seq<RunEvent>, provider: &P)
    requires
        came_from(events, provider),
    ensures
        snapshots_among(events).map_values(|s: ProcessSnapshot| s@) == samples_in(events),
        forall|i: int|
            0 <= i < snapshots_among(events).len() ==> call_ensures(
                P::take_snapshot,
                (provider,),
                Ok(#[trigger] snapshots_among(events)[i]),
            ),
    decreases events.len(),
{
    let row = snapshots_among(events);
    if events.len() > 0 {
        let init = events.drop_last();
        assert(came_from(init, provider)) by {
            assert forall|i: int| 0 <= i < init.len() implies match #[trigger] init[i] {
                RunEvent::Read(now) => now.read_as((i + 1) as nat),
                RunEvent::Answered(answer) => answered(provider, i as nat, answer),
            } by {
                assert(events[i] == init[i]);
            }
        }
        lemma_snapshots_among(init, provider);
        let last = events[events.len() - 1];
        if let RunEvent::Answered(Ok(snapshot)) = last {
            law_answers_are_the_providers(provider, (events.len() - 1) as nat, Ok(snapshot));
        }
    }
    assert(row.map_values(|s: ProcessSnapshot| s@) =~= samples_in(events));
}

/// Whether a text shows the reading of the clock numbered `number`.
pub open spec fn shows_reading(text: Seq<char>, number: nat) -> bool {
    exists|now: Moment| #[trigger]
        now.read_as(number) && text == rfc3339_text(now.secs, now.nanos, now.offset)
}

/// Whether a report is of a row of snapshots that the provider gave, recorded one after the other at
/// the rate of the machine's clock.
pub open spec fn reports_row<P: ProcessSnaphotProvider>(
    report: MonitorReport,
    provider: &P,
    clk_tck: u64,
    row: Seq<ProcessSnapshot>,
) -> bool {
    &&& rate_was_read(clk_tck)
    &&& report.total_samples == row.len()
    &&& report.groups@ == totals_of(row.map_values(|s: ProcessSnapshot| s@), clk_tck)
    &&& forall|i: int|
        0 <= i < row.len() ==> call_ensures(P::take_snapshot, (provider,), Ok(#[trigger] row[i]))
}

/// A run reports the snapshots that its provider gave, all of them and nothing else, and when it
/// began and ended. The monitor holds the same afterwards.
pub proof fn law_run_reports_what_was_given<P: ProcessSnaphotProvider>(
    monitor: &mut CpuMonitor,
    provider: &P,
    max_samples: Option<usize>,
    res: Result<MonitorReport, MonitorError>,
)
    requires
        call_ensures(CpuMonitor::run::<P>, (monitor, provider, max_samples), res),
    ensures
        res matches Ok(report) && {
            &&& exists|clk_tck: u64, row: Seq<ProcessSnapshot>| #[trigger]
                reports_row(report, provider, clk_tck, row)
            &&& shows_reading(report.started_at@, 0)
            &&& exists|number: nat| number > 0 && #[trigger] shows_reading(
                report.finished_at@,
                number,
            )
            &&& report.total_samples == final(monitor).total_samples
            &&& report.groups@ == final(monitor).group_totals@
            &&& final(monitor).started_at matches Some(text) && text@ == report.started_at@
        },
        final(monitor).duration_hours == old(monitor).duration_hours,
        final(monitor).interval == old(monitor).interval,
{
    let report = res->Ok_0;
    let (start, clk_tck, events) = choose|start: Moment, clk_tck: u64, events: Seq<RunEvent>|
        #[trigger] ran(*final(monitor), provider, max_samples, start, clk_tck, events)
            && is_clock_text(report.finished_at@, events.len() + 1);
    lemma_snapshots_among(events, provider);
    assert(reports_row(report, provider, clk_tck, snapshots_among(events)));
    assert(start.read_as(0));
    let now = choose|now: Moment| #[trigger]
        now.read_as(events.len() + 1) && report.finished_at@ == rfc3339_of(now);
    assert(now.read_as(events.len() + 1));
    assert(shows_reading(report.finished_at@, events.len() + 1));
}

/// Sampling from a feed counts each snapshot that came through it once. With a limit, and a
/// provider that did not fail, it ends with as many as the limit says.
pub proof fn law_sampling_counts_what_came<P: ProcessSnaphotProvider>(
    monitor: &mut CpuMonitor,
    feed: &mut Feed<P>,
    max_samples: Option<usize>,
    start: Moment,
    clk_tck: u64,
)
    requires
        call_ensures(
            CpuMonitor::sample_from::<P>,
            (monitor, feed, max_samples, &start, clk_tck),
            (),
        ),
    ensures
        final(monitor).total_samples == snapshots_among(final(feed).events()).len(),
        final(monitor).group_totals@ == totals_of(
            snapshots_among(final(feed).events()).map_values(|s: ProcessSnapshot| s@),
            clk_tck,
        ),
        final(monitor).started_at == old(monitor).started_at,
        max_samples matches Some(limit) ==> {
            &&& final(monitor).total_samples <= limit
            &&& (forall|i: int|
                0 <= i < final(feed).events().len() ==> !(#[trigger] final(feed).events()[i]
                    matches RunEvent::Answered(Err(_)))) ==> final(monitor).total_samples == limit
        },
{
    let events = final(feed).events();
    lemma_snapshots_among(events, old(feed).provider());
    if let Some(limit) = max_samples {
        lemma_limited_run_stays_below(events, limit, old(monitor).duration_hours, start);
        if forall|i: int|
            0 <= i < events.len() ==> !(#[trigger] events[i] matches RunEvent::Answered(Err(_))) {
            law_limited_run_asks_until_done(
                events,
                limit,
                old(monitor).duration_hours,
                start,
                events.len() + 1,
            );
        }
    }
}

/// Sampling from a feed without a limit reads the clock before each snapshot, takes the snapshot only
/// while less than the hours of the monitor have passed since the start, and ends only when they
/// have passed, when the provider has failed or with the greatest count.
pub proof fn law_timed_sampling_keeps_its_time<P: ProcessSnaphotProvider>(
    monitor: &mut CpuMonitor,
    feed: &mut Feed<P>,
    start: Moment,
    clk_tck: u64,
    i: int,
)
    requires
        call_ensures(CpuMonitor::sample_from::<P>, (monitor, feed, None, &start, clk_tck), ()),
    ensures
        0 <= i < final(feed).events().len() && final(feed).events()[i] is Answered ==> i > 0 && (
        final(feed).events()[i - 1] matches RunEvent::Read(now) && nanos_between(start, now) < old(
            monitor).duration_hours * 3_600_000_000_000),
        final(monitor).total_samples == usize::MAX || (final(feed).events().len() > 0 && match final(
            feed).events().last() {
            RunEvent::Read(now) => nanos_between(start, now) >= old(monitor).duration_hours
                * 3_600_000_000_000,
            RunEvent::Answered(answer) => answer is Err,
        }),
{
    law_timed_run_keeps_its_time(final(feed).events(), old(monitor).duration_hours, start);
}

/// Whether the clock was read when `hours` or more had passed since the start that a text shows.
pub open spec fn time_had_passed(started_at: Seq<char>, hours: u8) -> bool {
    exists|start: Moment, now: Moment, number: nat|
        {
            &&& start.read_as(0)
            &&& started_at == rfc3339_text(start.secs, start.nanos, start.offset)
            &&& number > 0
            &&& #[trigger] now.read_as(number)
            &&& #[trigger] nanos_between(start, now) >= hours * 3_600_000_000_000
        }
}

/// Whether the clock was read when less than `hours` had passed since the start that a text shows.
pub open spec fn time_was_left(started_at: Seq<char>, hours: u8) -> bool {
    exists|start: Moment, now: Moment, number: nat|
        {
            &&& start.read_as(0)
            &&& started_at == rfc3339_text(start.secs, start.nanos, start.offset)
            &&& number > 0
            &&& #[trigger] now.read_as(number)
            &&& #[trigger] nanos_between(start, now) < hours * 3_600_000_000_000
        }
}

/// A run without a limit takes samples only while time is left, and ends only when its hours have
/// passed since its start, when the provider has failed or with the greatest count.
pub proof fn law_timed_run_ends_with_its_time<P: ProcessSnaphotProvider>(
    monitor: &mut CpuMonitor,
    provider: &P,
    res: Result<MonitorReport, MonitorError>,
)
    requires
        call_ensures(CpuMonitor::run::<P>, (monitor, provider, None), res),
    ensures
        res matches Ok(report) && {
            ||| report.total_samples == usize::MAX
            ||| time_had_passed(report.started_at@, old(monitor).duration_hours)
            ||| exists|error: MonitorError| #[trigger]
                call_ensures(P::take_snapshot, (provider,), Err(error))
        },
        res matches Ok(report) && (report.total_samples > 0 ==> time_was_left(
            report.started_at@,
            old(monitor).duration_hours,
        )),
{
    let report = res->Ok_0;
    let hours = old(monitor).duration_hours;
    let (start, clk_tck, events) = choose|start: Moment, clk_tck: u64, events: Seq<RunEvent>|
        #[trigger] ran(*final(monitor), provider, None, start, clk_tck, events);
    assert(ran(*final(monitor), provider, None, start, clk_tck, events));
    law_timed_run_keeps_its_time(events, hours, start);
    if report.total_samples < usize::MAX {
        let last = events.len() - 1;
        match events[last] {
            RunEvent::Read(now) => {
                assert(now.read_as((last + 1) as nat));
                assert(nanos_between(start, now) >= hours * 3_600_000_000_000);
            },
            RunEvent::Answered(answer) => {
                law_answers_are_the_providers(provider, last as nat, answer);
                assert(call_ensures(P::take_snapshot, (provider,), Err(answer->Err_0)));
            },
        }
    }
    if report.total_samples > 0 {
        let i = lemma_some_answer(events);
        let now = events[i - 1]->Read_0;
        assert(now.read_as(i as nat));
        assert(nanos_between(start, now) < hours * 3_600_000_000_000);
    }
}

/// Where there is a sample, there was an answer.
proof fn lemma_some_answer(events: Seq<RunEvent>) -> (i: int)
    requires
        samples_in(events).len() > 0,
    ensures
        0 <= i < events.len(),
        events[i] is Answered,
    decreases events.len(),
{
    let last = events.len() - 1;
    if events[last] is Answered {
        last
    } else {
        lemma_some_answer(events.drop_last())
    }
}

/// A report says what a monitor holds: its settings, its count, each of its groups with its time,
/// and the same groups ranked. It shows the start that the monitor has, or the one that was given
/// where it has none, and the finish that was given.
pub proof fn law_report_says_what_is_held(
    monitor: CpuMonitor,
    fallback: String,
    finish: String,
    report: MonitorReport,
    name: Seq<char>,
    i: int,
    j: int,
)
    requires
        call_ensures(CpuMonitor::report_at, (&monitor, fallback, finish), report),
    ensures
        report.duration_hours == monitor.duration_hours,
        report.total_samples == monitor.total_samples,
        report.finished_at@ == finish@,
        report.started_at@ == match monitor.started_at {
            Some(text) => text@,
            None => fallback@,
        },
        report.groups@.contains_key(name) <==> monitor.group_totals@.contains_key(name),
        report.groups@.contains_key(name) ==> report.groups@[name]
            == monitor.group_totals@[name],
        report.groups@.contains_key(name) <==> exists|k: int|
            0 <= k < report.top_consumers@.len() && (#[trigger] report.top_consumers@[k]).0@
                == name,
        0 <= i < report.top_consumers@.len() ==> report.groups@.contains_key(
            report.top_consumers@[i].0@,
        ) && report.top_consumers@[i].1@ == report.groups@[report.top_consumers@[i].0@],
        0 <= i < j < report.top_consumers@.len() ==> report.top_consumers@[i].0@
            != report.top_consumers@[j].0@ && report.top_consumers@[i].1@
            >= report.top_consumers@[j].1@,
{
    if report.groups@.contains_key(name) {
        law_ranking_leaves_none_out(report.top_consumers@, monitor.group_totals@, name);
    }
}

/// A report that is made now says of a monitor what any report of it says.
pub proof fn law_report_now_says_the_same(
    monitor: CpuMonitor,
    report: MonitorReport,
    name: Seq<char>,
    i: int,
    j: int,
)
    requires
        call_ensures(CpuMonitor::generate_report, (&monitor,), report),
    ensures
        report.duration_hours == monitor.duration_hours,
        report.total_samples == monitor.total_samples,
        match monitor.started_at {
            Some(text) => report.started_at@ == text@,
            None => shows_reading(report.started_at@, 0),
        },
        shows_reading(report.finished_at@, 1),
        report.groups@.contains_key(name) <==> monitor.group_totals@.contains_key(name),
        report.groups@.contains_key(name) ==> report.groups@[name]
            == monitor.group_totals@[name],
        report.groups@.contains_key(name) <==> exists|k: int|
            0 <= k < report.top_consumers@.len() && (#[trigger] report.top_consumers@[k]).0@
                == name,
        0 <= i < report.top_consumers@.len() ==> report.groups@.contains_key(
            report.top_consumers@[i].0@,
        ) && report.top_consumers@[i].1@ == report.groups@[report.top_consumers@[i].0@],
        0 <= i < j < report.top_consumers@.len() ==> report.top_consumers@[i].0@
            != report.top_consumers@[j].0@ && report.top_consumers@[i].1@
            >= report.top_consumers@[j].1@,
{
    let finish = choose|now: Moment| #[trigger]
        now.read_as(1) && report.finished_at@ == rfc3339_of(now);
    assert(finish.read_as(1));
    if monitor.started_at is None {
        let fallback = choose|now: Moment| #[trigger]
            now.read_as(0) && report.started_at@ == rfc3339_of(now);
        assert(fallback.read_as(0));
    }
    if report.groups@.contains_key(name) {
        law_ranking_leaves_none_out(report.top_consumers@, monitor.group_totals@, name);
    }
}

/// Samples are recorded, collected and stepped through as long as they can be counted.
pub proof fn law_samples_are_taken_while_they_can_be_counted<P: ProcessSnaphotProvider>(
    monitor: &mut CpuMonitor,
    provider: &P,
    prev: Option<ProcessSnapshot>,
    cur: ProcessSnapshot,
    clk_tck: u64,
    max_samples: Option<usize>,
)
    ensures
        old(monitor).total_samples < usize::MAX ==> call_requires(
            CpuMonitor::record_sample,
            (monitor, &prev, &cur, clk_tck),
        ) && call_requires(
            CpuMonitor::collect_sample::<P>,
            (monitor, provider, &prev, clk_tck),
        ),
        call_requires(CpuMonitor::run::<P>, (monitor, provider, max_samples)),
{
}

} // verus!
