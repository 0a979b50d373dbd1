//! What the steps of a session and of a run give, told by what goes into them and what comes out of
//! them.

use vstd::prelude::*;

use crate::clock::{rate_was_read, rfc3339_text, Moment};
use crate::feed::{
    law_answers_are_the_providers, next_request, Feed, RunEvent, RunRequest, RunStage,
};
use crate::monitor::{CpuMonitor, MonitorError, ProcessSnaphotProvider};
use crate::session::{MonitorSession, SessionAction, SessionEvent};
use crate::snapshot::ProcessSnapshot;

verus! {

/// The nanoseconds from one moment to another.
pub open spec fn nanos_between(from: Moment, to: Moment) -> int {
    (to.secs - from.secs) * 1_000_000_000 + to.nanos - from.nanos
}

/// A session begins with what the monitor is set to, with nothing found and with no snapshot. Only
/// one of no hours is due at once.
pub proof fn law_session_begins_with_nothing(
    monitor: &mut CpuMonitor,
    session: MonitorSession,
    name: Seq<char>,
)
    requires
        call_ensures(CpuMonitor::begin_session, (monitor,), session),
    ensures
        session.prev is None,
        session.start.read_as(0),
        rate_was_read(session.clk_tck),
        session.due <==> old(monitor).duration_hours == 0,
        final(monitor).total_samples == 0,
        !final(monitor).group_totals@.contains_key(name),
        final(monitor).duration_hours == old(monitor).duration_hours,
        final(monitor).interval == old(monitor).interval,
        final(monitor).started_at matches Some(text) && text@ == rfc3339_text(
            session.start.secs,
            session.start.nanos,
            session.start.offset,
        ),
{
}

/// Whenever a session pauses, it pauses for exactly the interval of its monitor, whatever that is.
pub proof fn law_pause_is_the_interval(
    monitor: &mut CpuMonitor,
    session: &mut MonitorSession,
    event: SessionEvent,
    action: SessionAction,
)
    requires
        call_ensures(CpuMonitor::step, (monitor, session, event), action),
    ensures
        action matches SessionAction::Sleep(seconds) ==> seconds == old(monitor).interval,
{
}

/// After a pause comes a snapshot. After a snapshot comes a pause while the session is not due, and
/// the end once it is; a failed snapshot counts as one, unless there was none before it. An
/// interruption ends the session.
pub proof fn law_snapshots_and_pauses_follow_each_other(
    monitor: &mut CpuMonitor,
    session: &mut MonitorSession,
    event: SessionEvent,
    action: SessionAction,
)
    requires
        call_ensures(CpuMonitor::step, (monitor, session, event), action),
    ensures
        event is Woke <==> action is TakeSnapshot,
        event is Interrupted ==> action is Finish,
        event is Snapshot ==> (action is Finish <==> old(session).due) && (action is Sleep
            <==> !old(session).due),
        event is SnapshotFailed ==> (action is Fail <==> old(session).prev is None) && (action
            is Finish <==> old(session).prev is Some && old(session).due) && (action is Sleep
            <==> old(session).prev is Some && !old(session).due),
{
}

/// A session becomes due with the first wake that is its hours or more after its start, and its
/// start, its clock rate and the settings of its monitor never change.
pub proof fn law_session_is_due_after_its_hours(
    monitor: &mut CpuMonitor,
    session: &mut MonitorSession,
    event: SessionEvent,
    action: SessionAction,
)
    requires
        call_ensures(CpuMonitor::step, (monitor, session, event), action),
    ensures
        event matches SessionEvent::Woke(now) ==> (final(session).due <==> nanos_between(
            old(session).start,
            now,
        ) >= old(monitor).duration_hours * 3_600_000_000_000),
        event !is Woke ==> final(session).due == old(session).due,
        final(session).start == old(session).start,
        final(session).clk_tck == old(session).clk_tck,
        final(monitor).duration_hours == old(monitor).duration_hours,
        final(monitor).interval == old(monitor).interval,
        final(monitor).started_at == old(monitor).started_at,
{
}

/// The first snapshot of a session is kept to measure against and adds nothing. Each later one is
/// recorded as a sample that follows the one before it. What is no snapshot changes nothing that
/// was found.
pub proof fn law_session_records_its_snapshots(
    stepping: &mut CpuMonitor,
    session: &mut MonitorSession,
    event: SessionEvent,
    action: SessionAction,
    recording: &mut CpuMonitor,
    snapshot: ProcessSnapshot,
)
    requires
        call_ensures(CpuMonitor::step, (stepping, session, event), action),
        call_ensures(
            CpuMonitor::record_sample,
            (recording, &old(session).prev, &snapshot, old(session).clk_tck),
            (),
        ),
        *old(recording) == *old(stepping),
    ensures
        event matches SessionEvent::Snapshot(given) ==> final(session).prev == Some(given),
        event !is Snapshot ==> final(session).prev == old(session).prev && *final(stepping)
            == *old(stepping),
        event is Snapshot && old(session).prev is None ==> final(stepping).total_samples == old(
            stepping).total_samples && final(stepping).group_totals@ == old(
            stepping).group_totals@,
        event == SessionEvent::Snapshot(snapshot) && old(session).prev is Some ==> final(
            stepping).total_samples == final(recording).total_samples && final(
            stepping).group_totals@ == final(recording).group_totals@,
{
}

/// A run with a limit asks for snapshots, never for the time, until it has as many as the limit says
/// or the provider has failed.
pub proof fn law_limited_run_asks_for_snapshots(
    limit: usize,
    duration_hours: u8,
    start: Moment,
    count: usize,
    stage: RunStage,
    res: RunRequest,
)
    requires
        call_ensures(next_request, (Some(limit), duration_hours, &start, count, stage), res),
    ensures
        res is TakeSnapshot <==> count < limit && stage !is Failed,
        res is Stop <==> count >= limit || stage is Failed,
{
}

/// A run without a limit asks for the time before each snapshot, and for the snapshot exactly while
/// less than its hours have passed since its start. It ends when they have, when the provider has
/// failed, or with the greatest count.
pub proof fn law_timed_run_asks_for_the_time(
    duration_hours: u8,
    start: Moment,
    count: usize,
    stage: RunStage,
    res: RunRequest,
)
    requires
        call_ensures(next_request, (None, duration_hours, &start, count, stage), res),
    ensures
        stage is Failed ==> res is Stop,
        count == usize::MAX ==> res is Stop,
        count < usize::MAX && stage is Sampling ==> res is ReadClock,
        count < usize::MAX ==> (stage matches RunStage::Timed(now) ==> res == if nanos_between(
            start,
            now,
        ) < duration_hours * 3_600_000_000_000 {
            RunRequest::TakeSnapshot
        } else {
            RunRequest::Stop
        }),
{
}

/// A feed hands on what the provider says, writes each answer and each reading down behind what came
/// before, and begins with nothing.
pub proof fn law_feed_writes_down_what_it_hands_on<P: ProcessSnaphotProvider>(
    provider: &P,
    new: Feed<P>,
    asked: &mut Feed<P>,
    answer: Result<ProcessSnapshot, MonitorError>,
    read: &mut Feed<P>,
    now: Moment,
)
    requires
        call_ensures(Feed::<P>::new, (provider,), new),
        call_ensures(Feed::<P>::ask, (asked,), answer),
        call_ensures(Feed::<P>::read_clock, (read,), now),
    ensures
        new.events() == Seq::<RunEvent>::empty(),
        new.provider() == provider,
        final(asked).events() == old(asked).events().push(RunEvent::Answered(answer)),
        call_ensures(P::take_snapshot, (old(asked).provider(),), answer),
        final(read).events() == old(read).events().push(RunEvent::Read(now)),
{
    law_answers_are_the_providers(
        old(asked).provider(),
        old(asked).events().len(),
        answer,
    );
}

/// A session takes every event as long as samples can be counted, and all but a snapshot even then.
pub proof fn law_session_takes_every_event(
    monitor: &mut CpuMonitor,
    session: &mut MonitorSession,
    event: SessionEvent,
)
    ensures
        old(monitor).total_samples < usize::MAX || event !is Snapshot ==> call_requires(
            CpuMonitor::step,
            (monitor, session, event),
        ),
{
}

} // verus!
