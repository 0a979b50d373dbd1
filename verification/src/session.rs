//! Monitoring over hours, step by step. What has to wait or to read the process table is done by
//! the caller; each step takes what happened and says what to do next.

use vstd::prelude::*;

use crate::clock::{
    hours_nanos, nanos_of_hours, rate_was_read, rfc3339_of, tick_rate, Moment,
};
use crate::monitor::{processes_of, totals_after, totals_of, CpuMonitor};
use crate::snapshot::{ProcessSnapshot, Processes};

verus! {

/// A monitoring that is under way.
pub struct MonitorSession {
    /// When it began.
    pub start: Moment,
    /// The clock ticks in a second.
    pub clk_tck: u64,
    /// The latest snapshot.
    pub prev: Option<ProcessSnapshot>,
    /// Whether the time is up, so that the next snapshot is the last.
    pub due: bool,
}

/// What happened.
pub enum SessionEvent {
    /// A snapshot was taken.
    Snapshot(ProcessSnapshot),
    /// A snapshot could not be taken.
    SnapshotFailed,
    /// The pause is over, at the given time.
    Woke(Moment),
    /// The user wants to end.
    Interrupted,
}

/// What to do next.
#[derive(Debug, Clone, Copy, PartialEq, Eq, Structural)]
pub enum SessionAction {
    /// Take a snapshot.
    TakeSnapshot,
    /// Pause for a number of seconds.
    Sleep(u64),
    /// End, and report what was found.
    Finish,
    /// End without a report: there was no snapshot to begin with.
    Fail,
}

/// What a session has found so far.
pub struct SessionView {
    pub samples: nat,
    pub totals: Map<Seq<char>, real>,
    pub prev: Option<Processes>,
}

/// What a session has found when it begins.
pub open spec fn session_start() -> SessionView {
    SessionView { samples: 0, totals: Map::empty(), prev: None }
}

/// What a session has found, with the monitor that it keeps its totals in.
pub open spec fn session_view(monitor: CpuMonitor, session: MonitorSession) -> SessionView {
    SessionView {
        samples: monitor.total_samples as nat,
        totals: monitor.group_totals@,
        prev: processes_of(session.prev),
    }
}

/// What a session has found after an event. The first snapshot is what later ones are measured
/// against and is no sample itself. A snapshot that failed is passed over.
pub open spec fn session_after(
    state: SessionView,
    clk_tck: u64,
    event: SessionEvent,
) -> SessionView {
    match event {
        SessionEvent::Snapshot(snapshot) => SessionView {
            samples: if state.prev is Some {
                state.samples + 1
            } else {
                state.samples
            },
            totals: totals_after(state.totals, state.prev, snapshot@, clk_tck),
            prev: Some(snapshot@),
        },
        _ => state,
    }
}

/// Whether a monitoring of `duration_hours` that began at `start` has lasted that long.
pub open spec fn time_is_up(duration_hours: u8, start: Moment, now: Moment) -> bool {
    now.instant() - start.instant() >= hours_nanos(duration_hours)
}

/// Whether the time is up after an event, where `due` says whether it was before.
pub open spec fn due_after(
    duration_hours: u8,
    start: Moment,
    due: bool,
    event: SessionEvent,
) -> bool {
    match event {
        SessionEvent::Woke(now) => time_is_up(duration_hours, start, now),
        _ => due,
    }
}

/// What to do after an event. Each pause is followed by a snapshot, and each snapshot by a pause
/// of `interval` seconds until the time is up: the snapshot that is taken then is the last.
/// Without a first snapshot there is nothing to measure against, and the session fails.
pub open spec fn action_after(
    interval: u16,
    begun: bool,
    due: bool,
    event: SessionEvent,
) -> SessionAction {
    match event {
        SessionEvent::Snapshot(_) => if due {
            SessionAction::Finish
        } else {
            SessionAction::Sleep(interval as u64)
        },
        SessionEvent::SnapshotFailed => if !begun {
            SessionAction::Fail
        } else if due {
            SessionAction::Finish
        } else {
            SessionAction::Sleep(interval as u64)
        },
        SessionEvent::Woke(_) => SessionAction::TakeSnapshot,
        SessionEvent::Interrupted => SessionAction::Finish,
    }
}

impl CpuMonitor {
    /// Forgets all samples and begins a session now. The first thing to do is to take a snapshot.
    pub fn begin_session(&mut self) -> (res: MonitorSession)
        ensures
            final(self).duration_hours == old(self).duration_hours,
            final(self).interval == old(self).interval,
            final(self).started_at matches Some(text) && text@ == rfc3339_of(res.start),
            res.start.read_as(0),
            res.start.valid(),
            rate_was_read(res.clk_tck),
            session_view(*final(self), res) == session_start(),
            res.due == time_is_up(old(self).duration_hours, res.start, res.start),
    {
        let start: Moment = Moment::now();
        self.begin(&start);
        MonitorSession { start, clk_tck: tick_rate(), prev: None, due: self.duration_hours == 0 }
    }

    /// Takes what happened and says what to do next.
    pub fn step(&mut self, session: &mut MonitorSession, event: SessionEvent) -> (res:
        SessionAction)
        requires
            event is Snapshot && old(session).prev is Some ==> old(self).total_samples
                < usize::MAX,
        ensures
            final(self).duration_hours == old(self).duration_hours,
            final(self).interval == old(self).interval,
            final(self).started_at == old(self).started_at,
            final(session).start == old(session).start,
            final(session).clk_tck == old(session).clk_tck,
            session_view(*final(self), *final(session)) == session_after(
                session_view(*old(self), *old(session)),
                old(session).clk_tck,
                event,
            ),
            final(session).due == due_after(
                old(self).duration_hours,
                old(session).start,
                old(session).due,
                event,
            ),
            match event {
                SessionEvent::Snapshot(snapshot) => final(session).prev == Some(snapshot),
                _ => *final(self) == *old(self) && final(session).prev == old(session).prev,
            },
            res == action_after(
                old(self).interval,
                old(session).prev is Some,
                old(session).due,
                event,
            ),
    {
        match event {
            SessionEvent::Snapshot(snapshot) => {
                if session.prev.is_some() {
                    self.record_sample(&session.prev, &snapshot, session.clk_tck);
                }
                session.prev = Some(snapshot);
                if session.due {
                    SessionAction::Finish
                } else {
                    SessionAction::Sleep(self.interval as u64)
                }
            },
            SessionEvent::SnapshotFailed => {
                if session.prev.is_none() {
                    SessionAction::Fail
                } else if session.due {
                    SessionAction::Finish
                } else {
                    SessionAction::Sleep(self.interval as u64)
                }
            },
            SessionEvent::Woke(now) => {
                session.due = now.nanos_since(&session.start) >= nanos_of_hours(
                    self.duration_hours,
                );
                SessionAction::TakeSnapshot
            },
            SessionEvent::Interrupted => SessionAction::Finish,
        }
    }
}

/// What a session has found after a row of events.
pub open spec fn session_after_all(clk_tck: u64, events: Seq<SessionEvent>) -> SessionView
    decreases events.len(),
{
    if events.len() == 0 {
        session_start()
    } else {
        session_after(session_after_all(clk_tck, events.drop_last()), clk_tck, events.last())
    }
}

/// The snapshots among a row of events.
pub open spec fn snapshots_in(events: Seq<SessionEvent>) -> Seq<Processes>
    decreases events.len(),
{
    if events.len() == 0 {
        Seq::empty()
    } else {
        match events.last() {
            SessionEvent::Snapshot(snapshot) => snapshots_in(events.drop_last()).push(snapshot@),
            _ => snapshots_in(events.drop_last()),
        }
    }
}

/// Whether the time of a session is up after a row of events. One of no hours has no time at all.
pub open spec fn due_in(duration_hours: u8, start: Moment, events: Seq<SessionEvent>) -> bool
    decreases events.len(),
{
    if events.len() == 0 {
        time_is_up(duration_hours, start, start)
    } else {
        due_after(
            duration_hours,
            start,
            due_in(duration_hours, start, events.drop_last()),
            events.last(),
        )
    }
}

/// What a session does next after a row of events.
pub open spec fn session_action(
    interval: u16,
    duration_hours: u8,
    start: Moment,
    events: Seq<SessionEvent>,
) -> SessionAction {
    if events.len() == 0 {
        SessionAction::TakeSnapshot
    } else {
        action_after(
            interval,
            snapshots_in(events.drop_last()).len() > 0,
            due_in(duration_hours, start, events.drop_last()),
            events.last(),
        )
    }
}

/// Whether an event is what an action leads to.
pub open spec fn suits(action: SessionAction, event: SessionEvent) -> bool {
    match event {
        SessionEvent::Snapshot(_) | SessionEvent::SnapshotFailed => action is TakeSnapshot,
        SessionEvent::Woke(_) | SessionEvent::Interrupted => action is Sleep,
    }
}

/// Whether the event at `i` is what the session did after those before it.
pub open spec fn suits_at(
    interval: u16,
    duration_hours: u8,
    start: Moment,
    events: Seq<SessionEvent>,
    i: int,
) -> bool {
    suits(session_action(interval, duration_hours, start, events.take(i)), events[i])
}

/// Whether a row of events is a session from its beginning to its end.
pub open spec fn is_session(
    interval: u16,
    duration_hours: u8,
    start: Moment,
    events: Seq<SessionEvent>,
) -> bool {
    &&& forall|i: int|
        0 <= i < events.len() ==> #[trigger] suits_at(interval, duration_hours, start, events, i)
    &&& session_action(interval, duration_hours, start, events) is Finish || session_action(
        interval,
        duration_hours,
        start,
        events,
    ) is Fail
}

/// Whenever a session ends, its totals are those of the snapshots that were taken, each measured
/// against the one before it: failed snapshots, pauses and an interruption change nothing. Every
/// snapshot but the first is a sample.
pub proof fn law_session_counts_snapshots_only(clk_tck: u64, events: Seq<SessionEvent>)
    ensures
        session_after_all(clk_tck, events).totals == totals_of(snapshots_in(events), clk_tck),
        session_after_all(clk_tck, events).samples == if snapshots_in(events).len() == 0 {
            0
        } else {
            snapshots_in(events).len() - 1
        },
        session_after_all(clk_tck, events).prev == if snapshots_in(events).len() == 0 {
            None
        } else {
            Some(snapshots_in(events).last())
        },
    decreases events.len(),
{
    if events.len() > 0 {
        let init = events.drop_last();
        law_session_counts_snapshots_only(clk_tck, init);
        if let SessionEvent::Snapshot(snapshot) = events.last() {
            let row = snapshots_in(events);
            assert(row.drop_last() =~= snapshots_in(init));
            if snapshots_in(init).len() > 0 {
                assert(row[row.len() - 2] == snapshots_in(init).last());
            }
        }
    }
}

} // verus!
