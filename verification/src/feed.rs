//! What a run of the monitor asks of the world around it, in the order in which it asks, and when
//! it asks for what.

use vstd::prelude::*;

use crate::clock::{hours_nanos, nanos_of_hours, Moment};
use crate::monitor::{MonitorError, ProcessSnaphotProvider};
use crate::snapshot::{ProcessSnapshot, Processes};

verus! {

/// Something that a run asked for and got.
pub enum RunEvent {
    /// The clock showed a moment.
    Read(Moment),
    /// The provider gave a snapshot, or said why there was none.
    Answered(Result<ProcessSnapshot, MonitorError>),
}

/// Where a run stands.
#[derive(Debug, Clone, Copy, PartialEq, Eq, Structural)]
pub enum RunStage {
    /// It has just begun or has just got a snapshot.
    Sampling,
    /// It has just read the clock.
    Timed(Moment),
    /// The provider has failed.
    Failed,
}

/// What a run asks for next.
#[derive(Debug, Clone, Copy, PartialEq, Eq, Structural)]
pub enum RunRequest {
    /// What time it is.
    ReadClock,
    /// A snapshot.
    TakeSnapshot,
    /// Nothing more: it ends.
    Stop,
}

/// What a run that began at `start` and has taken `count` samples asks for next. With a limit it
/// takes samples until there are as many, and never looks at the clock. Without one it reads the
/// clock before each sample and takes the sample if less than `duration_hours` have passed; the
/// count of samples has a greatest value, and there it ends too. A provider that failed ends it
/// either way.
pub open spec fn request_at(
    max_samples: Option<usize>,
    duration_hours: u8,
    start: Moment,
    count: nat,
    stage: RunStage,
) -> RunRequest {
    match (max_samples, stage) {
        (_, RunStage::Failed) => RunRequest::Stop,
        (Some(limit), _) => if count < limit {
            RunRequest::TakeSnapshot
        } else {
            RunRequest::Stop
        },
        (None, RunStage::Timed(now)) => if count < usize::MAX && now.instant() - start.instant()
            < hours_nanos(duration_hours) {
            RunRequest::TakeSnapshot
        } else {
            RunRequest::Stop
        },
        (None, RunStage::Sampling) => if count < usize::MAX {
            RunRequest::ReadClock
        } else {
            RunRequest::Stop
        },
    }
}

/// What a run that began at `start` and has taken `count` samples asks for next.
pub fn next_request(
    max_samples: Option<usize>,
    duration_hours: u8,
    start: &Moment,
    count: usize,
    stage: RunStage,
) -> (res: RunRequest)
    ensures
        res == request_at(max_samples, duration_hours, *start, count as nat, stage),
{
    let limit: usize = match max_samples {
        Some(limit) => limit,
        None => usize::MAX,
    };
    if count >= limit {
        return RunRequest::Stop;
    }
    match stage {
        RunStage::Failed => RunRequest::Stop,
        RunStage::Timed(now) => {
            if max_samples.is_none() && now.nanos_since(start) >= nanos_of_hours(duration_hours) {
                RunRequest::Stop
            } else {
                RunRequest::TakeSnapshot
            }
        },
        RunStage::Sampling => {
            if max_samples.is_none() {
                RunRequest::ReadClock
            } else {
                RunRequest::TakeSnapshot
            }
        },
    }
}

/// Where a run stands after a row of events.
pub open spec fn stage_of(events: Seq<RunEvent>) -> RunStage {
    if events.len() == 0 {
        RunStage::Sampling
    } else {
        match events.last() {
            RunEvent::Read(now) => RunStage::Timed(now),
            RunEvent::Answered(Ok(_)) => RunStage::Sampling,
            RunEvent::Answered(Err(_)) => RunStage::Failed,
        }
    }
}

/// The samples among a row of events: the processes of each snapshot that the provider gave.
pub open spec fn samples_in(events: Seq<RunEvent>) -> Seq<Processes>
    decreases events.len(),
{
    if events.len() == 0 {
        Seq::empty()
    } else {
        match events.last() {
            RunEvent::Answered(Ok(snapshot)) => samples_in(events.drop_last()).push(snapshot@),
            _ => samples_in(events.drop_last()),
        }
    }
}

/// What a run asks for next after a row of events.
pub open spec fn request_after(
    events: Seq<RunEvent>,
    max_samples: Option<usize>,
    duration_hours: u8,
    start: Moment,
) -> RunRequest {
    request_at(max_samples, duration_hours, start, samples_in(events).len(), stage_of(events))
}

/// Whether an event is what a request leads to.
pub open spec fn meets(request: RunRequest, event: RunEvent) -> bool {
    match event {
        RunEvent::Read(_) => request is ReadClock,
        RunEvent::Answered(_) => request is TakeSnapshot,
    }
}

/// Whether the event at `i` is what the run asked for after those before it.
pub open spec fn met_at(
    events: Seq<RunEvent>,
    max_samples: Option<usize>,
    duration_hours: u8,
    start: Moment,
    i: int,
) -> bool {
    meets(request_after(events.take(i), max_samples, duration_hours, start), events[i])
}

/// Whether each event of a row is what the run asked for after those before it.
pub open spec fn is_run_so_far(
    events: Seq<RunEvent>,
    max_samples: Option<usize>,
    duration_hours: u8,
    start: Moment,
) -> bool {
    forall|i: int|
        0 <= i < events.len() ==> #[trigger] met_at(events, max_samples, duration_hours, start, i)
}

/// Whether a row of events is a run from its beginning to its end.
pub open spec fn is_run(
    events: Seq<RunEvent>,
    max_samples: Option<usize>,
    duration_hours: u8,
    start: Moment,
) -> bool {
    &&& is_run_so_far(events, max_samples, duration_hours, start)
    &&& request_after(events, max_samples, duration_hours, start) is Stop
}

/// Asks the provider for a snapshot. The number tells the questions of one caller apart.
fn answer_to<P: ProcessSnaphotProvider>(provider: &P, _number: Ghost<nat>) -> (res: Result<
    ProcessSnapshot,
    MonitorError,
>)
    ensures
        call_ensures(P::take_snapshot, (provider,), res),
{
    provider.take_snapshot()
}

/// Whether `answer` is what the provider gave when it was asked the question numbered `number`.
pub closed spec fn answered<P: ProcessSnaphotProvider>(
    provider: &P,
    number: nat,
    answer: Result<ProcessSnapshot, MonitorError>,
) -> bool {
    call_ensures(answer_to::<P>, (provider, Ghost(number)), answer)
}

/// What was answered is something that the provider can give.
pub proof fn law_answers_are_the_providers<P: ProcessSnaphotProvider>(
    provider: &P,
    number: nat,
    answer: Result<ProcessSnapshot, MonitorError>,
)
    requires
        answered(provider, number, answer),
    ensures
        call_ensures(P::take_snapshot, (provider,), answer),
{
}

/// Whether each event of a row is the answer to a question of its own: the provider and the clock
/// were asked once for each, in this order. The clock was read once more before them all. Of
/// questions that were put to the provider or the clock past the feed, and whose answers were
/// dropped, nothing is said.
pub open spec fn came_from<P: ProcessSnaphotProvider>(
    events: Seq<RunEvent>,
    provider: &P,
) -> bool {
    forall|i: int|
        0 <= i < events.len() ==> match #[trigger] events[i] {
            RunEvent::Read(now) => now.read_as((i + 1) as nat),
            RunEvent::Answered(answer) => answered(provider, i as nat, answer),
        }
}

/// What a run gets from a provider and from the clock. It keeps no record when the program runs;
/// the record is what contracts speak of. It holds what was asked through the feed and nothing
/// that was asked past it.
pub struct Feed<'a, P: ProcessSnaphotProvider> {
    provider: &'a P,
    record: Ghost<Seq<RunEvent>>,
}

impl<'a, P: ProcessSnaphotProvider> Feed<'a, P> {
    /// The provider that is asked for snapshots.
    pub closed spec fn provider(self) -> &'a P {
        self.provider
    }

    /// All that was got so far, in the order in which it came.
    pub closed spec fn events(self) -> Seq<RunEvent> {
        self.record@
    }

    /// A feed of which nothing was asked yet.
    pub fn new(provider: &'a P) -> (res: Self)
        ensures
            res.provider() == provider,
            res.events().len() == 0,
    {
        Feed { provider, record: Ghost(Seq::empty()) }
    }

    /// Asks the provider for a snapshot.
    pub fn ask(&mut self) -> (res: Result<ProcessSnapshot, MonitorError>)
        ensures
            final(self).provider() == old(self).provider(),
            final(self).events() == old(self).events().push(RunEvent::Answered(res)),
            answered(old(self).provider(), old(self).events().len(), res),
    {
        let res: Result<ProcessSnapshot, MonitorError> = answer_to(
            self.provider,
            Ghost(self.record@.len()),
        );
        self.record = Ghost(self.record@.push(RunEvent::Answered(res)));
        res
    }

    /// Reads the clock.
    pub fn read_clock(&mut self) -> (res: Moment)
        ensures
            final(self).provider() == old(self).provider(),
            final(self).events() == old(self).events().push(RunEvent::Read(res)),
            res.read_as(old(self).events().len() + 1),
            res.valid(),
    {
        let res: Moment = Moment::reading(Ghost(self.record@.len() + 1));
        self.record = Ghost(self.record@.push(RunEvent::Read(res)));
        res
    }
}

} // verus!
