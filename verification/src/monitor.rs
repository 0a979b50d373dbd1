//! The monitor: it takes samples, keeps the totals by group, and reports them.

use vstd::prelude::*;

use crate::clock::{rate_was_read, rfc3339_of, tick_rate, Moment};
use crate::feed::{
    came_from, is_run, is_run_so_far, met_at, next_request, request_after, samples_in, stage_of,
    Feed, RunEvent, RunRequest, RunStage,
};
use crate::groups::{is_ranking, map_total, merged, GroupTotals};
use crate::seconds::CpuSeconds;
use crate::snapshot::{
    law_listing_order_does_not_matter, usage_between, ProcessDelta, ProcessSnapshot, Processes,
};

verus! {

/// Why a snapshot could not be taken.
#[derive(Debug, Clone)]
pub struct MonitorError {
    pub message: String,
}

impl MonitorError {
    /// The error as it is shown.
    pub fn to_string(&self) -> (res: String)
        ensures
            res@ == self.message@,
    {
        self.message.clone()
    }
}

/// What a monitor has found.
#[derive(Debug, Clone)]
pub struct MonitorReport {
    pub duration_hours: u8,
    pub total_samples: usize,
    pub started_at: String,
    pub finished_at: String,
    pub groups: GroupTotals,
    pub top_consumers: Vec<(String, CpuSeconds)>,
}

/// Takes snapshots of the process table.
pub trait ProcessSnaphotProvider {
    fn take_snapshot(&self) -> Result<ProcessSnapshot, MonitorError>;
}

/// Keeps the CPU time of the host's processes by group.
pub struct CpuMonitor {
    /// For how many hours to monitor.
    pub duration_hours: u8,
    /// How many seconds lie between two samples.
    pub interval: u16,
    /// How many samples were taken.
    pub total_samples: usize,
    /// The CPU time by group.
    pub group_totals: GroupTotals,
    /// When monitoring began.
    pub started_at: Option<String>,
}

/// The processes of a snapshot, if there is one.
pub open spec fn processes_of(snapshot: Option<ProcessSnapshot>) -> Option<Processes> {
    match snapshot {
        Some(s) => Some(s@),
        None => None,
    }
}

/// The totals after a sample `cur` that follows the sample `prev`. A sample that follows none adds
/// nothing.
pub open spec fn totals_after(
    totals: Map<Seq<char>, real>,
    prev: Option<Processes>,
    cur: Processes,
    clk_tck: u64,
) -> Map<Seq<char>, real> {
    match prev {
        Some(prev) => merged(totals, usage_between(cur, prev, clk_tck)),
        None => totals,
    }
}

/// Whether a monitor differs from what it was by one sample `cur` that follows the sample `prev`.
pub open spec fn sampled(
    before: CpuMonitor,
    after: CpuMonitor,
    prev: Option<Processes>,
    cur: Processes,
    clk_tck: u64,
) -> bool {
    &&& after.duration_hours == before.duration_hours
    &&& after.interval == before.interval
    &&& after.started_at == before.started_at
    &&& after.total_samples == before.total_samples + 1
    &&& after.group_totals@ == totals_after(before.group_totals@, prev, cur, clk_tck)
}

/// Whether a report says what a monitor holds. When it was made is left open.
pub open spec fn reports(report: MonitorReport, monitor: CpuMonitor) -> bool {
    &&& report.duration_hours == monitor.duration_hours
    &&& report.total_samples == monitor.total_samples
    &&& monitor.started_at matches Some(text) ==> report.started_at@ == text@
    &&& report.groups@ == monitor.group_totals@
    &&& is_ranking(report.top_consumers@, monitor.group_totals@)
}

/// Whether a text is the RFC 3339 form of the reading of the clock numbered `number`.
pub open spec fn is_clock_text(text: Seq<char>, number: nat) -> bool {
    exists|now: Moment| #[trigger] now.read_as(number) && text == rfc3339_of(now)
}

/// The totals after a row of samples, from none.
pub open spec fn totals_of(samples: Seq<Processes>, clk_tck: u64) -> Map<Seq<char>, real>
    decreases samples.len(),
{
    if samples.len() < 2 {
        Map::empty()
    } else {
        merged(
            totals_of(samples.drop_last(), clk_tck),
            usage_between(samples.last(), samples[samples.len() - 2], clk_tck),
        )
    }
}

/// Whether a monitor holds the samples of a row of events and nothing else.
pub open spec fn holds_samples(monitor: CpuMonitor, events: Seq<RunEvent>, clk_tck: u64) -> bool {
    &&& monitor.total_samples == samples_in(events).len()
    &&& monitor.group_totals@ == totals_of(samples_in(events), clk_tck)
}

/// Whether a monitor is what a run from `start` leaves, in which `events` came from the provider
/// and from the clock.
pub open spec fn ran<P: ProcessSnaphotProvider>(
    monitor: CpuMonitor,
    provider: &P,
    max_samples: Option<usize>,
    start: Moment,
    clk_tck: u64,
    events: Seq<RunEvent>,
) -> bool {
    &&& start.read_as(0)
    &&& rate_was_read(clk_tck)
    &&& came_from(events, provider)
    &&& is_run(events, max_samples, monitor.duration_hours, start)
    &&& monitor.started_at matches Some(text) && text@ == rfc3339_of(start)
    &&& holds_samples(monitor, events, clk_tck)
}

/// How many more events a run can get at a stage before it takes a sample or ends.
spec fn stage_rank(stage: RunStage) -> nat {
    match stage {
        RunStage::Sampling => 2,
        RunStage::Timed(_) => 1,
        RunStage::Failed => 0,
    }
}

impl CpuMonitor {
    /// A monitor that has not begun.
    pub fn new(duration_hours: u8, interval: u16) -> (res: Self)
        ensures
            res.duration_hours == duration_hours,
            res.interval == interval,
            res.total_samples == 0,
            res.group_totals@ == Map::<Seq<char>, real>::empty(),
            res.started_at is None,
    {
        CpuMonitor {
            duration_hours,
            interval,
            total_samples: 0,
            group_totals: GroupTotals::new(),
            started_at: None,
        }
    }

    /// Forgets all samples and when monitoring began.
    pub fn reset(&mut self)
        ensures
            final(self).duration_hours == old(self).duration_hours,
            final(self).interval == old(self).interval,
            final(self).total_samples == 0,
            final(self).group_totals@ == Map::<Seq<char>, real>::empty(),
            final(self).started_at is None,
    {
        self.started_at = None;
        self.total_samples = 0;
        self.group_totals = GroupTotals::new();
    }

    /// The CPU time of all groups together.
    pub fn total_cpu_seconds(&self) -> (res: CpuSeconds)
        ensures
            res@ == map_total(self.group_totals@),
    {
        self.group_totals.total()
    }

    /// Forgets all samples and begins at `start`.
    pub fn begin(&mut self, start: &Moment)
        requires
            start.valid(),
        ensures
            final(self).duration_hours == old(self).duration_hours,
            final(self).interval == old(self).interval,
            final(self).total_samples == 0,
            final(self).group_totals@ == Map::<Seq<char>, real>::empty(),
            final(self).started_at matches Some(text) && text@ == rfc3339_of(*start),
    {
        self.started_at = Some(start.to_rfc3339());
        self.group_totals = GroupTotals::new();
        self.total_samples = 0;
    }

    /// Counts the sample `curr` and adds the CPU time used since `prev_snapshot` to the totals.
    pub fn record_sample(
        &mut self,
        prev_snapshot: &Option<ProcessSnapshot>,
        curr: &ProcessSnapshot,
        clk_tck: u64,
    )
        requires
            old(self).total_samples < usize::MAX,
        ensures
            sampled(*old(self), *final(self), processes_of(*prev_snapshot), curr@, clk_tck),
    {
        self.total_samples = self.total_samples + 1;
        if let Some(prev) = prev_snapshot {
            let deltas: Vec<ProcessDelta> = curr.calculate_classified_deltas(prev, clk_tck);
            let aggregated: GroupTotals = ProcessSnapshot::aggregate_by_group(deltas.as_slice());
            proof {
                law_listing_order_does_not_matter(deltas@, curr@, prev@, clk_tck);
            }
            self.group_totals.absorb(&aggregated);
        }
    }

    /// Takes a snapshot, counts it and adds the CPU time used since `prev_snapshot` to the totals.
    /// Where no snapshot can be had, nothing changes.
    pub fn collect_sample<P: ProcessSnaphotProvider>(
        &mut self,
        provider: &P,
        prev_snapshot: &Option<ProcessSnapshot>,
        clk_tck: u64,
    ) -> (res: Result<Option<ProcessSnapshot>, MonitorError>)
        requires
            old(self).total_samples < usize::MAX,
        ensures
            match res {
                Ok(Some(curr)) => call_ensures(P::take_snapshot, (provider,), Ok(curr)) && sampled(
                    *old(self),
                    *final(self),
                    processes_of(*prev_snapshot),
                    curr@,
                    clk_tck,
                ),
                Ok(None) => false,
                Err(error) => call_ensures(P::take_snapshot, (provider,), Err(error))
                    && *final(self) == *old(self),
            },
    {
        match provider.take_snapshot() {
            Ok(curr_snapshot) => {
                self.record_sample(prev_snapshot, &curr_snapshot, clk_tck);
                Ok(Some(curr_snapshot))
            },
            Err(error) => Err(error),
        }
    }

    /// Takes samples from a feed until there are `max_samples` of them or the provider fails.
    /// Without `max_samples` it takes samples until the monitor's time since `start` is up or the
    /// provider fails.
    pub fn sample_from<P: ProcessSnaphotProvider>(
        &mut self,
        feed: &mut Feed<P>,
        max_samples: Option<usize>,
        start: &Moment,
        clk_tck: u64,
    )
        requires
            old(self).total_samples == 0,
            old(self).group_totals@ == Map::<Seq<char>, real>::empty(),
            old(feed).events().len() == 0,
        ensures
            final(self).duration_hours == old(self).duration_hours,
            final(self).interval == old(self).interval,
            final(self).started_at == old(self).started_at,
            final(feed).provider() == old(feed).provider(),
            came_from(final(feed).events(), old(feed).provider()),
            is_run(final(feed).events(), max_samples, old(self).duration_hours, *start),
            holds_samples(*final(self), final(feed).events(), clk_tck),
    {
        let mut prev_snapshot: Option<ProcessSnapshot> = None;
        let mut stage: RunStage = RunStage::Sampling;
        loop
            invariant
                self.duration_hours == old(self).duration_hours,
                self.interval == old(self).interval,
                self.started_at == old(self).started_at,
                feed.provider() == old(feed).provider(),
                came_from(feed.events(), old(feed).provider()),
                is_run_so_far(feed.events(), max_samples, old(self).duration_hours, *start),
                holds_samples(*self, feed.events(), clk_tck),
                stage == stage_of(feed.events()),
                samples_in(feed.events()).len() == 0 <==> prev_snapshot is None,
                prev_snapshot matches Some(s) ==> s@ == samples_in(feed.events()).last(),
            ensures
                request_after(
                    feed.events(),
                    max_samples,
                    old(self).duration_hours,
                    *start,
                ) is Stop,
            decreases usize::MAX - self.total_samples, stage_rank(stage),
        {
            let ghost events = feed.events();
            let request: RunRequest = next_request(
                max_samples,
                self.duration_hours,
                start,
                self.total_samples,
                stage,
            );
            match request {
                RunRequest::Stop => {
                    break;
                },
                RunRequest::ReadClock => {
                    stage = RunStage::Timed(feed.read_clock());
                },
                RunRequest::TakeSnapshot => match feed.ask() {
                    Ok(snapshot) => {
                        self.record_sample(&prev_snapshot, &snapshot, clk_tck);
                        prev_snapshot = Some(snapshot);
                        stage = RunStage::Sampling;
                    },
                    Err(_) => {
                        stage = RunStage::Failed;
                    },
                },
            }
            proof {
                let next = feed.events();
                assert(next.drop_last() =~= events);
                let hours = old(self).duration_hours;
                assert forall|i: int| 0 <= i < next.len() implies #[trigger] met_at(
                    next,
                    max_samples,
                    hours,
                    *start,
                    i,
                ) by {
                    assert(next.take(i) =~= events.take(i));
                    if i == events.len() {
                        assert(events.take(i) =~= events);
                    } else {
                        assert(met_at(events, max_samples, hours, *start, i));
                    }
                }
                let row = samples_in(next);
                if row.len() > samples_in(events).len() {
                    assert(row.drop_last() =~= samples_in(events));
                }
            }
        }
    }

    /// Begins anew and takes samples until there are `max_samples` of them or the provider fails.
    /// Without `max_samples` it takes samples until the monitor's time is up or the provider
    /// fails. Either way the samples that were taken are reported.
    pub fn run<P: ProcessSnaphotProvider>(
        &mut self,
        provider: &P,
        max_samples: Option<usize>,
    ) -> (res: Result<MonitorReport, MonitorError>)
        ensures
            final(self).duration_hours == old(self).duration_hours,
            final(self).interval == old(self).interval,
            res matches Ok(report) && reports(report, *final(self)) && exists|
                start: Moment,
                clk_tck: u64,
                events: Seq<RunEvent>,
            |
                #[trigger] ran(*final(self), provider, max_samples, start, clk_tck, events)
                    && is_clock_text(report.finished_at@, events.len() + 1),
    {
        let start: Moment = Moment::now();
        self.begin(&start);
        let clk_tck: u64 = tick_rate();
        let mut feed: Feed<P> = Feed::new(provider);
        self.sample_from(&mut feed, max_samples, &start, clk_tck);
        let finish: Moment = Moment::reading(Ghost(feed.events().len() + 1));
        assert(ran(*self, provider, max_samples, start, clk_tck, feed.events()));
        Ok(self.report_at(String::new(), finish.to_rfc3339()))
    }

    /// The report of what the monitor holds, finished at the time `finished_at`. A monitor that
    /// has not begun reports `fallback_start` as its start.
    pub fn report_at(&self, fallback_start: String, finished_at: String) -> (res: MonitorReport)
        ensures
            reports(res, *self),
            self.started_at is None ==> res.started_at@ == fallback_start@,
            res.finished_at@ == finished_at@,
    {
        let started_at: String = match &self.started_at {
            Some(text) => text.clone(),
            None => fallback_start,
        };
        MonitorReport {
            duration_hours: self.duration_hours,
            total_samples: self.total_samples,
            started_at,
            finished_at,
            groups: self.group_totals.clone(),
            top_consumers: self.group_totals.ranking(),
        }
    }

    /// The report of what the monitor holds, finished now.
    pub fn generate_report(&self) -> (res: MonitorReport)
        ensures
            reports(res, *self),
            self.started_at is None ==> is_clock_text(res.started_at@, 0),
            is_clock_text(res.finished_at@, 1),
    {
        let fallback: String = if self.started_at.is_none() {
            Moment::now().to_rfc3339()
        } else {
            String::new()
        };
        let finish: Moment = Moment::reading(Ghost(1));
        self.report_at(fallback, finish.to_rfc3339())
    }
}

} // verus!
