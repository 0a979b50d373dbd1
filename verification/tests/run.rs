use cpu_monitor::clock::tick_rate;
use cpu_monitor::{
    next_request, ticks_to_seconds, CpuMonitor, CpuSeconds, Feed, Moment, MonitorError,
    ProcessInfo, ProcessSnaphotProvider, ProcessSnapshot, RunRequest, RunStage,
};

const START: Moment = Moment { secs: 1_704_067_200, nanos: 500, offset: 0 };

fn later(secs: i64, nanos: u32) -> Moment {
    Moment { secs: START.secs + secs, nanos: START.nanos + nanos, offset: 3600 }
}

fn same_time(a: &CpuSeconds, b: &CpuSeconds) -> bool {
    !a.exceeds(b) && !b.exceeds(a)
}

/// Gives as many snapshots as it has ticks for, each of one process with that many ticks, and
/// fails after that. Counts how often it was asked.
struct Ticking {
    ticks: Vec<u64>,
    asked: std::cell::RefCell<usize>,
}

fn ticking(ticks: &[u64]) -> Ticking {
    Ticking { ticks: ticks.to_vec(), asked: std::cell::RefCell::new(0) }
}

impl ProcessSnaphotProvider for Ticking {
    fn take_snapshot(&self) -> Result<ProcessSnapshot, MonitorError> {
        let number = *self.asked.borrow();
        *self.asked.borrow_mut() = number + 1;
        if number >= self.ticks.len() {
            return Err(MonitorError { message: "no more".to_string() });
        }
        let mut snapshot = ProcessSnapshot::new();
        snapshot.add_process(ProcessInfo::new(
            7,
            self.ticks[number],
            0,
            "/opt/gitlab".to_string(),
            "gitlab".to_string(),
            0,
            String::new(),
        ));
        Ok(snapshot)
    }
}

#[test]
fn provider_is_asked_until_it_fails_or_the_limit_is_reached() {
    for limit in 0..5 {
        for good in 0..5 {
            let provider = ticking(&vec![9; good]);
            let report = CpuMonitor::new(24, 10).run(&provider, Some(limit)).unwrap();
            assert_eq!(*provider.asked.borrow(), limit.min(good + 1));
            assert_eq!(report.total_samples, limit.min(good));
        }
    }
}

#[test]
fn run_adds_up_what_was_used_from_answer_to_answer() {
    let provider = ticking(&[1000, 1010, 1040, 1040, 1100]);
    let report = CpuMonitor::new(1, 1).run(&provider, Some(4)).unwrap();
    assert_eq!(report.total_samples, 4);
    assert_eq!(report.groups.len(), 1);
    let used = report.groups.get("🦊 Gitlab").unwrap();
    assert!(same_time(used, &ticks_to_seconds(40, tick_rate())));
}

#[test]
fn first_answer_of_a_run_is_only_measured_against() {
    let report = CpuMonitor::new(1, 1).run(&ticking(&[5000]), Some(9)).unwrap();
    assert_eq!(report.total_samples, 1);
    assert!(report.groups.is_empty());
    assert!(report.top_consumers.is_empty());
}

#[test]
fn nothing_from_before_a_run_reaches_its_report() {
    let mut fresh = CpuMonitor::new(1, 1);
    let mut used = CpuMonitor::new(2, 3);
    used.run(&ticking(&[0, 77, 990]), Some(3)).unwrap();
    used.group_totals.insert("left over".to_string(), ticks_to_seconds(1, 1));
    used.total_samples = 1000;
    let ticks = [3, 8, 21];
    let a = fresh.run(&ticking(&ticks), Some(7)).unwrap();
    let b = used.run(&ticking(&ticks), Some(7)).unwrap();
    assert_eq!(a.total_samples, 3);
    assert_eq!(b.total_samples, 3);
    assert_eq!(a.groups.len(), 1);
    assert_eq!(b.groups.len(), 1);
    let expected = ticks_to_seconds(18, tick_rate());
    assert!(same_time(a.groups.get("🦊 Gitlab").unwrap(), &expected));
    assert!(same_time(b.groups.get("🦊 Gitlab").unwrap(), &expected));
}

#[test]
fn run_of_no_hours_asks_for_no_snapshot() {
    let provider = ticking(&[1, 2, 3]);
    let report = CpuMonitor::new(0, 1).run(&provider, None).unwrap();
    assert_eq!(report.total_samples, 0);
    assert!(report.groups.is_empty());
    assert_eq!(*provider.asked.borrow(), 0);
}

#[test]
fn run_with_a_limit_does_not_look_at_its_hours() {
    let report = CpuMonitor::new(0, 1).run(&ticking(&[1, 2, 3]), Some(2)).unwrap();
    assert_eq!(report.total_samples, 2);
}

#[test]
fn samples_come_from_the_feed() {
    let provider = ticking(&[100, 150, 400]);
    let mut monitor = CpuMonitor::new(1, 1);
    let mut feed = Feed::new(&provider);
    monitor.sample_from(&mut feed, Some(8), &START, 100);
    assert_eq!(monitor.total_samples, 3);
    assert_eq!(*provider.asked.borrow(), 4);
    let used = monitor.group_totals.get("🦊 Gitlab").unwrap();
    assert!(same_time(used, &ticks_to_seconds(3, 1)));
}

#[test]
fn run_that_began_long_ago_has_no_time_left() {
    let provider = ticking(&[1, 2, 3]);
    let mut monitor = CpuMonitor::new(1, 1);
    monitor.sample_from(&mut Feed::new(&provider), None, &START, 100);
    assert_eq!(monitor.total_samples, 0);
    assert_eq!(*provider.asked.borrow(), 0);
    let mut monitor = CpuMonitor::new(1, 1);
    monitor.sample_from(&mut Feed::new(&provider), None, &Moment::now(), 100);
    assert_eq!(monitor.total_samples, 3);
}

#[test]
fn feed_hands_on_what_the_provider_says() {
    let provider = ticking(&[5]);
    let mut feed = Feed::new(&provider);
    assert!(feed.ask().is_ok());
    assert_eq!(feed.ask().unwrap_err().to_string(), "no more");
    assert_eq!(*provider.asked.borrow(), 2);
    assert!(feed.read_clock().nanos_since(&START) > 0);
}

#[test]
fn limited_run_asks_for_snapshots_alone() {
    for stage in [RunStage::Sampling, RunStage::Timed(later(999_999, 0))] {
        assert_eq!(next_request(Some(3), 1, &START, 2, stage), RunRequest::TakeSnapshot);
        assert_eq!(next_request(Some(3), 1, &START, 3, stage), RunRequest::Stop);
        assert_eq!(next_request(Some(0), 1, &START, 0, stage), RunRequest::Stop);
    }
    assert_eq!(next_request(Some(3), 1, &START, 2, RunStage::Failed), RunRequest::Stop);
}

#[test]
fn timed_run_goes_by_the_clock() {
    let at = |now: Moment| next_request(None, 2, &START, 6, RunStage::Timed(now));
    assert_eq!(next_request(None, 2, &START, 6, RunStage::Sampling), RunRequest::ReadClock);
    assert_eq!(at(later(0, 0)), RunRequest::TakeSnapshot);
    assert_eq!(at(later(7199, 999_999_499)), RunRequest::TakeSnapshot);
    assert_eq!(at(later(7200, 0)), RunRequest::Stop);
    assert_eq!(at(later(7200, 1)), RunRequest::Stop);
    assert_eq!(at(later(-60, 0)), RunRequest::TakeSnapshot);
    assert_eq!(next_request(None, 2, &START, 6, RunStage::Failed), RunRequest::Stop);
    assert_eq!(next_request(None, 2, &START, usize::MAX, RunStage::Sampling), RunRequest::Stop);
}
