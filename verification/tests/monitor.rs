use cpu_monitor::{
    ticks_to_seconds, CpuMonitor, CpuSeconds, MonitorError, ProcessInfo, ProcessSnaphotProvider,
    ProcessSnapshot, ProcessType,
};

/// The seconds as a decimal number.
fn decimal(seconds: &CpuSeconds) -> f64 {
    fn number(limbs: &[u32]) -> f64 {
        limbs.iter().rev().fold(0.0, |high, limb| high * 4_294_967_296.0 + f64::from(*limb))
    }
    let (num, den) = seconds.fraction();
    number(num.limbs()) / number(den.limbs())
}

pub struct MockSnapshotProvider {
    pub snapshot: Vec<ProcessSnapshot>,
    pub current_index: std::cell::RefCell<usize>,
}

impl MockSnapshotProvider {
    pub fn new(snapshots: Vec<ProcessSnapshot>) -> Self {
        Self {
            snapshot: snapshots,
            current_index: std::cell::RefCell::new(0),
        }
    }
}
impl ProcessSnaphotProvider for MockSnapshotProvider {
    fn take_snapshot(&self) -> Result<ProcessSnapshot, MonitorError> {
        let mut idx_ref = self.current_index.borrow_mut();
        let idx = *idx_ref;
        if idx >= self.snapshot.len() {
            return Err(MonitorError {
                message: "No more snapshots".into(),
            });
        }
        let snapshot = self.snapshot[idx].clone();
        *idx_ref = idx + 1;
        Ok(snapshot)
    }
}

#[test]
fn test_monitor_run_with_mock_provider() {
    let mut monitor = CpuMonitor::new(30, 24);

    let mut snap1 = ProcessSnapshot::new();
    snap1.add_process(ProcessInfo::new(
        1,
        100,
        50,
        "/gitlab".into(),
        "gitlab".into(),
        1000,
        "".into(),
    ));

    let mut snap2 = ProcessSnapshot::new();
    snap2.add_process(ProcessInfo::new(
        1,
        200,
        100,
        "/gitlab".into(),
        "gitlab".into(),
        1000,
        "".into(),
    ));

    let mut snap3 = ProcessSnapshot::new();
    snap3.add_process(ProcessInfo::new(
        1,
        300,
        150,
        "/gitlab".into(),
        "gitlab".into(),
        1000,
        "".into(),
    ));

    let provider = MockSnapshotProvider::new(vec![snap1, snap2, snap3]);

    let report = monitor.run(&provider, Some(3)).unwrap();
    println!("Total samples: {}", report.total_samples);
    println!("Groups: {:?}", report.groups);

    assert_eq!(report.total_samples, 3);
    assert!(report.groups.contains_key(&ProcessType::Gitlab.to_string()));
    assert_eq!(
        report.groups.get(&ProcessType::Gitlab.to_string()).map(decimal),
        Some(3.0)
    );
}

#[test]
fn test_monitor_collect_sample_multiple_groups() {
    let mut monitor = CpuMonitor::new(30, 24);
    let clk_tck = 100u64;

    let mut prev = ProcessSnapshot::new();
    prev.add_process(ProcessInfo::new(
        1,
        100,
        50,
        "/gitlab".into(),
        "gitlab".into(),
        1000,
        "".into(),
    ));
    prev.add_process(ProcessInfo::new(
        2,
        200,
        100,
        "/nginx".into(),
        "nginx".into(),
        1000,
        "".into(),
    ));

    let mut curr = ProcessSnapshot::new();
    curr.add_process(ProcessInfo::new(
        1,
        200,
        100,
        "/gitlab".into(),
        "gitlab".into(),
        1000,
        "".into(),
    ));
    curr.add_process(ProcessInfo::new(
        2,
        300,
        150,
        "/nginx".into(),
        "nginx".into(),
        1000,
        "".into(),
    ));

    let provider = MockSnapshotProvider::new(vec![curr]);
    let prev_opt = Some(prev);

    let result = monitor.collect_sample(&provider, &prev_opt, clk_tck);

    assert!(result.is_ok());
    assert_eq!(
        monitor.group_totals.get(&ProcessType::Gitlab.to_string()).map(decimal),
        Some(1.5)
    );
    assert_eq!(
        monitor
            .group_totals
            .get(&ProcessType::Proc.converte("/nginx".to_string()))
            .map(decimal),
        Some(1.5)
    );
    assert_eq!(monitor.total_samples, 1);
}

#[test]
fn test_cpu_monitor_new() {
    let monitor = CpuMonitor::new(30, 24);
    assert_eq!(monitor.duration_hours, 30);
    assert_eq!(monitor.interval, 24);
    assert_eq!(monitor.total_samples, 0);
    assert!(monitor.started_at.is_none());
}

#[test]
fn test_monitory_report_generateion() {
    let mut monitor = CpuMonitor::new(30, 24);
    monitor.started_at = Some("2024-01-01T00:00:00+00:00".to_string());
    monitor.total_samples = 100;
    monitor.group_totals.insert("gitlab".to_string(), ticks_to_seconds(1000, 1));
    monitor.group_totals.insert("Proc:nginx".to_string(), ticks_to_seconds(50, 1));
    let report = monitor.generate_report();
    assert_eq!(report.duration_hours, 30);
    assert_eq!(report.total_samples, 100);
    assert_eq!(report.groups.len(), 2);
}

fn snapshot(processes: &[(u32, u64, &str)]) -> ProcessSnapshot {
    let mut snapshot = ProcessSnapshot::new();
    for (pid, utime, cmdline) in processes {
        snapshot.add_process(ProcessInfo::new(
            *pid,
            *utime,
            0,
            cmdline.to_string(),
            "worker".to_string(),
            0,
            String::new(),
        ));
    }
    snapshot
}

#[test]
fn error_shows_its_message() {
    let error = MonitorError { message: "gone".to_string() };
    assert_eq!(error.to_string(), "gone");
}

#[test]
fn first_sample_adds_no_time() {
    let mut monitor = CpuMonitor::new(1, 1);
    let provider = MockSnapshotProvider::new(vec![snapshot(&[(1, 500, "a")])]);
    let taken = monitor.collect_sample(&provider, &None, 100).unwrap().unwrap();
    assert_eq!(taken.process_count(), 1);
    assert_eq!(monitor.total_samples, 1);
    assert!(monitor.group_totals.is_empty());
}

#[test]
fn failed_sample_changes_nothing() {
    let mut monitor = CpuMonitor::new(1, 1);
    monitor.group_totals.insert("a".to_string(), ticks_to_seconds(3, 2));
    monitor.total_samples = 5;
    let provider = MockSnapshotProvider::new(vec![]);
    let error = monitor.collect_sample(&provider, &None, 100).unwrap_err();
    assert_eq!(error.message, "No more snapshots");
    assert_eq!(monitor.total_samples, 5);
    assert_eq!(monitor.group_totals.len(), 1);
    assert_eq!(monitor.group_totals.get("a").map(decimal), Some(1.5));
}

#[test]
fn samples_at_different_clock_rates_add_up_in_seconds() {
    let mut monitor = CpuMonitor::new(1, 1);
    let (a, b, c) = (snapshot(&[(1, 0, "x")]), snapshot(&[(1, 150, "x")]), snapshot(&[(1, 300, "x")]));
    monitor.record_sample(&Some(a), &b, 100);
    monitor.record_sample(&Some(b), &c, 1000);
    assert_eq!(monitor.total_samples, 2);
    assert_eq!(monitor.group_totals.get("⚙ Proc:x").map(decimal), Some(1.65));
    assert_eq!(decimal(&monitor.total_cpu_seconds()), 1.65);
}

#[test]
fn sample_adds_all_time_to_the_total() {
    let mut monitor = CpuMonitor::new(1, 1);
    monitor.group_totals.insert("x".to_string(), ticks_to_seconds(2, 1));
    let prev = snapshot(&[(1, 10, "gitlab"), (2, 10, "b"), (3, 50, "c"), (4, 10, "d")]);
    let cur = snapshot(&[(1, 60, "gitlab"), (2, 35, "b"), (3, 40, "c"), (5, 99, "e")]);
    monitor.record_sample(&Some(prev), &cur, 100);
    assert_eq!(decimal(&monitor.total_cpu_seconds()), 2.75);
    assert_eq!(monitor.group_totals.len(), 3);
    assert_eq!(monitor.group_totals.get("x").map(decimal), Some(2.0));
}

#[test]
fn reset_forgets_everything_but_the_settings() {
    let mut monitor = CpuMonitor::new(7, 9);
    monitor.started_at = Some("then".to_string());
    monitor.total_samples = 3;
    monitor.group_totals.insert("a".to_string(), ticks_to_seconds(1, 1));
    monitor.reset();
    assert_eq!((monitor.duration_hours, monitor.interval), (7, 9));
    assert_eq!(monitor.total_samples, 0);
    assert!(monitor.group_totals.is_empty());
    assert!(monitor.started_at.is_none());
    assert_eq!(decimal(&monitor.total_cpu_seconds()), 0.0);
}

#[test]
fn report_ranks_groups_by_time() {
    let mut monitor = CpuMonitor::new(30, 24);
    monitor.started_at = Some("2024-01-01T00:00:00+00:00".to_string());
    monitor.group_totals.insert("small".to_string(), ticks_to_seconds(1, 3));
    monitor.group_totals.insert("great".to_string(), ticks_to_seconds(1000, 1));
    monitor.group_totals.insert("middle".to_string(), ticks_to_seconds(34, 100));
    let report = monitor.report_at("never".to_string(), "now".to_string());
    let names: Vec<&str> = report.top_consumers.iter().map(|(name, _)| name.as_str()).collect();
    assert_eq!(names, vec!["great", "middle", "small"]);
    assert_eq!(decimal(&report.top_consumers[0].1), 1000.0);
    assert_eq!(report.started_at, "2024-01-01T00:00:00+00:00");
    assert_eq!(report.finished_at, "now");
    assert_eq!(report.groups.len(), 3);
    assert_eq!(report.groups.get("middle").map(decimal), Some(0.34));
}

#[test]
fn report_before_the_start_shows_the_time_of_the_report() {
    let monitor = CpuMonitor::new(1, 1);
    let report = monitor.report_at("first".to_string(), "second".to_string());
    assert_eq!((report.started_at.as_str(), report.finished_at.as_str()), ("first", "second"));
    let report = monitor.generate_report();
    assert!(report.started_at.len() >= 25);
    assert!(report.finished_at.len() >= 25);
    assert!(report.top_consumers.is_empty());
}

#[test]
fn run_reports_what_was_taken_before_the_provider_failed() {
    let mut monitor = CpuMonitor::new(1, 1);
    let provider =
        MockSnapshotProvider::new(vec![snapshot(&[(1, 0, "gitlab")]), snapshot(&[(1, 50, "gitlab")])]);
    let report = monitor.run(&provider, Some(10)).unwrap();
    assert_eq!(report.total_samples, 2);
    assert_eq!(report.groups.len(), 1);
    assert_eq!(report.started_at, monitor.started_at.clone().unwrap());
    let report = monitor.run(&provider, Some(10)).unwrap();
    assert_eq!(report.total_samples, 0);
    assert!(report.groups.is_empty());
}

#[test]
fn run_takes_no_more_samples_than_asked() {
    let mut monitor = CpuMonitor::new(1, 1);
    let provider = MockSnapshotProvider::new(vec![snapshot(&[]), snapshot(&[]), snapshot(&[])]);
    assert_eq!(monitor.run(&provider, Some(0)).unwrap().total_samples, 0);
    assert_eq!(monitor.run(&provider, Some(2)).unwrap().total_samples, 2);
    assert_eq!(*provider.current_index.borrow(), 2);
}

#[test]
fn run_without_a_limit_ends_with_its_time_or_its_provider() {
    let provider = MockSnapshotProvider::new(vec![snapshot(&[]), snapshot(&[])]);
    let report = CpuMonitor::new(0, 1).run(&provider, None).unwrap();
    assert_eq!(report.total_samples, 0);
    let report = CpuMonitor::new(1, 1).run(&provider, None).unwrap();
    assert_eq!(report.total_samples, 2);
}
