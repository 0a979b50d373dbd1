use cpu_monitor::{
    check_reply, delivery_form, report_file_name, wants_delivery, CpuMonitor, CpuSeconds, Moment,
    MonitorSession, ProcessInfo, ProcessSnapshot, SessionAction, SessionEvent,
};

/// The seconds as a decimal number.
fn decimal(seconds: &CpuSeconds) -> f64 {
    fn number(limbs: &[u32]) -> f64 {
        limbs.iter().rev().fold(0.0, |high, limb| high * 4_294_967_296.0 + f64::from(*limb))
    }
    let (num, den) = seconds.fraction();
    number(num.limbs()) / number(den.limbs())
}

fn snapshot(utime: u64) -> ProcessSnapshot {
    let mut snapshot = ProcessSnapshot::new();
    snapshot.add_process(ProcessInfo::new(
        1,
        utime,
        0,
        "/gitlab".to_string(),
        "gitlab".to_string(),
        0,
        String::new(),
    ));
    snapshot
}

fn later(start: Moment, secs: i64, nanos: u32) -> Moment {
    Moment { secs: start.secs + secs, nanos, offset: start.offset }
}

fn session_at(start: Moment) -> MonitorSession {
    MonitorSession { start, clk_tck: 100, prev: None, due: false }
}

const START: Moment = Moment { secs: 1_704_067_200, nanos: 0, offset: 0 };

#[test]
fn session_begins_without_samples() {
    let mut monitor = CpuMonitor::new(24, 10);
    monitor.total_samples = 4;
    let session = monitor.begin_session();
    assert_eq!(monitor.total_samples, 0);
    assert!(monitor.group_totals.is_empty());
    assert_eq!(monitor.started_at, Some(session.start.to_rfc3339()));
    assert!(session.prev.is_none());
    assert!(!session.due);
    assert!(session.clk_tck > 0);
}

/// Drives a session whose snapshots all succeed and whose pauses take `pause` nanoseconds each.
/// Gives the moment of the last wake.
fn drive(monitor: &mut CpuMonitor, pause: i64) -> Moment {
    monitor.begin(&START);
    let mut session = session_at(START);
    let mut now = START;
    let mut wakes = 0;
    let mut action = SessionAction::TakeSnapshot;
    while action != SessionAction::Finish {
        let event = match action {
            SessionAction::TakeSnapshot => SessionEvent::Snapshot(snapshot(10 * wakes)),
            SessionAction::Sleep(secs) => {
                assert_eq!(secs, monitor.interval as u64);
                wakes += 1;
                let passed = pause * wakes as i64;
                now = later(START, passed / 1_000_000_000, (passed % 1_000_000_000) as u32);
                SessionEvent::Woke(now)
            }
            _ => panic!("the session fails"),
        };
        action = monitor.step(&mut session, event);
    }
    now
}

#[test]
fn day_at_ten_seconds_gives_8640_samples() {
    let mut monitor = CpuMonitor::new(24, 10);
    let last = drive(&mut monitor, 10_000_000_000);
    let report = monitor.report_at(String::new(), last.to_rfc3339());
    assert_eq!(report.duration_hours, 24);
    assert_eq!(report.total_samples, 8640);
    assert_eq!(report.started_at, "2024-01-01T00:00:00+00:00");
    assert_eq!(report.finished_at, "2024-01-02T00:00:00+00:00");
    assert_eq!(report.groups.get("🦊 Gitlab").map(decimal), Some(864.0));
}

#[test]
fn wakes_that_come_late_cost_no_sample() {
    let mut monitor = CpuMonitor::new(24, 10);
    let last = drive(&mut monitor, 10_000_100_000);
    assert_eq!(monitor.total_samples, 8640);
    assert_eq!(last.nanos_since(&START), 86_400_864_000_000);
}

#[test]
fn interval_that_does_not_fit_ends_with_the_first_wake_past_the_duration() {
    let mut monitor = CpuMonitor::new(1, 7);
    let last = drive(&mut monitor, 7_000_000_000);
    assert_eq!(monitor.total_samples, 515);
    assert_eq!(last.nanos_since(&START), 3_605_000_000_000);
}

#[test]
fn session_ends_with_the_snapshot_at_which_its_time_is_up() {
    for (secs, nanos, due) in
        [(5, 0, false), (3599, 999_999_999, false), (3600, 0, true), (3600, 1, true)]
    {
        let mut monitor = CpuMonitor::new(1, 5);
        let mut session = session_at(START);
        monitor.step(&mut session, SessionEvent::Snapshot(snapshot(0)));
        let woke = SessionEvent::Woke(later(START, secs, nanos));
        assert_eq!(monitor.step(&mut session, woke), SessionAction::TakeSnapshot);
        assert_eq!(session.due, due);
        let action = monitor.step(&mut session, SessionEvent::Snapshot(snapshot(7)));
        assert_eq!(action, if due { SessionAction::Finish } else { SessionAction::Sleep(5) });
        assert_eq!(monitor.total_samples, 1);
    }
}

#[test]
fn session_whose_last_snapshot_fails_ends_all_the_same() {
    let mut monitor = CpuMonitor::new(1, 5);
    let mut session = session_at(START);
    monitor.step(&mut session, SessionEvent::Snapshot(snapshot(0)));
    monitor.step(&mut session, SessionEvent::Woke(later(START, 3600, 0)));
    assert_eq!(
        monitor.step(&mut session, SessionEvent::SnapshotFailed),
        SessionAction::Finish
    );
    assert_eq!(monitor.total_samples, 0);
}

#[test]
fn session_of_no_hours_ends_with_its_first_snapshot() {
    let mut monitor = CpuMonitor::new(0, 5);
    let mut session = monitor.begin_session();
    assert!(session.due);
    assert_eq!(
        monitor.step(&mut session, SessionEvent::Snapshot(snapshot(3))),
        SessionAction::Finish
    );
    assert_eq!(monitor.total_samples, 0);
}

#[test]
fn interrupted_session_keeps_its_partial_totals() {
    let mut monitor = CpuMonitor::new(24, 10);
    monitor.begin(&START);
    let mut session = session_at(START);
    assert_eq!(
        monitor.step(&mut session, SessionEvent::Snapshot(snapshot(0))),
        SessionAction::Sleep(10)
    );
    assert_eq!(monitor.total_samples, 0);
    monitor.step(&mut session, SessionEvent::Snapshot(snapshot(250)));
    assert_eq!(monitor.step(&mut session, SessionEvent::Interrupted), SessionAction::Finish);
    let report = monitor.generate_report();
    assert_eq!(report.total_samples, 1);
    assert_eq!(report.groups.get("🦊 Gitlab").map(decimal), Some(2.5));
}

#[test]
fn failed_snapshot_is_passed_over() {
    let mut monitor = CpuMonitor::new(24, 10);
    let mut session = session_at(START);
    monitor.step(&mut session, SessionEvent::Snapshot(snapshot(100)));
    assert_eq!(
        monitor.step(&mut session, SessionEvent::SnapshotFailed),
        SessionAction::Sleep(10)
    );
    monitor.step(&mut session, SessionEvent::Snapshot(snapshot(400)));
    assert_eq!(monitor.total_samples, 1);
    assert_eq!(monitor.group_totals.get("🦊 Gitlab").map(decimal), Some(3.0));
}

#[test]
fn session_without_a_first_snapshot_fails() {
    let mut monitor = CpuMonitor::new(24, 10);
    let mut session = monitor.begin_session();
    assert_eq!(
        monitor.step(&mut session, SessionEvent::SnapshotFailed),
        SessionAction::Fail
    );
}

#[test]
fn moments_are_shown_in_local_time() {
    let epoch = Moment { secs: 0, nanos: 0, offset: 0 };
    assert_eq!(epoch.to_rfc3339(), "1970-01-01T00:00:00+00:00");
    let moment = Moment { secs: 851_042_397, nanos: 120_000_000, offset: -8 * 3600 };
    assert_eq!(moment.to_rfc3339(), "1996-12-19T16:39:57.120-08:00");
    let last = Moment { secs: 8_210_266_876_799, nanos: 999_999_999, offset: 86_399 };
    assert_eq!(last.to_rfc3339(), "+262143-01-01T23:59:58.999999999+24:00");
}

#[test]
fn time_between_moments_ignores_the_offset() {
    let a = Moment { secs: 10, nanos: 999_999_999, offset: 3600 };
    let b = Moment { secs: 12, nanos: 1, offset: -3600 };
    assert_eq!(b.nanos_since(&a), 1_000_000_002);
    assert_eq!(a.nanos_since(&b), -1_000_000_002);
}

#[test]
fn report_file_is_named_by_its_time() {
    let now = Moment { secs: 1_704_067_199, nanos: 7, offset: 0 };
    assert_eq!(report_file_name(&now), "cpu_report_20231231_235959.json");
    let now = Moment { secs: 1_704_067_199, nanos: 7, offset: 3 * 3600 };
    assert_eq!(report_file_name(&now), "cpu_report_20240101_025959.json");
    assert_eq!(report_file_name(&Moment::now()).len(), "cpu_report_20240101_025959.json".len());
}

#[test]
fn report_is_sent_only_to_a_named_room() {
    assert!(!wants_delivery(""));
    assert!(wants_delivery("12345"));
    let form = delivery_form("12345");
    assert_eq!(form.message, "Закончен анализ процессорного времени");
    assert_eq!(form.room, "12345");
    assert_eq!(form.file_name, "report.txt");
    assert_eq!(form.mime, "text/plain");
}

#[test]
fn refused_report_is_an_error() {
    assert!(check_reply(200, "200 OK").is_ok());
    assert!(check_reply(299, "299").is_ok());
    for code in [100, 199, 300, 404, 500] {
        let error = check_reply(code, "404 Not Found").unwrap_err();
        assert_eq!(error.message, "Server returned: 404 Not Found");
    }
}
