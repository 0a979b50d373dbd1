use cpu_monitor::{
    ticks_to_seconds, CpuSeconds, Moment, ProcReading, ProcStat, ProcessDelta, ProcessInfo,
    ProcessSnapshot, ProcessType,
};

/// The seconds as a decimal number.
fn decimal(seconds: &CpuSeconds) -> f64 {
    fn number(limbs: &[u32]) -> f64 {
        limbs.iter().rev().fold(0.0, |high, limb| high * 4_294_967_296.0 + f64::from(*limb))
    }
    let (num, den) = seconds.fraction();
    number(num.limbs()) / number(den.limbs())
}

#[test]
fn test_snapshot_aggregate_by_group() {
    let deltas = vec![
        ProcessDelta {
            pid: 1,
            group: ProcessType::Gitlab,
            cpu_seconds: ticks_to_seconds(10, 1),
            cmdline: "".into(),
            cgroup: "".into(),
        },
        ProcessDelta {
            pid: 2,
            group: ProcessType::Gitlab,
            cpu_seconds: ticks_to_seconds(20, 1),
            cmdline: "".into(),
            cgroup: "".into(),
        },
        ProcessDelta {
            pid: 3,
            group: ProcessType::Proc,
            cpu_seconds: ticks_to_seconds(5, 1),
            cmdline: "/test".into(),
            cgroup: "".into(),
        },
    ];

    let aggregated = ProcessSnapshot::aggregate_by_group(&deltas);

    assert_eq!(aggregated.len(), 2);
    assert_eq!(
        aggregated.get(&ProcessType::Gitlab.to_string()).map(decimal),
        Some(30.0)
    );
    assert_eq!(
        aggregated
            .get(&format!("{}:{}", ProcessType::Proc.to_string(), "/test"))
            .map(decimal),
        Some(5.0)
    );
}

#[test]
fn test_snapshot_aggregate_empty_deltas() {
    let deltas: Vec<ProcessDelta> = vec![];

    let aggregated = ProcessSnapshot::aggregate_by_group(&deltas);

    assert!(aggregated.is_empty());
}

#[test]
fn test_snapshot_calculate_classified_deltas() {
    let mut prev = ProcessSnapshot::new();
    let mut curr = ProcessSnapshot::new();

    prev.add_process(ProcessInfo::new(
        1234,
        100,
        50,
        "/usr/bin/gitlab-runner build".into(),
        "gitlab-runner".into(),
        1000,
        "".into(),
    ));
    prev.add_process(ProcessInfo::new(
        5678,
        200,
        100,
        "/usr/bin/nginx".into(),
        "nginx".into(),
        1000,
        "".into(),
    ));

    curr.add_process(ProcessInfo::new(
        1234,
        200,
        100,
        "/usr/bin/gitlab-runner build".into(),
        "gitlab-runner".into(),
        1000,
        "".into(),
    ));
    curr.add_process(ProcessInfo::new(
        5678,
        300,
        150,
        "/usr/bin/nginx".into(),
        "nginx".into(),
        1000,
        "".into(),
    ));

    let clk_tck = 100u64;

    let deltas = curr.calculate_classified_deltas(&prev, clk_tck);

    assert_eq!(deltas.len(), 2);

    let gitlab_delta = deltas.iter().find(|d| d.pid == 1234).unwrap();
    assert_eq!(gitlab_delta.group, ProcessType::Gitlab);
    assert_eq!(decimal(&gitlab_delta.cpu_seconds), 1.5);

    let nginx_delta = deltas.iter().find(|d| d.pid == 5678).unwrap();
    assert_eq!(nginx_delta.group, ProcessType::Proc);
    assert_eq!(decimal(&nginx_delta.cpu_seconds), 1.5);
}

#[test]
fn test_snapshot_calculate_deltas() {
    let mut prev = ProcessSnapshot::new();
    let mut cur = ProcessSnapshot::new();
    prev.add_process(ProcessInfo::new(
        1,
        100,
        50,
        String::new(),
        "a".to_string(),
        0,
        String::new(),
    ));
    prev.add_process(ProcessInfo::new(
        2,
        200,
        100,
        String::new(),
        "b".to_string(),
        1000,
        String::new(),
    ));
    prev.add_process(ProcessInfo::new(
        3,
        150,
        100,
        String::new(),
        "dead".to_string(),
        1000,
        String::new(),
    ));
    cur.add_process(ProcessInfo::new(
        1,
        150,
        75,
        String::new(),
        "a".to_string(),
        0,
        String::new(),
    ));
    cur.add_process(ProcessInfo::new(
        2,
        300,
        150,
        String::new(),
        "b".to_string(),
        1000,
        String::new(),
    ));
    cur.add_process(ProcessInfo::new(
        4,
        50,
        25,
        String::new(),
        "new".to_string(),
        1000,
        String::new(),
    ));

    let clk_tck = 100u64;
    let deltas = cur.calculate_deltas(&prev, clk_tck);
    assert_eq!(deltas.len(), 2);
    assert_eq!(deltas.get(&1).map(decimal), Some(0.75));
    assert!(!deltas.contains_key(&3));
    assert!(!deltas.contains_key(&4));
}

#[test]
fn test_add_multiple_processes() {
    let mut snapshot = ProcessSnapshot::new();
    snapshot.add_process(ProcessInfo::new(
        1,
        10,
        5,
        String::new(),
        "init".to_string(),
        0,
        String::new(),
    ));
    snapshot.add_process(ProcessInfo::new(
        2,
        20,
        15,
        String::new(),
        "bash".to_string(),
        1000,
        String::new(),
    ));
    snapshot.add_process(ProcessInfo::new(
        3,
        30,
        20,
        String::new(),
        "vim".to_string(),
        1000,
        String::new(),
    ));

    assert_eq!(snapshot.process_count(), 3);
    assert_eq!(snapshot.get_process(1).unwrap().pid, 1);
    assert!(snapshot.get_process(999).is_none());
}

#[test]
fn test_snapshot_add_process() {
    let mut snapshot = ProcessSnapshot::new();
    let process = ProcessInfo::new(
        1234,
        100,
        50,
        String::new(),
        "test".to_string(),
        1000,
        String::new(),
    );
    snapshot.add_process(process);
    assert_eq!(snapshot.process_count(), 1);
    assert_eq!(snapshot.get_process(1234).unwrap().pid, 1234);
    assert_eq!(snapshot.get_process(1234).unwrap().comm, "test".to_string());
}

#[test]
fn test_snapshot_new() {
    let snapshot = ProcessSnapshot::new();
    assert!(!snapshot.timestamp.is_empty());
    assert_eq!(snapshot.process_count(), 0);
}

fn snapshot(processes: &[(u32, u64, &str, &str)]) -> ProcessSnapshot {
    let mut snapshot = ProcessSnapshot::new();
    for (pid, utime, cmdline, comm) in processes {
        snapshot.add_process(ProcessInfo::new(
            *pid,
            *utime,
            0,
            cmdline.to_string(),
            comm.to_string(),
            0,
            "0::/a.slice".to_string(),
        ));
    }
    snapshot
}

#[test]
fn default_snapshot_is_empty() {
    let snapshot = ProcessSnapshot::default();
    assert!(!snapshot.timestamp.is_empty());
    assert_eq!(snapshot.process_count(), 0);
}

#[test]
fn timestamp_is_rfc_3339() {
    let timestamp = ProcessSnapshot::new().timestamp;
    assert!(timestamp.len() >= 25);
    assert_eq!(&timestamp[4..5], "-");
    assert_eq!(&timestamp[10..11], "T");
}

#[test]
fn added_process_replaces_one_with_its_number() {
    let mut table = snapshot(&[(1, 10, "a", "a"), (2, 20, "b", "b")]);
    table.add_process(ProcessInfo::new(1, 99, 0, "c".into(), "c".into(), 7, String::new()));
    assert_eq!(table.process_count(), 2);
    assert_eq!(table.get_process(1).unwrap().comm, "c");
    assert_eq!(table.get_process(2).unwrap().comm, "b");
}

#[test]
fn still_clock_lists_zero_seconds_but_no_busy_process() {
    let prev = snapshot(&[(1, 100, "a", "a")]);
    let cur = snapshot(&[(1, 200, "a", "a")]);
    let deltas = cur.calculate_deltas(&prev, 0);
    assert_eq!(deltas.get(&1).map(decimal), Some(0.0));
    assert!(cur.calculate_classified_deltas(&prev, 0).is_empty());
}

#[test]
fn snapshot_compared_with_itself_shows_no_usage() {
    let table = snapshot(&[(1, 100, "a", "a"), (2, 5, "gitlab", "b")]);
    assert!(table.calculate_deltas(&table, 100).is_empty());
    assert!(table.calculate_classified_deltas(&table, 100).is_empty());
}

#[test]
fn restarted_new_and_ended_processes_are_left_out() {
    let prev = snapshot(&[(1, 100, "a", "a"), (2, 100, "b", "b")]);
    let cur = snapshot(&[(1, 50, "a", "a"), (3, 70, "c", "c")]);
    assert!(cur.calculate_deltas(&prev, 100).is_empty());
    assert!(cur.calculate_classified_deltas(&prev, 100).is_empty());
}

#[test]
fn classified_delta_shows_the_present_process() {
    let prev = snapshot(&[(9, 100, "old", "old")]);
    let cur = snapshot(&[(9, 130, "/opt/XMRIG", "worker")]);
    let deltas = cur.calculate_classified_deltas(&prev, 60);
    assert_eq!(deltas.len(), 1);
    assert_eq!(deltas[0].pid, 9);
    assert_eq!(deltas[0].group, ProcessType::Suspicious);
    assert_eq!(decimal(&deltas[0].cpu_seconds), 0.5);
    assert_eq!(deltas[0].cmdline, "/opt/XMRIG");
    assert_eq!(deltas[0].cgroup, "worker");
}

#[test]
fn grouping_keeps_all_time_in_any_order() {
    let prev = snapshot(&[(1, 0, "gitlab", "a"), (2, 0, "gitlab", "b"), (3, 0, "x", "x")]);
    let cur = snapshot(&[(1, 10, "gitlab", "a"), (2, 21, "gitlab", "b"), (3, 32, "x", "x")]);
    let mut deltas = cur.calculate_classified_deltas(&prev, 7);
    let forward = ProcessSnapshot::aggregate_by_group(&deltas);
    deltas.reverse();
    let backward = ProcessSnapshot::aggregate_by_group(&deltas);
    for totals in [&forward, &backward] {
        assert_eq!(totals.len(), 2);
        assert_eq!(totals.get("🦊 Gitlab").map(decimal), Some(31.0 / 7.0));
        assert_eq!(totals.get("⚙ Proc:x").map(decimal), Some(32.0 / 7.0));
        assert_eq!(decimal(&totals.total()), 9.0);
    }
}

const BEGUN: Moment = Moment { secs: 1_704_067_200, nanos: 0, offset: 0 };

fn reading(pid: i32, utime: u64, cmdline: &str, cgroup: &str) -> ProcReading {
    ProcReading {
        pid,
        stat: Some(ProcStat { utime, stime: 3, comm: "worker".to_string() }),
        ruid: Some(1000),
        cmdline: cmdline.to_string(),
        cgroup: cgroup.to_string(),
    }
}

#[test]
fn readings_become_processes() {
    let readings = vec![reading(7, 40, "/bin/a\0-x\0", "0::/user.slice\n1:cpu:/\n")];
    let snapshot = ProcessSnapshot::from_readings(&BEGUN, &readings);
    assert_eq!(snapshot.process_count(), 1);
    let process = snapshot.get_process(7).unwrap();
    assert_eq!(process.pid, 7);
    assert_eq!((process.utime, process.stime), (40, 3));
    assert_eq!(process.cmdline, "/bin/a -x");
    assert_eq!(process.comm, "worker");
    assert_eq!(process.uid, 1000);
    assert_eq!(process.cgroup, "0::/user.slice");
    assert_eq!(snapshot.timestamp, "2024-01-01T00:00:00+00:00");
}

#[test]
fn incomplete_readings_are_left_out_and_later_ones_count() {
    let mut no_stat = reading(1, 1, "", "");
    no_stat.stat = None;
    let mut no_user = reading(2, 1, "", "");
    no_user.ruid = None;
    let readings = vec![no_stat, no_user, reading(3, 10, "", ""), reading(3, 20, "", "")];
    let snapshot = ProcessSnapshot::from_readings(&BEGUN, &readings);
    assert_eq!(snapshot.process_count(), 1);
    assert_eq!(snapshot.get_process(3).unwrap().utime, 20);
    assert!(readings[0].to_process().is_none());
}
