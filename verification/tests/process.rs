use cpu_monitor::{classify_proccess, CpuSeconds, ProcessInfo, ProcessType};

/// The seconds as a decimal number.
fn decimal(seconds: &CpuSeconds) -> f64 {
    fn number(limbs: &[u32]) -> f64 {
        limbs.iter().rev().fold(0.0, |high, limb| high * 4_294_967_296.0 + f64::from(*limb))
    }
    let (num, den) = seconds.fraction();
    number(num.limbs()) / number(den.limbs())
}

#[test]
fn test_process_info_cpu_delta_restart() {
    let prev = ProcessInfo::new(
        1234,
        1000,
        500,
        String::new(),
        String::new(),
        1000,
        String::new(),
    );
    let cur = ProcessInfo::new(
        1234,
        200,
        100,
        String::new(),
        String::new(),
        1000,
        String::new(),
    );
    let delta = cur.cpu_delta_ticks(&prev);
    assert_eq!(delta, None);
}

#[test]
fn test_process_info_cpu_delta_seconds() {
    let prev = ProcessInfo::new(
        1234,
        100,
        50,
        String::new(),
        String::new(),
        1000,
        String::new(),
    );
    let cur = ProcessInfo::new(
        1234,
        200,
        100,
        String::new(),
        String::new(),
        1000,
        String::new(),
    );
    let clk_tck = 100u64;
    let delta = cur.cpu_delta_seconds(&prev, clk_tck);
    assert_eq!(delta.as_ref().map(decimal), Some(1.5));
}

#[test]
fn test_process_info_cpu_delta_ticks() {
    let prev = ProcessInfo::new(
        1234,
        100,
        50,
        String::new(),
        String::new(),
        1000,
        String::new(),
    );
    let cur = ProcessInfo::new(
        1234,
        200,
        100,
        String::new(),
        String::new(),
        1000,
        String::new(),
    );
    let delta = cur.cpu_delta_ticks(&prev);
    assert_eq!(delta, Some(150));
}

#[test]
fn test_process_info_zero_cpu_time() {
    let process = ProcessInfo::new(
        1234,
        0,
        0,
        String::new(),
        String::new(),
        1000,
        String::new(),
    );
    let ticks = process.total_cpu_ticks();
    let seconds = process.total_cpu_time(100);
    assert_eq!(ticks, 0);
    assert_eq!(decimal(&seconds), 0.0);
}

#[test]
fn test_process_info_total_cpu_time() {
    let process = ProcessInfo::new(
        1234,
        100,
        50,
        String::new(),
        String::new(),
        1000,
        String::new(),
    );
    let clk_tck = 100u64;
    let seconds = process.total_cpu_time(clk_tck);
    assert_eq!(decimal(&seconds), 1.5);
}

#[test]
fn test_process_info_total_cpu_ticks() {
    let process = ProcessInfo::new(
        1234,
        100,
        50,
        String::new(),
        String::new(),
        1000,
        String::new(),
    );
    let total = process.total_cpu_ticks();
    assert_eq!(total, 150);
}

#[test]
fn test_process_info_new() {
    let pid = 1234;
    let utime = 100u64;
    let stime = 50u64;
    let cmdline = "/usr/bin/test --arg=123".to_string();
    let comm = "test".to_string();
    let uid = 1000u32;
    let cgroup = "0::/user.slice".to_string();
    let process = ProcessInfo::new(
        pid,
        utime,
        stime,
        cmdline.clone(),
        comm.clone(),
        uid,
        cgroup.clone(),
    );
    assert_eq!(process.pid, pid);
    assert_eq!(process.utime, utime);
    assert_eq!(process.stime, stime);
    assert_eq!(process.cmdline, cmdline);
    assert_eq!(process.comm, comm);
    assert_eq!(process.uid, uid);
    assert_eq!(process.cgroup, cgroup);
}

#[test]
fn test_classify_proccess_gitlab_runner() {
    let result = classify_proccess("/usr/bin/gitlab-runner build --job=123", "gitlab-runner");
    assert_eq!(result, ProcessType::Gitlab);
}

#[test]
fn test_classify_proccess_gitlab_runner_by_cmdline() {
    let result = classify_proccess("/usr/bin/script", "gitlab-runner");
    assert_eq!(result, ProcessType::Gitlab);
}

#[test]
fn test_classify_proccess_run_from_tmp() {
    let result = classify_proccess("/tmp/xmrig --pool=xyz", "xmrig");
    assert_eq!(result, ProcessType::Suspicious);
}

#[test]
fn test_classify_proccess_docker_infra() {
    let result = classify_proccess("/user/bin/containerd-shim-runc-v2", "containerd-shim");
    assert_eq!(result, ProcessType::Docker);
}

#[test]
fn test_classify_proccess_regular() {
    let result = classify_proccess("/user/bin/nginx -g daemon off", "nginx");
    assert_eq!(result, ProcessType::Proc);
}

#[test]
fn test_classify_proccess_system() {
    let result = classify_proccess("/sbin/init", "systemd");
    assert_eq!(result, ProcessType::System);
}

fn process(utime: u64, stime: u64) -> ProcessInfo {
    ProcessInfo::new(1, utime, stime, String::new(), String::new(), 0, String::new())
}

#[test]
fn unchanged_counters_give_no_delta() {
    assert_eq!(process(100, 50).cpu_delta_ticks(&process(50, 100)), None);
    assert!(process(100, 50).cpu_delta_seconds(&process(50, 100), 100).is_none());
}

#[test]
fn user_and_kernel_ticks_are_counted_together() {
    assert_eq!(process(90, 70).cpu_delta_ticks(&process(100, 50)), Some(10));
}

#[test]
fn counters_beyond_64_bits_still_give_seconds() {
    let total = process(u64::MAX, u64::MAX).total_cpu_time(1);
    assert_eq!(decimal(&total), 2.0 * 18_446_744_073_709_551_615.0);
    let delta = process(u64::MAX, u64::MAX).cpu_delta_seconds(&process(u64::MAX, 0), 1);
    assert_eq!(delta.as_ref().map(decimal), Some(18_446_744_073_709_551_615.0));
}

#[test]
fn still_clock_gives_zero_seconds() {
    assert_eq!(decimal(&process(7, 8).total_cpu_time(0)), 0.0);
    let delta = process(200, 0).cpu_delta_seconds(&process(100, 0), 0);
    assert_eq!(delta.as_ref().map(decimal), Some(0.0));
}

#[test]
fn time_of_a_process_adds_up_over_snapshots() {
    let (first, middle, last) = (process(100, 0), process(150, 20), process(300, 40));
    let whole = last.cpu_delta_seconds(&first, 100).unwrap();
    let parts = last
        .cpu_delta_seconds(&middle, 100)
        .unwrap()
        .plus(&middle.cpu_delta_seconds(&first, 100).unwrap());
    assert!(!whole.exceeds(&parts) && !parts.exceeds(&whole));
    assert_eq!(decimal(&whole), 2.4);
}

#[test]
fn labels_of_all_kinds() {
    assert_eq!(ProcessType::System.to_string(), "💻 System");
    assert_eq!(ProcessType::Proc.to_string(), "⚙ Proc");
    assert_eq!(ProcessType::Gitlab.to_string(), "🦊 Gitlab");
    assert_eq!(ProcessType::Docker.to_string(), "🐋 Docker");
    assert_eq!(ProcessType::Suspicious.to_string(), "⚠️ Suspicious");
}

#[test]
fn group_names_of_all_kinds() {
    let name = |kind: ProcessType| kind.converte("containerd".to_string());
    assert_eq!(name(ProcessType::System), "💻 System");
    assert_eq!(name(ProcessType::Proc), "⚙ Proc:containerd");
    assert_eq!(name(ProcessType::Gitlab), "🦊 Gitlab");
    assert_eq!(name(ProcessType::Docker), "🐋 Docker:containerd");
    assert_eq!(name(ProcessType::Suspicious), "⚠️ Suspicious:containerd");
}

#[test]
fn every_known_name_is_recognised() {
    let known = [
        ("xmrig", ProcessType::Suspicious),
        ("minerd", ProcessType::Suspicious),
        ("cpuminer", ProcessType::Suspicious),
        ("cryptonight", ProcessType::Suspicious),
        ("nicehash", ProcessType::Suspicious),
        ("kinsing", ProcessType::Suspicious),
        ("gitlab", ProcessType::Gitlab),
        ("systemd", ProcessType::System),
        ("init", ProcessType::System),
        ("kthreadd", ProcessType::System),
        ("containerd", ProcessType::Docker),
        ("dockerd", ProcessType::Docker),
    ];
    for (name, kind) in known {
        assert_eq!(ProcessType::from_cmdline_and_comm(&format!("/opt/{name} -x"), ""), kind);
        assert_eq!(ProcessType::from_cmdline_and_comm("", &format!("my-{name}-2")), kind);
    }
}

#[test]
fn suspicious_names_come_first() {
    let kind = ProcessType::from_cmdline_and_comm("/opt/gitlab/systemd/dockerd", "xmrig");
    assert_eq!(kind, ProcessType::Suspicious);
    let kind = ProcessType::from_cmdline_and_comm("dockerd systemd", "gitlab");
    assert_eq!(kind, ProcessType::Gitlab);
    let kind = ProcessType::from_cmdline_and_comm("dockerd", "init");
    assert_eq!(kind, ProcessType::System);
}

#[test]
fn command_line_and_name_count_the_same() {
    for (a, b) in [("xmrig", "bash"), ("gitlab", "dockerd"), ("", "init")] {
        assert_eq!(
            ProcessType::from_cmdline_and_comm(a, b),
            ProcessType::from_cmdline_and_comm(b, a)
        );
    }
}

#[test]
fn patterns_are_searched_as_they_are() {
    assert_eq!(ProcessType::from_cmdline_and_comm("XMRIG", ""), ProcessType::Proc);
    assert_eq!(ProcessType::from_cmdline_and_comm("xmri", "g"), ProcessType::Proc);
    assert_eq!(ProcessType::from_cmdline_and_comm("", ""), ProcessType::Proc);
}

#[test]
fn case_does_not_matter_to_classification() {
    assert_eq!(classify_proccess("/TMP/XmRig", "A"), ProcessType::Suspicious);
    assert_eq!(classify_proccess("a", "GitLab-Runner"), ProcessType::Gitlab);
    assert_eq!(classify_proccess("ÀÉÎ DOCKERD", "ß"), ProcessType::Docker);
}

#[test]
fn capital_letters_give_the_same_kind() {
    for (cmdline, comm) in [
        ("/tmp/xmrig --pool=xyz", "sh"),
        ("/opt/gitlab-runner run", "runner"),
        ("/sbin/init", "systemd"),
        ("/usr/bin/dockerd -H fd://", "dockerd"),
        ("nginx: worker", "nginx"),
        ("/srv/été/minerd", "naïve"),
        ("aΣ xmrig bΣ", "Σ"),
    ] {
        let kind = classify_proccess(cmdline, comm);
        assert_eq!(
            classify_proccess(&cmdline.to_ascii_uppercase(), &comm.to_ascii_uppercase()),
            kind
        );
        assert_eq!(
            ProcessType::from_cmdline_and_comm(&cmdline.to_lowercase(), &comm.to_lowercase()),
            kind
        );
    }
}

#[test]
fn kind_of_the_higher_rank_wins() {
    let named = [
        ("nginx", ProcessType::Proc),
        ("dockerd", ProcessType::Docker),
        ("systemd", ProcessType::System),
        ("gitlab", ProcessType::Gitlab),
        ("kinsing", ProcessType::Suspicious),
    ];
    for (low, (cmdline, _)) in named.iter().enumerate() {
        for (high, (comm, kind)) in named.iter().enumerate() {
            if low <= high {
                assert_eq!(classify_proccess(cmdline, comm), *kind);
                assert_eq!(classify_proccess(comm, cmdline), *kind);
            }
        }
    }
}

#[test]
fn longer_texts_hide_no_name() {
    assert_eq!(classify_proccess("/usr/bin/dockerd -H fd://", "x"), ProcessType::Docker);
    assert_eq!(classify_proccess("nice /usr/bin/dockerd -H fd:// -D", "[x]"), ProcessType::Docker);
    assert_eq!(classify_proccess("nice dockerd", "[gitlab]/0"), ProcessType::Gitlab);
}
