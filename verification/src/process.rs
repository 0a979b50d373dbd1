//! One process: its CPU counters and the kind of work it does.

use vstd::prelude::*;

use crate::seconds::{tick_seconds, CpuSeconds};
use crate::text::{contains_text, has_text, lowercase, lowercase_of};

verus! {

/// What a [`ProcessInfo`] holds.
pub struct ProcessView {
    pub pid: u32,
    pub utime: u64,
    pub stime: u64,
    pub cmdline: Seq<char>,
    pub comm: Seq<char>,
    pub uid: u32,
    pub cgroup: Seq<char>,
}

impl ProcessView {
    /// The clock ticks that the process has run for, in user and in kernel mode.
    pub open spec fn ticks(self) -> nat {
        self.utime as nat + self.stime as nat
    }

    /// Whether the process has run since `prev`. A counter that fell belongs to another process
    /// that got the same number.
    pub open spec fn ran_since(self, prev: ProcessView) -> bool {
        self.ticks() > prev.ticks()
    }

    /// The seconds that the process has run for since `prev`.
    pub open spec fn seconds_since(self, prev: ProcessView, clk_tck: u64) -> real {
        tick_seconds(self.ticks() - prev.ticks(), clk_tck as int)
    }

    /// The kind of the process.
    pub open spec fn kind(self) -> ProcessType {
        kind_of(lowercase_of(self.cmdline), lowercase_of(self.comm))
    }

    /// The group that the process is accounted to.
    pub open spec fn group(self) -> Seq<char> {
        group_name(self.kind(), self.cmdline)
    }
}

/// A process as it was seen at one moment.
#[derive(Debug, Clone)]
pub struct ProcessInfo {
    pub pid: u32,
    pub utime: u64,
    pub stime: u64,
    pub cmdline: String,
    pub comm: String,
    pub uid: u32,
    pub cgroup: String,
}

impl View for ProcessInfo {
    type V = ProcessView;

    open spec fn view(&self) -> ProcessView {
        ProcessView {
            pid: self.pid,
            utime: self.utime,
            stime: self.stime,
            cmdline: self.cmdline@,
            comm: self.comm@,
            uid: self.uid,
            cgroup: self.cgroup@,
        }
    }
}

impl ProcessInfo {
    pub fn new(
        pid: u32,
        utime: u64,
        stime: u64,
        cmdline: String,
        comm: String,
        uid: u32,
        cgroup: String,
    ) -> (res: Self)
        ensures
            res == (ProcessInfo { pid, utime, stime, cmdline, comm, uid, cgroup }),
    {
        ProcessInfo { pid, utime, stime, cmdline, comm, uid, cgroup }
    }

    /// The clock ticks that the process has run for, in user and in kernel mode.
    pub fn total_cpu_ticks(&self) -> (res: u64)
        requires
            self@.ticks() <= u64::MAX,
        ensures
            res == self@.ticks(),
    {
        self.utime + self.stime
    }

    fn wide_cpu_ticks(&self) -> (res: u128)
        ensures
            res == self@.ticks(),
    {
        self.utime as u128 + self.stime as u128
    }

    /// The seconds that the process has run for, at `clk_tck` clock ticks a second.
    pub fn total_cpu_time(&self, clk_tck: u64) -> (res: CpuSeconds)
        ensures
            res@ == tick_seconds(self@.ticks() as int, clk_tck as int),
    {
        CpuSeconds::of_ticks(self.wide_cpu_ticks(), clk_tck)
    }

    /// The clock ticks that the process has run for since `prev`; nothing where the counter has
    /// not grown.
    pub fn cpu_delta_ticks(&self, prev: &ProcessInfo) -> (res: Option<u64>)
        requires
            self@.ticks() <= u64::MAX,
            prev@.ticks() <= u64::MAX,
        ensures
            res is Some <==> self@.ran_since(prev@),
            res matches Some(ticks) ==> ticks == self@.ticks() - prev@.ticks(),
    {
        let cur_total: u64 = self.total_cpu_ticks();
        let prev_total: u64 = prev.total_cpu_ticks();
        if cur_total > prev_total {
            Some(cur_total - prev_total)
        } else {
            None
        }
    }

    /// The seconds that the process has run for since `prev`, at `clk_tck` clock ticks a second;
    /// nothing where the counter has not grown.
    pub fn cpu_delta_seconds(&self, prev: &Self, clk_tck: u64) -> (res: Option<CpuSeconds>)
        ensures
            res is Some <==> self@.ran_since(prev@),
            res matches Some(seconds) ==> seconds@ == self@.seconds_since(prev@, clk_tck),
    {
        let cur_total: u128 = self.wide_cpu_ticks();
        let prev_total: u128 = prev.wide_cpu_ticks();
        if cur_total > prev_total {
            Some(CpuSeconds::of_ticks(cur_total - prev_total, clk_tck))
        } else {
            None
        }
    }
}

/// The kind of work that a process does.
#[derive(Debug, Clone, Copy, PartialEq, Eq, Hash, Structural)]
pub enum ProcessType {
    System,
    Proc,
    Gitlab,
    Docker,
    Suspicious,
}

/// The name under which a kind of process is shown.
pub open spec fn kind_label(kind: ProcessType) -> Seq<char> {
    match kind {
        ProcessType::System => "💻 System"@,
        ProcessType::Proc => "⚙ Proc"@,
        ProcessType::Gitlab => "🦊 Gitlab"@,
        ProcessType::Docker => "🐋 Docker"@,
        ProcessType::Suspicious => "⚠️ Suspicious"@,
    }
}

/// Whether the processes of a kind are accounted each under its own command line. Those of the
/// other kinds share one group.
pub open spec fn grouped_by_cmdline(kind: ProcessType) -> bool {
    kind is Proc || kind is Suspicious || kind is Docker
}

/// The name of the group that a process of the given kind and command line is accounted to.
pub open spec fn group_name(kind: ProcessType, cmdline: Seq<char>) -> Seq<char> {
    if grouped_by_cmdline(kind) {
        kind_label(kind) + ":"@ + cmdline
    } else {
        kind_label(kind)
    }
}

/// Whether a name stands in the command line or in the command name.
pub open spec fn mentions(cmdline: Seq<char>, comm: Seq<char>, name: Seq<char>) -> bool {
    has_text(cmdline, name) || has_text(comm, name)
}

/// Whether a known miner or intruder is named.
pub open spec fn looks_suspicious(cmdline: Seq<char>, comm: Seq<char>) -> bool {
    ||| mentions(cmdline, comm, "xmrig"@)
    ||| mentions(cmdline, comm, "minerd"@)
    ||| mentions(cmdline, comm, "cpuminer"@)
    ||| mentions(cmdline, comm, "cryptonight"@)
    ||| mentions(cmdline, comm, "nicehash"@)
    ||| mentions(cmdline, comm, "kinsing"@)
}

/// Whether a part of the operating system is named.
pub open spec fn looks_system(cmdline: Seq<char>, comm: Seq<char>) -> bool {
    ||| mentions(cmdline, comm, "systemd"@)
    ||| mentions(cmdline, comm, "init"@)
    ||| mentions(cmdline, comm, "kthreadd"@)
}

/// Whether a part of the container runtime is named.
pub open spec fn looks_docker(cmdline: Seq<char>, comm: Seq<char>) -> bool {
    ||| mentions(cmdline, comm, "containerd"@)
    ||| mentions(cmdline, comm, "dockerd"@)
}

/// The kind of a process, by the names that its command line and command name mention. What is
/// suspicious comes first, whatever else is named.
pub open spec fn kind_of(cmdline: Seq<char>, comm: Seq<char>) -> ProcessType {
    if looks_suspicious(cmdline, comm) {
        ProcessType::Suspicious
    } else if mentions(cmdline, comm, "gitlab"@) {
        ProcessType::Gitlab
    } else if looks_system(cmdline, comm) {
        ProcessType::System
    } else if looks_docker(cmdline, comm) {
        ProcessType::Docker
    } else {
        ProcessType::Proc
    }
}

fn named(cmdline: &str, comm: &str, name: &str) -> (res: bool)
    ensures
        res == mentions(cmdline@, comm@, name@),
{
    contains_text(cmdline, name) || contains_text(comm, name)
}

impl ProcessType {
    /// The name under which the kind is shown.
    pub fn to_string(&self) -> (res: String)
        ensures
            res@ == kind_label(*self),
    {
        match self {
            ProcessType::System => "💻 System".to_owned(),
            ProcessType::Proc => "⚙ Proc".to_owned(),
            ProcessType::Gitlab => "🦊 Gitlab".to_owned(),
            ProcessType::Docker => "🐋 Docker".to_owned(),
            ProcessType::Suspicious => "⚠️ Suspicious".to_owned(),
        }
    }

    /// The name of the group that a process of this kind is accounted to, such as
    /// `🐋 Docker:containerd` or `🦊 Gitlab`.
    pub fn converte(&self, comm: String) -> (res: String)
        ensures
            res@ == group_name(*self, comm@),
    {
        let mut name: String = self.to_string();
        match self {
            ProcessType::Proc | ProcessType::Suspicious | ProcessType::Docker => {
                name.append(":");
                name.append(comm.as_str());
            },
            _ => {},
        }
        name
    }

    /// The kind of a process, by the names that its command line and command name mention. Both
    /// are searched as they are, so they should be in lower case.
    pub fn from_cmdline_and_comm(cmdline: &str, comm: &str) -> (res: Self)
        ensures
            res == kind_of(cmdline@, comm@),
    {
        if named(cmdline, comm, "xmrig") || named(cmdline, comm, "minerd") || named(
            cmdline,
            comm,
            "cpuminer",
        ) || named(cmdline, comm, "cryptonight") || named(cmdline, comm, "nicehash") || named(
            cmdline,
            comm,
            "kinsing",
        ) {
            ProcessType::Suspicious
        } else if named(cmdline, comm, "gitlab") {
            ProcessType::Gitlab
        } else if named(cmdline, comm, "systemd") || named(cmdline, comm, "init") || named(
            cmdline,
            comm,
            "kthreadd",
        ) {
            ProcessType::System
        } else if named(cmdline, comm, "containerd") || named(cmdline, comm, "dockerd") {
            ProcessType::Docker
        } else {
            ProcessType::Proc
        }
    }
}

/// The kind of a process, whatever the case of its command line and command name.
pub fn classify_proccess(cmdline: &str, comm: &str) -> (res: ProcessType)
    ensures
        res == kind_of(lowercase_of(cmdline@), lowercase_of(comm@)),
{
    let cmdline: String = lowercase(cmdline);
    let comm: String = lowercase(comm);
    ProcessType::from_cmdline_and_comm(cmdline.as_str(), comm.as_str())
}

} // verus!
