//! All processes of the host at one moment, and what they used between two such moments.

use std::collections::HashMap;

use vstd::prelude::*;

use crate::clock::{rfc3339_of, Moment};
use crate::groups::{lemma_map_total_added, map_total, with_added, GroupTotals};
use crate::process::{classify_proccess, group_name, ProcessInfo, ProcessType, ProcessView};
use crate::seconds::CpuSeconds;

verus! {

broadcast use vstd::std_specs::hash::group_hash_axioms;

/// The processes of a snapshot by their numbers.
pub type Processes = Map<u32, ProcessView>;

/// Whether the process `pid` is in both snapshots and has run in between.
pub open spec fn ran_between(cur: Processes, prev: Processes, pid: u32) -> bool {
    cur.contains_key(pid) && prev.contains_key(pid) && cur[pid].ran_since(prev[pid])
}

/// The seconds that the process `pid` ran for between two snapshots.
pub open spec fn seconds_between(cur: Processes, prev: Processes, clk_tck: u64, pid: u32) -> real {
    cur[pid].seconds_since(prev[pid], clk_tck)
}

/// Whether the process `pid` used CPU time between two snapshots.
pub open spec fn busy(cur: Processes, prev: Processes, clk_tck: u64, pid: u32) -> bool {
    ran_between(cur, prev, pid) && seconds_between(cur, prev, clk_tck, pid) > 0 as real
}

/// What a [`ProcessDelta`] holds.
pub struct DeltaView {
    pub pid: u32,
    pub group: ProcessType,
    pub cpu_seconds: real,
    pub cmdline: Seq<char>,
    pub cgroup: Seq<char>,
}

impl DeltaView {
    /// The name of the group that the time is accounted to.
    pub open spec fn name(self) -> Seq<char> {
        group_name(self.group, self.cmdline)
    }
}

/// The CPU time that one process used between two snapshots.
#[derive(Debug, Clone)]
pub struct ProcessDelta {
    pub pid: u32,
    pub group: ProcessType,
    pub cpu_seconds: CpuSeconds,
    pub cmdline: String,
    /// The command name of the process.
    pub cgroup: String,
}

impl View for ProcessDelta {
    type V = DeltaView;

    open spec fn view(&self) -> DeltaView {
        DeltaView {
            pid: self.pid,
            group: self.group,
            cpu_seconds: self.cpu_seconds@,
            cmdline: self.cmdline@,
            cgroup: self.cgroup@,
        }
    }
}

/// What the process `pid` used between two snapshots.
pub open spec fn delta_between(
    cur: Processes,
    prev: Processes,
    clk_tck: u64,
    pid: u32,
) -> DeltaView {
    DeltaView {
        pid,
        group: cur[pid].kind(),
        cpu_seconds: seconds_between(cur, prev, clk_tck, pid),
        cmdline: cur[pid].cmdline,
        cgroup: cur[pid].comm,
    }
}

/// Whether a list holds what each busy process used, each process once and no other.
pub open spec fn is_usage_list(
    deltas: Seq<ProcessDelta>,
    cur: Processes,
    prev: Processes,
    clk_tck: u64,
) -> bool {
    &&& forall|i: int, j: int|
        0 <= i < j < deltas.len() ==> (#[trigger] deltas[i]).pid != (#[trigger] deltas[j]).pid
    &&& forall|i: int|
        0 <= i < deltas.len() ==> busy(cur, prev, clk_tck, (#[trigger] deltas[i]).pid)
            && deltas[i]@ == delta_between(cur, prev, clk_tck, deltas[i].pid)
    &&& forall|pid: u32| #[trigger] busy(cur, prev, clk_tck, pid) ==> is_listed(deltas, pid)
}

/// Whether a list holds what the process `pid` used.
pub open spec fn is_listed(deltas: Seq<ProcessDelta>, pid: u32) -> bool {
    exists|i: int| 0 <= i < deltas.len() && (#[trigger] deltas[i]).pid == pid
}

/// The seconds of one delta that are accounted to the group `name`.
pub open spec fn share_of(delta: DeltaView, name: Seq<char>) -> real {
    if delta.name() == name {
        delta.cpu_seconds
    } else {
        0 as real
    }
}

/// The seconds of a list of deltas that are accounted to the group `name`.
pub open spec fn group_seconds(deltas: Seq<ProcessDelta>, name: Seq<char>) -> real
    decreases deltas.len(),
{
    if deltas.len() == 0 {
        0 as real
    } else {
        group_seconds(deltas.drop_last(), name) + share_of(deltas.last()@, name)
    }
}

/// Whether a delta of the list is accounted to the group `name`.
pub open spec fn has_group(deltas: Seq<ProcessDelta>, name: Seq<char>) -> bool {
    exists|i: int| 0 <= i < deltas.len() && (#[trigger] deltas[i])@.name() == name
}

/// A list of deltas added up by group.
pub open spec fn group_sums(deltas: Seq<ProcessDelta>) -> Map<Seq<char>, real> {
    Map::new(
        |name: Seq<char>| has_group(deltas, name),
        |name: Seq<char>| group_seconds(deltas, name),
    )
}

/// All seconds of a list of deltas.
pub open spec fn all_seconds(deltas: Seq<ProcessDelta>) -> real
    decreases deltas.len(),
{
    if deltas.len() == 0 {
        0 as real
    } else {
        all_seconds(deltas.drop_last()) + deltas.last()@.cpu_seconds
    }
}

pub proof fn lemma_group_sums_step(deltas: Seq<ProcessDelta>)
    requires
        deltas.len() > 0,
    ensures
        group_sums(deltas) == with_added(
            group_sums(deltas.drop_last()),
            deltas.last()@.name(),
            deltas.last()@.cpu_seconds,
        ),
{
    let init = deltas.drop_last();
    let last = deltas.last();
    assert(deltas[deltas.len() - 1] == last);
    assert forall|name: Seq<char>|
        has_group(deltas, name) <==> has_group(init, name) || last@.name() == name by {
        if has_group(deltas, name) && last@.name() != name {
            let i = choose|i: int| 0 <= i < deltas.len() && (#[trigger] deltas[i])@.name() == name;
            assert(init[i] == deltas[i]);
        }
        if has_group(init, name) {
            let i = choose|i: int| 0 <= i < init.len() && (#[trigger] init[i])@.name() == name;
            assert(init[i] == deltas[i]);
        }
    }
    assert forall|name: Seq<char>| !has_group(init, name) implies group_seconds(init, name)
        == 0 as real by {
        lemma_no_group_no_seconds(init, name);
    }
    assert(group_sums(deltas) =~= with_added(
        group_sums(init),
        last@.name(),
        last@.cpu_seconds,
    ));
}

proof fn lemma_no_group_no_seconds(deltas: Seq<ProcessDelta>, name: Seq<char>)
    requires
        !has_group(deltas, name),
    ensures
        group_seconds(deltas, name) == 0 as real,
    decreases deltas.len(),
{
    if deltas.len() > 0 {
        let init = deltas.drop_last();
        assert(deltas[deltas.len() - 1]@.name() != name);
        assert forall|i: int| 0 <= i < init.len() implies (#[trigger] init[i])@.name() != name by {
            assert(init[i] == deltas[i]);
        }
        lemma_no_group_no_seconds(init, name);
    }
}

/// Grouping loses no time: the sum over all groups is the sum over all deltas.
pub proof fn law_grouping_keeps_total(deltas: Seq<ProcessDelta>)
    ensures
        group_sums(deltas).dom().finite(),
        map_total(group_sums(deltas)) == all_seconds(deltas),
    decreases deltas.len(),
{
    if deltas.len() == 0 {
        assert(group_sums(deltas) =~= Map::<Seq<char>, real>::empty());
    } else {
        let init = deltas.drop_last();
        law_grouping_keeps_total(init);
        lemma_group_sums_step(deltas);
        lemma_map_total_added(group_sums(init), deltas.last()@.name(), deltas.last()@.cpu_seconds);
    }
}

/// The number of process numbers.
pub const PID_COUNT: u64 = 0x1_0000_0000;

/// The seconds that the process `pid` adds to the group `name` between two snapshots.
pub open spec fn usage_share(
    cur: Processes,
    prev: Processes,
    clk_tck: u64,
    name: Seq<char>,
    pid: u32,
) -> real {
    if busy(cur, prev, clk_tck, pid) && cur[pid].group() == name {
        seconds_between(cur, prev, clk_tck, pid)
    } else {
        0 as real
    }
}

/// The seconds that the processes with numbers below `n` add to the group `name`.
pub open spec fn usage_below(
    cur: Processes,
    prev: Processes,
    clk_tck: u64,
    name: Seq<char>,
    n: nat,
) -> real
    decreases n,
{
    if n == 0 {
        0 as real
    } else {
        usage_below(cur, prev, clk_tck, name, (n - 1) as nat) + usage_share(
            cur,
            prev,
            clk_tck,
            name,
            (n - 1) as u32,
        )
    }
}

/// Whether a busy process belongs to the group `name`.
pub open spec fn group_busy(
    cur: Processes,
    prev: Processes,
    clk_tck: u64,
    name: Seq<char>,
) -> bool {
    exists|pid: u32| #[trigger] busy(cur, prev, clk_tck, pid) && cur[pid].group() == name
}

/// The CPU time used between two snapshots, by group. A group is there if one of its processes
/// was busy.
pub open spec fn usage_between(
    cur: Processes,
    prev: Processes,
    clk_tck: u64,
) -> Map<Seq<char>, real> {
    Map::new(
        |name: Seq<char>| group_busy(cur, prev, clk_tck, name),
        |name: Seq<char>| usage_below(cur, prev, clk_tck, name, PID_COUNT as nat),
    )
}

/// The seconds that the deltas of processes from `lo` up to `hi` add to the group `name`.
spec fn seconds_in(deltas: Seq<ProcessDelta>, name: Seq<char>, lo: int, hi: int) -> real
    decreases deltas.len(),
{
    if deltas.len() == 0 {
        0 as real
    } else {
        seconds_in(deltas.drop_last(), name, lo, hi) + (if lo <= deltas.last().pid < hi {
            share_of(deltas.last()@, name)
        } else {
            0 as real
        })
    }
}

proof fn lemma_seconds_in_split(
    deltas: Seq<ProcessDelta>,
    name: Seq<char>,
    lo: int,
    mid: int,
    hi: int,
)
    requires
        lo <= mid <= hi,
    ensures
        seconds_in(deltas, name, lo, hi) == seconds_in(deltas, name, lo, mid) + seconds_in(
            deltas,
            name,
            mid,
            hi,
        ),
    decreases deltas.len(),
{
    if deltas.len() > 0 {
        lemma_seconds_in_split(deltas.drop_last(), name, lo, mid, hi);
    }
}

proof fn lemma_seconds_in_all(deltas: Seq<ProcessDelta>, name: Seq<char>)
    ensures
        seconds_in(deltas, name, 0, PID_COUNT as int) == group_seconds(deltas, name),
        seconds_in(deltas, name, 0, 0) == 0 as real,
    decreases deltas.len(),
{
    if deltas.len() > 0 {
        lemma_seconds_in_all(deltas.drop_last(), name);
    }
}

/// The seconds of one process in a list in which no process occurs twice.
proof fn lemma_seconds_in_one(deltas: Seq<ProcessDelta>, name: Seq<char>, pid: u32)
    requires
        forall|i: int, j: int|
            0 <= i < j < deltas.len() ==> (#[trigger] deltas[i]).pid != (#[trigger] deltas[j]).pid,
    ensures
        !is_listed(deltas, pid) ==> seconds_in(deltas, name, pid as int, pid + 1) == 0 as real,
        forall|i: int|
            0 <= i < deltas.len() && (#[trigger] deltas[i]).pid == pid ==> seconds_in(
                deltas,
                name,
                pid as int,
                pid + 1,
            ) == share_of(deltas[i]@, name),
    decreases deltas.len(),
{
    if deltas.len() > 0 {
        let init = deltas.drop_last();
        let last = deltas.len() - 1;
        assert(deltas[last] == deltas.last());
        assert forall|i: int, j: int| 0 <= i < j < init.len() implies (#[trigger] init[i]).pid != (
        #[trigger] init[j]).pid by {
            assert(init[i] == deltas[i] && init[j] == deltas[j]);
        }
        lemma_seconds_in_one(init, name, pid);
        if is_listed(init, pid) {
            let i = choose|i: int| 0 <= i < init.len() && (#[trigger] init[i]).pid == pid;
            assert(deltas[i] == init[i]);
            assert(deltas[last].pid != pid);
        }
        assert forall|i: int| 0 <= i < deltas.len() && (#[trigger] deltas[i]).pid
            == pid implies seconds_in(deltas, name, pid as int, pid + 1) == share_of(
            deltas[i]@,
            name,
        ) by {
            if i < last {
                assert(init[i] == deltas[i]);
                assert(deltas[last].pid != pid);
            } else {
                assert(!is_listed(init, pid)) by {
                    if is_listed(init, pid) {
                        let k = choose|k: int| 0 <= k < init.len() && (#[trigger] init[k]).pid == pid;
                        assert(deltas[k] == init[k]);
                    }
                }
            }
        }
    }
}

proof fn lemma_usage_below(
    deltas: Seq<ProcessDelta>,
    cur: Processes,
    prev: Processes,
    clk_tck: u64,
    name: Seq<char>,
    n: nat,
)
    requires
        is_usage_list(deltas, cur, prev, clk_tck),
        n <= PID_COUNT,
    ensures
        seconds_in(deltas, name, 0, n as int) == usage_below(cur, prev, clk_tck, name, n),
    decreases n,
{
    if n == 0 {
        lemma_seconds_in_all(deltas, name);
    } else {
        let pid = (n - 1) as u32;
        lemma_usage_below(deltas, cur, prev, clk_tck, name, (n - 1) as nat);
        lemma_seconds_in_split(deltas, name, 0, n - 1, n as int);
        lemma_seconds_in_one(deltas, name, pid);
        if is_listed(deltas, pid) {
            let i = choose|i: int| 0 <= i < deltas.len() && (#[trigger] deltas[i]).pid == pid;
            assert(deltas[i]@ == delta_between(cur, prev, clk_tck, pid));
        }
    }
}

/// However the busy processes are listed, adding the list up by group gives the CPU time used
/// between the two snapshots.
pub proof fn law_listing_order_does_not_matter(
    deltas: Seq<ProcessDelta>,
    cur: Processes,
    prev: Processes,
    clk_tck: u64,
)
    requires
        is_usage_list(deltas, cur, prev, clk_tck),
    ensures
        group_sums(deltas) == usage_between(cur, prev, clk_tck),
{
    assert forall|name: Seq<char>|
        has_group(deltas, name) <==> group_busy(cur, prev, clk_tck, name) by {
        if has_group(deltas, name) {
            let i = choose|i: int| 0 <= i < deltas.len() && (#[trigger] deltas[i])@.name() == name;
            assert(busy(cur, prev, clk_tck, deltas[i].pid));
            assert(cur[deltas[i].pid].group() == name);
        }
        if group_busy(cur, prev, clk_tck, name) {
            let pid = choose|pid: u32| #[trigger]
                busy(cur, prev, clk_tck, pid) && cur[pid].group() == name;
            assert(is_listed(deltas, pid));
            let i = choose|i: int| 0 <= i < deltas.len() && (#[trigger] deltas[i]).pid == pid;
            assert(deltas[i]@.name() == name);
        }
    }
    assert forall|name: Seq<char>| group_seconds(deltas, name) == #[trigger] usage_below(
        cur,
        prev,
        clk_tck,
        name,
        PID_COUNT as nat,
    ) by {
        lemma_usage_below(deltas, cur, prev, clk_tck, name, PID_COUNT as nat);
        lemma_seconds_in_all(deltas, name);
    }
    assert(group_sums(deltas) =~= usage_between(cur, prev, clk_tck));
}

/// All processes of the host at one moment.
#[derive(Debug, Clone)]
pub struct ProcessSnapshot {
    pub timestamp: String,
    pub processes: HashMap<u32, ProcessInfo>,
}

impl View for ProcessSnapshot {
    type V = Processes;

    open spec fn view(&self) -> Processes {
        self.processes@.map_values(|p: ProcessInfo| p@)
    }
}

impl ProcessSnapshot {
    /// A snapshot of the present moment without any process.
    pub fn new() -> (res: Self)
        ensures
            res@ == Processes::empty(),
            res.timestamp@.len() > 0,
            exists|now: Moment| now.read_as(0) && res.timestamp@ == #[trigger] rfc3339_of(now),
    {
        ProcessSnapshot::taken_at(&Moment::now())
    }

    /// A snapshot of the given moment without any process.
    pub fn taken_at(moment: &Moment) -> (res: Self)
        requires
            moment.valid(),
        ensures
            res@ == Processes::empty(),
            res.timestamp@.len() > 0,
            res.timestamp@ == rfc3339_of(*moment),
    {
        let res: ProcessSnapshot = ProcessSnapshot {
            timestamp: moment.to_rfc3339(),
            processes: HashMap::new(),
        };
        assert(res@ =~= Processes::empty());
        res
    }

    /// Adds a process. It takes the place of one with the same number.
    pub fn add_process(&mut self, process: ProcessInfo)
        ensures
            final(self).processes@ == old(self).processes@.insert(process.pid, process),
            final(self)@ == old(self)@.insert(process.pid, process@),
            final(self).timestamp == old(self).timestamp,
    {
        self.processes.insert(process.pid, process);
        assert(self@ =~= old(self)@.insert(process.pid, process@));
    }

    /// The number of processes.
    pub fn process_count(&self) -> (res: usize)
        ensures
            res == self.processes@.len(),
            res == self@.len(),
    {
        assert(self@.dom() =~= self.processes@.dom());
        self.processes.len()
    }

    /// The process of that number.
    pub fn get_process(&self, pid: u32) -> (res: Option<&ProcessInfo>)
        ensures
            res is Some <==> self@.contains_key(pid),
            res matches Some(process) ==> *process == self.processes@[pid] && process@
                == self@[pid],
    {
        self.processes.get(&pid)
    }

    /// The seconds that each process ran for between `prev` and this snapshot, at `clk_tck` clock
    /// ticks a second. A process that is not in both snapshots, or whose counter has not grown,
    /// has no entry.
    pub fn calculate_deltas(&self, prev: &Self, clk_tck: u64) -> (res: HashMap<u32, CpuSeconds>)
        ensures
            forall|pid: u32| #[trigger]
                res@.contains_key(pid) <==> ran_between(self@, prev@, pid),
            forall|pid: u32| #[trigger]
                res@.contains_key(pid) ==> res@[pid]@ == seconds_between(
                    self@,
                    prev@,
                    clk_tck,
                    pid,
                ),
    {
        let mut deltas: HashMap<u32, CpuSeconds> = HashMap::new();
        for (pid, cur_process) in it: self.processes.iter()
            invariant
                forall|i: int|
                    0 <= i < it.seq().len() ==> self@.contains_key(
                        *(#[trigger] it.seq()[i]).0,
                    ) && self@[*it.seq()[i].0] == it.seq()[i].1@,
                forall|pid: u32| #[trigger]
                    deltas@.contains_key(pid) ==> ran_between(self@, prev@, pid) && deltas@[pid]@
                        == seconds_between(self@, prev@, clk_tck, pid),
                forall|i: int|
                    0 <= i < it.index() && ran_between(
                        self@,
                        prev@,
                        *(#[trigger] it.seq()[i]).0,
                    ) ==> deltas@.contains_key(*it.seq()[i].0),
        {
            if let Some(prev_process) = prev.get_process(*pid) {
                if let Some(delta_sec) = cur_process.cpu_delta_seconds(prev_process, clk_tck) {
                    deltas.insert(*pid, delta_sec);
                }
            }
        }
        deltas
    }

    /// What each busy process used between `prev` and this snapshot, at `clk_tck` clock ticks a
    /// second, with the kind of the process. The order of the list is not fixed.
    pub fn calculate_classified_deltas(&self, prev: &Self, clk_tck: u64) -> (res: Vec<ProcessDelta>)
        ensures
            is_usage_list(res@, self@, prev@, clk_tck),
    {
        let zero: CpuSeconds = CpuSeconds::zero();
        let pids: Vec<u32> = self.pids();
        let mut deltas: Vec<ProcessDelta> = Vec::new();
        let mut k: usize = 0;
        while k < pids.len()
            invariant
                zero@ == 0 as real,
                k <= pids@.len(),
                pids@.no_duplicates(),
                forall|pid: u32| pids@.contains(pid) <==> self@.contains_key(pid),
                forall|i: int, j: int|
                    0 <= i < j < deltas@.len() ==> (#[trigger] deltas@[i]).pid != (
                    #[trigger] deltas@[j]).pid,
                forall|i: int|
                    0 <= i < deltas@.len() ==> busy(
                        self@,
                        prev@,
                        clk_tck,
                        (#[trigger] deltas@[i]).pid,
                    ) && deltas@[i]@ == delta_between(self@, prev@, clk_tck, deltas@[i].pid)
                        && pids@.take(k as int).contains(deltas@[i].pid),
                forall|j: int|
                    0 <= j < k && busy(self@, prev@, clk_tck, #[trigger] pids@[j]) ==> is_listed(
                        deltas@,
                        pids@[j],
                    ),
            decreases pids@.len() - k,
        {
            let pid: u32 = pids[k];
            let ghost before = deltas@;
            proof {
                assert(pids@.contains(pid));
                assert(!pids@.take(k as int).contains(pid));
                assert(pids@.take(k + 1) =~= pids@.take(k as int).push(pid));
                assert forall|p: u32| pids@.take(k as int).contains(p) implies pids@.take(
                    k + 1,
                ).contains(p) by {
                    let j = choose|j: int| 0 <= j < k && pids@.take(k as int)[j] == p;
                    assert(pids@.take(k + 1)[j] == p);
                }
                assert(pids@.take(k + 1)[k as int] == pid);
            }
            if let Some(delta) = self.delta_of(prev, clk_tck, pid, &zero) {
                deltas.push(delta);
                assert(deltas@[before.len() as int].pid == pid);
            }
            proof {
                assert forall|j: int|
                    0 <= j < k + 1 && busy(
                        self@,
                        prev@,
                        clk_tck,
                        #[trigger] pids@[j],
                    ) implies is_listed(deltas@, pids@[j]) by {
                    if j < k {
                        let i = choose|i: int|
                            0 <= i < before.len() && (#[trigger] before[i]).pid == pids@[j];
                        assert(deltas@[i] == before[i]);
                    }
                }
            }
            k = k + 1;
        }
        assert forall|pid: u32| #[trigger] busy(self@, prev@, clk_tck, pid) implies is_listed(
            deltas@,
            pid,
        ) by {
            assert(pids@.contains(pid));
        }
        deltas
    }

    /// Adds up a list of deltas by group.
    pub fn aggregate_by_group(deltas: &[ProcessDelta]) -> (res: GroupTotals)
        ensures
            res@ == group_sums(deltas@),
    {
        let mut groups: GroupTotals = GroupTotals::new();
        let mut i: usize = 0;
        assert(group_sums(deltas@.take(0)) =~= Map::<Seq<char>, real>::empty());
        while i < deltas.len()
            invariant
                i <= deltas@.len(),
                groups@ == group_sums(deltas@.take(i as int)),
            decreases deltas@.len() - i,
        {
            let delta: &ProcessDelta = &deltas[i];
            groups.add_time(delta.group.converte(delta.cmdline.clone()), &delta.cpu_seconds);
            proof {
                lemma_group_sums_step(deltas@.take(i + 1));
                assert(deltas@.take(i + 1).drop_last() =~= deltas@.take(i as int));
            }
            i = i + 1;
        }
        assert(deltas@.take(deltas@.len() as int) =~= deltas@);
        groups
    }

    /// The numbers of all processes, in no fixed order.
    fn pids(&self) -> (res: Vec<u32>)
        ensures
            res@.no_duplicates(),
            forall|pid: u32| res@.contains(pid) <==> self@.contains_key(pid),
    {
        let mut pids: Vec<u32> = Vec::new();
        let ghost keys = vstd::std_specs::iter::IteratorSpec::remaining(
            &vstd::std_specs::hash::spec_keys_iter(&self.processes),
        ).unref();
        for pid in it: self.processes.keys()
            invariant
                it.seq().unref() == keys,
                pids@ == keys.take(it.index()),
        {
            pids.push(*pid);
            assert(pids@ =~= keys.take(it.index() + 1));
        }
        assert(pids@ =~= keys);
        assert forall|pid: u32| pids@.contains(pid) <==> self@.contains_key(pid) by {
            assert(pids@.to_set().contains(pid) <==> pids@.contains(pid));
        }
        pids
    }

    /// What the process `pid` used since `prev`; nothing where it used no time.
    fn delta_of(&self, prev: &Self, clk_tck: u64, pid: u32, zero: &CpuSeconds) -> (res: Option<
        ProcessDelta,
    >)
        requires
            self@.contains_key(pid),
            zero@ == 0 as real,
        ensures
            res is Some <==> busy(self@, prev@, clk_tck, pid),
            res matches Some(delta) ==> delta@ == delta_between(self@, prev@, clk_tck, pid),
    {
        if let (Some(cur_process), Some(prev_process)) = (
            self.get_process(pid),
            prev.get_process(pid),
        ) {
            if let Some(cpu_seconds) = cur_process.cpu_delta_seconds(prev_process, clk_tck) {
                if cpu_seconds.exceeds(zero) {
                    let group: ProcessType = classify_proccess(
                        cur_process.cmdline.as_str(),
                        cur_process.comm.as_str(),
                    );
                    return Some(
                        ProcessDelta {
                            pid,
                            group,
                            cpu_seconds,
                            cmdline: cur_process.cmdline.clone(),
                            cgroup: cur_process.comm.clone(),
                        },
                    );
                }
            }
        }
        None
    }
}

impl Default for ProcessSnapshot {
    fn default() -> (res: Self)
        ensures
            res@ == Processes::empty(),
            res.timestamp@.len() > 0,
            exists|now: Moment| now.read_as(0) && res.timestamp@ == #[trigger] rfc3339_of(now),
    {
        ProcessSnapshot::new()
    }
}

} // verus!
