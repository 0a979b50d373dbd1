//! What the operations on snapshots, groups and monitors give, told by what goes into them and what
//! comes out of them.

use std::collections::HashMap;

use vstd::prelude::*;

use crate::clock::{rfc3339_text, Moment};
use crate::groups::{law_merge_keeps_total, lemma_map_total_added, GroupTotals};
use crate::laws::{law_ranking_leaves_none_out, law_running_is_busy};
use crate::outcomes::lemma_seconds_count_ticks;
use crate::process::{classify_proccess, ProcessInfo, ProcessType};
use crate::reading::{readings_processes, ProcReading};
use crate::seconds::CpuSeconds;
use crate::snapshot::{busy, lemma_group_sums_step, ProcessDelta, ProcessSnapshot};
use crate::text::{clean_cmdline, first_line};

verus! {

/// A reading describes a process exactly where its counters and its user could be read, whatever
/// they are. The process has what was read: the command line as it is shown, and the first line of
/// the control groups.
pub proof fn law_every_full_reading_is_a_process(
    reading: ProcReading,
    res: Option<ProcessInfo>,
    raw_cmdline: &str,
    cmdline: String,
    raw_cgroup: &str,
    cgroup: String,
)
    requires
        call_ensures(ProcReading::to_process, (&reading,), res),
        call_ensures(clean_cmdline, (raw_cmdline,), cmdline),
        call_ensures(first_line, (raw_cgroup,), cgroup),
        raw_cmdline@ == reading.cmdline@,
        raw_cgroup@ == reading.cgroup@,
    ensures
        res is Some <==> reading.stat is Some && reading.ruid is Some,
        res matches Some(process) ==> {
            &&& process.pid == reading.pid as u32
            &&& reading.pid >= 0 ==> process.pid == reading.pid
            &&& process.utime == reading.stat->0.utime
            &&& process.stime == reading.stat->0.stime
            &&& process.comm@ == reading.stat->0.comm@
            &&& process.uid == reading.ruid->0
            &&& process.cmdline@ == cmdline@
            &&& process.cgroup@ == cgroup@
        },
{
}

proof fn lemma_readings_are_held(readings: Seq<ProcReading>, i: int)
    requires
        0 <= i < readings.len(),
        readings[i].stat is Some,
        readings[i].ruid is Some,
    ensures
        readings_processes(readings).contains_key(readings[i].pid as u32),
        (forall|j: int|
            i < j < readings.len() && (#[trigger] readings[j]).stat is Some
                && readings[j].ruid is Some ==> readings[j].pid as u32 != readings[i].pid as u32)
            ==> readings[i].process() == Some(
            readings_processes(readings)[readings[i].pid as u32],
        ),
    decreases readings.len(),
{
    let init = readings.drop_last();
    if i < init.len() {
        assert(init[i] == readings[i]);
        lemma_readings_are_held(init, i);
        assert(forall|j: int| i < j < init.len() ==> init[j] == #[trigger] readings[j]);
        assert(readings[readings.len() - 1] == readings.last());
    }
}

proof fn lemma_held_was_read(readings: Seq<ProcReading>, pid: u32)
    requires
        readings_processes(readings).contains_key(pid),
    ensures
        exists|i: int|
            0 <= i < readings.len() && (#[trigger] readings[i]).stat is Some
                && readings[i].ruid is Some && readings[i].pid as u32 == pid,
    decreases readings.len(),
{
    if readings.len() > 0 {
        let init = readings.drop_last();
        let last = readings[readings.len() - 1];
        if !(last.stat is Some && last.ruid is Some && last.pid as u32 == pid) {
            lemma_held_was_read(init, pid);
            let i = choose|i: int|
                0 <= i < init.len() && (#[trigger] init[i]).stat is Some && init[i].ruid is Some
                    && init[i].pid as u32 == pid;
            assert(readings[i] == init[i]);
        }
    }
}

/// A snapshot holds every process of which the counters and the user could be read, under its own
/// number, as its last such reading describes it, and no other. It is dated by the moment that was
/// given.
pub proof fn law_snapshot_holds_every_reading(
    begun: Moment,
    readings: Vec<ProcReading>,
    res: ProcessSnapshot,
    i: int,
    made: ProcessInfo,
    pid: u32,
)
    requires
        call_ensures(ProcessSnapshot::from_readings, (&begun, &readings), res),
        0 <= i < readings@.len(),
        call_ensures(ProcReading::to_process, (&readings@[i],), Some(made)),
    ensures
        res.processes@.contains_key(readings@[i].pid as u32),
        (forall|j: int|
            i < j < readings@.len() && (#[trigger] readings@[j]).stat is Some
                && readings@[j].ruid is Some ==> readings@[j].pid as u32
                != readings@[i].pid as u32) ==> {
            let held = res.processes@[readings@[i].pid as u32];
            &&& held.pid == made.pid && held.utime == made.utime && held.stime == made.stime
            &&& held.uid == made.uid && held.cmdline@ == made.cmdline@ && held.comm@ == made.comm@
            &&& held.cgroup@ == made.cgroup@
        },
        res.processes@.contains_key(pid) ==> exists|k: int|
            0 <= k < readings@.len() && (#[trigger] readings@[k]).stat is Some
                && readings@[k].ruid is Some && readings@[k].pid as u32 == pid,
        res.timestamp@ == rfc3339_text(begun.secs, begun.nanos, begun.offset),
{
    assert(readings@[i].stat is Some && readings@[i].ruid is Some);
    lemma_readings_are_held(readings@, i);
    assert(res@.contains_key(readings@[i].pid as u32));
    if res.processes@.contains_key(pid) {
        assert(res@.contains_key(pid));
        lemma_held_was_read(readings@, pid);
    }
}

/// A new snapshot is empty, and one of a given moment is dated by that moment.
pub proof fn law_new_snapshot_is_empty(
    moment: Moment,
    new: ProcessSnapshot,
    default: ProcessSnapshot,
    dated: ProcessSnapshot,
    pid: u32,
)
    requires
        call_ensures(ProcessSnapshot::new, (), new),
        call_ensures(ProcessSnapshot::default, (), default),
        call_ensures(ProcessSnapshot::taken_at, (&moment,), dated),
    ensures
        !new.processes@.contains_key(pid),
        exists|now: Moment| #[trigger]
            now.read_as(0) && new.timestamp@ == rfc3339_text(now.secs, now.nanos, now.offset),
        !default.processes@.contains_key(pid),
        exists|now: Moment| #[trigger]
            now.read_as(0) && default.timestamp@ == rfc3339_text(now.secs, now.nanos, now.offset),
        !dated.processes@.contains_key(pid),
        dated.timestamp@ == rfc3339_text(moment.secs, moment.nanos, moment.offset),
{
    assert(new.processes@.contains_key(pid) ==> new@.contains_key(pid));
    assert(default.processes@.contains_key(pid) ==> default@.contains_key(pid));
    assert(dated.processes@.contains_key(pid) ==> dated@.contains_key(pid));
}

/// A process that was added is found under its own number as it is. Under every other number is
/// found what was there before.
pub proof fn law_added_process_is_given_back(
    snapshot: &mut ProcessSnapshot,
    process: ProcessInfo,
    pid: u32,
    before: Option<&ProcessInfo>,
    after: Option<&ProcessInfo>,
)
    requires
        call_ensures(ProcessSnapshot::add_process, (snapshot, process), ()),
        call_ensures(ProcessSnapshot::get_process, (&*old(snapshot), pid), before),
        call_ensures(ProcessSnapshot::get_process, (&*final(snapshot), pid), after),
    ensures
        pid == process.pid ==> after == Some(&process),
        pid != process.pid ==> after == before,
        final(snapshot).timestamp@ == old(snapshot).timestamp@,
{
    assert(final(snapshot)@.contains_key(pid) == final(snapshot).processes@.contains_key(pid));
    assert(old(snapshot)@.contains_key(pid) == old(snapshot).processes@.contains_key(pid));
}

/// The count of a snapshot is that of its numbers: one more process under a new number is one
/// more, and one that takes the place of another is none.
pub proof fn law_count_is_of_numbers(
    snapshot: &mut ProcessSnapshot,
    process: ProcessInfo,
    before: usize,
    after: usize,
)
    requires
        call_ensures(ProcessSnapshot::add_process, (snapshot, process), ()),
        call_ensures(ProcessSnapshot::process_count, (&*old(snapshot),), before),
        call_ensures(ProcessSnapshot::process_count, (&*final(snapshot),), after),
    ensures
        after == if old(snapshot).processes@.contains_key(process.pid) {
            before as int
        } else {
            before + 1
        },
{
    let held = old(snapshot).processes@;
    assert(held.insert(process.pid, process).dom() =~= held.dom().insert(process.pid));
}

/// By how many ticks the counters of a process have grown.
pub open spec fn growth(cur: ProcessInfo, prev: ProcessInfo) -> int {
    cur.utime + cur.stime - prev.utime - prev.stime
}

/// Whether a number stands for a process in both snapshots whose counters have grown.
pub open spec fn has_grown(cur: ProcessSnapshot, prev: ProcessSnapshot, pid: u32) -> bool {
    &&& cur.processes@.contains_key(pid)
    &&& prev.processes@.contains_key(pid)
    &&& growth(cur.processes@[pid], prev.processes@[pid]) > 0
}

pub proof fn lemma_views(cur: ProcessSnapshot, prev: ProcessSnapshot, clk_tck: u64, pid: u32)
    ensures
        cur@.contains_key(pid) == cur.processes@.contains_key(pid),
        cur@.contains_key(pid) ==> cur@[pid] == cur.processes@[pid]@,
        prev@.contains_key(pid) == prev.processes@.contains_key(pid),
        prev@.contains_key(pid) ==> prev@[pid] == prev.processes@[pid]@,
        busy(cur@, prev@, clk_tck, pid) <==> has_grown(cur, prev, pid) && clk_tck > 0,
{
    law_running_is_busy(cur@, prev@, clk_tck, pid);
}

/// Between two snapshots there is an entry for each process that is in both and whose counters have
/// grown, and for no other. Counted at the same rate, it is the ticks that they have grown by.
pub proof fn law_deltas_are_what_counters_grew_by(
    cur: ProcessSnapshot,
    prev: ProcessSnapshot,
    clk_tck: u64,
    res: HashMap<u32, CpuSeconds>,
    pid: u32,
)
    requires
        call_ensures(ProcessSnapshot::calculate_deltas, (&cur, &prev, clk_tck), res),
    ensures
        res@.contains_key(pid) <==> has_grown(cur, prev, pid),
        res@.contains_key(pid) && clk_tck > 0 ==> res@[pid]@ * (clk_tck as int as real) == growth(
            cur.processes@[pid],
            prev.processes@[pid],
        ) as real,
        res@.contains_key(pid) && clk_tck == 0 ==> res@[pid]@ == 0 as real,
{
    lemma_views(cur, prev, clk_tck, pid);
    lemma_seconds_count_ticks(growth(cur.processes@[pid], prev.processes@[pid]), clk_tck);
}

/// Between two snapshots at a running clock, each process that is in both and whose counters have
/// grown is listed once, and no other is. What is listed of it are its own number, command line and
/// command name, the kind that its texts are classified as, and the time that its counters have
/// grown by. At a clock that stands still nothing is listed.
pub proof fn law_each_grown_process_is_listed_once(
    cur: ProcessSnapshot,
    prev: ProcessSnapshot,
    clk_tck: u64,
    res: Vec<ProcessDelta>,
    pid: u32,
    cmdline: &str,
    comm: &str,
    kind: ProcessType,
    i: int,
    j: int,
)
    requires
        call_ensures(ProcessSnapshot::calculate_classified_deltas, (&cur, &prev, clk_tck), res),
        call_ensures(classify_proccess, (cmdline, comm), kind),
    ensures
        has_grown(cur, prev, pid) && clk_tck > 0 <==> exists|k: int|
            0 <= k < res@.len() && (#[trigger] res@[k]).pid == pid,
        0 <= i < j < res@.len() ==> res@[i].pid != res@[j].pid,
        0 <= i < res@.len() ==> {
            let (now, was) = (cur.processes@[res@[i].pid], prev.processes@[res@[i].pid]);
            &&& has_grown(cur, prev, res@[i].pid) && clk_tck > 0
            &&& res@[i].cmdline@ == now.cmdline@
            &&& res@[i].cgroup@ == now.comm@
            &&& res@[i].cpu_seconds@ * (clk_tck as int as real) == growth(now, was) as real
            &&& cmdline@ == now.cmdline@ && comm@ == now.comm@ ==> res@[i].group == kind
        },
{
    lemma_views(cur, prev, clk_tck, pid);
    if exists|k: int| 0 <= k < res@.len() && (#[trigger] res@[k]).pid == pid {
        let k = choose|k: int| 0 <= k < res@.len() && (#[trigger] res@[k]).pid == pid;
        assert(busy(cur@, prev@, clk_tck, res@[k].pid));
    }
    if 0 <= i < res@.len() {
        let number = res@[i].pid;
        lemma_views(cur, prev, clk_tck, number);
        lemma_seconds_count_ticks(
            growth(cur.processes@[number], prev.processes@[number]),
            clk_tck,
        );
    }
}

/// Whether two accounts are the same but for `seconds` more under `name` in the second.
pub open spec fn differ_by(
    before: Map<Seq<char>, real>,
    after: Map<Seq<char>, real>,
    name: Seq<char>,
    seconds: real,
) -> bool {
    &&& after.contains_key(name)
    &&& after[name] == seconds + if before.contains_key(name) {
        before[name]
    } else {
        0 as real
    }
    &&& forall|other: Seq<char>|
        other != name ==> (#[trigger] after.contains_key(other) <==> before.contains_key(other))
    &&& forall|other: Seq<char>|
        other != name && #[trigger] after.contains_key(other) ==> after[other] == before[other]
}

/// Grouping an empty list gives no group.
pub proof fn law_nothing_groups_to_nothing(
    deltas: &[ProcessDelta],
    res: GroupTotals,
    name: Seq<char>,
)
    requires
        call_ensures(ProcessSnapshot::aggregate_by_group, (deltas,), res),
        deltas@.len() == 0,
    ensures
        !res@.contains_key(name),
{
}

/// One delta more in a list is its time more in the group that its own kind and command line name,
/// and nothing anywhere else.
pub proof fn law_each_delta_goes_to_its_own_group(
    shorter: &[ProcessDelta],
    longer: &[ProcessDelta],
    delta: ProcessDelta,
    cmdline: String,
    name: String,
    before: GroupTotals,
    after: GroupTotals,
)
    requires
        call_ensures(ProcessSnapshot::aggregate_by_group, (shorter,), before),
        call_ensures(ProcessSnapshot::aggregate_by_group, (longer,), after),
        longer@ == shorter@.push(delta),
        call_ensures(ProcessType::converte, (&delta.group, cmdline), name),
        cmdline@ == delta.cmdline@,
    ensures
        differ_by(before@, after@, name@, delta.cpu_seconds@),
{
    assert(longer@.drop_last() =~= shorter@);
    lemma_group_sums_step(longer@);
}

/// The same, with the names of the groups written out.
pub proof fn law_each_delta_goes_under_its_own_label(
    shorter: &[ProcessDelta],
    longer: &[ProcessDelta],
    delta: ProcessDelta,
    before: GroupTotals,
    after: GroupTotals,
)
    requires
        call_ensures(ProcessSnapshot::aggregate_by_group, (shorter,), before),
        call_ensures(ProcessSnapshot::aggregate_by_group, (longer,), after),
        longer@ == shorter@.push(delta),
    ensures
        differ_by(
            before@,
            after@,
            match delta.group {
                ProcessType::System => "💻 System"@,
                ProcessType::Gitlab => "🦊 Gitlab"@,
                ProcessType::Proc => "⚙ Proc"@ + ":"@ + delta.cmdline@,
                ProcessType::Docker => "🐋 Docker"@ + ":"@ + delta.cmdline@,
                ProcessType::Suspicious => "⚠️ Suspicious"@ + ":"@ + delta.cmdline@,
            },
            delta.cpu_seconds@,
        ),
{
    assert(longer@.drop_last() =~= shorter@);
    lemma_group_sums_step(longer@);
}

/// The time of a group is given back as it was set, and that of the other groups as it was.
pub proof fn law_set_time_is_given_back(
    groups: &mut GroupTotals,
    name: String,
    seconds: CpuSeconds,
    asked: &str,
    before: Option<&CpuSeconds>,
    after: Option<&CpuSeconds>,
)
    requires
        call_ensures(GroupTotals::insert, (groups, name, seconds), ()),
        call_ensures(GroupTotals::get, (&*old(groups), asked), before),
        call_ensures(GroupTotals::get, (&*final(groups), asked), after),
    ensures
        asked@ == name@ ==> (after matches Some(found) && found@ == seconds@),
        asked@ != name@ ==> (after is Some <==> before is Some) && (after matches Some(found)
            ==> found@ == before->0@),
{
}

/// Time that is added to a group is added to what it had, or to nothing where there was no such
/// group; the other groups keep theirs, and the time of all groups grows by it.
pub proof fn law_added_time_is_added_once(
    groups: &mut GroupTotals,
    name: String,
    seconds: &CpuSeconds,
    asked: &str,
    before: Option<&CpuSeconds>,
    after: Option<&CpuSeconds>,
    all_before: CpuSeconds,
    all_after: CpuSeconds,
    count_before: usize,
)
    requires
        call_ensures(GroupTotals::add_time, (groups, name, seconds), ()),
        call_ensures(GroupTotals::get, (&*old(groups), asked), before),
        call_ensures(GroupTotals::get, (&*final(groups), asked), after),
        call_ensures(GroupTotals::total, (&*old(groups),), all_before),
        call_ensures(GroupTotals::total, (&*final(groups),), all_after),
        call_ensures(GroupTotals::len, (&*old(groups),), count_before),
    ensures
        asked@ == name@ ==> (after matches Some(found) && found@ == seconds@ + match before {
            Some(had) => had@,
            None => 0 as real,
        }),
        asked@ != name@ ==> (after is Some <==> before is Some) && (after matches Some(found)
            ==> found@ == before->0@),
        all_after@ == all_before@ + seconds@,
{
    lemma_map_total_added(old(groups)@, name@, seconds@);
}

/// An account that takes in another has, under each name, what both had, and in all what both had
/// in all. The other stays out of names that neither had.
pub proof fn law_absorbed_time_is_added_name_by_name(
    groups: &mut GroupTotals,
    other: &GroupTotals,
    asked: &str,
    mine: Option<&CpuSeconds>,
    theirs: Option<&CpuSeconds>,
    after: Option<&CpuSeconds>,
    counts: (usize, usize),
    all_mine: CpuSeconds,
    all_theirs: CpuSeconds,
    all_after: CpuSeconds,
)
    requires
        call_ensures(GroupTotals::absorb, (groups, other), ()),
        call_ensures(GroupTotals::get, (&*old(groups), asked), mine),
        call_ensures(GroupTotals::get, (other, asked), theirs),
        call_ensures(GroupTotals::get, (&*final(groups), asked), after),
        call_ensures(GroupTotals::len, (&*old(groups),), counts.0),
        call_ensures(GroupTotals::len, (other,), counts.1),
        call_ensures(GroupTotals::total, (&*old(groups),), all_mine),
        call_ensures(GroupTotals::total, (other,), all_theirs),
        call_ensures(GroupTotals::total, (&*final(groups),), all_after),
    ensures
        after is Some <==> mine is Some || theirs is Some,
        after matches Some(found) ==> found@ == (match mine {
            Some(had) => had@,
            None => 0 as real,
        }) + (match theirs {
            Some(had) => had@,
            None => 0 as real,
        }),
        all_after@ == all_mine@ + all_theirs@,
{
    law_merge_keeps_total(old(groups)@, other@);
}

/// A new account has no group and no time. An account is empty where it has no group, has a group
/// where the time of that group is given back, and a copy has the same groups and times.
pub proof fn law_accounts_agree_with_themselves(
    new: GroupTotals,
    new_total: CpuSeconds,
    groups: GroupTotals,
    copy: GroupTotals,
    asked: &str,
    in_new: Option<&CpuSeconds>,
    found: Option<&CpuSeconds>,
    in_copy: Option<&CpuSeconds>,
    there: bool,
    empty: bool,
    count: usize,
)
    requires
        call_ensures(GroupTotals::new, (), new),
        call_ensures(GroupTotals::total, (&new,), new_total),
        call_ensures(GroupTotals::get, (&new, asked), in_new),
        call_ensures(GroupTotals::clone, (&groups,), copy),
        call_ensures(GroupTotals::get, (&groups, asked), found),
        call_ensures(GroupTotals::get, (&copy, asked), in_copy),
        call_ensures(GroupTotals::contains_key, (&groups, asked), there),
        call_ensures(GroupTotals::is_empty, (&groups,), empty),
        call_ensures(GroupTotals::len, (&groups,), count),
    ensures
        in_new is None,
        new_total@ == 0 as real,
        there <==> found is Some,
        in_copy is Some <==> found is Some,
        in_copy matches Some(time) ==> time@ == found->0@,
        empty <==> count == 0,
        found is Some ==> !empty,
{
    if count == 0 {
        assert(groups@ =~= Map::<Seq<char>, real>::empty()) by {
            assert(groups@.dom() =~= Set::empty());
        }
    }
}

/// A ranking lists every group of an account once, with its own time, and no group after one that
/// has less.
pub proof fn law_ranking_is_the_account_in_order(
    groups: GroupTotals,
    list: Vec<(String, CpuSeconds)>,
    count: usize,
    i: int,
    j: int,
    asked: &str,
    found: Option<&CpuSeconds>,
)
    requires
        call_ensures(GroupTotals::ranking, (&groups,), list),
        call_ensures(GroupTotals::len, (&groups,), count),
        call_ensures(GroupTotals::get, (&groups, asked), found),
    ensures
        list@.len() == count,
        0 <= i < j < list@.len() ==> list@[i].0@ != list@[j].0@ && list@[i].1@ >= list@[j].1@,
        found is Some <==> exists|k: int|
            0 <= k < list@.len() && (#[trigger] list@[k]).0@ == asked@,
        0 <= i < list@.len() && list@[i].0@ == asked@ ==> (found matches Some(time) && time@
            == list@[i].1@),
{
    if found is Some {
        law_ranking_leaves_none_out(list@, groups@, asked@);
    }
}

} // verus!
