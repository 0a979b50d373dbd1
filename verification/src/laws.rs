//! What holds of the accounts as a whole.

use vstd::prelude::*;
use vstd::utf8::is_ascii_chars;

use crate::groups::{
    amount, distinct_names, is_ranking, lemma_map_total_added, lemma_map_total_remove,
    law_merge_keeps_total, map_total, with_added,
};
use crate::monitor::{totals_after, totals_of};
use crate::process::{
    group_name, grouped_by_cmdline, kind_label, kind_of, looks_suspicious, ProcessType, ProcessView,
};
use crate::seconds::{tick_seconds, CpuSeconds};
use crate::snapshot::{
    busy, group_busy, ran_between, seconds_between, usage_below, usage_between, usage_share,
    Processes, PID_COUNT,
};
use crate::text::{
    ascii_lower, ascii_lowered, ascii_raised, clean_cmdline_of, first_line_of,
    has_text, is_white_space, lowercase_of, nul_to_space, stands_at, trim_end_of, trim_start_of,
};

verus! {

/// No amount of ticks is a negative time, and ticks that passed on a running clock are time.
pub proof fn law_time_is_not_negative(ticks: int, clk_tck: int)
    requires
        ticks >= 0,
        clk_tck >= 0,
    ensures
        tick_seconds(ticks, clk_tck) >= 0 as real,
        ticks > 0 && clk_tck > 0 ==> tick_seconds(ticks, clk_tck) > 0 as real,
{
    if clk_tck > 0 {
        let (t, c) = (ticks as real, clk_tck as real);
        assert(t / c >= 0 as real) by (nonlinear_arith)
            requires
                t >= 0 as real,
                c > 0 as real,
        ;
        if ticks > 0 {
            assert(t / c > 0 as real) by (nonlinear_arith)
                requires
                    t > 0 as real,
                    c > 0 as real,
            ;
        }
    }
}

/// Ticks that are counted together take the time that they take apart.
pub proof fn law_ticks_add_up(a: int, b: int, clk_tck: int)
    ensures
        tick_seconds(a + b, clk_tck) == tick_seconds(a, clk_tck) + tick_seconds(b, clk_tck),
{
    if clk_tck != 0 {
        let (x, y, c) = (a as real, b as real, clk_tck as real);
        assert((x + y) / c == x / c + y / c) by (nonlinear_arith)
            requires
                c != 0 as real,
        ;
    }
}

/// The same fraction is the same time, in whatever ticks it is counted.
pub proof fn law_equal_fractions_equal_times(a: int, b: int, c: int, d: int)
    requires
        b > 0,
        d > 0,
        a * d == c * b,
    ensures
        tick_seconds(a, b) == tick_seconds(c, d),
{
    let (x, y, z, w) = (a as real, b as real, c as real, d as real);
    assert(x * w == z * y) by (nonlinear_arith)
        requires
            a * d == c * b,
            x == a as real,
            y == b as real,
            z == c as real,
            w == d as real,
    ;
    assert(x / y == z / w) by (nonlinear_arith)
        requires
            x * w == z * y,
            y > 0 as real,
            w > 0 as real,
    ;
}

/// A process that runs on through three snapshots used, from the first to the last, what it used
/// from each to the next.
pub proof fn law_time_of_a_process_adds_up(
    first: ProcessView,
    middle: ProcessView,
    last: ProcessView,
    clk_tck: u64,
)
    requires
        middle.ran_since(first),
        last.ran_since(middle),
    ensures
        last.ran_since(first),
        last.seconds_since(first, clk_tck) == last.seconds_since(middle, clk_tck)
            + middle.seconds_since(first, clk_tck),
{
    law_ticks_add_up(
        last.ticks() - middle.ticks(),
        middle.ticks() - first.ticks(),
        clk_tck as int,
    );
}

/// A process that ran is busy, unless the clock stands still.
pub proof fn law_running_is_busy(cur: Processes, prev: Processes, clk_tck: u64, pid: u32)
    ensures
        busy(cur, prev, clk_tck, pid) <==> ran_between(cur, prev, pid) && clk_tck != 0,
{
    if ran_between(cur, prev, pid) {
        law_time_is_not_negative(cur[pid].ticks() - prev[pid].ticks(), clk_tck as int);
    }
}

/// Where no counter has grown, there is no usage: a snapshot compared with itself, or with one
/// taken before no process did anything.
pub proof fn law_no_growth_no_usage(cur: Processes, prev: Processes, clk_tck: u64)
    requires
        forall|pid: u32|
            cur.contains_key(pid) && prev.contains_key(pid) ==> (#[trigger] cur[pid]).ticks()
                <= prev[pid].ticks(),
    ensures
        usage_between(cur, prev, clk_tck) == Map::<Seq<char>, real>::empty(),
{
    assert(usage_between(cur, prev, clk_tck) =~= Map::<Seq<char>, real>::empty());
}

/// A snapshot differs from itself by nothing.
pub proof fn law_same_snapshot_no_usage(snapshot: Processes, clk_tck: u64)
    ensures
        usage_between(snapshot, snapshot, clk_tck) == Map::<Seq<char>, real>::empty(),
{
    law_no_growth_no_usage(snapshot, snapshot, clk_tck);
}

/// A clock that stands still measures no usage.
pub proof fn law_still_clock_no_usage(cur: Processes, prev: Processes)
    ensures
        usage_between(cur, prev, 0) == Map::<Seq<char>, real>::empty(),
{
    assert forall|pid: u32| !busy(cur, prev, 0, pid) by {
        law_running_is_busy(cur, prev, 0, pid);
    }
    assert(usage_between(cur, prev, 0) =~= Map::<Seq<char>, real>::empty());
}

/// A process that is in one of two snapshots only, having started or ended in between, adds to no
/// group.
pub proof fn law_only_survivors_count(
    cur: Processes,
    prev: Processes,
    clk_tck: u64,
    name: Seq<char>,
    pid: u32,
)
    requires
        !cur.contains_key(pid) || !prev.contains_key(pid),
    ensures
        usage_share(cur, prev, clk_tck, name, pid) == 0 as real,
{
}

proof fn lemma_usage_of_one(
    cur: Processes,
    prev: Processes,
    clk_tck: u64,
    name: Seq<char>,
    pid: u32,
    n: nat,
)
    requires
        n <= PID_COUNT,
        forall|other: u32|
            other != pid ==> #[trigger] usage_share(cur, prev, clk_tck, name, other) == 0 as real,
    ensures
        usage_below(cur, prev, clk_tck, name, n) == if pid < n {
            usage_share(cur, prev, clk_tck, name, pid)
        } else {
            0 as real
        },
    decreases n,
{
    if n > 0 {
        lemma_usage_of_one(cur, prev, clk_tck, name, pid, (n - 1) as nat);
    }
}

/// A group in which one process was busy used what that process used.
pub proof fn law_lone_process_is_its_group(
    cur: Processes,
    prev: Processes,
    clk_tck: u64,
    pid: u32,
)
    requires
        busy(cur, prev, clk_tck, pid),
        forall|other: u32|
            other != pid && #[trigger] busy(cur, prev, clk_tck, other) ==> cur[other].group()
                != cur[pid].group(),
    ensures
        usage_between(cur, prev, clk_tck).contains_key(cur[pid].group()),
        usage_between(cur, prev, clk_tck)[cur[pid].group()] == seconds_between(
            cur,
            prev,
            clk_tck,
            pid,
        ),
{
    let name = cur[pid].group();
    assert(group_busy(cur, prev, clk_tck, name));
    assert forall|other: u32| other != pid implies #[trigger] usage_share(
        cur,
        prev,
        clk_tck,
        name,
        other,
    ) == 0 as real by {
        assert(busy(cur, prev, clk_tck, other) ==> cur[other].group() != name);
    }
    lemma_usage_of_one(cur, prev, clk_tck, name, pid, PID_COUNT as nat);
}

proof fn lemma_usage_not_negative(
    cur: Processes,
    prev: Processes,
    clk_tck: u64,
    name: Seq<char>,
    n: nat,
)
    ensures
        usage_below(cur, prev, clk_tck, name, n) >= 0 as real,
    decreases n,
{
    if n > 0 {
        lemma_usage_not_negative(cur, prev, clk_tck, name, (n - 1) as nat);
    }
}

/// A sample never takes time from a group, nor a group from the totals.
pub proof fn law_totals_never_fall(
    totals: Map<Seq<char>, real>,
    prev: Option<Processes>,
    cur: Processes,
    clk_tck: u64,
    name: Seq<char>,
)
    ensures
        amount(totals_after(totals, prev, cur, clk_tck), name) >= amount(totals, name),
        totals.contains_key(name) ==> totals_after(totals, prev, cur, clk_tck).contains_key(name),
{
    if let Some(prev) = prev {
        lemma_usage_not_negative(cur, prev, clk_tck, name, PID_COUNT as nat);
    }
}

/// The seconds that the busy processes with numbers below `n` used between two snapshots.
pub open spec fn time_below(cur: Processes, prev: Processes, clk_tck: u64, n: nat) -> real
    decreases n,
{
    if n == 0 {
        0 as real
    } else {
        time_below(cur, prev, clk_tck, (n - 1) as nat) + if busy(
            cur,
            prev,
            clk_tck,
            (n - 1) as u32,
        ) {
            seconds_between(cur, prev, clk_tck, (n - 1) as u32)
        } else {
            0 as real
        }
    }
}

/// The seconds that all processes together used between two snapshots.
pub open spec fn time_between(cur: Processes, prev: Processes, clk_tck: u64) -> real {
    time_below(cur, prev, clk_tck, PID_COUNT as nat)
}

spec fn group_busy_below(
    cur: Processes,
    prev: Processes,
    clk_tck: u64,
    name: Seq<char>,
    n: nat,
) -> bool {
    exists|pid: u32|
        pid < n && #[trigger] busy(cur, prev, clk_tck, pid) && cur[pid].group() == name
}

spec fn groups_below(cur: Processes, prev: Processes, clk_tck: u64, n: nat) -> Map<
    Seq<char>,
    real,
> {
    Map::new(
        |name: Seq<char>| group_busy_below(cur, prev, clk_tck, name, n),
        |name: Seq<char>| usage_below(cur, prev, clk_tck, name, n),
    )
}

proof fn lemma_no_busy_no_usage(
    cur: Processes,
    prev: Processes,
    clk_tck: u64,
    name: Seq<char>,
    n: nat,
)
    requires
        n <= PID_COUNT,
        !group_busy_below(cur, prev, clk_tck, name, n),
    ensures
        usage_below(cur, prev, clk_tck, name, n) == 0 as real,
    decreases n,
{
    if n > 0 {
        let pid = (n - 1) as u32;
        assert(!(busy(cur, prev, clk_tck, pid) && cur[pid].group() == name));
        lemma_no_busy_no_usage(cur, prev, clk_tck, name, (n - 1) as nat);
    }
}

/// A group of which no process was busy used nothing.
pub proof fn lemma_idle_group_used_nothing(
    cur: Processes,
    prev: Processes,
    clk_tck: u64,
    name: Seq<char>,
)
    requires
        !group_busy(cur, prev, clk_tck, name),
    ensures
        usage_below(cur, prev, clk_tck, name, PID_COUNT as nat) == 0 as real,
{
    lemma_no_busy_no_usage(cur, prev, clk_tck, name, PID_COUNT as nat);
}

proof fn lemma_groups_below(cur: Processes, prev: Processes, clk_tck: u64, n: nat)
    requires
        n <= PID_COUNT,
    ensures
        groups_below(cur, prev, clk_tck, n).dom().finite(),
        map_total(groups_below(cur, prev, clk_tck, n)) == time_below(cur, prev, clk_tck, n),
    decreases n,
{
    let groups = groups_below(cur, prev, clk_tck, n);
    if n == 0 {
        assert(groups =~= Map::<Seq<char>, real>::empty());
    } else {
        let m = (n - 1) as nat;
        let pid = m as u32;
        let before = groups_below(cur, prev, clk_tck, m);
        lemma_groups_below(cur, prev, clk_tck, m);
        assert forall|name: Seq<char>| !group_busy_below(cur, prev, clk_tck, name, m) implies
            #[trigger] usage_below(cur, prev, clk_tck, name, m) == 0 as real by {
            lemma_no_busy_no_usage(cur, prev, clk_tck, name, m);
        }
        if busy(cur, prev, clk_tck, pid) {
            let name = cur[pid].group();
            let seconds = seconds_between(cur, prev, clk_tck, pid);
            lemma_map_total_added(before, name, seconds);
            assert forall|other: Seq<char>|
                group_busy_below(cur, prev, clk_tck, other, n) <==> group_busy_below(
                    cur,
                    prev,
                    clk_tck,
                    other,
                    m,
                ) || other == name by {
                if group_busy_below(cur, prev, clk_tck, other, m) {
                    let p = choose|p: u32|
                        p < m && #[trigger] busy(cur, prev, clk_tck, p) && cur[p].group() == other;
                    assert(p < n && busy(cur, prev, clk_tck, p));
                }
                if other == name {
                    assert(pid < n && busy(cur, prev, clk_tck, pid));
                }
            }
            let target = with_added(before, name, seconds);
            assert(groups.dom() =~= target.dom());
            assert forall|other: Seq<char>| groups.dom().contains(other) implies #[trigger]
                groups[other] == target[other] by {
                let add = usage_share(cur, prev, clk_tck, other, pid);
                assert(usage_below(cur, prev, clk_tck, other, n) == usage_below(
                    cur,
                    prev,
                    clk_tck,
                    other,
                    m,
                ) + add);
                if other == name {
                    assert(amount(before, name) == usage_below(cur, prev, clk_tck, name, m));
                }
            }
            assert(groups =~= target);
        } else {
            assert(groups =~= before);
        }
    }
}

/// The groups account for all CPU time: what the groups used between two snapshots adds up to what
/// the processes used.
pub proof fn law_usage_is_complete(cur: Processes, prev: Processes, clk_tck: u64)
    ensures
        usage_between(cur, prev, clk_tck).dom().finite(),
        map_total(usage_between(cur, prev, clk_tck)) == time_between(cur, prev, clk_tck),
{
    let groups = groups_below(cur, prev, clk_tck, PID_COUNT as nat);
    lemma_groups_below(cur, prev, clk_tck, PID_COUNT as nat);
    assert forall|name: Seq<char>|
        group_busy(cur, prev, clk_tck, name) <==> group_busy_below(
            cur,
            prev,
            clk_tck,
            name,
            PID_COUNT as nat,
        ) by {
        if group_busy(cur, prev, clk_tck, name) {
            let pid = choose|pid: u32| #[trigger]
                busy(cur, prev, clk_tck, pid) && cur[pid].group() == name;
            assert(pid < PID_COUNT as nat);
        }
    }
    assert(usage_between(cur, prev, clk_tck) =~= groups);
}

/// A sample adds to the sum of all groups exactly the CPU time that all processes used since the
/// sample before.
pub proof fn law_sample_adds_all_time(
    totals: Map<Seq<char>, real>,
    prev: Processes,
    cur: Processes,
    clk_tck: u64,
)
    requires
        totals.dom().finite(),
    ensures
        totals_after(totals, Some(prev), cur, clk_tck).dom().finite(),
        map_total(totals_after(totals, Some(prev), cur, clk_tck)) == map_total(totals)
            + time_between(cur, prev, clk_tck),
{
    law_usage_is_complete(cur, prev, clk_tck);
    law_merge_keeps_total(totals, usage_between(cur, prev, clk_tck));
}

/// The CPU time that all processes used over a row of samples.
pub open spec fn time_of(samples: Seq<Processes>, clk_tck: u64) -> real
    decreases samples.len(),
{
    if samples.len() < 2 {
        0 as real
    } else {
        time_of(samples.drop_last(), clk_tck) + time_between(
            samples.last(),
            samples[samples.len() - 2],
            clk_tck,
        )
    }
}

/// Over a whole run the groups account for all CPU time that the processes used from sample to
/// sample.
pub proof fn law_run_is_complete(samples: Seq<Processes>, clk_tck: u64)
    ensures
        totals_of(samples, clk_tck).dom().finite(),
        map_total(totals_of(samples, clk_tck)) == time_of(samples, clk_tck),
    decreases samples.len(),
{
    if samples.len() >= 2 {
        let init = samples.drop_last();
        law_run_is_complete(init, clk_tck);
        law_sample_adds_all_time(
            totals_of(init, clk_tck),
            samples[samples.len() - 2],
            samples.last(),
            clk_tck,
        );
    }
}

/// A process that was added is found under its number, and what was there under other numbers
/// stays.
pub proof fn law_added_process_is_found(processes: Processes, process: ProcessView, pid: u32)
    ensures
        processes.insert(process.pid, process).contains_key(process.pid),
        processes.insert(process.pid, process)[process.pid] == process,
        pid != process.pid ==> processes.insert(process.pid, process).contains_key(pid)
            == processes.contains_key(pid) && (processes.contains_key(pid) ==> processes.insert(
            process.pid,
            process,
        )[pid] == processes[pid]),
{
}

/// What is suspicious is shown as such, whatever else the command line or name mentions.
pub proof fn law_suspicious_comes_first(cmdline: Seq<char>, comm: Seq<char>)
    ensures
        kind_of(cmdline, comm) is Suspicious <==> looks_suspicious(cmdline, comm),
{
}

/// A name counts the same in the command line and in the command name.
pub proof fn law_either_text_counts(cmdline: Seq<char>, comm: Seq<char>)
    ensures
        kind_of(cmdline, comm) == kind_of(comm, cmdline),
{
}

/// Which of two kinds a process is shown as, where both are named: that of the higher rank.
pub open spec fn kind_rank(kind: ProcessType) -> nat {
    match kind {
        ProcessType::Proc => 0,
        ProcessType::Docker => 1,
        ProcessType::System => 2,
        ProcessType::Gitlab => 3,
        ProcessType::Suspicious => 4,
    }
}

/// The command line and the command name are looked at apart, and of the two kinds that they give
/// the one of the higher rank wins. No two kinds have the same rank.
pub proof fn law_higher_rank_wins(cmdline: Seq<char>, comm: Seq<char>)
    ensures
        kind_of(cmdline, comm) == if kind_rank(kind_of(cmdline, Seq::empty())) >= kind_rank(
            kind_of(Seq::empty(), comm),
        ) {
            kind_of(cmdline, Seq::empty())
        } else {
            kind_of(Seq::empty(), comm)
        },
        forall|a: ProcessType, b: ProcessType|
            #![trigger kind_rank(a), kind_rank(b)]
            kind_rank(a) == kind_rank(b) ==> a == b,
{
    reveal_strlit("xmrig");
    reveal_strlit("minerd");
    reveal_strlit("cpuminer");
    reveal_strlit("cryptonight");
    reveal_strlit("nicehash");
    reveal_strlit("kinsing");
    reveal_strlit("gitlab");
    reveal_strlit("systemd");
    reveal_strlit("init");
    reveal_strlit("kthreadd");
    reveal_strlit("containerd");
    reveal_strlit("dockerd");
    assert forall|name: Seq<char>| name.len() > 0 implies !#[trigger] has_text(
        Seq::empty(),
        name,
    ) by {}
}

/// A longer text mentions all that a part of it mentions.
proof fn lemma_longer_text_mentions(before: Seq<char>, text: Seq<char>, after: Seq<char>)
    ensures
        forall|name: Seq<char>| has_text(text, name) ==> #[trigger] has_text(
            before + text + after,
            name,
        ),
{
    assert forall|name: Seq<char>| has_text(text, name) implies #[trigger] has_text(
        before + text + after,
        name,
    ) by {
        let at = choose|at: int| stands_at(text, name, at);
        let longer = before + text + after;
        let moved = before.len() + at;
        assert(longer.subrange(moved, moved + name.len()) =~= text.subrange(at, at + name.len()));
        assert(stands_at(longer, name, moved));
    }
}

/// Nothing that is written before or after what a process is known by hides it: whatever is added
/// to its command line and to its command name, it is shown as a kind of no lower rank.
pub proof fn law_nothing_hides_a_name(
    cmdline: (Seq<char>, Seq<char>, Seq<char>),
    comm: (Seq<char>, Seq<char>, Seq<char>),
)
    ensures
        kind_rank(
            kind_of(cmdline.0 + cmdline.1 + cmdline.2, comm.0 + comm.1 + comm.2),
        ) >= kind_rank(kind_of(cmdline.1, comm.1)),
{
    lemma_longer_text_mentions(cmdline.0, cmdline.1, cmdline.2);
    lemma_longer_text_mentions(comm.0, comm.1, comm.2);
}

/// Texts that are the same but for the case of their ASCII letters have the same lower-case form.
pub proof fn lemma_same_lower_case(a: Seq<char>, b: Seq<char>)
    requires
        ascii_lowered(a) == ascii_lowered(b),
    ensures
        lowercase_of(a) == lowercase_of(b),
{
    let (low_a, low_b) = (ascii_lowered(a), ascii_lowered(b));
    assert(low_a.len() == a.len() && low_b.len() == b.len());
    assert forall|i: int| 0 <= i < a.len() implies ('\0' <= #[trigger] a[i] <= '\u{7f}') == ('\0'
        <= b[i] <= '\u{7f}') by {
        assert(low_a[i] == ascii_lower(a[i]));
        assert(low_b[i] == ascii_lower(b[i]));
    }
    if is_ascii_chars(a) {
        assert forall|i: int| 0 <= i < b.len() implies '\0' <= #[trigger] b[i] <= '\u{7f}' by {
            assert('\0' <= a[i] <= '\u{7f}');
        }
    }
}

/// The case of ASCII letters does not matter: processes whose texts differ in nothing else are of
/// the same kind, whatever other characters the texts hold.
pub proof fn law_case_does_not_matter(a: ProcessView, b: ProcessView)
    requires
        ascii_lowered(a.cmdline) == ascii_lowered(b.cmdline),
        ascii_lowered(a.comm) == ascii_lowered(b.comm),
    ensures
        lowercase_of(a.cmdline) == lowercase_of(b.cmdline),
        lowercase_of(a.comm) == lowercase_of(b.comm),
        a.kind() == b.kind(),
{
    lemma_same_lower_case(a.cmdline, b.cmdline);
    lemma_same_lower_case(a.comm, b.comm);
}

/// A command line and a command name in capital letters give the kind that they give as they are.
pub proof fn law_capital_letters_do_not_matter(cmdline: Seq<char>, comm: Seq<char>)
    ensures
        lowercase_of(ascii_raised(cmdline)) == lowercase_of(cmdline),
        lowercase_of(ascii_raised(comm)) == lowercase_of(comm),
        kind_of(lowercase_of(ascii_raised(cmdline)), lowercase_of(ascii_raised(comm))) == kind_of(
            lowercase_of(cmdline),
            lowercase_of(comm),
        ),
{
    assert(ascii_lowered(ascii_raised(cmdline)) =~= ascii_lowered(cmdline));
    assert(ascii_lowered(ascii_raised(comm)) =~= ascii_lowered(comm));
    lemma_same_lower_case(ascii_raised(cmdline), cmdline);
    lemma_same_lower_case(ascii_raised(comm), comm);
}

/// A text in lower case is its own lower-case form, so classifying it is the same as searching it
/// as it is.
pub proof fn law_lower_case_is_stable(text: Seq<char>)
    requires
        is_ascii_chars(text),
    ensures
        lowercase_of(lowercase_of(text)) == lowercase_of(text),
{
    let low = ascii_lowered(text);
    assert forall|i: int| 0 <= i < low.len() implies '\0' <= #[trigger] low[i] <= '\u{7f}'
        && ascii_lower(low[i]) == low[i] by {
        assert(low[i] == ascii_lower(text[i]));
    }
    assert(ascii_lowered(low) =~= low);
}

proof fn lemma_label_starts(kind: ProcessType)
    ensures
        kind_label(kind).len() > 0,
        kind is System <==> kind_label(kind)[0] == '💻',
        kind is Proc <==> kind_label(kind)[0] == '⚙',
        kind is Gitlab <==> kind_label(kind)[0] == '🦊',
        kind is Docker <==> kind_label(kind)[0] == '🐋',
        kind is Suspicious <==> kind_label(kind)[0] == '⚠',
{
    reveal_strlit("💻 System");
    reveal_strlit("⚙ Proc");
    reveal_strlit("🦊 Gitlab");
    reveal_strlit("🐋 Docker");
    reveal_strlit("⚠️ Suspicious");
}

/// A group never mixes kinds, and of the kinds that are grouped by command line it never mixes
/// command lines.
pub proof fn law_groups_do_not_mix(
    kind: ProcessType,
    cmdline: Seq<char>,
    other_kind: ProcessType,
    other_cmdline: Seq<char>,
)
    requires
        group_name(kind, cmdline) == group_name(other_kind, other_cmdline),
    ensures
        kind == other_kind,
        grouped_by_cmdline(kind) ==> cmdline == other_cmdline,
{
    lemma_label_starts(kind);
    lemma_label_starts(other_kind);
    assert(group_name(kind, cmdline)[0] == kind_label(kind)[0]);
    assert(group_name(other_kind, other_cmdline)[0] == kind_label(other_kind)[0]);
    assert(kind == other_kind);
    if grouped_by_cmdline(kind) {
        let head = kind_label(kind) + ":"@;
        assert((head + cmdline).skip(head.len() as int) =~= cmdline);
        assert((head + other_cmdline).skip(head.len() as int) =~= other_cmdline);
    }
}

/// Nothing uses more than the first of a ranking.
pub proof fn law_ranking_starts_with_the_greatest(
    list: Seq<(String, CpuSeconds)>,
    totals: Map<Seq<char>, real>,
    name: Seq<char>,
)
    requires
        is_ranking(list, totals),
        totals.contains_key(name),
    ensures
        list.len() > 0,
        list[0].1@ >= totals[name],
{
    law_ranking_leaves_none_out(list, totals, name);
    let i = choose|i: int| 0 <= i < list.len() && (#[trigger] list[i]).0@ == name;
    if i > 0 {
        assert(list[0].1@ >= list[i].1@);
    }
}

/// A ranking leaves no group out.
pub proof fn law_ranking_leaves_none_out(
    list: Seq<(String, CpuSeconds)>,
    totals: Map<Seq<char>, real>,
    name: Seq<char>,
)
    requires
        is_ranking(list, totals),
        totals.contains_key(name),
    ensures
        exists|i: int| 0 <= i < list.len() && (#[trigger] list[i]).0@ == name,
{
    if forall|i: int| 0 <= i < list.len() ==> (#[trigger] list[i]).0@ != name {
        lemma_names_within(list, totals.remove(name));
    }
}

proof fn lemma_names_within(list: Seq<(String, CpuSeconds)>, totals: Map<Seq<char>, real>)
    requires
        totals.dom().finite(),
        distinct_names(list),
        forall|i: int| 0 <= i < list.len() ==> totals.contains_key((#[trigger] list[i]).0@),
    ensures
        list.len() <= totals.dom().len(),
    decreases list.len(),
{
    if list.len() > 0 {
        let init = list.drop_last();
        let last = list[list.len() - 1].0@;
        assert forall|i: int, j: int| 0 <= i < j < init.len() implies (#[trigger] init[i]).0@ != (
        #[trigger] init[j]).0@ by {
            assert(init[i] == list[i] && init[j] == list[j]);
        }
        assert forall|i: int| 0 <= i < init.len() implies totals.remove(last).contains_key(
            (#[trigger] init[i]).0@,
        ) by {
            assert(init[i] == list[i]);
        }
        lemma_names_within(init, totals.remove(last));
        assert(totals.dom().contains(last));
    }
}

/// The amounts of a list of entries added up.
pub open spec fn list_total(list: Seq<(String, CpuSeconds)>) -> real
    decreases list.len(),
{
    if list.len() == 0 {
        0 as real
    } else {
        list_total(list.drop_last()) + list.last().1@
    }
}

/// A ranking holds all the time that the totals hold.
pub proof fn law_ranking_keeps_total(
    list: Seq<(String, CpuSeconds)>,
    totals: Map<Seq<char>, real>,
)
    requires
        is_ranking(list, totals),
    ensures
        list_total(list) == map_total(totals),
    decreases list.len(),
{
    if list.len() == 0 {
        assert(totals.dom() =~= Set::empty());
    } else {
        let init = list.drop_last();
        let entry = list[list.len() - 1];
        let rest = totals.remove(entry.0@);
        lemma_map_total_remove(totals, entry.0@);
        assert(totals.dom().contains(entry.0@));
        assert forall|i: int, j: int| 0 <= i < j < init.len() implies (#[trigger] init[i]).0@ != (
        #[trigger] init[j]).0@ && init[i].1@ >= init[j].1@ by {
            assert(init[i] == list[i] && init[j] == list[j]);
        }
        assert forall|i: int| 0 <= i < init.len() implies rest.contains_key(
            (#[trigger] init[i]).0@,
        ) && rest[init[i].0@] == init[i].1@ by {
            assert(init[i] == list[i]);
        }
        law_ranking_keeps_total(init, rest);
    }
}

/// The first line of a text is one line.
pub proof fn law_first_line_is_one_line(text: Seq<char>)
    ensures
        !first_line_of(text).contains('\n'),
{
    text.index_of_first_ensures('\n');
}

proof fn lemma_trim_start(text: Seq<char>)
    ensures
        trim_start_of(text).len() > 0 ==> !is_white_space(trim_start_of(text)[0]),
        forall|c: char| trim_start_of(text).contains(c) ==> text.contains(c),
    decreases text.len(),
{
    if text.len() > 0 && is_white_space(text[0]) {
        let rest = text.drop_first();
        lemma_trim_start(rest);
        assert forall|c: char| rest.contains(c) implies text.contains(c) by {
            let i = choose|i: int| 0 <= i < rest.len() && rest[i] == c;
            assert(text[i + 1] == c);
        }
    }
}

proof fn lemma_trim_end(text: Seq<char>)
    ensures
        trim_end_of(text).len() > 0 ==> !is_white_space(trim_end_of(text).last())
            && trim_end_of(text)[0] == text[0],
        forall|c: char| trim_end_of(text).contains(c) ==> text.contains(c),
    decreases text.len(),
{
    if text.len() > 0 && is_white_space(text.last()) {
        let rest = text.drop_last();
        lemma_trim_end(rest);
        assert forall|c: char| rest.contains(c) implies text.contains(c) by {
            let i = choose|i: int| 0 <= i < rest.len() && rest[i] == c;
            assert(text[i] == c);
        }
    }
}

/// A clean command line holds no NUL character and neither starts nor ends with white space.
pub proof fn law_clean_cmdline_is_clean(text: Seq<char>)
    ensures
        !clean_cmdline_of(text).contains('\0'),
        clean_cmdline_of(text).len() > 0 ==> !is_white_space(clean_cmdline_of(text)[0])
            && !is_white_space(clean_cmdline_of(text).last()),
{
    let spaced = nul_to_space(text);
    assert forall|i: int| 0 <= i < spaced.len() implies #[trigger] spaced[i] != '\0' by {
        assert(text[i] == '\0' ==> spaced[i] == ' ');
    }
    assert(!spaced.contains('\0'));
    lemma_trim_start(spaced);
    lemma_trim_end(trim_start_of(spaced));
}

} // verus!
