//! What the operations on times, texts and single processes give, told by what goes into them and
//! what comes out of them.

use vstd::prelude::*;
use vstd::utf8::is_ascii_chars;

use crate::clock::{dated_text, nanos_of_hours, rfc3339_text, Moment};
use crate::delivery::{
    check_reply, delivery_form, report_file_name, wants_delivery, DeliveryForm,
};
use crate::laws::lemma_same_lower_case;
use crate::monitor::MonitorError;
use crate::natural::{digits_value, lemma_value_from_the_front, Natural};
use crate::process::{classify_proccess, group_name, kind_label, ProcessInfo, ProcessType};
use crate::seconds::{tick_seconds, ticks_to_seconds, CpuSeconds};
use crate::text::{
    ascii_lowered, clean_cmdline, clean_cmdline_of, contains_text, first_line, has_text,
    is_white_space, lowercase_of, nul_to_space, stands_at, trim_end_of, trim_start_of,
    unicode_lowercase,
};

verus! {

/// An amount of time, counted at `clk_tck` ticks a second, is that many ticks. A clock of rate
/// zero counts no time.
pub proof fn lemma_seconds_count_ticks(ticks: int, clk_tck: u64)
    ensures
        clk_tck > 0 ==> tick_seconds(ticks, clk_tck as int) * (clk_tck as int as real)
            == ticks as real,
        clk_tck == 0 ==> tick_seconds(ticks, clk_tck as int) == 0 as real,
{
    if clk_tck > 0 {
        let (x, c) = (ticks as real, clk_tck as int as real);
        assert(x / c * c == x) by (nonlinear_arith)
            requires
                c > 0 as real,
        ;
    }
}

/// The seconds of a number of ticks, counted at the same rate, are those ticks again: no tick is
/// lost, gained or rounded. A clock that stands still measures nothing.
pub proof fn law_seconds_are_ticks_over_rate(ticks: u64, clk_tck: u64, res: CpuSeconds)
    requires
        call_ensures(ticks_to_seconds, (ticks, clk_tck), res),
    ensures
        clk_tck > 0 ==> res@ * (clk_tck as int as real) == ticks as int as real,
        clk_tck == 0 ==> res@ == 0 as real,
{
    lemma_seconds_count_ticks(ticks as int, clk_tck);
}

/// The same of numbers of ticks beyond 64 bits.
pub proof fn law_many_ticks_are_seconds_too(ticks: u128, clk_tck: u64, res: CpuSeconds)
    requires
        call_ensures(CpuSeconds::of_ticks, (ticks, clk_tck), res),
    ensures
        clk_tck > 0 ==> res@ * (clk_tck as int as real) == ticks as int as real,
        clk_tck == 0 ==> res@ == 0 as real,
{
    lemma_seconds_count_ticks(ticks as int, clk_tck);
}

/// The fraction that an amount shows is the amount.
pub proof fn law_fraction_is_the_amount(
    seconds: CpuSeconds,
    num: &Natural,
    den: &Natural,
)
    requires
        call_ensures(CpuSeconds::fraction, (&seconds,), (num, den)),
    ensures
        den@ > 0,
        seconds@ * (den@ as int as real) == num@ as int as real,
{
    let (n, d) = (num@ as int as real, den@ as int as real);
    assert(n / d * d == n) by (nonlinear_arith)
        requires
            d > 0 as real,
    ;
}

/// The fraction that is shown of a number of ticks stands for the ticks over their rate.
pub proof fn law_fraction_of_ticks(
    ticks: u64,
    clk_tck: u64,
    seconds: CpuSeconds,
    num: &Natural,
    den: &Natural,
)
    requires
        clk_tck > 0,
        call_ensures(ticks_to_seconds, (ticks, clk_tck), seconds),
        call_ensures(CpuSeconds::fraction, (&seconds,), (num, den)),
    ensures
        num@ * clk_tck == ticks * den@,
{
    law_seconds_are_ticks_over_rate(ticks, clk_tck, seconds);
    law_fraction_is_the_amount(seconds, num, den);
    let (n, d, t, c, s) = (
        num@ as int as real,
        den@ as int as real,
        ticks as int as real,
        clk_tck as int as real,
        seconds@,
    );
    assert(n * c == t * d) by (nonlinear_arith)
        requires
            s * d == n,
            s * c == t,
    ;
    let (ni, di, ti, ci) = (num@ as int, den@ as int, ticks as int, clk_tck as int);
    assert(ni * ci == ti * di) by (nonlinear_arith)
        requires
            ni as real * (ci as real) == ti as real * (di as real),
    ;
}

/// Amounts are added and set against each other as numbers are.
pub proof fn law_amounts_are_numbers(
    a: CpuSeconds,
    b: CpuSeconds,
    sum: CpuSeconds,
    more: bool,
    none: CpuSeconds,
    copy: CpuSeconds,
)
    requires
        call_ensures(CpuSeconds::plus, (&a, &b), sum),
        call_ensures(CpuSeconds::exceeds, (&a, &b), more),
        call_ensures(CpuSeconds::zero, (), none),
        call_ensures(CpuSeconds::clone, (&a,), copy),
    ensures
        sum@ == a@ + b@,
        more <==> a@ > b@,
        none@ == 0 as real,
        copy@ == a@,
{
}

/// A number is its lowest digit and 2^32 times what the digits above that one write.
pub proof fn law_digits_are_written_to_their_base(digits: Seq<u32>)
    ensures
        digits.len() == 0 ==> digits_value(digits) == 0,
        digits.len() > 0 ==> digits_value(digits) == digits[0] + 0x1_0000_0000 * digits_value(
            digits.drop_first(),
        ),
{
    if digits.len() > 0 {
        lemma_value_from_the_front(digits);
    }
}

/// Numbers of any size are shown by their digits, made of numbers, added, multiplied and set
/// against each other as numbers are.
pub proof fn law_naturals_are_numbers(
    a: Natural,
    b: Natural,
    digits: &Vec<u32>,
    given: u128,
    made: Natural,
    sum: Natural,
    product: Natural,
    less: bool,
)
    requires
        call_ensures(Natural::limbs, (&a,), digits),
        call_ensures(Natural::from_u128, (given,), made),
        call_ensures(Natural::plus, (&a, &b), sum),
        call_ensures(Natural::times, (&a, &b), product),
        call_ensures(Natural::less_than, (&a, &b), less),
    ensures
        digits_value(digits@) == a@,
        made@ == given,
        sum@ == a@ + b@,
        product@ == a@ * b@,
        less <==> a@ < b@,
{
}

/// Two moments differ by their seconds and nanoseconds, whatever their offsets, and by the opposite
/// the other way round.
pub proof fn law_time_between_moments(a: Moment, b: Moment, forth: i128, back: i128)
    requires
        call_ensures(Moment::nanos_since, (&a, &b), forth),
        call_ensures(Moment::nanos_since, (&b, &a), back),
    ensures
        forth == (a.secs - b.secs) * 1_000_000_000 + a.nanos - b.nanos,
        back == -forth,
{
}

/// An hour is 3600 seconds of a thousand million nanoseconds.
pub proof fn law_hours_are_hours(hours: u8, res: i128)
    requires
        call_ensures(nanos_of_hours, (hours,), res),
    ensures
        res == hours * 3_600_000_000_000,
{
}

/// A moment is shown as it is: its own second, nanosecond and offset are what the text is of.
pub proof fn law_moments_are_shown_as_they_are(moment: Moment, text: String)
    requires
        call_ensures(Moment::to_rfc3339, (&moment,), text),
    ensures
        text@ == rfc3339_text(moment.secs, moment.nanos, moment.offset),
{
}

/// A moment in a date pattern is that moment in that pattern, and the present moment is what the
/// clock shows.
pub proof fn law_moments_are_dated_as_they_are(
    moment: Moment,
    pattern: &str,
    text: String,
    now: Moment,
)
    requires
        call_ensures(Moment::format, (&moment, pattern), text),
        call_ensures(Moment::now, (), now),
    ensures
        text@ == dated_text(moment.secs, moment.nanos, moment.offset, pattern@),
        now.read_as(0),
        0 <= now.secs,
        now.nanos < 1_000_000_000,
{
}

/// A report's file is named by the date and time of the moment at which it is saved.
pub proof fn law_report_file_is_named_by_its_moment(now: Moment, name: String)
    requires
        call_ensures(report_file_name, (&now,), name),
    ensures
        name@ == "cpu_report_"@ + dated_text(
            now.secs,
            now.nanos,
            now.offset,
            "%Y%m%d_%H%M%S"@,
        ) + ".json"@,
{
}

/// A report is sent where a room is named and nowhere else, to that room, as a text file with a
/// fixed message. Any reply but a success is an error that shows the reply.
pub proof fn law_delivery(
    room: &str,
    wanted: bool,
    form: DeliveryForm,
    code: u16,
    status: &str,
    reply: Result<(), MonitorError>,
)
    requires
        call_ensures(wants_delivery, (room,), wanted),
        call_ensures(delivery_form, (room,), form),
        call_ensures(check_reply, (code, status), reply),
    ensures
        wanted <==> room@ != Seq::<char>::empty(),
        form.room@ == room@,
        form.message@ == "Закончен анализ процессорного времени"@,
        form.file_name@ == "report.txt"@,
        form.mime@ == "text/plain"@,
        reply is Ok <==> code / 100 == 2,
        reply matches Err(error) ==> error.message@ == "Server returned: "@ + status@,
{
    if room@.len() == 0 {
        assert(room@ =~= Seq::<char>::empty());
    }
}

/// An error shows its message.
pub proof fn law_error_shows_its_message(error: MonitorError, text: String)
    requires
        call_ensures(MonitorError::to_string, (&error,), text),
    ensures
        text@ == error.message@,
{
}

/// Whether `part` is a piece of `text`, with something or nothing before and after it.
pub open spec fn is_piece_of(part: Seq<char>, text: Seq<char>) -> bool {
    exists|before: Seq<char>, after: Seq<char>| text == #[trigger] (before + part + after)
}

proof fn lemma_pieces_stand_in_texts()
    ensures
        forall|text: Seq<char>, part: Seq<char>|
            #![trigger has_text(text, part)]
            #![trigger is_piece_of(part, text)]
            has_text(text, part) == is_piece_of(part, text),
{
    assert forall|text: Seq<char>, part: Seq<char>|
        #![trigger has_text(text, part)]
        #![trigger is_piece_of(part, text)]
        has_text(text, part) == is_piece_of(part, text) by {
        if has_text(text, part) {
            let at = choose|at: int| stands_at(text, part, at);
            let (before, after) = (text.take(at), text.skip(at + part.len()));
            assert(text =~= before + part + after);
        }
        if is_piece_of(part, text) {
            let (before, after) = choose|before: Seq<char>, after: Seq<char>|
                text == #[trigger] (before + part + after);
            let at = before.len() as int;
            assert(text.subrange(at, at + part.len()) =~= part);
            assert(stands_at(text, part, at));
        }
    }
}

/// A text contains another exactly where the other is a piece of it.
pub proof fn law_search_finds_pieces(text: &str, part: &str, res: bool)
    requires
        call_ensures(contains_text, (text, part), res),
    ensures
        res <==> is_piece_of(part@, text@),
{
    lemma_pieces_stand_in_texts();
}

/// The first line of a text is what stands before its first line feed, and before the carriage
/// return that may come with it. A text without a line feed is one line.
pub proof fn law_first_line_ends_at_the_line_feed(
    text: &str,
    res: String,
    line: Seq<char>,
    rest: Seq<char>,
)
    requires
        call_ensures(first_line, (text,), res),
        !line.contains('\n'),
    ensures
        text@ == line ==> res@ == line,
        text@ == line + seq!['\n'] + rest ==> res@ == if line.len() > 0 && line.last() == '\r' {
            line.drop_last()
        } else {
            line
        },
{
    text@.index_of_first_ensures('\n');
    if text@ == line + seq!['\n'] + rest {
        let end = line.len() as int;
        assert(text@[end] == '\n');
        assert forall|k: int| 0 <= k < end implies text@[k] != '\n' by {
            assert(line.contains(line[k]));
            assert(text@[k] == line[k]);
        }
        assert(text@.contains('\n'));
        assert(text@.index_of_first('\n') == Some(end));
        assert(text@.take(end) =~= line);
        if end > 0 {
            assert(text@[end - 1] == line.last());
            assert(text@.take(end - 1) =~= line.drop_last());
        }
    }
}

/// Whether a character is blank: one of those that Unicode counts as white space.
pub open spec fn is_blank(c: char) -> bool {
    ||| '\u{9}' <= c <= '\u{d}'
    ||| c == '\u{20}'
    ||| c == '\u{85}'
    ||| c == '\u{a0}'
    ||| c == '\u{1680}'
    ||| '\u{2000}' <= c <= '\u{200a}'
    ||| c == '\u{2028}'
    ||| c == '\u{2029}'
    ||| c == '\u{202f}'
    ||| c == '\u{205f}'
    ||| c == '\u{3000}'
}

proof fn lemma_trimmed_start(text: Seq<char>) -> (lo: int)
    ensures
        0 <= lo <= text.len(),
        trim_start_of(text) == text.skip(lo),
        forall|i: int| 0 <= i < lo ==> is_blank(#[trigger] text[i]),
        lo < text.len() ==> !is_blank(text[lo]),
    decreases text.len(),
{
    if text.len() > 0 && is_white_space(text[0]) {
        let rest = text.drop_first();
        let lo = lemma_trimmed_start(rest);
        assert(rest.skip(lo) =~= text.skip(lo + 1));
        assert forall|i: int| 0 <= i < lo + 1 implies is_blank(#[trigger] text[i]) by {
            if i > 0 {
                assert(text[i] == rest[i - 1]);
            }
        }
        assert(lo < rest.len() ==> rest[lo] == text[lo + 1]);
        lo + 1
    } else {
        assert(text.skip(0) =~= text);
        0
    }
}

proof fn lemma_trimmed_end(text: Seq<char>) -> (hi: int)
    ensures
        0 <= hi <= text.len(),
        trim_end_of(text) == text.take(hi),
        forall|i: int| hi <= i < text.len() ==> is_blank(#[trigger] text[i]),
        hi > 0 ==> !is_blank(text[hi - 1]),
    decreases text.len(),
{
    if text.len() > 0 && is_white_space(text.last()) {
        let rest = text.drop_last();
        let hi = lemma_trimmed_end(rest);
        assert(rest.take(hi) =~= text.take(hi));
        assert forall|i: int| hi <= i < text.len() implies is_blank(#[trigger] text[i]) by {
            if i < rest.len() {
                assert(text[i] == rest[i]);
            }
        }
        assert(hi > 0 ==> rest[hi - 1] == text[hi - 1]);
        hi
    } else {
        assert(text.take(text.len() as int) =~= text);
        text.len() as int
    }
}

/// Whether `part` is what is left of `text` when all blanks at its ends are taken away.
pub open spec fn is_trimmed(text: Seq<char>, part: Seq<char>) -> bool {
    exists|lo: int, hi: int|
        {
            &&& 0 <= lo <= hi <= text.len()
            &&& part == #[trigger] text.subrange(lo, hi)
            &&& forall|i: int| 0 <= i < lo || hi <= i < text.len() ==> is_blank(#[trigger] text[i])
            &&& lo < hi ==> !is_blank(text[lo]) && !is_blank(text[hi - 1])
        }
}

/// A command line is shown with a space for each NUL and without blanks at its ends, and else as it
/// is: nothing in between is lost, added or put elsewhere.
pub proof fn law_command_line_is_kept(text: &str, res: String)
    requires
        call_ensures(clean_cmdline, (text,), res),
    ensures
        is_trimmed(
            Seq::new(
                text@.len(),
                |i: int|
                    if text@[i] == '\0' {
                        ' '
                    } else {
                        text@[i]
                    },
            ),
            res@,
        ),
{
    lemma_command_line_is_kept(text@);
}

pub proof fn lemma_command_line_is_kept(text: Seq<char>)
    ensures
        is_trimmed(
            Seq::new(
                text.len(),
                |i: int|
                    if text[i] == '\0' {
                        ' '
                    } else {
                        text[i]
                    },
            ),
            clean_cmdline_of(text),
        ),
{
    let spaced = Seq::new(
        text.len(),
        |i: int|
            if text[i] == '\0' {
                ' '
            } else {
                text[i]
            },
    );
    assert(nul_to_space(text) =~= spaced);
    let lo = lemma_trimmed_start(spaced);
    let rest = spaced.skip(lo);
    let len = lemma_trimmed_end(rest);
    let hi = lo + len;
    assert(rest.take(len) =~= spaced.subrange(lo, hi));
    assert forall|i: int| 0 <= i < lo || hi <= i < spaced.len() implies is_blank(
        #[trigger] spaced[i],
    ) by {
        if i >= hi {
            assert(rest[i - lo] == spaced[i]);
        }
    }
    if lo < hi {
        assert(rest[len - 1] == spaced[hi - 1]);
    }
}

/// A process has what it was made of.
pub proof fn law_process_keeps_what_it_was_made_of(
    pid: u32,
    utime: u64,
    stime: u64,
    cmdline: String,
    comm: String,
    uid: u32,
    cgroup: String,
    res: ProcessInfo,
)
    requires
        call_ensures(ProcessInfo::new, (pid, utime, stime, cmdline, comm, uid, cgroup), res),
    ensures
        res.pid == pid,
        res.utime == utime,
        res.stime == stime,
        res.cmdline@ == cmdline@,
        res.comm@ == comm@,
        res.uid == uid,
        res.cgroup@ == cgroup@,
{
}

/// Each tick counts once, in user mode as in kernel mode: the totals of two processes differ by
/// what their counters differ by, and a process without ticks has none.
pub proof fn law_each_tick_counts_once(a: ProcessInfo, b: ProcessInfo, all_a: u64, all_b: u64)
    requires
        call_ensures(ProcessInfo::total_cpu_ticks, (&a,), all_a),
        call_ensures(ProcessInfo::total_cpu_ticks, (&b,), all_b),
    ensures
        all_a - all_b == (a.utime - b.utime) + (a.stime - b.stime),
        a.utime == 0 && a.stime == 0 ==> all_a == 0,
        b.utime == a.utime + 1 && b.stime == a.stime ==> all_b == all_a + 1,
        b.utime == a.utime && b.stime == a.stime + 1 ==> all_b == all_a + 1,
{
}

/// The ticks of a process are given wherever they fit in 64 bits, and what it used wherever both
/// totals do.
pub proof fn law_ticks_are_given_where_they_fit(cur: ProcessInfo, prev: ProcessInfo)
    ensures
        cur.utime + cur.stime <= u64::MAX ==> call_requires(
            ProcessInfo::total_cpu_ticks,
            (&cur,),
        ),
        cur.utime + cur.stime <= u64::MAX && prev.utime + prev.stime <= u64::MAX
            ==> call_requires(ProcessInfo::cpu_delta_ticks, (&cur, &prev)),
{
}

/// The time of a process, counted at the same rate, is the ticks of both its counters.
pub proof fn law_time_of_a_process_is_its_ticks(
    process: ProcessInfo,
    clk_tck: u64,
    res: CpuSeconds,
)
    requires
        call_ensures(ProcessInfo::total_cpu_time, (&process, clk_tck), res),
    ensures
        clk_tck > 0 ==> res@ * (clk_tck as int as real) == (process.utime
            + process.stime) as real,
        clk_tck == 0 ==> res@ == 0 as real,
{
    lemma_seconds_count_ticks(process.utime + process.stime, clk_tck);
}

/// What a process used since it was seen before, with what it had used then, is what it has used
/// in all. There is an answer exactly where that is more.
pub proof fn law_delta_makes_up_the_difference(
    cur: ProcessInfo,
    prev: ProcessInfo,
    clk_tck: u64,
    ticks: Option<u64>,
    seconds: Option<CpuSeconds>,
)
    requires
        call_ensures(ProcessInfo::cpu_delta_ticks, (&cur, &prev), ticks),
        call_ensures(ProcessInfo::cpu_delta_seconds, (&cur, &prev, clk_tck), seconds),
    ensures
        ticks is Some <==> cur.utime + cur.stime > prev.utime + prev.stime,
        ticks matches Some(n) ==> prev.utime + prev.stime + n == cur.utime + cur.stime,
        seconds is Some <==> ticks is Some,
        seconds matches Some(s) ==> (clk_tck > 0 ==> s@ * (clk_tck as int as real) == ticks->0
            as int as real) && (clk_tck == 0 ==> s@ == 0 as real),
{
    law_delta_seconds_make_up_the_difference(cur, prev, clk_tck, seconds);
}

/// The same of the seconds alone, for counters of any size.
pub proof fn law_delta_seconds_make_up_the_difference(
    cur: ProcessInfo,
    prev: ProcessInfo,
    clk_tck: u64,
    seconds: Option<CpuSeconds>,
)
    requires
        call_ensures(ProcessInfo::cpu_delta_seconds, (&cur, &prev, clk_tck), seconds),
    ensures
        seconds is Some <==> cur.utime + cur.stime > prev.utime + prev.stime,
        seconds matches Some(s) ==> (clk_tck > 0 ==> s@ * (clk_tck as int as real) == (cur.utime
            + cur.stime - prev.utime - prev.stime) as real) && (clk_tck == 0 ==> s@ == 0 as real),
{
    lemma_seconds_count_ticks(cur.utime + cur.stime - prev.utime - prev.stime, clk_tck);
}

/// Each kind is shown under a name of its own.
pub proof fn law_kinds_are_shown_by_name(kind: ProcessType, res: String)
    requires
        call_ensures(ProcessType::to_string, (&kind,), res),
    ensures
        kind is System ==> res@ == "💻 System"@,
        kind is Proc ==> res@ == "⚙ Proc"@,
        kind is Gitlab ==> res@ == "🦊 Gitlab"@,
        kind is Docker ==> res@ == "🐋 Docker"@,
        kind is Suspicious ==> res@ == "⚠️ Suspicious"@,
{
}

/// The text of a group starts with the name of the kind. Those of ordinary, suspicious and
/// container processes go on with a colon and the text that was given, in full; those of the
/// system and of Gitlab are the name alone, whatever was given.
pub proof fn law_group_starts_with_its_kind(
    kind: ProcessType,
    text: String,
    label: String,
    res: String,
)
    requires
        call_ensures(ProcessType::to_string, (&kind,), label),
        call_ensures(ProcessType::converte, (&kind, text), res),
    ensures
        kind is Proc || kind is Suspicious || kind is Docker ==> res@ == label@ + ":"@ + text@,
        kind is System || kind is Gitlab ==> res@ == label@,
{
}

proof fn lemma_first_characters(kind: ProcessType, text: Seq<char>)
    ensures
        group_name(kind, text).len() > 0,
        group_name(kind, text)[0] == match kind {
            ProcessType::System => '💻',
            ProcessType::Proc => '⚙',
            ProcessType::Gitlab => '🦊',
            ProcessType::Docker => '🐋',
            ProcessType::Suspicious => '⚠',
        },
{
    reveal_strlit("💻 System");
    reveal_strlit("⚙ Proc");
    reveal_strlit("🦊 Gitlab");
    reveal_strlit("🐋 Docker");
    reveal_strlit("⚠️ Suspicious");
    assert(group_name(kind, text)[0] == kind_label(kind)[0]);
}

/// Processes of different kinds are never in the same group, whatever texts come with them.
pub proof fn law_kinds_share_no_group(
    a: ProcessType,
    text_a: String,
    name_a: String,
    b: ProcessType,
    text_b: String,
    name_b: String,
)
    requires
        call_ensures(ProcessType::converte, (&a, text_a), name_a),
        call_ensures(ProcessType::converte, (&b, text_b), name_b),
        a != b,
    ensures
        name_a@ != name_b@,
{
    lemma_first_characters(a, text_a@);
    lemma_first_characters(b, text_b@);
}

/// Whether a name is a piece of the command line or of the command name.
pub open spec fn is_named(cmdline: Seq<char>, comm: Seq<char>, name: Seq<char>) -> bool {
    is_piece_of(name, cmdline) || is_piece_of(name, comm)
}

/// The kind of a process is told by the names in its texts, and by nothing else. Each kind is given
/// exactly where one of its own names occurs and none of the kinds that go before it.
pub proof fn law_kind_is_told_by_names(cmdline: &str, comm: &str, res: ProcessType)
    requires
        call_ensures(ProcessType::from_cmdline_and_comm, (cmdline, comm), res),
    ensures
        ({
            let named = |name: Seq<char>| is_named(cmdline@, comm@, name);
            let miner = named("xmrig"@) || named("minerd"@) || named("cpuminer"@) || named(
                "cryptonight"@,
            ) || named("nicehash"@) || named("kinsing"@);
            let gitlab = named("gitlab"@);
            let system = named("systemd"@) || named("init"@) || named("kthreadd"@);
            let docker = named("containerd"@) || named("dockerd"@);
            &&& res is Suspicious <==> miner
            &&& res is Gitlab <==> gitlab && !miner
            &&& res is System <==> system && !gitlab && !miner
            &&& res is Docker <==> docker && !system && !gitlab && !miner
            &&& res is Proc <==> !docker && !system && !gitlab && !miner
        }),
{
    lemma_pieces_stand_in_texts();
}

/// A text with each capital ASCII letter replaced by its small letter.
pub open spec fn small_letters(text: Seq<char>) -> Seq<char> {
    Seq::new(
        text.len(),
        |i: int|
            if 'A' <= text[i] <= 'Z' {
                (text[i] as u32 + 32) as char
            } else {
                text[i]
            },
    )
}

/// Whether `low` is the lower-case form of a text. Of a text with other characters than ASCII the
/// form is named and not described.
pub open spec fn is_lower_case_of(low: Seq<char>, text: Seq<char>) -> bool {
    low == if is_ascii_chars(text) {
        small_letters(text)
    } else {
        unicode_lowercase(small_letters(text))
    }
}

proof fn lemma_lower_case(text: Seq<char>)
    ensures
        is_lower_case_of(lowercase_of(text), text),
{
    assert(ascii_lowered(text) =~= small_letters(text));
}

/// To classify a process is to look for the names in the lower-case forms of both its texts.
pub proof fn law_classifying_goes_by_lower_case(
    cmdline: &str,
    comm: &str,
    low_cmdline: &str,
    low_comm: &str,
    res: ProcessType,
    plain: ProcessType,
)
    requires
        call_ensures(classify_proccess, (cmdline, comm), res),
        call_ensures(ProcessType::from_cmdline_and_comm, (low_cmdline, low_comm), plain),
    ensures
        is_lower_case_of(low_cmdline@, cmdline@) && is_lower_case_of(low_comm@, comm@) ==> res
            == plain,
{
    lemma_lower_case(cmdline@);
    lemma_lower_case(comm@);
}

/// To classify a process the case of its ASCII letters does not matter: calls on texts that are the
/// same in small letters give the same kind.
pub proof fn law_classifying_ignores_case(
    cmdline_a: &str,
    comm_a: &str,
    cmdline_b: &str,
    comm_b: &str,
    a: ProcessType,
    b: ProcessType,
)
    requires
        call_ensures(classify_proccess, (cmdline_a, comm_a), a),
        call_ensures(classify_proccess, (cmdline_b, comm_b), b),
        small_letters(cmdline_a@) == small_letters(cmdline_b@),
        small_letters(comm_a@) == small_letters(comm_b@),
    ensures
        a == b,
{
    assert(ascii_lowered(cmdline_a@) =~= small_letters(cmdline_a@));
    assert(ascii_lowered(cmdline_b@) =~= small_letters(cmdline_b@));
    assert(ascii_lowered(comm_a@) =~= small_letters(comm_a@));
    assert(ascii_lowered(comm_b@) =~= small_letters(comm_b@));
    lemma_same_lower_case(cmdline_a@, cmdline_b@);
    lemma_same_lower_case(comm_a@, comm_b@);
}

} // verus!
