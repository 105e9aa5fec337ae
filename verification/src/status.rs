//! Smaller readings that the monitoring client takes: uptime, socket and
//! process counts from shell commands, processor times from `/proc/stat`,
//! and the configured network reachability flags.

use vstd::prelude::*;
use crate::text::{
    CharClass,
    run_end,
    parse_unsigned,
    words,
    views,
    trimmed,
    chars_of,
    scan,
    parse_unsigned_range,
    trim_bounds,
    split_whitespace,
    parse_u64,
};

verus! {

/// The whole seconds of `/proc/uptime`: the text before the first `.`, read as a `u64`.
pub open spec fn uptime_of(s: Seq<char>) -> Option<u64> {
    match parse_unsigned(s.take(run_end(s, 0, CharClass::Except('.'))), u64::MAX as nat) {
        Some(n) => Some(n as u64),
        None => None,
    }
}

/// Reads the uptime in whole seconds from the content of `/proc/uptime`.
pub fn parse_uptime(content: &str) -> (r: Option<u64>)
    ensures
        r == uptime_of(content@),
{
    let v = chars_of(content);
    let dot = scan(&v, 0, &CharClass::Except('.'));
    assert(v@.subrange(0, dot as int) =~= v@.take(dot as int));
    parse_unsigned_range(&v, 0, dot, u64::MAX)
}

/// The number that a shell command printed: its output trimmed and read as a
/// `u32`, or 0 when the command could not run, its output was not UTF-8, or
/// the text is not a number.
pub open spec fn count_of(out: Option<Seq<char>>) -> u32 {
    match out {
        Some(s) => match parse_unsigned(trimmed(s), u32::MAX as nat) {
            Some(n) => n as u32,
            None => 0,
        },
        None => 0,
    }
}

/// The number that a shell command printed, given its output (`None` when
/// the command could not run or its output was not UTF-8).
pub fn command_count(stdout: Option<&str>) -> (r: u32)
    ensures
        r == count_of(
            match stdout {
                Some(s) => Some(s@),
                None => None,
            },
        ),
{
    match stdout {
        Some(s) => {
            let v = chars_of(s);
            let (a, b) = trim_bounds(&v);
            match parse_unsigned_range(&v, a, b, u32::MAX as u64) {
                Some(n) => n as u32,
                None => 0,
            }
        },
        None => 0,
    }
}

pub open spec fn sat_sub_u32(a: u32, b: u32) -> u32 {
    if a >= b {
        (a - b) as u32
    } else {
        0
    }
}

pub open spec fn out_view(o: Option<&str>) -> Option<Seq<char>> {
    match o {
        Some(s) => Some(s@),
        None => None,
    }
}

/// The TCP socket, UDP socket, process and thread counts, from the outputs of
/// `ss -t | wc -l`, `ss -u | wc -l`, `ps -ef | wc -l` and `ps -eLf | wc -l`:
/// one header line is dropped from each socket count, and the header and the
/// `ps` process itself from each process and thread count.
pub fn tupd(
    tcp_lines: Option<&str>,
    udp_lines: Option<&str>,
    process_lines: Option<&str>,
    thread_lines: Option<&str>,
) -> (r: (u32, u32, u32, u32))
    ensures
        r == (
            sat_sub_u32(count_of(out_view(tcp_lines)), 1),
            sat_sub_u32(count_of(out_view(udp_lines)), 1),
            sat_sub_u32(count_of(out_view(process_lines)), 2),
            sat_sub_u32(count_of(out_view(thread_lines)), 2),
        ),
{
    let t = command_count(tcp_lines).saturating_sub(1);
    let u = command_count(udp_lines).saturating_sub(1);
    let p = command_count(process_lines).saturating_sub(2);
    let d = command_count(thread_lines).saturating_sub(2);
    (t, u, p, d)
}

/// The processor time counters of the first line of `/proc/stat`: the fields
/// after the label, at most four of them (user, nice, system, idle), each a
/// `u64`; `None` when one of them is not a number.
pub open spec fn cpu_fields(s: Seq<char>) -> Option<Seq<u64>> {
    let w = words(s);
    let n: int = if w.len() == 0 {
        0
    } else if w.len() - 1 < 4 {
        w.len() - 1
    } else {
        4
    };
    if forall|k: int| 1 <= k <= n ==> #[trigger] parse_unsigned(w[k], u64::MAX as nat) is Some {
        Some(Seq::new(n as nat, |k: int| parse_unsigned(w[k + 1], u64::MAX as nat)->0 as u64))
    } else {
        None
    }
}

/// Reads the processor time counters from the first line of `/proc/stat`.
pub fn cpu_sample(line: &str) -> (r: Option<Vec<u64>>)
    ensures
        match cpu_fields(line@) {
            Some(f) => r matches Some(v) && v@ == f,
            None => r is None,
        },
{
    let w = split_whitespace(line);
    let ghost ws = words(line@);
    let n: usize = if w.len() == 0 {
        0
    } else if w.len() - 1 < 4 {
        w.len() - 1
    } else {
        4
    };
    let mut out: Vec<u64> = Vec::new();
    for k in 0..n
        invariant
            views(w@) == ws,
            ws == words(line@),
            n <= 4,
            n == 0 || n < w@.len(),
            n as int == (if ws.len() == 0 {
                0
            } else if ws.len() - 1 < 4 {
                ws.len() - 1
            } else {
                4
            }),
            out@.len() == k,
            forall|m: int|
                1 <= m <= k ==> #[trigger] parse_unsigned(ws[m], u64::MAX as nat) is Some,
            forall|m: int|
                0 <= m < k ==> #[trigger] out@[m] == parse_unsigned(ws[m + 1], u64::MAX as nat)->0
                    as u64,
    {
        assert(w@[k + 1]@ == ws[k + 1]);
        match parse_u64(w[k + 1].as_str()) {
            Some(x) => {
                out.push(x);
            },
            None => {
                assert(!(parse_unsigned(ws[k + 1], u64::MAX as nat) is Some));
                return None;
            },
        }
    }
    assert(out@ =~= Seq::new(
        n as nat,
        |k: int| parse_unsigned(ws[k + 1], u64::MAX as nat)->0 as u64,
    ));
    Some(out)
}

pub open spec fn seq_sum(s: Seq<u64>) -> nat
    decreases s.len(),
{
    if s.len() == 0 {
        0
    } else {
        seq_sum(s.drop_last()) + s.last() as nat
    }
}

proof fn lemma_seq_sum_prefix(s: Seq<u64>, i: int)
    requires
        0 <= i <= s.len(),
    ensures
        seq_sum(s.take(i)) <= seq_sum(s),
    decreases s.len() - i,
{
    if i < s.len() {
        lemma_seq_sum_prefix(s, i + 1);
        assert(s.take(i + 1).drop_last() =~= s.take(i));
    } else {
        assert(s.take(i) =~= s);
    }
}

/// The sum of the counters, or `None` when it does not fit in a `u64`.
fn checked_sum(v: &Vec<u64>) -> (r: Option<u64>)
    ensures
        match r {
            Some(x) => x == seq_sum(v@),
            None => seq_sum(v@) > u64::MAX,
        },
{
    let mut acc: u64 = 0;
    for i in 0..v.len()
        invariant
            acc == seq_sum(v@.take(i as int)),
    {
        assert(v@.take(i + 1).drop_last() =~= v@.take(i as int));
        if acc > u64::MAX - v[i] {
            proof {
                lemma_seq_sum_prefix(v@, i + 1);
            }
            return None;
        }
        acc = acc + v[i];
    }
    assert(v@.take(v.len() as int) =~= v@);
    Some(acc)
}

/// The inputs on which one processor usage step is defined: both samples
/// have an idle counter, their sums fit in a `u64`, and neither the sum nor
/// the idle counter went down.
pub open spec fn cpu_step_defined(pre: Seq<u64>, cur: Seq<u64>) -> bool {
    &&& pre.len() >= 4
    &&& cur.len() >= 4
    &&& seq_sum(pre) <= u64::MAX
    &&& seq_sum(cur) <= u64::MAX
    &&& seq_sum(pre) <= seq_sum(cur)
    &&& pre[3] <= cur[3]
}

/// Whether `cpu_step` is defined on the two samples.
pub fn cpu_step_is_defined(pre: &Vec<u64>, cur: &Vec<u64>) -> (r: bool)
    ensures
        r == cpu_step_defined(pre@, cur@),
{
    if pre.len() < 4 || cur.len() < 4 {
        return false;
    }
    match (checked_sum(pre), checked_sum(cur)) {
        (Some(a), Some(b)) => a <= b && pre[3] <= cur[3],
        _ => false,
    }
}

/// The idle time and the total time that passed between two samples; a
/// total of zero counts as one so that it can divide.
pub fn cpu_step(pre: &Vec<u64>, cur: &Vec<u64>) -> (r: (u64, u64))
    requires
        cpu_step_defined(pre@, cur@),
    ensures
        r.0 == cur@[3] - pre@[3],
        r.1 == if seq_sum(cur@) == seq_sum(pre@) {
            1
        } else {
            seq_sum(cur@) - seq_sum(pre@)
        },
{
    let a = checked_sum(pre).unwrap();
    let b = checked_sum(cur).unwrap();
    let mut st = b - a;
    if st == 0 {
        st = 1;
    }
    (cur[3] - pre[3], st)
}

/// The reachability flags given in the `online` setting: bit 0 for IPv4,
/// bit 1 for IPv6. When neither bit is set the client probes instead.
pub fn network_from_flags(online: u8) -> (r: Option<(bool, bool)>)
    ensures
        match r {
            Some(f) => f == ((online & 1) != 0, (online & 2) != 0) && (f.0 || f.1),
            None => (online & 1) == 0 && (online & 2) == 0,
        },
{
    let v4 = (online & 1) != 0;
    let v6 = (online & 2) != 0;
    if v4 || v6 {
        Some((v4, v6))
    } else {
        None
    }
}

} // verus!
