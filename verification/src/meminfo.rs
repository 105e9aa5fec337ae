//! Memory figures from `/proc/meminfo`.
//!
//! A line is read as the pattern `^(?P<key>\S*):\s*(?P<value>\d*)\s*kB`
//! describes it, with leftmost-first (backtracking) matching: the key is the
//! longest prefix of the line's leading run of non-whitespace that is followed
//! by `:` and then by optional whitespace, optional digits, optional
//! whitespace and `kB`. Whitespace is Unicode `White_Space` and `\d` is a
//! Unicode decimal digit, as in the `regex` crate's default Unicode mode; the
//! value itself is read as `str::parse` reads it, which takes ASCII digits only.

use vstd::prelude::*;
use crate::text::{
    CharClass, run_end, parse_unsigned, views, chars_of, scan, string_of, parse_u64, str_eq, is_ws,
    is_digit, is_decimal, all_digits, decimal_value, in_class, lemma_run_end_at, lemma_parse_digits,
    lemma_char_classes,
};

verus! {

/// The bounds of the value digits when `s[j..]` continues as `\s*\d*\s*kB`.
pub open spec fn kb_tail(s: Seq<char>, j: int) -> Option<(int, int)> {
    let a = run_end(s, j, CharClass::Space);
    let b = run_end(s, a, CharClass::Decimal);
    let c = run_end(s, b, CharClass::Space);
    if 0 <= j <= s.len() && c + 1 < s.len() && s[c] == 'k' && s[c + 1] == 'B' {
        Some((a, b))
    } else {
        None
    }
}

/// The largest key end `e <= top` with `s[e] == ':'` followed by a `kB` tail.
pub open spec fn key_end_from(s: Seq<char>, top: int) -> Option<int>
    decreases top + 1,
{
    if top < 0 || top >= s.len() {
        None
    } else if s[top] == ':' && kb_tail(s, top + 1) is Some {
        Some(top)
    } else {
        key_end_from(s, top - 1)
    }
}

/// The key and value texts that the pattern captures in `s`, if it matches.
pub open spec fn memory_match(s: Seq<char>) -> Option<(Seq<char>, Seq<char>)> {
    match key_end_from(s, run_end(s, 0, CharClass::Word) - 1) {
        Some(e) => {
            let t = kb_tail(s, e + 1)->0;
            Some((s.subrange(0, e), s.subrange(t.0, t.1)))
        },
        None => None,
    }
}

/// The key and the value in kB of a line, when it matches and the value is a `u64`.
pub open spec fn memory_entry(s: Seq<char>) -> Option<(Seq<char>, u64)> {
    match memory_match(s) {
        Some((k, v)) => match parse_unsigned(v, u64::MAX as nat) {
            Some(n) => Some((k, n as u64)),
            None => None,
        },
        None => None,
    }
}

/// The captures of one `/proc/meminfo` line.
#[derive(Debug)]
pub struct MemoryCaptures {
    pub key: String,
    pub value: String,
}

fn kb_tail_exec(v: &Vec<char>, j: usize) -> (r: Option<(usize, usize)>)
    requires
        j <= v.len(),
    ensures
        match kb_tail(v@, j as int) {
            Some(t) => r == Some((t.0 as usize, t.1 as usize)) && j <= t.0 <= t.1 <= v.len(),
            None => r is None,
        },
{
    let a = scan(v, j, &CharClass::Space);
    let b = scan(v, a, &CharClass::Decimal);
    let c = scan(v, b, &CharClass::Space);
    if c < v.len() && c + 1 < v.len() && v[c] == 'k' && v[c + 1] == 'B' {
        Some((a, b))
    } else {
        None
    }
}

/// The key and value that the `/proc/meminfo` line pattern captures in `line`.
pub fn match_memory_line(line: &str) -> (r: Option<MemoryCaptures>)
    ensures
        match memory_match(line@) {
            Some((k, val)) => r matches Some(c) && c.key@ == k && c.value@ == val,
            None => r is None,
        },
{
    let v = chars_of(line);
    let run = scan(&v, 0, &CharClass::Word);
    let mut e = run;
    while e > 0
        invariant
            e <= run <= v.len(),
            v@ == line@,
            run == run_end(v@, 0, CharClass::Word),
            key_end_from(v@, run - 1) == key_end_from(v@, e - 1),
        decreases e,
    {
        if v[e - 1] == ':' {
            if let Some((a, b)) = kb_tail_exec(&v, e) {
                assert(key_end_from(v@, e - 1) == Some((e - 1) as int));
                let key = string_of(&v, 0, e - 1);
                let value = string_of(&v, a, b);
                assert(memory_match(line@) == Some((key@, value@)));
                return Some(MemoryCaptures { key, value });
            }
        }
        e = e - 1;
    }
    None
}

/// The key and the value in kB of a `/proc/meminfo` line, when the pattern
/// matches and the value reads as a `u64`.
pub fn memory_entry_of(line: &str) -> (r: Option<(String, u64)>)
    ensures
        match memory_entry(line@) {
            Some((k, n)) => r matches Some(p) && p.0@ == k && p.1 == n,
            None => r is None,
        },
{
    match match_memory_line(line) {
        Some(c) => match parse_u64(c.value.as_str()) {
            Some(n) => Some((c.key, n)),
            None => None,
        },
        None => None,
    }
}

/// The value of `key` in the lines: that of the last line with that key, or 0.
pub open spec fn meminfo_value(ls: Seq<Seq<char>>, key: Seq<char>) -> u64
    decreases ls.len(),
{
    if ls.len() == 0 {
        0
    } else {
        match memory_entry(ls.last()) {
            Some(p) => if p.0 == key {
                p.1
            } else {
                meminfo_value(ls.drop_last(), key)
            },
            None => meminfo_value(ls.drop_last(), key),
        }
    }
}

pub open spec fn sat_sub(a: u64, b: u64) -> u64 {
    if a >= b {
        (a - b) as u64
    } else {
        0
    }
}

/// Total memory, used memory, total swap and free swap, in kB. Used memory is
/// the total less free memory, buffers, page cache and reclaimable slab, each
/// subtraction stopping at zero.
pub open spec fn memory_summary(ls: Seq<Seq<char>>) -> (u64, u64, u64, u64) {
    let total = meminfo_value(ls, "MemTotal"@);
    let used = sat_sub(
        sat_sub(
            sat_sub(sat_sub(total, meminfo_value(ls, "MemFree"@)), meminfo_value(ls, "Buffers"@)),
            meminfo_value(ls, "Cached"@),
        ),
        meminfo_value(ls, "SReclaimable"@),
    );
    (total, used, meminfo_value(ls, "SwapTotal"@), meminfo_value(ls, "SwapFree"@))
}

/// Whether the entry of `key` in the lines is `n`: the last line whose entry
/// has that key carries `n`, or no line has that key and `n` is 0.
pub open spec fn last_entry(ls: Seq<Seq<char>>, key: Seq<char>, n: u64) -> bool {
    ||| exists|i: int|
        0 <= i < ls.len() && memory_entry(#[trigger] ls[i]) == Some((key, n)) && forall|j: int|
            i < j < ls.len() ==> !(memory_entry(#[trigger] ls[j]) matches Some(p) && p.0 == key)
    ||| n == 0 && forall|j: int|
        0 <= j < ls.len() ==> !(memory_entry(#[trigger] ls[j]) matches Some(p) && p.0 == key)
}

proof fn lemma_value_of_last(ls: Seq<Seq<char>>, key: Seq<char>, i: int, n: u64)
    requires
        0 <= i < ls.len(),
        memory_entry(ls[i]) == Some((key, n)),
        forall|j: int|
            i < j < ls.len() ==> !(memory_entry(#[trigger] ls[j]) matches Some(p) && p.0 == key),
    ensures
        meminfo_value(ls, key) == n,
    decreases ls.len(),
{
    if i < ls.len() - 1 {
        let last = ls.len() - 1;
        assert(!(memory_entry(ls[last]) matches Some(p) && p.0 == key));
        let d = ls.drop_last();
        assert forall|j: int| i < j < d.len() implies !(memory_entry(#[trigger] d[j]) matches Some(
            p,
        ) && p.0 == key) by {
            assert(d[j] == ls[j]);
        }
        lemma_value_of_last(d, key, i, n);
    }
}

proof fn lemma_value_absent(ls: Seq<Seq<char>>, key: Seq<char>)
    requires
        forall|j: int|
            0 <= j < ls.len() ==> !(memory_entry(#[trigger] ls[j]) matches Some(p) && p.0 == key),
    ensures
        meminfo_value(ls, key) == 0,
    decreases ls.len(),
{
    if ls.len() > 0 {
        let d = ls.drop_last();
        assert(!(memory_entry(ls[ls.len() - 1]) matches Some(p) && p.0 == key));
        assert forall|j: int| 0 <= j < d.len() implies !(memory_entry(#[trigger] d[j]) matches Some(
            p,
        ) && p.0 == key) by {
            assert(d[j] == ls[j]);
        }
        lemma_value_absent(d, key);
    }
}

proof fn lemma_last_entry(ls: Seq<Seq<char>>, key: Seq<char>, n: u64)
    requires
        last_entry(ls, key, n),
    ensures
        meminfo_value(ls, key) == n,
{
    if exists|i: int|
        0 <= i < ls.len() && memory_entry(#[trigger] ls[i]) == Some((key, n)) && forall|j: int|
            i < j < ls.len() ==> !(memory_entry(#[trigger] ls[j]) matches Some(p) && p.0 == key) {
        let i = choose|i: int|
            0 <= i < ls.len() && memory_entry(#[trigger] ls[i]) == Some((key, n)) && forall|j: int|
                i < j < ls.len() ==> !(memory_entry(#[trigger] ls[j]) matches Some(p) && p.0
                    == key);
        lemma_value_of_last(ls, key, i, n);
    } else {
        lemma_value_absent(ls, key);
    }
}

/// The four figures that `get_memory` reports for `/proc/meminfo` lines
/// `ls`, in terms of the entries of the lines: the total memory, the used
/// memory (the total less free memory, buffers, page cache and reclaimable
/// slab, or 0 when those exceed the total), the total swap and the free swap,
/// each entry taken from the last line that has its key, or 0.
pub proof fn law_memory_figures(
    ls: Seq<Seq<char>>,
    total: u64,
    free: u64,
    buffers: u64,
    cached: u64,
    reclaimable: u64,
    swap_total: u64,
    swap_free: u64,
)
    requires
        last_entry(ls, "MemTotal"@, total),
        last_entry(ls, "MemFree"@, free),
        last_entry(ls, "Buffers"@, buffers),
        last_entry(ls, "Cached"@, cached),
        last_entry(ls, "SReclaimable"@, reclaimable),
        last_entry(ls, "SwapTotal"@, swap_total),
        last_entry(ls, "SwapFree"@, swap_free),
    ensures
        memory_summary(ls).0 == total,
        memory_summary(ls).1 == if total >= free + buffers + cached + reclaimable {
            total - free - buffers - cached - reclaimable
        } else {
            0
        },
        memory_summary(ls).2 == swap_total,
        memory_summary(ls).3 == swap_free,
{
    lemma_last_entry(ls, "MemTotal"@, total);
    lemma_last_entry(ls, "MemFree"@, free);
    lemma_last_entry(ls, "Buffers"@, buffers);
    lemma_last_entry(ls, "Cached"@, cached);
    lemma_last_entry(ls, "SReclaimable"@, reclaimable);
    lemma_last_entry(ls, "SwapTotal"@, swap_total);
    lemma_last_entry(ls, "SwapFree"@, swap_free);
}

proof fn lemma_keys_distinct()
    ensures
        "MemTotal"@.len() == 8 && "MemTotal"@[0] == 'M',
        "MemFree"@.len() == 7 && "MemFree"@[0] == 'M',
        "Buffers"@.len() == 7 && "Buffers"@[0] == 'B',
        "Cached"@.len() == 6,
        "SReclaimable"@.len() == 12,
        "SwapTotal"@.len() == 9,
        "SwapFree"@.len() == 8 && "SwapFree"@[0] == 'S',
{
    reveal_strlit("MemTotal");
    reveal_strlit("MemFree");
    reveal_strlit("Buffers");
    reveal_strlit("Cached");
    reveal_strlit("SReclaimable");
    reveal_strlit("SwapTotal");
    reveal_strlit("SwapFree");
}

/// Reads the lines of `/proc/meminfo` into total memory, used memory, total
/// swap and free swap, in kB.
pub fn get_memory(meminfo_lines: &Vec<String>) -> (r: (u64, u64, u64, u64))
    ensures
        r == memory_summary(views(meminfo_lines@)),
        r.1 <= r.0,
{
    let ghost ls = views(meminfo_lines@);
    let mut mem_total: u64 = 0;
    let mut mem_free: u64 = 0;
    let mut buffers: u64 = 0;
    let mut cached: u64 = 0;
    let mut reclaimable: u64 = 0;
    let mut swap_total: u64 = 0;
    let mut swap_free: u64 = 0;
    for i in 0..meminfo_lines.len()
        invariant
            ls == views(meminfo_lines@),
            mem_total == meminfo_value(ls.take(i as int), "MemTotal"@),
            mem_free == meminfo_value(ls.take(i as int), "MemFree"@),
            buffers == meminfo_value(ls.take(i as int), "Buffers"@),
            cached == meminfo_value(ls.take(i as int), "Cached"@),
            reclaimable == meminfo_value(ls.take(i as int), "SReclaimable"@),
            swap_total == meminfo_value(ls.take(i as int), "SwapTotal"@),
            swap_free == meminfo_value(ls.take(i as int), "SwapFree"@),
    {
        proof {
            lemma_keys_distinct();
        }
        assert(ls.take(i + 1).drop_last() =~= ls.take(i as int));
        assert(ls.take(i + 1).last() == meminfo_lines@[i as int]@);
        if let Some((key, n)) = memory_entry_of(meminfo_lines[i].as_str()) {
            let k = key.as_str();
            if str_eq(k, "MemTotal") {
                mem_total = n;
            } else if str_eq(k, "MemFree") {
                mem_free = n;
            } else if str_eq(k, "Buffers") {
                buffers = n;
            } else if str_eq(k, "Cached") {
                cached = n;
            } else if str_eq(k, "SReclaimable") {
                reclaimable = n;
            } else if str_eq(k, "SwapTotal") {
                swap_total = n;
            } else if str_eq(k, "SwapFree") {
                swap_free = n;
            }
        }
    }
    assert(ls.take(meminfo_lines.len() as int) =~= ls);
    let used = mem_total.saturating_sub(mem_free).saturating_sub(buffers).saturating_sub(
        cached,
    ).saturating_sub(reclaimable);
    (mem_total, used, swap_total, swap_free)
}

/// A line written the usual way (a key with neither whitespace nor a colon in
/// it, a colon, whitespace, the value in ASCII digits, optional whitespace and
/// `kB`, then anything) is read as that key and that value; the entry holds
/// the value as a number whenever it fits in a `u64`.
pub proof fn law_meminfo_line(
    key: Seq<char>,
    ws1: Seq<char>,
    d: Seq<char>,
    ws2: Seq<char>,
    rest: Seq<char>,
)
    requires
        forall|i: int| 0 <= i < key.len() ==> !is_ws(#[trigger] key[i]) && key[i] != ':',
        ws1.len() > 0,
        forall|i: int| 0 <= i < ws1.len() ==> is_ws(#[trigger] ws1[i]),
        d.len() > 0,
        all_digits(d),
        forall|i: int| 0 <= i < ws2.len() ==> is_ws(#[trigger] ws2[i]),
    ensures
        ({
            let line = key + seq![':'] + ws1 + d + ws2 + seq!['k', 'B'] + rest;
            &&& memory_match(line) == Some((key, d))
            &&& memory_entry(line) == if decimal_value(d) <= u64::MAX {
                Some((key, decimal_value(d) as u64))
            } else {
                None::<(Seq<char>, u64)>
            }
        }),
{
    let s = key + seq![':'] + ws1 + d + ws2 + seq!['k', 'B'] + rest;
    let n = key.len() as int;
    let a = n + 1 + ws1.len();
    let b = a + d.len();
    let c = b + ws2.len();
    assert forall|j: int| 0 <= j < n implies s[j] == key[j] by {}
    assert(s[n] == ':');
    assert forall|j: int| 0 <= j < ws1.len() implies s[n + 1 + j] == ws1[j] by {}
    assert forall|j: int| 0 <= j < d.len() implies s[a + j] == d[j] by {}
    assert forall|j: int| 0 <= j < ws2.len() implies s[b + j] == ws2[j] by {}
    assert(s[c] == 'k' && s[c + 1] == 'B' && c + 1 < s.len());
    lemma_char_classes(':');
    lemma_char_classes('k');
    assert forall|j: int| 0 <= j < n + 1 implies in_class(#[trigger] s[j], CharClass::Word) by {
        if j < n {
            assert(s[j] == key[j]);
        }
    }
    lemma_char_classes(s[n + 1]);
    assert(s[n + 1] == ws1[0]);
    lemma_run_end_at(s, 0, n + 1, CharClass::Word);
    assert forall|j: int| n + 1 <= j < a implies in_class(#[trigger] s[j], CharClass::Space) by {
        assert(s[n + 1 + (j - n - 1)] == ws1[j - n - 1]);
    }
    assert(s[a] == d[0]);
    lemma_char_classes(d[0]);
    lemma_run_end_at(s, n + 1, a, CharClass::Space);
    assert forall|j: int| a <= j < b implies in_class(#[trigger] s[j], CharClass::Decimal) by {
        assert(s[a + (j - a)] == d[j - a]);
        lemma_char_classes(d[j - a]);
    }
    if ws2.len() > 0 {
        assert(s[b] == ws2[0]);
        lemma_char_classes(ws2[0]);
    } else {
        assert(s[b] == 'k');
    }
    lemma_run_end_at(s, a, b, CharClass::Decimal);
    assert forall|j: int| b <= j < c implies in_class(#[trigger] s[j], CharClass::Space) by {
        assert(s[b + (j - b)] == ws2[j - b]);
    }
    lemma_run_end_at(s, b, c, CharClass::Space);
    assert(kb_tail(s, n + 1) == Some((a, b)));
    assert(key_end_from(s, n) == Some(n));
    assert(s.subrange(0, n) =~= key);
    assert(s.subrange(a, b) =~= d);
    if decimal_value(d) <= u64::MAX {
        lemma_parse_digits(d, u64::MAX as nat);
    } else {
        assert(parse_unsigned(d, u64::MAX as nat) is None) by {
            assert(is_digit(d[0]));
        }
    }
}

} // verus!
