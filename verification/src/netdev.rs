//! Network byte counters from `/proc/net/dev`.
//!
//! Two readings of a line are used. The traffic totals read it as the
//! unanchored pattern
//! `([^\s]+):[\s]{0,}(\d+)\s+(\d+)\s+(\d+)\s+(\d+)\s+(\d+)\s+(\d+)\s+(\d+)\s+(\d+)\s+(\d+)\s+(\d+)\s+(\d+)`
//! describes it, with leftmost-first matching: the match starts at the first
//! position where one exists, and there the interface name is the longest
//! run of non-whitespace that is followed by `:` and eleven whitespace-separated
//! numbers. The speed sampler instead splits the line at `:` and takes the
//! first and ninth whitespace-separated field after the first `:`.
//! Whitespace is Unicode `White_Space` and `\d` is a Unicode decimal digit,
//! as in the `regex` crate's default Unicode mode; the numbers themselves are
//! read as `str::parse` reads them, which takes ASCII digits only.

use vstd::prelude::*;
use crate::text::{
    CharClass,
    run_end,
    lemma_run_end,
    parse_unsigned,
    views,
    words,
    chars_of,
    scan,
    string_of,
    parse_u64,
    split_whitespace,
    all_digits,
    decimal_value,
    lemma_parse_digits,
    lemma_run_end_at,
    in_class,
    is_ws,
    is_digit,
    is_decimal,
    lemma_char_classes,
};

verus! {

/// The number of digit groups after the interface name.
pub open spec fn counter_count() -> nat {
    11
}

/// Bounds of `n` runs of digits from `j` on, separated by whitespace runs:
/// `\d+(\s+\d+)` repeated `n - 1` times.
pub open spec fn digit_groups(s: Seq<char>, j: int, n: nat) -> Option<Seq<(int, int)>>
    decreases n,
{
    let d = run_end(s, j, CharClass::Decimal);
    if n == 0 || !(0 <= j < d) {
        None
    } else if n == 1 {
        Some(seq![(j, d)])
    } else {
        let w = run_end(s, d, CharClass::Space);
        if w == d {
            None
        } else {
            match digit_groups(s, w, (n - 1) as nat) {
                Some(g) => Some(seq![(j, d)] + g),
                None => None,
            }
        }
    }
}

/// The digit groups that follow a `:` at `e`.
pub open spec fn counters_after(s: Seq<char>, e: int) -> Option<Seq<(int, int)>> {
    digit_groups(s, run_end(s, e + 1, CharClass::Space), counter_count())
}

/// The largest `e` in `p+1..=top` with `s[e] == ':'` followed by the counters.
pub open spec fn name_end_from(s: Seq<char>, p: int, top: int) -> Option<int>
    decreases top - p,
{
    if top <= p || top >= s.len() {
        None
    } else if s[top] == ':' && counters_after(s, top) is Some {
        Some(top)
    } else {
        name_end_from(s, p, top - 1)
    }
}

proof fn lemma_digit_groups_len(s: Seq<char>, j: int, n: nat)
    ensures
        digit_groups(s, j, n) matches Some(g) ==> g.len() == n,
    decreases n,
{
    if n > 1 {
        let d = run_end(s, j, CharClass::Decimal);
        let w = run_end(s, d, CharClass::Space);
        lemma_digit_groups_len(s, w, (n - 1) as nat);
    }
}

proof fn lemma_name_end(s: Seq<char>, p: int, top: int)
    ensures
        name_end_from(s, p, top) matches Some(e) ==> p < e <= top && e < s.len() && s[e] == ':'
            && counters_after(s, e) is Some,
    decreases top - p,
{
    if top > p && top < s.len() && !(s[top] == ':' && counters_after(s, top) is Some) {
        lemma_name_end(s, p, top - 1);
    }
}

/// The end of the interface name when a match starts at `p`.
pub open spec fn match_at(s: Seq<char>, p: int) -> Option<int> {
    name_end_from(s, p, run_end(s, p, CharClass::Word) - 1)
}

/// The first start `p >= i` where a match exists, with the name end there.
pub open spec fn first_match_from(s: Seq<char>, i: int) -> Option<(int, int)>
    decreases s.len() - i,
{
    if i < 0 || i >= s.len() {
        None
    } else {
        match match_at(s, i) {
            Some(e) => Some((i, e)),
            None => first_match_from(s, i + 1),
        }
    }
}

proof fn lemma_first_match(s: Seq<char>, i: int)
    ensures
        first_match_from(s, i) matches Some(pe) ==> match_at(s, pe.0) == Some(pe.1),
    decreases s.len() - i,
{
    if 0 <= i < s.len() && match_at(s, i) is None {
        lemma_first_match(s, i + 1);
    }
}

/// The interface name and the eleven counter texts that the traffic pattern
/// captures in `s`, if it matches.
pub open spec fn traffic_match(s: Seq<char>) -> Option<(Seq<char>, Seq<Seq<char>>)> {
    match first_match_from(s, 0) {
        Some((p, e)) => {
            let g = counters_after(s, e)->0;
            Some((s.subrange(p, e), Seq::new(g.len(), |k: int| s.subrange(g[k].0, g[k].1))))
        },
        None => None,
    }
}

/// The interface name, received bytes (first counter) and transmitted bytes
/// (ninth counter) of a line, when it matches and both counters are `u64`s.
pub open spec fn traffic_entry(s: Seq<char>) -> Option<(Seq<char>, u64, u64)> {
    match traffic_match(s) {
        Some((name, g)) => match (
            parse_unsigned(g[0], u64::MAX as nat),
            parse_unsigned(g[8], u64::MAX as nat),
        ) {
            (Some(rx), Some(tx)) => Some((name, rx as u64, tx as u64)),
            _ => None,
        },
        None => None,
    }
}

/// A line that the traffic pattern matches yields its first and ninth
/// counters as received and transmitted bytes whenever both are ASCII
/// numbers that fit in a `u64`; it yields nothing when either is not.
pub proof fn law_traffic_counters(s: Seq<char>, name: Seq<char>, g: Seq<Seq<char>>)
    requires
        traffic_match(s) == Some((name, g)),
    ensures
        g.len() == counter_count(),
        (g[0].len() > 0 && all_digits(g[0]) && decimal_value(g[0]) <= u64::MAX && g[8].len() > 0
            && all_digits(g[8]) && decimal_value(g[8]) <= u64::MAX) ==> traffic_entry(s) == Some(
            (name, decimal_value(g[0]) as u64, decimal_value(g[8]) as u64),
        ),
        parse_unsigned(g[0], u64::MAX as nat) is None ==> traffic_entry(s) is None,
        parse_unsigned(g[8], u64::MAX as nat) is None ==> traffic_entry(s) is None,
{
    let pe = first_match_from(s, 0)->0;
    lemma_first_match(s, 0);
    lemma_name_end(s, pe.0, run_end(s, pe.0, CharClass::Word) - 1);
    lemma_digit_groups_len(s, run_end(s, pe.1 + 1, CharClass::Space), counter_count());
    if g[0].len() > 0 && all_digits(g[0]) && decimal_value(g[0]) <= u64::MAX && g[8].len() > 0
        && all_digits(g[8]) && decimal_value(g[8]) <= u64::MAX {
        lemma_parse_digits(g[0], u64::MAX as nat);
        lemma_parse_digits(g[8], u64::MAX as nat);
    }
}

/// A line without a traffic match yields nothing.
pub proof fn law_traffic_needs_match(s: Seq<char>)
    requires
        traffic_match(s) is None,
    ensures
        traffic_entry(s) is None,
{
}

/// Runs `g` of ASCII digits in `s`, in order, each pair separated by
/// whitespace only, the last not followed by a decimal digit.
pub open spec fn spaced_digit_runs(s: Seq<char>, g: Seq<(int, int)>) -> bool {
    &&& forall|k: int| 0 <= k < g.len() ==> 0 <= (#[trigger] g[k]).0 < g[k].1 <= s.len()
    &&& forall|k: int, m: int|
        #![trigger g[k], s[m]]
        0 <= k < g.len() && g[k].0 <= m < g[k].1 ==> is_digit(s[m])
    &&& forall|k: int| 0 <= k < g.len() - 1 ==> (#[trigger] g[k]).1 < g[k + 1].0
    &&& forall|k: int, m: int|
        #![trigger g[k], s[m]]
        0 <= k < g.len() - 1 && g[k].1 <= m < g[k + 1].0 ==> is_ws(s[m])
    &&& (g.len() > 0 && g.last().1 < s.len()) ==> !is_decimal(s[g.last().1])
}

proof fn lemma_spaced_digit_runs(s: Seq<char>, g: Seq<(int, int)>)
    requires
        spaced_digit_runs(s, g),
        g.len() >= 1,
    ensures
        digit_groups(s, g[0].0, g.len() as nat) == Some(g),
    decreases g.len(),
{
    let j = g[0].0;
    let d = g[0].1;
    assert(0 <= j < d <= s.len());
    assert forall|m: int| j <= m < d implies in_class(#[trigger] s[m], CharClass::Decimal) by {
        assert(g[0].0 <= m < g[0].1);
        lemma_char_classes(s[m]);
    }
    if g.len() > 1 {
        assert(d < g[1].0);
        assert(is_ws(s[d]));
        lemma_char_classes(s[d]);
    }
    lemma_run_end_at(s, j, d, CharClass::Decimal);
    if g.len() == 1 {
        assert(seq![(j, d)] =~= g);
    } else {
        let w = g[1].0;
        assert forall|m: int| d <= m < w implies in_class(#[trigger] s[m], CharClass::Space) by {
            assert(g[0].1 <= m < g[1].0);
        }
        assert(is_digit(s[w])) by {
            assert(g[1].0 <= w < g[1].1);
        }
        lemma_char_classes(s[w]);
        lemma_run_end_at(s, d, w, CharClass::Space);
        let t = g.drop_first();
        assert(spaced_digit_runs(s, t)) by {
            assert forall|k: int| 0 <= k < t.len() implies 0 <= (#[trigger] t[k]).0 < t[k].1
                <= s.len() by {
                assert(t[k] == g[k + 1]);
            }
            assert forall|k: int, m: int|
                #![trigger t[k], s[m]]
                0 <= k < t.len() && t[k].0 <= m < t[k].1 implies is_digit(s[m]) by {
                assert(t[k] == g[k + 1]);
            }
            assert forall|k: int| 0 <= k < t.len() - 1 implies (#[trigger] t[k]).1 < t[k + 1].0 by {
                assert(t[k] == g[k + 1] && t[k + 1] == g[k + 2]);
            }
            assert forall|k: int, m: int|
                #![trigger t[k], s[m]]
                0 <= k < t.len() - 1 && t[k].1 <= m < t[k + 1].0 implies is_ws(s[m]) by {
                assert(t[k] == g[k + 1] && t[k + 1] == g[k + 2]);
            }
            assert(t.last() == g.last());
        }
        lemma_spaced_digit_runs(s, t);
        assert(seq![(j, d)] + t =~= g);
    }
}

proof fn lemma_name_end_found(s: Seq<char>, p: int, e: int, top: int)
    requires
        p < e <= top < s.len(),
        s[e] == ':',
        counters_after(s, e) is Some,
        forall|m: int| e < m <= top ==> s[m] != ':',
    ensures
        name_end_from(s, p, top) == Some(e),
    decreases top - e,
{
    if top > e {
        lemma_name_end_found(s, p, e, top - 1);
    }
}

proof fn lemma_first_match_found(s: Seq<char>, i: int, p: int, e: int)
    requires
        0 <= i <= p < s.len(),
        forall|m: int| 0 <= m < p ==> is_ws(#[trigger] s[m]),
        match_at(s, p) == Some(e),
    ensures
        first_match_from(s, i) == Some((p, e)),
    decreases p - i,
{
    if i < p {
        assert(is_ws(s[i]));
        assert(run_end(s, i, CharClass::Word) == i);
        lemma_first_match_found(s, i + 1, p, e);
    }
}

/// A line written as `/proc/net/dev` writes it (leading whitespace, an
/// interface name with neither whitespace nor a colon in it, a colon, optional
/// whitespace, then eleven runs of ASCII digits separated by whitespace) is
/// read by the traffic pattern as that name and those eleven counters; its
/// entry holds the first counter as received and the ninth as transmitted
/// bytes whenever both fit in a `u64`, and is empty otherwise.
pub proof fn law_traffic_line(s: Seq<char>, p: int, e: int, g: Seq<(int, int)>)
    requires
        0 <= p < e < s.len(),
        forall|m: int| 0 <= m < p ==> is_ws(#[trigger] s[m]),
        forall|m: int| p <= m < e ==> !is_ws(#[trigger] s[m]) && s[m] != ':',
        s[e] == ':',
        g.len() == 11,
        e < g[0].0,
        forall|m: int| e < m < g[0].0 ==> is_ws(#[trigger] s[m]),
        spaced_digit_runs(s, g),
    ensures
        traffic_match(s) == Some(
            (s.subrange(p, e), Seq::new(11, |k: int| s.subrange(g[k].0, g[k].1))),
        ),
        ({
            let rx = decimal_value(s.subrange(g[0].0, g[0].1));
            let tx = decimal_value(s.subrange(g[8].0, g[8].1));
            traffic_entry(s) == if rx <= u64::MAX && tx <= u64::MAX {
                Some((s.subrange(p, e), rx as u64, tx as u64))
            } else {
                None::<(Seq<char>, u64, u64)>
            }
        }),
{
    lemma_char_classes(':');
    let f = g[0].0;
    assert(is_digit(s[f])) by {
        assert(g[0].0 <= f < g[0].1);
    }
    lemma_char_classes(s[f]);
    lemma_run_end_at(s, e + 1, f, CharClass::Space);
    lemma_spaced_digit_runs(s, g);
    assert(counters_after(s, e) == Some(g));
    // The leading run of non-whitespace ends after the colon, or after the
    // first counter when no whitespace follows the colon.
    let r = if e + 1 < f {
        e + 1
    } else {
        g[0].1
    };
    assert forall|m: int| p <= m < r implies in_class(#[trigger] s[m], CharClass::Word) by {
        if m > e {
            assert(g[0].0 <= m < g[0].1);
            lemma_char_classes(s[m]);
        }
    }
    if e + 1 < f {
        assert(is_ws(s[e + 1]));
    } else {
        assert(g[0].1 < g[1].0);
        assert(is_ws(s[g[0].1]));
    }
    lemma_run_end_at(s, p, r, CharClass::Word);
    assert forall|m: int| e < m <= r - 1 implies s[m] != ':' by {
        assert(g[0].0 <= m < g[0].1);
    }
    lemma_name_end_found(s, p, e, r - 1);
    lemma_first_match_found(s, 0, p, e);
    let c = Seq::new(11, |k: int| s.subrange(g[k].0, g[k].1));
    assert(traffic_match(s) == Some((s.subrange(p, e), c)));
    assert forall|k: int| 0 <= k < 11 implies (#[trigger] c[k]).len() > 0 && all_digits(c[k]) by {
        assert forall|m: int| 0 <= m < c[k].len() implies is_digit(#[trigger] c[k][m]) by {
            assert(c[k][m] == s[g[k].0 + m]);
            assert(g[k].0 <= g[k].0 + m < g[k].1);
        }
    }
    let rx = decimal_value(c[0]);
    let tx = decimal_value(c[8]);
    if rx <= u64::MAX {
        lemma_parse_digits(c[0], u64::MAX as nat);
    } else {
        assert(is_digit(c[0][0]));
    }
    if tx <= u64::MAX {
        lemma_parse_digits(c[8], u64::MAX as nat);
    } else {
        assert(is_digit(c[8][0]));
    }
}

/// The captures of one `/proc/net/dev` line: the interface name and the
/// eleven counters that follow it.
#[derive(Debug)]
pub struct TrafficCaptures {
    pub name: String,
    pub counters: Vec<String>,
}

fn digit_groups_exec(v: &Vec<char>, j: usize, n: usize) -> (r: Option<Vec<(usize, usize)>>)
    requires
        j <= v.len(),
    ensures
        match digit_groups(v@, j as int, n as nat) {
            Some(g) => r matches Some(x) && x@.len() == g.len() && forall|k: int|
                #![trigger x@[k]]
                0 <= k < g.len() ==> x@[k].0 == g[k].0 && x@[k].1 == g[k].1 && x@[k].0
                    <= x@[k].1 <= v.len(),
            None => r is None,
        },
    decreases n,
{
    let d = scan(v, j, &CharClass::Decimal);
    if n == 0 || d == j {
        return None;
    }
    if n == 1 {
        let mut x = Vec::new();
        x.push((j, d));
        return Some(x);
    }
    let w = scan(v, d, &CharClass::Space);
    if w == d {
        return None;
    }
    match digit_groups_exec(v, w, n - 1) {
        Some(rest) => {
            let ghost g = digit_groups(v@, w as int, (n - 1) as nat)->0;
            let mut x = Vec::new();
            x.push((j, d));
            let mut k: usize = 0;
            while k < rest.len()
                invariant
                    k <= rest.len(),
                    x@.len() == k + 1,
                    x@[0] == (j, d),
                    rest@.len() == g.len(),
                    forall|m: int|
                        #![trigger rest@[m]]
                        0 <= m < g.len() ==> rest@[m].0 == g[m].0 && rest@[m].1 == g[m].1
                            && rest@[m].0 <= rest@[m].1 <= v.len(),
                    forall|m: int| 0 <= m < k ==> #[trigger] x@[m + 1] == rest@[m],
                decreases rest.len() - k,
            {
                x.push(rest[k]);
                k = k + 1;
            }
            assert forall|m: int| 0 < m < x@.len() implies #[trigger] x@[m] == rest@[m - 1] by {
                assert(x@[(m - 1) + 1] == rest@[m - 1]);
            }
            Some(x)
        },
        None => None,
    }
}

/// Where the interface name ends when a match starts at `p`.
fn match_at_exec(v: &Vec<char>, p: usize) -> (r: Option<usize>)
    requires
        p < v.len(),
    ensures
        match match_at(v@, p as int) {
            Some(e) => r == Some(e as usize) && p < e < v.len(),
            None => r is None,
        },
{
    let run = scan(v, p, &CharClass::Word);
    if run == p {
        return None;
    }
    let mut top = run - 1;
    while top > p
        invariant
            p <= top < run <= v.len(),
            match_at(v@, p as int) == name_end_from(v@, p as int, top as int),
        decreases top,
    {
        if v[top] == ':' {
            if digit_groups_exec(v, scan(v, top + 1, &CharClass::Space), 11).is_some() {
                return Some(top);
            }
        }
        top = top - 1;
    }
    None
}

/// The interface name and counters that the `/proc/net/dev` traffic pattern
/// captures in `line`.
pub fn match_traffic_line(line: &str) -> (r: Option<TrafficCaptures>)
    ensures
        match traffic_match(line@) {
            Some((name, g)) => r matches Some(c) && c.name@ == name && views(c.counters@) == g,
            None => r is None,
        },
{
    let v = chars_of(line);
    let mut p: usize = 0;
    while p < v.len()
        invariant
            p <= v.len(),
            v@ == line@,
            first_match_from(v@, 0) == first_match_from(v@, p as int),
        decreases v.len() - p,
    {
        if let Some(e) = match_at_exec(&v, p) {
            proof {
                lemma_name_end(v@, p as int, run_end(v@, p as int, CharClass::Word) - 1);
            }
            let gs = digit_groups_exec(&v, scan(&v, e + 1, &CharClass::Space), 11);
            if let Some(groups) = gs {
                let ghost g = counters_after(v@, e as int)->0;
                let mut counters: Vec<String> = Vec::new();
                for k in 0..groups.len()
                    invariant
                        groups@.len() == g.len(),
                        forall|m: int|
                            #![trigger groups@[m]]
                            0 <= m < g.len() ==> groups@[m].0 == g[m].0 && groups@[m].1 == g[m].1
                                && groups@[m].0 <= groups@[m].1 <= v.len(),
                        counters@.len() == k,
                        forall|m: int|
                            0 <= m < k ==> #[trigger] counters@[m]@ == v@.subrange(
                                g[m].0,
                                g[m].1,
                            ),
                {
                    counters.push(string_of(&v, groups[k].0, groups[k].1));
                }
                let name = string_of(&v, p, e);
                assert(views(counters@) =~= Seq::new(
                    g.len(),
                    |k: int| v@.subrange(g[k].0, g[k].1),
                ));
                return Some(TrafficCaptures { name, counters });
            }
        }
        p = p + 1;
    }
    None
}

/// The interface name, received bytes and transmitted bytes of a
/// `/proc/net/dev` line read with the traffic pattern.
pub fn traffic_sample(line: &str) -> (r: Option<(String, u64, u64)>)
    ensures
        match traffic_entry(line@) {
            Some((name, rx, tx)) => r matches Some(t) && t.0@ == name && t.1 == rx && t.2 == tx,
            None => r is None,
        },
{
    match match_traffic_line(line) {
        Some(c) => {
            proof {
                let pe = first_match_from(line@, 0)->0;
                lemma_first_match(line@, 0);
                lemma_name_end(line@, pe.0, run_end(line@, pe.0, CharClass::Word) - 1);
                lemma_digit_groups_len(
                    line@,
                    run_end(line@, pe.1 + 1, CharClass::Space),
                    counter_count(),
                );
                let captured = traffic_match(line@)->0;
                assert(captured.1.len() == 11);
                assert(views(c.counters@).len() == 11);
            }
            assert(c.counters@[0]@ == views(c.counters@)[0]);
            assert(c.counters@[8]@ == views(c.counters@)[8]);
            let rx = parse_u64(c.counters[0].as_str());
            let tx = parse_u64(c.counters[8].as_str());
            match (rx, tx) {
                (Some(a), Some(b)) => Some((c.name, a, b)),
                _ => None,
            }
        },
        None => None,
    }
}

/// The interface name (the text before the first `:`) and the received and
/// transmitted byte counters (fields 1 and 9 after it) of a line, as the
/// speed sampler reads it.
pub open spec fn net_dev_entry(s: Seq<char>) -> Option<(Seq<char>, u64, u64)> {
    let c1 = run_end(s, 0, CharClass::Except(':'));
    if c1 >= s.len() {
        None
    } else {
        let c2 = run_end(s, c1 + 1, CharClass::Except(':'));
        let w = words(s.subrange(c1 + 1, c2));
        if w.len() <= 8 {
            None
        } else {
            match (parse_unsigned(w[0], u64::MAX as nat), parse_unsigned(w[8], u64::MAX as nat)) {
                (Some(rx), Some(tx)) => Some((s.subrange(0, c1), rx as u64, tx as u64)),
                _ => None,
            }
        }
    }
}

/// A line `name:fields` or `name:fields:rest`, where `name` and `fields`
/// hold no `:` and `fields` has at least nine whitespace-separated fields,
/// yields `name` with the first and ninth fields as received and transmitted
/// bytes whenever both are ASCII numbers that fit in a `u64`, and nothing when
/// either is not a number or there are fewer than nine fields.
pub proof fn law_net_dev_fields(name: Seq<char>, fields: Seq<char>, rest: Seq<char>)
    requires
        forall|k: int| 0 <= k < name.len() ==> name[k] != ':',
        forall|k: int| 0 <= k < fields.len() ==> fields[k] != ':',
        rest.len() == 0 || rest[0] == ':',
    ensures
        ({
            let s = name + seq![':'] + fields + rest;
            let w = words(fields);
            &&& w.len() <= 8 ==> net_dev_entry(s) is None
            &&& (w.len() > 8 && w[0].len() > 0 && all_digits(w[0]) && decimal_value(w[0])
                <= u64::MAX && w[8].len() > 0 && all_digits(w[8]) && decimal_value(w[8])
                <= u64::MAX) ==> net_dev_entry(s) == Some(
                (name, decimal_value(w[0]) as u64, decimal_value(w[8]) as u64),
            )
            &&& (w.len() > 8 && (parse_unsigned(w[0], u64::MAX as nat) is None || parse_unsigned(
                w[8],
                u64::MAX as nat,
            ) is None)) ==> net_dev_entry(s) is None
        }),
{
    let s = name + seq![':'] + fields + rest;
    let c1 = name.len() as int;
    let c2 = c1 + 1 + fields.len();
    assert forall|j: int| 0 <= j < c1 implies in_class(#[trigger] s[j], CharClass::Except(':')) by {
        assert(s[j] == name[j]);
    }
    assert(s[c1] == ':');
    lemma_run_end_at(s, 0, c1, CharClass::Except(':'));
    assert forall|j: int| c1 + 1 <= j < c2 implies in_class(
        #[trigger] s[j],
        CharClass::Except(':'),
    ) by {
        assert(s[j] == fields[j - c1 - 1]);
    }
    if c2 < s.len() {
        assert(s[c2] == rest[0]);
    }
    lemma_run_end_at(s, c1 + 1, c2, CharClass::Except(':'));
    assert(s.subrange(0, c1) =~= name);
    assert(s.subrange(c1 + 1, c2) =~= fields);
    let w = words(fields);
    if w.len() > 8 && w[0].len() > 0 && all_digits(w[0]) && decimal_value(w[0]) <= u64::MAX
        && w[8].len() > 0 && all_digits(w[8]) && decimal_value(w[8]) <= u64::MAX {
        lemma_parse_digits(w[0], u64::MAX as nat);
        lemma_parse_digits(w[8], u64::MAX as nat);
    }
}

/// A `/proc/net/dev` line as the speed sampler reads it.
pub fn net_dev_sample(line: &str) -> (r: Option<(String, u64, u64)>)
    ensures
        match net_dev_entry(line@) {
            Some((name, rx, tx)) => r matches Some(t) && t.0@ == name && t.1 == rx && t.2 == tx,
            None => r is None,
        },
{
    let v = chars_of(line);
    let c1 = scan(&v, 0, &CharClass::Except(':'));
    if c1 >= v.len() {
        return None;
    }
    let c2 = scan(&v, c1 + 1, &CharClass::Except(':'));
    let rest = string_of(&v, c1 + 1, c2);
    let w = split_whitespace(rest.as_str());
    if w.len() <= 8 {
        return None;
    }
    assert(w@[0]@ == views(w@)[0]);
    assert(w@[8]@ == views(w@)[8]);
    match (parse_u64(w[0].as_str()), parse_u64(w[8].as_str())) {
        (Some(rx), Some(tx)) => Some((string_of(&v, 0, c1), rx, tx)),
        _ => None,
    }
}

/// The sum of the first counters of `s`.
pub open spec fn sum_rx(s: Seq<(u64, u64)>) -> nat
    decreases s.len(),
{
    if s.len() == 0 {
        0
    } else {
        sum_rx(s.drop_last()) + s.last().0 as nat
    }
}

/// The sum of the second counters of `s`.
pub open spec fn sum_tx(s: Seq<(u64, u64)>) -> nat
    decreases s.len(),
{
    if s.len() == 0 {
        0
    } else {
        sum_tx(s.drop_last()) + s.last().1 as nat
    }
}

proof fn lemma_sums_prefix(s: Seq<(u64, u64)>, i: int)
    requires
        0 <= i <= s.len(),
    ensures
        sum_rx(s.take(i)) <= sum_rx(s),
        sum_tx(s.take(i)) <= sum_tx(s),
    decreases s.len() - i,
{
    if i < s.len() {
        lemma_sums_prefix(s, i + 1);
        assert(s.take(i + 1).drop_last() =~= s.take(i));
    } else {
        assert(s.take(i) =~= s);
    }
}

/// Whether both sums fit in a `u64`.
pub fn counters_fit(samples: &Vec<(u64, u64)>) -> (r: bool)
    ensures
        r == (sum_rx(samples@) <= u64::MAX && sum_tx(samples@) <= u64::MAX),
{
    let mut rx: u64 = 0;
    let mut tx: u64 = 0;
    let mut ok_rx = true;
    let mut ok_tx = true;
    for i in 0..samples.len()
        invariant
            ok_rx == (sum_rx(samples@.take(i as int)) <= u64::MAX),
            ok_tx == (sum_tx(samples@.take(i as int)) <= u64::MAX),
            ok_rx ==> rx == sum_rx(samples@.take(i as int)),
            ok_tx ==> tx == sum_tx(samples@.take(i as int)),
    {
        assert(samples@.take(i + 1).drop_last() =~= samples@.take(i as int));
        if ok_rx {
            if rx > u64::MAX - samples[i].0 {
                ok_rx = false;
            } else {
                rx = rx + samples[i].0;
            }
        } else {
            assert(sum_rx(samples@.take(i + 1)) >= sum_rx(samples@.take(i as int)));
        }
        if ok_tx {
            if tx > u64::MAX - samples[i].1 {
                ok_tx = false;
            } else {
                tx = tx + samples[i].1;
            }
        } else {
            assert(sum_tx(samples@.take(i + 1)) >= sum_tx(samples@.take(i as int)));
        }
    }
    assert(samples@.take(samples.len() as int) =~= samples@);
    ok_rx && ok_tx
}

/// The received and transmitted totals over all samples.
pub fn sum_counters(samples: &Vec<(u64, u64)>) -> (r: (u64, u64))
    requires
        sum_rx(samples@) <= u64::MAX,
        sum_tx(samples@) <= u64::MAX,
    ensures
        r.0 == sum_rx(samples@),
        r.1 == sum_tx(samples@),
{
    let mut rx: u64 = 0;
    let mut tx: u64 = 0;
    for i in 0..samples.len()
        invariant
            sum_rx(samples@) <= u64::MAX,
            sum_tx(samples@) <= u64::MAX,
            rx == sum_rx(samples@.take(i as int)),
            tx == sum_tx(samples@.take(i as int)),
    {
        assert(samples@.take(i + 1).drop_last() =~= samples@.take(i as int));
        proof {
            lemma_sums_prefix(samples@, i + 1);
        }
        rx = rx + samples[i].0;
        tx = tx + samples[i].1;
    }
    assert(samples@.take(samples.len() as int) =~= samples@);
    (rx, tx)
}

} // verus!
