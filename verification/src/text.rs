//! Character-level helpers: whitespace, decimal numbers, token and line splitting.
//!
//! Whitespace is the Unicode `White_Space` property, which is what
//! `char::is_whitespace`, `str::trim` and `str::split_whitespace` use.
//! Numbers are read with the ASCII digits `0`..`9`, which is what `str::parse`
//! accepts for unsigned integers; the line patterns also know the Unicode
//! decimal digits that `\d` matches.

use vstd::prelude::*;

verus! {

/// Whether `c` has the Unicode `White_Space` property.
pub open spec fn is_ws(c: char) -> bool {
    let u = c as u32;
    ||| 0x09 <= u <= 0x0d
    ||| u == 0x20
    ||| u == 0x85
    ||| u == 0xa0
    ||| u == 0x1680
    ||| 0x2000 <= u <= 0x200a
    ||| u == 0x2028
    ||| u == 0x2029
    ||| u == 0x202f
    ||| u == 0x205f
    ||| u == 0x3000
}

pub open spec fn is_digit(c: char) -> bool {
    '0' <= c <= '9'
}

/// Whether `c` is a Unicode decimal digit (general category `Nd`, Unicode 16.0),
/// the class that `\d` denotes in the `regex` crate's default Unicode mode.
pub open spec fn is_decimal(c: char) -> bool {
    let u = c as u32;
    ||| 0x30 <= u <= 0x39
    ||| 0x660 <= u <= 0x669
    ||| 0x6f0 <= u <= 0x6f9
    ||| 0x7c0 <= u <= 0x7c9
    ||| 0x966 <= u <= 0x96f
    ||| 0x9e6 <= u <= 0x9ef
    ||| 0xa66 <= u <= 0xa6f
    ||| 0xae6 <= u <= 0xaef
    ||| 0xb66 <= u <= 0xb6f
    ||| 0xbe6 <= u <= 0xbef
    ||| 0xc66 <= u <= 0xc6f
    ||| 0xce6 <= u <= 0xcef
    ||| 0xd66 <= u <= 0xd6f
    ||| 0xde6 <= u <= 0xdef
    ||| 0xe50 <= u <= 0xe59
    ||| 0xed0 <= u <= 0xed9
    ||| 0xf20 <= u <= 0xf29
    ||| 0x1040 <= u <= 0x1049
    ||| 0x1090 <= u <= 0x1099
    ||| 0x17e0 <= u <= 0x17e9
    ||| 0x1810 <= u <= 0x1819
    ||| 0x1946 <= u <= 0x194f
    ||| 0x19d0 <= u <= 0x19d9
    ||| 0x1a80 <= u <= 0x1a89
    ||| 0x1a90 <= u <= 0x1a99
    ||| 0x1b50 <= u <= 0x1b59
    ||| 0x1bb0 <= u <= 0x1bb9
    ||| 0x1c40 <= u <= 0x1c49
    ||| 0x1c50 <= u <= 0x1c59
    ||| 0xa620 <= u <= 0xa629
    ||| 0xa8d0 <= u <= 0xa8d9
    ||| 0xa900 <= u <= 0xa909
    ||| 0xa9d0 <= u <= 0xa9d9
    ||| 0xa9f0 <= u <= 0xa9f9
    ||| 0xaa50 <= u <= 0xaa59
    ||| 0xabf0 <= u <= 0xabf9
    ||| 0xff10 <= u <= 0xff19
    ||| 0x104a0 <= u <= 0x104a9
    ||| 0x10d30 <= u <= 0x10d39
    ||| 0x10d40 <= u <= 0x10d49
    ||| 0x11066 <= u <= 0x1106f
    ||| 0x110f0 <= u <= 0x110f9
    ||| 0x11136 <= u <= 0x1113f
    ||| 0x111d0 <= u <= 0x111d9
    ||| 0x112f0 <= u <= 0x112f9
    ||| 0x11450 <= u <= 0x11459
    ||| 0x114d0 <= u <= 0x114d9
    ||| 0x11650 <= u <= 0x11659
    ||| 0x116c0 <= u <= 0x116c9
    ||| 0x116d0 <= u <= 0x116e3
    ||| 0x11730 <= u <= 0x11739
    ||| 0x118e0 <= u <= 0x118e9
    ||| 0x11950 <= u <= 0x11959
    ||| 0x11bf0 <= u <= 0x11bf9
    ||| 0x11c50 <= u <= 0x11c59
    ||| 0x11d50 <= u <= 0x11d59
    ||| 0x11da0 <= u <= 0x11da9
    ||| 0x11f50 <= u <= 0x11f59
    ||| 0x16130 <= u <= 0x16139
    ||| 0x16a60 <= u <= 0x16a69
    ||| 0x16ac0 <= u <= 0x16ac9
    ||| 0x16b50 <= u <= 0x16b59
    ||| 0x16d70 <= u <= 0x16d79
    ||| 0x1ccf0 <= u <= 0x1ccf9
    ||| 0x1d7ce <= u <= 0x1d7ff
    ||| 0x1e140 <= u <= 0x1e149
    ||| 0x1e2f0 <= u <= 0x1e2f9
    ||| 0x1e4f0 <= u <= 0x1e4f9
    ||| 0x1e5f1 <= u <= 0x1e5fa
    ||| 0x1e950 <= u <= 0x1e959
    ||| 0x1fbf0 <= u <= 0x1fbf9
}

/// Executable test for Unicode decimal digits.
pub fn is_decimal_char(c: char) -> (b: bool)
    ensures
        b == is_decimal(c),
{
    let u = c as u32;
    (0x30 <= u && u <= 0x39) ||
        (0x660 <= u && u <= 0x669) ||
        (0x6f0 <= u && u <= 0x6f9) ||
        (0x7c0 <= u && u <= 0x7c9) ||
        (0x966 <= u && u <= 0x96f) ||
        (0x9e6 <= u && u <= 0x9ef) ||
        (0xa66 <= u && u <= 0xa6f) ||
        (0xae6 <= u && u <= 0xaef) ||
        (0xb66 <= u && u <= 0xb6f) ||
        (0xbe6 <= u && u <= 0xbef) ||
        (0xc66 <= u && u <= 0xc6f) ||
        (0xce6 <= u && u <= 0xcef) ||
        (0xd66 <= u && u <= 0xd6f) ||
        (0xde6 <= u && u <= 0xdef) ||
        (0xe50 <= u && u <= 0xe59) ||
        (0xed0 <= u && u <= 0xed9) ||
        (0xf20 <= u && u <= 0xf29) ||
        (0x1040 <= u && u <= 0x1049) ||
        (0x1090 <= u && u <= 0x1099) ||
        (0x17e0 <= u && u <= 0x17e9) ||
        (0x1810 <= u && u <= 0x1819) ||
        (0x1946 <= u && u <= 0x194f) ||
        (0x19d0 <= u && u <= 0x19d9) ||
        (0x1a80 <= u && u <= 0x1a89) ||
        (0x1a90 <= u && u <= 0x1a99) ||
        (0x1b50 <= u && u <= 0x1b59) ||
        (0x1bb0 <= u && u <= 0x1bb9) ||
        (0x1c40 <= u && u <= 0x1c49) ||
        (0x1c50 <= u && u <= 0x1c59) ||
        (0xa620 <= u && u <= 0xa629) ||
        (0xa8d0 <= u && u <= 0xa8d9) ||
        (0xa900 <= u && u <= 0xa909) ||
        (0xa9d0 <= u && u <= 0xa9d9) ||
        (0xa9f0 <= u && u <= 0xa9f9) ||
        (0xaa50 <= u && u <= 0xaa59) ||
        (0xabf0 <= u && u <= 0xabf9) ||
        (0xff10 <= u && u <= 0xff19) ||
        (0x104a0 <= u && u <= 0x104a9) ||
        (0x10d30 <= u && u <= 0x10d39) ||
        (0x10d40 <= u && u <= 0x10d49) ||
        (0x11066 <= u && u <= 0x1106f) ||
        (0x110f0 <= u && u <= 0x110f9) ||
        (0x11136 <= u && u <= 0x1113f) ||
        (0x111d0 <= u && u <= 0x111d9) ||
        (0x112f0 <= u && u <= 0x112f9) ||
        (0x11450 <= u && u <= 0x11459) ||
        (0x114d0 <= u && u <= 0x114d9) ||
        (0x11650 <= u && u <= 0x11659) ||
        (0x116c0 <= u && u <= 0x116c9) ||
        (0x116d0 <= u && u <= 0x116e3) ||
        (0x11730 <= u && u <= 0x11739) ||
        (0x118e0 <= u && u <= 0x118e9) ||
        (0x11950 <= u && u <= 0x11959) ||
        (0x11bf0 <= u && u <= 0x11bf9) ||
        (0x11c50 <= u && u <= 0x11c59) ||
        (0x11d50 <= u && u <= 0x11d59) ||
        (0x11da0 <= u && u <= 0x11da9) ||
        (0x11f50 <= u && u <= 0x11f59) ||
        (0x16130 <= u && u <= 0x16139) ||
        (0x16a60 <= u && u <= 0x16a69) ||
        (0x16ac0 <= u && u <= 0x16ac9) ||
        (0x16b50 <= u && u <= 0x16b59) ||
        (0x16d70 <= u && u <= 0x16d79) ||
        (0x1ccf0 <= u && u <= 0x1ccf9) ||
        (0x1d7ce <= u && u <= 0x1d7ff) ||
        (0x1e140 <= u && u <= 0x1e149) ||
        (0x1e2f0 <= u && u <= 0x1e2f9) ||
        (0x1e4f0 <= u && u <= 0x1e4f9) ||
        (0x1e5f1 <= u && u <= 0x1e5fa) ||
        (0x1e950 <= u && u <= 0x1e959) ||
        (0x1fbf0 <= u && u <= 0x1fbf9)
}

/// Executable test for the `White_Space` property.
pub fn is_whitespace(c: char) -> (b: bool)
    ensures
        b == is_ws(c),
{
    let u = c as u32;
    (0x09 <= u && u <= 0x0d) || u == 0x20 || u == 0x85 || u == 0xa0 || u == 0x1680 || (0x2000
        <= u && u <= 0x200a) || u == 0x2028 || u == 0x2029 || u == 0x202f || u == 0x205f || u
        == 0x3000
}

/// An ASCII digit is a decimal digit and not whitespace, no whitespace is a
/// decimal digit, and the letters and punctuation that the line formats use
/// are neither.
pub proof fn lemma_char_classes(c: char)
    ensures
        is_digit(c) ==> is_decimal(c) && !is_ws(c),
        is_ws(c) ==> !is_decimal(c),
        !is_ws(':') && !is_ws('k') && !is_decimal('k'),
{
}

/// A class of characters that a scan runs over.
pub enum CharClass {
    /// Whitespace characters.
    Space,
    /// Characters that are not whitespace.
    Word,
    /// ASCII decimal digits.
    Digit,
    /// Unicode decimal digits.
    Decimal,
    /// Every character but the given one.
    Except(char),
}

pub open spec fn in_class(c: char, k: CharClass) -> bool {
    match k {
        CharClass::Space => is_ws(c),
        CharClass::Word => !is_ws(c),
        CharClass::Digit => is_digit(c),
        CharClass::Decimal => is_decimal(c),
        CharClass::Except(x) => c != x,
    }
}

/// The end of the run of characters of class `k` that starts at `i`.
pub open spec fn run_end(s: Seq<char>, i: int, k: CharClass) -> int
    decreases s.len() - i,
{
    if 0 <= i < s.len() && in_class(s[i], k) {
        run_end(s, i + 1, k)
    } else {
        i
    }
}

pub proof fn lemma_run_end(s: Seq<char>, i: int, k: CharClass)
    requires
        0 <= i <= s.len(),
    ensures
        i <= run_end(s, i, k) <= s.len(),
        forall|j: int| i <= j < run_end(s, i, k) ==> in_class(#[trigger] s[j], k),
        run_end(s, i, k) < s.len() ==> !in_class(s[run_end(s, i, k)], k),
    decreases s.len() - i,
{
    if i < s.len() && in_class(s[i], k) {
        lemma_run_end(s, i + 1, k);
    }
}

/// A run that is known to stop at `e` has its end there.
pub proof fn lemma_run_end_at(s: Seq<char>, i: int, e: int, k: CharClass)
    requires
        0 <= i <= e <= s.len(),
        forall|j: int| i <= j < e ==> in_class(#[trigger] s[j], k),
        e < s.len() ==> !in_class(s[e], k),
    ensures
        run_end(s, i, k) == e,
    decreases e - i,
{
    if i < e {
        lemma_run_end_at(s, i + 1, e, k);
    }
}

pub fn in_class_exec(c: char, k: &CharClass) -> (b: bool)
    ensures
        b == in_class(c, *k),
{
    match k {
        CharClass::Space => is_whitespace(c),
        CharClass::Word => !is_whitespace(c),
        CharClass::Digit => '0' <= c && c <= '9',
        CharClass::Decimal => is_decimal_char(c),
        CharClass::Except(x) => c != *x,
    }
}

/// Index of the end of the run of class `k` that starts at `i`.
pub fn scan(v: &Vec<char>, i: usize, k: &CharClass) -> (e: usize)
    requires
        i <= v.len(),
    ensures
        e == run_end(v@, i as int, *k),
        i <= e <= v.len(),
{
    let mut j = i;
    while j < v.len() && in_class_exec(v[j], k)
        invariant
            i <= j <= v.len(),
            run_end(v@, i as int, *k) == run_end(v@, j as int, *k),
        decreases v.len() - j,
    {
        j = j + 1;
    }
    j
}

/// The characters of a string slice, in order.
pub fn chars_of(s: &str) -> (v: Vec<char>)
    ensures
        v@ == s@,
{
    let mut v: Vec<char> = Vec::new();
    for c in it: s.chars()
        invariant
            v@ == it.seq().take(it.index() as int),
            it.seq() == s@,
    {
        v.push(c);
    }
    v
}

/// `String::push`: afterwards the string holds its old characters followed by `c`.
#[verifier::external_body]
fn push_char(s: &mut String, c: char)
    ensures
        final(s)@ == old(s)@.push(c),
{
    s.push(c)
}

/// Whether two string slices hold the same characters.
pub fn str_eq(a: &str, b: &str) -> (r: bool)
    ensures
        r == (a@ == b@),
{
    let x = chars_of(a);
    let y = chars_of(b);
    if x.len() != y.len() {
        return false;
    }
    let mut i: usize = 0;
    while i < x.len()
        invariant
            x@ == a@,
            y@ == b@,
            x.len() == y.len(),
            i <= x.len(),
            forall|k: int| 0 <= k < i ==> x@[k] == y@[k],
        decreases x.len() - i,
    {
        if x[i] != y[i] {
            return false;
        }
        i = i + 1;
    }
    assert(x@ =~= y@);
    true
}

/// A string holding the characters `v[lo..hi]`.
pub fn string_of(v: &Vec<char>, lo: usize, hi: usize) -> (r: String)
    requires
        lo <= hi <= v.len(),
    ensures
        r@ == v@.subrange(lo as int, hi as int),
{
    let mut r = String::new();
    let mut i = lo;
    while i < hi
        invariant
            lo <= i <= hi <= v.len(),
            r@ == v@.subrange(lo as int, i as int),
        decreases hi - i,
    {
        push_char(&mut r, v[i]);
        i = i + 1;
        assert(r@ =~= v@.subrange(lo as int, i as int));
    }
    r
}

pub open spec fn digit_value(c: char) -> nat {
    ((c as u32) - ('0' as u32)) as nat
}

pub open spec fn all_digits(s: Seq<char>) -> bool {
    forall|i: int| 0 <= i < s.len() ==> is_digit(#[trigger] s[i])
}

/// The number that a string of decimal digits denotes.
pub open spec fn decimal_value(s: Seq<char>) -> nat
    decreases s.len(),
{
    if s.len() == 0 {
        0
    } else {
        decimal_value(s.drop_last()) * 10 + digit_value(s.last())
    }
}

/// What `str::parse` gives for an unsigned integer type whose greatest value is
/// `max`: an optional `+`, then one or more ASCII digits whose value is at most `max`.
pub open spec fn parse_unsigned(s: Seq<char>, max: nat) -> Option<nat> {
    let d = if s.len() > 0 && s[0] == '+' {
        s.drop_first()
    } else {
        s
    };
    if d.len() > 0 && all_digits(d) && decimal_value(d) <= max {
        Some(decimal_value(d))
    } else {
        None
    }
}

/// A non-empty string of ASCII digits parses to the number it denotes,
/// whenever that number is at most `max`.
pub proof fn lemma_parse_digits(d: Seq<char>, max: nat)
    requires
        d.len() > 0,
        all_digits(d),
        decimal_value(d) <= max,
    ensures
        parse_unsigned(d, max) == Some(decimal_value(d)),
{
    assert(is_digit(d[0]));
}

pub proof fn lemma_decimal_value_prefix(s: Seq<char>, i: int)
    requires
        0 <= i <= s.len(),
    ensures
        decimal_value(s.take(i)) <= decimal_value(s),
    decreases s.len() - i,
{
    if i < s.len() {
        lemma_decimal_value_prefix(s, i + 1);
        assert(s.take(i + 1).drop_last() =~= s.take(i));
    } else {
        assert(s.take(i) =~= s);
    }
}

/// `str::parse` for an unsigned integer type whose greatest value is `max`,
/// applied to `v[lo..hi]`.
pub fn parse_unsigned_range(v: &Vec<char>, lo: usize, hi: usize, max: u64) -> (r: Option<u64>)
    requires
        lo <= hi <= v.len(),
    ensures
        match parse_unsigned(v@.subrange(lo as int, hi as int), max as nat) {
            Some(n) => r == Some(n as u64),
            None => r is None,
        },
{
    let ghost s = v@.subrange(lo as int, hi as int);
    let mut start = lo;
    if lo < hi && v[lo] == '+' {
        start = lo + 1;
    }
    let ghost d = v@.subrange(start as int, hi as int);
    assert(d =~= (if s.len() > 0 && s[0] == '+' { s.drop_first() } else { s }));
    if start == hi {
        return None;
    }
    let mut acc: u64 = 0;
    let mut i = start;
    while i < hi
        invariant
            lo <= start <= i <= hi <= v.len(),
            d == v@.subrange(start as int, hi as int),
            s == v@.subrange(lo as int, hi as int),
            d == (if s.len() > 0 && s[0] == '+' { s.drop_first() } else { s }),
            d.len() > 0,
            all_digits(d.take(i - start)),
            acc as nat == decimal_value(d.take(i - start)),
            acc <= max,
        decreases hi - i,
    {
        let c = v[i];
        assert(d[i - start] == c);
        if !('0' <= c && c <= '9') {
            assert(!is_digit(d[i - start]));
            return None;
        }
        let dv = (c as u32 - '0' as u32) as u64;
        assert(d.take(i + 1 - start).drop_last() =~= d.take(i - start));
        proof {
            lemma_decimal_value_prefix(d, i + 1 - start);
        }
        if acc > max / 10 {
            assert(acc * 10 > max) by (nonlinear_arith)
                requires
                    acc > max / 10,
            ;
            return None;
        }
        let t = acc * 10;
        assert(decimal_value(d.take(i + 1 - start)) == acc * 10 + dv);
        if dv > max || t > max - dv {
            return None;
        }
        acc = t + dv;
        i = i + 1;
    }
    assert(d.take(i - start) =~= d);
    Some(acc)
}

/// `s.parse::<u64>().ok()`.
pub fn parse_u64(s: &str) -> (r: Option<u64>)
    ensures
        match parse_unsigned(s@, u64::MAX as nat) {
            Some(n) => r == Some(n as u64),
            None => r is None,
        },
{
    let v = chars_of(s);
    assert(v@.subrange(0, v@.len() as int) =~= s@);
    parse_unsigned_range(&v, 0, v.len(), u64::MAX)
}

/// `s.parse::<u32>().ok()`.
pub fn parse_u32(s: &str) -> (r: Option<u32>)
    ensures
        match parse_unsigned(s@, u32::MAX as nat) {
            Some(n) => r == Some(n as u32),
            None => r is None,
        },
{
    let v = chars_of(s);
    assert(v@.subrange(0, v@.len() as int) =~= s@);
    match parse_unsigned_range(&v, 0, v.len(), u32::MAX as u64) {
        Some(n) => Some(n as u32),
        None => None,
    }
}

/// The start of the run of characters of class `k` that ends at `j`, not going below `lo`.
pub open spec fn back_run(s: Seq<char>, lo: int, j: int, k: CharClass) -> int
    decreases j - lo,
{
    if lo < j && j <= s.len() && in_class(s[j - 1], k) {
        back_run(s, lo, j - 1, k)
    } else {
        j
    }
}

/// Bounds of `s` with the leading and trailing whitespace removed.
pub open spec fn trim_start_index(s: Seq<char>) -> int {
    run_end(s, 0, CharClass::Space)
}

pub open spec fn trim_end_index(s: Seq<char>) -> int {
    back_run(s, trim_start_index(s), s.len() as int, CharClass::Space)
}

/// What `str::trim` leaves of `s`.
pub open spec fn trimmed(s: Seq<char>) -> Seq<char> {
    s.subrange(trim_start_index(s), trim_end_index(s))
}

/// Bounds of `v` without its leading and trailing whitespace.
pub fn trim_bounds(v: &Vec<char>) -> (r: (usize, usize))
    ensures
        r.0 == trim_start_index(v@),
        r.1 == trim_end_index(v@),
        r.0 <= r.1 <= v.len(),
{
    let a = scan(v, 0, &CharClass::Space);
    let mut b = v.len();
    while a < b && is_whitespace(v[b - 1])
        invariant
            a <= b <= v.len(),
            a == trim_start_index(v@),
            back_run(v@, a as int, v.len() as int, CharClass::Space) == back_run(
                v@,
                a as int,
                b as int,
                CharClass::Space,
            ),
        decreases b,
    {
        b = b - 1;
    }
    (a, b)
}

/// `s.trim()`, as an owned string.
pub fn trim(s: &str) -> (r: String)
    ensures
        r@ == trimmed(s@),
{
    let v = chars_of(s);
    let (a, b) = trim_bounds(&v);
    string_of(&v, a, b)
}

/// The whitespace-separated words of `s` from index `i` on.
pub open spec fn words_from(s: Seq<char>, i: int) -> Seq<Seq<char>>
    decreases s.len() - i,
{
    if i < 0 || i > s.len() {
        seq![]
    } else {
        let a = run_end(s, i, CharClass::Space);
        if a >= s.len() {
            seq![]
        } else {
            let b = run_end(s, a, CharClass::Word);
            proof {
                lemma_run_end(s, i, CharClass::Space);
                lemma_run_end(s, a, CharClass::Word);
            }
            seq![s.subrange(a, b)] + words_from(s, b)
        }
    }
}

/// What `str::split_whitespace` yields for `s`: its maximal runs of non-whitespace.
pub open spec fn words(s: Seq<char>) -> Seq<Seq<char>> {
    words_from(s, 0)
}

pub open spec fn views(v: Seq<String>) -> Seq<Seq<char>> {
    v.map_values(|x: String| x@)
}

/// The whitespace-separated words of `v[i..]`, as index pairs.
pub fn word_bounds(v: &Vec<char>) -> (r: Vec<(usize, usize)>)
    ensures
        r.len() == words(v@).len(),
        forall|j: int|
            #![trigger r[j]]
            0 <= j < r.len() ==> {
                &&& r[j].0 <= r[j].1 <= v.len()
                &&& words(v@)[j] == v@.subrange(r[j].0 as int, r[j].1 as int)
            },
{
    let mut r: Vec<(usize, usize)> = Vec::new();
    let mut i: usize = 0;
    loop
        invariant
            i <= v.len(),
            words(v@) == Seq::new(
                r.len() as nat,
                |j: int| v@.subrange(r[j].0 as int, r[j].1 as int),
            ) + words_from(v@, i as int),
            forall|j: int| 0 <= j < r.len() ==> (#[trigger] r[j]).0 <= r[j].1 <= v.len(),
        ensures
            words(v@) =~= Seq::new(
                r.len() as nat,
                |j: int| v@.subrange(r[j].0 as int, r[j].1 as int),
            ),
            forall|j: int| 0 <= j < r.len() ==> (#[trigger] r[j]).0 <= r[j].1 <= v.len(),
        decreases v.len() - i,
    {
        let a = scan(v, i, &CharClass::Space);
        if a >= v.len() {
            assert(words_from(v@, i as int) =~= seq![]);
            break;
        }
        let b = scan(v, a, &CharClass::Word);
        proof {
            lemma_run_end(v@, a as int, CharClass::Word);
        }
        let ghost old_r = r@;
        r.push((a, b));
        assert(Seq::new(r.len() as nat, |j: int| v@.subrange(r[j].0 as int, r[j].1 as int))
            =~= Seq::new(old_r.len() as nat, |j: int| v@.subrange(old_r[j].0 as int, old_r[j].1 as int))
            + seq![v@.subrange(a as int, b as int)]);
        i = b;
    }
    assert forall|j: int| 0 <= j < r.len() implies words(v@)[j] == v@.subrange(
        r[j].0 as int,
        r[j].1 as int,
    ) by {
        assert(words(v@)[j] == Seq::new(
            r.len() as nat,
            |j: int| v@.subrange(r[j].0 as int, r[j].1 as int),
        )[j]);
    }
    r
}

/// `s.split_whitespace()`, collected into owned strings.
pub fn split_whitespace(s: &str) -> (r: Vec<String>)
    ensures
        views(r@) == words(s@),
{
    let v = chars_of(s);
    let b = word_bounds(&v);
    let mut r: Vec<String> = Vec::new();
    for j in 0..b.len()
        invariant
            b.len() == words(v@).len(),
            forall|m: int|
                #![trigger b[m]]
                0 <= m < b.len() ==> {
                    &&& b[m].0 <= b[m].1 <= v.len()
                    &&& words(v@)[m] == v@.subrange(b[m].0 as int, b[m].1 as int)
                },
            r.len() == j,
            forall|m: int| 0 <= m < j ==> #[trigger] r[m]@ == words(v@)[m],
    {
        let w = string_of(&v, b[j].0, b[j].1);
        r.push(w);
    }
    assert(views(r@) =~= words(v@));
    r
}

/// The lines of `s` from index `i` on, as `str::lines` yields them: split at
/// `\n`, with one `\r` before each `\n` removed, and no empty line after a
/// final `\n`.
pub open spec fn lines_from(s: Seq<char>, i: int) -> Seq<Seq<char>>
    decreases s.len() - i,
{
    if i < 0 || i >= s.len() {
        seq![]
    } else {
        let e = run_end(s, i, CharClass::Except('\n'));
        proof {
            lemma_run_end(s, i, CharClass::Except('\n'));
        }
        if e < s.len() {
            let line = if e > i && s[e - 1] == '\r' {
                s.subrange(i, e - 1)
            } else {
                s.subrange(i, e)
            };
            seq![line] + lines_from(s, e + 1)
        } else {
            seq![s.subrange(i, e)]
        }
    }
}

pub open spec fn lines(s: Seq<char>) -> Seq<Seq<char>> {
    lines_from(s, 0)
}

/// `s.lines()`, collected into owned strings.
pub fn split_lines(s: &str) -> (r: Vec<String>)
    ensures
        views(r@) == lines(s@),
{
    let v = chars_of(s);
    let mut r: Vec<String> = Vec::new();
    let mut i: usize = 0;
    while i < v.len()
        invariant
            i <= v.len(),
            lines(v@) == views(r@) + lines_from(v@, i as int),
        decreases v.len() - i,
    {
        let e = scan(&v, i, &CharClass::Except('\n'));
        proof {
            lemma_run_end(v@, i as int, CharClass::Except('\n'));
        }
        let ghost old_r = r@;
        if e < v.len() {
            let end = if e > i && v[e - 1] == '\r' {
                e - 1
            } else {
                e
            };
            r.push(string_of(&v, i, end));
            assert(views(r@) =~= views(old_r) + seq![r@.last()@]);
            i = e + 1;
        } else {
            r.push(string_of(&v, i, e));
            assert(views(r@) =~= views(old_r) + seq![r@.last()@]);
            assert(lines_from(v@, e as int) =~= seq![]);
            i = e;
        }
    }
    assert(lines_from(v@, i as int) =~= seq![]);
    r
}

/// `s.parse::<u64>().unwrap_or(0)`.
pub open spec fn u64_or_zero(s: Seq<char>) -> u64 {
    match parse_unsigned(s, u64::MAX as nat) {
        Some(n) => n as u64,
        None => 0,
    }
}

/// `s.parse::<u64>().unwrap_or(0)`.
pub fn parse_u64_or_zero(s: &str) -> (r: u64)
    ensures
        r == u64_or_zero(s@),
{
    match parse_u64(s) {
        Some(n) => n,
        None => 0,
    }
}

} // verus!
