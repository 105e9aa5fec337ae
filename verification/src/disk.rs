//! Disk usage, read from the output of `df -Tlm --total` restricted to local
//! file systems: one header line, one line per file system, and a final
//! `total` line, each with the columns file system, type, size, used,
//! available, use%, mount point; sizes are in MiB.

use vstd::prelude::*;
use crate::text::{split_lines, split_whitespace, parse_u64_or_zero, lines, words, views, u64_or_zero};

verus! {

/// Bytes in one MiB.
pub open spec fn mib() -> nat {
    1048576
}

/// One mounted file system, sizes in bytes.
#[derive(Debug)]
pub struct DiskInfo {
    pub name: String,
    pub mount_point: String,
    pub file_system: String,
    pub total: u64,
    pub used: u64,
    pub free: u64,
}

pub struct DiskView {
    pub name: Seq<char>,
    pub mount_point: Seq<char>,
    pub file_system: Seq<char>,
    pub total: nat,
    pub used: nat,
    pub free: nat,
}

impl View for DiskInfo {
    type V = DiskView;

    open spec fn view(&self) -> DiskView {
        DiskView {
            name: self.name@,
            mount_point: self.mount_point@,
            file_system: self.file_system@,
            total: self.total as nat,
            used: self.used as nat,
            free: self.free as nat,
        }
    }
}

/// The disk part of a status report: the summed size and use in MiB, and the
/// file systems one by one.
#[derive(Debug)]
pub struct HddStat {
    pub hdd_total: u64,
    pub hdd_used: u64,
    pub disks: Vec<DiskInfo>,
}

impl Default for HddStat {
    fn default() -> (r: Self)
        ensures
            r.hdd_total == 0,
            r.hdd_used == 0,
            r.disks@.len() == 0,
    {
        HddStat { hdd_total: 0, hdd_used: 0, disks: Vec::new() }
    }
}

pub open spec fn disk_views(v: Seq<DiskInfo>) -> Seq<DiskView> {
    v.map_values(|d: DiskInfo| d@)
}

/// A line with all seven columns.
pub open spec fn full_row(w: Seq<Seq<char>>) -> bool {
    w.len() >= 7
}

/// The file system that a full row describes.
pub open spec fn disk_of(w: Seq<Seq<char>>) -> DiskView {
    DiskView {
        name: w[0],
        mount_point: w[6],
        file_system: w[1],
        total: u64_or_zero(w[2]) as nat * mib(),
        used: u64_or_zero(w[3]) as nat * mib(),
        free: u64_or_zero(w[4]) as nat * mib(),
    }
}

/// The file systems described by lines `1..k` of `ls`, skipping the header
/// line 0 and lines that lack columns.
pub open spec fn disk_rows(ls: Seq<Seq<char>>, k: int) -> Seq<DiskView>
    decreases k,
{
    if k <= 1 || k > ls.len() {
        seq![]
    } else {
        let w = words(ls[k - 1]);
        disk_rows(ls, k - 1) + if full_row(w) {
            seq![disk_of(w)]
        } else {
            seq![]
        }
    }
}

/// Whether the sizes of a full row can be given in bytes as `u64`.
pub open spec fn row_fits(w: Seq<Seq<char>>) -> bool {
    &&& u64_or_zero(w[2]) * mib() <= u64::MAX
    &&& u64_or_zero(w[3]) * mib() <= u64::MAX
    &&& u64_or_zero(w[4]) * mib() <= u64::MAX
}

/// Whether every file-system line of the output has sizes that fit in bytes.
pub open spec fn df_sizes_fit(ls: Seq<Seq<char>>) -> bool {
    forall|i: int|
        1 <= i < ls.len() - 1 && full_row(#[trigger] words(ls[i])) ==> row_fits(words(ls[i]))
}

/// Whether `df_output` can be read by `get_hdd` without a size overflowing.
pub fn df_output_fits(df_output: &str) -> (r: bool)
    ensures
        r == df_sizes_fit(lines(df_output@)),
{
    let ls = split_lines(df_output);
    let ghost l = lines(df_output@);
    assert(ls@.len() == l.len() && forall|i: int| 0 <= i < l.len() ==> ls@[i]@ == l[i]) by {
        assert forall|i: int| 0 <= i < l.len() implies ls@[i]@ == l[i] by {
            assert(views(ls@)[i] == ls@[i]@);
        }
    }
    let n = ls.len();
    if n < 2 {
        return true;
    }
    let mut idx: usize = 1;
    while idx < n - 1
        invariant
            1 <= idx <= n - 1,
            n == l.len(),
            l == lines(df_output@),
            ls@.len() == l.len(),
            forall|i: int| 0 <= i < l.len() ==> ls@[i]@ == l[i],
            forall|i: int|
                1 <= i < idx && full_row(#[trigger] words(l[i])) ==> row_fits(words(l[i])),
        decreases n - idx,
    {
        let w = split_whitespace(ls[idx].as_str());
        assert(views(w@) == words(l[idx as int]));
        if w.len() >= 7 {
            assert(w@[2]@ == words(l[idx as int])[2] && w@[3]@ == words(l[idx as int])[3] && w@[4]@
                == words(l[idx as int])[4]) by {
                assert(views(w@)[2] == w@[2]@);
                assert(views(w@)[3] == w@[3]@);
                assert(views(w@)[4] == w@[4]@);
            }
            let t = parse_u64_or_zero(w[2].as_str());
            let u = parse_u64_or_zero(w[3].as_str());
            let f = parse_u64_or_zero(w[4].as_str());
            if t > 17592186044415 {
                assert(t * 1048576 > u64::MAX) by (nonlinear_arith)
                    requires
                        t > 17592186044415,
                ;
                return false;
            }
            if u > 17592186044415 {
                assert(u * 1048576 > u64::MAX) by (nonlinear_arith)
                    requires
                        u > 17592186044415,
                ;
                assert(u64_or_zero(words(l[idx as int])[3]) == u);
                assert(!row_fits(words(l[idx as int])));
                return false;
            }
            if f > 17592186044415 {
                assert(f * 1048576 > u64::MAX) by (nonlinear_arith)
                    requires
                        f > 17592186044415,
                ;
                assert(u64_or_zero(words(l[idx as int])[4]) == f);
                assert(!row_fits(words(l[idx as int])));
                return false;
            }
        }
        idx = idx + 1;
    }
    true
}

/// Reads the output of `df` into `stat`: every file-system line becomes a
/// disk appended to `stat.disks`, and the final line, if it has all columns,
/// gives `stat.hdd_total` and `stat.hdd_used`.
pub fn get_hdd(df_output: &str, stat: &mut HddStat)
    requires
        df_sizes_fit(lines(df_output@)),
    ensures
        ({
            let ls = lines(df_output@);
            let last = words(ls[ls.len() - 1]);
            &&& disk_views(final(stat).disks@) == disk_views(old(stat).disks@) + disk_rows(
                ls,
                ls.len() - 1,
            )
            &&& if ls.len() >= 2 && full_row(last) {
                &&& final(stat).hdd_total == u64_or_zero(last[2])
                &&& final(stat).hdd_used == u64_or_zero(last[3])
            } else {
                &&& final(stat).hdd_total == old(stat).hdd_total
                &&& final(stat).hdd_used == old(stat).hdd_used
            }
        }),
{
    let ls = split_lines(df_output);
    let ghost l = lines(df_output@);
    assert(ls@.len() == l.len() && forall|i: int| 0 <= i < l.len() ==> ls@[i]@ == l[i]) by {
        assert forall|i: int| 0 <= i < l.len() implies ls@[i]@ == l[i] by {
            assert(views(ls@)[i] == ls@[i]@);
        }
    }
    let ghost start = disk_views(stat.disks@);
    let n = ls.len();
    if n < 2 {
        assert(disk_rows(l, l.len() - 1) =~= seq![]);
        assert(disk_views(stat.disks@) =~= start + seq![]);
        return;
    }
    let mut idx: usize = 1;
    while idx < n
        invariant
            1 <= idx <= n,
            n >= 2,
            n == l.len(),
            ls@.len() == l.len(),
            forall|i: int| 0 <= i < l.len() ==> ls@[i]@ == l[i],
            df_sizes_fit(l),
            idx < n ==> disk_views(stat.disks@) == start + disk_rows(l, idx as int),
            idx < n ==> stat.hdd_total == old(stat).hdd_total && stat.hdd_used == old(
                stat,
            ).hdd_used,
            idx >= n && n >= 2 ==> disk_views(stat.disks@) == start + disk_rows(l, n - 1),
            idx >= n && n >= 2 ==> if full_row(words(l[n - 1])) {
                stat.hdd_total == u64_or_zero(words(l[n - 1])[2]) && stat.hdd_used
                    == u64_or_zero(words(l[n - 1])[3])
            } else {
                stat.hdd_total == old(stat).hdd_total && stat.hdd_used == old(stat).hdd_used
            },
        decreases n - idx,
    {
        let w = split_whitespace(ls[idx].as_str());
        let ghost wv = words(l[idx as int]);
        assert(views(w@) == wv);
        if w.len() < 7 {
            if idx + 1 < n {
                assert(disk_rows(l, idx + 1) =~= disk_rows(l, idx as int));
            }
            idx = idx + 1;
            continue;
        }
        assert forall|k: int| 0 <= k < 7 implies w@[k]@ == wv[k] by {
            assert(views(w@)[k] == w@[k]@);
        }
        if idx == n - 1 {
            stat.hdd_total = parse_u64_or_zero(w[2].as_str());
            stat.hdd_used = parse_u64_or_zero(w[3].as_str());
        } else {
            assert(row_fits(wv));
            let total = parse_u64_or_zero(w[2].as_str());
            let used = parse_u64_or_zero(w[3].as_str());
            let free = parse_u64_or_zero(w[4].as_str());
            let di = DiskInfo {
                name: w[0].clone(),
                mount_point: w[6].clone(),
                file_system: w[1].clone(),
                total: total * 1024 * 1024,
                used: used * 1024 * 1024,
                free: free * 1024 * 1024,
            };
            let ghost before = stat.disks@;
            stat.disks.push(di);
            assert(disk_views(stat.disks@) =~= disk_views(before) + seq![disk_of(wv)]);
            assert(disk_rows(l, idx + 1) == disk_rows(l, idx as int) + seq![disk_of(wv)]);
        }
        idx = idx + 1;
    }
}

/// How many of the lines `1..k` of `ls` have all seven columns.
pub open spec fn full_rows_before(ls: Seq<Seq<char>>, k: int) -> nat
    decreases k,
{
    if k <= 1 || k > ls.len() {
        0
    } else {
        full_rows_before(ls, k - 1) + if full_row(words(ls[k - 1])) {
            1nat
        } else {
            0nat
        }
    }
}

proof fn lemma_disk_rows_len(ls: Seq<Seq<char>>, k: int)
    ensures
        disk_rows(ls, k).len() == full_rows_before(ls, k),
    decreases k,
{
    if k > 1 && k <= ls.len() {
        lemma_disk_rows_len(ls, k - 1);
    }
}

proof fn lemma_disk_rows_at(ls: Seq<Seq<char>>, i: int, k: int)
    requires
        1 <= i < k <= ls.len(),
        full_row(words(ls[i])),
    ensures
        full_rows_before(ls, i) < disk_rows(ls, k).len(),
        disk_rows(ls, k)[full_rows_before(ls, i) as int] == disk_of(words(ls[i])),
    decreases k,
{
    lemma_disk_rows_len(ls, i);
    lemma_disk_rows_len(ls, k);
    if k > i + 1 {
        lemma_disk_rows_at(ls, i, k - 1);
    }
}

/// Each file-system line of `df` output (every line but the header and the
/// final total) that has all seven columns gives one disk, in the order of the
/// lines: its name, type and mount point are the first, second and seventh
/// columns, and its size, use and free space are the third, fourth and fifth
/// columns read as MiB and given in bytes. Lines without all columns give none.
pub proof fn law_disk_columns(ls: Seq<Seq<char>>, i: int)
    requires
        1 <= i < ls.len() - 1,
        full_row(words(ls[i])),
    ensures
        disk_rows(ls, ls.len() - 1).len() == full_rows_before(ls, ls.len() - 1),
        ({
            let r = disk_rows(ls, ls.len() - 1);
            let w = words(ls[i]);
            let k = full_rows_before(ls, i) as int;
            &&& k < r.len()
            &&& r[k].name == w[0]
            &&& r[k].file_system == w[1]
            &&& r[k].mount_point == w[6]
            &&& r[k].total == u64_or_zero(w[2]) * 1048576
            &&& r[k].used == u64_or_zero(w[3]) * 1048576
            &&& r[k].free == u64_or_zero(w[4]) * 1048576
        }),
{
    lemma_disk_rows_len(ls, ls.len() - 1);
    lemma_disk_rows_at(ls, i, ls.len() - 1);
}

} // verus!
