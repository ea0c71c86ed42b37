use vstd::prelude::*;
use vstd::utf8::encode_utf8;
use crate::proc_stat::{cpu_records, parse_cpu_stats};

verus! {

/// Cumulative tick counters of one logical CPU (or of all of them together),
/// in the order the kernel lists them.
#[derive(Clone, Copy, Debug, PartialEq, Eq, Structural)]
pub struct CpuStat {
    pub user: u64,
    pub nice: u64,
    pub system: u64,
    pub idle: u64,
    pub iowait: u64,
    pub irq: u64,
    pub softirq: u64,
    pub steal: u64,
    pub guest: u64,
    pub guest_nice: u64,
}

/// One counter row: its label (such as `cpu` or `cpu3`) and its counters.
#[derive(Debug)]
pub struct CpuRecord {
    pub label: Vec<u8>,
    pub stat: CpuStat,
}

impl View for CpuRecord {
    type V = (Seq<u8>, CpuStat);

    open spec fn view(&self) -> (Seq<u8>, CpuStat) {
        (self.label@, self.stat)
    }
}

/// The sum of all ten counters.
pub open spec fn stat_total(s: CpuStat) -> int {
    s.user + s.nice + s.system + s.idle + s.iowait + s.irq + s.softirq + s.steal + s.guest
        + s.guest_nice
}

/// The ticks spent idle or waiting on I/O.
pub open spec fn stat_idle(s: CpuStat) -> int {
    s.idle + s.iowait
}

/// `a - b`, or zero where `b` exceeds `a`.
pub open spec fn sat_sub(a: int, b: int) -> int {
    if a >= b {
        a - b
    } else {
        0
    }
}

/// The load level 0..=10 of one row between two snapshots: the busy share of
/// the elapsed ticks times ten, rounded to the nearest integer (halves up).
/// Counters that went backwards count as no movement; a row whose total did
/// not move has level zero.
pub open spec fn row_level(before: CpuStat, after: CpuStat) -> int {
    let t = sat_sub(stat_total(after), stat_total(before));
    let busy = sat_sub(t, sat_sub(stat_idle(after), stat_idle(before)));
    if t > 0 {
        (20 * busy + t) / (2 * t)
    } else {
        0
    }
}

/// The counters of the first row of `s` labelled `label`, if any.
pub open spec fn find_stat(s: Seq<(Seq<u8>, CpuStat)>, label: Seq<u8>) -> Option<CpuStat>
    decreases s.len(),
{
    if s.len() == 0 {
        None
    } else if s[0].0 == label {
        Some(s[0].1)
    } else {
        find_stat(s.drop_first(), label)
    }
}

/// The level that the row `r` of the first snapshot contributes.
pub open spec fn matched_level(r: (Seq<u8>, CpuStat), after: Seq<(Seq<u8>, CpuStat)>) -> int {
    match find_stat(after, r.0) {
        Some(s) => row_level(r.1, s),
        None => 0,
    }
}

/// The largest level among the first `n` rows of `before` (zero if none).
pub open spec fn max_level(
    before: Seq<(Seq<u8>, CpuStat)>,
    after: Seq<(Seq<u8>, CpuStat)>,
    n: int,
) -> int
    decreases n,
{
    if n <= 0 {
        0
    } else {
        let m = max_level(before, after, n - 1);
        let l = matched_level(before[n - 1], after);
        if l > m {
            l
        } else {
            m
        }
    }
}

/// The gauge level between two snapshots: the level of the busiest row found
/// in both. Rounding is monotone, so this is the largest busy ratio, times
/// ten, rounded.
pub open spec fn usage_level_of(
    before: Seq<(Seq<u8>, CpuStat)>,
    after: Seq<(Seq<u8>, CpuStat)>,
) -> int {
    max_level(before, after, before.len() as int)
}

/// The abstract snapshot held by a vector of records.
pub open spec fn snapshot(v: Seq<CpuRecord>) -> Seq<(Seq<u8>, CpuStat)> {
    v.map_values(|r: CpuRecord| r@)
}

impl CpuStat {
    /// The sum of all ten counters, which cannot overflow a `u128`.
    pub fn total(&self) -> (r: u128)
        ensures
            r == stat_total(*self),
    {
        self.user as u128 + self.nice as u128 + self.system as u128 + self.idle as u128
            + self.iowait as u128 + self.irq as u128 + self.softirq as u128 + self.steal as u128
            + self.guest as u128 + self.guest_nice as u128
    }
}

proof fn lemma_row_level_bounds(before: CpuStat, after: CpuStat)
    ensures
        0 <= row_level(before, after) <= 10,
{
    let t = sat_sub(stat_total(after), stat_total(before));
    let busy = sat_sub(t, sat_sub(stat_idle(after), stat_idle(before)));
    if t > 0 {
        assert(0 <= busy <= t);
        assert(0 <= (20 * busy + t) / (2 * t) <= 10) by (nonlinear_arith)
            requires
                0 <= busy <= t,
                t > 0,
        ;
    }
}

/// The level of one row, computed exactly in `u128`.
fn row_level_exec(before: &CpuStat, after: &CpuStat) -> (r: usize)
    ensures
        r == row_level(*before, *after),
        r <= 10,
{
    proof {
        lemma_row_level_bounds(*before, *after);
    }
    let t1 = before.total();
    let t2 = after.total();
    let t = if t2 >= t1 {
        t2 - t1
    } else {
        0
    };
    let i1 = before.idle as u128 + before.iowait as u128;
    let i2 = after.idle as u128 + after.iowait as u128;
    let idle = if i2 >= i1 {
        i2 - i1
    } else {
        0
    };
    let busy = if t >= idle {
        t - idle
    } else {
        0
    };
    if t > 0 {
        assert(busy <= t);
        assert(t <= 10 * 0x1_0000_0000_0000_0000);
        let l = (20 * busy + t) / (2 * t);
        l as usize
    } else {
        0
    }
}

/// Whether two labels hold the same bytes.
fn same_label(a: &Vec<u8>, b: &Vec<u8>) -> (r: bool)
    ensures
        r == (a@ == b@),
{
    if a.len() != b.len() {
        return false;
    }
    let mut i: usize = 0;
    while i < a.len()
        invariant
            a@.len() == b@.len(),
            i <= a@.len(),
            forall|j: int| 0 <= j < i ==> a@[j] == b@[j],
        decreases a@.len() - i,
    {
        if a[i] != b[i] {
            return false;
        }
        i = i + 1;
    }
    assert(a@ =~= b@);
    true
}

/// The counters of the first record of `after` labelled `label`, if any.
fn find_record(after: &Vec<CpuRecord>, label: &Vec<u8>) -> (r: Option<CpuStat>)
    ensures
        r == find_stat(snapshot(after@), label@),
{
    let ghost s = snapshot(after@);
    assert(s.subrange(0, s.len() as int) =~= s);
    let mut k: usize = 0;
    while k < after.len()
        invariant
            k <= after@.len(),
            s == snapshot(after@),
            find_stat(s, label@) == find_stat(s.subrange(k as int, s.len() as int), label@),
        decreases after@.len() - k,
    {
        let ghost rest = s.subrange(k as int, s.len() as int);
        assert(rest.drop_first() =~= s.subrange(k + 1, s.len() as int));
        if same_label(&after[k].label, label) {
            return Some(after[k].stat);
        }
        k = k + 1;
    }
    proof {
        assert(s.subrange(k as int, s.len() as int).len() == 0);
    }
    None
}

/// The gauge level 0..=10 between two snapshots of the counters: the level of
/// the busiest row, not an average over rows. Rows of `before` that `after`
/// lacks, and rows whose total did not move, contribute nothing.
pub fn usage_level(before: &Vec<CpuRecord>, after: &Vec<CpuRecord>) -> (r: usize)
    ensures
        r == usage_level_of(snapshot(before@), snapshot(after@)),
        r <= 10,
{
    let ghost b = snapshot(before@);
    let ghost a = snapshot(after@);
    let mut best: usize = 0;
    let mut k: usize = 0;
    while k < before.len()
        invariant
            k <= before@.len(),
            b == snapshot(before@),
            a == snapshot(after@),
            best == max_level(b, a, k as int),
            best <= 10,
        decreases before@.len() - k,
    {
        let found = find_record(after, &before[k].label);
        let l: usize = match found {
            Some(s2) => row_level_exec(&before[k].stat, &s2),
            None => 0,
        };
        assert(b[k as int] == before@[k as int]@);
        if l > best {
            best = l;
        }
        k = k + 1;
    }
    best
}

proof fn lemma_max_level_in_range(
    before: Seq<(Seq<u8>, CpuStat)>,
    after: Seq<(Seq<u8>, CpuStat)>,
    n: int,
)
    ensures
        0 <= max_level(before, after, n) <= 10,
    decreases n,
{
    if n > 0 {
        lemma_max_level_in_range(before, after, n - 1);
        if let Some(s) = find_stat(after, before[n - 1].0) {
            lemma_row_level_bounds(before[n - 1].1, s);
        }
    }
}

/// For any two snapshots, counters that went backwards included, the gauge
/// level is an integer in 0..=10.
pub proof fn lemma_level_in_range(before: Seq<(Seq<u8>, CpuStat)>, after: Seq<(Seq<u8>, CpuStat)>)
    ensures
        0 <= usage_level_of(before, after) <= 10,
{
    lemma_max_level_in_range(before, after, before.len() as int);
}

/// Whether no row of `before` saw its total move by the time of `after`.
pub open spec fn no_ticks(before: Seq<(Seq<u8>, CpuStat)>, after: Seq<(Seq<u8>, CpuStat)>) -> bool {
    forall|i: int|
        0 <= i < before.len() ==> match #[trigger] find_stat(after, before[i].0) {
            Some(s) => sat_sub(stat_total(s), stat_total(before[i].1)) == 0,
            None => true,
        }
}

proof fn lemma_no_ticks_prefix(
    before: Seq<(Seq<u8>, CpuStat)>,
    after: Seq<(Seq<u8>, CpuStat)>,
    n: int,
)
    requires
        no_ticks(before, after),
        n <= before.len(),
    ensures
        max_level(before, after, n) == 0,
    decreases n,
{
    if n > 0 {
        lemma_no_ticks_prefix(before, after, n - 1);
        let _ = find_stat(after, before[n - 1].0);
    }
}

/// Where no row's total moved between two snapshots, the gauge level is zero.
pub proof fn lemma_no_ticks_level_zero(
    before: Seq<(Seq<u8>, CpuStat)>,
    after: Seq<(Seq<u8>, CpuStat)>,
)
    requires
        no_ticks(before, after),
    ensures
        usage_level_of(before, after) == 0,
{
    lemma_no_ticks_prefix(before, after, before.len() as int);
}

/// The gauge level between two readings of the kernel's counter text.
pub open spec fn text_usage_level(first: Seq<char>, second: Seq<char>) -> int {
    usage_level_of(cpu_records(encode_utf8(first)), cpu_records(encode_utf8(second)))
}

/// The display row for a gauge level: the label `CPU: `, then `level` fill
/// characters, then blanks up to ten in all.
pub open spec fn gauge_line(level: nat) -> Seq<char> {
    seq!['C', 'P', 'U', ':', ' '] + Seq::new(level, |i: int| '#') + Seq::new(
        (10 - level) as nat,
        |i: int| ' ',
    )
}

/// The CPU load gauge: the busiest logical CPU's load over one sampling
/// window, on a scale of 0 to 10.
pub struct SystemResources;

impl SystemResources {
    pub fn new() -> Self {
        SystemResources
    }

    /// The gauge level 0..=10 between two readings of the kernel's counter
    /// text taken one sampling window apart; an empty or unreadable text gives
    /// no rows, and so level zero.
    pub fn get_cpu_stats(&self, first: &str, second: &str) -> (r: usize)
        ensures
            r == text_usage_level(first@, second@),
            r <= 10,
    {
        let s1 = parse_cpu_stats(first);
        let s2 = parse_cpu_stats(second);
        usage_level(&s1, &s2)
    }

    /// The display row for the gauge between two readings of the counters:
    /// fifteen characters whatever the level.
    pub fn get_line(&self, first: &str, second: &str) -> (r: String)
        ensures
            r@ == gauge_line(text_usage_level(first@, second@) as nat),
            r@.len() == 15,
    {
        let level = self.get_cpu_stats(first, second);
        proof {
            reveal_strlit("CPU: ");
        }
        let mut r = String::from_str("CPU: ");
        let ghost head = seq!['C', 'P', 'U', ':', ' '];
        assert(r@ =~= head);
        let mut k: usize = 0;
        while k < level
            invariant
                k <= level <= 10,
                r@ == head + Seq::new(k as nat, |i: int| '#'),
            decreases level - k,
        {
            proof {
                reveal_strlit("#");
            }
            r.append("#");
            k = k + 1;
            assert(r@ =~= head + Seq::new(k as nat, |i: int| '#'));
        }
        let ghost filled = r@;
        let mut k: usize = 0;
        while k < 10 - level
            invariant
                k <= 10 - level,
                level <= 10,
                r@ == filled + Seq::new(k as nat, |i: int| ' '),
            decreases 10 - level - k,
        {
            proof {
                reveal_strlit(" ");
            }
            r.append(" ");
            k = k + 1;
            assert(r@ =~= filled + Seq::new(k as nat, |i: int| ' '));
        }
        assert(r@ =~= gauge_line(level as nat));
        r
    }
}

} // verus!
