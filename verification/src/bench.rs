//! What several builds of one recipe measured, put together.
use vstd::prelude::*;
use crate::metrics::{bytes_text, human_bytes, BuildMetrics, RULE};
use crate::number::{decimal, pad_left, padded_left, write_decimal};
use crate::order::lemma_map_multiset;
use crate::text::{concat2, concat3, concat5};

verus! {

/// All runs of a benchmark, and what they come to.
#[derive(Debug)]
pub struct BenchReport {
    /// The path of the recipe.
    pub recipe: String,
    /// How many warm runs there were.
    pub runs: usize,
    /// How many runs came before the measured ones.
    pub warmup: usize,
    /// The run with a cold cache.
    pub cold_run: Option<BuildMetrics>,
    /// The warm runs, in the order in which they were made.
    pub warm_runs: Vec<BuildMetrics>,
    /// What the warm runs come to, if there were any.
    pub warm_summary: Option<BenchSummary>,
}

/// What several runs come to.
#[derive(Debug)]
pub struct BenchSummary {
    /// How many runs there were.
    pub n: usize,
    /// How long they took, in milliseconds.
    pub total_ms: PercentileStats,
    /// The least and the greatest number of layers.
    pub layer_count_range: (usize, usize),
    /// The least and the greatest number of bytes.
    pub total_layer_bytes_range: (i64, i64),
}

/// What several measurements come to.
#[derive(Debug)]
pub struct PercentileStats {
    /// The least of them.
    pub min: u128,
    /// The greatest of them.
    pub max: u128,
    /// What of them has to be computed with fractions.
    pub averages: Averages,
}

/// What of several measurements has to be computed with fractions.
#[derive(Debug)]
pub struct Averages {
    /// Their mean, written with one decimal place.
    pub mean: String,
    /// Their median.
    pub median: u128,
    /// Their 99th percentile.
    pub p99: u128,
}

/// How long each run took.
pub open spec fn totals(runs: Seq<BuildMetrics>) -> Seq<u128> {
    Seq::new(runs.len(), |i: int| runs[i].total_ms)
}

/// The numbers rise.
pub open spec fn ascending(s: Seq<u128>) -> bool {
    forall|i: int, j: int| 0 <= i <= j < s.len() ==> s[i] <= s[j]
}

/// How many layers each run made, where that is known.
pub open spec fn layer_counts(runs: Seq<BuildMetrics>) -> Seq<int>
    decreases runs.len(),
{
    if runs.len() == 0 {
        Seq::empty()
    } else {
        match runs.last().layer_count {
            Some(n) => layer_counts(runs.drop_last()).push(n as int),
            None => layer_counts(runs.drop_last()),
        }
    }
}

/// How many bytes each run made, where that is known.
pub open spec fn layer_bytes(runs: Seq<BuildMetrics>) -> Seq<int>
    decreases runs.len(),
{
    if runs.len() == 0 {
        Seq::empty()
    } else {
        match runs.last().total_layer_bytes {
            Some(n) => layer_bytes(runs.drop_last()).push(n as int),
            None => layer_bytes(runs.drop_last()),
        }
    }
}

/// `low` is the least and `high` the greatest of the numbers; both are zero
/// where there are none.
pub open spec fn spans(s: Seq<int>, low: int, high: int) -> bool {
    if s.len() == 0 {
        low == 0 && high == 0
    } else {
        &&& s.contains(low)
        &&& s.contains(high)
        &&& forall|i: int| 0 <= i < s.len() ==> low <= #[trigger] s[i] <= high
    }
}

/// `s` is what the runs come to, with the averages left open.
pub open spec fn is_summary(s: BenchSummary, runs: Seq<BuildMetrics>) -> bool {
    &&& s.n == runs.len()
    &&& spans(
        Seq::new(runs.len(), |i: int| totals(runs)[i] as int),
        s.total_ms.min as int,
        s.total_ms.max as int,
    )
    &&& spans(layer_counts(runs), s.layer_count_range.0 as int, s.layer_count_range.1 as int)
    &&& spans(
        layer_bytes(runs),
        s.total_layer_bytes_range.0 as int,
        s.total_layer_bytes_range.1 as int,
    )
}

proof fn lemma_spans_push(s: Seq<int>, low: int, high: int, n: int)
    requires
        s.len() > 0,
        spans(s, low, high),
    ensures
        spans(
            s.push(n),
            if n < low {
                n
            } else {
                low
            },
            if n > high {
                n
            } else {
                high
            },
        ),
{
    let t = s.push(n);
    let i = choose|i: int| 0 <= i < s.len() && s[i] == low;
    let j = choose|j: int| 0 <= j < s.len() && s[j] == high;
    assert(t[i] == low && t[j] == high && t[s.len() as int] == n);
    assert forall|k: int| 0 <= k < t.len() implies (if n < low {
        n
    } else {
        low
    }) <= #[trigger] t[k] <= (if n > high {
        n
    } else {
        high
    }) by {
        if k < s.len() {
            assert(t[k] == s[k]);
        }
    }
}

proof fn lemma_spans_one(n: int)
    ensures
        spans(Seq::<int>::empty().push(n), n, n),
{
    assert(Seq::<int>::empty().push(n)[0] == n);
}

/// How long each run took, the shortest first.
pub fn sorted_totals(runs: &Vec<BuildMetrics>) -> (r: Vec<u128>)
    ensures
        ascending(r@),
        r@.to_multiset() == totals(runs@).to_multiset(),
        r@.len() == runs@.len(),
{
    let mut out: Vec<u128> = Vec::new();
    let mut i: usize = 0;
    proof {
        assert(totals(runs@).take(0) =~= out@);
    }
    while i < runs.len()
        invariant
            i <= runs@.len(),
            out@.len() == i,
            ascending(out@),
            out@.to_multiset() == totals(runs@).take(i as int).to_multiset(),
        decreases runs@.len() - i,
    {
        let t: u128 = runs[i].total_ms;
        let mut at: usize = 0;
        while at < out.len() && out[at] < t
            invariant
                at <= out@.len(),
                forall|k: int| 0 <= k < at ==> out@[k] < t,
            decreases out@.len() - at,
        {
            at += 1;
        }
        let ghost before = out@;
        out.insert(at, t);
        proof {
            let ts = totals(runs@);
            assert(ts.take(i + 1) =~= ts.take(i as int).push(t));
            vstd::seq_lib::to_multiset_build(ts.take(i as int), t);
            vstd::seq_lib::to_multiset_insert(before, at as int, t);
            assert forall|a: int, b: int| 0 <= a <= b < out@.len() implies out@[a] <= out@[b] by {
                let p = if a < at {
                    a
                } else {
                    a - 1
                };
                let q = if b < at {
                    b
                } else {
                    b - 1
                };
                if a != at && b != at {
                    assert(out@[a] == before[p] && out@[b] == before[q]);
                } else if a == at && b != at {
                    assert(out@[b] == before[q]);
                    assert(before[at as int] >= t);
                    assert(before[at as int] <= before[q]);
                }
            }
        }
        i += 1;
    }
    proof {
        assert(totals(runs@).take(i as int) =~= totals(runs@));
    }
    out
}

fn time_range(runs: &Vec<BuildMetrics>) -> (r: (u128, u128))
    ensures
        spans(
            Seq::new(runs@.len(), |i: int| totals(runs@)[i] as int),
            r.0 as int,
            r.1 as int,
        ),
{
    let ghost all = Seq::new(runs@.len(), |i: int| totals(runs@)[i] as int);
    if runs.len() == 0 {
        return (0, 0);
    }
    let mut low: u128 = runs[0].total_ms;
    let mut high: u128 = low;
    let mut i: usize = 1;
    proof {
        lemma_spans_one(low as int);
        assert(all.take(1) =~= Seq::<int>::empty().push(low as int));
    }
    while i < runs.len()
        invariant
            1 <= i <= runs@.len(),
            all == Seq::new(runs@.len(), |i: int| totals(runs@)[i] as int),
            spans(all.take(i as int), low as int, high as int),
        decreases runs@.len() - i,
    {
        let t: u128 = runs[i].total_ms;
        proof {
            lemma_spans_push(all.take(i as int), low as int, high as int, t as int);
            assert(all.take(i + 1) =~= all.take(i as int).push(t as int));
        }
        if t < low {
            low = t;
        }
        if t > high {
            high = t;
        }
        i += 1;
    }
    proof {
        assert(all.take(i as int) =~= all);
    }
    (low, high)
}

fn count_range(runs: &Vec<BuildMetrics>) -> (r: (usize, usize))
    ensures
        spans(layer_counts(runs@), r.0 as int, r.1 as int),
{
    let mut found: bool = false;
    let mut low: usize = 0;
    let mut high: usize = 0;
    let mut i: usize = 0;
    proof {
        assert(layer_counts(runs@.take(0)) =~= Seq::<int>::empty());
    }
    while i < runs.len()
        invariant
            i <= runs@.len(),
            spans(layer_counts(runs@.take(i as int)), low as int, high as int),
            found == (layer_counts(runs@.take(i as int)).len() > 0),
        decreases runs@.len() - i,
    {
        let ghost known = layer_counts(runs@.take(i as int));
        proof {
            assert(runs@.take(i + 1).drop_last() =~= runs@.take(i as int));
        }
        if let Some(n) = runs[i].layer_count {
            proof {
                lemma_spans_one(n as int);
                if found {
                    lemma_spans_push(known, low as int, high as int, n as int);
                } else {
                    assert(known =~= Seq::<int>::empty());
                }
            }
            if !found || n < low {
                low = n;
            }
            if !found || n > high {
                high = n;
            }
            found = true;
        }
        i += 1;
    }
    proof {
        assert(runs@.take(i as int) =~= runs@);
    }
    (low, high)
}

fn bytes_range(runs: &Vec<BuildMetrics>) -> (r: (i64, i64))
    ensures
        spans(layer_bytes(runs@), r.0 as int, r.1 as int),
{
    let mut found: bool = false;
    let mut low: i64 = 0;
    let mut high: i64 = 0;
    let mut i: usize = 0;
    proof {
        assert(layer_bytes(runs@.take(0)) =~= Seq::<int>::empty());
    }
    while i < runs.len()
        invariant
            i <= runs@.len(),
            spans(layer_bytes(runs@.take(i as int)), low as int, high as int),
            found == (layer_bytes(runs@.take(i as int)).len() > 0),
        decreases runs@.len() - i,
    {
        let ghost known = layer_bytes(runs@.take(i as int));
        proof {
            assert(runs@.take(i + 1).drop_last() =~= runs@.take(i as int));
        }
        if let Some(n) = runs[i].total_layer_bytes {
            proof {
                lemma_spans_one(n as int);
                if found {
                    lemma_spans_push(known, low as int, high as int, n as int);
                } else {
                    assert(known =~= Seq::<int>::empty());
                }
            }
            if !found || n < low {
                low = n;
            }
            if !found || n > high {
                high = n;
            }
            found = true;
        }
        i += 1;
    }
    proof {
        assert(runs@.take(i as int) =~= runs@);
    }
    (low, high)
}

/// What the runs come to. The averages are those of [`sorted_totals`].
pub fn summarise(runs: &Vec<BuildMetrics>, averages: Averages) -> (r: BenchSummary)
    ensures
        is_summary(r, runs@),
        r.total_ms.averages == averages,
{
    let (min, max) = time_range(runs);
    BenchSummary {
        n: runs.len(),
        total_ms: PercentileStats { min, max, averages },
        layer_count_range: count_range(runs),
        total_layer_bytes_range: bytes_range(runs),
    }
}

/// Numbers with the same values have the same least and greatest one.
proof fn lemma_spans_same(s: Seq<int>, low: int, high: int, t: Seq<int>, low2: int, high2: int)
    requires
        spans(s, low, high),
        spans(t, low2, high2),
        forall|n: int| #[trigger] s.contains(n) == t.contains(n),
    ensures
        low == low2,
        high == high2,
{
    if s.len() > 0 {
        assert(s.contains(low) && s.contains(high));
        assert(t.contains(low) && t.contains(high));
        assert(t.contains(low2) && t.contains(high2));
        assert(s.contains(low2) && s.contains(high2));
    } else if t.len() > 0 {
        assert(t.contains(t[0]));
        assert(s.contains(t[0]));
    }
}

proof fn lemma_counts_values(runs: Seq<BuildMetrics>, n: int)
    ensures
        layer_counts(runs).contains(n) == exists|i: int|
            0 <= i < runs.len() && ((#[trigger] runs[i]).layer_count matches Some(c) && c == n),
    decreases runs.len(),
{
    if runs.len() > 0 {
        let front = runs.drop_last();
        let before = layer_counts(front);
        let all = layer_counts(runs);
        let k = runs.len() - 1;
        lemma_counts_values(front, n);
        if before.contains(n) {
            let j = before.index_of(n);
            assert(all[j] == n);
            let i = choose|i: int|
                0 <= i < k && ((#[trigger] front[i]).layer_count matches Some(c) && c == n);
            assert(runs[i] == front[i]);
        }
        if runs[k].layer_count matches Some(c) && c == n {
            assert(all[before.len() as int] == n);
        }
        if exists|i: int|
            0 <= i < runs.len() && ((#[trigger] runs[i]).layer_count matches Some(c) && c == n) {
            let i = choose|i: int|
                0 <= i < runs.len() && ((#[trigger] runs[i]).layer_count matches Some(c) && c == n);
            if i < k {
                assert(front[i] == runs[i]);
            }
        }
        if all.contains(n) && !before.contains(n) {
            let j = all.index_of(n);
            assert(all[j] == n);
            if j < before.len() {
                assert(before[j] == n);
            }
            assert(runs[k].layer_count is Some);
        }
    }
}

proof fn lemma_bytes_values(runs: Seq<BuildMetrics>, n: int)
    ensures
        layer_bytes(runs).contains(n) == exists|i: int|
            0 <= i < runs.len() && ((#[trigger] runs[i]).total_layer_bytes matches Some(c) && c
                == n),
    decreases runs.len(),
{
    if runs.len() > 0 {
        let front = runs.drop_last();
        let before = layer_bytes(front);
        let all = layer_bytes(runs);
        let k = runs.len() - 1;
        lemma_bytes_values(front, n);
        if before.contains(n) {
            let j = before.index_of(n);
            assert(all[j] == n);
            let i = choose|i: int|
                0 <= i < k && ((#[trigger] front[i]).total_layer_bytes matches Some(c) && c == n);
            assert(runs[i] == front[i]);
        }
        if runs[k].total_layer_bytes matches Some(c) && c == n {
            assert(all[before.len() as int] == n);
        }
        if exists|i: int|
            0 <= i < runs.len() && ((#[trigger] runs[i]).total_layer_bytes matches Some(c) && c == n) {
            let i = choose|i: int|
                0 <= i < runs.len() && ((#[trigger] runs[i]).total_layer_bytes matches Some(c) && c == n);
            if i < k {
                assert(front[i] == runs[i]);
            }
        }
        if all.contains(n) && !before.contains(n) {
            let j = all.index_of(n);
            assert(all[j] == n);
            if j < before.len() {
                assert(before[j] == n);
            }
            assert(runs[k].total_layer_bytes is Some);
        }
    }
}

/// Runs that are the same but for their order are the same ones.
proof fn lemma_runs_contain(a: Seq<BuildMetrics>, b: Seq<BuildMetrics>, i: int) -> (j: int)
    requires
        a.to_multiset() == b.to_multiset(),
        0 <= i < a.len(),
    ensures
        0 <= j < b.len(),
        b[j] == a[i],
{
    broadcast use vstd::seq_lib::group_to_multiset_ensures;

    assert(a.contains(a[i]));
    assert(a.to_multiset().count(a[i]) > 0);
    assert(b.contains(a[i]));
    choose|j: int| 0 <= j < b.len() && b[j] == a[i]
}

proof fn lemma_values_within(a: Seq<BuildMetrics>, b: Seq<BuildMetrics>, n: int)
    requires
        a.to_multiset() == b.to_multiset(),
    ensures
        Seq::new(a.len(), |i: int| totals(a)[i] as int).contains(n) ==> Seq::new(
            b.len(),
            |i: int| totals(b)[i] as int,
        ).contains(n),
        layer_counts(a).contains(n) ==> layer_counts(b).contains(n),
        layer_bytes(a).contains(n) ==> layer_bytes(b).contains(n),
{
    let s = Seq::new(a.len(), |i: int| totals(a)[i] as int);
    let t = Seq::new(b.len(), |i: int| totals(b)[i] as int);
    if s.contains(n) {
        let i = s.index_of(n);
        assert(s[i] == n);
        let j = lemma_runs_contain(a, b, i);
        assert(t[j] == n);
    }
    lemma_counts_values(a, n);
    lemma_counts_values(b, n);
    lemma_bytes_values(a, n);
    lemma_bytes_values(b, n);
    if layer_counts(a).contains(n) {
        let i = choose|i: int|
            0 <= i < a.len() && ((#[trigger] a[i]).layer_count matches Some(c) && c == n);
        let j = lemma_runs_contain(a, b, i);
        assert(b[j].layer_count == a[i].layer_count);
    }
    if layer_bytes(a).contains(n) {
        let i = choose|i: int|
            0 <= i < a.len() && ((#[trigger] a[i]).total_layer_bytes matches Some(c) && c == n);
        let j = lemma_runs_contain(a, b, i);
        assert(b[j].total_layer_bytes == a[i].total_layer_bytes);
    }
}

/// The order in which the runs were made does not matter to what they come to:
/// neither to their number and their ranges, nor to the sorted times that the
/// averages are computed from.
pub proof fn lemma_run_order(
    a: Seq<BuildMetrics>,
    s: BenchSummary,
    x: Seq<u128>,
    b: Seq<BuildMetrics>,
    t: BenchSummary,
    y: Seq<u128>,
)
    requires
        a.to_multiset() == b.to_multiset(),
        is_summary(s, a),
        is_summary(t, b),
        ascending(x),
        x.to_multiset() == totals(a).to_multiset(),
        ascending(y),
        y.to_multiset() == totals(b).to_multiset(),
    ensures
        s.n == t.n,
        s.total_ms.min == t.total_ms.min,
        s.total_ms.max == t.total_ms.max,
        s.layer_count_range == t.layer_count_range,
        s.total_layer_bytes_range == t.total_layer_bytes_range,
        x == y,
{
    vstd::seq_lib::to_multiset_len(a);
    vstd::seq_lib::to_multiset_len(b);
    let time = |m: BuildMetrics| m.total_ms;
    lemma_map_multiset(a, b, time);
    assert(a.map_values(time) =~= totals(a));
    assert(b.map_values(time) =~= totals(b));
    let le = |p: u128, q: u128| p <= q;
    vstd::seq_lib::lemma_sorted_unique(x, y, le);
    let p = Seq::new(a.len(), |i: int| totals(a)[i] as int);
    let q = Seq::new(b.len(), |i: int| totals(b)[i] as int);
    assert forall|n: int| #[trigger] p.contains(n) == q.contains(n) by {
        lemma_values_within(a, b, n);
        lemma_values_within(b, a, n);
    }
    assert forall|n: int| #[trigger] layer_counts(a).contains(n) == layer_counts(b).contains(n) by {
        lemma_values_within(a, b, n);
        lemma_values_within(b, a, n);
    }
    assert forall|n: int| #[trigger] layer_bytes(a).contains(n) == layer_bytes(b).contains(n) by {
        lemma_values_within(a, b, n);
        lemma_values_within(b, a, n);
    }
    lemma_spans_same(
        p,
        s.total_ms.min as int,
        s.total_ms.max as int,
        q,
        t.total_ms.min as int,
        t.total_ms.max as int,
    );
    lemma_spans_same(
        layer_counts(a),
        s.layer_count_range.0 as int,
        s.layer_count_range.1 as int,
        layer_counts(b),
        t.layer_count_range.0 as int,
        t.layer_count_range.1 as int,
    );
    lemma_spans_same(
        layer_bytes(a),
        s.total_layer_bytes_range.0 as int,
        s.total_layer_bytes_range.1 as int,
        layer_bytes(b),
        t.total_layer_bytes_range.0 as int,
        t.total_layer_bytes_range.1 as int,
    );
}

/// Runs in another order come to the same in every field, however the averages
/// are computed from the sorted times.
pub proof fn lemma_same_summary(
    a: Seq<BuildMetrics>,
    s: BenchSummary,
    x: Seq<u128>,
    b: Seq<BuildMetrics>,
    t: BenchSummary,
    y: Seq<u128>,
    averages_of: spec_fn(Seq<u128>) -> Averages,
)
    requires
        a.to_multiset() == b.to_multiset(),
        is_summary(s, a),
        is_summary(t, b),
        ascending(x),
        x.to_multiset() == totals(a).to_multiset(),
        ascending(y),
        y.to_multiset() == totals(b).to_multiset(),
        s.total_ms.averages == averages_of(x),
        t.total_ms.averages == averages_of(y),
    ensures
        s == t,
{
    lemma_run_order(a, s, x, b, t, y);
}

/// The line about the cold run.
pub open spec fn cold_text(cold: Option<BuildMetrics>) -> Seq<char> {
    match cold {
        Some(c) => RULE@ + ("cold: "@ + pad_left(decimal(c.total_ms as nat), 7, ' ') + " ms   "@
            + decimal(
            match c.layer_count {
                Some(n) => n as nat,
                None => 0,
            },
        ) + " layer(s)   "@ + bytes_text(
            match c.total_layer_bytes {
                Some(b) => b as int,
                None => 0,
            },
        ) + " compressed\n"@),
        None => Seq::empty(),
    }
}

impl BenchSummary {
    /// The line about the times.
    pub open spec fn times_text(self) -> Seq<char> {
        "warm ("@ + decimal(self.n as nat) + " runs): median "@ + decimal(
            self.total_ms.averages.median as nat,
        ) + " ms  p99 "@ + decimal(self.total_ms.averages.p99 as nat) + " ms  min "@ + decimal(
            self.total_ms.min as nat,
        ) + "  max "@ + decimal(self.total_ms.max as nat) + "  mean "@
            + self.total_ms.averages.mean@ + "\n"@
    }

    /// The warnings about what should be the same in each run.
    pub open spec fn warnings(self) -> Seq<char> {
        (if self.layer_count_range.0 != self.layer_count_range.1 {
            "  ⚠ layer count varied across warm runs: "@ + decimal(
                self.layer_count_range.0 as nat,
            ) + " .. "@ + decimal(self.layer_count_range.1 as nat) + "\n"@
        } else {
            Seq::empty()
        }) + (if self.total_layer_bytes_range.0 != self.total_layer_bytes_range.1 {
            "  ⚠ total layer bytes varied across warm runs: "@ + bytes_text(
                self.total_layer_bytes_range.0 as int,
            ) + " .. "@ + bytes_text(self.total_layer_bytes_range.1 as int) + "\n"@
        } else {
            Seq::empty()
        })
    }

    fn write(&self) -> (r: String)
        ensures
            r@ == self.times_text() + self.warnings(),
    {
        let n = write_decimal(self.n as u128);
        let median = write_decimal(self.total_ms.averages.median);
        let p99 = write_decimal(self.total_ms.averages.p99);
        let min = write_decimal(self.total_ms.min);
        let max = write_decimal(self.total_ms.max);
        let mut out = concat5(
            "warm (",
            n.as_str(),
            " runs): median ",
            median.as_str(),
            " ms  p99 ",
        );
        out.append(p99.as_str());
        out.append(" ms  min ");
        out.append(min.as_str());
        out.append("  max ");
        out.append(max.as_str());
        out.append("  mean ");
        out.append(self.total_ms.averages.mean.as_str());
        out.append("\n");
        assert(out@ =~= self.times_text());
        let counts = if self.layer_count_range.0 != self.layer_count_range.1 {
            concat5(
                "  ⚠ layer count varied across warm runs: ",
                write_decimal(self.layer_count_range.0 as u128).as_str(),
                " .. ",
                write_decimal(self.layer_count_range.1 as u128).as_str(),
                "\n",
            )
        } else {
            String::new()
        };
        let bytes = if self.total_layer_bytes_range.0 != self.total_layer_bytes_range.1 {
            concat5(
                "  ⚠ total layer bytes varied across warm runs: ",
                human_bytes(self.total_layer_bytes_range.0).as_str(),
                " .. ",
                human_bytes(self.total_layer_bytes_range.1).as_str(),
                "\n",
            )
        } else {
            String::new()
        };
        let warnings = concat2(counts.as_str(), bytes.as_str());
        concat2(out.as_str(), warnings.as_str())
    }
}

impl BenchReport {
    /// The first two lines.
    pub open spec fn head_text(self) -> Seq<char> {
        "Bench report — "@ + self.recipe@ + "\n"@ + ("  runs: cold + "@ + decimal(
            self.runs as nat,
        ) + " warm"@ + (if self.warmup > 0 {
            " (with "@ + decimal(self.warmup as nat) + " warmup)"@
        } else {
            Seq::empty()
        }) + "\n"@)
    }

    /// The report as a text.
    pub open spec fn text(self) -> Seq<char> {
        self.head_text() + cold_text(self.cold_run) + match self.warm_summary {
            Some(s) => RULE@ + (s.times_text() + s.warnings()),
            None => Seq::empty(),
        }
    }

    /// Puts the runs together. The averages are those of the warm runs, and
    /// nothing where there are none.
    pub fn aggregate(
        recipe: String,
        warmup: usize,
        cold_run: Option<BuildMetrics>,
        warm_runs: Vec<BuildMetrics>,
        averages: Averages,
    ) -> (r: Self)
        ensures
            r.recipe == recipe,
            r.runs == warm_runs@.len(),
            r.warmup == warmup,
            r.cold_run == cold_run,
            r.warm_runs == warm_runs,
            match r.warm_summary {
                Some(s) => warm_runs@.len() > 0 && is_summary(s, warm_runs@)
                    && s.total_ms.averages == averages,
                None => warm_runs@.len() == 0,
            },
    {
        let warm_summary = if warm_runs.len() == 0 {
            None
        } else {
            Some(summarise(&warm_runs, averages))
        };
        BenchReport { recipe, runs: warm_runs.len(), warmup, cold_run, warm_runs, warm_summary }
    }

    /// The report as a text.
    pub fn render_text(&self) -> (r: String)
        ensures
            r@ == self.text(),
    {
        let mut out = concat3("Bench report — ", self.recipe.as_str(), "\n");
        let warmup = if self.warmup > 0 {
            concat3(" (with ", write_decimal(self.warmup as u128).as_str(), " warmup)")
        } else {
            String::new()
        };
        let line = concat5(
            "  runs: cold + ",
            write_decimal(self.runs as u128).as_str(),
            " warm",
            warmup.as_str(),
            "\n",
        );
        out.append(line.as_str());
        let cold = match &self.cold_run {
            Some(c) => {
                let layers: usize = match c.layer_count {
                    Some(n) => n,
                    None => 0,
                };
                let bytes: i64 = match c.total_layer_bytes {
                    Some(b) => b,
                    None => 0,
                };
                let time = padded_left(write_decimal(c.total_ms).as_str(), 7, ' ');
                let head = concat3("cold: ", time.as_str(), " ms   ");
                let line = concat5(
                    head.as_str(),
                    write_decimal(layers as u128).as_str(),
                    " layer(s)   ",
                    human_bytes(bytes).as_str(),
                    " compressed\n",
                );
                concat2(RULE, line.as_str())
            },
            None => String::new(),
        };
        out.append(cold.as_str());
        let warm = match &self.warm_summary {
            Some(s) => concat2(RULE, s.write().as_str()),
            None => String::new(),
        };
        out.append(warm.as_str());
        out
    }
}

} // verus!
