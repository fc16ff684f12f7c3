//! What a build measures: the time of its phases, and the size of its image.
use std::collections::BTreeMap;
use vstd::prelude::*;
use crate::number::{
    decimal, pad_left, pad_right, padded_left, padded_right, write_decimal,
};
use crate::text::{concat2, concat3, concat4, concat5, starts_with};
use crate::text_map::{keys_in_order, TextMap};

verus! {

/// What a build measured.
#[derive(Debug)]
pub struct BuildMetrics {
    /// How long the build took, in milliseconds.
    pub total_ms: u128,
    /// How long each phase took the last time, in milliseconds.
    pub phases_ms: TextMap<u128>,
    /// How often each phase was run.
    pub phase_counts: TextMap<u64>,
    /// How many layers the image has.
    pub layer_count: Option<usize>,
    /// How many bytes they have.
    pub total_layer_bytes: Option<i64>,
    /// How many bytes were pushed.
    pub pushed_bytes: Option<i64>,
}

/// The model of [`BuildMetrics`].
#[verifier::ext_equal]
pub struct MetricsView {
    /// How long the build took, in milliseconds.
    pub total_ms: u128,
    /// How long each phase took the last time, in milliseconds.
    pub phases: Map<Seq<char>, u128>,
    /// How often each phase was run.
    pub counts: Map<Seq<char>, u64>,
    /// How many layers the image has.
    pub layer_count: Option<usize>,
    /// How many bytes they have.
    pub total_layer_bytes: Option<i64>,
    /// How many bytes were pushed.
    pub pushed_bytes: Option<i64>,
}

impl View for BuildMetrics {
    type V = MetricsView;

    open spec fn view(&self) -> MetricsView {
        MetricsView {
            total_ms: self.total_ms,
            phases: self.phases_ms@,
            counts: self.phase_counts@,
            layer_count: self.layer_count,
            total_layer_bytes: self.total_layer_bytes,
            pushed_bytes: self.pushed_bytes,
        }
    }
}

/// Nothing measured.
pub open spec fn no_metrics() -> MetricsView {
    MetricsView {
        total_ms: 0,
        phases: Map::empty(),
        counts: Map::empty(),
        layer_count: None,
        total_layer_bytes: None,
        pushed_bytes: None,
    }
}

impl Default for BuildMetrics {
    fn default() -> (r: Self)
        ensures
            r@ == no_metrics(),
    {
        BuildMetrics {
            total_ms: 0,
            phases_ms: TextMap::new(),
            phase_counts: TextMap::new(),
            layer_count: None,
            total_layer_bytes: None,
            pushed_bytes: None,
        }
    }
}

/// The least power of two by which `n` has to be divided to fit into 53 bits.
pub open spec fn float_unit(n: nat) -> nat
    decreases n,
{
    if n < 9_007_199_254_740_992 {
        1
    } else {
        2 * float_unit(n / 2)
    }
}

/// `a / b` to the nearest whole number, to the even one of two.
pub open spec fn divided_even(a: nat, b: nat) -> nat {
    let q = a / b;
    let r = a % b;
    if 2 * r > b || (2 * r == b && q % 2 == 1) {
        q + 1
    } else {
        q
    }
}

/// The number nearest to `n` that a double-precision number can hold.
pub open spec fn as_float(n: nat) -> nat {
    divided_even(n, float_unit(n)) * float_unit(n)
}

/// `n` hundredths as a number with two decimals.
pub open spec fn hundredths(n: nat) -> Seq<char> {
    decimal(n / 100) + "."@ + pad_left(decimal(n % 100), 2, '0')
}

/// `n` in units of `unit`, with two decimals.
pub open spec fn in_units(n: nat, unit: nat, name: Seq<char>) -> Seq<char> {
    hundredths(divided_even(n * 100, unit)) + name
}

/// A number of bytes for people: in the largest unit of which there is one.
pub open spec fn bytes_text(bytes: int) -> Seq<char> {
    let n = as_float(if bytes < 0 {
        0
    } else {
        bytes as nat
    });
    if n >= 1_073_741_824 {
        in_units(n, 1_073_741_824, " Gi"@)
    } else if n >= 1_048_576 {
        in_units(n, 1_048_576, " Mi"@)
    } else if n >= 1024 {
        in_units(n, 1024, " Ki"@)
    } else {
        decimal(n) + " B"@
    }
}

fn divide_even(a: u128, b: u128) -> (r: u128)
    requires
        0 < b <= 0x1_0000_0000_0000_0000,
        a <= 0x1_0000_0000_0000_0000_0000,
    ensures
        r == divided_even(a as nat, b as nat),
        r <= a + 1,
{
    let q: u128 = a / b;
    let rest: u128 = a % b;
    assert(q <= a) by (nonlinear_arith)
        requires
            q == a / b,
            b > 0,
    ;
    assert(rest < b) by (nonlinear_arith)
        requires
            rest == a % b,
            b > 0,
    ;
    if 2 * rest > b || (2 * rest == b && q % 2 == 1) {
        q + 1
    } else {
        q
    }
}

/// The unit is a power of two, at most as large as makes the number 53 bits
/// long.
proof fn lemma_float_unit(n: nat)
    ensures
        float_unit(n) >= 1,
        n >= 9_007_199_254_740_992 ==> float_unit(n) * 4_503_599_627_370_496 <= n,
    decreases n,
{
    if n >= 9_007_199_254_740_992 {
        lemma_float_unit(n / 2);
        if n / 2 < 9_007_199_254_740_992 {
            assert(float_unit(n / 2) == 1);
        }
    }
}

fn to_float(n: u64) -> (r: u128)
    ensures
        r == as_float(n as nat),
        r <= 0x2_0000_0000_0000_0000,
{
    let mut m: u64 = n;
    let mut unit: u128 = 1;
    proof {
        lemma_float_unit(n as nat);
        assert(1 * float_unit(n as nat) == float_unit(n as nat)) by (nonlinear_arith);
    }
    while m >= 9_007_199_254_740_992
        invariant
            unit * float_unit(m as nat) == float_unit(n as nat),
            unit >= 1,
            float_unit(n as nat) <= n || float_unit(n as nat) == 1,
        decreases m,
    {
        proof {
            let f = float_unit(m as nat / 2);
            lemma_float_unit(m as nat / 2);
            assert(unit * (2 * f) == (unit * 2) * f) by (nonlinear_arith);
            assert(unit * 2 <= unit * (2 * f)) by (nonlinear_arith)
                requires
                    f >= 1,
            ;
        }
        m = m / 2;
        unit = unit * 2;
    }
    proof {
        assert(unit * 1 == unit) by (nonlinear_arith);
    }
    let q = divide_even(n as u128, unit);
    proof {
        let a = n as int;
        let u = unit as int;
        assert(q * u <= a + u) by (nonlinear_arith)
            requires
                q == divided_even(a as nat, u as nat),
                q <= a / u + 1,
                u > 0,
                a >= 0,
        ;
    }
    q * unit
}

fn write_in_units(n: u128, unit: u128, name: &str) -> (r: String)
    requires
        0 < unit <= 0x1_0000_0000_0000_0000,
        n <= 0x2_0000_0000_0000_0000,
    ensures
        r@ == in_units(n as nat, unit as nat, name@),
{
    let h = divide_even(n * 100, unit);
    let whole = write_decimal(h / 100);
    let rest = padded_left(write_decimal(h % 100).as_str(), 2, '0');
    concat4(whole.as_str(), ".", rest.as_str(), name)
}

/// A number of bytes for people.
pub fn human_bytes(bytes: i64) -> (r: String)
    ensures
        r@ == bytes_text(bytes as int),
{
    let n: u128 = to_float(
        if bytes < 0 {
            0
        } else {
            bytes as u64
        },
    );
    if n >= 1_073_741_824 {
        write_in_units(n, 1_073_741_824, " Gi")
    } else if n >= 1_048_576 {
        write_in_units(n, 1_048_576, " Mi")
    } else if n >= 1024 {
        write_in_units(n, 1024, " Ki")
    } else {
        concat2(write_decimal(n).as_str(), " B")
    }
}

/// A line across the summary.
pub const RULE: &'static str = "─────────────\n";

/// How often a phase was run, in words; nothing for once.
pub open spec fn times_text(count: u64) -> Seq<char> {
    if count > 1 {
        "  ("@ + decimal(count as nat) + "× total, last)"@
    } else {
        Seq::empty()
    }
}

impl MetricsView {
    /// How often a phase was run; once where nothing is known.
    pub open spec fn times(self, phase: Seq<char>) -> u64 {
        if self.counts.dom().contains(phase) {
            self.counts[phase]
        } else {
            1
        }
    }

    /// The line of a phase.
    pub open spec fn phase_line(self, phase: Seq<char>) -> Seq<char> {
        pad_right(phase, 30) + " "@ + pad_left(decimal(self.phases[phase] as nat), 6, ' ') + " ms"@
            + times_text(self.times(phase)) + "\n"@
    }

    /// The lines of the first `n` phases, in the order of their names.
    pub open spec fn phase_lines(self, n: int) -> Seq<char>
        decreases n,
    {
        if n <= 0 {
            Seq::empty()
        } else {
            self.phase_lines(n - 1) + self.phase_line(keys_in_order(self.phases)[n - 1])
        }
    }

    /// The line about the image.
    pub open spec fn image_text(self) -> Seq<char> {
        match self.layer_count {
            Some(layers) => RULE@ + ("image: "@ + decimal(layers as nat) + " layer(s), "@
                + bytes_text(
                match self.total_layer_bytes {
                    Some(b) => b as int,
                    None => 0,
                },
            ) + " compressed bytes\n"@),
            None => Seq::empty(),
        }
    }

    /// The line about what was pushed.
    pub open spec fn push_text(self) -> Seq<char> {
        match self.pushed_bytes {
            Some(b) => "push: "@ + bytes_text(b as int) + " pushed\n"@,
            None => Seq::empty(),
        }
    }

    /// The summary of a build.
    pub open spec fn summary(self) -> Seq<char> {
        "Build summary\n"@ + RULE@ + self.phase_lines(keys_in_order(self.phases).len() as int)
            + self.image_text() + self.push_text() + RULE@ + ("total: "@ + decimal(
            self.total_ms as nat,
        ) + " ms\n"@)
    }
}

impl BuildMetrics {
    /// Starts to measure a build, at `now_ms` milliseconds of the clock.
    pub fn start(now_ms: u128) -> (r: MetricsBuilder)
        ensures
            r.metrics@ == no_metrics(),
            r.started_ms == now_ms,
    {
        MetricsBuilder { metrics: BuildMetrics::default(), started_ms: now_ms }
    }

    fn write_phase(&self, i: usize) -> (r: String)
        requires
            i < self.phases_ms.keys().len(),
            self.phases_ms.keys() == keys_in_order(self.phases_ms@),
        ensures
            r@ == self@.phase_line(keys_in_order(self@.phases)[i as int]),
    {
        let phase = self.phases_ms.key_at(i);
        let ms: u128 = *self.phases_ms.value_at(i);
        let count: u64 = match self.phase_counts.get(phase.as_str()) {
            Some(n) => *n,
            None => 1,
        };
        let suffix = if count > 1 {
            concat3("  (", write_decimal(count as u128).as_str(), "× total, last)")
        } else {
            String::new()
        };
        let name = padded_right(phase.as_str(), 30);
        let time = padded_left(write_decimal(ms).as_str(), 6, ' ');
        let head = concat4(name.as_str(), " ", time.as_str(), " ms");
        concat3(head.as_str(), suffix.as_str(), "\n")
    }

    /// The summary of a build.
    pub fn render_text(&self) -> (r: String)
        ensures
            r@ == self@.summary(),
    {
        let mut out = concat2("Build summary\n", RULE);
        let n: usize = self.phases_ms.len();
        let mut lines = String::new();
        let mut i: usize = 0;
        while i < n
            invariant
                i <= n,
                n == self.phases_ms.keys().len(),
                self.phases_ms.keys() == keys_in_order(self.phases_ms@),
                lines@ == self@.phase_lines(i as int),
            decreases n - i,
        {
            let line = self.write_phase(i);
            lines.append(line.as_str());
            i += 1;
        }
        out.append(lines.as_str());
        let image = match self.layer_count {
            Some(layers) => {
                let bytes: i64 = match self.total_layer_bytes {
                    Some(b) => b,
                    None => 0,
                };
                let line = concat5(
                    "image: ",
                    write_decimal(layers as u128).as_str(),
                    " layer(s), ",
                    human_bytes(bytes).as_str(),
                    " compressed bytes\n",
                );
                concat2(RULE, line.as_str())
            },
            None => String::new(),
        };
        out.append(image.as_str());
        let push = match self.pushed_bytes {
            Some(b) => concat3("push: ", human_bytes(b).as_str(), " pushed\n"),
            None => String::new(),
        };
        out.append(push.as_str());
        out.append(RULE);
        let total = concat3("total: ", write_decimal(self.total_ms).as_str(), " ms\n");
        out.append(total.as_str());
        out
    }
}

/// A build that is being measured.
#[derive(Debug)]
pub struct MetricsBuilder {
    /// What was measured so far.
    pub metrics: BuildMetrics,
    /// When the build started, in milliseconds of the clock.
    pub started_ms: u128,
}

/// How long it is from `start` to `now`; nothing where the clock went back.
pub open spec fn elapsed(start: u128, now: u128) -> u128 {
    if now >= start {
        (now - start) as u128
    } else {
        0
    }
}

fn elapsed_ms(start: u128, now: u128) -> (r: u128)
    ensures
        r == elapsed(start, now),
{
    if now >= start {
        now - start
    } else {
        0
    }
}

impl MetricsBuilder {
    /// What was measured so far, for whoever measures.
    pub fn shared(&mut self) -> (r: &mut BuildMetrics)
        ensures
            *r == old(self).metrics,
            final(self).metrics == *final(r),
            final(self).started_ms == old(self).started_ms,
    {
        &mut self.metrics
    }

    /// Ends the measurement of a build that made an image, at `now_ms`
    /// milliseconds of the clock.
    pub fn finish_with_image(
        self,
        layer_count: usize,
        total_layer_bytes: i64,
        pushed_bytes: Option<i64>,
        now_ms: u128,
    ) -> (r: BuildMetrics)
        ensures
            r@ == (MetricsView {
                total_ms: elapsed(self.started_ms, now_ms),
                layer_count: Some(layer_count),
                total_layer_bytes: Some(total_layer_bytes),
                pushed_bytes,
                ..self.metrics@
            }),
    {
        let mut m = self.metrics;
        m.total_ms = elapsed_ms(self.started_ms, now_ms);
        m.layer_count = Some(layer_count);
        m.total_layer_bytes = Some(total_layer_bytes);
        m.pushed_bytes = pushed_bytes;
        m
    }

    /// Ends the measurement of a build without an image.
    pub fn finish(self, now_ms: u128) -> (r: BuildMetrics)
        ensures
            r@ == (MetricsView {
                total_ms: elapsed(self.started_ms, now_ms),
                ..self.metrics@
            }),
    {
        let mut m = self.metrics;
        m.total_ms = elapsed_ms(self.started_ms, now_ms);
        m
    }
}

/// The phases that are running.
#[derive(Debug)]
pub struct MetricsLayer {
    /// When each running phase started, by the id of its span.
    pub span_starts: BTreeMap<u64, u128>,
}

/// What is known of the phases once another one ended.
pub open spec fn with_phase(m: MetricsView, name: Seq<char>, ms: u128) -> MetricsView {
    MetricsView {
        phases: m.phases.insert(name, ms),
        counts: m.counts.insert(
            name,
            if m.counts.dom().contains(name) {
                (m.counts[name] + 1) as u64
            } else {
                1
            },
        ),
        ..m
    }
}

impl MetricsLayer {
    /// No phase is running.
    pub fn new() -> (r: Self)
        ensures
            r.span_starts@ == Map::<u64, u128>::empty(),
    {
        MetricsLayer { span_starts: BTreeMap::new() }
    }

    /// A span starts. It is a phase where its name starts with `umf.`.
    pub fn on_new_span(&mut self, name: &str, id: u64, now_ms: u128)
        ensures
            final(self).span_starts@ == (if "umf."@.is_prefix_of(name@) {
                old(self).span_starts@.insert(id, now_ms)
            } else {
                old(self).span_starts@
            }),
    {
        if starts_with(name, "umf.") {
            let _ = self.span_starts.insert(id, now_ms);
        }
    }

    /// A span ends. If it is a phase that is running, and its name is still
    /// known, its time is noted, and it is counted.
    pub fn on_close(&mut self, id: u64, name: Option<&str>, now_ms: u128, metrics: &mut BuildMetrics)
        requires
            name matches Some(n) ==> old(self).span_starts@.dom().contains(id)
                && old(metrics)@.counts.dom().contains(n@) ==> old(metrics)@.counts[n@] < u64::MAX,
        ensures
            final(self).span_starts@ == old(self).span_starts@.remove(id),
            match name {
                Some(n) => final(metrics)@ == (if old(self).span_starts@.dom().contains(id) {
                    with_phase(
                        old(metrics)@,
                        n@,
                        elapsed(old(self).span_starts@[id], now_ms),
                    )
                } else {
                    old(metrics)@
                }),
                None => final(metrics)@ == old(metrics)@,
            },
    {
        let start: u128 = match self.span_starts.remove(&id) {
            Some(start) => start,
            None => {
                assert(self.span_starts@ =~= old(self).span_starts@.remove(id));
                return;
            },
        };
        assert(self.span_starts@ =~= old(self).span_starts@.remove(id));
        if let Some(n) = name {
            let count: u64 = match metrics.phase_counts.get(n) {
                Some(c) => *c + 1,
                None => 1,
            };
            metrics.phases_ms.insert(String::from_str(n), elapsed_ms(start, now_ms));
            metrics.phase_counts.insert(String::from_str(n), count);
        }
    }
}

} // verus!
