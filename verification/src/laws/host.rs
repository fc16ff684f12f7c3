//! What a build needs of the machine, what it measures there, and how it writes
//! that down.
use vstd::prelude::*;
use crate::architecture::Architecture;
use crate::ast::Ast;
use crate::bench::{layer_bytes, layer_counts, sorted_totals, totals, Averages, BenchReport};
use crate::engine_build::util::{
    civil_from_epoch, date_of, days_before_month, days_in_month, lemma_date_unique,
    lemma_year_length, now_rfc3339, timestamp, Date,
};
use crate::host_requirements::{
    compute_requirements, detect_all_for, detect_network_egress, first_program,
    parse_forward_policy, path_candidates, probe_kvm, read_bool_sysctl, verify_requirements_for,
    which_on_path, DetectedRuntimes, ForwardPolicy, KvmStatus, MissingRuntime, MissingRuntimeError,
    NetworkEgress, RequiredRuntimes, SysctlState,
};
use crate::laws::aid::{
    is_blank, lemma_decimal, lemma_keys_listed, lemma_occurs, lemma_occurs_within, lemma_trim,
};
use crate::laws::search::lemma_join_occurs;
use crate::metrics::{
    elapsed, float_unit, human_bytes, with_phase, BuildMetrics, MetricsBuilder, MetricsView,
};
use crate::number::{decimal, pad_left, pad_right, padded_left, padded_right};
use crate::path::joined_path;
use crate::text::{contains_text, join, split, texts};
use crate::text_map::keys_in_order;

verus! {

/// Has a stage of the recipe a `RUN`?
pub open spec fn has_run(ast: Ast) -> bool {
    exists|i: int, j: int|
        0 <= i < ast.stages@.len() && 0 <= j < ast.stages@[i].directives@.len()
            && (#[trigger] ast.stages@[i].directives@[j]) is Run
}

/// A build needs a virtual machine exactly where it makes a bootable image and runs
/// something for it.
pub proof fn lemma_requirements(ast: &Ast, bootable: bool, r: RequiredRuntimes)
    requires
        call_ensures(compute_requirements, (ast, bootable), r),
    ensures
        r.qemu == (bootable && has_run(*ast)),
        r.kvm == (bootable && has_run(*ast)),
{
    if has_run(*ast) {
        let (i, j) = choose|i: int, j: int|
            0 <= i < ast.stages@.len() && 0 <= j < ast.stages@[i].directives@.len()
                && (#[trigger] ast.stages@[i].directives@[j]) is Run;
        let stage = ast.stages@[i];
        assert(stage.directives@[j] is Run);
        assert(crate::host_requirements::runs_something(stage));
    }
    if exists|i: int|
        0 <= i < ast.stages@.len() && crate::host_requirements::runs_something(
            #[trigger] ast.stages@[i],
        ) {
        let i = choose|i: int|
            0 <= i < ast.stages@.len() && crate::host_requirements::runs_something(
                #[trigger] ast.stages@[i],
            );
        let stage = ast.stages@[i];
        let j = choose|j: int|
            0 <= j < stage.directives@.len() && (#[trigger] stage.directives@[j]) is Run;
        assert(ast.stages@[i].directives@[j] is Run);
    }
}

/// A machine will do unless it lacks an emulator that is needed; what was found on
/// it is handed on.
pub proof fn lemma_machine_checked(
    req: &RequiredRuntimes,
    architecture: Architecture,
    detected: DetectedRuntimes,
    r: Result<DetectedRuntimes, MissingRuntimeError>,
    hint: String,
)
    requires
        call_ensures(verify_requirements_for, (req, architecture, detected), r),
        call_ensures(MissingRuntime::hint, (MissingRuntime::Qemu(architecture),), hint),
    ensures
        r is Err <==> req.qemu && detected.qemu_path is None,
        r matches Ok(d) ==> d == detected,
        r matches Err(e) ==> e.missing@.len() == 1 && e.missing@[0] == MissingRuntime::Qemu(
            architecture,
        ),
        architecture == Architecture::X86_64 ==> contains_text(hint@, "qemu-system-x86_64"@),
        architecture == Architecture::Aarch64 ==> contains_text(hint@, "qemu-system-aarch64"@),
{
    let tail =
        "` — required by bootable-target `RUN` directives (the micro-VM backend boots the in-progress disk to execute the command)"@;
    lemma_occurs("install `"@, architecture.qemu_name(), tail);
}

/// Where the kernel's virtual machines can be used.
pub proof fn lemma_kvm(exists_there: bool, opens: bool, r: KvmStatus, usable: bool)
    requires
        call_ensures(probe_kvm, (exists_there, opens), r),
        call_ensures(KvmStatus::is_accessible, (r,), usable),
    ensures
        usable == (exists_there && opens),
        r is Absent <==> !exists_there,
{
}

/// A program is looked for in every directory of the path, in order, under its
/// name.
pub proof fn lemma_path_searched(
    path: &str,
    name: &str,
    r: Vec<String>,
    i: int,
    dir: &str,
    p: String,
)
    requires
        call_ensures(path_candidates, (Some(path), name), r),
        0 <= i < split(path@, ':').len(),
        dir@ == split(path@, ':')[i],
        call_ensures(joined_path, (dir, name), p),
    ensures
        r@.len() == split(path@, ':').len(),
        r@[i]@ == p@,
{
    assert(texts(r@).len() == r@.len());
    assert(texts(r@)[i] == r@[i]@);
}

/// Without a path no program is looked for.
pub proof fn lemma_no_path(name: &str, r: Vec<String>, found: &Vec<bool>, p: Option<String>)
    requires
        call_ensures(path_candidates, (None, name), r),
        call_ensures(which_on_path, (None, name, found), p),
    ensures
        r@.len() == 0,
        p is None,
{
    assert(texts(r@).len() == r@.len());
}

proof fn lemma_first_program(places: Seq<Seq<char>>, found: Seq<bool>, from: int, i: int)
    requires
        0 <= from <= i,
        places.len() == found.len(),
        forall|j: int| from <= j < i && j < found.len() ==> !#[trigger] found[j],
    ensures
        i < places.len() && found[i] ==> first_program(places, found, from) == Some(places[i]),
        i >= places.len() ==> first_program(places, found, from) is None,
    decreases i - from,
{
    if from < i && from < places.len() {
        lemma_first_program(places, found, from + 1, i);
    }
}

/// The first place with the program is taken; where none has it, there is none.
pub proof fn lemma_first_found(
    path: Option<&str>,
    name: &str,
    found: &Vec<bool>,
    places: Vec<String>,
    r: Option<String>,
    i: int,
)
    requires
        call_ensures(path_candidates, (path, name), places),
        call_ensures(which_on_path, (path, name, found), r),
        found@.len() == places@.len(),
        0 <= i,
        forall|j: int| 0 <= j < i && j < found@.len() ==> !#[trigger] found@[j],
    ensures
        i < found@.len() && found@[i] ==> (r matches Some(p) && p@ == places@[i]@),
        i >= found@.len() ==> r is None,
{
    assert(texts(places@).len() == places@.len());
    lemma_first_program(texts(places@), found@, 0, i);
}

/// The emulator that is detected is the architecture's own.
pub proof fn lemma_emulator_detected(
    architecture: Architecture,
    path: Option<&str>,
    qemu_found: &Vec<bool>,
    cloud_hypervisor_found: &Vec<bool>,
    kvm_status: KvmStatus,
    r: DetectedRuntimes,
    qemu_name: &str,
    cloud_name: &str,
    qemu: Option<String>,
    cloud: Option<String>,
)
    requires
        call_ensures(
            detect_all_for,
            (architecture, path, qemu_found, cloud_hypervisor_found, kvm_status),
            r,
        ),
        call_ensures(which_on_path, (path, qemu_name, qemu_found), qemu),
        call_ensures(which_on_path, (path, cloud_name, cloud_hypervisor_found), cloud),
        architecture == Architecture::X86_64 ==> qemu_name@ == "qemu-system-x86_64"@,
        architecture == Architecture::Aarch64 ==> qemu_name@ == "qemu-system-aarch64"@,
        cloud_name@ == "cloud-hypervisor"@,
    ensures
        r.kvm_status == kvm_status,
        (r.qemu_path is Some) == (qemu is Some),
        qemu is Some ==> r.qemu_path->0@ == qemu->0@,
        (r.cloud_hypervisor_path is Some) == (cloud is Some),
        cloud is Some ==> r.cloud_hypervisor_path->0@ == cloud->0@,
{
}

/// A setting is on where its file holds a one, with blanks around it or without,
/// off where it holds a zero, and not known where it cannot be read.
pub proof fn lemma_setting(
    before: Seq<char>,
    after: Seq<char>,
    text: &str,
    r: SysctlState,
    none: SysctlState,
)
    requires
        call_ensures(read_bool_sysctl, (Some(text),), r),
        call_ensures(read_bool_sysctl, (None,), none),
        is_blank(before),
        is_blank(after),
    ensures
        text@ == before + seq!['1'] + after ==> r is Enabled,
        text@ == before + seq!['0'] + after ==> r is Disabled,
        none is Unknown,
{
    reveal_strlit("1");
    assert("1"@ =~= seq!['1']);
    lemma_trim(before, seq!['1'], after);
    lemma_trim(before, seq!['0'], after);
    assert(seq!['1'][0] != seq!['0'][0]);
}

/// A ruleset drops what is forwarded exactly where a line of it says both that it
/// is about forwarding and that its policy is to drop.
pub proof fn lemma_forward_policy(ruleset: &str, r: ForwardPolicy, i: int)
    requires
        call_ensures(parse_forward_policy, (ruleset,), r),
    ensures
        r is Drop || r is Accept,
        r is Drop <==> exists|k: int|
            0 <= k < crate::text::lines(ruleset@).len() && contains_text(
                crate::text::trim(#[trigger] crate::text::lines(ruleset@)[k]),
                "hook forward"@,
            ) && contains_text(
                crate::text::trim(crate::text::lines(ruleset@)[k]),
                "policy drop"@,
            ),
{
    let all = crate::text::lines(ruleset@);
    if exists|k: int|
        0 <= k < all.len() && contains_text(
            crate::text::trim(#[trigger] all[k]),
            "hook forward"@,
        ) && contains_text(crate::text::trim(all[k]), "policy drop"@) {
        let k = choose|k: int|
            0 <= k < all.len() && contains_text(
                crate::text::trim(#[trigger] all[k]),
                "hook forward"@,
            ) && contains_text(crate::text::trim(all[k]), "policy drop"@);
        assert(crate::host_requirements::blocks(all[k]));
    }
}

/// The network report holds what was found, each under its own name.
pub proof fn lemma_egress_report(
    nft_path: Option<String>,
    dnsmasq_path: Option<String>,
    ip_forward: Option<&str>,
    ruleset: Option<&str>,
    r: NetworkEgress,
    forward: SysctlState,
    rules: &str,
    policy: ForwardPolicy,
)
    requires
        call_ensures(detect_network_egress, (nft_path, dnsmasq_path, ip_forward, ruleset), r),
        call_ensures(read_bool_sysctl, (ip_forward,), forward),
        ruleset is Some ==> ruleset->0@ == rules@,
        call_ensures(parse_forward_policy, (rules,), policy),
    ensures
        r.nft_path == nft_path,
        r.dnsmasq_path == dnsmasq_path,
        r.ip_forward == forward,
        ruleset is Some ==> r.forward_policy == policy,
        ruleset is None ==> r.forward_policy is Unknown,
{
}

/// Is `h` the number of hundredths of the unit that is nearest to `n`?
pub open spec fn is_nearest(h: nat, n: nat, unit: nat) -> bool {
    -unit <= 2 * (h * unit - 100 * n) <= unit
}

/// Is `s` the number `h` of hundredths, written with a point?
pub open spec fn is_hundredths(s: Seq<char>, h: nat) -> bool {
    exists|d: Seq<char>|
        d.len() == 2 && (h % 100 >= 10 ==> d == decimal(h % 100)) && (h % 100 < 10 ==> d == seq!['0']
            + decimal(h % 100)) && s == #[trigger] (decimal(h / 100) + seq!['.'] + d)
}

proof fn lemma_two_digits(n: nat)
    requires
        n < 100,
    ensures
        n < 10 ==> decimal(n).len() == 1,
        n >= 10 ==> decimal(n).len() == 2,
        n < 10 ==> pad_left(decimal(n), 2, '0') == seq!['0'] + decimal(n),
        n >= 10 ==> pad_left(decimal(n), 2, '0') == decimal(n),
{
    reveal_with_fuel(crate::number::in_base, 3);
    if n < 10 {
        assert(pad_left(decimal(n), 2, '0') =~= seq!['0'] + decimal(n));
    }
}

proof fn lemma_hundredths(n: nat)
    ensures
        is_hundredths(crate::metrics::hundredths(n), n),
{
    let d = pad_left(decimal(n % 100), 2, '0');
    lemma_two_digits(n % 100);
    reveal_strlit(".");
    assert("."@ =~= seq!['.']);
    assert(crate::metrics::hundredths(n) == decimal(n / 100) + seq!['.'] + d);
}

/// A number of bytes is written in full where it is under a thousand and
/// twenty-four, and otherwise to the nearest hundredth of the largest unit that
/// fits.
pub proof fn lemma_human_bytes(bytes: i64, r: String)
    requires
        call_ensures(human_bytes, (bytes,), r),
        bytes < 9_007_199_254_740_992,
    ensures
        bytes < 0 ==> r@ == decimal(0) + " B"@,
        0 <= bytes < 1024 ==> r@ == decimal(bytes as nat) + " B"@,
        1024 <= bytes < 1_048_576 ==> exists|s: Seq<char>, h: nat|
            r@ == s + " Ki"@ && is_nearest(h, bytes as nat, 1024) && #[trigger] is_hundredths(s, h),
        1_048_576 <= bytes < 1_073_741_824 ==> exists|s: Seq<char>, h: nat|
            r@ == s + " Mi"@ && is_nearest(h, bytes as nat, 1_048_576) && #[trigger] is_hundredths(
                s,
                h,
            ),
        bytes >= 1_073_741_824 ==> exists|s: Seq<char>, h: nat|
            r@ == s + " Gi"@ && is_nearest(h, bytes as nat, 1_073_741_824)
                && #[trigger] is_hundredths(s, h),
{
    let n: nat = if bytes < 0 {
        0
    } else {
        bytes as nat
    };
    assert(float_unit(n) == 1);
    assert(crate::metrics::divided_even(n, 1) == n);
    let one = float_unit(n);
    assert(n * one == n) by (nonlinear_arith)
        requires
            one == 1,
    ;
    assert(crate::metrics::as_float(n) == n);
    let unit: nat = if n >= 1_073_741_824 {
        1_073_741_824
    } else if n >= 1_048_576 {
        1_048_576
    } else {
        1024
    };
    let h = crate::metrics::divided_even(n * 100, unit);
    lemma_hundredths(h);
    assert(is_nearest(h, n, unit)) by {
        lemma_nearest(n, unit);
    }
    let s = crate::metrics::hundredths(h);
    assert(is_hundredths(s, h));
}

proof fn lemma_nearest(n: nat, unit: nat)
    requires
        unit == 1024 || unit == 1_048_576 || unit == 1_073_741_824,
    ensures
        is_nearest(crate::metrics::divided_even(n * 100, unit), n, unit),
{
    let a = n * 100;
    if unit == 1024 {
        assert(a == 1024 * (a / 1024) + a % 1024);
    } else if unit == 1_048_576 {
        assert(a == 1_048_576 * (a / 1_048_576) + a % 1_048_576);
    } else {
        assert(a == 1_073_741_824 * (a / 1_073_741_824) + a % 1_073_741_824);
    }
}

proof fn lemma_padded(s: Seq<char>, width: nat, fill: char)
    ensures
        exists|a: Seq<char>| #[trigger] (a + s) == pad_left(s, width, fill),
        exists|b: Seq<char>| #[trigger] (s + b) == pad_right(s, width),
{
    if s.len() >= width {
        assert(Seq::<char>::empty() + s =~= s);
        assert(s + Seq::<char>::empty() =~= s);
    } else {
        let a = Seq::new((width - s.len()) as nat, |i: int| fill);
        assert(a + s == pad_left(s, width, fill));
        let b = Seq::new((width - s.len()) as nat, |i: int| ' ');
        assert(s + b == pad_right(s, width));
    }
}

/// A text that is padded to a width keeps its place at the other side, has that
/// width where it was shorter, and is filled up with the one character.
pub proof fn lemma_padding(s: Seq<char>, width: nat, fill: char, i: int)
    ensures
        pad_left(s, width, fill).len() == (if s.len() < width {
            width
        } else {
            s.len()
        }),
        pad_right(s, width).len() == pad_left(s, width, fill).len(),
        0 <= i < s.len() ==> pad_right(s, width)[i] == s[i],
        0 <= i < s.len() ==> pad_left(s, width, fill)[pad_left(s, width, fill).len() - s.len() + i]
            == s[i],
        0 <= i < width - s.len() ==> pad_left(s, width, fill)[i] == fill,
        s.len() <= i < width ==> pad_right(s, width)[i] == ' ',
{
}

proof fn lemma_phase_lines(m: MetricsView, n: int, i: int)
    requires
        0 <= i < n <= keys_in_order(m.phases).len(),
    ensures
        contains_text(m.phase_lines(n), m.phase_line(keys_in_order(m.phases)[i])),
    decreases n,
{
    let last = m.phase_line(keys_in_order(m.phases)[n - 1]);
    let before = m.phase_lines(n - 1);
    if i == n - 1 {
        lemma_occurs(before, last, Seq::empty());
        assert(before + last + Seq::<char>::empty() =~= m.phase_lines(n));
    } else {
        lemma_phase_lines(m, n - 1, i);
        lemma_occurs_within(
            Seq::empty(),
            before,
            last,
            m.phase_line(keys_in_order(m.phases)[i]),
        );
        assert(Seq::<char>::empty() + before + last =~= m.phase_lines(n));
    }
}

proof fn lemma_occurs_twice(s: Seq<char>, t: Seq<char>, u: Seq<char>)
    requires
        contains_text(s, t),
        contains_text(t, u),
    ensures
        contains_text(s, u),
{
    let i = choose|i: int| #[trigger] crate::text::occurs_at(s, t, i);
    let j = choose|j: int| #[trigger] crate::text::occurs_at(t, u, j);
    assert(s.subrange(i + j, i + j + u.len()) =~= u) by {
        assert forall|k: int| 0 <= k < u.len() implies s[i + j + k] == u[k] by {
            assert(t.subrange(j, j + u.len())[k] == u[k]);
            assert(s.subrange(i, i + t.len())[j + k] == t[j + k]);
        }
    }
    assert(crate::text::occurs_at(s, u, i + j));
}

#[verifier::rlimit(40)]
proof fn lemma_phase_line(m: MetricsView, phase: Seq<char>)
    ensures
        contains_text(m.phase_line(phase), phase),
        contains_text(m.phase_line(phase), decimal(m.phases[phase] as nat) + " ms"@),
        m.counts.dom().contains(phase) && m.counts[phase] > 1 ==> contains_text(
            m.phase_line(phase),
            decimal(m.counts[phase] as nat) + "× total"@,
        ),
{
    let ms = decimal(m.phases[phase] as nat);
    let times = crate::metrics::times_text(m.times(phase));
    lemma_padded(phase, 30, ' ');
    lemma_padded(ms, 6, ' ');
    let b = choose|b: Seq<char>| #[trigger] (phase + b) == pad_right(phase, 30);
    let a = choose|a: Seq<char>| #[trigger] (a + ms) == pad_left(ms, 6, ' ');
    let whole = m.phase_line(phase);
    let rest = b + " "@ + pad_left(ms, 6, ' ') + " ms"@ + times + "\n"@;
    lemma_occurs(Seq::empty(), phase, rest);
    assert(Seq::<char>::empty() + phase + rest =~= whole);
    let head = pad_right(phase, 30) + " "@ + a;
    lemma_occurs(head, ms + " ms"@, times + "\n"@);
    assert(head + (ms + " ms"@) + (times + "\n"@) =~= whole);
    if m.counts.dom().contains(phase) && m.counts[phase] > 1 {
        let n = decimal(m.counts[phase] as nat);
        let front = pad_right(phase, 30) + " "@ + pad_left(ms, 6, ' ') + " ms"@ + "  ("@;
        reveal_strlit("× total, last)");
        reveal_strlit("× total");
        reveal_strlit(", last)");
        assert("× total, last)"@ =~= "× total"@ + ", last)"@);
        lemma_occurs(front, n + "× total"@, ", last)"@ + "\n"@);
        assert(front + (n + "× total"@) + (", last)"@ + "\n"@) =~= whole);
    }
}

/// The summary of a build names every phase with its time, and how often a phase
/// ran where it ran more than once.
#[verifier::rlimit(40)]
pub proof fn lemma_summary_phases(metrics: &BuildMetrics, r: String, phase: Seq<char>)
    requires
        call_ensures(BuildMetrics::render_text, (metrics,), r),
        metrics.phases_ms@.dom().finite(),
        metrics.phases_ms@.dom().contains(phase),
    ensures
        contains_text(r@, phase),
        contains_text(r@, decimal(metrics.phases_ms@[phase] as nat) + " ms"@),
        metrics.phase_counts@.dom().contains(phase) && metrics.phase_counts@[phase] > 1
            ==> contains_text(r@, decimal(metrics.phase_counts@[phase] as nat) + "× total"@),
{
    let m = metrics@;
    lemma_keys_listed(m.phases);
    let keys = keys_in_order(m.phases);
    assert(keys.contains(phase));
    let i = keys.index_of(phase);
    assert(keys[i] == phase);
    lemma_phase_lines(m, keys.len() as int, i);
    lemma_phase_line(m, phase);
    let all = m.phase_lines(keys.len() as int);
    let head = "Build summary\n"@ + crate::metrics::RULE@;
    let tail = m.image_text() + m.push_text() + crate::metrics::RULE@ + ("total: "@ + decimal(
        m.total_ms as nat,
    ) + " ms\n"@);
    lemma_occurs_within(head, all, tail, m.phase_line(phase));
    assert(head + all + tail =~= r@);
    lemma_occurs_twice(r@, m.phase_line(phase), phase);
    lemma_occurs_twice(r@, m.phase_line(phase), decimal(m.phases[phase] as nat) + " ms"@);
    if m.counts.dom().contains(phase) && m.counts[phase] > 1 {
        lemma_occurs_twice(
            r@,
            m.phase_line(phase),
            decimal(m.counts[phase] as nat) + "× total"@,
        );
    }
}

/// A phase has a line of the summary, with its name and its time in columns.
#[verifier::rlimit(40)]
pub proof fn lemma_summary_columns(
    metrics: &BuildMetrics,
    r: String,
    phase: &str,
    ms: &str,
    name_column: String,
    time_column: String,
)
    requires
        call_ensures(BuildMetrics::render_text, (metrics,), r),
        metrics.phases_ms@.dom().finite(),
        metrics.phases_ms@.dom().contains(phase@),
        ms@ == decimal(metrics.phases_ms@[phase@] as nat),
        call_ensures(padded_right, (phase, 30), name_column),
        call_ensures(padded_left, (ms, 6, ' '), time_column),
    ensures
        contains_text(r@, name_column@ + " "@ + time_column@ + " ms"@),
{
    let m = metrics@;
    lemma_keys_listed(m.phases);
    let keys = keys_in_order(m.phases);
    assert(keys.contains(phase@));
    let i = keys.index_of(phase@);
    assert(keys[i] == phase@);
    lemma_phase_lines(m, keys.len() as int, i);
    let all = m.phase_lines(keys.len() as int);
    let head = "Build summary\n"@ + crate::metrics::RULE@;
    let tail = m.image_text() + m.push_text() + crate::metrics::RULE@ + ("total: "@ + decimal(
        m.total_ms as nat,
    ) + " ms\n"@);
    let one = m.phase_line(phase@);
    lemma_occurs_within(head, all, tail, one);
    assert(head + all + tail =~= r@);
    let t = name_column@ + " "@ + time_column@ + " ms"@;
    let rest = crate::metrics::times_text(m.times(phase@)) + "\n"@;
    lemma_occurs(Seq::empty(), t, rest);
    assert(Seq::<char>::empty() + t + rest =~= one);
    lemma_occurs_twice(r@, one, t);
}

/// What is missing on a machine is told with how many there are, and how to get each.
#[verifier::rlimit(40)]
pub proof fn lemma_missing_told(e: &MissingRuntimeError, r: String, i: int, hint: String)
    requires
        call_ensures(MissingRuntimeError::message, (e,), r),
        0 <= i < e.missing@.len(),
        call_ensures(MissingRuntime::hint, (e.missing@[i],), hint),
    ensures
        contains_text(r@, hint@),
        contains_text(r@, decimal(e.missing@.len())),
{
    let n = e.missing@.len();
    let names = Seq::new(n, |k: int| e.missing@[k].name_text());
    let hints = Seq::new(
        n,
        |k: int| "  - "@ + e.missing@[k].name_text() + ": "@ + e.missing@[k].hint_text(),
    );
    let front = "host is missing "@ + decimal(n) + " required runtime(s): ["@ + join(names, ", "@)
        + "]\nhints:\n"@;
    let all = join(hints, "\n"@);
    let empty = Seq::<char>::empty();
    lemma_join_occurs(hints, "\n"@, i);
    lemma_occurs("  - "@ + e.missing@[i].name_text() + ": "@, hint@, empty);
    assert("  - "@ + e.missing@[i].name_text() + ": "@ + hint@ + empty =~= hints[i]);
    lemma_occurs_twice(all, hints[i], hint@);
    lemma_occurs_within(front, all, empty, hint@);
    assert(front + all + empty =~= r@);
    let rest = " required runtime(s): ["@ + join(names, ", "@) + "]\nhints:\n"@ + all;
    lemma_occurs("host is missing "@, decimal(n), rest);
    assert("host is missing "@ + decimal(n) + rest =~= r@);
}

/// The summary of a build ends with its total time, and tells of the image and of
/// what was pushed where there is such.
#[verifier::rlimit(40)]
pub proof fn lemma_summary_totals(
    metrics: &BuildMetrics,
    r: String,
    layer_bytes: i64,
    size: String,
    pushed_bytes: i64,
    pushed: String,
)
    requires
        call_ensures(BuildMetrics::render_text, (metrics,), r),
        call_ensures(human_bytes, (layer_bytes,), size),
        call_ensures(human_bytes, (pushed_bytes,), pushed),
    ensures
        ("total: "@ + decimal(metrics.total_ms as nat) + " ms\n"@).is_suffix_of(r@),
        metrics.layer_count is Some && metrics.total_layer_bytes == Some(layer_bytes)
            ==> contains_text(
            r@,
            "image: "@ + decimal(metrics.layer_count->0 as nat) + " layer(s), "@ + size@
                + " compressed bytes\n"@,
        ),
        metrics.pushed_bytes == Some(pushed_bytes) ==> contains_text(
            r@,
            "push: "@ + pushed@ + " pushed\n"@,
        ),
{
    let m = metrics@;
    let head = "Build summary\n"@ + crate::metrics::RULE@ + m.phase_lines(
        keys_in_order(m.phases).len() as int,
    );
    let total = "total: "@ + decimal(m.total_ms as nat) + " ms\n"@;
    let before = head + m.image_text() + m.push_text() + crate::metrics::RULE@;
    assert(r@ =~= before + total);
    assert(total.is_suffix_of(r@)) by {
        assert(r@.skip(before.len() as int) =~= total);
    }
    if m.layer_count is Some && m.total_layer_bytes == Some(layer_bytes) {
        let t = "image: "@ + decimal(m.layer_count->0 as nat) + " layer(s), "@ + size@
            + " compressed bytes\n"@;
        let a = head + crate::metrics::RULE@;
        let b = m.push_text() + crate::metrics::RULE@ + total;
        lemma_occurs(a, t, b);
        assert(a + t + b =~= r@);
    }
    if m.pushed_bytes == Some(pushed_bytes) {
        let t = "push: "@ + pushed@ + " pushed\n"@;
        let a = head + m.image_text();
        let b = crate::metrics::RULE@ + total;
        lemma_occurs(a, t, b);
        assert(a + t + b =~= r@);
    }
}

/// A phase that ends is kept with its time; it has then run once more, and every
/// other phase is as it was.
pub proof fn lemma_phase_ends(
    m: MetricsView,
    name: Seq<char>,
    start: u128,
    now: u128,
    other: Seq<char>,
)
    requires
        m.counts.dom().contains(name) ==> m.counts[name] < u64::MAX,
    ensures
        ({
            let r = with_phase(m, name, elapsed(start, now));
            &&& r.phases.dom().contains(name)
            &&& now >= start ==> start + r.phases[name] == now
            &&& now < start ==> r.phases[name] == 0
            &&& r.counts.dom().contains(name)
            &&& m.counts.dom().contains(name) ==> r.counts[name] == m.counts[name] + 1
            &&& !m.counts.dom().contains(name) ==> r.counts[name] == 1
            &&& other != name ==> r.phases.dom().contains(other) == m.phases.dom().contains(other)
            &&& other != name && m.phases.dom().contains(other) ==> r.phases[other]
                == m.phases[other]
            &&& other != name ==> r.counts.dom().contains(other) == m.counts.dom().contains(other)
            &&& other != name && m.counts.dom().contains(other) ==> r.counts[other]
                == m.counts[other]
            &&& r.total_ms == m.total_ms && r.layer_count == m.layer_count && r.total_layer_bytes
                == m.total_layer_bytes && r.pushed_bytes == m.pushed_bytes
        }),
{
}

/// A build that ends has taken the time since it started, and keeps its phases.
pub proof fn lemma_build_timed(
    started: u128,
    b: MetricsBuilder,
    layer_count: usize,
    total_layer_bytes: i64,
    pushed_bytes: Option<i64>,
    now: u128,
    r: BuildMetrics,
    q: BuildMetrics,
)
    requires
        call_ensures(BuildMetrics::start, (started,), b),
        call_ensures(
            MetricsBuilder::finish_with_image,
            (b, layer_count, total_layer_bytes, pushed_bytes, now),
            r,
        ),
        call_ensures(MetricsBuilder::finish, (b, now), q),
    ensures
        now >= started ==> started + r.total_ms == now,
        now < started ==> r.total_ms == 0,
        q.total_ms == r.total_ms,
        r.layer_count == Some(layer_count),
        r.total_layer_bytes == Some(total_layer_bytes),
        r.pushed_bytes == pushed_bytes,
        r.phases_ms@ == b.metrics.phases_ms@,
        q.layer_count == b.metrics.layer_count,
{
    assert(r@.total_ms == r.total_ms);
    assert(q@.total_ms == q.total_ms);
}

proof fn lemma_count_listed(runs: Seq<BuildMetrics>, i: int)
    requires
        0 <= i < runs.len(),
    ensures
        runs[i].layer_count is Some ==> layer_counts(runs).contains(
            runs[i].layer_count->0 as int,
        ),
        runs[i].total_layer_bytes is Some ==> layer_bytes(runs).contains(
            runs[i].total_layer_bytes->0 as int,
        ),
    decreases runs.len(),
{
    let front = runs.drop_last();
    if i < runs.len() - 1 {
        lemma_count_listed(front, i);
        assert(front[i] == runs[i]);
        if runs[i].layer_count is Some {
            let x = runs[i].layer_count->0 as int;
            let k = layer_counts(front).index_of(x);
            assert(layer_counts(front)[k] == x);
            assert(layer_counts(runs)[k] == x);
        }
        if runs[i].total_layer_bytes is Some {
            let x = runs[i].total_layer_bytes->0 as int;
            let k = layer_bytes(front).index_of(x);
            assert(layer_bytes(front)[k] == x);
            assert(layer_bytes(runs)[k] == x);
        }
    } else {
        if runs[i].layer_count is Some {
            assert(layer_counts(runs).last() == runs[i].layer_count->0 as int);
            assert(layer_counts(runs)[layer_counts(runs).len() - 1] == runs[i].layer_count->0 as int);
        }
        if runs[i].total_layer_bytes is Some {
            assert(layer_bytes(runs)[layer_bytes(runs).len() - 1]
                == runs[i].total_layer_bytes->0 as int);
        }
    }
}

/// A bench report has every warm run within its ranges, and a summary exactly where
/// there was a warm run.
pub proof fn lemma_bench_ranges(
    recipe: String,
    warmup: usize,
    cold_run: Option<BuildMetrics>,
    warm_runs: Vec<BuildMetrics>,
    averages: Averages,
    r: BenchReport,
    i: int,
)
    requires
        call_ensures(BenchReport::aggregate, (recipe, warmup, cold_run, warm_runs, averages), r),
        0 <= i < warm_runs@.len(),
    ensures
        r.recipe == recipe,
        r.runs == warm_runs@.len(),
        r.warmup == warmup,
        r.cold_run == cold_run,
        r.warm_summary matches Some(s) && s.n == warm_runs@.len() && s.total_ms.averages == averages
            && s.total_ms.min <= warm_runs@[i].total_ms <= s.total_ms.max && (
        warm_runs@[i].layer_count is Some ==> s.layer_count_range.0
            <= warm_runs@[i].layer_count->0 <= s.layer_count_range.1) && (
        warm_runs@[i].total_layer_bytes is Some ==> s.total_layer_bytes_range.0
            <= warm_runs@[i].total_layer_bytes->0 <= s.total_layer_bytes_range.1) && (exists|
            k: int,
        |
            0 <= k < warm_runs@.len() && (#[trigger] warm_runs@[k]).total_ms == s.total_ms.min)
            && (exists|k: int|
            0 <= k < warm_runs@.len() && (#[trigger] warm_runs@[k]).total_ms == s.total_ms.max),
{
    lemma_count_listed(warm_runs@, i);
    let s = r.warm_summary->0;
    let all = Seq::new(warm_runs@.len(), |j: int| totals(warm_runs@)[j] as int);
    assert(all[i] == warm_runs@[i].total_ms);
    let a = all.index_of(s.total_ms.min as int);
    assert(all[a] == s.total_ms.min);
    assert(warm_runs@[a].total_ms == s.total_ms.min);
    let b = all.index_of(s.total_ms.max as int);
    assert(all[b] == s.total_ms.max);
    assert(warm_runs@[b].total_ms == s.total_ms.max);
    if warm_runs@[i].layer_count is Some {
        let k = layer_counts(warm_runs@).index_of(warm_runs@[i].layer_count->0 as int);
        assert(layer_counts(warm_runs@)[k] == warm_runs@[i].layer_count->0);
    }
    if warm_runs@[i].total_layer_bytes is Some {
        let k = layer_bytes(warm_runs@).index_of(warm_runs@[i].total_layer_bytes->0 as int);
        assert(layer_bytes(warm_runs@)[k] == warm_runs@[i].total_layer_bytes->0);
    }
}

/// The times of the runs are put in order, and none is left out.
pub proof fn lemma_times_sorted(runs: &Vec<BuildMetrics>, r: Vec<u128>, i: int, j: int)
    requires
        call_ensures(sorted_totals, (runs,), r),
    ensures
        r@.len() == runs@.len(),
        0 <= i < j < r@.len() ==> r@[i] <= r@[j],
        0 <= i < runs@.len() ==> r@.contains(runs@[i].total_ms),
{
    broadcast use vstd::seq_lib::group_to_multiset_ensures;

    if 0 <= i < runs@.len() {
        let all = totals(runs@);
        assert(all[i] == runs@[i].total_ms);
        assert(all.contains(all[i]));
        assert(all.to_multiset().count(all[i]) > 0);
        assert(r@.to_multiset().count(all[i]) > 0);
    }
}

/// A bench report is headed by the recipe and the number of runs.
#[verifier::rlimit(40)]
pub proof fn lemma_bench_head(report: &BenchReport, r: String)
    requires
        call_ensures(BenchReport::render_text, (report,), r),
    ensures
        contains_text(r@, report.recipe@),
        contains_text(r@, "cold + "@ + decimal(report.runs as nat) + " warm"@),
{
    let a = "Bench report — "@;
    let b = report.recipe@;
    let d = decimal(report.runs as nat);
    let w = if report.warmup > 0 {
        " (with "@ + decimal(report.warmup as nat) + " warmup)"@
    } else {
        Seq::empty()
    };
    let cold = crate::bench::cold_text(report.cold_run);
    let warm = warm_text(*report);
    lemma_split_head();
    let first = a + b + "\n"@;
    let second = "  runs: cold + "@ + d + " warm"@ + w + "\n"@;
    let head = first + second;
    assert(r@ == head + cold + warm);
    assert(contains_text(first, b)) by {
        lemma_occurs(a, b, "\n"@);
    }
    let t = "cold + "@ + d + " warm"@;
    assert(contains_text(second, t)) by {
        lemma_occurs("  runs: "@, t, w + "\n"@);
        assert("  runs: "@ + t + (w + "\n"@) =~= second);
    }
    assert(contains_text(head, b)) by {
        lemma_occurs_within(Seq::empty(), first, second, b);
        assert(Seq::<char>::empty() + first + second =~= head);
    }
    assert(contains_text(head, t)) by {
        lemma_occurs_within(first, second, Seq::empty(), t);
        assert(first + second + Seq::<char>::empty() =~= head);
    }
    let tail = cold + warm;
    assert(Seq::<char>::empty() + head + tail =~= r@);
    lemma_occurs_within(Seq::empty(), head, tail, b);
    lemma_occurs_within(Seq::empty(), head, tail, t);
}

spec fn warm_text(report: BenchReport) -> Seq<char> {
    match report.warm_summary {
        Some(s) => crate::metrics::RULE@ + (s.times_text() + s.warnings()),
        None => Seq::empty(),
    }
}

proof fn lemma_split_head()
    ensures
        "  runs: cold + "@ == "  runs: "@ + "cold + "@,
{
    reveal_strlit("  runs: cold + ");
    reveal_strlit("  runs: ");
    reveal_strlit("cold + ");
    assert("  runs: cold + "@ =~= "  runs: "@ + "cold + "@);
}

/// A bench report tells the times of the warm runs, and that of the cold one.
pub proof fn lemma_bench_told(report: &BenchReport, r: String)
    requires
        call_ensures(BenchReport::render_text, (report,), r),
    ensures
        report.warm_summary matches Some(s) ==> contains_text(r@, told(s)),
        report.cold_run matches Some(c) ==> contains_text(
            r@,
            decimal(c.total_ms as nat) + " ms"@,
        ),
{
    let head = report.head_text();
    let cold = crate::bench::cold_text(report.cold_run);
    let warm = warm_text(*report);
    assert(r@ == head + cold + warm);
    if let Some(s) = report.warm_summary {
        lemma_bench_times(s);
        let a = head + cold + crate::metrics::RULE@;
        let t = s.times_text();
        let w = s.warnings();
        let u = told(s);
        lemma_occurs_within(a, t, w, u);
        assert(a + t + w =~= r@);
    }
    if let Some(c) = report.cold_run {
        lemma_cold_text(c);
        lemma_occurs_within(head, cold, warm, decimal(c.total_ms as nat) + " ms"@);
    }
}

/// A bench report warns where warm runs differ in their layers, with the range.
#[verifier::rlimit(40)]
pub proof fn lemma_bench_warns(report: &BenchReport, r: String, low: String, high: String)
    requires
        call_ensures(BenchReport::render_text, (report,), r),
        report.warm_summary is Some,
        call_ensures(human_bytes, (report.warm_summary->0.total_layer_bytes_range.0,), low),
        call_ensures(human_bytes, (report.warm_summary->0.total_layer_bytes_range.1,), high),
    ensures
        ({
            let s = report.warm_summary->0;
            &&& s.layer_count_range.0 != s.layer_count_range.1 ==> contains_text(
                r@,
                decimal(s.layer_count_range.0 as nat) + " .. "@ + decimal(
                    s.layer_count_range.1 as nat,
                ),
            )
            &&& s.total_layer_bytes_range.0 != s.total_layer_bytes_range.1 ==> contains_text(
                r@,
                low@ + " .. "@ + high@,
            )
            &&& s.layer_count_range.0 == s.layer_count_range.1 && s.total_layer_bytes_range.0
                == s.total_layer_bytes_range.1 ==> told(s).is_suffix_of(r@)
        }),
{
    let s = report.warm_summary->0;
    let front = report.head_text() + crate::bench::cold_text(report.cold_run)
        + crate::metrics::RULE@;
    let times = s.times_text();
    let w = s.warnings();
    assert(front + times + w =~= r@);
    let one = "  ⚠ layer count varied across warm runs: "@;
    let two = "  ⚠ total layer bytes varied across warm runs: "@;
    let t1 = decimal(s.layer_count_range.0 as nat) + " .. "@ + decimal(
        s.layer_count_range.1 as nat,
    );
    let t2 = low@ + " .. "@ + high@;
    let e = Seq::<char>::empty();
    let w2 = if s.total_layer_bytes_range.0 != s.total_layer_bytes_range.1 {
        two + low@ + " .. "@ + high@ + "\n"@
    } else {
        e
    };
    let w1 = if s.layer_count_range.0 != s.layer_count_range.1 {
        one + decimal(s.layer_count_range.0 as nat) + " .. "@ + decimal(
            s.layer_count_range.1 as nat,
        ) + "\n"@
    } else {
        e
    };
    assert(w == w1 + w2);
    if s.layer_count_range.0 != s.layer_count_range.1 {
        let rest = "\n"@ + w2;
        lemma_occurs(one, t1, rest);
        assert(one + t1 + rest =~= w);
        lemma_occurs_within(front + times, w, e, t1);
        assert(front + times + w + e =~= r@);
    }
    if s.total_layer_bytes_range.0 != s.total_layer_bytes_range.1 {
        lemma_occurs(w1 + two, t2, "\n"@);
        assert(w1 + two + t2 + "\n"@ =~= w);
        lemma_occurs_within(front + times, w, e, t2);
        assert(front + times + w + e =~= r@);
    }
    if s.layer_count_range.0 == s.layer_count_range.1 && s.total_layer_bytes_range.0
        == s.total_layer_bytes_range.1 {
        assert(w =~= e);
        lemma_times_told(s);
        let a = "warm ("@ + decimal(s.n as nat) + " runs): "@;
        assert(r@ =~= (front + a) + told(s));
        assert(r@.skip((front + a).len() as int) =~= told(s));
    }
}

/// The times of warm runs, in words.
pub open spec fn told(s: crate::bench::BenchSummary) -> Seq<char> {
    "median "@ + decimal(s.total_ms.averages.median as nat) + " ms  p99 "@ + decimal(
        s.total_ms.averages.p99 as nat,
    ) + " ms  min "@ + decimal(s.total_ms.min as nat) + "  max "@ + decimal(s.total_ms.max as nat)
        + "  mean "@ + s.total_ms.averages.mean@ + "\n"@
}

proof fn lemma_regroup(a: Seq<char>, b: Seq<char>, c: Seq<char>)
    ensures
        a + b + c == a + (b + c),
{
    assert(a + b + c =~= a + (b + c));
}

proof fn lemma_split_median()
    ensures
        " runs): median "@ == " runs): "@ + "median "@,
{
    reveal_strlit(" runs): median ");
    reveal_strlit(" runs): ");
    reveal_strlit("median ");
    assert(" runs): median "@ =~= " runs): "@ + "median "@);
}

proof fn lemma_bench_times(s: crate::bench::BenchSummary)
    ensures
        contains_text(s.times_text(), told(s)),
{
    lemma_times_told(s);
    let a = "warm ("@ + decimal(s.n as nat) + " runs): "@;
    let u = told(s);
    let whole = s.times_text();
    lemma_occurs(a, u, Seq::empty());
    assert(a + u + Seq::<char>::empty() =~= whole);
}

proof fn lemma_times_told(s: crate::bench::BenchSummary)
    ensures
        s.times_text() == "warm ("@ + decimal(s.n as nat) + " runs): "@ + told(s),
{
    lemma_split_median();
    let front = "warm ("@ + decimal(s.n as nat);
    let a = front + " runs): "@;
    let t0 = "median "@;
    lemma_regroup(front, " runs): "@, t0);
    let d1 = decimal(s.total_ms.averages.median as nat);
    let t1 = t0 + d1;
    lemma_regroup(a, t0, d1);
    let t2 = t1 + " ms  p99 "@;
    lemma_regroup(a, t1, " ms  p99 "@);
    let d2 = decimal(s.total_ms.averages.p99 as nat);
    let t3 = t2 + d2;
    lemma_regroup(a, t2, d2);
    let t4 = t3 + " ms  min "@;
    lemma_regroup(a, t3, " ms  min "@);
    let d3 = decimal(s.total_ms.min as nat);
    let t5 = t4 + d3;
    lemma_regroup(a, t4, d3);
    let t6 = t5 + "  max "@;
    lemma_regroup(a, t5, "  max "@);
    let d4 = decimal(s.total_ms.max as nat);
    let t7 = t6 + d4;
    lemma_regroup(a, t6, d4);
    let t8 = t7 + "  mean "@;
    lemma_regroup(a, t7, "  mean "@);
    let d5 = s.total_ms.averages.mean@;
    let t9 = t8 + d5;
    lemma_regroup(a, t8, d5);
    lemma_regroup(a, t9, "\n"@);
    let u = t9 + "\n"@;
    assert(s.times_text() == a + u);
}

proof fn lemma_cold_text(c: BuildMetrics)
    ensures
        contains_text(crate::bench::cold_text(Some(c)), decimal(c.total_ms as nat) + " ms"@),
{
    let ms = decimal(c.total_ms as nat);
    lemma_padded(ms, 7, ' ');
    let a = choose|a: Seq<char>| #[trigger] (a + ms) == pad_left(ms, 7, ' ');
    reveal_strlit(" ms   ");
    reveal_strlit(" ms");
    reveal_strlit("   ");
    assert(" ms   "@ =~= " ms"@ + "   "@);
    let whole = crate::bench::cold_text(Some(c));
    let head = crate::metrics::RULE@ + "cold: "@ + a;
    let n = (head + (ms + " ms"@)).len() as int;
    let tail = whole.skip(n);
    lemma_occurs(head, ms + " ms"@, tail);
    assert(head + (ms + " ms"@) + tail =~= whole);
}

/// How many days a month has.
pub open spec fn month_length(y: int, m: int) -> int {
    if m == 2 && y % 4 == 0 && (y % 100 != 0 || y % 400 == 0) {
        29
    } else if m == 2 {
        28
    } else if m == 4 || m == 6 || m == 9 || m == 11 {
        30
    } else {
        31
    }
}

/// Time zero is the first of January 1970, and the hours, minutes and seconds are
/// those of the day.
pub proof fn lemma_clock(secs: i64, r: (i32, u32, u32, u32, u32, u32))
    requires
        call_ensures(civil_from_epoch, (secs,), r),
    ensures
        0 <= secs < 86_400 ==> r.0 == 1970 && r.1 == 1 && r.2 == 1,
        r.3 < 24 && r.4 < 60 && r.5 < 60,
        (secs - (r.3 * 3600 + r.4 * 60 + r.5)) % 86_400 == 0,
        1 <= r.1 <= 12,
        1 <= r.2 <= 31,
{
    let days = secs as int / 86_400;
    let date = date_of(days);
    if 0 <= secs < 86_400 {
        let zero = Date { year: 1970, month: 1, day: 1 };
        assert(zero.valid());
        assert(zero.day_number() == 0);
        lemma_date_unique(date, zero);
    }
}

/// One day later the date is the next one: the day after it in the month, the first
/// of the next month, or the first of January of the next year.
pub proof fn lemma_next_day(
    secs: i64,
    later: i64,
    r: (i32, u32, u32, u32, u32, u32),
    s: (i32, u32, u32, u32, u32, u32),
)
    requires
        call_ensures(civil_from_epoch, (secs,), r),
        call_ensures(civil_from_epoch, (later,), s),
        later == secs + 86_400,
        -60_000_000_000_000_000 <= secs <= 60_000_000_000_000_000,
    ensures
        ({
            let y = r.0 as int;
            let m = r.1 as int;
            let d = r.2 as int;
            &&& d <= month_length(y, m)
            &&& d < month_length(y, m) ==> s.0 == y && s.1 == m && s.2 == d + 1
            &&& d == month_length(y, m) && m < 12 ==> s.0 == y && s.1 == m + 1 && s.2 == 1
            &&& d == month_length(y, m) && m == 12 ==> s.0 == y + 1 && s.1 == 1 && s.2 == 1
            &&& s.3 == r.3 && s.4 == r.4 && s.5 == r.5
        }),
{
    let days = secs as int / 86_400;
    let date = date_of(days);
    lemma_year_length(date.year);
    lemma_year_bound(date);
    assert(later as int / 86_400 == days + 1);
    assert(later as int % 86_400 == secs as int % 86_400);
    let next = if date.day < days_in_month(date.year, date.month) {
        Date { day: date.day + 1, ..date }
    } else if date.month < 12 {
        Date { year: date.year, month: date.month + 1, day: 1 }
    } else {
        Date { year: date.year + 1, month: 1, day: 1 }
    };
    assert(date.month == 12 ==> days_before_month(date.year, 13) == days_before_month(
        date.year,
        12,
    ) + 31);
    assert(next.valid());
    assert(next.day_number() == days + 1);
    lemma_date_unique(next, date_of(days + 1));
}

proof fn lemma_year_bound(d: Date)
    requires
        d.valid(),
        -700_000_000_000 <= d.day_number() <= 700_000_000_000,
    ensures
        -2_147_483_648 < d.year < 2_147_483_647,
        0 <= days_before_month(d.year, d.month) <= 335,
{
    lemma_months_short(d.year, d.month);
}

proof fn lemma_months_short(y: int, m: int)
    requires
        1 <= m <= 12,
    ensures
        0 <= days_before_month(y, m) <= 335,
{
    reveal_with_fuel(days_before_month, 13);
}

/// The time of a build is the one that is asked for, whatever the clock says; where
/// none is asked for it is the clock's.
pub proof fn lemma_build_time(
    wanted: &str,
    clock: Option<i64>,
    r: String,
    free: String,
    n: nat,
    at: Option<i64>,
    q: String,
)
    requires
        wanted@ == decimal(n),
        n <= i64::MAX,
        at == Some(n as i64),
        call_ensures(now_rfc3339, (Some(wanted), clock), r),
        call_ensures(now_rfc3339, (None, at), q),
        call_ensures(now_rfc3339, (None, clock), free),
    ensures
        r@ == q@,
        clock == at ==> free@ == r@,
        clock is None ==> free@ == timestamp(0),
{
    lemma_decimal(n);
    assert('-' < '0');
    assert('+' < '0');
    assert(decimal(n)[0] >= '0');
}

/// Is `s` the number below a hundred, in two digits?
pub open spec fn in_two_digits(s: Seq<char>, n: int) -> bool {
    if n < 10 {
        s == seq!['0'] + decimal(n as nat)
    } else {
        s == decimal(n as nat)
    }
}

/// A time is written as year, month, day, hour, minute and second, each but the
/// year in two digits.
pub proof fn lemma_timestamp_text(
    secs: i64,
    c: (i32, u32, u32, u32, u32, u32),
    r: String,
    mo: Seq<char>,
    d: Seq<char>,
    h: Seq<char>,
    mi: Seq<char>,
    s: Seq<char>,
)
    requires
        call_ensures(civil_from_epoch, (secs,), c),
        call_ensures(now_rfc3339, (None, Some(secs)), r),
        1000 <= c.0,
        in_two_digits(mo, c.1 as int),
        in_two_digits(d, c.2 as int),
        in_two_digits(h, c.3 as int),
        in_two_digits(mi, c.4 as int),
        in_two_digits(s, c.5 as int),
    ensures
        r@ == decimal(c.0 as nat) + "-"@ + mo + "-"@ + d + "T"@ + h + ":"@ + mi + ":"@ + s + "Z"@,
{
    lemma_clock(secs, c);
    lemma_two_digits(c.1 as nat);
    lemma_two_digits(c.2 as nat);
    lemma_two_digits(c.3 as nat);
    lemma_two_digits(c.4 as nat);
    lemma_two_digits(c.5 as nat);
    lemma_four_digits(c.0 as nat);
    let a = decimal(c.0 as nat) + "-"@ + mo + "-"@ + d;
    lemma_flat(a, "T"@, h, ":"@, mi, s, "Z"@);
}

proof fn lemma_flat(
    a: Seq<char>,
    t: Seq<char>,
    h: Seq<char>,
    c: Seq<char>,
    m: Seq<char>,
    s: Seq<char>,
    z: Seq<char>,
)
    ensures
        a + (t + h + c + m) + (c + s + z) == a + t + h + c + m + c + s + z,
{
    lemma_regroup(a, t, h);
    lemma_regroup(a, t + h, c);
    lemma_regroup(a, t + h + c, m);
    let b = a + t + h + c + m;
    assert(a + (t + h + c + m) == b);
    lemma_regroup(b, c, s);
    lemma_regroup(b, c + s, z);
}

proof fn lemma_four_digits(n: nat)
    requires
        n >= 1000,
    ensures
        decimal(n).len() >= 4,
{
    reveal_with_fuel(crate::number::in_base, 4);
    lemma_nonempty(n / 10 / 10 / 10);
}

proof fn lemma_nonempty(n: nat)
    ensures
        decimal(n).len() > 0,
{
}

} // verus!
