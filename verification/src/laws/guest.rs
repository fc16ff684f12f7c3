//! The micro-VM of a `RUN`: what is staged for it, how it is set up, and how its
//! outcome is read.
use vstd::prelude::*;
use crate::architecture::Architecture;
use crate::kernel::KernelLayout;
use crate::number::{decimal, parse_signed, parse_unsigned};
use crate::path::{file_name, is_name, is_parent_step, lemma_split_concat, names};
use crate::text::{
    contains_text, join, lines, replace_char, split, trim, trim_end, trim_start, words,
};
use crate::text_map::{keys_in_order, text_values, TextMap};
use crate::vm_runner::{
    arch_from_qemu_path, default_run_cpus, default_run_memory_mib, default_run_timeout, env_body,
    env_lines, finish_run_step, memory_line, parse_meminfo_total_mib, plan_run_step, short_command,
    RunStepConfig, RunStepError, RunStepPlan, RunStepResult, VmEnd,
};
use super::aid::{
    lemma_decimal, lemma_join_split, lemma_keys_listed, lemma_split_at, lemma_split_whole,
    lemma_trim, lemma_word, lemma_words_at, lemma_words_behind,
};

verus! {

/// Is the line `key=value` for a variable of the environment?
pub open spec fn is_line_of(env: Map<Seq<char>, String>, line: Seq<char>) -> bool {
    exists|k: Seq<char>| #[trigger] env.dom().contains(k) && line == k + seq!['='] + env[k]@
}

/// Does the staged text give back the environment, read as lines `key=value`?
pub open spec fn gives_back(body: Seq<char>, env: Map<Seq<char>, String>) -> bool {
    &&& forall|k: Seq<char>| #[trigger]
        env.dom().contains(k) ==> split(body, '\n').contains(k + seq!['='] + env[k]@)
    &&& forall|i: int|
        0 <= i < split(body, '\n').len() ==> is_line_of(env, #[trigger] split(body, '\n')[i])
    &&& split(body, '\n').len() == env.dom().len()
}

proof fn lemma_gives_back(env: Map<Seq<char>, String>)
    requires
        env.dom().finite(),
        env != Map::<Seq<char>, String>::empty(),
        forall|k: Seq<char>| #[trigger]
            env.dom().contains(k) ==> !k.contains('\n') && !env[k]@.contains('\n'),
    ensures
        gives_back(join(env_lines(text_values(env)), "\n"@), env),
{
    reveal_strlit("=");
    reveal_strlit("\n");
    assert("\n"@ =~= seq!['\n']);
    assert("="@ =~= seq!['=']);
    let values = text_values(env);
    let keys = keys_in_order(values);
    let all = env_lines(values);
    assert(values.dom() =~= env.dom());
    lemma_keys_listed(values);
    assert forall|i: int| 0 <= i < all.len() implies !(#[trigger] all[i]).contains('\n') by {
        let k = keys[i];
        assert(keys.contains(k));
        assert(env.dom().contains(k));
        let s = all[i];
        assert(s == k + "="@ + env[k]@);
        if s.contains('\n') {
            let j = s.index_of('\n');
            assert(s[j] == '\n');
            if j < k.len() {
                assert(k.contains(k[j]));
            } else if j > k.len() {
                assert(env[k]@.contains(env[k]@[j - k.len() - 1]));
            }
        }
    }
    if all.len() == 0 {
        assert(env.dom() =~= Set::empty()) by {
            assert forall|k: Seq<char>| !env.dom().contains(k) by {
                assert(keys.contains(k) == values.dom().contains(k));
            }
        }
        assert(env =~= Map::empty());
    }
    lemma_join_split(all, '\n');
    assert forall|k: Seq<char>| #[trigger] env.dom().contains(k) implies all.contains(
        k + seq!['='] + env[k]@,
    ) by {
        assert(keys.contains(k));
        let i = keys.index_of(k);
        assert(keys[i] == k);
        assert(all[i] == k + "="@ + env[k]@);
    }
    assert forall|i: int| 0 <= i < all.len() implies is_line_of(env, #[trigger] all[i]) by {
        assert(keys.contains(keys[i]));
        assert(env.dom().contains(keys[i]));
    }
}

/// The staged environment gives back the environment: every variable stands in it
/// with its value, on a line of its own, and nothing else does. Without variables
/// nothing is staged.
#[verifier::rlimit(40)]
pub proof fn lemma_staged_environment(env: &TextMap<String>, r: Option<String>)
    requires
        call_ensures(env_body, (env,), r),
        env@.dom().finite(),
        forall|k: Seq<char>| #[trigger]
            env@.dom().contains(k) ==> !k.contains('\n') && !env@[k]@.contains('\n'),
    ensures
        r is None <==> env@.dom() =~= Set::<Seq<char>>::empty(),
        r matches Some(body) ==> gives_back(body@, env@),
{
    if env@.dom() =~= Set::<Seq<char>>::empty() {
        assert(env@ =~= Map::<Seq<char>, String>::empty());
    }
    if env@ != Map::<Seq<char>, String>::empty() {
        lemma_gives_back(env@);
    }
}

/// Lines that no key with `=` heads tell the variables apart: a line is that of
/// one variable only.
pub proof fn lemma_line_of_one(a: Seq<char>, v: Seq<char>, b: Seq<char>, w: Seq<char>)
    requires
        !a.contains('='),
        !b.contains('='),
        a + seq!['='] + v == b + seq!['='] + w,
    ensures
        a == b,
        v == w,
{
    super::aid::lemma_cut(a, v, b, w, '=');
}

/// The guest is handed the command and the environment of the step where its init
/// script looks for them, in the tree that is shared with it, and boots the kernel
/// of the image. Nothing is planned without the emulator.
pub proof fn lemma_guest_plan(
    staging: &str,
    kernel: &KernelLayout,
    config: &RunStepConfig,
    qemu_is_file: bool,
    host: Architecture,
    r: Result<RunStepPlan, RunStepError>,
)
    requires
        call_ensures(plan_run_step, (staging, kernel, config, qemu_is_file, host), r),
        staging@.len() > 0,
        staging@.last() != '/',
        config.env@.dom().finite(),
        forall|k: Seq<char>| #[trigger]
            config.env@.dom().contains(k) ==> !k.contains('\n') && !config.env@[k]@.contains('\n'),
    ensures
        r is Ok <==> qemu_is_file,
        r matches Ok(p) ==> {
            &&& p.command@ == config.command@
            &&& p.command_path@ == staging@ + "/.umf-cmd"@
            &&& p.env_path@ == staging@ + "/.umf-env"@
            &&& p.exit_path@ == staging@ + "/.umf-run-exit"@
            &&& p.share@ == staging@
            &&& p.mount_tag@ == "umfstage"@
            &&& p.kernel@ == kernel.vmlinuz@
            &&& p.memory_mib == config.memory_mib
            &&& p.cpus == config.cpus
            &&& p.kvm == config.kvm_available
            &&& p.architecture == Architecture::X86_64 ==> p.cmdline@
                == "console=ttyS0 quiet panic=1"@
            &&& p.architecture == Architecture::Aarch64 ==> p.cmdline@
                == "console=ttyAMA0 quiet panic=1"@
            &&& (p.env_body is None <==> config.env@.dom() =~= Set::<Seq<char>>::empty())
            &&& p.env_body matches Some(body) ==> gives_back(body@, config.env@)
        },
        r matches Err(e) ==> e is QemuMissing,
{
    reveal_strlit(".umf-cmd");
    reveal_strlit("/.umf-cmd");
    reveal_strlit(".umf-env");
    reveal_strlit("/.umf-env");
    reveal_strlit(".umf-run-exit");
    reveal_strlit("/.umf-run-exit");
    reveal_strlit("console=");
    reveal_strlit("ttyS0");
    reveal_strlit("ttyAMA0");
    reveal_strlit(" quiet panic=1");
    reveal_strlit("console=ttyS0 quiet panic=1");
    reveal_strlit("console=ttyAMA0 quiet panic=1");
    assert(staging@ + seq!['/'] + ".umf-cmd"@ =~= staging@ + "/.umf-cmd"@);
    assert(staging@ + seq!['/'] + ".umf-env"@ =~= staging@ + "/.umf-env"@);
    assert(staging@ + seq!['/'] + ".umf-run-exit"@ =~= staging@ + "/.umf-run-exit"@);
    assert("console="@ + "ttyS0"@ + " quiet panic=1"@ =~= "console=ttyS0 quiet panic=1"@);
    assert("console="@ + "ttyAMA0"@ + " quiet panic=1"@ =~= "console=ttyAMA0 quiet panic=1"@);
    if config.env@.dom() =~= Set::<Seq<char>>::empty() {
        assert(config.env@ =~= Map::<Seq<char>, String>::empty());
    }
    if config.env@ != Map::<Seq<char>, String>::empty() {
        lemma_gives_back(config.env@);
    }
}

proof fn lemma_file_name(dir: Seq<char>, name: Seq<char>)
    requires
        is_name(name),
        !name.contains('/'),
        !is_parent_step(name),
    ensures
        file_name(dir + seq!['/'] + name) == Some(name),
{
    let keep = |p: Seq<char>| is_name(p);
    lemma_split_concat(dir, name);
    crate::path::lemma_single_name(name);
    Seq::filter_distributes_over_add(split(dir, '/'), split(name, '/'), keep);
    assert(names(dir + seq!['/'] + name) =~= names(dir) + seq![name]);
}

/// The guest is of the architecture that the name of the emulator says, else of
/// the host's.
pub proof fn lemma_emulated_architecture(
    path: &str,
    host: Architecture,
    r: Architecture,
    dir: Seq<char>,
    name: Seq<char>,
)
    requires
        call_ensures(arch_from_qemu_path, (path, host), r),
        path@ == dir + seq!['/'] + name,
        name.len() > 0,
        !name.contains('/'),
        name != seq!['.'],
        name != seq!['.', '.'],
    ensures
        contains_text(name, "aarch64"@) ==> r == Architecture::Aarch64,
        contains_text(name, "arm64"@) ==> r == Architecture::Aarch64,
        contains_text(name, "x86_64"@) && !contains_text(name, "aarch64"@) && !contains_text(
            name,
            "arm64"@,
        ) ==> r == Architecture::X86_64,
        !contains_text(name, "aarch64"@) && !contains_text(name, "arm64"@) && !contains_text(
            name,
            "x86_64"@,
        ) && !contains_text(name, "amd64"@) ==> r == host,
{
    lemma_file_name(dir, name);
}

/// A variable with a positive number says how many CPUs the guest has; else it
/// has those of the host, and two where that is not known.
pub proof fn lemma_guest_cpus(var: &Option<String>, parallelism: Option<usize>, r: u32, n: nat)
    requires
        call_ensures(default_run_cpus, (var, parallelism), r),
    ensures
        *var matches Some(v) && v@ == decimal(n) && 0 < n <= u32::MAX ==> r == n,
        *var is None && parallelism is None ==> r == 2,
        *var is None && (parallelism matches Some(p) && 0 < p <= u32::MAX) ==> Some(r as usize)
            == parallelism,
        *var is None && parallelism == Some(0usize) ==> r == 1,
        r >= 1,
{
    lemma_plain_number(n);
    if let Some(v) = *var {
        if v@ == decimal(n) && 0 < n <= u32::MAX {
            assert(parse_unsigned(trim(v@), u32::MAX as nat) == Some(n));
        }
    }
}

proof fn lemma_plain_number(n: nat)
    ensures
        trim(decimal(n)) == decimal(n),
        forall|max: nat| n <= max ==> #[trigger] parse_unsigned(decimal(n), max) == Some(n),
{
    let d = decimal(n);
    let none = Seq::<char>::empty();
    lemma_decimal(n);
    assert('0' <= d[0] <= '9');
    assert('0' <= d[d.len() - 1] <= '9');
    assert(none + d + none =~= d);
    lemma_trim(none, d, none);
}

/// A variable with a positive number says how much memory the guest has, but
/// never less than 1024 MiB; else it has half the memory of the host, from 1024 to
/// 8192 MiB.
pub proof fn lemma_guest_memory(var: &Option<String>, host_mib: Option<u32>, r: u32, n: nat)
    requires
        call_ensures(default_run_memory_mib, (var, host_mib), r),
    ensures
        r >= 1024,
        *var matches Some(v) && v@ == decimal(n) && 1024 <= n <= u32::MAX ==> r == n,
        *var matches Some(v) && v@ == decimal(n) && 0 < n < 1024 ==> r == 1024,
        *var is None ==> r <= 8192,
        *var is None && host_mib is None ==> r == 1024,
        *var is None && (host_mib matches Some(m) && 2048 <= m <= 16384) ==> r == host_mib->0 / 2,
        *var is None && (host_mib matches Some(m) && 16384 < m) ==> r == 8192,
{
    lemma_plain_number(n);
    if let Some(v) = *var {
        if v@ == decimal(n) && 0 < n <= u32::MAX {
            assert(parse_unsigned(trim(v@), u32::MAX as nat) == Some(n));
        }
    }
}

/// A variable with a positive number says how many seconds the guest has; else it
/// has 300, and four times as many without hardware acceleration.
pub proof fn lemma_guest_timeout(var: &Option<String>, kvm_available: bool, r: u64, n: nat)
    requires
        call_ensures(default_run_timeout, (var, kvm_available), r),
    ensures
        *var matches Some(v) && v@ == decimal(n) && 0 < n <= u64::MAX ==> r == n,
        *var is None && kvm_available ==> r == 300,
        *var is None && !kvm_available ==> r == 1200,
{
    lemma_plain_number(n);
    if let Some(v) = *var {
        if v@ == decimal(n) && 0 < n <= u64::MAX {
            assert(parse_unsigned(trim(v@), u64::MAX as nat) == Some(n));
        }
    }
}

/// The memory of the host, in MiB, is read from the line `MemTotal:` of
/// `/proc/meminfo`, which has it in KiB.
pub proof fn lemma_host_memory(
    contents: &str,
    r: Option<u32>,
    blank: Seq<char>,
    kib: nat,
    after: Seq<char>,
)
    requires
        call_ensures(parse_meminfo_total_mib, (contents,), r),
        forall|i: int| 0 <= i < blank.len() ==> #[trigger] blank[i] == ' ',
        kib <= u64::MAX,
        contents@ == "MemTotal:"@ + blank + decimal(kib) + " kB\n"@ + after,
    ensures
        kib / 1024 <= u32::MAX ==> r == Some((kib / 1024) as u32),
        kib / 1024 > u32::MAX ==> r is None,
{
    reveal_strlit("MemTotal:");
    reveal_strlit(" kB\n");
    lemma_decimal(kib);
    let d = decimal(kib);
    let unit = seq!['k', 'B'];
    let line = "MemTotal:"@ + blank + d + seq![' '] + unit;
    assert(contents@ =~= line + seq!['\n'] + after);
    assert(!line.contains('\n')) by {
        if line.contains('\n') {
            let i = line.index_of('\n');
            assert(line[i] == '\n');
            let k = 9 + blank.len();
            if i < 9 {
                assert(line[i] == "MemTotal:"@[i]);
            } else if i < k {
                assert(line[i] == blank[i - 9]);
            } else if i < k + d.len() {
                assert(line[i] == d[i - k]);
            }
        }
    }
    lemma_split_at(line, after, '\n');
    lemma_split_whole(line, '\n');
    crate::text::lemma_split_nonempty(after, '\n');
    let parts = split(contents@, '\n');
    assert(parts[0] == line);
    assert(line.last() == 'B');
    let ls = lines(contents@);
    assert(ls[0] == line);
    assert("MemTotal:"@ =~= line.subrange(0, 9));
    assert("MemTotal:"@.is_prefix_of(ls[0]));
    assert(memory_line(ls, 0) == Some(0int));
    let rest = line.skip(9);
    let tail = d + seq![' '] + unit;
    assert(rest =~= blank + tail);
    lemma_words_behind(blank, tail);
    lemma_words_at(d, ' ', unit);
    assert forall|i: int| 0 <= i < d.len() implies !crate::text::is_space(#[trigger] d[i]) by {
        assert('0' <= d[i] <= '9');
    }
    lemma_word(d);
    assert(words(rest)[0] == d);
    assert('0' <= d[0] <= '9');
}

/// The exit code of a command is what the guest left of it, a number on a line:
/// the step has that exit code.
pub proof fn lemma_exit_code_read(
    timeout_secs: u64,
    marker: &str,
    serial: Option<String>,
    duration_ms: u128,
    r: Result<RunStepResult, RunStepError>,
    n: int,
)
    requires
        call_ensures(
            finish_run_step,
            (VmEnd::Exited(Some(0i32)), timeout_secs, Some(marker), serial, duration_ms),
            r,
        ),
        i32::MIN <= n <= i32::MAX,
        0 <= n ==> marker@ == decimal(n as nat) + seq!['\n'],
        n < 0 ==> marker@ == seq!['-'] + decimal((-n) as nat) + seq!['\n'],
    ensures
        r matches Ok(x) && x.exit_code == n && x.duration_ms == duration_ms && (serial is Some
            ==> x.serial_output@ == serial->0@),
{
    let none = Seq::<char>::empty();
    let end = seq!['\n'];
    let d = decimal(if n < 0 {
        (-n) as nat
    } else {
        n as nat
    });
    lemma_decimal(if n < 0 {
        (-n) as nat
    } else {
        n as nat
    });
    assert('0' <= d[0] <= '9');
    assert('0' <= d[d.len() - 1] <= '9');
    if n < 0 {
        let m = seq!['-'] + d;
        assert(none + m + end =~= marker@);
        assert(m.last() == d[d.len() - 1]);
        lemma_trim(none, m, end);
        assert(m.skip(1) =~= d);
        assert(parse_signed(m, i32::MIN as int, i32::MAX as int) == Some(n));
    } else {
        assert(none + d + end =~= marker@);
        lemma_trim(none, d, end);
        assert(parse_signed(d, i32::MIN as int, i32::MAX as int) == Some(n));
    }
}

/// A guest that ran out of time, one whose emulator failed and one that left no
/// exit code are failures, whatever else they left.
pub proof fn lemma_failed_guest(
    end: VmEnd,
    timeout_secs: u64,
    marker: Option<&str>,
    serial: Option<String>,
    duration_ms: u128,
    r: Result<RunStepResult, RunStepError>,
)
    requires
        call_ensures(finish_run_step, (end, timeout_secs, marker, serial, duration_ms), r),
    ensures
        end == VmEnd::TimedOut ==> (r matches Err(RunStepError::Timeout { timeout_secs: t }) && t
            == timeout_secs),
        end matches VmEnd::Exited(code) && code != Some(0i32) ==> (
        r matches Err(RunStepError::QemuAbnormalExit { code: c }) && end == VmEnd::Exited(c)),
        end == VmEnd::Exited(Some(0i32)) && marker is None ==> (
        r matches Err(RunStepError::GuestNeverFinished)),
        end == VmEnd::Exited(Some(0i32)) && (marker matches Some(m) && m@.len() == 0) ==> (
        r matches Err(RunStepError::MalformedExitCode(_))),
{
    if let Some(m) = marker {
        if m@.len() == 0 {
            assert(trim_start(m@) == m@);
            assert(trim_end(m@) == m@);
        }
    }
}

proof fn lemma_replaced_none(s: Seq<char>, c: char, with: Seq<char>)
    requires
        !with.contains(c),
    ensures
        !replace_char(s, c, with).contains(c),
        !s.contains(c) ==> replace_char(s, c, with) == s,
    decreases s.len(),
{
    if s.len() > 0 {
        lemma_replaced_none(s.drop_last(), c, with);
        let before = replace_char(s.drop_last(), c, with);
        let all = replace_char(s, c, with);
        if all.contains(c) {
            let i = all.index_of(c);
            assert(all[i] == c);
            if i < before.len() {
                assert(before.contains(before[i]));
            } else if s.last() == c {
                assert(with.contains(with[i - before.len()]));
            }
        }
        if !s.contains(c) {
            assert(s.contains(s.last()));
            assert(!s.drop_last().contains(c)) by {
                if s.drop_last().contains(c) {
                    let i = s.drop_last().index_of(c);
                    assert(s[i] == c);
                }
            }
            assert(all =~= s);
        }
    }
}

proof fn lemma_trimmed_part(s: Seq<char>)
    ensures
        forall|c: char| trim(s).contains(c) ==> #[trigger] s.contains(c),
    decreases s.len(),
{
    lemma_start_part(s);
    lemma_end_part(trim_start(s));
}

proof fn lemma_start_part(s: Seq<char>)
    ensures
        forall|c: char| trim_start(s).contains(c) ==> #[trigger] s.contains(c),
    decreases s.len(),
{
    if s.len() > 0 && crate::text::is_space(s[0]) {
        lemma_start_part(s.skip(1));
        assert forall|c: char| s.skip(1).contains(c) implies #[trigger] s.contains(c) by {
            let i = s.skip(1).index_of(c);
            assert(s[i + 1] == c);
        }
    }
}

proof fn lemma_end_part(s: Seq<char>)
    ensures
        forall|c: char| trim_end(s).contains(c) ==> #[trigger] s.contains(c),
    decreases s.len(),
{
    if s.len() > 0 && crate::text::is_space(s.last()) {
        lemma_end_part(s.drop_last());
        assert forall|c: char| s.drop_last().contains(c) implies #[trigger] s.contains(c) by {
            let i = s.drop_last().index_of(c);
            assert(s[i] == c);
        }
    }
}

/// What is logged of a command is one line, and the command itself where that is
/// a short line.
pub proof fn lemma_logged_command(cmd: &str, r: String)
    requires
        call_ensures(short_command, (cmd,), r),
    ensures
        !r@.contains('\n'),
        0 < cmd@.len() <= 64 && !cmd@.contains('\n') && !crate::text::is_space(cmd@[0])
            && !crate::text::is_space(cmd@.last()) ==> r@ == cmd@,
        64 < cmd@.len() && !cmd@.contains('\n') && !crate::text::is_space(cmd@[0])
            && !crate::text::is_space(cmd@.last()) ==> r@ == cmd@.take(64) + "..."@,
{
    reveal_strlit(" ");
    reveal_strlit("...");
    let flat = replace_char(cmd@, '\n', " "@);
    lemma_replaced_none(cmd@, '\n', " "@);
    lemma_trimmed_part(flat);
    let line = trim(flat);
    assert(!line.contains('\n')) by {
        assert(!flat.contains('\n'));
    }
    if r@.contains('\n') {
        let i = r@.index_of('\n');
        assert(r@[i] == '\n');
        if line.len() > 64 && i < 64 {
            assert(line[i] == '\n');
            assert(line.contains(line[i]));
        }
    }
    if 0 < cmd@.len() && !cmd@.contains('\n') && !crate::text::is_space(cmd@[0])
        && !crate::text::is_space(cmd@.last()) {
        let none = Seq::<char>::empty();
        assert(none + cmd@ + none =~= cmd@);
        lemma_trim(none, cmd@, none);
    }
}

} // verus!
