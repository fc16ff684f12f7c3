//! A `RUN` in a micro-VM: how the VM is set up, and what its end means.
//!
//! The command and its environment are left in the staging tree, which the
//! guest mounts. The guest runs the command in it, leaves the exit code there,
//! and powers off.
use vstd::prelude::*;
use crate::architecture::Architecture;
use crate::initrd::scripts::MOUNT_TAG_STAGING;
use crate::initrd::InitrdError;
use crate::kernel::KernelLayout;
use crate::number::{parse_signed, parse_unsigned, read_signed, read_unsigned};
use crate::path::{file_name, file_name_of, join_path, joined_path};
use crate::text::{
    chars_of, concat2, concat3, contains, contains_text, join, joined, lemma_texts_push, lines,
    lines_of, replace_char, replaced, strip_prefix, text_of, texts, trim, trimmed, words, words_of,
};
use crate::text_map::{keys_in_order, text_values, TextMap};

verus! {

/// What can go wrong with a `RUN` in a micro-VM.
#[derive(Debug)]
pub enum RunStepError {
    /// QEMU is not there.
    QemuMissing,
    /// QEMU ended with an error: the VM failed, not the command.
    QemuAbnormalExit {
        /// Its status; none where a signal ended it.
        code: Option<i32>,
    },
    /// The guest left no exit code.
    GuestNeverFinished,
    /// What the guest left is no exit code.
    MalformedExitCode(String),
    /// The initramfs could not be made.
    Initrd(InitrdError),
    /// The VM could not be started or waited for.
    Vmm(String),
    /// An I/O error.
    Io(std::io::Error),
    /// The time was up.
    Timeout {
        /// The time, in seconds.
        timeout_secs: u64,
    },
}

/// A `RUN` in a micro-VM.
#[derive(Debug)]
pub struct RunStepConfig {
    /// The command, for the guest's shell.
    pub command: String,
    /// The environment of the command.
    pub env: TextMap<String>,
    /// The QEMU binary.
    pub qemu_path: String,
    /// Is hardware acceleration available?
    pub kvm_available: bool,
    /// The guest's memory, in MiB.
    pub memory_mib: u32,
    /// The guest's CPUs.
    pub cpus: u32,
    /// The time for the VM, in seconds.
    pub timeout_secs: u64,
}

/// What the defaults for a VM go by.
#[derive(Debug)]
pub struct HostFacts {
    /// The variable `UMF_RUN_CPUS`.
    pub cpus_var: Option<String>,
    /// The variable `UMF_RUN_MEMORY_MIB`.
    pub memory_var: Option<String>,
    /// The variable `UMF_RUN_TIMEOUT_SECS`.
    pub timeout_var: Option<String>,
    /// How many CPUs the host has for us.
    pub parallelism: Option<usize>,
    /// The text of `/proc/meminfo`.
    pub meminfo: Option<String>,
}

/// The least memory of a guest, in MiB.
pub const MIN_RUN_MEMORY_MIB: u32 = 1024;

/// The most memory that a guest gets without being asked for, in MiB.
pub const MAX_DEFAULT_RUN_MEMORY_MIB: u32 = 8192;

/// The time for a VM with hardware acceleration, in seconds.
pub const RUN_TIMEOUT_BASE_SECS: u64 = 300;

/// How much more time a VM without hardware acceleration has.
pub const RUN_TCG_TIMEOUT_FACTOR: u64 = 4;

/// The positive number that a variable holds, up to `max`.
pub open spec fn positive(var: Option<Seq<char>>, max: nat) -> Option<nat> {
    match var {
        Some(s) => match parse_unsigned(trim(s), max) {
            Some(n) => if n > 0 {
                Some(n)
            } else {
                None
            },
            None => None,
        },
        None => None,
    }
}

/// The view of a variable.
pub open spec fn var_text(var: Option<String>) -> Option<Seq<char>> {
    match var {
        Some(s) => Some(s@),
        None => None,
    }
}

/// How many CPUs a guest gets: as many as the variable says, else as many as the
/// host has, else two.
pub open spec fn run_cpus(var: Option<Seq<char>>, parallelism: Option<usize>) -> int {
    match positive(var, u32::MAX as nat) {
        Some(n) => n as int,
        None => match parallelism {
            Some(n) => if n > u32::MAX {
                u32::MAX as int
            } else if n == 0 {
                1
            } else {
                n as int
            },
            None => 2,
        },
    }
}

/// How much memory a guest gets, in MiB: as much as the variable says, else half
/// the host's up to a limit; never less than the minimum.
pub open spec fn run_memory(var: Option<Seq<char>>, host_mib: Option<nat>) -> int {
    match positive(var, u32::MAX as nat) {
        Some(n) => if n < MIN_RUN_MEMORY_MIB {
            MIN_RUN_MEMORY_MIB as int
        } else {
            n as int
        },
        None => {
            let half = match host_mib {
                Some(m) => m as int / 2,
                None => 0,
            };
            if half < MIN_RUN_MEMORY_MIB {
                MIN_RUN_MEMORY_MIB as int
            } else if half > MAX_DEFAULT_RUN_MEMORY_MIB {
                MAX_DEFAULT_RUN_MEMORY_MIB as int
            } else {
                half
            }
        },
    }
}

/// How much time a VM has, in seconds: as much as the variable says, else the
/// base, and more of it without hardware acceleration.
pub open spec fn run_timeout(var: Option<Seq<char>>, kvm_available: bool) -> int {
    match positive(var, u64::MAX as nat) {
        Some(n) => n as int,
        None => if kvm_available {
            RUN_TIMEOUT_BASE_SECS as int
        } else {
            RUN_TIMEOUT_BASE_SECS * RUN_TCG_TIMEOUT_FACTOR
        },
    }
}

/// A guest always has a CPU and the least memory; without hardware acceleration
/// it has more time, unless a variable says how much.
pub proof fn lemma_run_defaults(
    var: Option<Seq<char>>,
    parallelism: Option<usize>,
    host_mib: Option<nat>,
)
    ensures
        run_cpus(var, parallelism) >= 1,
        run_memory(var, host_mib) >= MIN_RUN_MEMORY_MIB,
        positive(var, u32::MAX as nat) is None ==> run_memory(var, host_mib)
            <= MAX_DEFAULT_RUN_MEMORY_MIB,
        positive(var, u64::MAX as nat) is None ==> run_timeout(var, false) > run_timeout(var, true),
        positive(var, u64::MAX as nat) is Some ==> run_timeout(var, false) == run_timeout(var, true),
{
}

fn env_number(var: &Option<String>, max: u64) -> (r: Option<u64>)
    ensures
        match r {
            Some(n) => positive(var_text(*var), max as nat) == Some(n as nat) && 0 < n <= max,
            None => positive(var_text(*var), max as nat) is None,
        },
{
    match var {
        Some(s) => match read_unsigned(trimmed(s.as_str()).as_str(), max) {
            Some(n) => if n > 0 {
                Some(n)
            } else {
                None
            },
            None => None,
        },
        None => None,
    }
}

/// How many CPUs a guest gets.
pub fn default_run_cpus(var: &Option<String>, parallelism: Option<usize>) -> (r: u32)
    ensures
        r == run_cpus(var_text(*var), parallelism),
{
    match env_number(var, u32::MAX as u64) {
        Some(n) => n as u32,
        None => match parallelism {
            Some(n) => if n > u32::MAX as usize {
                u32::MAX
            } else if n == 0 {
                1
            } else {
                n as u32
            },
            None => 2,
        },
    }
}

/// How much memory a guest gets, in MiB.
pub fn default_run_memory_mib(var: &Option<String>, host_mib: Option<u32>) -> (r: u32)
    ensures
        r == run_memory(
            var_text(*var),
            match host_mib {
                Some(m) => Some(m as nat),
                None => None,
            },
        ),
{
    match env_number(var, u32::MAX as u64) {
        Some(n) => if n < MIN_RUN_MEMORY_MIB as u64 {
            MIN_RUN_MEMORY_MIB
        } else {
            n as u32
        },
        None => {
            let half: u32 = match host_mib {
                Some(m) => m / 2,
                None => 0,
            };
            if half < MIN_RUN_MEMORY_MIB {
                MIN_RUN_MEMORY_MIB
            } else if half > MAX_DEFAULT_RUN_MEMORY_MIB {
                MAX_DEFAULT_RUN_MEMORY_MIB
            } else {
                half
            }
        },
    }
}

/// How much time a VM has, in seconds.
pub fn default_run_timeout(var: &Option<String>, kvm_available: bool) -> (r: u64)
    ensures
        r == run_timeout(var_text(*var), kvm_available),
{
    match env_number(var, u64::MAX) {
        Some(n) => n,
        None => if kvm_available {
            RUN_TIMEOUT_BASE_SECS
        } else {
            RUN_TIMEOUT_BASE_SECS * RUN_TCG_TIMEOUT_FACTOR
        },
    }
}

/// The position of the first line from `from` on that tells the memory.
pub open spec fn memory_line(ls: Seq<Seq<char>>, from: int) -> Option<int>
    decreases ls.len() - from,
{
    if from < 0 || from >= ls.len() {
        None
    } else if "MemTotal:"@.is_prefix_of(ls[from]) {
        Some(from)
    } else {
        memory_line(ls, from + 1)
    }
}

/// The MiB that a memory line tells, behind its head: the first word is their
/// number in KiB.
pub open spec fn memory_of(rest: Seq<char>) -> Option<nat> {
    if words(rest).len() == 0 {
        None
    } else {
        match parse_unsigned(words(rest)[0], u64::MAX as nat) {
            Some(kb) => if kb / 1024 <= u32::MAX {
                Some(kb / 1024)
            } else {
                None
            },
            None => None,
        }
    }
}

/// The memory of the host in MiB, by the text of `/proc/meminfo`.
pub open spec fn total_memory(contents: Seq<char>) -> Option<nat> {
    let ls = lines(contents);
    match memory_line(ls, 0) {
        Some(i) => memory_of(ls[i].skip("MemTotal:"@.len() as int)),
        None => None,
    }
}

fn read_memory(rest: &str) -> (r: Option<u32>)
    ensures
        match r {
            Some(m) => memory_of(rest@) == Some(m as nat),
            None => memory_of(rest@) is None,
        },
{
    let parts = words_of(rest);
    if parts.len() == 0 {
        return None;
    }
    assert(words(rest@)[0] == parts@[0]@);
    match read_unsigned(parts[0].as_str(), u64::MAX) {
        Some(kb) => {
            let mib: u64 = kb / 1024;
            if mib <= u32::MAX as u64 {
                Some(mib as u32)
            } else {
                None
            }
        },
        None => None,
    }
}

/// The memory of the host in MiB, by the text of `/proc/meminfo`.
pub fn parse_meminfo_total_mib(contents: &str) -> (r: Option<u32>)
    ensures
        match r {
            Some(m) => total_memory(contents@) == Some(m as nat),
            None => total_memory(contents@) is None,
        },
{
    let parts = lines_of(contents);
    let ghost ls = lines(contents@);
    let mut i: usize = 0;
    while i < parts.len()
        invariant
            i <= parts@.len(),
            texts(parts@) == ls,
            ls == lines(contents@),
            memory_line(ls, 0) == memory_line(ls, i as int),
        decreases parts.len() - i,
    {
        assert(ls[i as int] == parts@[i as int]@);
        if let Some(rest) = strip_prefix(parts[i].as_str(), "MemTotal:") {
            return read_memory(rest.as_str());
        }
        i += 1;
    }
    None
}

impl RunStepConfig {
    /// A `RUN` with the defaults that the host and the environment give.
    pub fn new(qemu_path: String, kvm_available: bool, command: String, host: &HostFacts) -> (r: Self)
        ensures
            r.command@ == command@,
            r.qemu_path@ == qemu_path@,
            r.kvm_available == kvm_available,
            r.env@ == Map::<Seq<char>, String>::empty(),
            r.memory_mib == run_memory(
                var_text(host.memory_var),
                match host.meminfo {
                    Some(text) => total_memory(text@),
                    None => None,
                },
            ),
            r.cpus == run_cpus(var_text(host.cpus_var), host.parallelism),
            r.timeout_secs == run_timeout(var_text(host.timeout_var), kvm_available),
    {
        let host_mib: Option<u32> = match &host.meminfo {
            Some(text) => parse_meminfo_total_mib(text.as_str()),
            None => None,
        };
        RunStepConfig {
            command,
            env: TextMap::new(),
            qemu_path,
            kvm_available,
            memory_mib: default_run_memory_mib(&host.memory_var, host_mib),
            cpus: default_run_cpus(&host.cpus_var, host.parallelism),
            timeout_secs: default_run_timeout(&host.timeout_var, kvm_available),
        }
    }
}

/// The environment as lines, in the order of the variables.
pub open spec fn env_lines(env: Map<Seq<char>, Seq<char>>) -> Seq<Seq<char>> {
    let keys = keys_in_order(env);
    Seq::new(keys.len(), |i: int| keys[i] + "="@ + env[keys[i]])
}

/// The architecture that the name of a QEMU binary tells, else the host's.
pub open spec fn qemu_architecture(path: Seq<char>, host: Architecture) -> Architecture {
    let name = match file_name(path) {
        Some(n) => n,
        None => ""@,
    };
    if contains_text(name, "aarch64"@) || contains_text(name, "arm64"@) {
        Architecture::Aarch64
    } else if contains_text(name, "x86_64"@) || contains_text(name, "amd64"@) {
        Architecture::X86_64
    } else {
        host
    }
}

/// The serial console of the architecture's machine.
pub open spec fn console_name(architecture: Architecture) -> Seq<char> {
    match architecture {
        Architecture::X86_64 => "ttyS0"@,
        Architecture::Aarch64 => "ttyAMA0"@,
    }
}

/// The architecture that the name of a QEMU binary tells, else the host's.
pub fn arch_from_qemu_path(qemu_path: &str, host: Architecture) -> (r: Architecture)
    ensures
        r == qemu_architecture(qemu_path@, host),
{
    let name = match file_name_of(qemu_path) {
        Some(n) => n,
        None => String::from_str(""),
    };
    let n = name.as_str();
    if contains(n, "aarch64") || contains(n, "arm64") {
        Architecture::Aarch64
    } else if contains(n, "x86_64") || contains(n, "amd64") {
        Architecture::X86_64
    } else {
        host
    }
}

/// The serial console of the architecture's machine.
pub fn serial_console(architecture: Architecture) -> (r: &'static str)
    ensures
        r@ == console_name(architecture),
{
    match architecture {
        Architecture::X86_64 => "ttyS0",
        Architecture::Aarch64 => "ttyAMA0",
    }
}

/// A micro-VM for a `RUN`, and the files in the staging tree that it reads and
/// writes.
#[derive(Debug)]
pub struct RunStepPlan {
    /// The architecture of the machine.
    pub architecture: Architecture,
    /// The kernel.
    pub kernel: String,
    /// The kernel's command line.
    pub cmdline: String,
    /// The guest's memory, in MiB.
    pub memory_mib: u32,
    /// The guest's CPUs.
    pub cpus: u32,
    /// Is hardware acceleration used?
    pub kvm: bool,
    /// The directory that the guest mounts.
    pub share: String,
    /// The tag by which it does.
    pub mount_tag: String,
    /// The file with the command.
    pub command_path: String,
    /// The command.
    pub command: String,
    /// The file with the environment.
    pub env_path: String,
    /// The environment; none where there are no variables.
    pub env_body: Option<String>,
    /// The file in which the guest leaves the exit code.
    pub exit_path: String,
}

/// The environment as lines; none where there are no variables.
pub fn env_body(env: &TextMap<String>) -> (r: Option<String>)
    ensures
        match r {
            Some(body) => env@ != Map::<Seq<char>, String>::empty() && body@ == join(
                env_lines(text_values(env@)),
                "\n"@,
            ),
            None => env@ == Map::<Seq<char>, String>::empty(),
        },
{
    if env.is_empty() {
        return None;
    }
    let n: usize = env.len();
    let ghost keys = keys_in_order(text_values(env@));
    let ghost all = env_lines(text_values(env@));
    proof {
        assert(text_values(env@).dom() =~= env@.dom());
    }
    let mut out: Vec<String> = Vec::new();
    let mut i: usize = 0;
    assert(texts(out@) =~= all.take(0));
    while i < n
        invariant
            i <= n,
            n == env.keys().len(),
            env.keys() == keys,
            keys == keys_in_order(text_values(env@)),
            all == env_lines(text_values(env@)),
            texts(out@) == all.take(i as int),
        decreases n - i,
    {
        let line = concat3(env.key_at(i).as_str(), "=", env.value_at(i).as_str());
        proof {
            lemma_texts_push(out@, line);
            assert(line@ == all[i as int]);
            assert(all.take(i as int + 1) =~= all.take(i as int).push(line@));
        }
        out.push(line);
        i += 1;
    }
    assert(all.take(i as int) =~= all);
    Some(joined(&out, "\n"))
}

/// Plans the micro-VM for a `RUN`. Without QEMU there is none.
pub fn plan_run_step(
    staging: &str,
    kernel: &KernelLayout,
    config: &RunStepConfig,
    qemu_is_file: bool,
    host: Architecture,
) -> (r: Result<RunStepPlan, RunStepError>)
    ensures
        match r {
            Ok(p) => {
                &&& qemu_is_file
                &&& p.architecture == qemu_architecture(config.qemu_path@, host)
                &&& p.kernel@ == kernel.vmlinuz@
                &&& p.cmdline@ == "console="@ + console_name(p.architecture) + " quiet panic=1"@
                &&& p.memory_mib == config.memory_mib
                &&& p.cpus == config.cpus
                &&& p.kvm == config.kvm_available
                &&& p.share@ == staging@
                &&& p.mount_tag@ == MOUNT_TAG_STAGING@
                &&& p.command_path@ == join_path(staging@, ".umf-cmd"@)
                &&& p.command@ == config.command@
                &&& p.env_path@ == join_path(staging@, ".umf-env"@)
                &&& match p.env_body {
                    Some(body) => config.env@ != Map::<Seq<char>, String>::empty() && body@ == join(
                        env_lines(text_values(config.env@)),
                        "\n"@,
                    ),
                    None => config.env@ == Map::<Seq<char>, String>::empty(),
                }
                &&& p.exit_path@ == join_path(staging@, ".umf-run-exit"@)
            },
            Err(e) => !qemu_is_file && e is QemuMissing,
        },
{
    if !qemu_is_file {
        return Err(RunStepError::QemuMissing);
    }
    let architecture = arch_from_qemu_path(config.qemu_path.as_str(), host);
    Ok(
        RunStepPlan {
            architecture,
            kernel: kernel.vmlinuz.clone(),
            cmdline: concat3("console=", serial_console(architecture), " quiet panic=1"),
            memory_mib: config.memory_mib,
            cpus: config.cpus,
            kvm: config.kvm_available,
            share: String::from_str(staging),
            mount_tag: String::from_str(MOUNT_TAG_STAGING),
            command_path: joined_path(staging, ".umf-cmd"),
            command: config.command.clone(),
            env_path: joined_path(staging, ".umf-env"),
            env_body: env_body(&config.env),
            exit_path: joined_path(staging, ".umf-run-exit"),
        },
    )
}

/// How a micro-VM ended.
#[derive(Clone, Copy, Debug, PartialEq, Eq, Structural)]
pub enum VmEnd {
    /// The time was up.
    TimedOut,
    /// QEMU ended with this status; none where a signal ended it.
    Exited(Option<i32>),
}

/// What a `RUN` in a micro-VM came to.
#[derive(Debug)]
pub struct RunStepResult {
    /// The exit code of the command.
    pub exit_code: i32,
    /// What the guest wrote to its console.
    pub serial_output: String,
    /// How long the VM ran, in milliseconds.
    pub duration_ms: u128,
}

/// The exit code that the guest left; only spaces may be around it.
pub open spec fn guest_exit_code(marker: Seq<char>) -> Option<int> {
    parse_signed(trim(marker), i32::MIN as int, i32::MAX as int)
}

/// What a `RUN` in a micro-VM came to: from how the VM ended, what the guest left
/// as its exit code, and what it wrote to its console.
pub fn finish_run_step(
    end: VmEnd,
    timeout_secs: u64,
    marker: Option<&str>,
    serial: Option<String>,
    duration_ms: u128,
) -> (r: Result<RunStepResult, RunStepError>)
    ensures
        match end {
            VmEnd::TimedOut => r matches Err(RunStepError::Timeout { timeout_secs: t }) && t
                == timeout_secs,
            VmEnd::Exited(code) => if code != Some(0i32) {
                r matches Err(RunStepError::QemuAbnormalExit { code: c }) && c == code
            } else {
                match marker {
                    None => r matches Err(RunStepError::GuestNeverFinished),
                    Some(text) => match guest_exit_code(text@) {
                        None => r matches Err(RunStepError::MalformedExitCode(raw)) && raw@ == text@,
                        Some(n) => r matches Ok(x) && x.exit_code == n && x.duration_ms
                            == duration_ms && x.serial_output@ == (match serial {
                            Some(s) => s@,
                            None => Seq::empty(),
                        }),
                    },
                }
            },
        },
{
    let code: Option<i32> = match end {
        VmEnd::TimedOut => {
            return Err(RunStepError::Timeout { timeout_secs });
        },
        VmEnd::Exited(code) => code,
    };
    match code {
        Some(0) => {},
        _ => {
            return Err(RunStepError::QemuAbnormalExit { code });
        },
    }
    let text = match marker {
        Some(text) => text,
        None => {
            return Err(RunStepError::GuestNeverFinished);
        },
    };
    match read_signed(trimmed(text).as_str(), i32::MIN as i64, i32::MAX as i64) {
        None => Err(RunStepError::MalformedExitCode(String::from_str(text))),
        Some(n) => {
            let serial_output = match serial {
                Some(s) => s,
                None => String::new(),
            };
            Ok(RunStepResult { exit_code: n as i32, serial_output, duration_ms })
        },
    }
}

/// A command on one line, cut to sixty-four characters; three dots mark the cut.
pub open spec fn command_on_a_line(cmd: Seq<char>) -> Seq<char> {
    let line = trim(replace_char(cmd, '\n', " "@));
    if line.len() > 64 {
        line.take(64) + "..."@
    } else {
        line
    }
}

/// What is logged of a command has at most sixty-seven characters.
pub proof fn lemma_short_command_length(cmd: Seq<char>)
    ensures
        command_on_a_line(cmd).len() <= 67,
{
    reveal_strlit("...");
}

/// A command on one line, cut to a length for logs.
pub fn short_command(cmd: &str) -> (r: String)
    ensures
        r@ == command_on_a_line(cmd@),
{
    let line = trimmed(replaced(cmd, '\n', " ").as_str());
    let v = chars_of(line.as_str());
    if v.len() > 64 {
        let head = text_of(&v, 0, 64);
        assert(v@.subrange(0, 64) =~= v@.take(64));
        concat2(head.as_str(), "...")
    } else {
        line
    }
}

} // verus!
