//! What a build needs of its host, and what the host has.
use vstd::prelude::*;
use crate::architecture::Architecture;
use crate::ast::{Ast, Directive, Stage};
use crate::number::{decimal, write_decimal};
use crate::path::{join_path, joined_path};
use crate::text::{
    concat2, concat3, concat4, contains, contains_text, join, joined, lines, lines_of, same,
    split, split_on, texts, trim, trimmed,
};

verus! {

/// What a build needs.
#[derive(Clone, Copy, Debug, PartialEq, Eq, Structural)]
pub struct RequiredRuntimes {
    /// QEMU.
    pub qemu: bool,
    /// KVM. A build works without it, only slowly.
    pub kvm: bool,
}

impl Default for RequiredRuntimes {
    fn default() -> (r: Self)
        ensures
            r == (RequiredRuntimes { qemu: false, kvm: false }),
    {
        RequiredRuntimes { qemu: false, kvm: false }
    }
}

/// The stage has a `RUN`.
pub open spec fn runs_something(stage: Stage) -> bool {
    exists|i: int|
        0 <= i < stage.directives@.len() && (#[trigger] stage.directives@[i]) is Run
}

/// What a build of the recipe needs. Only a bootable build with a `RUN` needs
/// anything: that `RUN` is executed in a virtual machine.
pub open spec fn required(ast: Ast, bootable: bool) -> RequiredRuntimes {
    let vm = bootable && exists|i: int|
        0 <= i < ast.stages@.len() && runs_something(#[trigger] ast.stages@[i]);
    RequiredRuntimes { qemu: vm, kvm: vm }
}

fn has_run_directive(stage: &Stage) -> (r: bool)
    ensures
        r == runs_something(*stage),
{
    let mut i: usize = 0;
    while i < stage.directives.len()
        invariant
            i <= stage.directives@.len(),
            forall|k: int| 0 <= k < i ==> !((#[trigger] stage.directives@[k]) is Run),
        decreases stage.directives@.len() - i,
    {
        if let Directive::Run(_) = &stage.directives[i] {
            assert(stage.directives@[i as int] is Run);
            return true;
        }
        i += 1;
    }
    false
}

/// What a build of the recipe needs, given whether it is bootable.
pub fn compute_requirements(ast: &Ast, bootable: bool) -> (r: RequiredRuntimes)
    ensures
        r == required(*ast, bootable),
{
    let mut req = RequiredRuntimes::default();
    if bootable {
        let mut i: usize = 0;
        while i < ast.stages.len()
            invariant
                i <= ast.stages@.len(),
                req.qemu == req.kvm,
                req.qemu == (exists|k: int| 0 <= k < i && runs_something(#[trigger] ast.stages@[k])),
            decreases ast.stages@.len() - i,
        {
            if has_run_directive(&ast.stages[i]) {
                assert(runs_something(ast.stages@[i as int]));
                req.qemu = true;
                req.kvm = true;
            }
            i += 1;
        }
    }
    req
}

/// A container build needs nothing of its host, whatever its recipe says.
pub proof fn lemma_container_needs_nothing(ast: Ast)
    ensures
        required(ast, false) == (RequiredRuntimes { qemu: false, kvm: false }),
{
}

/// What the host has.
#[derive(Debug)]
pub struct DetectedRuntimes {
    /// Where QEMU is.
    pub qemu_path: Option<String>,
    /// Where Cloud Hypervisor is.
    pub cloud_hypervisor_path: Option<String>,
    /// The state of `/dev/kvm`.
    pub kvm_status: KvmStatus,
}

/// The state of `/dev/kvm`.
#[derive(Clone, Copy, Debug, PartialEq, Eq, Structural)]
pub enum KvmStatus {
    /// It can be opened.
    Accessible,
    /// It is there, and cannot be opened.
    PresentNoPermission,
    /// It is not there.
    Absent,
}

impl KvmStatus {
    /// Virtual machines can be run at full speed.
    pub fn is_accessible(self) -> (r: bool)
        ensures
            r == (self is Accessible),
    {
        matches!(self, KvmStatus::Accessible)
    }
}

/// The state of `/dev/kvm`, given whether it is there and can be opened to read
/// and write.
pub fn probe_kvm(exists: bool, opens: bool) -> (r: KvmStatus)
    ensures
        r == (if !exists {
            KvmStatus::Absent
        } else if opens {
            KvmStatus::Accessible
        } else {
            KvmStatus::PresentNoPermission
        }),
{
    if !exists {
        KvmStatus::Absent
    } else if opens {
        KvmStatus::Accessible
    } else {
        KvmStatus::PresentNoPermission
    }
}

/// Something that is missing.
#[derive(Clone, Copy, Debug, PartialEq, Eq, Structural)]
pub enum MissingRuntime {
    /// QEMU for the architecture.
    Qemu(Architecture),
}

impl MissingRuntime {
    /// How to get what is missing.
    pub open spec fn hint_text(self) -> Seq<char> {
        match self {
            MissingRuntime::Qemu(arch) => "install `"@ + arch.qemu_name()
                + "` — required by bootable-target `RUN` directives (the micro-VM backend boots the in-progress disk to execute the command)"@,
        }
    }

    /// How to get what is missing.
    pub fn hint(self) -> (r: String)
        ensures
            r@ == self.hint_text(),
    {
        match self {
            MissingRuntime::Qemu(arch) => concat3(
                "install `",
                arch.qemu_binary_name(),
                "` — required by bootable-target `RUN` directives (the micro-VM backend boots the in-progress disk to execute the command)",
            ),
        }
    }

    /// The name of what is missing.
    pub open spec fn name_text(self) -> Seq<char> {
        match self {
            MissingRuntime::Qemu(Architecture::X86_64) => "Qemu(X86_64)"@,
            MissingRuntime::Qemu(Architecture::Aarch64) => "Qemu(Aarch64)"@,
        }
    }

    /// The name of what is missing.
    pub fn name(self) -> (r: &'static str)
        ensures
            r@ == self.name_text(),
    {
        match self {
            MissingRuntime::Qemu(Architecture::X86_64) => "Qemu(X86_64)",
            MissingRuntime::Qemu(Architecture::Aarch64) => "Qemu(Aarch64)",
        }
    }
}

/// Something that the build needs is missing.
#[derive(Debug)]
pub struct MissingRuntimeError {
    /// What is missing.
    pub missing: Vec<MissingRuntime>,
}

impl MissingRuntimeError {
    /// The error in words: what is missing, and how to get it.
    pub open spec fn text(self) -> Seq<char> {
        let n = self.missing@.len();
        "host is missing "@ + decimal(n) + " required runtime(s): ["@ + join(
            Seq::new(n, |i: int| self.missing@[i].name_text()),
            ", "@,
        ) + "]\nhints:\n"@ + join(
            Seq::new(
                n,
                |i: int|
                    "  - "@ + self.missing@[i].name_text() + ": "@ + self.missing@[i].hint_text(),
            ),
            "\n"@,
        )
    }

    /// The error in words.
    pub fn message(&self) -> (r: String)
        ensures
            r@ == self.text(),
    {
        let mut names: Vec<String> = Vec::new();
        let mut hints: Vec<String> = Vec::new();
        let mut i: usize = 0;
        while i < self.missing.len()
            invariant
                i <= self.missing@.len(),
                texts(names@) == Seq::new(i as nat, |k: int| self.missing@[k].name_text()),
                texts(hints@) == Seq::new(
                    i as nat,
                    |k: int|
                        "  - "@ + self.missing@[k].name_text() + ": "@
                            + self.missing@[k].hint_text(),
                ),
            decreases self.missing@.len() - i,
        {
            let m = self.missing[i];
            let name = m.name();
            let hint = m.hint();
            let ghost names_before = names@;
            let ghost hints_before = hints@;
            names.push(concat2(name, ""));
            hints.push(concat4("  - ", name, ": ", hint.as_str()));
            proof {
                reveal_strlit("");
                assert(names@.last()@ =~= name@);
                assert(texts(names@) =~= texts(names_before).push(name@));
                assert(texts(hints@) =~= texts(hints_before).push(hints@.last()@));
                assert(texts(names@) =~= Seq::new(
                    (i + 1) as nat,
                    |k: int| self.missing@[k].name_text(),
                ));
                assert(texts(hints@) =~= Seq::new(
                    (i + 1) as nat,
                    |k: int|
                        "  - "@ + self.missing@[k].name_text() + ": "@
                            + self.missing@[k].hint_text(),
                ));
            }
            i += 1;
        }
        let head = concat3(
            "host is missing ",
            write_decimal(self.missing.len() as u128).as_str(),
            " required runtime(s): [",
        );
        concat4(
            head.as_str(),
            joined(&names, ", ").as_str(),
            "]\nhints:\n",
            joined(&hints, "\n").as_str(),
        )
    }
}

/// Checks that the host has what the build needs for the architecture. A
/// missing KVM is no error.
pub fn verify_requirements_for(
    req: &RequiredRuntimes,
    architecture: Architecture,
    detected: DetectedRuntimes,
) -> (r: Result<DetectedRuntimes, MissingRuntimeError>)
    ensures
        match r {
            Ok(d) => d == detected && !(req.qemu && detected.qemu_path is None),
            Err(e) => req.qemu && detected.qemu_path is None && e.missing@ == seq![
                MissingRuntime::Qemu(architecture),
            ],
        },
{
    let mut missing: Vec<MissingRuntime> = Vec::new();
    if req.qemu && detected.qemu_path.is_none() {
        missing.push(MissingRuntime::Qemu(architecture));
    }
    if missing.len() == 0 {
        Ok(detected)
    } else {
        Err(MissingRuntimeError { missing })
    }
}

/// Where a program of that name may be: below each directory of the search path.
pub open spec fn candidates(path: Option<Seq<char>>, name: Seq<char>) -> Seq<Seq<char>> {
    match path {
        Some(p) => split(p, ':').map_values(|dir: Seq<char>| join_path(dir, name)),
        None => Seq::empty(),
    }
}

/// The first place from `i` on at which there is a program.
pub open spec fn first_program(places: Seq<Seq<char>>, found: Seq<bool>, i: int) -> Option<Seq<char>>
    decreases places.len() - i,
{
    if i < 0 || i >= places.len() || i >= found.len() {
        None
    } else if found[i] {
        Some(places[i])
    } else {
        first_program(places, found, i + 1)
    }
}

/// The text of what may be missing.
pub open spec fn optional_text(s: Option<&str>) -> Option<Seq<char>> {
    match s {
        Some(t) => Some(t@),
        None => None,
    }
}

/// The result is the path.
pub open spec fn gives(r: Option<String>, path: Option<Seq<char>>) -> bool {
    match r {
        Some(s) => path == Some(s@),
        None => path is None,
    }
}

/// Where a program of that name may be, given the variable `PATH`.
pub fn path_candidates(path: Option<&str>, name: &str) -> (r: Vec<String>)
    ensures
        texts(r@) == candidates(optional_text(path), name@),
{
    let mut out: Vec<String> = Vec::new();
    if let Some(p) = path {
        let dirs = split_on(p, ':');
        let ghost all = split(p@, ':');
        let mut i: usize = 0;
        while i < dirs.len()
            invariant
                i <= dirs@.len(),
                texts(dirs@) == all,
                texts(out@) == all.take(i as int).map_values(
                    |dir: Seq<char>| join_path(dir, name@),
                ),
            decreases dirs@.len() - i,
        {
            assert(all[i as int] == dirs@[i as int]@);
            let ghost before = out@;
            out.push(joined_path(dirs[i].as_str(), name));
            proof {
                assert(texts(out@) =~= texts(before).push(join_path(all[i as int], name@)));
                assert(texts(out@) =~= all.take(i + 1).map_values(
                    |dir: Seq<char>| join_path(dir, name@),
                ));
            }
            i += 1;
        }
        assert(all.take(i as int) =~= all);
    }
    assert(path is None ==> texts(out@) =~= Seq::empty());
    out
}

/// Where the program of that name is, given the variable `PATH` and, for each of
/// [`path_candidates`], whether there is a file that can be executed.
pub fn which_on_path(path: Option<&str>, name: &str, found: &Vec<bool>) -> (r: Option<String>)
    ensures
        gives(r, first_program(candidates(optional_text(path), name@), found@, 0)),
{
    let mut places = path_candidates(path, name);
    let ghost all = candidates(optional_text(path), name@);
    let mut i: usize = 0;
    while i < places.len() && i < found.len()
        invariant
            i <= places@.len(),
            i <= found@.len(),
            all == candidates(optional_text(path), name@),
            texts(places@) == all,
            first_program(all, found@, 0) == first_program(all, found@, i as int),
        decreases places@.len() - i,
    {
        if found[i] {
            assert(all[i as int] == places@[i as int]@);
            return Some(places.swap_remove(i));
        }
        i += 1;
    }
    None
}

/// The name of the Cloud Hypervisor program.
pub const CLOUD_HYPERVISOR: &'static str = "cloud-hypervisor";

/// What the host has for the architecture, given the variable `PATH`, where
/// there is a program for QEMU and for Cloud Hypervisor, and the state of
/// `/dev/kvm`.
pub fn detect_all_for(
    architecture: Architecture,
    path: Option<&str>,
    qemu_found: &Vec<bool>,
    cloud_hypervisor_found: &Vec<bool>,
    kvm_status: KvmStatus,
) -> (r: DetectedRuntimes)
    ensures
        gives(
            r.qemu_path,
            first_program(candidates(optional_text(path), architecture.qemu_name()), qemu_found@, 0),
        ),
        gives(
            r.cloud_hypervisor_path,
            first_program(
                candidates(optional_text(path), CLOUD_HYPERVISOR@),
                cloud_hypervisor_found@,
                0,
            ),
        ),
        r.kvm_status == kvm_status,
{
    DetectedRuntimes {
        qemu_path: which_on_path(path, architecture.qemu_binary_name(), qemu_found),
        cloud_hypervisor_path: which_on_path(path, CLOUD_HYPERVISOR, cloud_hypervisor_found),
        kvm_status,
    }
}

/// What the host has to give the `RUN`s of a container build a network.
#[derive(Debug)]
pub struct NetworkEgress {
    /// Where `nft` is.
    pub nft_path: Option<String>,
    /// Where `dnsmasq` is.
    pub dnsmasq_path: Option<String>,
    /// Whether the host forwards packets.
    pub ip_forward: SysctlState,
    /// Whether its rules let forwarded packets through.
    pub forward_policy: ForwardPolicy,
}

/// A setting of the kernel.
#[derive(Clone, Copy, Debug, PartialEq, Eq, Structural)]
pub enum SysctlState {
    /// It is on.
    Enabled,
    /// It is off.
    Disabled,
    /// It could not be read.
    Unknown,
}

/// What the host's rules do with a forwarded packet that no rule names.
#[derive(Clone, Copy, Debug, PartialEq, Eq, Structural)]
pub enum ForwardPolicy {
    /// It is let through.
    Accept,
    /// It is dropped.
    Drop,
    /// The rules could not be read.
    Unknown,
}

/// What a setting's text says.
pub open spec fn sysctl_of(text: Option<Seq<char>>) -> SysctlState {
    match text {
        Some(t) => if trim(t) == "1"@ {
            SysctlState::Enabled
        } else {
            SysctlState::Disabled
        },
        None => SysctlState::Unknown,
    }
}

/// What a setting's text says, if it could be read.
pub fn read_bool_sysctl(text: Option<&str>) -> (r: SysctlState)
    ensures
        r == sysctl_of(optional_text(text)),
{
    match text {
        Some(t) => if same(trimmed(t).as_str(), "1") {
            SysctlState::Enabled
        } else {
            SysctlState::Disabled
        },
        None => SysctlState::Unknown,
    }
}

/// The line is the head of a chain that drops forwarded packets.
pub open spec fn blocks(line: Seq<char>) -> bool {
    contains_text(trim(line), "hook forward"@) && contains_text(trim(line), "policy drop"@)
}

/// What the rules do with a forwarded packet.
pub open spec fn policy_of(ruleset: Seq<char>) -> ForwardPolicy {
    if exists|i: int| 0 <= i < lines(ruleset).len() && blocks(#[trigger] lines(ruleset)[i]) {
        ForwardPolicy::Drop
    } else {
        ForwardPolicy::Accept
    }
}

/// What the rules do with a forwarded packet, as `nft list ruleset` prints them.
pub fn parse_forward_policy(ruleset: &str) -> (r: ForwardPolicy)
    ensures
        r == policy_of(ruleset@),
{
    let all = lines_of(ruleset);
    let ghost ls = lines(ruleset@);
    let mut i: usize = 0;
    while i < all.len()
        invariant
            i <= all@.len(),
            ls == lines(ruleset@),
            texts(all@) == ls,
            forall|k: int| 0 <= k < i ==> !blocks(#[trigger] ls[k]),
        decreases all@.len() - i,
    {
        let line = trimmed(all[i].as_str());
        assert(ls[i as int] == all@[i as int]@);
        if contains(line.as_str(), "hook forward") && contains(line.as_str(), "policy drop") {
            assert(blocks(lines(ruleset@)[i as int]));
            return ForwardPolicy::Drop;
        }
        i += 1;
    }
    assert(forall|k: int| 0 <= k < ls.len() ==> !blocks(#[trigger] ls[k]));
    ForwardPolicy::Accept
}

/// What the host has to give a `RUN` a network, given where the programs are,
/// the text of `net.ipv4.ip_forward`, and the rules, as far as they could be
/// read.
pub fn detect_network_egress(
    nft_path: Option<String>,
    dnsmasq_path: Option<String>,
    ip_forward: Option<&str>,
    ruleset: Option<&str>,
) -> (r: NetworkEgress)
    ensures
        r.nft_path == nft_path,
        r.dnsmasq_path == dnsmasq_path,
        r.ip_forward == sysctl_of(optional_text(ip_forward)),
        r.forward_policy == (match ruleset {
            Some(text) => policy_of(text@),
            None => ForwardPolicy::Unknown,
        }),
{
    NetworkEgress {
        nft_path,
        dnsmasq_path,
        ip_forward: read_bool_sysctl(ip_forward),
        forward_policy: match ruleset {
            Some(text) => parse_forward_policy(text),
            None => ForwardPolicy::Unknown,
        },
    }
}

} // verus!
