//! What a build needs of its host.
use umf_builder::architecture::Architecture;
use umf_builder::ast::{Add, AddSource, Ast, Directive, Entrypoint, EntrypointInit, FromSource, Run,
    RunCommand, Stage};
use umf_builder::host_requirements::{
    compute_requirements, detect_all_for, detect_network_egress, parse_forward_policy,
    path_candidates, probe_kvm, read_bool_sysctl, verify_requirements_for, which_on_path,
    DetectedRuntimes, ForwardPolicy, KvmStatus, MissingRuntime, MissingRuntimeError,
    RequiredRuntimes, SysctlState,
};

fn t(s: &str) -> String {
    s.to_string()
}

fn run(line: &str) -> Directive {
    Directive::Run(Run { command: RunCommand::Shell(t(line)), mounts: Vec::new() })
}

fn stage(from: &str, directives: Vec<Directive>) -> Stage {
    Stage { from: FromSource::Reference(t(from)), name: None, directives }
}

fn recipe(stages: Vec<Stage>) -> Ast {
    Ast { global_args: Vec::new(), stages }
}

fn add(source: AddSource, destination: &str, from: Option<&str>) -> Directive {
    Directive::Add(Add {
        source,
        destination: t(destination),
        from: from.map(t),
        plain_copy: false,
    })
}

#[test]
fn container_build_needs_no_host_runtime() {
    let ast = recipe(vec![stage("debian:bookworm", vec![run("echo hi")])]);
    let req = compute_requirements(&ast, false);
    assert!(!req.qemu);
    assert!(!req.kvm);
}

#[test]
fn vm_build_with_no_run_needs_no_runtime() {
    let ast = recipe(vec![stage("imagilux/kernel-linux:7.0", Vec::new())]);
    let req = compute_requirements(&ast, true);
    assert!(!req.qemu);
    assert!(!req.kvm);
}

#[test]
fn vm_build_with_run_needs_qemu_and_kvm() {
    let ast = recipe(vec![stage(
        "imagilux/kernel-linux:7.0",
        vec![
            add(AddSource::Oci(t("alpine:3.21.0")), "/", None),
            Directive::Entrypoint(Entrypoint { init: EntrypointInit::Systemd }),
            run("apk add curl"),
        ],
    )]);
    let req = compute_requirements(&ast, true);
    assert!(req.qemu);
    assert!(req.kvm);
}

#[test]
fn multistage_container_build_needs_no_host_runtime() {
    let ast = recipe(vec![
        stage("debian:bookworm", vec![run("make")]),
        stage(
            "debian:bookworm-slim",
            vec![add(
                AddSource::Path(t("/work/output")),
                "/usr/local/bin/output",
                Some("builder"),
            )],
        ),
    ]);
    let req = compute_requirements(&ast, false);
    assert!(!req.qemu);
    assert!(!req.kvm);
}

fn detected(qemu: Option<&str>) -> DetectedRuntimes {
    DetectedRuntimes {
        qemu_path: qemu.map(t),
        cloud_hypervisor_path: None,
        kvm_status: KvmStatus::Absent,
    }
}

#[test]
fn empty_requirements_yields_ok_with_detected_snapshot() {
    let req = RequiredRuntimes::default();
    let d = verify_requirements_for(&req, Architecture::X86_64, detected(None)).expect("ok");
    assert!(d.qemu_path.is_none());
    assert_eq!(d.kvm_status, KvmStatus::Absent);
}

#[test]
fn missing_runtime_error_displays_helpfully() {
    let err = MissingRuntimeError { missing: vec![MissingRuntime::Qemu(Architecture::X86_64)] };
    let rendered = err.message();
    assert!(rendered.contains("Qemu"));
    assert!(rendered.contains("install `qemu-system-x86_64`"));
    assert!(rendered.starts_with(
        "host is missing 1 required runtime(s): [Qemu(X86_64)]\nhints:\n  - Qemu(X86_64): install"
    ));
}

#[test]
fn missing_qemu_hint_adapts_to_target_architecture() {
    let err = MissingRuntimeError { missing: vec![MissingRuntime::Qemu(Architecture::Aarch64)] };
    assert!(err.message().contains("install `qemu-system-aarch64`"));
}

#[test]
fn a_missing_kvm_is_no_error_and_a_missing_qemu_is() {
    let req = RequiredRuntimes { qemu: true, kvm: true };
    assert!(verify_requirements_for(
        &req,
        Architecture::Aarch64,
        detected(Some("/usr/bin/qemu-system-aarch64"))
    )
    .is_ok());
    let err = verify_requirements_for(&req, Architecture::Aarch64, detected(None)).unwrap_err();
    assert_eq!(err.missing, vec![MissingRuntime::Qemu(Architecture::Aarch64)]);
}

#[test]
fn kvm_is_probed() {
    assert_eq!(probe_kvm(false, true), KvmStatus::Absent);
    assert_eq!(probe_kvm(true, false), KvmStatus::PresentNoPermission);
    assert!(probe_kvm(true, true).is_accessible());
    assert!(!KvmStatus::PresentNoPermission.is_accessible());
}

#[test]
fn the_first_directory_with_the_program_counts() {
    let path = Some("/a:/b:/c");
    assert_eq!(path_candidates(path, "nft"), vec!["/a/nft", "/b/nft", "/c/nft"]);
    assert_eq!(
        which_on_path(path, "nft", &vec![false, true, true]).as_deref(),
        Some("/b/nft")
    );
    assert_eq!(which_on_path(path, "nft", &vec![false, false, false]), None);
    assert_eq!(which_on_path(None, "nft", &vec![true]), None);
    let d = detect_all_for(
        Architecture::Aarch64,
        Some("/usr/bin"),
        &vec![true],
        &vec![false],
        KvmStatus::Accessible,
    );
    assert_eq!(d.qemu_path.as_deref(), Some("/usr/bin/qemu-system-aarch64"));
    assert_eq!(d.cloud_hypervisor_path, None);
    assert!(d.kvm_status.is_accessible());
}

#[test]
fn forward_policy_detects_default_drop() {
    let ruleset = "\
table ip filter {
	chain FORWARD {
		type filter hook forward priority filter; policy drop;
	}
}
";
    assert_eq!(parse_forward_policy(ruleset), ForwardPolicy::Drop);
}

#[test]
fn forward_policy_accepts_when_no_forward_drop() {
    let ruleset = "\
table inet filter {
	chain forward {
		type filter hook forward priority filter; policy accept;
	}
	chain input {
		type filter hook input priority filter; policy drop;
	}
}
";
    assert_eq!(parse_forward_policy(ruleset), ForwardPolicy::Accept);
}

#[test]
fn forward_policy_accepts_empty_ruleset() {
    assert_eq!(parse_forward_policy(""), ForwardPolicy::Accept);
}

#[test]
fn the_network_of_the_host_is_reported() {
    assert_eq!(read_bool_sysctl(Some("1\n")), SysctlState::Enabled);
    assert_eq!(read_bool_sysctl(Some("0\n")), SysctlState::Disabled);
    assert_eq!(read_bool_sysctl(None), SysctlState::Unknown);
    let e = detect_network_egress(Some(t("/usr/sbin/nft")), None, Some("1"), None);
    assert_eq!(e.nft_path.as_deref(), Some("/usr/sbin/nft"));
    assert_eq!(e.dnsmasq_path, None);
    assert_eq!(e.ip_forward, SysctlState::Enabled);
    assert_eq!(e.forward_policy, ForwardPolicy::Unknown);
}
