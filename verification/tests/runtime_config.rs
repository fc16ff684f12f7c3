//! What a bootable image configures, and the commands that are run in it.
use umf_builder::architecture::Architecture;
use umf_builder::ast::{
    Directive, Entrypoint, EntrypointInit, Expose, ExposeProtocol, FromSource, Stage,
};
use umf_builder::kernel::KernelLayout;
use umf_builder::runtime_config::{
    apply_runtime_config, enable_service, pick_init_system, InitSystemKind, RuntimeConfigError,
    LOADER_PATH, RULESET_PATH,
};
use umf_builder::runtime_writer::{enable_paths, write_enable_link, InitSystem};
use umf_builder::text_map::TextMap;
use umf_builder::vm_runner::{
    arch_from_qemu_path, default_run_cpus, default_run_memory_mib, default_run_timeout, env_body,
    finish_run_step, parse_meminfo_total_mib, plan_run_step, serial_console, short_command,
    HostFacts, RunStepConfig, RunStepError, VmEnd, MIN_RUN_MEMORY_MIB, RUN_TIMEOUT_BASE_SECS,
};

fn t(s: &str) -> String {
    s.to_string()
}

fn stage(directives: Vec<Directive>) -> Stage {
    Stage {
        from: FromSource::Reference(t("imagilux/kernel-linux:7.0")),
        name: None,
        directives,
    }
}

fn expose(port: u16, protocol: ExposeProtocol) -> Directive {
    Directive::Expose(Expose { port, protocol })
}

fn entrypoint(init: EntrypointInit) -> Directive {
    Directive::Entrypoint(Entrypoint { init })
}

#[test]
fn expose_writes_nftables_with_default_deny() {
    let stage = stage(vec![
        expose(22, ExposeProtocol::Tcp),
        expose(443, ExposeProtocol::Tcp),
        expose(53, ExposeProtocol::Udp),
    ]);
    let (report, firewall) = apply_runtime_config(&stage).expect("apply");
    assert_eq!(report.exposed_ports, 3);
    let firewall = firewall.expect("firewall");
    assert_eq!(RULESET_PATH, "etc/nftables.d/umf-expose.nft");
    let nft = firewall.ruleset;
    assert!(nft.contains("policy drop"));
    assert!(nft.contains("tcp dport 22 accept"));
    assert!(nft.contains("tcp dport 443 accept"));
    assert!(nft.contains("udp dport 53 accept"));
    assert!(nft.contains("ct state established,related accept"));
    assert_eq!(LOADER_PATH, "etc/nftables.conf");
    let conf = firewall.loader;
    assert!(conf.contains("flush ruleset"));
    assert!(conf.contains("include \"/etc/nftables.d/*.nft\""));
}

#[test]
fn entrypoint_none_errors() {
    let stage = stage(vec![entrypoint(EntrypointInit::NoInit)]);
    assert!(matches!(
        apply_runtime_config(&stage),
        Err(RuntimeConfigError::EntrypointNone)
    ));
}

#[test]
fn expose_also_enables_nftables_service() {
    let stage = stage(vec![expose(80, ExposeProtocol::Tcp)]);
    let (_, firewall) = apply_runtime_config(&stage).expect("apply");
    let (init, unit) = firewall.expect("firewall").service.expect("a service");
    let link = write_enable_link("/root", init, &unit, false).link;
    assert_eq!(link, "/root/etc/systemd/system/multi-user.target.wants/nftables.service");
}

#[test]
fn nothing_is_written_where_nothing_is_exposed() {
    let (report, firewall) = apply_runtime_config(&stage(Vec::new())).expect("apply");
    assert_eq!(report.exposed_ports, 0);
    assert_eq!(report.init_system, Some(InitSystemKind::Systemd));
    assert!(firewall.is_none());
}

#[test]
fn a_binary_enables_no_service() {
    let stage =
        stage(vec![entrypoint(EntrypointInit::Path(t("/app"))), expose(80, ExposeProtocol::Tcp)]);
    let kind = pick_init_system(&stage).expect("kind");
    assert_eq!(kind, InitSystemKind::Binary);
    assert!(enable_service(kind).is_none());
    let (_, firewall) = apply_runtime_config(&stage).expect("apply");
    assert!(firewall.expect("firewall").service.is_none());
    assert!(matches!(
        enable_service(InitSystemKind::OpenRc),
        Some((InitSystem::OpenRc, unit)) if unit == "nftables"
    ));
}

#[test]
fn enable_systemd_writes_wants_symlink() {
    let l = write_enable_link("/root", InitSystem::Systemd, "nginx.service", false);
    assert_eq!(l.link, "/root/etc/systemd/system/multi-user.target.wants/nginx.service");
    assert_eq!(l.target, "/usr/lib/systemd/system/nginx.service");
    assert_eq!(
        enable_paths(InitSystem::Systemd, "nginx.service"),
        (t("etc/systemd/system/multi-user.target.wants"), l.target)
    );
}

#[test]
fn enable_openrc_writes_runlevel_symlink() {
    let l = write_enable_link("/root", InitSystem::OpenRc, "crond", false);
    assert_eq!(l.dir, "/root/etc/runlevels/default");
    assert_eq!(l.link, "/root/etc/runlevels/default/crond");
    assert_eq!(l.target, "/etc/init.d/crond");
    assert!(!l.replaces);
}

#[test]
fn enable_is_idempotent() {
    let first = write_enable_link("/root", InitSystem::Systemd, "x.service", false);
    let second = write_enable_link("/root", InitSystem::Systemd, "x.service", true);
    assert_eq!((first.link, first.target), (second.link, second.target));
    assert!(second.replaces);
}

#[test]
fn short_command_truncates_long_lines() {
    let long = "a".repeat(200);
    let s = short_command(&long);
    assert!(s.ends_with("..."));
    assert!(s.chars().count() < 80);
}

#[test]
fn short_command_is_char_safe_at_the_boundary() {
    let cmd = format!("{}€-tail-padding-to-exceed-the-limit", "b".repeat(63));
    let s = short_command(&cmd);
    assert!(s.ends_with("..."));
    assert!(s.chars().count() <= 67);
}

fn kernel() -> KernelLayout {
    KernelLayout {
        release: t("6.6.79"),
        vmlinuz: t("/s/boot/vmlinuz-6.6.79"),
        modules: t("/s/lib/modules/6.6.79"),
    }
}

fn facts() -> HostFacts {
    HostFacts {
        cpus_var: None,
        memory_var: None,
        timeout_var: None,
        parallelism: Some(4),
        meminfo: Some(t("MemTotal:       16312456 kB\n")),
    }
}

#[test]
fn qemu_missing_path_fails_fast() {
    let config = RunStepConfig::new(t("/does/not/exist/qemu"), false, t("true"), &facts());
    assert!(matches!(
        plan_run_step("/s", &kernel(), &config, false, Architecture::X86_64),
        Err(RunStepError::QemuMissing)
    ));
}

#[test]
fn parse_meminfo_total_mib_extracts_memtotal() {
    let sample = "MemTotal:       16312456 kB\nMemFree:          123456 kB\n";
    assert_eq!(parse_meminfo_total_mib(sample), Some(16_312_456 / 1024));
    assert_eq!(parse_meminfo_total_mib("MemFree: 1 kB\n"), None);
    assert_eq!(parse_meminfo_total_mib("MemTotal: not-a-number kB\n"), None);
}

#[test]
fn run_resource_defaults_respect_their_floors() {
    for parallelism in [None, Some(0), Some(1), Some(64)] {
        assert!(default_run_cpus(&None, parallelism) >= 1);
    }
    for host in [None, Some(0), Some(512), Some(1_000_000)] {
        assert!(default_run_memory_mib(&None, host) >= MIN_RUN_MEMORY_MIB);
    }
}

#[test]
fn run_timeout_is_longer_under_tcg_than_kvm() {
    assert_eq!(default_run_timeout(&None, true), RUN_TIMEOUT_BASE_SECS);
    assert!(default_run_timeout(&None, false) > default_run_timeout(&None, true));
    assert_eq!(default_run_timeout(&Some(t("7")), true), 7);
}

#[test]
fn a_step_is_planned_for_the_machine() {
    let mut config =
        RunStepConfig::new(t("/usr/bin/qemu-system-aarch64"), true, t("make"), &facts());
    config.env.insert(t("A"), t("1"));
    let plan = plan_run_step("/s", &kernel(), &config, true, Architecture::X86_64).expect("plan");
    assert_eq!(plan.architecture, Architecture::Aarch64);
    assert_eq!(plan.kernel, "/s/boot/vmlinuz-6.6.79");
    assert_eq!(plan.command, "make");
    assert_eq!(plan.share, "/s");
    assert!(plan.kvm);
    assert!(plan.cmdline.contains(serial_console(Architecture::Aarch64)));
    assert_eq!(plan.env_body, env_body(&config.env));
    assert!(plan.env_body.expect("env").contains("A"));
    assert_eq!(env_body(&TextMap::new()), None);
}

#[test]
fn the_architecture_is_read_off_the_emulator() {
    assert_eq!(
        arch_from_qemu_path("/usr/bin/qemu-system-aarch64", Architecture::X86_64),
        Architecture::Aarch64
    );
    assert_eq!(
        arch_from_qemu_path("/usr/bin/qemu-system-x86_64", Architecture::Aarch64),
        Architecture::X86_64
    );
    assert_eq!(arch_from_qemu_path("/opt/qemu", Architecture::Aarch64), Architecture::Aarch64);
}

#[test]
fn the_end_of_a_step_is_read_off_its_marker() {
    let r = finish_run_step(VmEnd::Exited(Some(0)), 5, Some("3\n"), Some(t("out")), 9).expect("ok");
    assert_eq!((r.exit_code, r.serial_output.as_str(), r.duration_ms), (3, "out", 9));
    assert!(matches!(
        finish_run_step(VmEnd::TimedOut, 5, None, None, 9),
        Err(RunStepError::Timeout { timeout_secs: 5 })
    ));
    assert!(matches!(
        finish_run_step(VmEnd::Exited(Some(1)), 5, None, None, 9),
        Err(RunStepError::QemuAbnormalExit { code: Some(1) })
    ));
    assert!(matches!(
        finish_run_step(VmEnd::Exited(Some(0)), 5, None, None, 9),
        Err(RunStepError::GuestNeverFinished)
    ));
    assert!(matches!(
        finish_run_step(VmEnd::Exited(Some(0)), 5, Some("x"), None, 9),
        Err(RunStepError::MalformedExitCode(text)) if text == "x"
    ));
}
