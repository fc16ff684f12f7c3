//! Bootable builds: what a recipe must be, the commands of its `RUN`s, and the
//! build step by step.
use umf_builder::architecture::Architecture;
use umf_builder::ast::{
    Add, AddSource, Arg, Ast, Cmd, CmdForm, Directive, Entrypoint, EntrypointInit, Env, Expose,
    ExposeProtocol, FromSource, Label, Run, RunCommand, Shell, Stage, Stopsignal, User, Volume,
    Workdir,
};
use umf_builder::bootable::add::{
    check_staging_source, extract_failed, fetch_failed, place_copy, place_fetched, reject_traversal,
    staging_join, StagingAdd,
};
use umf_builder::bootable::build_vm;
use umf_builder::bootable::manifest::{
    appliance_init_cmdline, boot_manifest, entrypoint_label, image_config, quote_cmdline_token,
    rootfs_path,
};
use umf_builder::bootable::run::{
    check_run_step, is_default_shell, render_run_command, resolve_shell, shell_quote,
    wrap_run_command, RunAction, RunContext,
};
use umf_builder::bootable::validate::{pick_entrypoint, pick_flavor, validate_ast_for_vm};
use umf_builder::bootable::walk::{Phase, VmAction, VmWalk};
use umf_builder::bootable::{BootableBuildError, BootableBuildOptions};
use umf_builder::engine_build::add::{Format, Placement};
use umf_builder::fsutil::PathRefusal;
use umf_builder::image::ImageConfig;
use umf_builder::initrd::modules::InitramfsFlavor;
use umf_builder::initrd::{generate_initramfs_with_flavor, Busybox, ModuleFile};
use umf_builder::kernel::KernelLayout;
use umf_builder::l0::L0Kind;
use umf_builder::label;
use umf_builder::resolver::add::AddResolution;
use umf_builder::resolver::from_kernel::FromKernelResolution;
use umf_builder::resolver::{resolve_add, resolve_from_kernel, AddProvenance, FromKernelProvenance};
use umf_builder::runtime_config::{InitSystemKind, RuntimeConfigError};
use umf_builder::text_map::TextMap;
use umf_builder::vm_runner::RunStepResult;

fn t(s: &str) -> String {
    s.to_string()
}

fn ts(v: &[&str]) -> Vec<String> {
    v.iter().map(|s| s.to_string()).collect()
}

fn map(pairs: &[(&str, &str)]) -> TextMap<String> {
    let mut m = TextMap::new();
    for (k, v) in pairs {
        m.insert(k.to_string(), v.to_string());
    }
    m
}

fn get<'a>(m: &'a TextMap<String>, key: &str) -> Option<&'a str> {
    m.get(key).map(String::as_str)
}

fn stage(from: &str, directives: Vec<Directive>) -> Stage {
    Stage { from: FromSource::Reference(t(from)), name: None, directives }
}

fn recipe(stages: Vec<Stage>) -> Ast {
    Ast { global_args: Vec::new(), stages }
}

fn kernel_recipe(directives: Vec<Directive>) -> Ast {
    recipe(vec![stage("imagilux/kernel-linux:7.0", directives)])
}

fn flavor(value: &str) -> Directive {
    Directive::Label(Label { key: t("org.imagilux.umf.flavor"), value: t(value) })
}

fn entrypoint(init: EntrypointInit) -> Directive {
    Directive::Entrypoint(Entrypoint { init })
}

fn add(source: AddSource, destination: &str) -> Directive {
    Directive::Add(Add { source, destination: t(destination), from: None, plain_copy: false })
}

fn add_from(stage: &str, source: &str, destination: &str) -> Directive {
    Directive::Add(Add {
        source: AddSource::Path(t(source)),
        destination: t(destination),
        from: Some(t(stage)),
        plain_copy: false,
    })
}

fn run_shell(line: &str) -> Directive {
    Directive::Run(Run { command: RunCommand::Shell(t(line)), mounts: Vec::new() })
}

fn options() -> BootableBuildOptions {
    BootableBuildOptions::new(Architecture::X86_64)
}

fn options_with_overrides() -> BootableBuildOptions {
    let mut opts = options();
    opts.from_kernel_path_override = Some(t("/tmp/kernel.tar"));
    opts
}

fn kernel_from(options: &BootableBuildOptions, reference: String) -> FromKernelProvenance {
    match &options.from_kernel_path_override {
        Some(path) => {
            let file = Some((path.as_str(), true));
            match resolve_from_kernel(&reference, file, None, &Vec::new(), false) {
                Ok(FromKernelResolution::Found(kernel)) => kernel.provenance,
                _ => panic!("the file is there"),
            }
        }
        None => FromKernelProvenance::Cache(reference),
    }
}

fn image_from(options: &BootableBuildOptions, reference: &str, first: bool) -> AddProvenance {
    match &options.rootfs_path_override {
        Some(path) if first => {
            let file = Some((path.as_str(), true));
            match resolve_add(reference, file, None, &Vec::new(), false) {
                Ok(AddResolution::Found(image)) => image.provenance,
                _ => panic!("the file is there"),
            }
        }
        _ => AddProvenance::Cache(t(reference)),
    }
}

fn layout(root: &str, release: &str) -> KernelLayout {
    KernelLayout {
        release: t(release),
        vmlinuz: format!("{root}/boot/vmlinuz-{release}"),
        modules: format!("{root}/lib/modules/{release}"),
    }
}

fn ok_run() -> RunStepResult {
    RunStepResult { exit_code: 0, serial_output: t("done"), duration_ms: 3 }
}

/// What a build came to: its `ADD`s, its commands, the configuration of its
/// image, and the rest of its output.
struct Built {
    adds: Vec<StagingAdd>,
    commands: Vec<(String, TextMap<String>)>,
    directories: Vec<String>,
    config: ImageConfig,
    firewall: bool,
    trail: Vec<&'static str>,
    output: umf_builder::bootable::BootableBuildOutput,
}

/// Carries a build out with nothing behind the actions.
fn drive(
    ast: &Ast,
    options: &BootableBuildOptions,
    produced: &TextMap<String>,
    release: &str,
) -> Result<Built, BootableBuildError> {
    let root = "/tmp/staging";
    let mut walk = VmWalk::start(ast, options, produced, root)?;
    let mut adds = Vec::new();
    let mut commands = Vec::new();
    let mut directories = Vec::new();
    let mut config = None;
    let mut firewall = false;
    let mut trail = Vec::new();
    let mut kept = None;
    loop {
        match walk.next()? {
            VmAction::ResolveKernel(reference) => {
                trail.push("kernel");
                walk.on_kernel(kernel_from(options, reference));
            }
            VmAction::Add(add) => {
                trail.push("add");
                if let StagingAdd::Image { reference, first } = &add {
                    walk.on_added(image_from(options, reference, *first));
                }
                adds.push(add);
            }
            VmAction::UnpackKernel => trail.push("unpack"),
            VmAction::ReadLayout => {
                trail.push("layout");
                walk.on_layout(layout(root, release));
            }
            VmAction::Configure(f) => {
                trail.push("configure");
                firewall = f.is_some();
            }
            VmAction::Run(RunAction::Nothing) | VmAction::Nothing => {}
            VmAction::Run(RunAction::MakeDirectory(dir)) => directories.push(dir),
            VmAction::Run(RunAction::Execute { command, env }) => {
                trail.push("run");
                walk.on_run(command.as_str(), ok_run())?;
                commands.push((command, env));
            }
            VmAction::MakeInitramfs => {
                trail.push("initramfs");
                let busybox = Busybox { bytes: b"#fake-busybox-ELF".to_vec(), mode: 0o755 };
                let modules = vec![ModuleFile {
                    path: t("kernel/fs/squashfs/squashfs.ko"),
                    bytes: b"SQFS".to_vec(),
                }];
                let (bytes, report) = generate_initramfs_with_flavor(
                    root,
                    Some(&busybox),
                    release,
                    &modules,
                    InitramfsFlavor::Boot,
                )
                .map_err(BootableBuildError::Initrd)?;
                assert_eq!(&bytes[..2], &[0x1f, 0x8b], "initramfs not gzip");
                walk.on_initramfs(report);
            }
            VmAction::Emit(c) => {
                trail.push("emit");
                config = Some(c);
            }
            VmAction::Persist(path) => {
                trail.push("persist");
                kept = Some(path);
            }
            VmAction::Finish => break,
        }
    }
    assert_eq!(walk.phase, Phase::Done);
    let output = walk.finish(t("sha256:image"), kept);
    let config = config.expect("an image was emitted");
    Ok(Built { adds, commands, directories, config, firewall, trail, output })
}

// The commands of a `RUN`

fn sh() -> Vec<String> {
    ts(&["/bin/sh", "-c"])
}

fn bash() -> Vec<String> {
    ts(&["/bin/bash", "-c"])
}

#[test]
fn default_context_returns_command_verbatim() {
    let cmd = "apk add --no-cache busybox && echo done";
    assert_eq!(wrap_run_command(cmd, &sh(), None, None), cmd);
}

#[test]
fn shell_none_is_treated_as_default() {
    assert!(is_default_shell(&resolve_shell(&Vec::new())));
    let cmd = "true";
    assert_eq!(wrap_run_command(cmd, &resolve_shell(&Vec::new()), None, None), cmd);
}

#[test]
fn workdir_prepends_cd() {
    assert_eq!(wrap_run_command("make", &sh(), None, Some("/src")), "cd '/src' && make");
}

#[test]
fn custom_shell_wraps_in_interpreter() {
    assert_eq!(
        wrap_run_command("echo $0", &bash(), None, None),
        "'/bin/bash' '-c' 'echo $0'"
    );
}

#[test]
fn user_drops_with_runuser_and_explicit_interpreter() {
    assert_eq!(
        wrap_run_command("id -un", &sh(), Some("app"), None),
        "runuser -u 'app' -- '/bin/sh' '-c' 'id -un'"
    );
}

#[test]
fn all_three_compose_user_outermost() {
    assert_eq!(
        wrap_run_command("cargo build", &bash(), Some("builder"), Some("/work")),
        "runuser -u 'builder' -- '/bin/bash' '-c' 'cd '\\''/work'\\'' && cargo build'"
    );
}

#[test]
fn shell_quote_escapes_embedded_single_quotes() {
    assert_eq!(shell_quote("a'b"), r"'a'\''b'");
}

#[test]
fn shell_quote_of_the_empty_text_is_a_word() {
    assert_eq!(shell_quote(""), "''");
    assert_eq!(shell_quote("a b"), "'a b'");
}

#[test]
fn render_run_shell_substitutes_against_scope() {
    let s = map(&[("PKG", "busybox")]);
    assert_eq!(
        render_run_command(&RunCommand::Shell(t("apk add ${PKG} && echo $HOME")), &s),
        "apk add busybox && echo $HOME"
    );
}

#[test]
fn render_run_exec_substitutes_then_quotes_each_arg() {
    let s = map(&[("BIN", "my tool")]);
    assert_eq!(
        render_run_command(&RunCommand::Exec(ts(&["/usr/bin/${BIN}", "--run"])), &s),
        "'/usr/bin/my tool' '--run'"
    );
}

#[test]
fn render_run_unknown_var_is_left_verbatim() {
    let s = map(&[]);
    assert_eq!(
        render_run_command(&RunCommand::Shell(t("echo ${MISSING}")), &s),
        "echo ${MISSING}"
    );
}

#[test]
fn resolve_shell_uses_argv_verbatim_and_defaults_when_empty() {
    assert_eq!(
        resolve_shell(&ts(&["/bin/bash", "-euo", "pipefail", "-c"])),
        vec!["/bin/bash", "-euo", "pipefail", "-c"]
    );
    assert_eq!(resolve_shell(&Vec::new()), vec!["/bin/sh", "-c"]);
}

// What a recipe must be

#[test]
fn a_repeated_flavor_label_takes_the_last_value() {
    let stage = stage(
        "registry.example.com/kernels/linux:7.0",
        vec![flavor("systemd-boot"), flavor("uki"), entrypoint(EntrypointInit::Systemd)],
    );
    assert_eq!(pick_flavor(&stage), (t("uki"), false));
}

#[test]
fn a_single_flavor_label_is_used_and_absence_defaults() {
    let declared = stage(
        "registry.example.com/kernels/linux:7.0",
        vec![flavor("uki"), entrypoint(EntrypointInit::Systemd)],
    );
    assert_eq!(pick_flavor(&declared), (t("uki"), false));

    let absent = stage(
        "registry.example.com/kernels/linux:7.0",
        vec![entrypoint(EntrypointInit::Systemd)],
    );
    let (flavor, defaulted) = pick_flavor(&absent);
    assert_eq!(flavor, "systemd-boot");
    assert!(defaulted, "an absent label must report as defaulted");
}

#[test]
fn unrelated_labels_do_not_affect_the_flavor() {
    let stage = stage(
        "registry.example.com/kernels/linux:7.0",
        vec![
            Directive::Label(Label {
                key: t("org.opencontainers.image.version"),
                value: t("1.2.3"),
            }),
            flavor("uki"),
            Directive::Label(Label { key: t("maintainer"), value: t("someone") }),
            entrypoint(EntrypointInit::Systemd),
        ],
    );
    assert_eq!(pick_flavor(&stage), (t("uki"), false));
}

#[test]
fn no_entrypoint_yields_none() {
    let stage = stage("registry.example.com/kernels/linux:7.0", Vec::new());
    assert!(pick_entrypoint(&stage).is_none());
}

#[test]
fn validate_ast_for_vm_picks_last_stage() {
    let ast = recipe(vec![
        Stage { from: FromSource::Scratch, name: Some(t("prep")), directives: Vec::new() },
        stage(
            "imagilux/kernel-linux:7.0",
            vec![entrypoint(EntrypointInit::Path(t("/myapp")))],
        ),
    ]);
    let stage = validate_ast_for_vm(&ast).expect("last stage is the bootable stage");
    match &stage.from {
        FromSource::Reference(r) => assert_eq!(r.as_str(), "imagilux/kernel-linux:7.0"),
        FromSource::Scratch => {
            panic!("picked the scratch producer stage, not the final kernel stage")
        }
    }
}

#[test]
fn validate_ast_for_vm_rejects_container_only_directives() {
    let cmd = Directive::Cmd(Cmd { command: CmdForm::Shell(t("echo hi")) });
    let volume = Directive::Volume(Volume { paths: ts(&["/data"]) });
    let signal = Directive::Stopsignal(Stopsignal { signal: t("SIGTERM") });
    for (directive, want) in [(cmd, "CMD"), (volume, "VOLUME"), (signal, "STOPSIGNAL")] {
        let ast = kernel_recipe(vec![entrypoint(EntrypointInit::Systemd), directive]);
        match validate_ast_for_vm(&ast) {
            Err(BootableBuildError::ContainerOnlyDirective { directive }) => {
                assert_eq!(directive, want);
            }
            other => panic!("expected ContainerOnlyDirective({want}), got {other:?}"),
        }
    }
}

#[test]
fn a_recipe_without_stages_or_without_a_kernel_is_refused() {
    assert!(matches!(
        validate_ast_for_vm(&recipe(Vec::new())),
        Err(BootableBuildError::EmptyAst)
    ));
    let scratch = recipe(vec![Stage {
        from: FromSource::Scratch,
        name: None,
        directives: Vec::new(),
    }]);
    assert!(matches!(
        build_vm(&scratch, &options()),
        Err(BootableBuildError::VmRequiresKernelFromRef)
    ));
}

#[test]
fn the_kernel_reference_is_substituted_against_the_globals() {
    let mut ast = recipe(vec![stage("imagilux/kernel-linux:${V}", Vec::new())]);
    ast.global_args.push(Arg { name: t("V"), default: Some(t("7.0")) });
    let plan = build_vm(&ast, &options()).expect("plan");
    assert_eq!(plan.from_kernel_ref, "imagilux/kernel-linux:7.0");
    assert_eq!(plan.flavor, "systemd-boot");
    assert!(plan.flavor_defaulted);
    assert!(plan.needs_initramfs, "systemd is the default");
    assert_eq!(get(&plan.globals, "V"), Some("7.0"));
}

// The kernel's command line

#[test]
fn appliance_cmdline_path_form() {
    assert_eq!(
        appliance_init_cmdline(&EntrypointInit::Path(t("/myapp"))),
        Some(" init=/myapp".to_string())
    );
}

#[test]
fn appliance_cmdline_path_form_preserves_spaces_in_binary_path() {
    assert_eq!(
        appliance_init_cmdline(&EntrypointInit::Path(t("/opt/my app/run"))),
        Some(" init=\"/opt/my app/run\"".to_string())
    );
}

#[test]
fn appliance_cmdline_exec_form_quotes_whitespace_args() {
    let argv = ts(&["/usr/sbin/nginx", "-g", "daemon off;"]);
    assert_eq!(
        appliance_init_cmdline(&EntrypointInit::Exec(argv)),
        Some(" init=/usr/sbin/nginx -- -g \"daemon off;\"".to_string())
    );
}

#[test]
fn appliance_cmdline_none_for_init_systems_and_none() {
    assert_eq!(appliance_init_cmdline(&EntrypointInit::Systemd), None);
    assert_eq!(appliance_init_cmdline(&EntrypointInit::OpenRc), None);
    assert_eq!(appliance_init_cmdline(&EntrypointInit::NoInit), None);
    assert_eq!(appliance_init_cmdline(&EntrypointInit::Exec(Vec::new())), None);
}

#[test]
fn only_a_token_with_a_space_is_quoted() {
    assert_eq!(quote_cmdline_token("a\"b"), "a\"b");
    assert_eq!(quote_cmdline_token("a \"b"), "\"a \\\"b\"");
    assert_eq!(quote_cmdline_token("a\tb"), "\"a\tb\"");
}

// The labels

#[test]
fn the_labels_of_an_init_system_image() {
    let labels = boot_manifest(
        &EntrypointInit::OpenRc,
        &layout("/tmp/x", "6.6"),
        "/tmp/x",
        Some("initramfs-6.6.img"),
        "uki",
    );
    assert_eq!(get(&labels, label::ENTRYPOINT), Some("openrc"));
    assert_eq!(get(&labels, label::KERNEL_RELEASE), Some("6.6"));
    assert_eq!(get(&labels, label::KERNEL_VMLINUZ), Some("/boot/vmlinuz-6.6"));
    assert_eq!(get(&labels, label::KERNEL_CMDLINE), None);
    assert_eq!(get(&labels, label::INITRAMFS), Some("/boot/initramfs-6.6.img"));
    assert_eq!(get(&labels, label::ROOTFS_FS), Some("squashfs"));
    assert_eq!(get(&labels, label::FLAVOR), Some("uki"));
    let config = image_config(Architecture::Aarch64, labels);
    assert_eq!(config.architecture, "arm64");
    assert_eq!(config.os, "linux");
    assert_eq!(config.umf_type, L0Kind::Bootable);
}

#[test]
fn a_path_outside_the_root_keeps_its_text() {
    assert_eq!(rootfs_path("/tmp/x/boot/vmlinuz-7.0", "/tmp/x"), "/boot/vmlinuz-7.0");
    assert_eq!(rootfs_path("boot/vmlinuz", "/tmp/x"), "/boot/vmlinuz");
    assert_eq!(entrypoint_label(&EntrypointInit::NoInit), "none");
    assert_eq!(entrypoint_label(&EntrypointInit::Path(t("/a"))), "appliance");
}

// The `ADD`s

#[test]
fn staging_paths_stay_below_the_root() {
    assert_eq!(staging_join("/tmp/s", "/etc/x"), "/tmp/s/etc/x");
    assert_eq!(staging_join("/tmp/s", "etc/x"), "/tmp/s/etc/x");
    assert!(reject_traversal("source", "a/../../b").is_err());
    assert!(reject_traversal("source", "a/b..c").is_ok());
}

#[test]
fn a_copied_source_is_placed_by_its_shape() {
    assert_eq!(place_copy("/etc/", "/ctx/a.conf", false).unwrap(), "/etc/a.conf");
    assert_eq!(place_copy("/etc/b.conf", "/ctx/a.conf", false).unwrap(), "/etc/b.conf");
    assert_eq!(place_copy("/opt", "/ctx/dir", true).unwrap(), "/opt/");
    assert!(matches!(
        place_copy("/opt/../x", "/ctx/dir", true),
        Err(BootableBuildError::AddPathTraversal { kind: "destination", .. })
    ));
}

#[test]
fn a_fetched_payload_is_placed_by_its_format() {
    match place_fetched(Format::Gzip, "https://example.com/a.tgz", "/opt") {
        Ok(Placement::Unpack { directory }) => assert_eq!(directory, "/opt"),
        other => panic!("expected an unpack, got {other:?}"),
    }
    match place_fetched(Format::Unknown, "https://example.com/notes.txt", "/docs/") {
        Ok(Placement::File { path }) => assert_eq!(path, "/docs/notes.txt"),
        other => panic!("expected a file, got {other:?}"),
    }
    match place_fetched(Format::Zstd, "https://example.com/a.zst", "/opt") {
        Err(BootableBuildError::AddUrlArchiveUnsupported { url, format }) => {
            assert_eq!(url, "https://example.com/a.zst");
            assert_eq!(format, "zstd");
        }
        other => panic!("expected a refusal, got {other:?}"),
    }
}

#[test]
fn the_failures_of_an_add_name_their_source() {
    assert!(matches!(
        fetch_failed("u", t("d")),
        BootableBuildError::AddUrlFetch { url, detail } if url == "u" && detail == "d"
    ));
    assert!(matches!(
        extract_failed("u", Format::Tar, t("d")),
        BootableBuildError::AddUrlExtract { url, format, detail }
            if url == "u" && format == "tar" && detail == "d"
    ));
    assert!(check_staging_source("/ctx", "/ctx/a", Some("/ctx/a"), "a", "/ctx").is_ok());
    assert!(matches!(
        check_staging_source("/ctx", "/ctx/a", None, "a", "/ctx"),
        Err(BootableBuildError::AddSourceNotFound { path, context })
            if path == "a" && context == "/ctx"
    ));
    assert!(matches!(
        check_staging_source("/ctx", "/ctx/a", Some("/etc/shadow"), "a", "/ctx"),
        Err(BootableBuildError::Path(PathRefusal::OutsideRoot { .. }))
    ));
}

// The build step by step

#[test]
fn single_stage_add_from_unknown_stage_errors() {
    let ast = kernel_recipe(vec![add_from("builder", "/src", "/dst")]);
    match drive(&ast, &options_with_overrides(), &map(&[]), "7.0") {
        Err(BootableBuildError::AddFromUnknownStage { stage }) => assert_eq!(stage, "builder"),
        Err(other) => panic!("expected AddFromUnknownStage, got {other:?}"),
        Ok(_) => panic!("expected AddFromUnknownStage"),
    }
}

#[test]
fn local_add_lands_in_staging() {
    let ast = kernel_recipe(vec![
        flavor("systemd-boot"),
        add(AddSource::Oci(t("alpine:3.21.0")), "/"),
        add(AddSource::Path(t("./extra.conf")), "/etc/extra.conf"),
        entrypoint(EntrypointInit::Path(t("/myapp"))),
    ]);
    let mut opts = options_with_overrides();
    opts.rootfs_path_override = Some(t("/tmp/rootfs.tar"));
    opts.staging_keep_path = Some(t("/kept"));
    opts.context = t("/ctx");
    let built = drive(&ast, &opts, &map(&[]), "7.0").expect("build");
    assert_eq!(built.output.staging_path.as_deref(), Some("/kept"));
    assert_eq!(built.adds.len(), 2);
    assert!(matches!(
        &built.adds[0],
        StagingAdd::Image { reference, first: true } if reference == "alpine:3.21.0"
    ));
    match &built.adds[1] {
        StagingAdd::Local { source, below_context, destination } => {
            assert_eq!(source, "./extra.conf");
            assert_eq!(below_context, "./extra.conf");
            let inside = place_copy(destination, "/ctx/./extra.conf", false).unwrap();
            assert_eq!(staging_join("/kept", &inside), "/kept/etc/extra.conf");
        }
        other => panic!("expected a local ADD, got {other:?}"),
    }
    assert_eq!(
        built.trail,
        vec!["kernel", "add", "add", "unpack", "layout", "configure", "emit", "persist"]
    );
}

#[test]
fn local_add_rejects_parent_dir_traversal() {
    let ast = kernel_recipe(vec![
        add(AddSource::Oci(t("alpine:3.21.0")), "/"),
        add(AddSource::Path(t("../escape")), "/loot"),
        entrypoint(EntrypointInit::Path(t("/myapp"))),
    ]);
    let mut opts = options_with_overrides();
    opts.rootfs_path_override = Some(t("/tmp/rootfs.tar"));
    match drive(&ast, &opts, &map(&[]), "7.0") {
        Err(BootableBuildError::AddPathTraversal { kind, .. }) => assert_eq!(kind, "source"),
        Err(other) => panic!("expected AddPathTraversal, got {other:?}"),
        Ok(_) => panic!("expected AddPathTraversal"),
    }
}

#[test]
fn local_add_destination_substitutes_against_build_arg() {
    let ast = kernel_recipe(vec![
        Directive::Arg(Arg { name: t("DEST"), default: Some(t("/opt")) }),
        add(AddSource::Path(t("greeting.txt")), "${DEST}/"),
        entrypoint(EntrypointInit::Path(t("/myapp"))),
    ]);
    let mut opts = options_with_overrides();
    opts.context = t("/ctx");
    opts.build_args = map(&[("DEST", "/srv")]);
    opts.staging_keep_path = Some(t("/kept"));
    let built = drive(&ast, &opts, &map(&[]), "7.0").expect("build");
    assert_eq!(built.output.staging_path.as_deref(), Some("/kept"));
    match &built.adds[0] {
        StagingAdd::Local { destination, .. } => {
            let inside = place_copy(destination, "/ctx/greeting.txt", false).unwrap();
            assert_eq!(staging_join("/kept", &inside), "/kept/srv/greeting.txt");
        }
        other => panic!("expected a local ADD, got {other:?}"),
    }
}

#[test]
fn a_staged_source_is_kept_as_written() {
    let ast = kernel_recipe(vec![
        Directive::Arg(Arg { name: t("DIR"), default: Some(t("conf")) }),
        add(AddSource::Path(t("${DIR}/a")), "/etc/a"),
        entrypoint(EntrypointInit::Path(t("/myapp"))),
    ]);
    let built = drive(&ast, &options(), &map(&[]), "7.0").expect("build");
    match &built.adds[0] {
        StagingAdd::Local { source, below_context, .. } => {
            assert_eq!((source.as_str(), below_context.as_str()), ("${DIR}/a", "conf/a"));
        }
        other => panic!("expected a local ADD, got {other:?}"),
    }
}

#[test]
fn add_source_arg_expanding_to_traversal_is_rejected() {
    let ast = kernel_recipe(vec![
        Directive::Arg(Arg { name: t("EVIL"), default: Some(t("../../..")) }),
        add(AddSource::Path(t("${EVIL}/etc/passwd")), "/loot"),
        entrypoint(EntrypointInit::Path(t("/myapp"))),
    ]);
    match drive(&ast, &options_with_overrides(), &map(&[]), "7.0") {
        Err(BootableBuildError::AddPathTraversal { kind, .. }) => assert_eq!(kind, "source"),
        Err(other) => panic!("expected AddPathTraversal, got {other:?}"),
        Ok(_) => panic!("expected AddPathTraversal"),
    }
}

#[test]
fn builds_minimal_bootable_image() {
    let ast = kernel_recipe(vec![
        flavor("systemd-boot"),
        entrypoint(EntrypointInit::Path(t("/myapp"))),
    ]);
    let mut opts = options_with_overrides();
    opts.staging_keep_path = Some(t("/tmp/kept"));
    let built = drive(&ast, &opts, &map(&[]), "7.0").expect("build_vm");
    assert!(!built.output.image_digest.is_empty());
    assert_eq!(built.config.umf_type, L0Kind::Bootable);
    let labels = &built.config.container.labels;
    assert_eq!(
        get(labels, label::ENTRYPOINT),
        Some("appliance"),
        "a binary ENTRYPOINT is the appliance shape"
    );
    assert_eq!(get(labels, label::KERNEL_RELEASE), Some("7.0"));
    assert_eq!(get(labels, label::KERNEL_VMLINUZ), Some("/boot/vmlinuz-7.0"));
    assert_eq!(get(labels, label::FLAVOR), Some("systemd-boot"));
    assert_eq!(get(labels, label::KERNEL_CMDLINE), Some("init=/myapp"));
    assert_eq!(get(labels, label::INITRAMFS), None);
    assert_eq!(built.output.staging_path.as_deref(), Some("/tmp/kept"));
    assert_eq!(built.output.flavor, "systemd-boot");
    assert!(built.output.initrd_report.is_none());
    assert_eq!(
        built.trail,
        vec!["kernel", "unpack", "layout", "configure", "emit", "persist"]
    );
}

#[test]
fn rootfs_and_from_kernel_layer_into_shared_staging() {
    let release = "7.0";
    let ast = kernel_recipe(vec![
        flavor("systemd-boot"),
        add(AddSource::Oci(t("alpine:3.21.0")), "/"),
        entrypoint(EntrypointInit::Systemd),
    ]);
    let mut opts = options_with_overrides();
    opts.rootfs_path_override = Some(t("/tmp/rootfs.tar"));
    opts.staging_keep_path = Some(t("/tmp/kept"));
    let built = drive(&ast, &opts, &map(&[]), release).expect("build_vm");
    match built.output.add_sources.as_slice() {
        [AddProvenance::Override(p)] => assert_eq!(p, "/tmp/rootfs.tar"),
        other => panic!("expected one AddProvenance::Override, got {other:?}"),
    }
    match &built.output.kernel_source {
        FromKernelProvenance::Override(p) => assert_eq!(p, "/tmp/kernel.tar"),
        other => panic!("expected FromKernelProvenance::Override, got {other:?}"),
    }
    assert_eq!(built.output.kernel_layout.release, release);
    assert_eq!(built.output.staging_path.as_deref(), Some("/tmp/kept"));
    assert_eq!(
        built.trail,
        vec!["kernel", "add", "unpack", "layout", "configure", "initramfs", "emit", "persist"]
    );
}

#[test]
fn only_the_first_added_image_may_be_overridden() {
    let ast = kernel_recipe(vec![
        add(AddSource::Oci(t("alpine:3.21.0")), "/"),
        add(AddSource::Oci(t("extra:1")), "/"),
        entrypoint(EntrypointInit::Path(t("/myapp"))),
    ]);
    let mut opts = options();
    opts.rootfs_path_override = Some(t("/tmp/rootfs.tar"));
    let built = drive(&ast, &opts, &map(&[]), "7.0").expect("build_vm");
    match built.output.add_sources.as_slice() {
        [AddProvenance::Override(p), AddProvenance::Cache(r)] => {
            assert_eq!(p, "/tmp/rootfs.tar");
            assert_eq!(r, "extra:1");
        }
        other => panic!("unexpected sources: {other:?}"),
    }
}

#[test]
fn initramfs_in_rootfs_when_entrypoint_is_init_system() {
    let release = "7.0";
    let ast = kernel_recipe(vec![
        flavor("systemd-boot"),
        add(AddSource::Oci(t("alpine:3.21.0")), "/"),
        entrypoint(EntrypointInit::Systemd),
    ]);
    let mut opts = options_with_overrides();
    opts.rootfs_path_override = Some(t("/tmp/rootfs.tar"));
    opts.staging_keep_path = Some(t("/tmp/kept"));
    let built = drive(&ast, &opts, &map(&[]), release).expect("build_vm");
    assert_eq!(built.output.staging_path.as_deref(), Some("/tmp/kept"));
    let report = built.output.initrd_report.expect("initrd_report present");
    assert_eq!(report.filename, format!("initramfs-{release}.img"));
    assert!(report.modules_count >= 1, "report: {report:?}");
    let want_initramfs = format!("/boot/{}", report.filename);
    let labels = &built.config.container.labels;
    assert_eq!(get(labels, label::INITRAMFS), Some(want_initramfs.as_str()));
    assert_eq!(get(labels, label::ENTRYPOINT), Some("systemd"));
}

#[test]
fn multi_stage_bootable_add_from_copies_into_rootfs() {
    let produced = map(&[("prep", "umf-build/stage-0:internal")]);
    let ast = recipe(vec![
        Stage { from: FromSource::Scratch, name: Some(t("prep")), directives: Vec::new() },
        stage(
            "imagilux/kernel-linux:7.0",
            vec![
                flavor("systemd-boot"),
                add_from("prep", "/opt/payload.txt", "/etc/from-prep.txt"),
                entrypoint(EntrypointInit::Path(t("/myapp"))),
            ],
        ),
    ]);
    let mut opts = options_with_overrides();
    opts.staging_keep_path = Some(t("/kept"));
    let built = drive(&ast, &opts, &produced, "7.0").expect("build_vm");
    assert_eq!(built.output.staging_path.as_deref(), Some("/kept"));
    match &built.adds[0] {
        StagingAdd::FromStage { stage, producer_ref, below_root, destination, .. } => {
            assert_eq!(stage, "prep");
            assert_eq!(producer_ref, "umf-build/stage-0:internal");
            assert_eq!(below_root, "opt/payload.txt");
            let inside = place_copy(destination, "/rootfs/opt/payload.txt", false).unwrap();
            assert_eq!(staging_join("/kept", &inside), "/kept/etc/from-prep.txt");
        }
        other => panic!("expected a cross-stage ADD, got {other:?}"),
    }
}

#[test]
fn the_runs_see_what_came_before_them() {
    let ast = kernel_recipe(vec![
        Directive::Arg(Arg { name: t("V"), default: Some(t("1")) }),
        Directive::Env(Env { key: t("A"), value: t("v${V}") }),
        run_shell("first ${V}"),
        Directive::Workdir(Workdir { path: t("/opt/app") }),
        Directive::Workdir(Workdir { path: t("sub") }),
        Directive::User(User { name: t("app") }),
        Directive::Shell(Shell { argv: ts(&["/bin/bash", "-c"]) }),
        Directive::Env(Env { key: t("A"), value: t("2") }),
        run_shell("second"),
        Directive::Expose(Expose { port: 22, protocol: ExposeProtocol::Tcp }),
        entrypoint(EntrypointInit::Path(t("/myapp"))),
    ]);
    let mut opts = options();
    opts.qemu_path = Some(t("/usr/bin/qemu-system-x86_64"));
    let built = drive(&ast, &opts, &map(&[]), "7.0").expect("build_vm");
    assert_eq!(built.commands[0].0, "first 1");
    assert_eq!(get(&built.commands[0].1, "A"), Some("v1"));
    assert_eq!(
        built.commands[1].0,
        "runuser -u 'app' -- '/bin/bash' '-c' 'cd '\\''/opt/app/sub'\\'' && second'"
    );
    assert_eq!(get(&built.commands[1].1, "A"), Some("2"));
    assert_eq!(built.directories, ts(&["opt/app", "opt/app/sub"]));
    assert!(built.firewall);
    assert_eq!(built.output.run_step_reports.len(), 2);
    let report = built.output.runtime_config.expect("report");
    assert_eq!(report.exposed_ports, 1);
    assert_eq!(report.init_system, Some(InitSystemKind::Binary));
    assert_eq!(
        built.trail,
        vec!["kernel", "unpack", "layout", "configure", "run", "run", "emit"]
    );
}

#[test]
fn a_run_needs_qemu() {
    let ast = kernel_recipe(vec![run_shell("true")]);
    assert!(matches!(
        drive(&ast, &options(), &map(&[]), "7.0"),
        Err(BootableBuildError::RunWithoutQemu)
    ));
}

#[test]
fn an_image_that_starts_nothing_is_refused() {
    let ast = kernel_recipe(vec![entrypoint(EntrypointInit::NoInit)]);
    assert!(matches!(
        drive(&ast, &options(), &map(&[]), "7.0"),
        Err(BootableBuildError::RuntimeConfig(RuntimeConfigError::EntrypointNone))
    ));
}

#[test]
fn a_failed_run_ends_the_build() {
    let failed = RunStepResult { exit_code: 3, serial_output: t("boom"), duration_ms: 1 };
    match check_run_step("false", &failed) {
        Err(BootableBuildError::RunStepFailed { command, exit_code, serial_output }) => {
            assert_eq!(command, "false");
            assert_eq!(exit_code, 3);
            assert_eq!(serial_output, "boom");
        }
        other => panic!("expected RunStepFailed, got {other:?}"),
    }
    let ast = kernel_recipe(vec![run_shell("true")]);
    let mut opts = options();
    opts.qemu_path = Some(t("/usr/bin/qemu-system-x86_64"));
    let produced = map(&[]);
    let mut walk = VmWalk::start(&ast, &opts, &produced, "/tmp/s").unwrap();
    loop {
        match walk.next().unwrap() {
            VmAction::ResolveKernel(r) => walk.on_kernel(FromKernelProvenance::Cache(r)),
            VmAction::ReadLayout => walk.on_layout(layout("/tmp/s", "7.0")),
            VmAction::Run(RunAction::Execute { command, .. }) => {
                assert!(walk.on_run(&command, failed).is_err());
                assert!(walk.reports.is_empty());
                assert!(walk.on_run(&command, ok_run()).is_ok());
                assert_eq!(walk.reports.len(), 1);
                break;
            }
            _ => {}
        }
    }
}

#[test]
fn an_unused_context_changes_no_command() {
    let mut context = RunContext::new(&map(&[]));
    match context.step(&run_shell("echo hi"), &map(&[]), true) {
        Ok(RunAction::Execute { command, env }) => {
            assert_eq!(command, "echo hi");
            assert!(env.is_empty());
        }
        other => panic!("expected a command, got {other:?}"),
    }
}
