//! The directives of a container build that only change its configuration, and
//! `WORKDIR`.
use umf_builder::architecture::Architecture;
use umf_builder::ast::{
    Add, AddSource, Arg, Cmd, CmdForm, Directive, Entrypoint, EntrypointInit, Env, Expose,
    ExposeProtocol, Label, Run, RunCommand, Shell, Stopsignal, User, Volume, Workdir,
};
use umf_builder::engine_build::base_image::scratch_base_image;
use umf_builder::engine_build::directives::{
    apply_arg, apply_cmd, apply_entrypoint, apply_env, apply_expose, apply_label, apply_shell,
    apply_stopsignal, apply_user, apply_volume, apply_workdir, argv_with_shell,
    classify_directive, describe_directive, plan_workdir, render_command, truncate_for_prompt,
    StepKind,
};
use umf_builder::engine_build::state::{
    default_shell_argv, layer_from_cache, store_layer_cache, BuildState,
};
use umf_builder::image::{LayerCompression, LayerSource};
use umf_builder::text_map::TextMap;

const NOW: &str = "2026-01-02T03:04:05Z";

fn t(s: &str) -> String {
    s.to_string()
}

fn ts(v: &[&str]) -> Vec<String> {
    v.iter().map(|s| s.to_string()).collect()
}

fn empty_state() -> BuildState {
    BuildState::new(
        scratch_base_image(Architecture::X86_64),
        LayerCompression::Gzip,
        &TextMap::new(),
    )
}

fn last_history(state: &BuildState) -> String {
    state
        .image_config
        .history
        .last()
        .and_then(|h| h.created_by.clone())
        .expect("a history entry")
}

fn layer(diff_id: &str) -> LayerSource {
    LayerSource { data: b"data".to_vec(), media_type: t("media"), diff_id: t(diff_id) }
}

#[test]
fn truncate_for_prompt_is_char_safe() {
    let s = format!("{}é-and-some-more-text", "a".repeat(78));
    let out = truncate_for_prompt(&s, 80);
    assert!(out.ends_with('…'));
    assert!(out.chars().count() <= 80);
    assert_eq!(truncate_for_prompt("RUN echo café", 80), "RUN echo café");
}

#[test]
fn expose_appends_to_image_config_exposed_ports() {
    let mut state = empty_state();
    for port in [80, 443, 80] {
        apply_expose(&mut state, &Expose { port, protocol: ExposeProtocol::Tcp }, NOW);
    }
    assert_eq!(
        state.image_config.container.exposed_ports,
        vec!["80/tcp".to_string(), "443/tcp".to_string()],
    );
}

#[test]
fn cmd_exec_sets_oci_cmd() {
    let mut state = empty_state();
    apply_cmd(&mut state, &Cmd { command: CmdForm::Exec(ts(&["/app", "--flag"])) }, NOW);
    assert_eq!(
        state.image_config.container.cmd,
        Some(vec!["/app".to_string(), "--flag".to_string()])
    );
}

#[test]
fn cmd_shell_wraps_with_the_build_shell() {
    let mut state = empty_state();
    apply_cmd(&mut state, &Cmd { command: CmdForm::Shell(t("echo hi")) }, NOW);
    assert_eq!(
        state.image_config.container.cmd,
        Some(vec!["/bin/sh".to_string(), "-c".to_string(), "echo hi".to_string()])
    );
}

#[test]
fn volume_dedups_and_sets_oci_volumes() {
    let mut state = empty_state();
    apply_volume(&mut state, &Volume { paths: ts(&["/data", "/data", "/log"]) }, NOW);
    assert_eq!(
        state.image_config.container.volumes,
        vec!["/data".to_string(), "/log".to_string()]
    );
}

#[test]
fn stopsignal_sets_oci_stop_signal() {
    let mut state = empty_state();
    apply_stopsignal(&mut state, &Stopsignal { signal: t("SIGTERM") }, NOW);
    assert_eq!(state.image_config.container.stop_signal, Some("SIGTERM".to_string()));
}

#[test]
fn env_substitutes_value_into_config_but_history_keeps_original() {
    let mut state = empty_state();
    state.arg_scope.insert("VERSION".to_string(), "1.0".to_string());
    apply_env(&mut state, &Env { key: t("APP_VERSION"), value: t("v${VERSION}") }, NOW);
    assert!(
        state.image_config.container.env.contains(&"APP_VERSION=v1.0".to_string()),
        "env: {:?}",
        state.image_config.container.env
    );
    assert_eq!(last_history(&state), "ENV APP_VERSION=v${VERSION}");
}

#[test]
fn label_substitutes_value_but_history_keeps_original() {
    let mut state = empty_state();
    state.arg_scope.insert("REV".to_string(), "abc123".to_string());
    apply_label(
        &mut state,
        &Label { key: t("org.opencontainers.image.revision"), value: t("$REV") },
        NOW,
    );
    assert_eq!(
        state
            .image_config
            .container
            .labels
            .get("org.opencontainers.image.revision")
            .map(String::as_str),
        Some("abc123")
    );
    assert_eq!(last_history(&state), "LABEL org.opencontainers.image.revision=$REV");
}

#[test]
fn cmd_substitutes_against_arg_scope() {
    let mut state = empty_state();
    state.arg_scope.insert("BIN".to_string(), "myapp".to_string());
    apply_cmd(
        &mut state,
        &Cmd { command: CmdForm::Exec(ts(&["/usr/bin/${BIN}", "--serve"])) },
        NOW,
    );
    assert_eq!(
        state.image_config.container.cmd,
        Some(vec!["/usr/bin/myapp".to_string(), "--serve".to_string()])
    );
    assert_eq!(last_history(&state), "CMD /usr/bin/${BIN} --serve");
}

#[test]
fn unknown_variable_is_left_verbatim() {
    let mut state = empty_state();
    apply_env(&mut state, &Env { key: t("X"), value: t("${FOO}") }, NOW);
    assert!(
        state.image_config.container.env.contains(&"X=${FOO}".to_string()),
        "env: {:?}",
        state.image_config.container.env
    );
}

#[test]
fn adopt_cached_layer_flags_partial_hit_hazard() {
    let mut state = empty_state();
    assert!(!state.adopted_from_cache, "fresh state has adopted nothing");
    state.adopt_cached_layer(layer("sha256:x"), "RUN cached".to_string(), t(NOW));
    assert!(
        state.adopted_from_cache,
        "adopting a cached layer must set the partial-hit hazard flag"
    );
    assert_eq!(state.new_layers.len(), 1);
    assert!(state.uppers.is_empty());
}

#[test]
fn workdir_creates_directory_and_resolves_relative() {
    let mut state = empty_state();
    for (path, dir) in [("/opt/app", "opt/app"), ("sub", "opt/app/sub")] {
        let plan = plan_workdir(&state, &Workdir { path: t(path) });
        assert_eq!(plan.directory, dir);
        apply_workdir(&mut state, plan, layer(path), t("/up"), NOW);
    }
    assert_eq!(state.image_config.container.working_dir.as_deref(), Some("/opt/app/sub"));
    assert_eq!(state.new_layers.len(), 2);
    assert_eq!(state.uppers.len(), 2);
    assert_eq!(last_history(&state), "WORKDIR sub");
}

#[test]
fn an_env_set_twice_keeps_its_last_value() {
    let mut state = empty_state();
    for value in ["1", "2"] {
        apply_env(&mut state, &Env { key: t("A"), value: t(value) }, NOW);
    }
    assert_eq!(state.image_config.container.env, ts(&["A=2"]));
    assert_eq!(state.image_config.history.len(), 2);
    let h = &state.image_config.history[0];
    assert!(h.empty_layer);
    assert_eq!(h.created.as_deref(), Some(NOW));
}

#[test]
fn user_shell_and_arg_change_the_state() {
    let mut state = empty_state();
    apply_user(&mut state, &User { name: t("app") }, NOW);
    assert_eq!(state.image_config.container.user.as_deref(), Some("app"));
    apply_shell(&mut state, &Shell { argv: ts(&["/bin/bash", "-c"]) }, NOW);
    assert_eq!(argv_with_shell(&state, "ls"), ts(&["/bin/bash", "-c", "ls"]));
    let mut build_args = TextMap::new();
    build_args.insert(t("V"), t("2"));
    let before = state.image_config.history.len();
    apply_arg(&mut state, &Arg { name: t("V"), default: Some(t("1")) }, &build_args);
    assert_eq!(state.subst("$V"), "2");
    assert_eq!(state.image_config.history.len(), before, "an ARG leaves no history");
}

#[test]
fn an_entrypoint_sets_what_the_image_starts() {
    let mut state = empty_state();
    apply_entrypoint(
        &mut state,
        &Entrypoint { init: EntrypointInit::Exec(ts(&["/hello.txt"])) },
        NOW,
    );
    assert_eq!(state.image_config.container.entrypoint, Some(ts(&["/hello.txt"])));
    apply_entrypoint(&mut state, &Entrypoint { init: EntrypointInit::NoInit }, NOW);
    assert_eq!(last_history(&state), "ENTRYPOINT none");
}

#[test]
fn directives_are_described_in_one_line() {
    let run = Directive::Run(Run {
        command: RunCommand::Exec(ts(&["/bin/ls", "-l"])),
        mounts: Vec::new(),
    });
    assert_eq!(describe_directive(&run), "RUN /bin/ls -l");
    assert_eq!(classify_directive(&run), StepKind::Run);
    assert_eq!(render_command(&RunCommand::Shell(t("a\nb"))), "a\nb");
    let add = Directive::Add(Add {
        source: AddSource::Path(t("a")),
        destination: t("/b"),
        from: None,
        plain_copy: false,
    });
    assert_eq!(classify_directive(&add), StepKind::Add);
    assert_eq!(describe_directive(&add), "ADD a /b");
    let user = Directive::User(User { name: t("u") });
    assert_eq!(classify_directive(&user), StepKind::Metadata);
    assert_eq!(describe_directive(&user), "USER");
}

#[test]
fn a_stored_layer_comes_back_from_the_cache() {
    let l = layer("sha256:d");
    let entry = store_layer_cache(&l, t("RUN x"));
    assert_eq!(entry.history_line, "RUN x");
    assert_eq!(entry.media_type, "media");
    assert_eq!(entry.diff_id, "sha256:d");
    assert_eq!(
        entry.blob_digest,
        "sha256:3a6eb0790f39ac87c94f3856b2dd2c5d110e6811602261a9a923d3bb23adc8b7"
    );
    let back = layer_from_cache(&entry, Some(b"data".to_vec())).expect("the blob is there");
    assert_eq!(back.data, b"data");
    assert_eq!(back.diff_id, "sha256:d");
    assert!(layer_from_cache(&entry, None).is_none());
}

#[test]
fn the_lower_directories_are_topmost_first() {
    let mut state = empty_state();
    state.push_new_layer(layer("a"), t("/up/0"), t("RUN a"), t(NOW));
    state.push_new_layer(layer("b"), t("/up/1"), t("RUN b"), t(NOW));
    assert_eq!(
        state.lower_stack(&ts(&["/base/1", "/base/0"])),
        ts(&["/up/1", "/up/0", "/base/1", "/base/0"])
    );
    assert_eq!(state.assemble_layer_chain().len(), 2);
    assert_eq!(state.finalise_image_config().history.len(), 2);
    assert_eq!(default_shell_argv(), ts(&["/bin/sh", "-c"]));
}
