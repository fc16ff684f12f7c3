//! `RUN` in a container build: its secrets, its cache, and what it leaves
//! behind.
use umf_builder::architecture::Architecture;
use umf_builder::ast::{Run, RunCommand, RunMount, RunMountKind};
use umf_builder::engine_build::base_image::scratch_base_image;
use umf_builder::engine_build::run::{
    check_outcome, plan_run, prune_next, scrub_action, scrub_path, ScrubAction,
};
use umf_builder::engine_build::secrets::{resolve_secrets, ResolvedSecrets, SecretFinding};
use umf_builder::engine_build::state::BuildState;
use umf_builder::engine_build::{EngineBuildError, SecretInput, SecretSource};
use umf_builder::fsutil::Found;
use umf_builder::image::LayerCompression;
use umf_builder::text_map::TextMap;

fn t(s: &str) -> String {
    s.to_string()
}

fn ts(v: &[&str]) -> Vec<String> {
    v.iter().map(|s| s.to_string()).collect()
}

fn env_secret(id: &str, name: &str) -> SecretInput {
    SecretInput { id: t(id), source: SecretSource::Env { name: t(name) } }
}

fn state() -> BuildState {
    BuildState::new(
        scratch_base_image(Architecture::X86_64),
        LayerCompression::Gzip,
        &TextMap::new(),
    )
}

fn secret_mount(id: &str, target: Option<&str>) -> RunMount {
    RunMount { kind: RunMountKind::Secret { id: t(id), target: target.map(t) } }
}

/// Removes a placeholder from a tree of paths as the build does, and says what
/// is left of it.
fn scrub(upper: &str, target: &str, mut tree: Vec<String>) -> Vec<String> {
    let Some(path) = scrub_path(upper, target) else { return tree };
    let found = if tree.contains(&path) { Found::Other } else { Found::Missing };
    match scrub_action(found) {
        ScrubAction::Skip => return tree,
        _ => tree.retain(|p| p != &path),
    }
    let mut cursor = path;
    while let Some(dir) = prune_next(upper, &cursor) {
        let below = format!("{dir}/");
        if tree.iter().any(|p| p.starts_with(&below)) {
            break;
        }
        tree.retain(|p| p != &dir);
        cursor = dir;
    }
    tree
}

#[test]
fn scrubs_placeholder_and_prunes_empty_run_secrets() {
    let tree = ts(&["/up/run", "/up/run/secrets", "/up/run/secrets/token"]);
    assert!(scrub("/up", "/run/secrets/token", tree).is_empty());
}

#[test]
fn keeps_ancestor_with_other_content() {
    let tree = ts(&["/up/run", "/up/run/other", "/up/run/secrets", "/up/run/secrets/token"]);
    assert_eq!(scrub("/up", "/run/secrets/token", tree), ts(&["/up/run", "/up/run/other"]));
}

#[test]
fn ignores_parent_traversal_targets() {
    assert_eq!(scrub_path("/up", "/../../victim"), None);
    assert_eq!(scrub_path("/up", "/run/secrets/token").as_deref(), Some("/up/run/secrets/token"));
}

#[test]
fn a_placeholder_is_removed_by_what_it_is() {
    assert_eq!(scrub_action(Found::Missing), ScrubAction::Skip);
    assert_eq!(scrub_action(Found::Directory), ScrubAction::RemoveTree);
    assert_eq!(scrub_action(Found::Symlink), ScrubAction::RemoveFile);
    assert_eq!(scrub_action(Found::Other), ScrubAction::RemoveFile);
}

#[test]
fn pruning_stops_at_the_upper_directory() {
    assert_eq!(prune_next("/up", "/up/a/b").as_deref(), Some("/up/a"));
    assert_eq!(prune_next("/up", "/up/a"), None);
}

#[test]
fn a_file_sourced_secret_is_used_in_place() {
    let inputs = vec![SecretInput {
        id: t("signing"),
        source: SecretSource::File(t("/keys/key.pem")),
    }];
    let found = vec![SecretFinding::File { there: true }];
    let resolved = resolve_secrets(&inputs, &found).expect("resolve");
    assert_eq!(resolved.host_path_for("signing").map(String::as_str), Some("/keys/key.pem"));
}

#[test]
fn a_missing_secret_file_is_an_error_naming_the_id() {
    let inputs = vec![SecretInput {
        id: t("signing"),
        source: SecretSource::File(t("/nonexistent/umf/key.pem")),
    }];
    match resolve_secrets(&inputs, &vec![SecretFinding::File { there: false }]) {
        Err(EngineBuildError::SecretResolution { id, reason }) => {
            assert_eq!(id, "signing");
            assert_eq!(reason, "source file `/nonexistent/umf/key.pem` does not exist");
        }
        other => panic!("expected SecretResolution naming `signing`, got {other:?}"),
    }
}

#[test]
fn an_unset_secret_env_var_is_an_error_naming_the_id() {
    let inputs = vec![env_secret("tok", "UMF_TEST_SECRET_THAT_IS_NEVER_SET_7F3A9C")];
    match resolve_secrets(&inputs, &vec![SecretFinding::Env { written: None }]) {
        Err(EngineBuildError::SecretResolution { id, .. }) => assert_eq!(id, "tok"),
        other => panic!("expected SecretResolution naming `tok`, got {other:?}"),
    }
}

#[test]
fn an_unknown_secret_id_resolves_to_nothing() {
    let inputs = vec![env_secret("tok", "PATH")];
    let found = vec![SecretFinding::Env { written: Some(t("/tmp/secret")) }];
    let resolved = resolve_secrets(&inputs, &found).expect("resolve");
    assert!(resolved.host_path_for("other").is_none());
    assert_eq!(resolved.host_path_for("tok").map(String::as_str), Some("/tmp/secret"));
}

#[test]
fn the_first_missing_secret_is_named_and_the_last_of_an_id_counts() {
    let file = |id: &str, path: &str| SecretInput {
        id: t(id),
        source: SecretSource::File(t(path)),
    };
    let inputs = vec![file("a", "/1"), env_secret("b", "B"), file("a", "/2")];
    let found = vec![
        SecretFinding::File { there: true },
        SecretFinding::Env { written: Some(t("/tmp/b")) },
        SecretFinding::File { there: true },
    ];
    let resolved = resolve_secrets(&inputs, &found).expect("resolve");
    assert_eq!(resolved.host_path_for("a").map(String::as_str), Some("/2"));
    assert_eq!(resolved.host_path_for("b").map(String::as_str), Some("/tmp/b"));

    let found = vec![
        SecretFinding::File { there: true },
        SecretFinding::Env { written: None },
        SecretFinding::File { there: false },
    ];
    match resolve_secrets(&inputs, &found) {
        Err(EngineBuildError::SecretResolution { id, reason }) => {
            assert_eq!(id, "b");
            assert_eq!(reason, "environment variable `B` is not set");
        }
        other => panic!("expected SecretResolution naming `b`, got {other:?}"),
    }
    let swapped = vec![SecretFinding::Env { written: Some(t("/tmp/x")) }];
    assert!(resolve_secrets(&vec![file("a", "/1")], &swapped).is_err());
}

fn secrets(pairs: &[(&str, &str)]) -> ResolvedSecrets {
    let mut by_id = TextMap::new();
    for (k, v) in pairs {
        by_id.insert(t(k), t(v));
    }
    ResolvedSecrets { by_id }
}

#[test]
fn a_run_is_planned_with_its_secrets() {
    let run = Run {
        command: RunCommand::Shell(t("make")),
        mounts: vec![secret_mount("tok", None), secret_mount("key", Some("/etc/key"))],
    };
    let plan = plan_run(
        &state(),
        &run,
        &secrets(&[("tok", "/tmp/a"), ("key", "/tmp/b")]),
        Architecture::X86_64,
    )
    .expect("plan");
    assert_eq!(plan.argv, ts(&["/bin/sh", "-c", "make"]));
    assert_eq!(plan.history_line, "RUN make");
    assert_eq!(plan.bind_mounts.len(), 2);
    assert_eq!(plan.bind_mounts[0].host_path, "/tmp/a");
    assert_eq!(plan.bind_mounts[0].container_path, "/run/secrets/tok");
    assert!(plan.bind_mounts[0].read_only);
    assert_eq!(plan.bind_mounts[1].container_path, "/etc/key");
}

#[test]
fn a_changed_secret_keeps_the_key() {
    let run = Run {
        command: RunCommand::Shell(t("make")),
        mounts: vec![secret_mount("tok", None)],
    };
    let plan = |path: &str| {
        plan_run(&state(), &run, &secrets(&[("tok", path)]), Architecture::X86_64).expect("plan")
    };
    let (before, after) = (plan("/tmp/old"), plan("/tmp/new"));
    assert_ne!(before.bind_mounts[0].host_path, after.bind_mounts[0].host_path);
    assert_eq!(before.key, after.key);
    assert_eq!(before.history_line, after.history_line);
}

#[test]
fn a_run_needs_its_secrets() {
    let run = Run {
        command: RunCommand::Shell(t("make")),
        mounts: vec![secret_mount("tok", None)],
    };
    assert!(matches!(
        plan_run(&state(), &run, &secrets(&[]), Architecture::X86_64),
        Err(EngineBuildError::MissingSecret(id)) if id == "tok"
    ));
}

#[test]
fn a_run_in_the_shell_form_has_a_shell_even_without_one() {
    let mut s = state();
    s.current_shell = Vec::new();
    let run = Run { command: RunCommand::Shell(t("make")), mounts: Vec::new() };
    let plan = plan_run(&s, &run, &secrets(&[]), Architecture::X86_64).expect("plan");
    assert_eq!(plan.argv, ts(&["/bin/sh", "-c", "make"]));
    let run = Run { command: RunCommand::Exec(ts(&["/bin/true"])), mounts: Vec::new() };
    let plan = plan_run(&s, &run, &secrets(&[]), Architecture::X86_64).expect("plan");
    assert_eq!(plan.argv, ts(&["/bin/true"]));
}

#[test]
fn a_command_that_failed_ends_the_build() {
    assert!(check_outcome(Some(0), "RUN x").is_ok());
    match check_outcome(Some(7), "RUN x") {
        Err(EngineBuildError::RunFailed { code, summary }) => {
            assert_eq!(code, 7);
            assert_eq!(summary, "RUN x");
        }
        other => panic!("expected RunFailed, got {other:?}"),
    }
    assert!(matches!(
        check_outcome(None, "RUN x"),
        Err(EngineBuildError::RunFailed { code: -1, .. })
    ));
}

#[test]
fn a_placeholder_is_found_however_its_target_is_written() {
    let tree = || ts(&["/up/run", "/up/run/secrets", "/up/run/secrets/token"]);
    for target in [
        "/run/secrets/token/",
        "/run//secrets///token",
        "/run/./secrets/token/.",
        "//run/secrets/token//",
        "run/secrets/token/",
    ] {
        assert_eq!(
            scrub_path("/up", target).as_deref(),
            Some("/up/run/secrets/token"),
            "{target}"
        );
        assert!(scrub("/up", target, tree()).is_empty(), "{target}");
    }
    let mut kept = tree();
    kept.push(t("/up/run/other"));
    assert_eq!(scrub("/up", "/run//secrets/token/", kept), ts(&["/up/run", "/up/run/other"]));
    assert_eq!(scrub_path("/up", "/run/../token/"), None);
}

#[test]
fn pruning_passes_over_what_names_nothing() {
    assert_eq!(prune_next("/up", "/up/a//b/").as_deref(), Some("/up/a"));
    assert_eq!(prune_next("/up", "/up/a/./b/.").as_deref(), Some("/up/a"));
    assert_eq!(prune_next("/up/", "/up/a"), None);
    assert_eq!(prune_next("/x//up", "/x/up/a/b").as_deref(), Some("/x/up/a"));
    assert_eq!(prune_next("/up", "/upper/a/b"), None);
}
