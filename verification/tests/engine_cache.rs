//! The keys of the step cache.
use umf_builder::engine_build::cache::{
    add_cache_key, add_source_digest, cache_entry_path, cross_stage_add_cache_key,
    oci_image_add_cache_key, parent_state_hash, run_cache_key, url_add_cache_key, SourceContent,
    TreeEntry, TreeKind,
};
use umf_builder::architecture::Architecture;
use umf_builder::engine_build::base_image::scratch_base_image;
use umf_builder::engine_build::state::BuildState;
use umf_builder::image::{LayerCompression, LayerSource};
use umf_builder::text_map::TextMap;

fn ts(v: &[&str]) -> Vec<String> {
    v.iter().map(|s| s.to_string()).collect()
}

fn file(name: &str, mode: u32, bytes: &[u8]) -> SourceContent {
    SourceContent::File { name: name.as_bytes().to_vec(), mode, bytes: bytes.to_vec() }
}

fn tree(script_mode: u32) -> Vec<TreeEntry> {
    vec![
        TreeEntry { path: String::new(), mode: 0o755, kind: TreeKind::Other },
        TreeEntry { path: "bin".to_string(), mode: 0o755, kind: TreeKind::Other },
        TreeEntry {
            path: "bin/run.sh".to_string(),
            mode: script_mode,
            kind: TreeKind::File(b"#!/bin/sh\necho hi\n".to_vec()),
        },
        TreeEntry {
            path: "note.txt".to_string(),
            mode: 0o644,
            kind: TreeKind::File(b"plain\n".to_vec()),
        },
    ]
}

fn run_key(arch: &str, codec: &str, argv: &[&str], secrets: &[&str]) -> String {
    run_cache_key(arch, codec, "parent", &ts(argv), &Vec::new(), None, None, &ts(secrets))
}

#[test]
fn add_source_digest_changes_when_file_contents_change() {
    let d1 = add_source_digest(&file("a.txt", 0o644, b"one"));
    let d2 = add_source_digest(&file("a.txt", 0o644, b"two"));
    assert_ne!(d1, d2);
}

#[test]
fn add_source_digest_dir_changes_with_file_mode() {
    let a = add_source_digest(&SourceContent::Tree(tree(0o644)));
    let b = add_source_digest(&SourceContent::Tree(tree(0o644)));
    assert_eq!(a, b);
    let b = add_source_digest(&SourceContent::Tree(tree(0o755)));
    assert_ne!(a, b, "0644 vs 0755 on a tree member must change the ADD digest");
}

#[test]
fn add_source_digest_single_file_changes_with_mode() {
    let non_exec = add_source_digest(&file("x.sh", 0o644, b"#!/bin/sh\n"));
    assert_eq!(non_exec, add_source_digest(&file("x.sh", 0o644, b"#!/bin/sh\n")));
    let exec = add_source_digest(&file("x.sh", 0o755, b"#!/bin/sh\n"));
    assert_ne!(non_exec, exec);
}

#[test]
fn the_digest_of_a_file_has_a_known_value() {
    // SHA-256 of "file:a\nmode:644\nx"
    assert_eq!(
        add_source_digest(&file("a", 0o100644, b"x")),
        umf_builder::digest::sha256_digest(b"file:a\nmode:644\nx")
            .strip_prefix("sha256:")
            .unwrap()
    );
}

#[test]
fn the_order_of_a_listing_does_not_matter() {
    let mut back = tree(0o644);
    back.reverse();
    assert_eq!(
        add_source_digest(&SourceContent::Tree(tree(0o644))),
        add_source_digest(&SourceContent::Tree(back))
    );
}

#[test]
fn a_symlink_is_hashed_by_its_target() {
    let link = |target: &str| {
        SourceContent::Tree(vec![TreeEntry {
            path: "l".to_string(),
            mode: 0o777,
            kind: TreeKind::Symlink(target.to_string()),
        }])
    };
    assert_ne!(add_source_digest(&link("a")), add_source_digest(&link("b")));
    assert_eq!(
        add_source_digest(&link("a")),
        umf_builder::digest::sha256_digest(b"l\nmode:777\n->a\n").strip_prefix("sha256:").unwrap()
    );
}

#[test]
fn run_cache_key_is_stable_for_equal_inputs() {
    let key = || {
        run_cache_key(
            "amd64",
            "gzip",
            "parent-state",
            &ts(&["/bin/sh", "-c", "echo hi"]),
            &ts(&["PATH=/usr/bin"]),
            Some("/"),
            None,
            &Vec::new(),
        )
    };
    assert_eq!(key(), key());
    assert_eq!(key().len(), 64);
}

#[test]
fn run_cache_key_changes_when_argv_changes() {
    let a = run_key("amd64", "gzip", &["echo", "hi"], &[]);
    let b = run_key("amd64", "gzip", &["echo", "bye"], &[]);
    assert_ne!(a, b);
}

#[test]
fn run_cache_key_changes_when_architecture_changes() {
    let amd64 = run_key("amd64", "gzip", &["sh"], &[]);
    let arm64 = run_key("arm64", "gzip", &["sh"], &[]);
    assert_ne!(amd64, arm64);
}

#[test]
fn run_cache_key_changes_when_referenced_secrets_change() {
    let none = run_key("amd64", "gzip", &["sh"], &[]);
    let one = run_key("amd64", "gzip", &["sh"], &["signing-key"]);
    let two = run_key("amd64", "gzip", &["sh"], &["signing-key", "registry-token"]);
    assert_ne!(none, one);
    assert_ne!(one, two);
}

#[test]
fn run_cache_key_independent_of_secret_id_order() {
    let a = run_cache_key(
        "amd64",
        "gzip",
        "p",
        &Vec::new(),
        &Vec::new(),
        None,
        None,
        &ts(&["a", "b"]),
    );
    let b = run_cache_key(
        "amd64",
        "gzip",
        "p",
        &Vec::new(),
        &Vec::new(),
        None,
        None,
        &ts(&["b", "a"]),
    );
    assert_eq!(a, b);
}

#[test]
fn add_cache_key_changes_when_architecture_changes() {
    let amd64 = add_cache_key("amd64", "gzip", "parent", "src-digest", "/dst");
    let arm64 = add_cache_key("arm64", "gzip", "parent", "src-digest", "/dst");
    assert_ne!(amd64, arm64);
}

#[test]
fn cache_keys_change_when_the_compression_codec_changes() {
    let gz = run_key("amd64", "gzip", &["sh"], &[]);
    let zst = run_key("amd64", "zstd", &["sh"], &[]);
    assert_ne!(gz, zst);

    let gz = add_cache_key("amd64", "gzip", "parent", "src-digest", "/dst");
    let zst = add_cache_key("amd64", "zstd", "parent", "src-digest", "/dst");
    assert_ne!(gz, zst);

    let gz = cross_stage_add_cache_key("gzip", "parent", "sha256:m", "/bin/app", "/app");
    let zst = cross_stage_add_cache_key("zstd", "parent", "sha256:m", "/bin/app", "/app");
    assert_ne!(gz, zst);
}

#[test]
fn the_kinds_of_add_have_keys_of_their_own() {
    let url = url_add_cache_key("gzip", "parent", "sha256:m", "/dst");
    let image = oci_image_add_cache_key("gzip", "parent", "sha256:m", "/dst");
    assert_ne!(url, image);
}

fn layer(diff_id: &str) -> LayerSource {
    LayerSource {
        data: Vec::new(),
        media_type: "m".to_string(),
        diff_id: diff_id.to_string(),
    }
}

#[test]
fn the_parent_state_is_the_stack_of_layers() {
    let mut state = BuildState::new(
        scratch_base_image(Architecture::X86_64),
        LayerCompression::Gzip,
        &TextMap::new(),
    );
    let empty = parent_state_hash(&state);
    assert_eq!(
        empty,
        umf_builder::digest::sha256_digest(b"--\n").strip_prefix("sha256:").unwrap()
    );
    state.push_new_layer(layer("sha256:a"), "up".to_string(), "RUN a".to_string(), String::new());
    assert_eq!(
        parent_state_hash(&state),
        umf_builder::digest::sha256_digest(b"--\nsha256:a\n").strip_prefix("sha256:").unwrap()
    );
}

#[test]
fn an_entry_lies_in_a_file_named_by_its_key() {
    assert_eq!(cache_entry_path("/l", "abc"), "/l/umf-engine-cache/abc.json");
}

#[test]
fn every_entry_of_a_tree_is_digested() {
    let entry = |bytes: &[u8]| TreeEntry {
        path: "x".to_string(),
        mode: 0o644,
        kind: TreeKind::File(bytes.to_vec()),
    };
    let digest = |v: Vec<TreeEntry>| add_source_digest(&SourceContent::Tree(v));
    assert_eq!(
        digest(vec![entry(b"A"), entry(b"B")]),
        umf_builder::digest::sha256_digest(b"x\nmode:644\nA\nx\nmode:644\nB\n")
            .strip_prefix("sha256:")
            .unwrap()
    );
    assert_ne!(digest(vec![entry(b"A"), entry(b"B")]), digest(vec![entry(b"A"), entry(b"A")]));
    assert_ne!(digest(vec![entry(b"A"), entry(b"B")]), digest(vec![entry(b"A")]));
}

#[test]
fn changed_bytes_in_a_tree_change_its_digest() {
    let mut changed = tree(0o644);
    changed[3].kind = TreeKind::File(b"other\n".to_vec());
    assert_ne!(
        add_source_digest(&SourceContent::Tree(tree(0o644))),
        add_source_digest(&SourceContent::Tree(changed))
    );
}

#[test]
fn keys_are_64_lower_case_hexadecimal_digits() {
    let source = add_source_digest(&file("a", 0o644, b"x"));
    let keys = [
        run_key("amd64", "gzip", &["true"], &["token"]),
        add_cache_key("amd64", "gzip", "parent", &source, "/a"),
        url_add_cache_key("gzip", "parent", "sha256:00", "/a"),
        oci_image_add_cache_key("gzip", "parent", "sha256:00", "/a"),
        cross_stage_add_cache_key("gzip", "parent", "sha256:00", "/a", "/b"),
        source,
    ];
    for key in &keys {
        assert_eq!(key.len(), 64, "{key}");
        assert!(key.bytes().all(|b| matches!(b, b'0'..=b'9' | b'a'..=b'f')), "{key}");
    }
}
