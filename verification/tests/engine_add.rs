//! `ADD` in a container build.
use umf_builder::architecture::Architecture;
use umf_builder::ast::{Add, AddSource};
use umf_builder::engine_build::add::{
    check_source, compute_add_destination, extract_failed, from_stage_key, image_add_key,
    local_add_key, path_within_upper, place_payload, plain_copy_rejected_kind, plan_add,
    plan_image_add, reject_traversal, stage_context, AddPlan, Format, Placement,
};
use umf_builder::engine_build::base_image::scratch_base_image;
use umf_builder::engine_build::cache::{
    add_cache_key, add_source_digest, cross_stage_add_cache_key, oci_image_add_cache_key,
    parent_state_hash, url_add_cache_key, SourceContent,
};
use umf_builder::engine_build::state::BuildState;
use umf_builder::path::path_is_within;
use umf_builder::engine_build::EngineBuildError;
use umf_builder::fsutil::PathRefusal;
use umf_builder::image::LayerCompression;
use umf_builder::introspect::RegistryError;
use umf_builder::reference::read_reference;
use umf_builder::text_map::TextMap;

fn t(s: &str) -> String {
    s.to_string()
}

fn map(pairs: &[(&str, &str)]) -> TextMap<String> {
    let mut m = TextMap::new();
    for (k, v) in pairs {
        m.insert(k.to_string(), v.to_string());
    }
    m
}

fn state(scope: &[(&str, &str)]) -> BuildState {
    BuildState::new(
        scratch_base_image(Architecture::X86_64),
        LayerCompression::Gzip,
        &map(scope),
    )
}

fn add(source: AddSource, destination: &str, from: Option<&str>) -> Add {
    Add { source, destination: t(destination), from: from.map(t), plain_copy: false }
}

#[test]
fn add_destination_with_trailing_slash_appends_basename() {
    assert_eq!(
        compute_add_destination("/etc/nginx/", "/tmp/nginx.conf", false),
        "/etc/nginx/nginx.conf"
    );
}

#[test]
fn add_destination_to_file_keeps_destination_verbatim() {
    assert_eq!(
        compute_add_destination("/etc/target.txt", "/tmp/source.txt", false),
        "/etc/target.txt"
    );
}

#[test]
fn add_destination_for_directory_source_forces_directory_form() {
    let dst = compute_add_destination("/opt/foo", "/tmp/dir", true);
    assert_eq!(dst, "/opt/foo/");
}

#[test]
fn path_within_upper_strips_leading_slash() {
    let upper = "/tmp/staging/upper";
    assert_eq!(path_within_upper(upper, "/etc/foo"), "/tmp/staging/upper/etc/foo");
    assert_eq!(path_within_upper(upper, "etc/foo"), "/tmp/staging/upper/etc/foo");
}

#[test]
fn a_destination_stays_below_any_root() {
    for root in ["/", "", "/up/", "up", "/a/../up", "./up//"] {
        for dst in ["/etc/foo", "//etc", "etc/./foo/", "/"] {
            let path = path_within_upper(root, dst);
            assert!(path_is_within(&path, root), "{path} below {root}");
        }
    }
    assert_eq!(path_within_upper("/", "/etc/foo"), "/etc/foo");
    assert_eq!(path_within_upper("", "/etc/foo"), "etc/foo");
}

#[test]
fn reject_traversal_blocks_parent_dir_in_source_and_destination() {
    assert!(reject_traversal("source", "../../etc/passwd").is_err());
    assert!(reject_traversal("source", "a/../../b").is_err());
    assert!(reject_traversal("source", "../../../etc/shadow").is_err());
    assert!(reject_traversal("destination", "/../../etc/cron.d/x").is_err());
    assert!(reject_traversal("destination", "opt/../../escape").is_err());
}

#[test]
fn reject_traversal_allows_normal_paths() {
    assert!(reject_traversal("source", "foo/bar.conf").is_ok());
    assert!(reject_traversal("source", "./nginx.conf").is_ok());
    assert!(reject_traversal("destination", "/etc/app/app.conf").is_ok());
    assert!(reject_traversal("destination", "usr/local/bin/app").is_ok());
    assert!(reject_traversal("source", "a.b.c/d..e").is_ok());
}

#[test]
fn plain_copy_rejects_remote_sources_only() {
    let local = AddSource::Path(t("./app"));
    assert_eq!(plain_copy_rejected_kind(&local), None);
    let url = AddSource::Url(t("https://example.com/x.tar"));
    assert_eq!(plain_copy_rejected_kind(&url), Some("a URL"));
    let oci = AddSource::Oci(t("imagilux/rootfs:v7.0"));
    assert_eq!(plain_copy_rejected_kind(&oci), Some("an OCI image reference"));
}

#[test]
fn a_plain_copy_of_a_remote_source_is_refused() {
    let mut copy = add(AddSource::Url(t("https://example.com/x.tar")), "/", None);
    copy.plain_copy = true;
    match plan_add(&state(&[]), &copy, &map(&[]), &map(&[])) {
        Err(EngineBuildError::CopyRemoteSource { reference, kind }) => {
            assert_eq!(reference, "https://example.com/x.tar");
            assert_eq!(kind, "a URL");
        }
        other => panic!("expected CopyRemoteSource, got {other:?}"),
    }
}

#[test]
fn add_local_substitutes_destination_but_history_keeps_original() {
    let state = state(&[("DEST", "/srv")]);
    let a = add(AddSource::Path(t("hello.txt")), "${DEST}/", None);
    match plan_add(&state, &a, &map(&[]), &map(&[])) {
        Ok(AddPlan::Local { source, below_context, destination, history_line }) => {
            assert_eq!(source, "hello.txt");
            assert_eq!(below_context, "hello.txt");
            assert_eq!(
                compute_add_destination(&destination, "/ctx/hello.txt", false),
                "/srv/hello.txt"
            );
            assert_eq!(history_line, "ADD hello.txt ${DEST}/");
        }
        other => panic!("expected a local ADD, got {other:?}"),
    }
}

#[test]
fn add_arg_expanding_to_traversal_is_rejected() {
    let s = state(&[("EVIL", "../../etc")]);
    let a = add(AddSource::Path(t("hello.txt")), "${EVIL}/x", None);
    assert!(matches!(
        plan_add(&s, &a, &map(&[]), &map(&[])),
        Err(EngineBuildError::AddPathTraversal { kind: "destination", .. })
    ));

    let s = state(&[("EVIL", "../../../etc")]);
    let a = add(AddSource::Path(t("${EVIL}/passwd")), "/loot", None);
    assert!(matches!(
        plan_add(&s, &a, &map(&[]), &map(&[])),
        Err(EngineBuildError::AddPathTraversal { kind: "source", .. })
    ));
}

#[test]
fn add_oci_image_with_traversal_destination_is_rejected() {
    let a = add(AddSource::Oci(t("example.invalid/userland:1")), "/opt/../../escape", None);
    assert!(matches!(
        plan_add(&state(&[]), &a, &map(&[]), &map(&[])),
        Err(EngineBuildError::AddPathTraversal { kind: "destination", .. })
    ));
}

#[test]
fn a_refused_path_is_named_as_the_recipe_has_it() {
    let s = state(&[("UP", "../x"), ("IN", "bin")]);
    let refused = |a| match plan_add(&s, &a, &map(&[]), &map(&[])) {
        Err(EngineBuildError::AddPathTraversal { kind, path }) => (kind, path),
        other => panic!("expected AddPathTraversal, got {other:?}"),
    };
    let a = add(AddSource::Path(t("${UP}/a")), "/${IN}", None);
    assert_eq!(refused(a), ("source", t("${UP}/a")));
    let a = add(AddSource::Path(t("a")), "/${IN}/${UP}", None);
    assert_eq!(refused(a), ("destination", t("/${IN}/${UP}")));
    let a = add(AddSource::Oci(t("alpine:3.21")), "${UP}", None);
    assert_eq!(refused(a), ("destination", t("${UP}")));
    let a = add(AddSource::Url(t("https://example.com/f")), "${UP}", None);
    assert_eq!(refused(a), ("destination", t("${UP}")));

    let a = add(AddSource::Path(t("${IN}/a")), "/", None);
    match plan_add(&s, &a, &map(&[]), &map(&[])) {
        Ok(AddPlan::Local { source, below_context, .. }) => {
            assert_eq!((source.as_str(), below_context.as_str()), ("${IN}/a", "bin/a"));
        }
        other => panic!("expected a local ADD, got {other:?}"),
    }
    let a = add(AddSource::Path(t("/${IN}/a")), "/", Some("b"));
    match plan_add(&s, &a, &map(&[("b", "ref")]), &map(&[])) {
        Ok(AddPlan::FromStage { written, source, below_root, .. }) => {
            assert_eq!((written.as_str(), source.as_str()), ("/${IN}/a", "/bin/a"));
            assert_eq!(below_root, "bin/a");
        }
        other => panic!("expected a cross-stage ADD, got {other:?}"),
    }
}

#[test]
fn an_added_image_is_looked_up_by_its_canonical_reference() {
    let a = add(AddSource::Oci(t("alpine:3.21")), "/opt/base", None);
    match plan_add(&state(&[]), &a, &map(&[]), &map(&[])) {
        Ok(AddPlan::Image { canonical, destination, history_line }) => {
            assert_eq!(canonical, "docker.io/library/alpine:3.21");
            assert_eq!(destination, "/opt/base");
            assert_eq!(history_line, "ADD alpine:3.21 /opt/base");
        }
        other => panic!("expected an image, got {other:?}"),
    }
    match plan_image_add("a::b", t("/"), "/", t("line"), read_reference("a::b")) {
        Err(EngineBuildError::InvalidReference(text, _)) => assert_eq!(text, "a::b"),
        other => panic!("expected InvalidReference, got {other:?}"),
    }
}

#[test]
fn a_source_of_an_earlier_stage_needs_that_stage() {
    let a = add(AddSource::Path(t("/out/app")), "/bin/", Some("builder"));
    match plan_add(&state(&[]), &a, &map(&[("builder", "umf-build/stage-0:internal")]), &map(&[])) {
        Ok(AddPlan::FromStage { stage, producer_ref, below_root, destination, .. }) => {
            assert_eq!(stage, "builder");
            assert_eq!(producer_ref, "umf-build/stage-0:internal");
            assert_eq!(below_root, "out/app");
            assert_eq!(destination, "/bin/");
        }
        other => panic!("expected a cross-stage ADD, got {other:?}"),
    }
    assert!(matches!(
        plan_add(&state(&[]), &a, &map(&[]), &map(&[])),
        Err(EngineBuildError::AddFromUnknownStage { stage }) if stage == "builder"
    ));
    assert_eq!(stage_context("builder"), "stage `builder` rootfs");
}

#[test]
fn add_url_extracts_archives_and_places_files() {
    match place_payload(Format::Gzip, "https://example.com/dist/bundle.tar.gz", "/") {
        Ok(Placement::Unpack { directory }) => assert_eq!(directory, "/"),
        other => panic!("expected an unpack, got {other:?}"),
    }
    match place_payload(Format::Unknown, "https://example.com/notes.txt", "/docs/") {
        Ok(Placement::File { path }) => assert_eq!(path, "/docs/notes.txt"),
        other => panic!("expected a file, got {other:?}"),
    }
    match place_payload(Format::Unknown, "https://example.com/anything.bin", "/exact-name") {
        Ok(Placement::File { path }) => assert_eq!(path, "/exact-name"),
        other => panic!("expected a file, got {other:?}"),
    }
}

#[test]
fn add_url_unsupported_archive_is_a_clear_error() {
    for (format, name) in [
        (Format::Zstd, "zstd"),
        (Format::Xz, "xz"),
        (Format::Bzip2, "bzip2"),
        (Format::Squashfs, "squashfs"),
    ] {
        match place_payload(format, "https://example.com/payload.tar.zst", "/") {
            Err(EngineBuildError::AddUrlArchiveUnsupported { url, format }) => {
                assert_eq!(url, "https://example.com/payload.tar.zst");
                assert_eq!(format, name);
            }
            other => panic!("expected AddUrlArchiveUnsupported, got {other:?}"),
        }
    }
}

#[test]
fn add_url_gzip_that_is_not_a_tar_is_a_clear_error() {
    match extract_failed("https://example.com/data.gz", Format::Gzip, t("no tar")) {
        EngineBuildError::AddUrlExtractFailed { url, format, detail } => {
            assert_eq!(url, "https://example.com/data.gz");
            assert_eq!(format, "gzip");
            assert_eq!(detail, "no tar");
        }
        other => panic!("expected AddUrlExtractFailed, got {other:?}"),
    }
}

#[test]
fn a_fetched_url_is_keyed_by_its_digest() {
    let s = state(&[]);
    let a = add(AddSource::Url(t("https://example.com/x")), "/x", None);
    match plan_add(&s, &a, &map(&[]), &map(&[("https://example.com/x", "sha256:aa")])) {
        Ok(AddPlan::Url { url, digest, destination, key, history_line }) => {
            assert_eq!(url, "https://example.com/x");
            assert_eq!(digest, "sha256:aa");
            assert_eq!(destination, "/x");
            assert_eq!(
                key,
                url_add_cache_key(
                    "application/vnd.oci.image.layer.v1.tar+gzip",
                    &parent_state_hash(&s),
                    "sha256:aa",
                    "/x"
                )
            );
            assert_eq!(history_line, "ADD https://example.com/x /x");
        }
        other => panic!("expected a URL, got {other:?}"),
    }
    assert!(matches!(
        plan_add(&s, &a, &map(&[]), &map(&[])),
        Err(EngineBuildError::AddUrlFetchFailed { url, .. }) if url == "https://example.com/x"
    ));
}

#[test]
fn the_keys_of_an_add_hold_what_it_reads() {
    let s = state(&[]);
    let codec = "application/vnd.oci.image.layer.v1.tar+gzip";
    let parent = parent_state_hash(&s);
    let file = SourceContent::File { name: b"a".to_vec(), mode: 0o644, bytes: b"x".to_vec() };
    assert_eq!(
        local_add_key(&s, &file, "/a", Architecture::X86_64),
        add_cache_key("amd64", codec, &parent, &add_source_digest(&file), "/a")
    );
    assert_eq!(
        from_stage_key(&s, "umf-build/stage-0:internal", Some("sha256:m"), "/out", "/a").unwrap(),
        cross_stage_add_cache_key(codec, &parent, "sha256:m", "/out", "/a")
    );
    assert_eq!(
        image_add_key(&s, "docker.io/library/a:1", Some("sha256:m"), "/a").unwrap(),
        oci_image_add_cache_key(codec, &parent, "sha256:m", "/a")
    );
    assert!(matches!(
        image_add_key(&s, "docker.io/library/a:1", None, "/a"),
        Err(EngineBuildError::Registry(RegistryError::NotFound(_)))
    ));
    assert!(matches!(
        from_stage_key(&s, "umf-build/stage-0:internal", None, "/out", "/a"),
        Err(EngineBuildError::Registry(RegistryError::NotFound(_)))
    ));
}

#[test]
fn a_source_must_be_there_and_inside_its_root() {
    assert!(check_source("/ctx", "/ctx/a", Some("/ctx/a"), "a", "/ctx").is_ok());
    assert!(matches!(
        check_source("/ctx", "/ctx/a", None, "a", "/ctx"),
        Err(EngineBuildError::AddSourceNotFound { path, context })
            if path == "a" && context == "/ctx"
    ));
    assert!(matches!(
        check_source("/ctx", "/ctx/a", Some("/etc/passwd"), "a", "/ctx"),
        Err(EngineBuildError::Path(PathRefusal::OutsideRoot { resolved, canonical, root }))
            if resolved == "/ctx/a" && canonical == "/etc/passwd" && root == "/ctx"
    ));
}
