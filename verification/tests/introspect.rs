//! What kind of image a reference names, and where it is looked for.
use umf_builder::architecture::Architecture;
use umf_builder::digest::sha256_digest;
use umf_builder::introspect::{
    find_entry, infer_kind, introspect, introspect_image, single_image, L0Profile, RegistryError,
};
use umf_builder::json::read_json;
use umf_builder::l0::{L0Kind, L0Source, Payload};
use umf_builder::label;
use umf_builder::manifest::{Descriptor, ImageManifest, Manifest};
use umf_builder::engine_build::base_image::ManifestPlace;
use umf_builder::reference::read_reference;
use umf_builder::resolver::add::{add_artifact, add_error, AddResolution};
use umf_builder::resolver::from_kernel::{
    check_kernel, from_kernel_artifact, from_kernel_error, FromKernelResolution,
};
use umf_builder::resolver::{
    malformed, pull_ref, read_image_manifest, read_layer_paths, resolve_add, resolve_from_kernel,
    AddProvenance, AddResolveError, Attempt, FromKernelProvenance, FromKernelResolveError,
    Provenance, ResolveFailure, ResolveWalk,
};
use umf_builder::text_map::TextMap;

const IMAGE_CONFIG_MEDIA_TYPE: &str = "application/vnd.oci.image.config.v1+json";
const IMAGE_DOCKER_CONFIG_MEDIA_TYPE: &str = "application/vnd.docker.container.image.v1+json";
const LAYER: &str = "application/vnd.oci.image.layer.v1.tar+gzip";

/// The manifest and the configuration of an image with those labels.
fn stage_image(
    labels: &[(&str, &str)],
    layers: usize,
    config_media_type: &str,
) -> (Vec<u8>, Vec<u8>) {
    let labels: Vec<String> = labels.iter().map(|(k, v)| format!("\"{k}\":\"{v}\"")).collect();
    let config = format!(
        "{{\"architecture\":\"amd64\",\"os\":\"linux\",\"config\":{{\"Labels\":{{{}}}}},\
         \"rootfs\":{{\"type\":\"layers\",\"diff_ids\":[]}}}}",
        labels.join(",")
    );
    let descriptors: Vec<String> = (0..layers)
        .map(|i| {
            let digest = sha256_digest(format!("layer-{i}\n").as_bytes());
            format!("{{\"mediaType\":\"{LAYER}\",\"digest\":\"{digest}\",\"size\":8}}")
        })
        .collect();
    let manifest = format!(
        "{{\"schemaVersion\":2,\"mediaType\":\"application/vnd.oci.image.manifest.v1+json\",\
         \"config\":{{\"mediaType\":\"{config_media_type}\",\"digest\":\"{}\",\"size\":{}}},\
         \"layers\":[{}]}}",
        sha256_digest(config.as_bytes()),
        config.len(),
        descriptors.join(",")
    );
    (manifest.into_bytes(), config.into_bytes())
}

/// Reads what `stage_image` made.
fn profile_of(
    labels: &[(&str, &str)],
    layers: usize,
    config_media_type: &str,
) -> L0Profile {
    let (manifest, config) = stage_image(labels, layers, config_media_type);
    let image = introspect("example.invalid/example:latest", &manifest).expect("introspect");
    assert_eq!(image.config.digest, sha256_digest(&config));
    let raw = read_json(&config).expect("config");
    let labels = raw
        .get("config")
        .and_then(|c| c.get_text_map("Labels"))
        .unwrap_or_else(TextMap::new);
    introspect_image(&sha256_digest(&manifest), &image, labels)
}

fn labelled(value: &str) -> L0Profile {
    profile_of(&[(label::TYPE, value)], 1, IMAGE_CONFIG_MEDIA_TYPE)
}

#[test]
fn scratch_sentinel_is_valid_from_for_container_only() {
    let p = L0Profile::scratch();
    assert_eq!(p.kind, L0Kind::Scratch);
    assert_eq!(p.source, L0Source::Label);
    assert!(p.manifest_digest.is_empty());
    assert!(p.labels.is_empty());
    assert!(p.kind.is_valid_from(false));
    assert!(!p.kind.is_valid_from(true));
}

#[test]
fn introspect_label_container() {
    let profile = labelled("container");
    assert_eq!(profile.kind, L0Kind::Container);
    assert_eq!(profile.source, L0Source::Label);
    assert!(profile.kind.is_valid_from(false));
    assert!(!profile.kind.is_valid_from(true));
}

#[test]
fn introspect_label_bootable_and_retired_types() {
    for (label_value, expected) in [
        ("bootable", L0Kind::Bootable),
        ("vm", L0Kind::Unknown("vm".to_string())),
        ("bootc", L0Kind::Unknown("bootc".to_string())),
        ("unikernel", L0Kind::Unknown("unikernel".to_string())),
    ] {
        let profile = labelled(label_value);
        assert_eq!(profile.kind, expected);
        assert_eq!(profile.source, L0Source::Label);
    }
}

#[test]
fn introspect_kernel_build_env_is_valid_from_for_container() {
    let profile = labelled("kernel-build-env");
    assert_eq!(profile.kind, L0Kind::KernelBuildEnv);
    assert!(profile.kind.is_valid_from(false));
    assert!(!profile.kind.is_valid_from(true));
    assert!(!profile.kind.is_payload());
}

#[test]
fn introspect_payload_kernel_is_valid_from_only_with_firmware() {
    let profile = labelled("kernel");
    assert_eq!(profile.kind, L0Kind::Payload(Payload::Kernel));
    assert!(profile.kind.is_payload());
    assert!(profile.kind.is_valid_from(true));
    assert!(!profile.kind.is_valid_from(false));
}

#[test]
fn introspect_other_payload_kinds_are_rejected_as_from() {
    for (label_value, expected) in [
        ("rootfs", Payload::Rootfs),
        ("bootloader", Payload::Bootloader),
        ("firmware", Payload::Firmware),
    ] {
        let profile = labelled(label_value);
        assert_eq!(profile.kind, L0Kind::Payload(expected));
        assert!(profile.kind.is_payload());
        assert!(!profile.kind.is_valid_from(true));
        assert!(!profile.kind.is_valid_from(false));
    }
}

#[test]
fn unrecognised_label_preserved_verbatim() {
    let profile = labelled("future-shape");
    assert_eq!(profile.kind, L0Kind::Unknown("future-shape".to_string()));
    assert_eq!(profile.source, L0Source::Label);
    assert!(!profile.kind.is_valid_from(true));
    assert!(!profile.kind.is_valid_from(false));
}

#[test]
fn no_label_with_layers_infers_container() {
    let profile = profile_of(&[], 2, IMAGE_CONFIG_MEDIA_TYPE);
    assert_eq!(profile.kind, L0Kind::Container);
    assert_eq!(profile.source, L0Source::Inferred);
}

#[test]
fn no_label_no_layers_returns_unknown_empty() {
    let profile = profile_of(&[], 0, IMAGE_CONFIG_MEDIA_TYPE);
    assert_eq!(profile.kind, L0Kind::Unknown(String::new()));
    assert_eq!(profile.source, L0Source::Inferred);
}

#[test]
fn no_label_with_legacy_config_media_type_infers_container() {
    let profile = profile_of(&[], 1, IMAGE_DOCKER_CONFIG_MEDIA_TYPE);
    assert_eq!(profile.kind, L0Kind::Container);
}

#[test]
fn a_foreign_configuration_infers_nothing() {
    let manifest = ImageManifest {
        config: Descriptor { media_type: "text/plain".to_string(), digest: String::new() },
        layers: vec![Descriptor { media_type: LAYER.to_string(), digest: String::new() }],
    };
    assert_eq!(infer_kind(&manifest), L0Kind::Unknown(String::new()));
}

#[test]
fn unknown_ref_returns_not_found() {
    let err = find_entry("no-such-ref", None).expect_err("must fail");
    assert!(matches!(err, RegistryError::NotFound(_)), "got {err:?}");
    assert_eq!(find_entry("r", Some("sha256:a".to_string())).unwrap(), "sha256:a");
}

#[test]
fn image_index_requires_platform_selection() {
    let index = b"{\"schemaVersion\":2,\"mediaType\":\"application/vnd.oci.image.index.v1+json\",\
        \"manifests\":[]}";
    match introspect("example.invalid/multi:latest", index) {
        Err(RegistryError::InvalidLayout(msg)) => {
            assert!(msg.contains("image index"), "message was {msg:?}")
        }
        other => panic!("expected InvalidLayout, got {other:?}"),
    }
    assert!(matches!(introspect("r", b"junk"), Err(RegistryError::Json(_))));
    let image = Manifest::Image(ImageManifest {
        config: Descriptor { media_type: String::new(), digest: "sha256:c".to_string() },
        layers: Vec::new(),
    });
    assert_eq!(single_image("r", image).unwrap().config.digest, "sha256:c");
}

#[test]
fn labels_are_passed_through_for_downstream_inspection() {
    let profile = profile_of(
        &[
            (label::TYPE, "container"),
            (label::SPEC_VERSION, "0.2"),
            ("org.opencontainers.image.source", "https://example.invalid/x"),
        ],
        1,
        IMAGE_CONFIG_MEDIA_TYPE,
    );
    assert_eq!(profile.labels.get(label::SPEC_VERSION).map(String::as_str), Some("0.2"));
    assert_eq!(
        profile.labels.get("org.opencontainers.image.source").map(String::as_str),
        Some("https://example.invalid/x"),
    );
}

#[test]
fn add_override_short_circuits_chain() {
    let tarball = "/tmp/custom-rootfs.tar.gz";
    match resolve_add("alpine:3.21.0", Some((tarball, true)), None, &Vec::new(), false) {
        Ok(AddResolution::Found(art)) => {
            assert_eq!(art.layers, vec![tarball.to_string()]);
            assert!(matches!(art.provenance, AddProvenance::Override(p) if p == tarball));
        }
        other => panic!("expected the override, got {other:?}"),
    }
}

#[test]
fn add_override_missing_file_errors() {
    match resolve_add("alpine:3.21.0", Some(("/tmp/nope.tar.gz", false)), None, &Vec::new(), false)
    {
        Err(AddResolveError::OverrideMissing { message }) => {
            assert!(message.contains("/tmp/nope.tar.gz"));
        }
        other => panic!("expected OverrideMissing, got {other:?}"),
    }
}

#[test]
fn add_malformed_oci_ref_rejected() {
    match resolve_add("alpine::3.21.0", None, None, &Vec::new(), false) {
        Err(AddResolveError::MalformedRef { ref_name, .. }) => {
            assert_eq!(ref_name, "alpine::3.21.0");
        }
        other => panic!("expected MalformedRef, got {other:?}"),
    }
}

fn tried(r: Result<AddResolution, AddResolveError>) -> String {
    match r {
        Ok(AddResolution::Search(plan)) => plan.tried,
        other => panic!("expected a search, got {other:?}"),
    }
}

#[test]
fn add_chain_exhausted_when_only_cache_lookups_supplied() {
    let candidates = vec!["docker.io/library/alpine:3.21.0".to_string()];
    let tried = tried(resolve_add("alpine:3.21.0", None, None, &candidates, false));
    assert!(tried.contains("cache"), "expected cache attempt: {tried:?}");
    assert!(tried.contains("registry"), "expected registry attempt: {tried:?}");
    match add_error(ResolveFailure::NotFound { tried: tried.clone() }) {
        AddResolveError::NotFound { tried: t } => assert_eq!(t, tried),
        other => panic!("expected NotFound, got {other:?}"),
    }
}

#[test]
fn add_registry_ref_overrides_directive_value_for_pull() {
    let explicit = "registry.example.invalid/private/curated:1.0";
    assert_eq!(pull_ref("alpine:3.21.0", Some(explicit)), explicit);
    let candidates = vec![pull_ref("alpine:3.21.0", Some(explicit))];
    let tried = tried(resolve_add("alpine:3.21.0", None, Some(explicit), &candidates, false));
    assert!(
        tried.contains("registry.example.invalid/private/curated:1.0"),
        "tried should reference the explicit registry ref: {tried:?}",
    );
    assert!(
        !tried.contains("alpine:3.21.0"),
        "directive value should be replaced by the registry ref: {tried:?}",
    );
}

#[test]
fn from_kernel_override_short_circuits_chain() {
    let tarball = "/tmp/custom-kernel.tar";
    match resolve_from_kernel(
        "imagilux/kernel-linux:7.0",
        Some((tarball, true)),
        None,
        &Vec::new(),
        false,
    ) {
        Ok(FromKernelResolution::Found(art)) => {
            assert_eq!(art.layers, vec![tarball.to_string()]);
            assert!(matches!(art.provenance, FromKernelProvenance::Override(p) if p == tarball));
        }
        other => panic!("expected the override, got {other:?}"),
    }
}

#[test]
fn from_kernel_override_missing_file_errors() {
    assert!(matches!(
        resolve_from_kernel(
            "imagilux/kernel-linux:7.0",
            Some(("/tmp/nope.tar", false)),
            None,
            &Vec::new(),
            false
        ),
        Err(FromKernelResolveError::OverrideMissing { .. })
    ));
}

#[test]
fn from_kernel_malformed_oci_ref_rejected() {
    match resolve_from_kernel("kernel::7.0", None, None, &Vec::new(), false) {
        Err(FromKernelResolveError::MalformedRef { ref_name, .. }) => {
            assert_eq!(ref_name, "kernel::7.0");
        }
        other => panic!("expected MalformedRef, got {other:?}"),
    }
}

#[test]
fn from_kernel_chain_exhausted_when_only_cache_lookups_supplied() {
    let candidates = vec!["docker.io/imagilux/kernel-linux:7.0".to_string()];
    let plan =
        match resolve_from_kernel("imagilux/kernel-linux:7.0", None, None, &candidates, false) {
            Ok(FromKernelResolution::Search(plan)) => plan,
            other => panic!("expected a search, got {other:?}"),
        };
    let mut walk = ResolveWalk::start(plan);
    while walk.next().is_some() {
        walk.on_missed();
    }
    match from_kernel_error(walk.not_found()) {
        FromKernelResolveError::NotFound { tried } => {
            assert!(tried.contains("cache"), "expected cache attempt: {tried:?}");
            assert!(tried.contains("registry"), "expected registry attempt: {tried:?}");
        }
        other => panic!("expected NotFound, got {other:?}"),
    }
}

#[test]
fn the_first_place_that_has_an_image_ends_the_search() {
    let candidates = vec!["docker.io/library/a:1".to_string(), "ghcr.io/x/a:1".to_string()];
    let search = || match resolve_add("a:1", None, None, &candidates, true) {
        Ok(AddResolution::Search(plan)) => ResolveWalk::start(plan),
        other => panic!("expected a search, got {other:?}"),
    };
    let layers = vec!["/blobs/1".to_string()];
    let (found, from) = search().on_found(layers.clone());
    assert_eq!(found, layers);
    assert!(matches!(from, Provenance::Cache(r) if r == "docker.io/library/a:1"));
    let mut walk = search();
    walk.on_missed();
    walk.on_missed();
    walk.on_missed();
    assert!(matches!(walk.next(), Some(Attempt::Registry { registry, .. }) if registry == "ghcr.io"));
    assert!(matches!(walk.on_found(layers).1, Provenance::Registry(r) if r == "ghcr.io/x/a:1"));
}

#[test]
fn the_cache_comes_before_the_registry() {
    let candidates = vec!["docker.io/library/a:1".to_string(), "ghcr.io/x/a:1".to_string()];
    match resolve_add("a:1", None, None, &candidates, true) {
        Ok(AddResolution::Search(plan)) => {
            let seen: Vec<String> = plan
                .attempts
                .iter()
                .map(|a| match a {
                    Attempt::Cache { canonical } => format!("cache {canonical}"),
                    Attempt::Registry { registry, canonical } => {
                        format!("{registry} {canonical}")
                    }
                })
                .collect();
            assert_eq!(
                seen,
                vec![
                    "cache docker.io/library/a:1",
                    "docker.io docker.io/library/a:1",
                    "cache ghcr.io/x/a:1",
                    "ghcr.io ghcr.io/x/a:1",
                ]
            );
        }
        other => panic!("expected a search, got {other:?}"),
    }
}

#[test]
fn only_a_kernel_is_a_kernel() {
    assert!(check_kernel("r", &L0Kind::Payload(Payload::Kernel)).is_ok());
    match check_kernel("r", &L0Kind::Container) {
        Err(FromKernelResolveError::MalformedArtifact { ref_name, .. }) => {
            assert_eq!(ref_name, "r");
        }
        other => panic!("expected MalformedArtifact, got {other:?}"),
    }
    assert!(matches!(
        from_kernel_error(malformed("r", "why")),
        FromKernelResolveError::MalformedArtifact { ref_name, detail }
            if ref_name == "r" && detail == "why"
    ));
}

#[test]
fn an_artifact_without_layers_is_malformed() {
    let image = |layers: usize| ImageManifest {
        config: Descriptor { media_type: String::new(), digest: String::new() },
        layers: (0..layers)
            .map(|i| Descriptor { media_type: LAYER.to_string(), digest: format!("sha256:{i}") })
            .collect(),
    };
    assert!(matches!(
        read_layer_paths("r", &image(0)),
        Err(ResolveFailure::MalformedArtifact { ref_name, .. }) if ref_name == "r"
    ));
    assert_eq!(read_layer_paths("r", &image(2)).unwrap(), vec!["sha256:0", "sha256:1"]);
    assert!(matches!(
        read_image_manifest("r", Manifest::Image(image(1)), Architecture::X86_64),
        Ok(ManifestPlace::Here(m)) if m.layers.len() == 1
    ));
    let a = add_artifact(vec!["l".to_string()], Provenance::Registry("r".to_string()));
    assert!(matches!(a.provenance, AddProvenance::Registry(r) if r == "r"));
    let k = from_kernel_artifact(Vec::new(), Provenance::Cache("c".to_string()));
    assert!(matches!(k.provenance, FromKernelProvenance::Cache(c) if c == "c"));
}

#[test]
fn a_reference_is_read_into_its_canonical_form() {
    let r = read_reference("alpine").expect("reference");
    assert_eq!(r.registry, "docker.io");
    assert_eq!(r.whole, "docker.io/library/alpine:latest");
    let r = read_reference("ghcr.io/a/b:1").expect("reference");
    assert_eq!(r.registry, "ghcr.io");
    assert_eq!(r.whole, "ghcr.io/a/b:1");
    assert!(read_reference("a::b").is_err());
}
