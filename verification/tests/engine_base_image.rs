//! The image that a stage starts from.
use umf_builder::architecture::Architecture;
use umf_builder::digest::sha256_digest;
use umf_builder::engine_build::base_image::{
    base_manifest, check_layer_count, choose_manifest, extract_diff_ids, image_config_from_raw,
    pull_candidates, pull_failed, resolve_base_image, scratch_base_image, ManifestPlace, PullAction,
    PullWalk,
};
use umf_builder::engine_build::EngineBuildError;
use umf_builder::json::read_json;
use umf_builder::l0::L0Kind;
use umf_builder::manifest::{
    read_image_manifest, read_manifest, Descriptor, ImageIndex, ImageManifest, IndexEntry,
    Manifest, Platform,
};

const IMAGE: &str = "application/vnd.oci.image.manifest.v1+json";
const INDEX: &str = "application/vnd.oci.image.index.v1+json";
const CONFIG: &str = "application/vnd.oci.image.config.v1+json";
const LAYER: &str = "application/vnd.oci.image.layer.v1.tar+gzip";

fn config_doc(arch: &str, layers: usize) -> String {
    let diff_ids: Vec<String> =
        (0..layers).map(|i| format!("\"sha256:diff-{arch}-{i}\"")).collect();
    format!(
        "{{\"architecture\":\"{arch}\",\"os\":\"linux\",\"config\":{{}},\
         \"rootfs\":{{\"type\":\"layers\",\"diff_ids\":[{}]}}}}",
        diff_ids.join(",")
    )
}

fn image_doc(arch: &str, layers: usize) -> String {
    let config = sha256_digest(config_doc(arch, layers).as_bytes());
    let layers: Vec<String> = (0..layers)
        .map(|i| {
            let digest = sha256_digest(format!("layer-{arch}-{i}\n").as_bytes());
            format!("{{\"mediaType\":\"{LAYER}\",\"digest\":\"{digest}\",\"size\":10}}")
        })
        .collect();
    format!(
        "{{\"schemaVersion\":2,\"mediaType\":\"{IMAGE}\",\"config\":{{\"mediaType\":\"{CONFIG}\",\
         \"digest\":\"{config}\",\"size\":2}},\"layers\":[{}]}}",
        layers.join(",")
    )
}

fn index_doc(archs: &[(&str, usize)]) -> String {
    let entries: Vec<String> = archs
        .iter()
        .map(|(arch, layers)| {
            let digest = sha256_digest(image_doc(arch, *layers).as_bytes());
            format!(
                "{{\"mediaType\":\"{IMAGE}\",\"digest\":\"{digest}\",\"size\":1,\
                 \"platform\":{{\"architecture\":\"{arch}\",\"os\":\"linux\"}}}}"
            )
        })
        .collect();
    format!(
        "{{\"schemaVersion\":2,\"mediaType\":\"{INDEX}\",\"manifests\":[{}]}}",
        entries.join(",")
    )
}

/// The base image behind an index of the two architectures.
fn resolve(arch: Architecture, name: &str, layers: usize) -> (usize, String) {
    let index = index_doc(&[("amd64", 1), ("arm64", 2)]);
    match base_manifest(index.as_bytes(), arch).expect("a manifest for the platform") {
        ManifestPlace::Blob(digest) => {
            assert_eq!(digest, sha256_digest(image_doc(name, layers).as_bytes()));
        }
        ManifestPlace::Here(_) => panic!("an index holds no layers"),
    }
    let manifest = read_image_manifest(image_doc(name, layers).as_bytes()).expect("manifest");
    let raw = read_json(config_doc(name, layers).as_bytes()).expect("config");
    let diff_ids = check_layer_count(&manifest, &raw).expect("as many layers as diff ids");
    let blobs = (0..layers).map(|i| vec![i as u8]).collect();
    let base = resolve_base_image(&manifest, &raw, &diff_ids, &blobs, arch);
    (base.layers.len(), base.config.architecture)
}

#[test]
fn index_selection_picks_requested_arch() {
    assert_eq!(resolve(Architecture::X86_64, "amd64", 1), (1, "amd64".to_string()));
    assert_eq!(resolve(Architecture::Aarch64, "arm64", 2), (2, "arm64".to_string()));
}

#[test]
fn index_selection_errors_when_arch_absent() {
    let index = index_doc(&[("amd64", 1)]);
    match base_manifest(index.as_bytes(), Architecture::Aarch64) {
        Err(EngineBuildError::NoManifestForPlatform { arch }) => assert_eq!(arch, "arm64"),
        Err(other) => panic!("expected NoManifestForPlatform, got {other:?}"),
        Ok(_) => panic!("expected an error for an unpublished arch, got Ok"),
    }
}

#[test]
fn a_single_image_is_taken_as_it_is() {
    let doc = image_doc("amd64", 2);
    match base_manifest(doc.as_bytes(), Architecture::Aarch64) {
        Ok(ManifestPlace::Here(m)) => {
            assert_eq!(m.layers.len(), 2);
            assert_eq!(m.config.media_type, CONFIG);
            assert_eq!(m.layers[0].digest, sha256_digest(b"layer-amd64-0\n"));
        }
        _ => panic!("expected the image itself"),
    }
    assert!(matches!(
        base_manifest(b"no json", Architecture::X86_64),
        Err(EngineBuildError::Json(_))
    ));
}

#[test]
fn a_manifest_is_chosen_by_platform() {
    let index = Manifest::Index(ImageIndex {
        manifests: vec![IndexEntry {
            digest: "sha256:a".to_string(),
            platform: Some(Platform {
                os: "linux".to_string(),
                architecture: "amd64".to_string(),
                variant: None,
            }),
        }],
    });
    assert!(matches!(
        choose_manifest(index, Architecture::X86_64),
        Ok(ManifestPlace::Blob(d)) if d == "sha256:a"
    ));
}

#[test]
fn the_counts_of_layers_and_diff_ids_must_agree() {
    let manifest = ImageManifest {
        config: Descriptor { media_type: CONFIG.to_string(), digest: "sha256:c".to_string() },
        layers: vec![Descriptor { media_type: LAYER.to_string(), digest: "sha256:l".to_string() }],
    };
    let raw = read_json(config_doc("amd64", 2).as_bytes()).unwrap();
    assert_eq!(extract_diff_ids(&raw), vec!["sha256:diff-amd64-0", "sha256:diff-amd64-1"]);
    match check_layer_count(&manifest, &raw) {
        Err(EngineBuildError::BaseImageLayerCountMismatch { layers, diff_ids }) => {
            assert_eq!((layers, diff_ids), (1, 2));
        }
        other => panic!("expected BaseImageLayerCountMismatch, got {other:?}"),
    }
}

#[test]
fn the_configuration_of_the_base_is_kept() {
    let doc = "{\"architecture\":\"arm64\",\"os\":\"linux\",\"author\":\"me\",\"config\":{\
        \"Env\":[\"A=1\",\"B=2\"],\"Entrypoint\":[\"/e\"],\"Cmd\":[\"/c\",\"x\"],\
        \"WorkingDir\":\"/w\",\"User\":\"u\",\"Labels\":{\"k\":\"v\"},\
        \"ExposedPorts\":{\"80/tcp\":{},\"53/udp\":{}},\"Volumes\":{\"/data\":{}},\
        \"StopSignal\":\"SIGTERM\"},\
        \"history\":[{\"created_by\":\"RUN x\",\"empty_layer\":true}]}";
    let raw = read_json(doc.as_bytes()).unwrap();
    let config = image_config_from_raw(&raw, Architecture::X86_64);
    assert_eq!(config.architecture, "amd64");
    let c = &config.container;
    assert_eq!(c.env, vec!["A=1", "B=2"]);
    assert_eq!(c.entrypoint, Some(vec!["/e".to_string()]));
    assert_eq!(c.cmd, Some(vec!["/c".to_string(), "x".to_string()]));
    assert_eq!(c.working_dir.as_deref(), Some("/w"));
    assert_eq!(c.user.as_deref(), Some("u"));
    assert_eq!(c.labels.get("k").map(String::as_str), Some("v"));
    assert!(c.exposed_ports.is_empty());
    assert!(c.volumes.is_empty());
    assert_eq!(c.stop_signal, None);
    assert!(config.history.is_empty());
    assert_eq!(config.author, None);
    assert_eq!(config.os, "linux");
    assert_eq!(config.umf_type, L0Kind::Container);
}

#[test]
fn an_empty_command_of_the_base_is_none() {
    let doc = "{\"os\":\"plan9\",\"config\":{\"Entrypoint\":[],\"Cmd\":[1],\"User\":\"\",\
        \"WorkingDir\":\"\",\"Labels\":{\"a\":1,\"b\":\"2\"}}}";
    let config = image_config_from_raw(&read_json(doc.as_bytes()).unwrap(), Architecture::X86_64);
    assert_eq!(config.os, "plan9");
    assert_eq!(config.container.entrypoint, None);
    assert_eq!(config.container.cmd, None);
    assert_eq!(config.container.user, None);
    assert_eq!(config.container.working_dir, None);
    assert_eq!(config.container.labels.len(), 1);
    assert_eq!(config.container.labels.get("b").map(String::as_str), Some("2"));
}

#[test]
fn an_empty_configuration_gives_an_empty_image() {
    let raw = read_json(b"{}").unwrap();
    let config = image_config_from_raw(&raw, Architecture::Aarch64);
    assert_eq!(config.architecture, "arm64");
    assert!(config.container.env.is_empty());
    assert!(config.history.is_empty());
    assert!(extract_diff_ids(&raw).is_empty());
}

#[test]
fn scratch_has_no_layers() {
    let base = scratch_base_image(Architecture::X86_64);
    assert!(base.layers.is_empty());
    assert_eq!(base.config.architecture, "amd64");
    assert_eq!(base.config.umf_type, L0Kind::Container);
}

#[test]
fn a_reference_is_pulled_under_its_canonical_names() {
    let refs = pull_candidates(
        "alpine",
        &vec!["docker.io/library/alpine:3".to_string(), "a::b".to_string()],
    )
    .expect("candidates");
    assert_eq!(refs.len(), 1);
    assert_eq!(refs[0].whole, "docker.io/library/alpine:3");
    assert_eq!(refs[0].registry, "docker.io");
    assert!(matches!(
        pull_candidates("a::b", &vec!["a::b".to_string()]),
        Err(EngineBuildError::InvalidReference(..))
    ));
    assert!(matches!(
        pull_failed("r", Some(EngineBuildError::NoStages)),
        EngineBuildError::NoStages
    ));
    assert!(matches!(pull_failed("r", None), EngineBuildError::InvalidReference(..)));
}

#[test]
fn an_image_in_the_layout_is_not_pulled() {
    let candidates = vec!["docker.io/library/alpine:3".to_string(), "ghcr.io/x/alpine:3".to_string()];
    let mut walk = PullWalk::start("alpine:3", &candidates).expect("candidates");
    assert!(matches!(walk.on_lookup(true), PullAction::Use(r) if r == "docker.io/library/alpine:3"));
    match walk.on_lookup(false) {
        PullAction::Pull { registry, canonical } => {
            assert_eq!(registry, "docker.io");
            assert_eq!(canonical, "docker.io/library/alpine:3");
        }
        other => panic!("expected a pull, got {other:?}"),
    }
    walk.on_failed(EngineBuildError::NoStages);
    assert_eq!(walk.next().map(|r| r.whole.as_str()), Some("ghcr.io/x/alpine:3"));
    walk.on_failed(EngineBuildError::MultiStageNotSupported);
    assert!(walk.next().is_none());
    assert!(matches!(walk.failed(), EngineBuildError::MultiStageNotSupported));
    let none = PullWalk::start("alpine:3", &Vec::new()).expect("candidates");
    assert!(matches!(none.failed(), EngineBuildError::InvalidReference(..)));
    assert!(PullWalk::start("a::b", &candidates).is_err());
}

#[test]
fn a_manifest_is_an_image_or_an_index() {
    assert!(matches!(
        read_manifest(image_doc("amd64", 1).as_bytes()),
        Ok(Manifest::Image(m)) if m.layers.len() == 1
    ));
    match read_manifest(index_doc(&[("amd64", 1), ("arm64", 2)]).as_bytes()) {
        Ok(Manifest::Index(index)) => {
            assert_eq!(index.manifests.len(), 2);
            let p = index.manifests[1].platform.as_ref().expect("platform");
            assert_eq!(p.architecture, "arm64");
            assert_eq!(p.os, "linux");
            assert_eq!(p.variant, None);
        }
        _ => panic!("expected an index"),
    }
    assert!(read_manifest(b"[]").is_err());
}
