//! The kernel in a staging tree, and the platform of an image.
use umf_builder::architecture::Architecture;
use umf_builder::kernel::{detect_kernel_layout, vmlinuz_suffix, KernelLayoutError, ReleaseDir};
use umf_builder::manifest::{ImageIndex, IndexEntry, Platform};
use umf_builder::platform::select_for_arch;

fn dirs(names: &[(&str, bool)]) -> Vec<ReleaseDir> {
    names
        .iter()
        .map(|(name, non_empty)| ReleaseDir { name: name.to_string(), non_empty: *non_empty })
        .collect()
}

fn files(names: &[&str]) -> Vec<String> {
    names.iter().map(|s| s.to_string()).collect()
}

#[test]
fn detects_release_suffixed_layout() {
    let layout =
        detect_kernel_layout("/s", &dirs(&[("6.6.79", true)]), &files(&["vmlinuz-6.6.79"]))
            .expect("detect");
    assert_eq!(layout.release, "6.6.79");
    assert!(layout.vmlinuz.ends_with("boot/vmlinuz-6.6.79"));
    assert!(layout.modules.ends_with("lib/modules/6.6.79"));
}

#[test]
fn detects_alpine_style_vmlinuz_lts() {
    let layout =
        detect_kernel_layout("/s", &dirs(&[("6.6-lts", true)]), &files(&["vmlinuz-lts"]))
            .expect("detect");
    assert_eq!(layout.release, "6.6-lts");
    assert!(layout.modules.ends_with("lib/modules/6.6-lts"));
}

#[test]
fn prefers_suffix_match_when_multiple_releases_present() {
    let layout = detect_kernel_layout(
        "/s",
        &dirs(&[("6.6.79", true), ("7.0", true)]),
        &files(&["vmlinuz-7.0"]),
    )
    .expect("detect");
    assert_eq!(layout.release, "7.0");
}

#[test]
fn errors_when_no_vmlinuz_present() {
    let err = detect_kernel_layout("/s", &dirs(&[("6.6.79", true)]), &files(&[])).unwrap_err();
    assert!(matches!(err, KernelLayoutError::NoVmlinuz), "got {err:?}");
}

#[test]
fn errors_when_no_modules_present() {
    let err = detect_kernel_layout("/s", &dirs(&[]), &files(&["vmlinuz-6.6.79"])).unwrap_err();
    assert!(matches!(err, KernelLayoutError::NoModules { .. }), "got {err:?}");
}

#[test]
fn errors_when_modules_dir_empty() {
    let err =
        detect_kernel_layout("/s", &dirs(&[("6.6.79", false)]), &files(&["vmlinuz-6.6.79"]))
            .unwrap_err();
    assert!(matches!(err, KernelLayoutError::NoModules { .. }), "got {err:?}");
}

#[test]
fn the_suffix_of_a_kernel_is_its_release() {
    assert_eq!(vmlinuz_suffix("/boot/vmlinuz-6.6").as_deref(), Some("6.6"));
    assert_eq!(vmlinuz_suffix("/boot/vmlinuz"), None);
}

fn entry(arch: &str, variant: Option<&str>, digest: &str) -> IndexEntry {
    IndexEntry {
        digest: digest.to_string(),
        platform: Some(Platform {
            os: "linux".to_string(),
            architecture: arch.to_string(),
            variant: variant.map(str::to_string),
        }),
    }
}

fn selected(entries: Vec<IndexEntry>, arch: Architecture) -> Option<String> {
    select_for_arch(&ImageIndex { manifests: entries }, arch).map(|m| m.digest.clone())
}

#[test]
fn picks_the_matching_architecture() {
    let index =
        || vec![entry("amd64", None, "sha256:amd"), entry("arm64", None, "sha256:arm")];
    assert_eq!(selected(index(), Architecture::Aarch64).as_deref(), Some("sha256:arm"));
    assert_eq!(selected(index(), Architecture::X86_64).as_deref(), Some("sha256:amd"));
}

#[test]
fn prefers_the_variantless_entry_but_accepts_a_variant() {
    let both = vec![
        entry("arm64", Some("v8"), "sha256:v8"),
        entry("arm64", None, "sha256:plain"),
    ];
    assert_eq!(selected(both, Architecture::Aarch64).as_deref(), Some("sha256:plain"));
    let only_variant = vec![entry("arm64", Some("v8"), "sha256:v8")];
    assert_eq!(selected(only_variant, Architecture::Aarch64).as_deref(), Some("sha256:v8"));
}

#[test]
fn never_falls_back_to_a_different_architecture() {
    let index = vec![entry("amd64", None, "sha256:amd")];
    assert!(selected(index, Architecture::Aarch64).is_none());
}

#[test]
fn ignores_non_linux_manifests() {
    let mut e = entry("arm64", None, "sha256:win");
    if let Some(p) = e.platform.as_mut() {
        p.os = "windows".to_string();
    }
    assert!(selected(vec![e], Architecture::Aarch64).is_none());
}

#[test]
fn an_entry_without_platform_metadata_never_matches() {
    let mut e = entry("arm64", None, "sha256:bare");
    e.platform = None;
    assert!(selected(vec![e], Architecture::Aarch64).is_none());
}

#[test]
fn an_empty_directory_of_the_matching_release_is_an_error() {
    let release = |d: &[(&str, bool)], f: &[&str]| {
        match detect_kernel_layout("/s", &dirs(d), &files(f)) {
            Err(KernelLayoutError::NoModules { release }) => release,
            other => panic!("got {other:?}"),
        }
    };
    assert_eq!(release(&[("6.6.79", true), ("7.0", false)], &["vmlinuz-7.0"]), "7.0");
    assert_eq!(
        release(
            &[("5.0", false), ("6.0", false), ("9.0", true)],
            &["vmlinuz-6.0", "vmlinuz-5.0", "vmlinuz-8.0"],
        ),
        "5.0"
    );
}

#[test]
fn a_matching_release_with_modules_comes_before_an_empty_one() {
    let layout = detect_kernel_layout(
        "/s",
        &dirs(&[("5.0", false), ("6.0", true)]),
        &files(&["vmlinuz-5.0", "vmlinuz-6.0"]),
    )
    .expect("detect");
    assert_eq!(layout.release, "6.0");
    assert_eq!(layout.vmlinuz, "/s/boot/vmlinuz-6.0");
}

#[test]
fn the_first_of_several_images_for_the_architecture_is_picked() {
    let plain = vec![
        entry("arm64", Some("v8"), "sha256:v8"),
        entry("arm64", None, "sha256:first"),
        entry("arm64", None, "sha256:second"),
    ];
    assert_eq!(selected(plain, Architecture::Aarch64).as_deref(), Some("sha256:first"));
    let variants = vec![
        entry("amd64", Some("v2"), "sha256:amd"),
        entry("arm64", Some("v8"), "sha256:v8"),
        entry("arm64", Some("v9"), "sha256:v9"),
    ];
    assert_eq!(selected(variants, Architecture::Aarch64).as_deref(), Some("sha256:v8"));
}
