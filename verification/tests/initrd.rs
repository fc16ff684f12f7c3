//! The initramfs: its archive, its modules, its scripts.
use std::io::Read as _;
use flate2::read::GzDecoder;
use umf_builder::boot::RootfsFs;
use umf_builder::initrd::cpio_newc::{
    CpioEntry, CpioKind, CpioWriter, S_IFDIR, S_IFLNK, S_IFREG,
};
use umf_builder::initrd::modules::{
    collect_modules_for, module_name_of, module_stem, modules_allowlist, InitramfsFlavor,
};
use umf_builder::initrd::scripts::{build_boot_init_script, build_run_init_script};
use umf_builder::initrd::{
    generate_initramfs, initramfs_archive, report_initramfs, walk_ancestors, Busybox, InitrdError,
    InitrdReport, ModuleFile,
};

const S_IFMT: u32 = 0o170000;

fn t(s: &str) -> String {
    s.to_string()
}

fn ts(v: &[&str]) -> Vec<String> {
    v.iter().map(|s| s.to_string()).collect()
}

/// Reads an archive entry by entry.
fn parse_archive(bytes: &[u8]) -> Vec<(String, u32, Vec<u8>)> {
    let hex = |b: &[u8]| u32::from_str_radix(std::str::from_utf8(b).expect("ascii"), 16).expect("hex");
    let mut entries: Vec<(String, u32, Vec<u8>)> = Vec::new();
    let mut pos = 0usize;
    while pos < bytes.len() {
        let header = &bytes[pos..pos + 110];
        assert_eq!(&header[..6], b"070701");
        let mode = hex(&header[14..22]);
        let filesize = hex(&header[54..62]);
        let namesize = hex(&header[94..102]);
        pos += 110;
        let name_end = pos + namesize as usize;
        let name = String::from_utf8_lossy(&bytes[pos..name_end - 1]).into_owned();
        pos = name_end;
        while pos % 4 != 0 {
            pos += 1;
        }
        let data = bytes[pos..pos + filesize as usize].to_vec();
        pos += filesize as usize;
        while pos % 4 != 0 {
            pos += 1;
        }
        if name == "TRAILER!!!" {
            break;
        }
        entries.push((name, mode, data));
    }
    entries
}

#[test]
fn writes_files_and_dirs() {
    let mut w = CpioWriter::new();
    w.push(CpioEntry {
        path: t("."),
        kind: CpioKind::Directory,
        mode: 0o755,
        ..CpioEntry::default()
    });
    w.push(CpioEntry {
        path: t("hello.txt"),
        kind: CpioKind::File(b"world\n".to_vec()),
        mode: 0o644,
        ..CpioEntry::default()
    });
    let archive = w.finish();
    let parsed = parse_archive(&archive);
    assert_eq!(parsed.len(), 2);
    assert_eq!(parsed[0].0, ".");
    assert_eq!(parsed[0].1 & S_IFMT, S_IFDIR);
    assert_eq!(parsed[1].0, "hello.txt");
    assert_eq!(parsed[1].1 & S_IFMT, S_IFREG);
    assert_eq!(parsed[1].2, b"world\n");
}

#[test]
fn writes_symlinks_with_target_as_payload() {
    let mut w = CpioWriter::new();
    w.push(CpioEntry {
        path: t("bin/sh"),
        kind: CpioKind::Symlink(t("busybox")),
        mode: 0o755,
        ..CpioEntry::default()
    });
    let archive = w.finish();
    let parsed = parse_archive(&archive);
    assert_eq!(parsed.len(), 1);
    assert_eq!(parsed[0].0, "bin/sh");
    assert_eq!(parsed[0].1 & S_IFMT, S_IFLNK);
    assert_eq!(parsed[0].2, b"busybox");
}

#[test]
fn emits_trailer() {
    let archive = CpioWriter::new().finish();
    assert!(
        std::str::from_utf8(&archive).expect("ascii").contains("TRAILER!!!"),
        "missing trailer: {archive:?}",
    );
}

#[test]
fn pads_to_4_bytes() {
    let mut w = CpioWriter::new();
    w.push(CpioEntry {
        path: t("seven"),
        kind: CpioKind::File(vec![b'a'; 7]),
        mode: 0o644,
        ..CpioEntry::default()
    });
    let archive = w.finish();
    assert_eq!(archive.len() % 4, 0, "archive length not 4-aligned");
}

const TREE: [&str; 6] = [
    "kernel/drivers/block/virtio_blk.ko",
    "kernel/drivers/virtio/virtio.ko",
    "kernel/drivers/virtio/virtio_ring.ko",
    "kernel/drivers/virtio/virtio_pci.ko",
    "kernel/fs/squashfs/squashfs.ko",
    "kernel/drivers/virtio/virtio_net.ko",
];

fn generate(tree: &[&str]) -> (Vec<u8>, InitrdReport) {
    let picked = collect_modules_for(&ts(tree), None, InitramfsFlavor::Boot);
    let modules: Vec<ModuleFile> =
        picked.into_iter().map(|path| ModuleFile { path, bytes: b"MODS".to_vec() }).collect();
    let busybox = Busybox { bytes: b"#fake-busybox-ELF".to_vec(), mode: 0o755 };
    generate_initramfs("/staging", Some(&busybox), "6.6.79", &modules).expect("generate")
}

fn unpacked(bytes: &[u8]) -> Vec<u8> {
    let mut decompressed = Vec::new();
    GzDecoder::new(bytes).read_to_end(&mut decompressed).expect("gunzip initramfs");
    decompressed
}

fn generated_text(tree: &[&str]) -> String {
    String::from_utf8_lossy(&unpacked(&generate(tree).0)).into_owned()
}

#[test]
fn rejects_staging_without_busybox() {
    match generate_initramfs("/staging", None, "6.6.79", &Vec::new()) {
        Err(InitrdError::MissingBusybox(p)) => assert!(p.ends_with("bin/busybox")),
        other => panic!("expected MissingBusybox, got {other:?}"),
    }
}

#[test]
fn picks_only_essential_modules() {
    let (_, report) = generate(&TREE);
    assert_eq!(report.modules_count, 5, "report: {report:?}");
}

#[test]
fn produces_valid_gzip_cpio() {
    let (bytes, report) = generate(&TREE);
    assert_eq!(&bytes[..2], &[0x1f, 0x8b], "missing gzip magic");
    assert_eq!(bytes.len(), report.compressed_size_bytes);
    let decompressed = unpacked(&bytes);
    assert_eq!(decompressed.len(), report.cpio_size_bytes);
    assert_eq!(&decompressed[..6], b"070701", "missing CPIO newc magic");
}

#[test]
fn the_compressed_archive_is_the_archive() {
    let busybox = Busybox { bytes: b"box".to_vec(), mode: 0o755 };
    let modules = vec![ModuleFile { path: t("kernel/fs/ext4.ko"), bytes: b"E".to_vec() }];
    let (bytes, report) =
        generate_initramfs("/staging", Some(&busybox), "6.6", &modules).expect("generate");
    let plain = initramfs_archive(&busybox, "6.6", &modules, InitramfsFlavor::Boot);
    assert_eq!(unpacked(&bytes), plain);
    assert_eq!(report.filename, "initramfs-6.6.img");
    let names: Vec<String> = parse_archive(&plain).into_iter().map(|e| e.0).collect();
    for name in ["init", "bin/busybox", "lib/modules/6.6/kernel/fs/ext4.ko"] {
        assert!(names.contains(&t(name)), "{name} is missing: {names:?}");
    }
    let at = |n: &str| names.iter().position(|x| x == n).expect("present");
    assert!(at("lib/modules/6.6/kernel") < at("lib/modules/6.6/kernel/fs"));
    assert!(at("lib/modules/6.6/kernel/fs") < at("lib/modules/6.6/kernel/fs/ext4.ko"));
    assert_eq!(report_initramfs("6.6", 1, 2, 3).modules_count, 3);
}

#[test]
fn init_script_references_modules_and_mounts_the_root() {
    let text = generated_text(&TREE);
    assert!(
        text.contains("/lib/modules/6.6.79/"),
        "init does not reference the embedded modules"
    );
    assert!(text.contains("insmod \"$_m\""), "init does not load the embedded modules");
    assert!(text.contains("/sysroot"), "init does not mount the root onto /sysroot");
    assert!(text.contains("switch_root /sysroot"), "init missing switch_root");
}

#[test]
fn boot_init_takes_the_root_filesystem_from_the_cmdline() {
    let script = build_boot_init_script("7.0.0-umf", &Vec::new());
    assert!(
        script.contains("rootfstype="),
        "init must read rootfstype= from the cmdline: {script}",
    );
    assert!(
        script.contains("mount -t \"$ROOTFSTYPE\""),
        "init must mount with the type it read, not a literal: {script}",
    );
    for fs in RootfsFs::all() {
        let fs = fs.as_str();
        assert!(
            !script.contains(&format!("mount -t {fs}")),
            "init must not hardcode `mount -t {fs}`: {script}",
        );
    }
    assert!(
        script.contains("mount -o ro \"$ROOT\" /sysroot"),
        "init needs a no-type fallback mount: {script}",
    );
}

#[test]
fn boot_initramfs_carries_a_driver_for_every_projectable_filesystem() {
    let allow = modules_allowlist(InitramfsFlavor::Boot);
    for fs in RootfsFs::all() {
        assert!(
            allow.contains(&fs.as_str()),
            "boot initramfs must carry the {} driver; allowlist: {allow:?}",
            fs.as_str(),
        );
    }
}

#[test]
fn boot_init_honours_root_from_the_kernel_cmdline() {
    let text = generated_text(&TREE);
    assert!(text.contains("/proc/cmdline"), "init must read the kernel cmdline");
    assert!(
        text.contains("root=*) ROOT=\"${_arg#root=}\""),
        "init must extract root= from the cmdline",
    );
    assert!(
        text.contains("findfs"),
        "init must resolve PARTLABEL=/PARTUUID=/UUID= forms via findfs",
    );
    for node in ["/dev/vda2", "/dev/sda2", "/dev/nvme0n1p2", "/dev/mmcblk0p2"] {
        assert!(text.contains(node), "fallback probe should still consider {node}");
    }
    assert!(
        text.contains("no root device found"),
        "init should diagnose an unresolvable root device",
    );
}

#[test]
fn boot_initramfs_carries_non_virtio_storage_drivers() {
    let mut tree = TREE.to_vec();
    tree.push("kernel/drivers/nvme/host/nvme.ko");
    tree.push("kernel/drivers/nvme/host/nvme_core.ko");
    tree.push("kernel/drivers/ata/ahci.ko");
    let text = generated_text(&tree);
    for driver in ["nvme", "nvme_core", "ahci"] {
        assert!(
            text.contains(&format!("{driver}.ko")),
            "{driver} should be embedded for bare-metal boot",
        );
    }
}

#[test]
fn module_loading_retries_so_dependency_order_does_not_matter() {
    let text = generated_text(&TREE);
    assert!(text.contains("for _pass in"), "module loading should retry across passes");
    assert!(
        text.contains("_loaded=1"),
        "the retry loop should track whether a pass made progress",
    );
}

#[test]
fn the_run_init_brings_up_the_nic_and_takes_a_dhcp_lease() {
    let script = build_run_init_script("7.0.0-umf", &Vec::new());
    assert!(script.contains("eth0"), "the run init must configure a NIC:\n{script}");
    assert!(
        script.contains("udhcpc"),
        "the run init must take a DHCP lease so the NIC is usable:\n{script}"
    );
    assert!(script.contains("lo"), "loopback must come up:\n{script}");
}

#[test]
fn the_run_init_configures_a_staged_static_network() {
    let script = build_run_init_script("7.0.0-umf", &Vec::new());
    assert!(script.contains(".umf-net"), "must read the staged config");
    assert!(script.contains("UMF_GW"), "must set a default route");
    assert!(
        script.contains("mount --bind /etc/resolv.conf /sysroot/etc/resolv.conf"),
        "resolv.conf must be bind-mounted, not written into the layer:\n{script}"
    );
    assert!(script.contains("udhcpc"), "DHCP fallback must remain");
}

fn names_of(picked: &[String]) -> Vec<String> {
    picked.iter().map(|p| module_stem(p.rsplit('/').next().unwrap())).collect()
}

#[test]
fn a_filesystem_driver_brings_its_dependencies_with_it() {
    let tree = ts(&[
        "kernel/fs/ext4/ext4.ko.gz",
        "kernel/fs/jbd2/jbd2.ko.gz",
        "kernel/fs/mbcache.ko.gz",
        "kernel/lib/crc16.ko.gz",
        "kernel/fs/squashfs/squashfs.ko.gz",
        "kernel/fs/xfs/xfs.ko.gz",
    ]);
    let dep = "kernel/fs/ext4/ext4.ko.gz: kernel/fs/jbd2/jbd2.ko.gz kernel/fs/mbcache.ko.gz \
         kernel/lib/crc16.ko.gz\n\
         kernel/fs/jbd2/jbd2.ko.gz:\n\
         kernel/fs/squashfs/squashfs.ko.gz:\n\
         kernel/fs/xfs/xfs.ko.gz:\n";
    let names = names_of(&collect_modules_for(&tree, Some(dep), InitramfsFlavor::Boot));
    for needed in ["ext4", "jbd2", "mbcache", "crc16"] {
        assert!(
            names.iter().any(|n| n == needed),
            "`{needed}` must be embedded — ext4 cannot mount without it: {names:?}",
        );
    }
    assert!(
        !names.iter().any(|n| n == "xfs"),
        "dependency resolution must not drag in unrelated modules: {names:?}",
    );
}

#[test]
fn a_tree_without_modules_dep_still_collects_the_allowlist() {
    let tree = ts(&["kernel/fs/squashfs/squashfs.ko", "kernel/fs/ext4/ext4.ko"]);
    let names = names_of(&collect_modules_for(&tree, None, InitramfsFlavor::Boot));
    assert!(names.iter().any(|n| n == "squashfs"), "{names:?}");
    assert!(names.iter().any(|n| n == "ext4"), "{names:?}");
}

#[test]
fn only_module_files_are_collected() {
    let tree = ts(&[
        "kernel/drivers/block/virtio_blk",
        "kernel/drivers/block/virtio_blk.ko.sig",
        "kernel/drivers/nvme/nvme.ko.bz2",
        "kernel/fs/ext4/ext4.ko.xz",
        "kernel/fs/erofs/erofs.ko.zst",
        "kernel/fs/overlayfs/overlay.ko.gz",
        "kernel/fs/squashfs/squashfs.ko",
    ]);
    let picked = collect_modules_for(&tree, None, InitramfsFlavor::Boot);
    for name in ["ext4.ko.xz", "erofs.ko.zst", "squashfs.ko"] {
        assert!(picked.iter().any(|p| p.ends_with(name)), "{name}: {picked:?}");
    }
    for name in ["virtio_blk", "virtio_blk.ko.sig", "nvme.ko.bz2"] {
        assert!(!picked.iter().any(|p| p.ends_with(name)), "{name}: {picked:?}");
    }
}

#[test]
fn a_dependency_absent_from_the_tree_is_not_an_error() {
    let tree = ts(&["kernel/fs/erofs/erofs.ko"]);
    let dep = "kernel/fs/erofs/erofs.ko: kernel/lib/lz4/lz4_decompress.ko\n";
    let picked = collect_modules_for(&tree, Some(dep), InitramfsFlavor::Boot);
    assert_eq!(picked.len(), 1, "only the module that exists: {picked:?}");
}

#[test]
fn dependencies_resolve_when_modules_dep_names_a_stale_compression_suffix() {
    let tree = ts(&[
        "kernel/fs/ext4/ext4.ko",
        "kernel/fs/jbd2/jbd2.ko",
        "kernel/fs/mbcache.ko",
        "kernel/lib/crc16.ko",
    ]);
    let dep = "kernel/fs/ext4/ext4.ko.gz: kernel/fs/jbd2/jbd2.ko.gz kernel/fs/mbcache.ko.gz \
         kernel/lib/crc16.ko.gz\n";
    let names = names_of(&collect_modules_for(&tree, Some(dep), InitramfsFlavor::Boot));
    for needed in ["ext4", "jbd2", "mbcache", "crc16"] {
        assert!(
            names.iter().any(|n| n == needed),
            "`{needed}` must resolve despite the stale `.ko.gz` in modules.dep: {names:?}",
        );
    }
}

#[test]
fn the_boot_initramfs_carries_a_crc32c_provider() {
    let boot = modules_allowlist(InitramfsFlavor::Boot);
    assert!(
        boot.contains(&"crc32c_generic"),
        "ext4 with metadata_csum cannot mount without a crc32c shash: {boot:?}",
    );
    assert!(
        boot.contains(&"libcrc32c"),
        "the crc32c wrapper the filesystems link against: {boot:?}",
    );
}

#[test]
fn module_matching_ignores_dash_versus_underscore() {
    let tree = ts(&["kernel/arch/x86/crypto/crc32c-intel.ko"]);
    let picked = collect_modules_for(&tree, None, InitramfsFlavor::Boot);
    assert_eq!(
        picked.len(),
        1,
        "`crc32c_intel` must match the file spelled `crc32c-intel.ko`: {picked:?}",
    );
    assert_eq!(module_name_of("kernel/arch/x86/crypto/crc32c-intel.ko.xz"), "crc32c_intel");
}

#[test]
fn the_directories_above_a_module_are_walked() {
    let dirs = walk_ancestors("lib/modules/6.6/kernel/fs/ext4.ko", "lib/modules/6.6");
    assert!(dirs.contains(&t("lib/modules/6.6/kernel/fs")), "{dirs:?}");
    assert!(dirs.contains(&t("lib/modules/6.6/kernel")), "{dirs:?}");
}

#[test]
fn neither_the_path_nor_the_root_is_among_the_directories() {
    let dirs = walk_ancestors("lib/modules/6.6.79/kernel/fs/ext4", "lib/modules/6.6.79");
    assert_eq!(dirs, ts(&["lib/modules/6.6.79/kernel", "lib/modules/6.6.79/kernel/fs"]));
    let dirs = walk_ancestors("lib/modules/6.6.79/kernel/fs/", "lib//modules/6.6.79/");
    assert_eq!(dirs, ts(&["lib/modules/6.6.79/kernel"]));
    assert!(walk_ancestors("lib/modules/6.6.79/crc.ko", "lib/modules/6.6.79").is_empty());
    assert!(walk_ancestors("lib/modules/6.6.79", "lib/modules/6.6.79").is_empty());
}

#[test]
fn the_archive_holds_a_tree() {
    let busybox = Busybox { bytes: b"box".to_vec(), mode: 0o755 };
    let modules: Vec<ModuleFile> = [
        "kernel/fs/ext4/ext4.ko",
        "kernel/fs/fat/vfat.ko",
        "crc.ko",
        "kernel/lib/crc16.ko",
        "extra/a/b/c.ko",
    ]
    .iter()
    .map(|p| ModuleFile { path: t(p), bytes: p.as_bytes().to_vec() })
    .collect();
    let archive = initramfs_archive(&busybox, "6.6", &modules, InitramfsFlavor::Run);
    let entries = parse_archive(&archive);
    for (i, (name, _, _)) in entries.iter().enumerate() {
        assert!(!entries[..i].iter().any(|e| &e.0 == name), "{name} stands there twice");
        let up = std::path::Path::new(name).parent().expect("parent").to_string_lossy();
        let listed = entries[..i].iter().any(|e| e.0 == up && e.1 & S_IFMT == 0o040000);
        assert!(up.is_empty() || listed, "{name} stands before its directory");
    }
    assert_eq!(entries.len(), 17 + 8 + 5 + 1);
}

#[test]
fn owner_group_and_time_are_in_the_header() {
    let mut w = CpioWriter::new();
    w.push(CpioEntry {
        path: t("a"),
        kind: CpioKind::File(b"x".to_vec()),
        mode: 0o644,
        uid: 0x1f4,
        gid: 0x64,
        mtime: 0x65a0bc00,
    });
    let archive = w.finish();
    assert_eq!(&archive[22..30], b"000001F4");
    assert_eq!(&archive[30..38], b"00000064");
    assert_eq!(&archive[38..46], b"00000001");
    assert_eq!(&archive[46..54], b"65A0BC00");
    // The entry takes 116 bytes and the trailer 124: nothing follows it.
    assert_eq!(archive.len(), 116 + 124);
}
