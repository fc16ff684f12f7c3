//! The init scripts and the files of the firewall: what is certain to stand in them,
//! whatever is filled in.
use vstd::prelude::*;
use crate::initrd::scripts::{
    build_boot_init_script, build_run_init_script, module_list, module_loads, BOOT_INIT_HEAD,
    BOOT_INIT_TAIL, RUN_INIT_HEAD, RUN_INIT_MOUNT, RUN_INIT_TAIL,
};
use crate::ast::Stage;
use crate::laws::aid::lemma_occurs_within;
use crate::runtime_config::{
    apply_runtime_config, port_rules, Firewall, RuntimeConfigReport, LOADER, LOADER_PATH,
    RULESET_HEAD, RULESET_PATH, RULESET_TAIL,
};
use crate::text::{contains_text, occurs_at, texts};

verus! {

/// The text is spelled out again: the verifier looks into a literal, not into a
/// constant.
#[verifier::rlimit(40)]
proof fn lemma_boot_head()
    ensures
        contains_text(BOOT_INIT_HEAD@, "mount -t proc proc /proc\n"@),
        contains_text(BOOT_INIT_HEAD@, "mount -t sysfs sysfs /sys\n"@),
        contains_text(BOOT_INIT_HEAD@, "mount -t devtmpfs devtmpfs /dev\n"@),
{
    let s = BOOT_INIT_HEAD@;
    reveal_strlit(
        "#!/bin/sh
# UMF initramfs init — minimal root filesystem pivot.
set -eu
export PATH=/bin:/sbin

# Early mounts.
mount -t proc proc /proc
mount -t sysfs sysfs /sys
mount -t devtmpfs devtmpfs /dev

# Bring up the kernel modules we need to see the rootfs disk.
# Modules are embedded in path order, which is not dependency
# order, so load in repeated passes until a pass loads nothing
# new — a module whose dependency came later then still lands.
# A missing file or an already-loaded module is not an error.
UMF_MODS=\"\\
",
    );
    reveal_strlit("mount -t proc proc /proc\n");
    assert(s.subrange(112, 137) =~= "mount -t proc proc /proc\n"@);
    assert(occurs_at(s, "mount -t proc proc /proc\n"@, 112));
    reveal_strlit("mount -t sysfs sysfs /sys\n");
    assert(s.subrange(137, 163) =~= "mount -t sysfs sysfs /sys\n"@);
    assert(occurs_at(s, "mount -t sysfs sysfs /sys\n"@, 137));
    reveal_strlit("mount -t devtmpfs devtmpfs /dev\n");
    assert(s.subrange(163, 195) =~= "mount -t devtmpfs devtmpfs /dev\n"@);
    assert(occurs_at(s, "mount -t devtmpfs devtmpfs /dev\n"@, 163));
}

/// The text is spelled out again: the verifier looks into a literal, not into a
/// constant.
#[verifier::rlimit(40)]
proof fn lemma_boot_tail()
    ensures
        contains_text(BOOT_INIT_TAIL@, "for _m in $UMF_MODS; do\n"@),
        contains_text(BOOT_INIT_TAIL@, "insmod \"$_m\" 2>/dev/null && _loaded=1\n"@),
        contains_text(BOOT_INIT_TAIL@, "root=*) ROOT=\"${_arg#root=}\" ;;\n"@),
        contains_text(BOOT_INIT_TAIL@, "rootfstype=*) ROOTFSTYPE=\"${_arg#rootfstype=}\" ;;\n"@),
        contains_text(BOOT_INIT_TAIL@, "_resolved=$(findfs \"$ROOT\" 2>/dev/null || true)\n"@),
        contains_text(BOOT_INIT_TAIL@, "mount -t \"$ROOTFSTYPE\" -o ro \"$ROOT\" /sysroot\n"@),
        contains_text(BOOT_INIT_TAIL@, "exec switch_root /sysroot /sbin/init\n"@),
{
    let s = BOOT_INIT_TAIL@;
    reveal_strlit(
        "\"
for _pass in 1 2 3 4; do
    _loaded=0
    for _m in $UMF_MODS; do
        [ -f \"$_m\" ] || continue
        insmod \"$_m\" 2>/dev/null && _loaded=1
    done
    [ \"$_loaded\" -eq 0 ] && break
done

# Resolve the root device and its filesystem. `umf compile` writes
# `root=PARTLABEL=ROOTFS` into the cmdline precisely so the same
# disk boots wherever the root device enumerates differently
# (virtio /dev/vda, NVMe /dev/nvme0n1p2, SATA /dev/sda2), and
# `rootfstype=` for the filesystem it projected, so honour both
# rather than guessing.
ROOT=\"\"
ROOTFSTYPE=\"\"
for _arg in $(cat /proc/cmdline 2>/dev/null); do
    case \"$_arg\" in
        root=*) ROOT=\"${_arg#root=}\" ;;
        rootfstype=*) ROOTFSTYPE=\"${_arg#rootfstype=}\" ;;
    esac
done
case \"$ROOT\" in
    \"\"|/dev/*) ;;
    *=*)
        # PARTLABEL= / PARTUUID= / UUID= / LABEL= — ask findfs.
        _resolved=$(findfs \"$ROOT\" 2>/dev/null || true)
        ROOT=\"$_resolved\"
        ;;
esac

# Fall back to probing the usual second partitions when the
# cmdline carried nothing usable (an older disk, or a busybox
# without findfs).
if [ -z \"$ROOT\" ] || [ ! -b \"$ROOT\" ]; then
    for _c in /dev/vda2 /dev/sda2 /dev/nvme0n1p2 /dev/mmcblk0p2; do
        [ -b \"$_c\" ] && ROOT=\"$_c\" && break
    done
fi

if [ -z \"$ROOT\" ] || [ ! -b \"$ROOT\" ]; then
    echo \"umf-initramfs: no root device found (cmdline root=, then \\
vda2/sda2/nvme0n1p2/mmcblk0p2)\" >&2
    echo \"umf-initramfs: available block devices:\" >&2
    ls /sys/class/block 2>/dev/null >&2 || true
    exec sh
fi

# Mount with the filesystem the cmdline names; without one, let the
# kernel try every filesystem the modules registered.
if [ -n \"$ROOTFSTYPE\" ]; then
    mount -t \"$ROOTFSTYPE\" -o ro \"$ROOT\" /sysroot
else
    mount -o ro \"$ROOT\" /sysroot
fi

# Pivot.
exec switch_root /sysroot /sbin/init
",
    );
    reveal_strlit("for _m in $UMF_MODS; do\n");
    assert(s.subrange(45, 69) =~= "for _m in $UMF_MODS; do\n"@);
    assert(occurs_at(s, "for _m in $UMF_MODS; do\n"@, 45));
    reveal_strlit("insmod \"$_m\" 2>/dev/null && _loaded=1\n");
    assert(s.subrange(110, 148) =~= "insmod \"$_m\" 2>/dev/null && _loaded=1\n"@);
    assert(occurs_at(s, "insmod \"$_m\" 2>/dev/null && _loaded=1\n"@, 110));
    reveal_strlit("root=*) ROOT=\"${_arg#root=}\" ;;\n");
    assert(s.subrange(639, 671) =~= "root=*) ROOT=\"${_arg#root=}\" ;;\n"@);
    assert(occurs_at(s, "root=*) ROOT=\"${_arg#root=}\" ;;\n"@, 639));
    reveal_strlit("rootfstype=*) ROOTFSTYPE=\"${_arg#rootfstype=}\" ;;\n");
    assert(s.subrange(679, 729) =~= "rootfstype=*) ROOTFSTYPE=\"${_arg#rootfstype=}\" ;;\n"@);
    assert(occurs_at(s, "rootfstype=*) ROOTFSTYPE=\"${_arg#rootfstype=}\" ;;\n"@, 679));
    reveal_strlit("_resolved=$(findfs \"$ROOT\" 2>/dev/null || true)\n");
    assert(s.subrange(858, 906) =~= "_resolved=$(findfs \"$ROOT\" 2>/dev/null || true)\n"@);
    assert(occurs_at(s, "_resolved=$(findfs \"$ROOT\" 2>/dev/null || true)\n"@, 858));
    reveal_strlit("mount -t \"$ROOTFSTYPE\" -o ro \"$ROOT\" /sysroot\n");
    assert(s.subrange(1683, 1729) =~= "mount -t \"$ROOTFSTYPE\" -o ro \"$ROOT\" /sysroot\n"@);
    assert(occurs_at(s, "mount -t \"$ROOTFSTYPE\" -o ro \"$ROOT\" /sysroot\n"@, 1683));
    reveal_strlit("exec switch_root /sysroot /sbin/init\n");
    assert(s.subrange(1780, 1817) =~= "exec switch_root /sysroot /sbin/init\n"@);
    assert(occurs_at(s, "exec switch_root /sysroot /sbin/init\n"@, 1780));
}

/// The text is spelled out again: the verifier looks into a literal, not into a
/// constant.
#[verifier::rlimit(40)]
proof fn lemma_run_tail()
    ensures
        contains_text(RUN_INIT_TAIL@, ". /sysroot/.umf-env\n"@),
        contains_text(RUN_INIT_TAIL@, "CMD=$(cat /sysroot/.umf-cmd)\n"@),
        contains_text(RUN_INIT_TAIL@, "chroot /sysroot /bin/sh -c \"$CMD\" || EXIT=$?\n"@),
        contains_text(RUN_INIT_TAIL@, "echo \"$EXIT\" > /sysroot/.umf-run-exit\n"@),
        contains_text(RUN_INIT_TAIL@, "sync\n"@),
        contains_text(RUN_INIT_TAIL@, "poweroff -f\n"@),
{
    let s = RUN_INIT_TAIL@;
    reveal_strlit(
        " /sysroot

# Bring up loopback and the virtio NIC for outbound access.
ip link set lo up 2>/dev/null || ifconfig lo up 2>/dev/null || true
ip link set eth0 up 2>/dev/null || ifconfig eth0 up 2>/dev/null || true
if [ -f /sysroot/.umf-net ]; then
    # A static network staged by the host. The resolver configuration is
    # bind-mounted: written through the share it would stay in the layer.
    . /sysroot/.umf-net
    ip addr add \"$UMF_ADDR\" dev eth0 2>/dev/null || true
    ip route add default via \"$UMF_GW\" 2>/dev/null || true
    mkdir -p /etc
    : > /etc/resolv.conf
    for _ns in ${UMF_DNS:-}; do
        echo \"nameserver $_ns\" >> /etc/resolv.conf
    done
    mount --bind /etc/resolv.conf /sysroot/etc/resolv.conf 2>/dev/null || true
else
    udhcpc -i eth0 -t 8 -T 2 -q 2>/dev/null || true
fi

# Bind kernel filesystems into the chroot target.
mkdir -p /sysroot/proc /sysroot/sys /sysroot/dev
mount -t proc proc /sysroot/proc 2>/dev/null || true
mount -t sysfs sysfs /sysroot/sys 2>/dev/null || true
mount -t devtmpfs devtmpfs /sysroot/dev 2>/dev/null || true

# Source env (key=value lines) if present.
if [ -f /sysroot/.umf-env ]; then
    set -a
    . /sysroot/.umf-env
    set +a
fi

# Run the RUN command inside the rootfs chroot.
EXIT=0
if [ -f /sysroot/.umf-cmd ]; then
    CMD=$(cat /sysroot/.umf-cmd)
    chroot /sysroot /bin/sh -c \"$CMD\" || EXIT=$?
else
    echo 'umf: /sysroot/.umf-cmd missing' >&2
    EXIT=127
fi

# Persist exit code via 9p so the host picks it up.
echo \"$EXIT\" > /sysroot/.umf-run-exit
sync

poweroff -f
",
    );
    reveal_strlit(". /sysroot/.umf-env\n");
    assert(s.subrange(1166, 1186) =~= ". /sysroot/.umf-env\n"@);
    assert(occurs_at(s, ". /sysroot/.umf-env\n"@, 1166));
    reveal_strlit("CMD=$(cat /sysroot/.umf-cmd)\n");
    assert(s.subrange(1294, 1323) =~= "CMD=$(cat /sysroot/.umf-cmd)\n"@);
    assert(occurs_at(s, "CMD=$(cat /sysroot/.umf-cmd)\n"@, 1294));
    reveal_strlit("chroot /sysroot /bin/sh -c \"$CMD\" || EXIT=$?\n");
    assert(s.subrange(1327, 1372) =~= "chroot /sysroot /bin/sh -c \"$CMD\" || EXIT=$?\n"@);
    assert(occurs_at(s, "chroot /sysroot /bin/sh -c \"$CMD\" || EXIT=$?\n"@, 1327));
    reveal_strlit("echo \"$EXIT\" > /sysroot/.umf-run-exit\n");
    assert(s.subrange(1492, 1530) =~= "echo \"$EXIT\" > /sysroot/.umf-run-exit\n"@);
    assert(occurs_at(s, "echo \"$EXIT\" > /sysroot/.umf-run-exit\n"@, 1492));
    reveal_strlit("sync\n");
    assert(s.subrange(1530, 1535) =~= "sync\n"@);
    assert(occurs_at(s, "sync\n"@, 1530));
    reveal_strlit("poweroff -f\n");
    assert(s.subrange(1536, 1548) =~= "poweroff -f\n"@);
    assert(occurs_at(s, "poweroff -f\n"@, 1536));
}

/// Whatever modules it lists, the boot script mounts the kernel's filesystems, tries to
/// load every module of the list, takes the root device and its filesystem from the
/// kernel's command line, mounts the root and hands over to its init.
pub proof fn lemma_boot_script_does(release: &str, modules: &Vec<String>, r: String)
    requires
        call_ensures(build_boot_init_script, (release, modules), r),
    ensures
        contains_text(r@, "mount -t proc proc /proc\n"@),
        contains_text(r@, "mount -t sysfs sysfs /sys\n"@),
        contains_text(r@, "mount -t devtmpfs devtmpfs /dev\n"@),
        contains_text(r@, "for _m in $UMF_MODS; do\n"@),
        contains_text(r@, "insmod \"$_m\" 2>/dev/null && _loaded=1\n"@),
        contains_text(r@, "root=*) ROOT=\"${_arg#root=}\" ;;\n"@),
        contains_text(r@, "rootfstype=*) ROOTFSTYPE=\"${_arg#rootfstype=}\" ;;\n"@),
        contains_text(r@, "_resolved=$(findfs \"$ROOT\" 2>/dev/null || true)\n"@),
        contains_text(r@, "mount -t \"$ROOTFSTYPE\" -o ro \"$ROOT\" /sysroot\n"@),
        contains_text(r@, "exec switch_root /sysroot /sbin/init\n"@),
{
    let list = module_list(release@, texts(modules@));
    let e = Seq::<char>::empty();
    let after = list + BOOT_INIT_TAIL@;
    let before = BOOT_INIT_HEAD@ + list;
    assert(e + BOOT_INIT_HEAD@ + after =~= r@);
    assert(before + BOOT_INIT_TAIL@ + e =~= r@);
    lemma_boot_head();
    lemma_boot_tail();
    lemma_occurs_within(e, BOOT_INIT_HEAD@, after, "mount -t proc proc /proc\n"@);
    lemma_occurs_within(e, BOOT_INIT_HEAD@, after, "mount -t sysfs sysfs /sys\n"@);
    lemma_occurs_within(e, BOOT_INIT_HEAD@, after, "mount -t devtmpfs devtmpfs /dev\n"@);
    lemma_occurs_within(before, BOOT_INIT_TAIL@, e, "for _m in $UMF_MODS; do\n"@);
    lemma_occurs_within(before, BOOT_INIT_TAIL@, e, "insmod \"$_m\" 2>/dev/null && _loaded=1\n"@);
    lemma_occurs_within(before, BOOT_INIT_TAIL@, e, "root=*) ROOT=\"${_arg#root=}\" ;;\n"@);
    lemma_occurs_within(before, BOOT_INIT_TAIL@, e, "rootfstype=*) ROOTFSTYPE=\"${_arg#rootfstype=}\" ;;\n"@);
    lemma_occurs_within(before, BOOT_INIT_TAIL@, e, "_resolved=$(findfs \"$ROOT\" 2>/dev/null || true)\n"@);
    lemma_occurs_within(before, BOOT_INIT_TAIL@, e, "mount -t \"$ROOTFSTYPE\" -o ro \"$ROOT\" /sysroot\n"@);
    lemma_occurs_within(before, BOOT_INIT_TAIL@, e, "exec switch_root /sysroot /sbin/init\n"@);
}

/// Whatever modules it loads, the run script reads the environment and the command
/// that were staged, runs the command in the tree, records how it ended and stops the
/// machine.
pub proof fn lemma_run_script_does(release: &str, modules: &Vec<String>, r: String)
    requires
        call_ensures(build_run_init_script, (release, modules), r),
    ensures
        contains_text(r@, ". /sysroot/.umf-env\n"@),
        contains_text(r@, "CMD=$(cat /sysroot/.umf-cmd)\n"@),
        contains_text(r@, "chroot /sysroot /bin/sh -c \"$CMD\" || EXIT=$?\n"@),
        contains_text(r@, "echo \"$EXIT\" > /sysroot/.umf-run-exit\n"@),
        contains_text(r@, "sync\n"@),
        contains_text(r@, "poweroff -f\n"@),
{
    let before = RUN_INIT_HEAD@ + module_loads(release@, texts(modules@)) + RUN_INIT_MOUNT@
        + crate::initrd::scripts::MOUNT_TAG_STAGING@;
    let e = Seq::<char>::empty();
    assert(before + RUN_INIT_TAIL@ + e =~= r@);
    lemma_run_tail();
    lemma_occurs_within(before, RUN_INIT_TAIL@, e, ". /sysroot/.umf-env\n"@);
    lemma_occurs_within(before, RUN_INIT_TAIL@, e, "CMD=$(cat /sysroot/.umf-cmd)\n"@);
    lemma_occurs_within(before, RUN_INIT_TAIL@, e, "chroot /sysroot /bin/sh -c \"$CMD\" || EXIT=$?\n"@);
    lemma_occurs_within(before, RUN_INIT_TAIL@, e, "echo \"$EXIT\" > /sysroot/.umf-run-exit\n"@);
    lemma_occurs_within(before, RUN_INIT_TAIL@, e, "sync\n"@);
    lemma_occurs_within(before, RUN_INIT_TAIL@, e, "poweroff -f\n"@);
}

/// The text is spelled out again: the verifier looks into a literal, not into a
/// constant.
#[verifier::rlimit(40)]
proof fn lemma_rules_head()
    ensures
        contains_text(RULESET_HEAD@, "table inet umf {\n"@),
        contains_text(RULESET_HEAD@, "type filter hook input priority filter; policy drop;\n"@),
        contains_text(RULESET_HEAD@, "iif lo accept\n"@),
        contains_text(RULESET_HEAD@, "ct state established,related accept\n"@),
{
    let s = RULESET_HEAD@;
    reveal_strlit(
        "# Generated by UMF builder — UMF EXPOSE directives.\n# Default-deny inbound; only explicitly-exposed ports are reachable.\ntable inet umf {\n    chain input {\n        type filter hook input priority filter; policy drop;\n        iif lo accept\n        ct state established,related accept\n        ip protocol icmp accept\n        ip6 nexthdr ipv6-icmp accept\n",
    );
    reveal_strlit("table inet umf {\n");
    assert(s.subrange(121, 138) =~= "table inet umf {\n"@);
    assert(occurs_at(s, "table inet umf {\n"@, 121));
    reveal_strlit("type filter hook input priority filter; policy drop;\n");
    assert(s.subrange(164, 217) =~= "type filter hook input priority filter; policy drop;\n"@);
    assert(occurs_at(s, "type filter hook input priority filter; policy drop;\n"@, 164));
    reveal_strlit("iif lo accept\n");
    assert(s.subrange(225, 239) =~= "iif lo accept\n"@);
    assert(occurs_at(s, "iif lo accept\n"@, 225));
    reveal_strlit("ct state established,related accept\n");
    assert(s.subrange(247, 283) =~= "ct state established,related accept\n"@);
    assert(occurs_at(s, "ct state established,related accept\n"@, 247));
}

/// The text is spelled out again: the verifier looks into a literal, not into a
/// constant.
proof fn lemma_loader()
    ensures
        contains_text(LOADER@, "flush ruleset\n"@),
        contains_text(LOADER@, "/etc/nftables.d/*.nft"@),
{
    let s = LOADER@;
    reveal_strlit(
        "#!/usr/sbin/nft -f\n# Generated by UMF builder. Loads the UMF EXPOSE default-deny ruleset.\nflush ruleset\ninclude \"/etc/nftables.d/*.nft\"\n",
    );
    reveal_strlit("flush ruleset\n");
    assert(s.subrange(90, 104) =~= "flush ruleset\n"@);
    assert(occurs_at(s, "flush ruleset\n"@, 90));
    reveal_strlit("/etc/nftables.d/*.nft");
    assert(s.subrange(113, 134) =~= "/etc/nftables.d/*.nft"@);
    assert(occurs_at(s, "/etc/nftables.d/*.nft"@, 113));
}

/// Whatever ports are opened, the firewall drops what comes in unless a rule accepts
/// it, and accepts the loopback and the answers to what went out; its loader puts the
/// rules in place of those before.
pub proof fn lemma_firewall_denies(
    stage: &Stage,
    report: RuntimeConfigReport,
    firewall: Firewall,
)
    requires
        call_ensures(apply_runtime_config, (stage,), Ok((report, Some(firewall)))),
    ensures
        contains_text(firewall.ruleset@, "table inet umf {\n"@),
        contains_text(firewall.ruleset@, "type filter hook input priority filter; policy drop;\n"@),
        contains_text(firewall.ruleset@, "iif lo accept\n"@),
        contains_text(firewall.ruleset@, "ct state established,related accept\n"@),
        contains_text(firewall.loader@, "flush ruleset\n"@),
        contains_text(firewall.loader@, "/etc/nftables.d/*.nft"@),
        "    }\n}\n"@.is_suffix_of(firewall.ruleset@),
{
    let ds = stage.directives@;
    let after = port_rules(ds, ds.len() as int) + RULESET_TAIL@;
    let e = Seq::<char>::empty();
    let front = RULESET_HEAD@ + port_rules(ds, ds.len() as int);
    assert((front + RULESET_TAIL@).skip(front.len() as int) =~= RULESET_TAIL@);
    assert(RULESET_TAIL@.is_suffix_of(front + RULESET_TAIL@));
    assert(e + RULESET_HEAD@ + after =~= firewall.ruleset@);
    lemma_rules_head();
    lemma_loader();
    lemma_occurs_within(e, RULESET_HEAD@, after, "table inet umf {\n"@);
    lemma_occurs_within(e, RULESET_HEAD@, after, "type filter hook input priority filter; policy drop;\n"@);
    lemma_occurs_within(e, RULESET_HEAD@, after, "iif lo accept\n"@);
    lemma_occurs_within(e, RULESET_HEAD@, after, "ct state established,related accept\n"@);
}

/// The rules lie where the loader looks for them, and the loader where the service
/// does.
pub proof fn lemma_rules_found()
    ensures
        RULESET_PATH@ == "etc/nftables.d/umf-expose.nft"@,
        LOADER_PATH@ == "etc/nftables.conf"@,
        contains_text(LOADER@, seq!['/'] + RULESET_PATH@.take(15) + "*.nft"@),
        RULESET_PATH@.subrange(RULESET_PATH@.len() - 4, RULESET_PATH@.len() as int) == ".nft"@,
{
    lemma_loader();
    reveal_strlit("etc/nftables.d/umf-expose.nft");
    reveal_strlit("/etc/nftables.d/*.nft");
    reveal_strlit("*.nft");
    reveal_strlit(".nft");
    assert(seq!['/'] + RULESET_PATH@.take(15) + "*.nft"@ =~= "/etc/nftables.d/*.nft"@);
    assert(RULESET_PATH@.subrange(RULESET_PATH@.len() - 4, RULESET_PATH@.len() as int)
        =~= ".nft"@);
}

} // verus!
