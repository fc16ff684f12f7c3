//! The `/init` scripts of the two initramfs flavors.
use vstd::prelude::*;
use crate::path::{join_path, joined_path};
use crate::text::texts;

verus! {

/// The tag under which the host shares the staging tree with a `RUN` guest.
pub const MOUNT_TAG_STAGING: &'static str = "umfstage";

/// The boot script up to the list of modules.
pub const BOOT_INIT_HEAD: &'static str = "#!/bin/sh
# UMF initramfs init — minimal root filesystem pivot.
set -eu
export PATH=/bin:/sbin

# Early mounts.
mount -t proc proc /proc
mount -t sysfs sysfs /sys
mount -t devtmpfs devtmpfs /dev

# Bring up the kernel modules we need to see the rootfs disk.
# Modules are embedded in path order, which is not dependency
# order, so load in repeated passes until a pass loads nothing
# new — a module whose dependency came later then still lands.
# A missing file or an already-loaded module is not an error.
UMF_MODS=\"\\
";

/// The boot script from the end of the list of modules on.
pub const BOOT_INIT_TAIL: &'static str = "\"
for _pass in 1 2 3 4; do
    _loaded=0
    for _m in $UMF_MODS; do
        [ -f \"$_m\" ] || continue
        insmod \"$_m\" 2>/dev/null && _loaded=1
    done
    [ \"$_loaded\" -eq 0 ] && break
done

# Resolve the root device and its filesystem. `umf compile` writes
# `root=PARTLABEL=ROOTFS` into the cmdline precisely so the same
# disk boots wherever the root device enumerates differently
# (virtio /dev/vda, NVMe /dev/nvme0n1p2, SATA /dev/sda2), and
# `rootfstype=` for the filesystem it projected, so honour both
# rather than guessing.
ROOT=\"\"
ROOTFSTYPE=\"\"
for _arg in $(cat /proc/cmdline 2>/dev/null); do
    case \"$_arg\" in
        root=*) ROOT=\"${_arg#root=}\" ;;
        rootfstype=*) ROOTFSTYPE=\"${_arg#rootfstype=}\" ;;
    esac
done
case \"$ROOT\" in
    \"\"|/dev/*) ;;
    *=*)
        # PARTLABEL= / PARTUUID= / UUID= / LABEL= — ask findfs.
        _resolved=$(findfs \"$ROOT\" 2>/dev/null || true)
        ROOT=\"$_resolved\"
        ;;
esac

# Fall back to probing the usual second partitions when the
# cmdline carried nothing usable (an older disk, or a busybox
# without findfs).
if [ -z \"$ROOT\" ] || [ ! -b \"$ROOT\" ]; then
    for _c in /dev/vda2 /dev/sda2 /dev/nvme0n1p2 /dev/mmcblk0p2; do
        [ -b \"$_c\" ] && ROOT=\"$_c\" && break
    done
fi

if [ -z \"$ROOT\" ] || [ ! -b \"$ROOT\" ]; then
    echo \"umf-initramfs: no root device found (cmdline root=, then \\
vda2/sda2/nvme0n1p2/mmcblk0p2)\" >&2
    echo \"umf-initramfs: available block devices:\" >&2
    ls /sys/class/block 2>/dev/null >&2 || true
    exec sh
fi

# Mount with the filesystem the cmdline names; without one, let the
# kernel try every filesystem the modules registered.
if [ -n \"$ROOTFSTYPE\" ]; then
    mount -t \"$ROOTFSTYPE\" -o ro \"$ROOT\" /sysroot
else
    mount -o ro \"$ROOT\" /sysroot
fi

# Pivot.
exec switch_root /sysroot /sbin/init
";

/// The run script up to the loading of the modules.
pub const RUN_INIT_HEAD: &'static str = "#!/bin/sh
# UMF run-initramfs init — executes a single RUN command against a 9p-shared staging dir.
# Failures are swallowed liberally — the build host ultimately reads the exit code from /sysroot/.umf-run-exit.

mount -t proc proc /proc 2>/dev/null || true
mount -t sysfs sysfs /sys 2>/dev/null || true
mount -t devtmpfs devtmpfs /dev 2>/dev/null || true

# Load modules (best-effort — some may be compiled-in).
";

/// The run script between the loading of the modules and the tag of the share.
pub const RUN_INIT_MOUNT: &'static str = "
# Mount the host's staging directory over 9p.
mkdir -p /sysroot
mount -t 9p -o trans=virtio,version=9p2000.L,access=any ";

/// The run script behind the tag of the share.
pub const RUN_INIT_TAIL: &'static str = " /sysroot

# Bring up loopback and the virtio NIC for outbound access.
ip link set lo up 2>/dev/null || ifconfig lo up 2>/dev/null || true
ip link set eth0 up 2>/dev/null || ifconfig eth0 up 2>/dev/null || true
if [ -f /sysroot/.umf-net ]; then
    # A static network staged by the host. The resolver configuration is
    # bind-mounted: written through the share it would stay in the layer.
    . /sysroot/.umf-net
    ip addr add \"$UMF_ADDR\" dev eth0 2>/dev/null || true
    ip route add default via \"$UMF_GW\" 2>/dev/null || true
    mkdir -p /etc
    : > /etc/resolv.conf
    for _ns in ${UMF_DNS:-}; do
        echo \"nameserver $_ns\" >> /etc/resolv.conf
    done
    mount --bind /etc/resolv.conf /sysroot/etc/resolv.conf 2>/dev/null || true
else
    udhcpc -i eth0 -t 8 -T 2 -q 2>/dev/null || true
fi

# Bind kernel filesystems into the chroot target.
mkdir -p /sysroot/proc /sysroot/sys /sysroot/dev
mount -t proc proc /sysroot/proc 2>/dev/null || true
mount -t sysfs sysfs /sysroot/sys 2>/dev/null || true
mount -t devtmpfs devtmpfs /sysroot/dev 2>/dev/null || true

# Source env (key=value lines) if present.
if [ -f /sysroot/.umf-env ]; then
    set -a
    . /sysroot/.umf-env
    set +a
fi

# Run the RUN command inside the rootfs chroot.
EXIT=0
if [ -f /sysroot/.umf-cmd ]; then
    CMD=$(cat /sysroot/.umf-cmd)
    chroot /sysroot /bin/sh -c \"$CMD\" || EXIT=$?
else
    echo 'umf: /sysroot/.umf-cmd missing' >&2
    EXIT=127
fi

# Persist exit code via 9p so the host picks it up.
echo \"$EXIT\" > /sysroot/.umf-run-exit
sync

poweroff -f
";

/// Where the initramfs has the module file `module` of the kernel `release`.
pub open spec fn embedded_path(release: Seq<char>, module: Seq<char>) -> Seq<char> {
    join_path(join_path("/lib/modules"@, release), module)
}

/// Where the initramfs has the module file `module` of the kernel `release`.
fn embedded_path_of(release: &str, module: &str) -> (r: String)
    ensures
        r@ == embedded_path(release@, module@),
{
    let dir = joined_path("/lib/modules", release);
    joined_path(dir.as_str(), module)
}

/// The modules, one a line, as the boot script lists them.
pub open spec fn module_list(release: Seq<char>, modules: Seq<Seq<char>>) -> Seq<char>
    decreases modules.len(),
{
    if modules.len() == 0 {
        Seq::empty()
    } else {
        module_list(release, modules.drop_last()) + embedded_path(release, modules.last())
            + " \\\n"@
    }
}

/// The loading of the modules, one a line, as the run script has it.
pub open spec fn module_loads(release: Seq<char>, modules: Seq<Seq<char>>) -> Seq<char>
    decreases modules.len(),
{
    if modules.len() == 0 {
        Seq::empty()
    } else {
        module_loads(release, modules.drop_last()) + "insmod "@ + embedded_path(
            release,
            modules.last(),
        ) + " 2>/dev/null || true\n"@
    }
}

/// The init script of the boot flavor.
pub open spec fn boot_init_script(release: Seq<char>, modules: Seq<Seq<char>>) -> Seq<char> {
    BOOT_INIT_HEAD@ + module_list(release, modules) + BOOT_INIT_TAIL@
}

/// The init script of the run flavor.
pub open spec fn run_init_script(release: Seq<char>, modules: Seq<Seq<char>>) -> Seq<char> {
    RUN_INIT_HEAD@ + module_loads(release, modules) + RUN_INIT_MOUNT@ + MOUNT_TAG_STAGING@
        + RUN_INIT_TAIL@
}

/// Writes the init script of the boot flavor: loads the modules, finds the root
/// device and its filesystem from the kernel command line, mounts it and hands
/// over to its init.
pub fn build_boot_init_script(release: &str, modules: &Vec<String>) -> (r: String)
    ensures
        r@ == boot_init_script(release@, texts(modules@)),
{
    let mut s = String::from_str(BOOT_INIT_HEAD);
    let ghost all = texts(modules@);
    let mut i: usize = 0;
    assert(all.take(0) =~= Seq::empty());
    assert(s@ =~= BOOT_INIT_HEAD@ + module_list(release@, all.take(0)));
    while i < modules.len()
        invariant
            i <= modules@.len(),
            all == texts(modules@),
            s@ == BOOT_INIT_HEAD@ + module_list(release@, all.take(i as int)),
        decreases modules.len() - i,
    {
        let ghost before = module_list(release@, all.take(i as int));
        let path = embedded_path_of(release, modules[i].as_str());
        s.append(path.as_str());
        s.append(" \\\n");
        proof {
            assert(all.take(i as int + 1).drop_last() =~= all.take(i as int));
            assert(all.take(i as int + 1).last() == modules@[i as int]@);
            assert(s@ =~= BOOT_INIT_HEAD@ + (before + path@ + " \\\n"@));
        }
        i += 1;
    }
    assert(all.take(i as int) =~= all);
    s.append(BOOT_INIT_TAIL);
    s
}

/// Writes the init script of the run flavor: loads the modules, mounts the
/// staging tree that the host shares, brings up the network, runs the command
/// that was staged there and records its exit code there.
pub fn build_run_init_script(release: &str, modules: &Vec<String>) -> (r: String)
    ensures
        r@ == run_init_script(release@, texts(modules@)),
{
    let mut s = String::from_str(RUN_INIT_HEAD);
    let ghost all = texts(modules@);
    let mut i: usize = 0;
    assert(all.take(0) =~= Seq::empty());
    assert(s@ =~= RUN_INIT_HEAD@ + module_loads(release@, all.take(0)));
    while i < modules.len()
        invariant
            i <= modules@.len(),
            all == texts(modules@),
            s@ == RUN_INIT_HEAD@ + module_loads(release@, all.take(i as int)),
        decreases modules.len() - i,
    {
        let ghost before = module_loads(release@, all.take(i as int));
        let path = embedded_path_of(release, modules[i].as_str());
        s.append("insmod ");
        s.append(path.as_str());
        s.append(" 2>/dev/null || true\n");
        proof {
            assert(all.take(i as int + 1).drop_last() =~= all.take(i as int));
            assert(all.take(i as int + 1).last() == modules@[i as int]@);
            assert(s@ =~= RUN_INIT_HEAD@ + (before + "insmod "@ + path@
                + " 2>/dev/null || true\n"@));
        }
        i += 1;
    }
    assert(all.take(i as int) =~= all);
    s.append(RUN_INIT_MOUNT);
    s.append(MOUNT_TAG_STAGING);
    s.append(RUN_INIT_TAIL);
    s
}

} // verus!
