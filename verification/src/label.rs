//! The labels of the `org.imagilux.umf` namespace.
use vstd::prelude::*;

verus! {

/// What an image is.
pub const TYPE: &'static str = "org.imagilux.umf.type";

/// The version of the recipe language that an image was built from.
pub const SPEC_VERSION: &'static str = "org.imagilux.umf.spec";

/// How a bootable image is packaged for boot.
pub const FLAVOR: &'static str = "org.imagilux.umf.flavor";

/// What a bootable image starts.
pub const ENTRYPOINT: &'static str = "org.imagilux.umf.entrypoint";

/// The release of the kernel in a bootable image.
pub const KERNEL_RELEASE: &'static str = "org.imagilux.umf.kernel.release";

/// The path of the kernel in a bootable image.
pub const KERNEL_VMLINUZ: &'static str = "org.imagilux.umf.kernel.vmlinuz";

/// What is added to the kernel's command line.
pub const KERNEL_CMDLINE: &'static str = "org.imagilux.umf.kernel.cmdline";

/// The path of the initramfs in a bootable image.
pub const INITRAMFS: &'static str = "org.imagilux.umf.initramfs";

/// The filesystem of the root partition.
pub const ROOTFS_FS: &'static str = "org.imagilux.umf.rootfs.fs";

} // verus!
