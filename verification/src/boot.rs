//! What a bootable disk is made of.
use vstd::prelude::*;

verus! {

/// The filesystems that a root partition can be projected with.
#[derive(Clone, Copy, Debug, PartialEq, Eq, Structural)]
pub enum RootfsFs {
    /// SquashFS
    Squashfs,
    /// ext4
    Ext4,
    /// EROFS
    Erofs,
}

impl RootfsFs {
    /// The filesystem's name, which is also that of its driver.
    pub open spec fn name(self) -> Seq<char> {
        match self {
            RootfsFs::Squashfs => "squashfs"@,
            RootfsFs::Ext4 => "ext4"@,
            RootfsFs::Erofs => "erofs"@,
        }
    }

    /// The filesystem's name, which is also that of its driver.
    pub fn as_str(self) -> (r: &'static str)
        ensures
            r@ == self.name(),
    {
        match self {
            RootfsFs::Squashfs => "squashfs",
            RootfsFs::Ext4 => "ext4",
            RootfsFs::Erofs => "erofs",
        }
    }

    /// All of them.
    pub fn all() -> (r: Vec<RootfsFs>)
        ensures
            r@ == seq![RootfsFs::Squashfs, RootfsFs::Ext4, RootfsFs::Erofs],
            forall|fs: RootfsFs| r@.contains(fs),
    {
        let r = vec![RootfsFs::Squashfs, RootfsFs::Ext4, RootfsFs::Erofs];
        assert(r@ =~= seq![RootfsFs::Squashfs, RootfsFs::Ext4, RootfsFs::Erofs]);
        assert forall|fs: RootfsFs| r@.contains(fs) by {
            assert(r@[0] == RootfsFs::Squashfs && r@[1] == RootfsFs::Ext4 && r@[2]
                == RootfsFs::Erofs);
        }
        r
    }
}

/// The filesystem that the boot manifest records for the root partition.
pub const ROOTFS_FSTYPE: &'static str = "squashfs";

} // verus!
