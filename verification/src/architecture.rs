//! The CPU architectures that a build can target.
use vstd::prelude::*;

verus! {

/// A target CPU architecture.
#[derive(Clone, Copy, Debug, PartialEq, Eq, Structural)]
pub enum Architecture {
    /// 64-bit x86
    X86_64,
    /// 64-bit Arm
    Aarch64,
}

impl Architecture {
    /// The architecture's name in image manifests.
    pub open spec fn oci_name(self) -> Seq<char> {
        match self {
            Architecture::X86_64 => "amd64"@,
            Architecture::Aarch64 => "arm64"@,
        }
    }

    /// The architecture's name in image manifests.
    pub fn oci_arch_string(self) -> (r: &'static str)
        ensures
            r@ == self.oci_name(),
    {
        match self {
            Architecture::X86_64 => "amd64",
            Architecture::Aarch64 => "arm64",
        }
    }

    /// The QEMU system emulator for the architecture.
    pub open spec fn qemu_name(self) -> Seq<char> {
        match self {
            Architecture::X86_64 => "qemu-system-x86_64"@,
            Architecture::Aarch64 => "qemu-system-aarch64"@,
        }
    }

    /// The QEMU system emulator for the architecture.
    pub fn qemu_binary_name(self) -> (r: &'static str)
        ensures
            r@ == self.qemu_name(),
    {
        match self {
            Architecture::X86_64 => "qemu-system-x86_64",
            Architecture::Aarch64 => "qemu-system-aarch64",
        }
    }
}

} // verus!
