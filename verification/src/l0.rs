//! What an image at the bottom of a build is.
use vstd::prelude::*;
use crate::text::{concat3, debug_text, quoted, same};

verus! {

/// What an image is.
#[derive(Clone, Debug, PartialEq, Eq)]
pub enum L0Kind {
    /// No image: `FROM scratch`.
    Scratch,
    /// A container image.
    Container,
    /// A bootable image.
    Bootable,
    /// A container image to build kernels in.
    KernelBuildEnv,
    /// A part of a bootable image.
    Payload(Payload),
    /// A label value that says none of these, or the empty text where no label
    /// and no structure says anything.
    Unknown(String),
}

/// The parts of a bootable image.
#[derive(Clone, Copy, Debug, PartialEq, Eq, Structural)]
pub enum Payload {
    /// A kernel.
    Kernel,
    /// A root filesystem.
    Rootfs,
    /// A bootloader.
    Bootloader,
    /// Firmware.
    Firmware,
}

/// The model of an [`L0Kind`].
pub enum KindView {
    /// No image.
    Scratch,
    /// A container image.
    Container,
    /// A bootable image.
    Bootable,
    /// A container image to build kernels in.
    KernelBuildEnv,
    /// A part of a bootable image.
    Payload(Payload),
    /// None of these.
    Unknown(Seq<char>),
}

/// Where the kind of an image is known from.
#[derive(Clone, Copy, Debug, PartialEq, Eq, Structural)]
pub enum L0Source {
    /// From its label, or from the recipe.
    Label,
    /// From its structure.
    Inferred,
}

impl View for L0Kind {
    type V = KindView;

    open spec fn view(&self) -> KindView {
        match *self {
            L0Kind::Scratch => KindView::Scratch,
            L0Kind::Container => KindView::Container,
            L0Kind::Bootable => KindView::Bootable,
            L0Kind::KernelBuildEnv => KindView::KernelBuildEnv,
            L0Kind::Payload(p) => KindView::Payload(p),
            L0Kind::Unknown(s) => KindView::Unknown(s@),
        }
    }
}

/// The kind that a value of the type label stands for.
pub open spec fn kind_of_label(value: Seq<char>) -> KindView {
    if value == "container"@ {
        KindView::Container
    } else if value == "bootable"@ {
        KindView::Bootable
    } else if value == "kernel-build-env"@ {
        KindView::KernelBuildEnv
    } else if value == "kernel"@ {
        KindView::Payload(Payload::Kernel)
    } else if value == "rootfs"@ {
        KindView::Payload(Payload::Rootfs)
    } else if value == "bootloader"@ {
        KindView::Payload(Payload::Bootloader)
    } else if value == "firmware"@ {
        KindView::Payload(Payload::Firmware)
    } else {
        KindView::Unknown(value)
    }
}

/// The name of a part of a bootable image.
pub open spec fn payload_name(p: Payload) -> Seq<char> {
    match p {
        Payload::Kernel => "Kernel"@,
        Payload::Rootfs => "Rootfs"@,
        Payload::Bootloader => "Bootloader"@,
        Payload::Firmware => "Firmware"@,
    }
}

impl KindView {
    /// The kind in words for a message.
    pub open spec fn described(self) -> Seq<char> {
        match self {
            KindView::Scratch => "Scratch"@,
            KindView::Container => "Container"@,
            KindView::Bootable => "Bootable"@,
            KindView::KernelBuildEnv => "KernelBuildEnv"@,
            KindView::Payload(p) => "Payload("@ + payload_name(p) + ")"@,
            KindView::Unknown(s) => "Unknown("@ + quoted(s) + ")"@,
        }
    }

    /// Can a build start from it? A bootable build starts from a kernel, any
    /// other from nothing or from an image that is a tree of its own.
    pub open spec fn starts(self, bootable: bool) -> bool {
        if bootable {
            self == KindView::Payload(Payload::Kernel)
        } else {
            self is Scratch || self is Container || self is Bootable || self is KernelBuildEnv
        }
    }
}

impl L0Kind {
    /// The kind that a value of the type label stands for.
    pub fn from_label(value: &str) -> (r: L0Kind)
        ensures
            r@ == kind_of_label(value@),
    {
        if same(value, "container") {
            L0Kind::Container
        } else if same(value, "bootable") {
            L0Kind::Bootable
        } else if same(value, "kernel-build-env") {
            L0Kind::KernelBuildEnv
        } else if same(value, "kernel") {
            L0Kind::Payload(Payload::Kernel)
        } else if same(value, "rootfs") {
            L0Kind::Payload(Payload::Rootfs)
        } else if same(value, "bootloader") {
            L0Kind::Payload(Payload::Bootloader)
        } else if same(value, "firmware") {
            L0Kind::Payload(Payload::Firmware)
        } else {
            L0Kind::Unknown(String::from_str(value))
        }
    }

    /// Is it a kernel?
    pub fn is_kernel(&self) -> (r: bool)
        ensures
            r == (self@ == KindView::Payload(Payload::Kernel)),
    {
        match self {
            L0Kind::Payload(Payload::Kernel) => true,
            _ => false,
        }
    }

    /// Is it a part of a bootable image?
    pub fn is_payload(&self) -> (r: bool)
        ensures
            r == (self@ is Payload),
    {
        match self {
            L0Kind::Payload(_) => true,
            _ => false,
        }
    }

    /// Can a build, bootable or not, start from it?
    pub fn is_valid_from(&self, bootable: bool) -> (r: bool)
        ensures
            r == self@.starts(bootable),
    {
        match self {
            L0Kind::Payload(p) => bootable && *p == Payload::Kernel,
            L0Kind::Scratch => !bootable,
            L0Kind::Container => !bootable,
            L0Kind::Bootable => !bootable,
            L0Kind::KernelBuildEnv => !bootable,
            L0Kind::Unknown(_) => false,
        }
    }

    /// A copy.
    pub fn copy(&self) -> (r: L0Kind)
        ensures
            r@ == self@,
    {
        match self {
            L0Kind::Scratch => L0Kind::Scratch,
            L0Kind::Container => L0Kind::Container,
            L0Kind::Bootable => L0Kind::Bootable,
            L0Kind::KernelBuildEnv => L0Kind::KernelBuildEnv,
            L0Kind::Payload(p) => L0Kind::Payload(*p),
            L0Kind::Unknown(s) => L0Kind::Unknown(s.clone()),
        }
    }

    /// The kind in words for a message.
    pub fn describe(&self) -> (r: String)
        ensures
            r@ == self@.described(),
    {
        match self {
            L0Kind::Scratch => String::from_str("Scratch"),
            L0Kind::Container => String::from_str("Container"),
            L0Kind::Bootable => String::from_str("Bootable"),
            L0Kind::KernelBuildEnv => String::from_str("KernelBuildEnv"),
            L0Kind::Payload(p) => {
                let name = match p {
                    Payload::Kernel => "Kernel",
                    Payload::Rootfs => "Rootfs",
                    Payload::Bootloader => "Bootloader",
                    Payload::Firmware => "Firmware",
                };
                concat3("Payload(", name, ")")
            },
            L0Kind::Unknown(s) => concat3("Unknown(", debug_text(s.as_str()).as_str(), ")"),
        }
    }
}

} // verus!
