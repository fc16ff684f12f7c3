//! Bootable images: a kernel, a root file system and, for an init system, an
//! initramfs, as one layer of an image whose labels say how to boot it.
use vstd::prelude::*;
use crate::architecture::Architecture;
use crate::image::LayerCompression;
use crate::initrd::{InitrdError, InitrdReport};
use crate::introspect::RegistryError;
use crate::kernel::{KernelLayout, KernelLayoutError};
use crate::fsutil::PathRefusal;
use crate::resolver::{
    AddProvenance, AddResolveError, FromKernelProvenance, FromKernelResolveError,
};
use crate::runtime_config::{RuntimeConfigError, RuntimeConfigReport};
use crate::text_map::TextMap;
use crate::vm_runner::{RunStepError, RunStepResult};

pub mod add;
pub mod manifest;
pub mod run;
pub mod validate;
pub mod walk;

pub use crate::bootable::manifest::build_vm;

verus! {

/// What can go wrong in a bootable build.
#[derive(Debug)]
pub enum BootableBuildError {
    /// The recipe has no stages.
    EmptyAst,
    /// The last stage is `FROM scratch`: there is no kernel.
    VmRequiresKernelFromRef,
    /// A directive has no meaning in a bootable image.
    ContainerOnlyDirective {
        /// The directive.
        directive: &'static str,
    },
    /// `ADD --from` names no earlier stage.
    AddFromUnknownStage {
        /// The name.
        stage: String,
    },
    /// The image of an `ADD` was not found.
    AddResolve(AddResolveError),
    /// The source of an `ADD` is not there.
    AddSourceNotFound {
        /// The source, as written in the recipe.
        path: String,
        /// Where it was looked for.
        context: String,
    },
    /// A path of an `ADD` steps up to a parent directory.
    AddPathTraversal {
        /// `source` or `destination`.
        kind: &'static str,
        /// The path.
        path: String,
    },
    /// A path leads out of its root.
    Path(PathRefusal),
    /// What an `ADD` names by URL could not be fetched.
    AddUrlFetch {
        /// The URL.
        url: String,
        /// Why.
        detail: String,
    },
    /// What was fetched is an archive of a format that is not unpacked.
    AddUrlArchiveUnsupported {
        /// The URL.
        url: String,
        /// The format.
        format: String,
    },
    /// What was fetched looks like a tar archive and could not be unpacked.
    AddUrlExtract {
        /// The URL.
        url: String,
        /// The format.
        format: String,
        /// Why.
        detail: String,
    },
    /// The kernel was not found.
    FromKernelResolve(FromKernelResolveError),
    /// The staging tree has no kernel where one should be.
    KernelLayout(KernelLayoutError),
    /// The initramfs could not be made.
    Initrd(InitrdError),
    /// The runtime configuration could not be made.
    RuntimeConfig(RuntimeConfigError),
    /// A `RUN` could not be executed.
    RunStep(RunStepError),
    /// The command of a `RUN` failed.
    RunStepFailed {
        /// The command.
        command: String,
        /// Its exit code.
        exit_code: i32,
        /// What the guest wrote to its console.
        serial_output: String,
    },
    /// There is a `RUN`, and no QEMU.
    RunWithoutQemu,
    /// The image could not be written.
    Oci(RegistryError),
    /// An I/O error.
    Io(std::io::Error),
}

/// What the caller of a bootable build can choose.
#[derive(Debug)]
pub struct BootableBuildOptions {
    /// A file with the root file system, in place of the first image that is
    /// added.
    pub rootfs_path_override: Option<String>,
    /// The reference of the root file system, in place of the one in the recipe.
    pub rootfs_registry_ref: Option<String>,
    /// A file with the kernel.
    pub from_kernel_path_override: Option<String>,
    /// The reference of the kernel, in place of the one in the recipe.
    pub from_kernel_registry_ref: Option<String>,
    /// Where the staging tree is kept.
    pub staging_keep_path: Option<String>,
    /// The QEMU binary.
    pub qemu_path: Option<String>,
    /// Is hardware acceleration available?
    pub kvm_available: bool,
    /// The CPU architecture of the image.
    pub architecture: Architecture,
    /// How its layer is compressed.
    pub compression: LayerCompression,
    /// The build context.
    pub context: String,
    /// Values for `ARG`s.
    pub build_args: TextMap<String>,
}

impl BootableBuildOptions {
    /// The options for an architecture, with nothing else chosen.
    pub fn new(architecture: Architecture) -> (r: Self)
        ensures
            r.rootfs_path_override is None,
            r.rootfs_registry_ref is None,
            r.from_kernel_path_override is None,
            r.from_kernel_registry_ref is None,
            r.staging_keep_path is None,
            r.qemu_path is None,
            !r.kvm_available,
            r.architecture == architecture,
            r.compression == LayerCompression::Gzip,
            r.context@ == "."@,
            r.build_args@ == Map::<Seq<char>, String>::empty(),
    {
        BootableBuildOptions {
            rootfs_path_override: None,
            rootfs_registry_ref: None,
            from_kernel_path_override: None,
            from_kernel_registry_ref: None,
            staging_keep_path: None,
            qemu_path: None,
            kvm_available: false,
            architecture,
            compression: LayerCompression::Gzip,
            context: String::from_str("."),
            build_args: TextMap::new(),
        }
    }
}

/// What a bootable build made.
#[derive(Debug)]
pub struct BootableBuildOutput {
    /// The digest of the image's manifest.
    pub image_digest: String,
    /// The boot flavor.
    pub flavor: String,
    /// Where the images that were added were found, in order.
    pub add_sources: Vec<AddProvenance>,
    /// Where the kernel was found.
    pub kernel_source: FromKernelProvenance,
    /// Where the kernel is in the staging tree.
    pub kernel_layout: KernelLayout,
    /// What the initramfs is like; none without an init system.
    pub initrd_report: Option<InitrdReport>,
    /// What was configured.
    pub runtime_config: Option<RuntimeConfigReport>,
    /// What each `RUN` came to, in order.
    pub run_step_reports: Vec<RunStepResult>,
    /// Where the staging tree was kept.
    pub staging_path: Option<String>,
}

} // verus!
