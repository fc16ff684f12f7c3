//! What can go wrong in a container build.
use vstd::prelude::*;
use crate::fsutil::PathRefusal;
use crate::introspect::RegistryError;

verus! {

/// What can go wrong in a container build.
#[derive(Debug)]
pub enum EngineBuildError {
    /// The recipe has no stages.
    NoStages,
    /// The build of a single stage was asked for, and the recipe has more.
    MultiStageNotSupported,
    /// A hook stopped the build before a step.
    BuildAborted {
        /// The stage, from 1.
        stage_index: usize,
        /// The step in the stage, from 1.
        step_index: u32,
    },
    /// What an `ADD` names by URL could not be fetched.
    AddUrlFetchFailed {
        /// The URL in the recipe.
        url: String,
        /// Why.
        detail: String,
    },
    /// What an `ADD` names by URL is at an address that builds may not reach.
    AddUrlEgressDenied {
        /// The URL in the recipe.
        url: String,
        /// The URL that led to the address.
        target: String,
        /// The address.
        address: String,
        /// The kind of address.
        category: String,
    },
    /// What was fetched is an archive of a format that is not unpacked.
    AddUrlArchiveUnsupported {
        /// The URL in the recipe.
        url: String,
        /// The format.
        format: String,
    },
    /// What was fetched looks like a tar archive and could not be unpacked.
    AddUrlExtractFailed {
        /// The URL in the recipe.
        url: String,
        /// The format.
        format: String,
        /// Why.
        detail: String,
    },
    /// `ADD --from` names no stage of the recipe.
    AddFromUnknownStage {
        /// The name.
        stage: String,
    },
    /// `ADD --from` names a later stage.
    AddFromForwardReference {
        /// The name.
        stage: String,
    },
    /// `ADD --from` names the stage it is in.
    AddFromSelf {
        /// The name.
        stage: String,
    },
    /// A stage before the last starts from a kernel.
    NestedBootableStage {
        /// The stage, from 0.
        stage_index: usize,
        /// What it starts from.
        from: String,
    },
    /// A `RUN` mounts a secret that was not given.
    MissingSecret(String),
    /// A secret that was given could not be read.
    SecretResolution {
        /// The secret's id.
        id: String,
        /// Why.
        reason: String,
    },
    /// The source of an `ADD` is not there.
    AddSourceNotFound {
        /// The source, as written in the recipe.
        path: String,
        /// Where it was looked for.
        context: String,
    },
    /// The source of a `COPY` is remote.
    CopyRemoteSource {
        /// The source.
        reference: String,
        /// What it is.
        kind: &'static str,
    },
    /// A path of an `ADD` steps up to a parent directory.
    AddPathTraversal {
        /// `source` or `destination`.
        kind: &'static str,
        /// The path, as written in the recipe where it is there.
        path: String,
    },
    /// A path leads out of its root.
    Path(PathRefusal),
    /// The command of a `RUN` failed.
    RunFailed {
        /// Its status; -1 where a signal ended it.
        code: i32,
        /// The line of the step in the history.
        summary: String,
    },
    /// The base image has no manifest for the architecture.
    NoManifestForPlatform {
        /// The architecture.
        arch: String,
    },
    /// The base image has not as many layers as its configuration says.
    BaseImageLayerCountMismatch {
        /// The layers of its manifest.
        layers: usize,
        /// The layers that its configuration names.
        diff_ids: usize,
    },
    /// Something is wrong with an image in the layout.
    Registry(RegistryError),
    /// A text is no image reference.
    InvalidReference(String, String),
    /// An I/O error.
    Io(std::io::Error),
    /// A document is no JSON, or not of its form.
    Json(serde_json::Error),
}

} // verus!
