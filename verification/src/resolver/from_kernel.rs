//! The kernel that a bootable build starts from.
use vstd::prelude::*;
use crate::engine_build::base_image::{canonical_forms, read_all};
use crate::introspect::RegistryError;
use crate::l0::{KindView, L0Kind, Payload};
use crate::reference::reference_of;
use crate::text::{concat2, texts};
use super::{
    is_plan, pull_ref, resolve_layers, take_override, wanted_ref, Provenance, ResolveFailure,
    ResolvePlan,
};

verus! {

/// Why the kernel was not found.
#[derive(Debug)]
pub enum FromKernelResolveError {
    /// It is nowhere.
    NotFound {
        /// The places that were tried, in order.
        tried: String,
    },
    /// The text is no image reference.
    MalformedRef {
        /// The text.
        ref_name: String,
        /// Why.
        detail: String,
    },
    /// The image cannot be used.
    MalformedArtifact {
        /// The image.
        ref_name: String,
        /// Why.
        detail: String,
    },
    /// The file that the caller named is not there.
    OverrideMissing {
        /// What to say.
        message: String,
    },
    /// Something is wrong with an image in the layout.
    Registry(RegistryError),
    /// A document is no JSON, or not of its form.
    Json(serde_json::Error),
    /// An I/O error.
    Io(std::io::Error),
}

/// The layers of the kernel's image.
#[derive(Debug)]
pub struct FromKernelArtifact {
    /// The layer files, in the order in which they are unpacked.
    pub layers: Vec<String>,
    /// Where they were found.
    pub provenance: FromKernelProvenance,
}

/// Where the kernel was found.
#[derive(Debug)]
pub enum FromKernelProvenance {
    /// In a file that the caller named.
    Override(String),
    /// In a registry.
    Registry(String),
    /// In the local layout.
    Cache(String),
}

/// Where to look for the kernel.
#[derive(Debug)]
pub enum FromKernelResolution {
    /// It is here.
    Found(FromKernelArtifact),
    /// Look for it.
    Search(ResolvePlan),
}

/// The error for a failure.
pub fn from_kernel_error(failure: ResolveFailure) -> (r: FromKernelResolveError)
    ensures
        match failure {
            ResolveFailure::OverrideMissing { message } =>
            r matches FromKernelResolveError::OverrideMissing { message: m } && m == message,
            ResolveFailure::NotFound { tried } => r matches FromKernelResolveError::NotFound { tried: t }
                && t == tried,
            ResolveFailure::MalformedRef { ref_name, detail } =>
            r matches FromKernelResolveError::MalformedRef { ref_name: n, detail: d } && n == ref_name && d
                == detail,
            ResolveFailure::MalformedArtifact { ref_name, detail } =>
            r matches FromKernelResolveError::MalformedArtifact { ref_name: n, detail: d } && n == ref_name
                && d == detail,
        },
{
    match failure {
        ResolveFailure::OverrideMissing { message } => FromKernelResolveError::OverrideMissing { message },
        ResolveFailure::NotFound { tried } => FromKernelResolveError::NotFound { tried },
        ResolveFailure::MalformedRef { ref_name, detail } => FromKernelResolveError::MalformedRef {
            ref_name,
            detail,
        },
        ResolveFailure::MalformedArtifact { ref_name, detail } =>
        FromKernelResolveError::MalformedArtifact { ref_name, detail },
    }
}

/// The layers of the kernel that were found.
pub fn from_kernel_artifact(layers: Vec<String>, provenance: Provenance) -> (r: FromKernelArtifact)
    ensures
        r.layers == layers,
        match provenance {
            Provenance::Override(p) => r.provenance == FromKernelProvenance::Override(p),
            Provenance::Registry(p) => r.provenance == FromKernelProvenance::Registry(p),
            Provenance::Cache(p) => r.provenance == FromKernelProvenance::Cache(p),
        },
{
    FromKernelArtifact {
        layers,
        provenance: match provenance {
            Provenance::Override(p) => FromKernelProvenance::Override(p),
            Provenance::Registry(p) => FromKernelProvenance::Registry(p),
            Provenance::Cache(p) => FromKernelProvenance::Cache(p),
        },
    }
}

/// Where to look for the kernel: the file that the caller named, else
/// the local layout and the registries, under the reference that the caller
/// named or the recipe has. `override_file` is the named file and whether it is
/// there; `candidates` is what the reference can stand for.
pub fn resolve_from_kernel(
    reference: &str,
    override_file: Option<(&str, bool)>,
    registry_ref: Option<&str>,
    candidates: &Vec<String>,
    has_client: bool,
) -> (r: Result<FromKernelResolution, FromKernelResolveError>)
    ensures
        match override_file {
            Some((path, true)) => r matches Ok(FromKernelResolution::Found(a)) && texts(a.layers@)
                == seq![path@] && (a.provenance matches FromKernelProvenance::Override(p) && p@ == path@),
            Some((path, false)) => r matches Err(FromKernelResolveError::OverrideMissing { message })
                && message@ == "FROM kernel"@ + " override path "@ + path@ + " not found"@,
            None => {
                let wanted = wanted_ref(reference@, registry_ref);
                match reference_of(wanted) {
                    Ok(_) => r matches Ok(FromKernelResolution::Search(p)) && is_plan(
                        p,
                        canonical_forms(read_all(texts(candidates@))),
                        has_client,
                    ),
                    Err(why) => r matches Err(FromKernelResolveError::MalformedRef { ref_name, detail })
                        && ref_name@ == wanted && detail@ == why,
                }
            },
        },
{
    match override_file {
        Some((path, is_file)) => match take_override("FROM kernel", path, is_file) {
            Ok(file) => {
                let mut layers: Vec<String> = Vec::new();
                layers.push(file.clone());
                assert(texts(layers@) =~= seq![path@]);
                Ok(FromKernelResolution::Found(from_kernel_artifact(layers, Provenance::Override(file))))
            },
            Err(e) => Err(from_kernel_error(e)),
        },
        None => {
            let wanted = pull_ref(reference, registry_ref);
            match resolve_layers(wanted.as_str(), candidates, has_client) {
                Ok(plan) => Ok(FromKernelResolution::Search(plan)),
                Err(e) => Err(from_kernel_error(e)),
            }
        },
    }
}

/// Checks that an image is a kernel.
pub fn check_kernel(ref_name: &str, kind: &L0Kind) -> (r: Result<(), FromKernelResolveError>)
    ensures
        if kind@ == KindView::Payload(Payload::Kernel) {
            r is Ok
        } else {
            r matches Err(FromKernelResolveError::MalformedArtifact { ref_name: n, detail }) && n@
                == ref_name@ && detail@ == "expected org.imagilux.umf.type=kernel, got "@
                + kind@.described()
        },
{
    if kind.is_kernel() {
        Ok(())
    } else {
        let detail = concat2(
            "expected org.imagilux.umf.type=kernel, got ",
            kind.describe().as_str(),
        );
        Err(
            FromKernelResolveError::MalformedArtifact {
                ref_name: String::from_str(ref_name),
                detail,
            },
        )
    }
}

} // verus!
