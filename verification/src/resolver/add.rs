//! The image of an `ADD`.
use vstd::prelude::*;
use crate::engine_build::base_image::{canonical_forms, read_all};
use crate::introspect::RegistryError;
use crate::reference::reference_of;
use crate::text::texts;
use super::{
    is_plan, pull_ref, resolve_layers, take_override, wanted_ref, Provenance, ResolveFailure,
    ResolvePlan,
};

verus! {

/// Why the image of an `ADD` was not found.
#[derive(Debug)]
pub enum AddResolveError {
    /// It is nowhere.
    NotFound {
        /// The places that were tried, in order.
        tried: String,
    },
    /// The text is no image reference.
    MalformedRef {
        /// The text.
        ref_name: String,
        /// Why.
        detail: String,
    },
    /// The image cannot be used.
    MalformedArtifact {
        /// The image.
        ref_name: String,
        /// Why.
        detail: String,
    },
    /// The file that the caller named is not there.
    OverrideMissing {
        /// What to say.
        message: String,
    },
    /// Something is wrong with an image in the layout.
    Registry(RegistryError),
    /// A document is no JSON, or not of its form.
    Json(serde_json::Error),
    /// An I/O error.
    Io(std::io::Error),
}

/// The layers of the image of an `ADD`.
#[derive(Debug)]
pub struct AddArtifact {
    /// The layer files, in the order in which they are unpacked.
    pub layers: Vec<String>,
    /// Where they were found.
    pub provenance: AddProvenance,
}

/// Where the image of an `ADD` was found.
#[derive(Debug)]
pub enum AddProvenance {
    /// In a file that the caller named.
    Override(String),
    /// In a registry.
    Registry(String),
    /// In the local layout.
    Cache(String),
}

/// Where to look for the image of an `ADD`.
#[derive(Debug)]
pub enum AddResolution {
    /// It is here.
    Found(AddArtifact),
    /// Look for it.
    Search(ResolvePlan),
}

/// The error of the `ADD` for a failure.
pub fn add_error(failure: ResolveFailure) -> (r: AddResolveError)
    ensures
        match failure {
            ResolveFailure::OverrideMissing { message } =>
            r matches AddResolveError::OverrideMissing { message: m } && m == message,
            ResolveFailure::NotFound { tried } => r matches AddResolveError::NotFound { tried: t }
                && t == tried,
            ResolveFailure::MalformedRef { ref_name, detail } =>
            r matches AddResolveError::MalformedRef { ref_name: n, detail: d } && n == ref_name && d
                == detail,
            ResolveFailure::MalformedArtifact { ref_name, detail } =>
            r matches AddResolveError::MalformedArtifact { ref_name: n, detail: d } && n == ref_name
                && d == detail,
        },
{
    match failure {
        ResolveFailure::OverrideMissing { message } => AddResolveError::OverrideMissing { message },
        ResolveFailure::NotFound { tried } => AddResolveError::NotFound { tried },
        ResolveFailure::MalformedRef { ref_name, detail } => AddResolveError::MalformedRef {
            ref_name,
            detail,
        },
        ResolveFailure::MalformedArtifact { ref_name, detail } =>
        AddResolveError::MalformedArtifact { ref_name, detail },
    }
}

/// The layers of an `ADD` that were found.
pub fn add_artifact(layers: Vec<String>, provenance: Provenance) -> (r: AddArtifact)
    ensures
        r.layers == layers,
        match provenance {
            Provenance::Override(p) => r.provenance == AddProvenance::Override(p),
            Provenance::Registry(p) => r.provenance == AddProvenance::Registry(p),
            Provenance::Cache(p) => r.provenance == AddProvenance::Cache(p),
        },
{
    AddArtifact {
        layers,
        provenance: match provenance {
            Provenance::Override(p) => AddProvenance::Override(p),
            Provenance::Registry(p) => AddProvenance::Registry(p),
            Provenance::Cache(p) => AddProvenance::Cache(p),
        },
    }
}

/// Where to look for the image of an `ADD`: the file that the caller named, else
/// the local layout and the registries, under the reference that the caller
/// named or the recipe has. `override_file` is the named file and whether it is
/// there; `candidates` is what the reference can stand for.
pub fn resolve_add(
    reference: &str,
    override_file: Option<(&str, bool)>,
    registry_ref: Option<&str>,
    candidates: &Vec<String>,
    has_client: bool,
) -> (r: Result<AddResolution, AddResolveError>)
    ensures
        match override_file {
            Some((path, true)) => r matches Ok(AddResolution::Found(a)) && texts(a.layers@)
                == seq![path@] && (a.provenance matches AddProvenance::Override(p) && p@ == path@),
            Some((path, false)) => r matches Err(AddResolveError::OverrideMissing { message })
                && message@ == "ADD --from image"@ + " override path "@ + path@ + " not found"@,
            None => {
                let wanted = wanted_ref(reference@, registry_ref);
                match reference_of(wanted) {
                    Ok(_) => r matches Ok(AddResolution::Search(p)) && is_plan(
                        p,
                        canonical_forms(read_all(texts(candidates@))),
                        has_client,
                    ),
                    Err(why) => r matches Err(AddResolveError::MalformedRef { ref_name, detail })
                        && ref_name@ == wanted && detail@ == why,
                }
            },
        },
{
    match override_file {
        Some((path, is_file)) => match take_override("ADD --from image", path, is_file) {
            Ok(file) => {
                let mut layers: Vec<String> = Vec::new();
                layers.push(file.clone());
                assert(texts(layers@) =~= seq![path@]);
                Ok(AddResolution::Found(add_artifact(layers, Provenance::Override(file))))
            },
            Err(e) => Err(add_error(e)),
        },
        None => {
            let wanted = pull_ref(reference, registry_ref);
            match resolve_layers(wanted.as_str(), candidates, has_client) {
                Ok(plan) => Ok(AddResolution::Search(plan)),
                Err(e) => Err(add_error(e)),
            }
        },
    }
}

} // verus!
