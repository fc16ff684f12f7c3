//! Finding out what an image is.
//!
//! The type label of the image configuration says it; without one, the
//! structure of the manifest does.
use vstd::prelude::*;
use crate::l0::{kind_of_label, KindView, L0Kind, L0Source};
use crate::label;
use crate::manifest::{parse_manifest, parsed_manifest, ImageManifest, ImageView, Manifest, ManifestView};
use crate::text::same;
use crate::text_map::TextMap;

verus! {

/// The media type of an OCI image configuration.
pub const IMAGE_CONFIG_MEDIA_TYPE: &'static str = "application/vnd.oci.image.config.v1+json";

/// The media type of an image configuration before OCI.
pub const IMAGE_DOCKER_CONFIG_MEDIA_TYPE: &'static str = "application/vnd.docker.container.image.v1+json";

/// What goes wrong with images in the local layout.
#[derive(Debug)]
pub enum RegistryError {
    /// There is no such reference.
    NotFound(String),
    /// What the reference leads to cannot be used here.
    InvalidLayout(String),
    /// A document is no JSON, or not of its form.
    Json(serde_json::Error),
    /// An I/O error.
    Io(std::io::Error),
}

/// What is known of an image.
#[derive(Debug)]
pub struct L0Profile {
    /// What it is.
    pub kind: L0Kind,
    /// Where that is known from.
    pub source: L0Source,
    /// The digest of its manifest; empty for `scratch`.
    pub manifest_digest: String,
    /// The labels of its configuration.
    pub labels: TextMap<String>,
}

impl L0Profile {
    /// The profile of `FROM scratch`: no image.
    pub fn scratch() -> (r: Self)
        ensures
            r.kind@ == KindView::Scratch,
            r.source == L0Source::Label,
            r.manifest_digest@ == Seq::<char>::empty(),
            r.labels@ == Map::<Seq<char>, String>::empty(),
    {
        L0Profile {
            kind: L0Kind::Scratch,
            source: L0Source::Label,
            manifest_digest: String::new(),
            labels: TextMap::new(),
        }
    }
}

/// What the structure of a manifest says: with an image configuration and at
/// least one layer it is a container image.
pub open spec fn inferred_kind(manifest: ImageView) -> KindView {
    if (manifest.config.media_type == IMAGE_CONFIG_MEDIA_TYPE@ || manifest.config.media_type
        == IMAGE_DOCKER_CONFIG_MEDIA_TYPE@) && manifest.layers.len() > 0 {
        KindView::Container
    } else {
        KindView::Unknown(Seq::empty())
    }
}

/// What the structure of a manifest says.
pub fn infer_kind(manifest: &ImageManifest) -> (r: L0Kind)
    ensures
        r@ == inferred_kind(manifest@),
{
    let config = manifest.config.media_type.as_str();
    if (same(config, IMAGE_CONFIG_MEDIA_TYPE) || same(config, IMAGE_DOCKER_CONFIG_MEDIA_TYPE))
        && !manifest.layers.is_empty() {
        L0Kind::Container
    } else {
        L0Kind::Unknown(String::new())
    }
}

/// The digest that a reference has in the layout.
pub fn find_entry(ref_name: &str, digest: Option<String>) -> (r: Result<String, RegistryError>)
    ensures
        match digest {
            Some(d) => r == Ok::<String, RegistryError>(d),
            None => r matches Err(RegistryError::NotFound(name)) && name@ == ref_name@,
        },
{
    match digest {
        Some(d) => Ok(d),
        None => Err(RegistryError::NotFound(String::from_str(ref_name))),
    }
}

/// Why an index cannot be looked into.
pub open spec fn index_message(ref_name: Seq<char>) -> Seq<char> {
    ref_name + " resolves to an image index — select a platform before introspection"@
}

/// Accepts the manifest of an image; an index has to be narrowed down to a
/// platform first.
pub fn single_image(ref_name: &str, manifest: Manifest) -> (r: Result<ImageManifest, RegistryError>)
    ensures
        match manifest@ {
            ManifestView::Image(m) => r matches Ok(x) && x@ == m,
            ManifestView::Index(_) => r matches Err(RegistryError::InvalidLayout(message))
                && message@ == index_message(ref_name@),
        },
{
    match manifest {
        Manifest::Image(m) => Ok(m),
        Manifest::Index(_) => {
            let mut message = String::from_str(ref_name);
            message.append(
                " resolves to an image index — select a platform before introspection",
            );
            Err(RegistryError::InvalidLayout(message))
        },
    }
}

/// Reads the manifest that `ref_name` leads to, on the way to its
/// configuration.
pub fn introspect(ref_name: &str, manifest: &[u8]) -> (r: Result<ImageManifest, RegistryError>)
    ensures
        match parsed_manifest(manifest@) {
            Some(ManifestView::Image(m)) => r matches Ok(x) && x@ == m,
            Some(ManifestView::Index(_)) => r matches Err(RegistryError::InvalidLayout(message))
                && message@ == index_message(ref_name@),
            None => r matches Err(RegistryError::Json(_)),
        },
{
    match parse_manifest(manifest) {
        Ok(m) => single_image(ref_name, m),
        Err(e) => Err(RegistryError::Json(e)),
    }
}

/// What an image is, from its manifest and the labels of its configuration.
pub fn introspect_image(
    manifest_digest: &str,
    manifest: &ImageManifest,
    labels: TextMap<String>,
) -> (r: L0Profile)
    ensures
        r.manifest_digest@ == manifest_digest@,
        r.labels@ == labels@,
        if labels@.dom().contains(label::TYPE@) {
            r.kind@ == kind_of_label(labels@[label::TYPE@]@) && r.source == L0Source::Label
        } else {
            r.kind@ == inferred_kind(manifest@) && r.source == L0Source::Inferred
        },
{
    let (kind, source) = match labels.get(label::TYPE) {
        Some(value) => (L0Kind::from_label(value.as_str()), L0Source::Label),
        None => (infer_kind(manifest), L0Source::Inferred),
    };
    L0Profile { kind, source, manifest_digest: String::from_str(manifest_digest), labels }
}

} // verus!
