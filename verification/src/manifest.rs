//! Image manifests and image indexes.
use oci_client::manifest::{OciImageManifest, OciManifest};
use vstd::prelude::*;

verus! {

/// What a manifest says of a blob.
#[derive(Debug)]
pub struct Descriptor {
    /// The media type.
    pub media_type: String,
    /// The digest.
    pub digest: String,
}

/// An image manifest.
#[derive(Debug)]
pub struct ImageManifest {
    /// The image configuration.
    pub config: Descriptor,
    /// The layers, from the bottom up.
    pub layers: Vec<Descriptor>,
}

/// The platform of an image in an index.
#[derive(Debug)]
pub struct Platform {
    /// The operating system.
    pub os: String,
    /// The CPU architecture.
    pub architecture: String,
    /// The variant of the architecture.
    pub variant: Option<String>,
}

/// One image of an index.
#[derive(Debug)]
pub struct IndexEntry {
    /// The digest of its manifest.
    pub digest: String,
    /// Its platform.
    pub platform: Option<Platform>,
}

/// An image index: one image for each platform.
#[derive(Debug)]
pub struct ImageIndex {
    /// The images.
    pub manifests: Vec<IndexEntry>,
}

/// What a reference can lead to.
#[derive(Debug)]
pub enum Manifest {
    /// An image.
    Image(ImageManifest),
    /// An index of images.
    Index(ImageIndex),
}

/// The model of a [`Descriptor`].
pub struct DescriptorView {
    /// The media type.
    pub media_type: Seq<char>,
    /// The digest.
    pub digest: Seq<char>,
}

/// The model of an [`ImageManifest`].
pub struct ImageView {
    /// The image configuration.
    pub config: DescriptorView,
    /// The layers.
    pub layers: Seq<DescriptorView>,
}

/// The model of a [`Platform`].
pub struct PlatformView {
    /// The operating system.
    pub os: Seq<char>,
    /// The CPU architecture.
    pub architecture: Seq<char>,
    /// The variant of the architecture.
    pub variant: Option<Seq<char>>,
}

/// The model of an [`IndexEntry`].
pub struct EntryView {
    /// The digest of its manifest.
    pub digest: Seq<char>,
    /// Its platform.
    pub platform: Option<PlatformView>,
}

/// The model of a [`Manifest`].
pub enum ManifestView {
    /// An image.
    Image(ImageView),
    /// An index of images.
    Index(Seq<EntryView>),
}

impl View for Descriptor {
    type V = DescriptorView;

    open spec fn view(&self) -> DescriptorView {
        DescriptorView { media_type: self.media_type@, digest: self.digest@ }
    }
}

impl View for ImageManifest {
    type V = ImageView;

    open spec fn view(&self) -> ImageView {
        ImageView {
            config: self.config@,
            layers: Seq::new(self.layers@.len(), |i: int| self.layers@[i]@),
        }
    }
}

impl View for Platform {
    type V = PlatformView;

    open spec fn view(&self) -> PlatformView {
        PlatformView {
            os: self.os@,
            architecture: self.architecture@,
            variant: match self.variant {
                Some(v) => Some(v@),
                None => None,
            },
        }
    }
}

impl View for IndexEntry {
    type V = EntryView;

    open spec fn view(&self) -> EntryView {
        EntryView {
            digest: self.digest@,
            platform: match self.platform {
                Some(p) => Some(p@),
                None => None,
            },
        }
    }
}

impl View for ImageIndex {
    type V = Seq<EntryView>;

    open spec fn view(&self) -> Seq<EntryView> {
        Seq::new(self.manifests@.len(), |i: int| self.manifests@[i]@)
    }
}

impl View for Manifest {
    type V = ManifestView;

    open spec fn view(&self) -> ManifestView {
        match *self {
            Manifest::Image(m) => ManifestView::Image(m@),
            Manifest::Index(x) => ManifestView::Index(x@),
        }
    }
}

/// The manifest or index that the bytes are; nothing where they are neither.
pub uninterp spec fn parsed_manifest(bytes: Seq<u8>) -> Option<ManifestView>;

/// The image manifest that the bytes are; nothing where they are none.
pub uninterp spec fn parsed_image(bytes: Seq<u8>) -> Option<ImageView>;

/// `serde_json::from_slice` into an `oci_client::manifest::OciManifest`, with
/// the fields that are read here. What comes out depends on the bytes alone.
#[verifier::external_body]
pub(crate) fn parse_manifest(bytes: &[u8]) -> (r: Result<Manifest, serde_json::Error>)
    ensures
        match r {
            Ok(m) => parsed_manifest(bytes@) == Some(m@),
            Err(_) => parsed_manifest(bytes@) is None,
        },
{
    Ok(match serde_json::from_slice::<OciManifest>(bytes)? {
        OciManifest::Image(m) => Manifest::Image(ImageManifest {
            config: Descriptor { media_type: m.config.media_type, digest: m.config.digest },
            layers: m.layers.into_iter().map(|d| Descriptor { media_type: d.media_type, digest: d.digest }).collect(),
        }),
        OciManifest::ImageIndex(x) => Manifest::Index(ImageIndex {
            manifests: x.manifests.into_iter().map(|e| IndexEntry {
                digest: e.digest,
                platform: e.platform.map(|p| Platform { os: p.os.to_string(), architecture: p.architecture.to_string(), variant: p.variant }),
            }).collect(),
        }),
    })
}

/// `serde_json::from_slice` into an `oci_client::manifest::OciImageManifest`,
/// with the fields that are read here. What comes out depends on the bytes
/// alone.
#[verifier::external_body]
pub(crate) fn parse_image(bytes: &[u8]) -> (r: Result<ImageManifest, serde_json::Error>)
    ensures
        match r {
            Ok(m) => parsed_image(bytes@) == Some(m@),
            Err(_) => parsed_image(bytes@) is None,
        },
{
    let m = serde_json::from_slice::<OciImageManifest>(bytes)?;
    Ok(ImageManifest {
        config: Descriptor { media_type: m.config.media_type, digest: m.config.digest },
        layers: m.layers.into_iter().map(|d| Descriptor { media_type: d.media_type, digest: d.digest }).collect(),
    })
}

/// Reads a manifest or index.
pub fn read_manifest(bytes: &[u8]) -> (r: Result<Manifest, serde_json::Error>)
    ensures
        match r {
            Ok(m) => parsed_manifest(bytes@) == Some(m@),
            Err(_) => parsed_manifest(bytes@) is None,
        },
{
    parse_manifest(bytes)
}

/// Reads an image manifest.
pub fn read_image_manifest(bytes: &[u8]) -> (r: Result<ImageManifest, serde_json::Error>)
    ensures
        match r {
            Ok(m) => parsed_image(bytes@) == Some(m@),
            Err(_) => parsed_image(bytes@) is None,
        },
{
    parse_image(bytes)
}

} // verus!
