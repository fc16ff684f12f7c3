//! The image that a stage starts from.
use vstd::prelude::*;
use crate::architecture::Architecture;
use crate::image::{
    empty_config, empty_container, layer_views, lemma_layers_push, opt_text, opt_texts, ConfigView,
    ContainerConfig, ContainerView, ImageConfig, LayerSource, LayerView,
};
use crate::json::{Json, JsonView};
use crate::l0::{KindView, L0Kind};
use crate::manifest::{read_manifest, parsed_manifest, ImageManifest, ImageView, Manifest, ManifestView};
use crate::platform::{select_for_arch, selected};
use crate::reference::{read_reference, reference_of, ImageReference};
use crate::text::texts;
use crate::text_map::{text_values, TextMap};
use super::error::EngineBuildError;
use super::state::BaseImage;

verus! {

/// The model of reading a reference.
pub open spec fn reference_view(r: Result<ImageReference, String>) -> Result<
    (Seq<char>, Seq<char>),
    Seq<char>,
> {
    match r {
        Ok(x) => Ok((x.registry@, x.whole@)),
        Err(e) => Err(e@),
    }
}

/// Of texts that may be references those that are, in canonical form.
pub open spec fn canonical_forms(
    parsed: Seq<Result<(Seq<char>, Seq<char>), Seq<char>>>,
) -> Seq<(Seq<char>, Seq<char>)>
    decreases parsed.len(),
{
    if parsed.len() == 0 {
        Seq::empty()
    } else {
        match parsed.last() {
            Ok(x) => canonical_forms(parsed.drop_last()).push(x),
            Err(_) => canonical_forms(parsed.drop_last()),
        }
    }
}

/// The registry and canonical form of each reference.
pub open spec fn reference_forms(refs: Seq<ImageReference>) -> Seq<(Seq<char>, Seq<char>)> {
    Seq::new(refs.len(), |i: int| (refs[i].registry@, refs[i].whole@))
}

/// The texts of which each is read as a reference.
pub open spec fn read_all(candidates: Seq<Seq<char>>) -> Seq<
    Result<(Seq<char>, Seq<char>), Seq<char>>,
> {
    Seq::new(candidates.len(), |i: int| reference_of(candidates[i]))
}

/// The references to try for a `FROM`, one after another: of the candidates
/// that the registries to search give, those that are references. What the
/// recipe has must be a reference.
pub fn pull_candidates(ref_name: &str, candidates: &Vec<String>) -> (r: Result<
    Vec<ImageReference>,
    EngineBuildError,
>)
    ensures
        match (r, reference_of(ref_name@)) {
            (Ok(refs), Ok(_)) => reference_forms(refs@) == canonical_forms(
                read_all(texts(candidates@)),
            ),
            (Err(e), Err(why)) => e matches EngineBuildError::InvalidReference(x, y) && x@
                == ref_name@ && y@ == why,
            _ => false,
        },
{
    if let Err(why) = read_reference(ref_name) {
        return Err(EngineBuildError::InvalidReference(String::from_str(ref_name), why));
    }
    let ghost all = read_all(texts(candidates@));
    let mut out: Vec<ImageReference> = Vec::new();
    let mut i: usize = 0;
    proof {
        assert(all.take(0) =~= Seq::empty());
        assert(reference_forms(out@) =~= Seq::empty());
    }
    while i < candidates.len()
        invariant
            i <= candidates@.len(),
            all == read_all(texts(candidates@)),
            reference_forms(out@) == canonical_forms(all.take(i as int)),
        decreases candidates.len() - i,
    {
        proof {
            assert(all.take(i as int + 1).drop_last() =~= all.take(i as int));
            assert(all.take(i as int + 1).last() == all[i as int]);
        }
        let parsed = read_reference(candidates[i].as_str());
        keep_reference(&mut out, parsed);
        i += 1;
    }
    assert(all.take(i as int) =~= all);
    Ok(out)
}

/// Appends a reference that could be read.
pub fn keep_reference(refs: &mut Vec<ImageReference>, parsed: Result<ImageReference, String>)
    ensures
        reference_forms(final(refs)@) == (match reference_view(parsed) {
            Ok(x) => reference_forms(old(refs)@).push(x),
            Err(_) => reference_forms(old(refs)@),
        }),
{
    match parsed {
        Ok(reference) => {
            proof {
                assert(reference_forms(refs@.push(reference)) =~= reference_forms(refs@).push(
                    (reference.registry@, reference.whole@),
                ));
            }
            refs.push(reference);
        },
        Err(_) => {},
    }
}

/// The pull of an image: the references that may stand for it, one after
/// another.
#[derive(Debug)]
pub struct PullWalk {
    /// The text in the recipe.
    pub wanted: String,
    /// The references.
    pub refs: Vec<ImageReference>,
    /// How many of them could not be pulled.
    pub at: usize,
    /// The last error.
    pub last: Option<EngineBuildError>,
}

/// What to do for a reference.
#[derive(Debug)]
pub enum PullAction {
    /// The image is in the layout under this reference.
    Use(String),
    /// Pull it.
    Pull {
        /// From this registry.
        registry: String,
        /// By this reference, under which it will be in the layout.
        canonical: String,
    },
}

impl PullWalk {
    /// The pull before its first reference.
    pub fn start(ref_name: &str, candidates: &Vec<String>) -> (r: Result<PullWalk, EngineBuildError>)
        ensures
            match (r, reference_of(ref_name@)) {
                (Ok(w), Ok(_)) => w.wanted@ == ref_name@ && reference_forms(w.refs@)
                    == canonical_forms(read_all(texts(candidates@))) && w.at == 0 && w.last is None,
                (Err(e), Err(why)) => e matches EngineBuildError::InvalidReference(x, y) && x@
                    == ref_name@ && y@ == why,
                _ => false,
            },
    {
        match pull_candidates(ref_name, candidates) {
            Ok(refs) => Ok(PullWalk { wanted: String::from_str(ref_name), refs, at: 0, last: None }),
            Err(e) => Err(e),
        }
    }

    /// The reference to try next; none where all were tried.
    pub fn next(&self) -> (r: Option<&ImageReference>)
        ensures
            match r {
                Some(x) => self.at < self.refs@.len() && *x == self.refs@[self.at as int],
                None => self.at >= self.refs@.len(),
            },
    {
        if self.at < self.refs.len() {
            Some(&self.refs[self.at])
        } else {
            None
        }
    }

    /// What to do for the next reference. An image that is in the layout is not
    /// pulled.
    pub fn on_lookup(&self, is_there: bool) -> (r: PullAction)
        requires
            self.at < self.refs@.len(),
        ensures
            ({
                let reference = self.refs@[self.at as int];
                if is_there {
                    r matches PullAction::Use(x) && x@ == reference.whole@
                } else {
                    r matches PullAction::Pull { registry, canonical } && registry@
                        == reference.registry@ && canonical@ == reference.whole@
                }
            }),
    {
        let reference = &self.refs[self.at];
        if is_there {
            PullAction::Use(reference.whole.clone())
        } else {
            PullAction::Pull {
                registry: reference.registry.clone(),
                canonical: reference.whole.clone(),
            }
        }
    }

    /// The next reference could not be pulled.
    pub fn on_failed(&mut self, error: EngineBuildError)
        requires
            old(self).at < old(self).refs@.len(),
        ensures
            *final(self) == (PullWalk {
                at: (old(self).at + 1) as usize,
                last: Some(error),
                ..*old(self)
            }),
    {
        assert(self.refs@.len() == self.refs.len());
        self.at = self.at + 1;
        self.last = Some(error);
    }

    /// The error where no reference could be pulled.
    pub fn failed(self) -> (r: EngineBuildError)
        ensures
            match self.last {
                Some(e) => r == e,
                None => r matches EngineBuildError::InvalidReference(x, y) && x@ == self.wanted@
                    && y@ == "no resolvable candidate"@,
            },
    {
        pull_failed(self.wanted.as_str(), self.last)
    }
}

/// The error where no candidate could be pulled: that of the last one tried.
pub fn pull_failed(ref_name: &str, last: Option<EngineBuildError>) -> (r: EngineBuildError)
    ensures
        match last {
            Some(e) => r == e,
            None => r matches EngineBuildError::InvalidReference(x, y) && x@ == ref_name@ && y@
                == "no resolvable candidate"@,
        },
{
    match last {
        Some(e) => e,
        None => EngineBuildError::InvalidReference(
            String::from_str(ref_name),
            String::from_str("no resolvable candidate"),
        ),
    }
}

/// What `FROM scratch` starts from: no layers, and a configuration that names
/// the architecture.
pub fn scratch_base_image(architecture: Architecture) -> (r: BaseImage)
    ensures
        r.layers@.len() == 0,
        r.config@ == empty_config(architecture.oci_name(), KindView::Container),
{
    BaseImage {
        layers: Vec::new(),
        config: ImageConfig::empty(architecture.oci_arch_string(), L0Kind::Container),
    }
}

/// Where the manifest of a base image is.
#[derive(Debug)]
pub enum ManifestPlace {
    /// Here.
    Here(ImageManifest),
    /// In the blob with this digest.
    Blob(String),
}

/// Picks the manifest for the architecture. An index without one is an error:
/// another architecture is never used.
pub fn choose_manifest(manifest: Manifest, architecture: Architecture) -> (r: Result<
    ManifestPlace,
    EngineBuildError,
>)
    ensures
        match manifest@ {
            ManifestView::Image(m) => r matches Ok(ManifestPlace::Here(x)) && x@ == m,
            ManifestView::Index(index) => match selected(index, architecture) {
                Some(i) => r matches Ok(ManifestPlace::Blob(digest)) && digest@ == index[i].digest,
                None => r matches Err(EngineBuildError::NoManifestForPlatform { arch }) && arch@
                    == architecture.oci_name(),
            },
        },
{
    match manifest {
        Manifest::Image(m) => Ok(ManifestPlace::Here(m)),
        Manifest::Index(index) => match select_for_arch(&index, architecture) {
            Some(entry) => Ok(ManifestPlace::Blob(entry.digest.clone())),
            None => Err(
                EngineBuildError::NoManifestForPlatform {
                    arch: String::from_str(architecture.oci_arch_string()),
                },
            ),
        },
    }
}

/// Reads the manifest of a base image, or finds out where it is.
pub fn base_manifest(bytes: &[u8], architecture: Architecture) -> (r: Result<
    ManifestPlace,
    EngineBuildError,
>)
    ensures
        match parsed_manifest(bytes@) {
            None => r matches Err(EngineBuildError::Json(_)),
            Some(ManifestView::Image(m)) => r matches Ok(ManifestPlace::Here(x)) && x@ == m,
            Some(ManifestView::Index(index)) => match selected(index, architecture) {
                Some(i) => r matches Ok(ManifestPlace::Blob(digest)) && digest@ == index[i].digest,
                None => r matches Err(EngineBuildError::NoManifestForPlatform { arch }) && arch@
                    == architecture.oci_name(),
            },
        },
{
    match read_manifest(bytes) {
        Ok(m) => choose_manifest(m, architecture),
        Err(e) => Err(EngineBuildError::Json(e)),
    }
}

/// An argument vector that has arguments.
pub open spec fn some_args(v: Option<Seq<Seq<char>>>) -> Option<Seq<Seq<char>>> {
    match v {
        Some(x) => if x.len() > 0 {
            Some(x)
        } else {
            None
        },
        None => None,
    }
}

/// A text that is not empty.
pub open spec fn some_text(v: Option<Seq<char>>) -> Option<Seq<char>> {
    match v {
        Some(x) => if x.len() > 0 {
            Some(x)
        } else {
            None
        },
        None => None,
    }
}

/// The settings for containers in the `config` object of an image
/// configuration.
pub open spec fn container_of(cfg: JsonView) -> ContainerView {
    ContainerView {
        env: match cfg.texts_member("Env"@) {
            Some(env) => env,
            None => Seq::empty(),
        },
        entrypoint: some_args(cfg.texts_member("Entrypoint"@)),
        cmd: some_args(cfg.texts_member("Cmd"@)),
        working_dir: some_text(cfg.text_member("WorkingDir"@)),
        user: some_text(cfg.text_member("User"@)),
        labels: match cfg.text_map_member("Labels"@) {
            Some(labels) => labels,
            None => Map::empty(),
        },
        exposed_ports: Seq::empty(),
        volumes: Seq::empty(),
        stop_signal: None,
    }
}

/// The configuration that a stage inherits from a base image. The architecture
/// is that of the build, whatever the base image says.
pub open spec fn inherited_config(raw: JsonView, architecture: Architecture) -> ConfigView {
    ConfigView {
        architecture: architecture.oci_name(),
        os: match raw.text_member("os"@) {
            Some(os) => os,
            None => "linux"@,
        },
        created: None,
        author: None,
        container: match raw.member("config"@) {
            Some(cfg) => container_of(cfg),
            None => empty_container(),
        },
        history: Seq::empty(),
        umf_type: KindView::Container,
        umf_spec: None,
    }
}

fn args_of(v: Option<Vec<String>>) -> (r: Option<Vec<String>>)
    ensures
        opt_texts(r) == some_args(opt_texts(v)),
{
    match v {
        Some(x) => if x.len() > 0 {
            Some(x)
        } else {
            None
        },
        None => None,
    }
}

fn text_of_member(v: Option<String>) -> (r: Option<String>)
    ensures
        opt_text(r) == some_text(opt_text(v)),
{
    match v {
        Some(x) => if !x.as_str().is_empty() {
            Some(x)
        } else {
            None
        },
        None => None,
    }
}

fn read_container(cfg: &Json) -> (r: ContainerConfig)
    ensures
        r@ == container_of(cfg@),
{
    let env = match cfg.get_texts("Env") {
        Some(env) => env,
        None => Vec::new(),
    };
    let labels = match cfg.get_text_map("Labels") {
        Some(labels) => labels,
        None => TextMap::new(),
    };
    let r = ContainerConfig {
        env,
        entrypoint: args_of(cfg.get_texts("Entrypoint")),
        cmd: args_of(cfg.get_texts("Cmd")),
        working_dir: text_of_member(cfg.get_text("WorkingDir")),
        user: text_of_member(cfg.get_text("User")),
        labels,
        exposed_ports: Vec::new(),
        volumes: Vec::new(),
        stop_signal: None,
    };
    assert(r@ =~= container_of(cfg@)) by {
        assert(texts(r.exposed_ports@) =~= Seq::empty());
        if cfg@.texts_member("Env"@) is None {
            assert(texts(r.env@) =~= Seq::empty());
        }
        if cfg@.text_map_member("Labels"@) is None {
            assert(text_values(r.labels@) =~= Map::empty());
        }
    }
    r
}

/// The configuration that a stage inherits from a base image.
pub fn image_config_from_raw(raw: &Json, architecture: Architecture) -> (r: ImageConfig)
    ensures
        r@ == inherited_config(raw@, architecture),
{
    let container = match raw.get("config") {
        Some(cfg) => read_container(cfg),
        None => ContainerConfig::default(),
    };
    let mut config = ImageConfig::empty(architecture.oci_arch_string(), L0Kind::Container);
    config.container = container;
    if let Some(os) = raw.get_text("os") {
        config.os = os;
    }
    assert(config@ =~= inherited_config(raw@, architecture));
    config
}

/// The digests of the layers that an image configuration names.
pub open spec fn named_layers(raw: JsonView) -> Seq<Seq<char>> {
    match raw.member("rootfs"@) {
        Some(rootfs) => match rootfs.texts_member("diff_ids"@) {
            Some(ids) => ids,
            None => Seq::empty(),
        },
        None => Seq::empty(),
    }
}

/// The digests of the layers that an image configuration names.
pub fn extract_diff_ids(raw: &Json) -> (r: Vec<String>)
    ensures
        texts(r@) == named_layers(raw@),
{
    let none: Vec<String> = Vec::new();
    assert(texts(none@) =~= Seq::empty());
    match raw.get("rootfs") {
        Some(rootfs) => match rootfs.get_texts("diff_ids") {
            Some(ids) => ids,
            None => none,
        },
        None => none,
    }
}

/// Checks that a configuration names as many layers as its manifest has, and
/// gives their digests.
pub fn check_layer_count(manifest: &ImageManifest, raw: &Json) -> (r: Result<
    Vec<String>,
    EngineBuildError,
>)
    ensures
        match r {
            Ok(ids) => texts(ids@) == named_layers(raw@) && ids@.len() == manifest@.layers.len(),
            Err(e) => named_layers(raw@).len() != manifest@.layers.len() && (
            e matches EngineBuildError::BaseImageLayerCountMismatch { layers, diff_ids } && layers
                == manifest@.layers.len() && diff_ids == named_layers(raw@).len()),
        },
{
    let ids = extract_diff_ids(raw);
    assert(texts(ids@).len() == ids@.len());
    if ids.len() != manifest.layers.len() {
        Err(
            EngineBuildError::BaseImageLayerCountMismatch {
                layers: manifest.layers.len(),
                diff_ids: ids.len(),
            },
        )
    } else {
        Ok(ids)
    }
}

/// The layers of a base image, from the bottom up.
pub open spec fn base_layers(
    manifest: ImageView,
    diff_ids: Seq<Seq<char>>,
    blobs: Seq<Seq<u8>>,
) -> Seq<LayerView> {
    Seq::new(
        manifest.layers.len(),
        |i: int|
            LayerView {
                data: blobs[i],
                media_type: manifest.layers[i].media_type,
                diff_id: diff_ids[i],
            },
    )
}

/// The bytes of the blobs.
pub open spec fn blob_bytes(blobs: Seq<Vec<u8>>) -> Seq<Seq<u8>> {
    Seq::new(blobs.len(), |i: int| blobs[i]@)
}

/// What a stage starts from: the base image's configuration as the stage
/// inherits it, and its layers with the bytes of their blobs.
pub fn resolve_base_image(
    manifest: &ImageManifest,
    raw: &Json,
    diff_ids: &Vec<String>,
    blobs: &Vec<Vec<u8>>,
    architecture: Architecture,
) -> (r: BaseImage)
    requires
        diff_ids@.len() == manifest@.layers.len(),
        blobs@.len() == manifest@.layers.len(),
    ensures
        r.config@ == inherited_config(raw@, architecture),
        layer_views(r.layers@) == base_layers(manifest@, texts(diff_ids@), blob_bytes(blobs@)),
{
    let config = image_config_from_raw(raw, architecture);
    let ghost all = base_layers(manifest@, texts(diff_ids@), blob_bytes(blobs@));
    let mut layers: Vec<LayerSource> = Vec::new();
    let mut i: usize = 0;
    assert(layer_views(layers@) =~= all.take(0));
    while i < manifest.layers.len()
        invariant
            i <= manifest.layers@.len(),
            diff_ids@.len() == manifest.layers@.len(),
            blobs@.len() == manifest.layers@.len(),
            all == base_layers(manifest@, texts(diff_ids@), blob_bytes(blobs@)),
            layer_views(layers@) == all.take(i as int),
        decreases manifest.layers.len() - i,
    {
        let layer = LayerSource {
            data: vstd::slice::slice_to_vec(blobs[i].as_slice()),
            media_type: manifest.layers[i].media_type.clone(),
            diff_id: diff_ids[i].clone(),
        };
        proof {
            lemma_layers_push(layers@, layer);
            assert(manifest@.layers[i as int] == manifest.layers@[i as int]@);
            assert(layer@ == all[i as int]);
            assert(all.take(i as int + 1) =~= all.take(i as int).push(layer@));
        }
        layers.push(layer);
        i += 1;
    }
    assert(all.take(i as int) =~= all);
    BaseImage { layers, config }
}

} // verus!
