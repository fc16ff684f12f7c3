//! Image configurations and layers.
use vstd::prelude::*;
use crate::l0::{KindView, L0Kind};
use crate::text::texts;
use crate::text_map::{text_values, TextMap};

verus! {

/// How layers are compressed.
#[derive(Clone, Copy, Debug, PartialEq, Eq, Structural)]
pub enum LayerCompression {
    /// gzip
    Gzip,
    /// Zstandard
    Zstd,
}

impl Default for LayerCompression {
    fn default() -> (r: Self)
        ensures
            r == LayerCompression::Gzip,
    {
        LayerCompression::Gzip
    }
}

impl LayerCompression {
    /// The media type of a layer so compressed.
    pub open spec fn media_type_text(self) -> Seq<char> {
        match self {
            LayerCompression::Gzip => "application/vnd.oci.image.layer.v1.tar+gzip"@,
            LayerCompression::Zstd => "application/vnd.oci.image.layer.v1.tar+zstd"@,
        }
    }

    /// The media type of a layer so compressed.
    pub fn media_type(self) -> (r: &'static str)
        ensures
            r@ == self.media_type_text(),
    {
        match self {
            LayerCompression::Gzip => "application/vnd.oci.image.layer.v1.tar+gzip",
            LayerCompression::Zstd => "application/vnd.oci.image.layer.v1.tar+zstd",
        }
    }
}

/// A layer of an image.
#[derive(Debug)]
pub struct LayerSource {
    /// The compressed bytes.
    pub data: Vec<u8>,
    /// The media type.
    pub media_type: String,
    /// The digest of the bytes before compression.
    pub diff_id: String,
}

/// The model of a [`LayerSource`].
#[verifier::ext_equal]
pub struct LayerView {
    /// The compressed bytes.
    pub data: Seq<u8>,
    /// The media type.
    pub media_type: Seq<char>,
    /// The digest of the bytes before compression.
    pub diff_id: Seq<char>,
}

impl View for LayerSource {
    type V = LayerView;

    open spec fn view(&self) -> LayerView {
        LayerView { data: self.data@, media_type: self.media_type@, diff_id: self.diff_id@ }
    }
}

/// The models of layers.
pub open spec fn layer_views(layers: Seq<LayerSource>) -> Seq<LayerView> {
    Seq::new(layers.len(), |i: int| layers[i]@)
}

impl LayerSource {
    /// A copy.
    pub fn copy(&self) -> (r: LayerSource)
        ensures
            r@ == self@,
    {
        LayerSource {
            data: vstd::slice::slice_to_vec(self.data.as_slice()),
            media_type: self.media_type.clone(),
            diff_id: self.diff_id.clone(),
        }
    }
}

/// One step in the history of an image.
#[derive(Debug)]
pub struct HistoryEntry {
    /// When the step was taken.
    pub created: Option<String>,
    /// The directive, as the recipe has it.
    pub created_by: Option<String>,
    /// Who took it.
    pub author: Option<String>,
    /// A comment.
    pub comment: Option<String>,
    /// Did the step leave no layer?
    pub empty_layer: bool,
}

/// The model of a [`HistoryEntry`].
#[verifier::ext_equal]
pub struct HistoryView {
    /// When the step was taken.
    pub created: Option<Seq<char>>,
    /// The directive.
    pub created_by: Option<Seq<char>>,
    /// Who took it.
    pub author: Option<Seq<char>>,
    /// A comment.
    pub comment: Option<Seq<char>>,
    /// Did the step leave no layer?
    pub empty_layer: bool,
}

/// The view of a text that may be absent.
pub open spec fn opt_text(s: Option<String>) -> Option<Seq<char>> {
    match s {
        Some(x) => Some(x@),
        None => None,
    }
}

/// The view of a list of texts that may be absent.
pub open spec fn opt_texts(v: Option<Vec<String>>) -> Option<Seq<Seq<char>>> {
    match v {
        Some(x) => Some(texts(x@)),
        None => None,
    }
}

impl View for HistoryEntry {
    type V = HistoryView;

    open spec fn view(&self) -> HistoryView {
        HistoryView {
            created: opt_text(self.created),
            created_by: opt_text(self.created_by),
            author: opt_text(self.author),
            comment: opt_text(self.comment),
            empty_layer: self.empty_layer,
        }
    }
}

/// The models of history entries.
pub open spec fn history_views(h: Seq<HistoryEntry>) -> Seq<HistoryView> {
    Seq::new(h.len(), |i: int| h[i]@)
}

/// How a container is started from an image.
#[derive(Debug)]
pub struct ContainerConfig {
    /// The environment, as `KEY=value`.
    pub env: Vec<String>,
    /// What is started.
    pub entrypoint: Option<Vec<String>>,
    /// Its arguments.
    pub cmd: Option<Vec<String>>,
    /// The working directory.
    pub working_dir: Option<String>,
    /// The user.
    pub user: Option<String>,
    /// The labels.
    pub labels: TextMap<String>,
    /// The ports, as `port/protocol`.
    pub exposed_ports: Vec<String>,
    /// The mount points.
    pub volumes: Vec<String>,
    /// The signal that stops the container.
    pub stop_signal: Option<String>,
}

/// The model of a [`ContainerConfig`].
#[verifier::ext_equal]
pub struct ContainerView {
    /// The environment.
    pub env: Seq<Seq<char>>,
    /// What is started.
    pub entrypoint: Option<Seq<Seq<char>>>,
    /// Its arguments.
    pub cmd: Option<Seq<Seq<char>>>,
    /// The working directory.
    pub working_dir: Option<Seq<char>>,
    /// The user.
    pub user: Option<Seq<char>>,
    /// The labels.
    pub labels: Map<Seq<char>, Seq<char>>,
    /// The ports.
    pub exposed_ports: Seq<Seq<char>>,
    /// The mount points.
    pub volumes: Seq<Seq<char>>,
    /// The signal that stops the container.
    pub stop_signal: Option<Seq<char>>,
}

impl View for ContainerConfig {
    type V = ContainerView;

    open spec fn view(&self) -> ContainerView {
        ContainerView {
            env: texts(self.env@),
            entrypoint: opt_texts(self.entrypoint),
            cmd: opt_texts(self.cmd),
            working_dir: opt_text(self.working_dir),
            user: opt_text(self.user),
            labels: text_values(self.labels@),
            exposed_ports: texts(self.exposed_ports@),
            volumes: texts(self.volumes@),
            stop_signal: opt_text(self.stop_signal),
        }
    }
}

/// The configuration that says nothing.
pub open spec fn empty_container() -> ContainerView {
    ContainerView {
        env: Seq::empty(),
        entrypoint: None,
        cmd: None,
        working_dir: None,
        user: None,
        labels: Map::empty(),
        exposed_ports: Seq::empty(),
        volumes: Seq::empty(),
        stop_signal: None,
    }
}

impl Default for ContainerConfig {
    fn default() -> (r: Self)
        ensures
            r@ == empty_container(),
    {
        let r = ContainerConfig {
            env: Vec::new(),
            entrypoint: None,
            cmd: None,
            working_dir: None,
            user: None,
            labels: TextMap::new(),
            exposed_ports: Vec::new(),
            volumes: Vec::new(),
            stop_signal: None,
        };
        assert(r@ =~= empty_container()) by {
            assert(texts(r.env@) =~= Seq::empty());
            assert(text_values(r.labels@) =~= Map::empty());
        }
        r
    }
}

/// The configuration of an image.
#[derive(Debug)]
pub struct ImageConfig {
    /// The CPU architecture.
    pub architecture: String,
    /// The operating system.
    pub os: String,
    /// When the image was made.
    pub created: Option<String>,
    /// Who made it.
    pub author: Option<String>,
    /// How a container is started from it.
    pub container: ContainerConfig,
    /// How it was made.
    pub history: Vec<HistoryEntry>,
    /// What it is.
    pub umf_type: L0Kind,
    /// The version of the recipe language.
    pub umf_spec: Option<String>,
}

/// The model of an [`ImageConfig`].
#[verifier::ext_equal]
pub struct ConfigView {
    /// The CPU architecture.
    pub architecture: Seq<char>,
    /// The operating system.
    pub os: Seq<char>,
    /// When the image was made.
    pub created: Option<Seq<char>>,
    /// Who made it.
    pub author: Option<Seq<char>>,
    /// How a container is started from it.
    pub container: ContainerView,
    /// How it was made.
    pub history: Seq<HistoryView>,
    /// What it is.
    pub umf_type: KindView,
    /// The version of the recipe language.
    pub umf_spec: Option<Seq<char>>,
}

impl View for ImageConfig {
    type V = ConfigView;

    open spec fn view(&self) -> ConfigView {
        ConfigView {
            architecture: self.architecture@,
            os: self.os@,
            created: opt_text(self.created),
            author: opt_text(self.author),
            container: self.container@,
            history: history_views(self.history@),
            umf_type: self.umf_type@,
            umf_spec: opt_text(self.umf_spec),
        }
    }
}

/// A Linux image for the architecture that says nothing else.
pub open spec fn empty_config(architecture: Seq<char>, umf_type: KindView) -> ConfigView {
    ConfigView {
        architecture,
        os: "linux"@,
        created: None,
        author: None,
        container: empty_container(),
        history: Seq::empty(),
        umf_type,
        umf_spec: None,
    }
}

impl ImageConfig {
    /// A Linux image for the architecture that says nothing else.
    pub fn empty(architecture: &str, umf_type: L0Kind) -> (r: Self)
        ensures
            r@ == empty_config(architecture@, umf_type@),
    {
        let r = ImageConfig {
            architecture: String::from_str(architecture),
            os: String::from_str("linux"),
            created: None,
            author: None,
            container: ContainerConfig::default(),
            history: Vec::new(),
            umf_type,
            umf_spec: None,
        };
        assert(history_views(r.history@) =~= Seq::empty());
        r
    }

    /// A copy.
    pub fn copy(&self) -> (r: ImageConfig)
        ensures
            r@ == self@,
    {
        let c = &self.container;
        let container = ContainerConfig {
            env: copy_texts(&c.env),
            entrypoint: copy_opt_texts(&c.entrypoint),
            cmd: copy_opt_texts(&c.cmd),
            working_dir: c.working_dir.clone(),
            user: c.user.clone(),
            labels: c.labels.clone(),
            exposed_ports: copy_texts(&c.exposed_ports),
            volumes: copy_texts(&c.volumes),
            stop_signal: c.stop_signal.clone(),
        };
        let mut history: Vec<HistoryEntry> = Vec::new();
        let ghost all = history_views(self.history@);
        let mut i: usize = 0;
        assert(history_views(history@) =~= all.take(0));
        while i < self.history.len()
            invariant
                i <= self.history@.len(),
                all == history_views(self.history@),
                history_views(history@) == all.take(i as int),
            decreases self.history.len() - i,
        {
            let h = &self.history[i];
            let copy = HistoryEntry {
                created: h.created.clone(),
                created_by: h.created_by.clone(),
                author: h.author.clone(),
                comment: h.comment.clone(),
                empty_layer: h.empty_layer,
            };
            let ghost before = history@;
            history.push(copy);
            proof {
                assert(copy@ == h@);
                lemma_history_push(before, copy);
                assert(all.take(i as int + 1) =~= all.take(i as int).push(h@));
            }
            i += 1;
        }
        assert(all.take(i as int) =~= all);
        ImageConfig {
            architecture: self.architecture.clone(),
            os: self.os.clone(),
            created: self.created.clone(),
            author: self.author.clone(),
            container,
            history,
            umf_type: self.umf_type.copy(),
            umf_spec: self.umf_spec.clone(),
        }
    }
}

/// Appending an entry appends its model.
pub proof fn lemma_history_push(h: Seq<HistoryEntry>, e: HistoryEntry)
    ensures
        history_views(h.push(e)) == history_views(h).push(e@),
{
    assert(history_views(h.push(e)) =~= history_views(h).push(e@));
}

/// Appending a layer appends its model.
pub proof fn lemma_layers_push(l: Seq<LayerSource>, e: LayerSource)
    ensures
        layer_views(l.push(e)) == layer_views(l).push(e@),
{
    assert(layer_views(l.push(e)) =~= layer_views(l).push(e@));
}

/// A copy of the texts.
pub fn copy_texts(v: &Vec<String>) -> (r: Vec<String>)
    ensures
        r@ == v@,
{
    let r = v.clone();
    assert(r@ =~= v@);
    r
}

/// A copy of the texts, where there are any.
pub fn copy_opt_texts(v: &Option<Vec<String>>) -> (r: Option<Vec<String>>)
    ensures
        opt_texts(r) == opt_texts(*v),
{
    match v {
        Some(x) => Some(copy_texts(x)),
        None => None,
    }
}

} // verus!
