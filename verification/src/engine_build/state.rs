//! What a stage build carries from directive to directive.
use vstd::prelude::*;
use crate::arg_subst::{subst_with, substitute};
use crate::digest::{blob_digest, sha256_digest};
use crate::image::{
    layer_views, lemma_history_push, lemma_layers_push, ConfigView, HistoryEntry,
    HistoryView, ImageConfig, LayerCompression, LayerSource, LayerView,
};
use crate::l0::{KindView, L0Kind};
use crate::text::texts;
use crate::text_map::{text_values, TextMap};

verus! {

/// What a stage starts from.
#[derive(Debug)]
pub struct BaseImage {
    /// The layers, from the bottom up.
    pub layers: Vec<LayerSource>,
    /// The configuration that the stage inherits.
    pub config: ImageConfig,
}

/// The state of a stage build.
#[derive(Debug)]
pub struct BuildState {
    /// The configuration, inherited and then changed by directives.
    pub image_config: ImageConfig,
    /// The layers of the base image.
    pub base_layers: Vec<LayerSource>,
    /// The layers made so far, in build order.
    pub new_layers: Vec<LayerSource>,
    /// The directories that the new layers were packed from, as far as this
    /// build made them. A layer taken from the cache has none.
    pub uppers: Vec<String>,
    /// The shell for commands in shell form.
    pub current_shell: Vec<String>,
    /// Was a step taken from the cache? Its layer then has no directory, and a
    /// `RUN` after it would see an incomplete file system.
    pub adopted_from_cache: bool,
    /// How new layers are compressed.
    pub compression: LayerCompression,
    /// The values of the `ARG`s in scope.
    pub arg_scope: TextMap<String>,
}

/// The model of a [`BuildState`].
#[verifier::ext_equal]
pub struct StateView {
    /// The configuration.
    pub config: ConfigView,
    /// The layers of the base image.
    pub base_layers: Seq<LayerView>,
    /// The layers made so far.
    pub new_layers: Seq<LayerView>,
    /// The directories that the new layers were packed from.
    pub uppers: Seq<Seq<char>>,
    /// The shell for commands in shell form.
    pub shell: Seq<Seq<char>>,
    /// Was a step taken from the cache?
    pub adopted: bool,
    /// How new layers are compressed.
    pub compression: LayerCompression,
    /// The values of the `ARG`s in scope.
    pub scope: Map<Seq<char>, Seq<char>>,
}

impl View for BuildState {
    type V = StateView;

    open spec fn view(&self) -> StateView {
        StateView {
            config: self.image_config@,
            base_layers: layer_views(self.base_layers@),
            new_layers: layer_views(self.new_layers@),
            uppers: texts(self.uppers@),
            shell: texts(self.current_shell@),
            adopted: self.adopted_from_cache,
            compression: self.compression,
            scope: text_values(self.arg_scope@),
        }
    }
}

/// The shell that a stage starts with.
pub open spec fn default_shell() -> Seq<Seq<char>> {
    seq!["/bin/sh"@, "-c"@]
}

/// The state in which a stage starts.
pub open spec fn initial_state(
    config: ConfigView,
    layers: Seq<LayerView>,
    compression: LayerCompression,
    globals: Map<Seq<char>, Seq<char>>,
) -> StateView {
    StateView {
        config: ConfigView { umf_type: KindView::Container, ..config },
        base_layers: layers,
        new_layers: Seq::empty(),
        uppers: Seq::empty(),
        shell: default_shell(),
        adopted: false,
        compression,
        scope: globals,
    }
}

/// The history entry of a step taken at `now`.
pub open spec fn step_entry(line: Seq<char>, now: Seq<char>, empty_layer: bool) -> HistoryView {
    HistoryView {
        created: Some(now),
        created_by: Some(line),
        author: Some("umf-engine"@),
        comment: None,
        empty_layer,
    }
}

impl StateView {
    /// `text` with the references to `ARG`s in scope replaced.
    pub open spec fn subst(self, text: Seq<char>) -> Seq<char> {
        substitute(text, self.scope)
    }

    /// The state with one more step in its history.
    pub open spec fn logged(self, line: Seq<char>, now: Seq<char>, empty_layer: bool) -> StateView {
        StateView {
            config: ConfigView {
                history: self.config.history.push(step_entry(line, now, empty_layer)),
                ..self.config
            },
            ..self
        }
    }

    /// The state after a step that made the layer from the directory `upper`.
    pub open spec fn with_layer(
        self,
        layer: LayerView,
        upper: Seq<char>,
        line: Seq<char>,
        now: Seq<char>,
    ) -> StateView {
        StateView {
            new_layers: self.new_layers.push(layer),
            uppers: self.uppers.push(upper),
            ..self.logged(line, now, false)
        }
    }

    /// The state after a step whose layer was taken from the cache.
    pub open spec fn with_cached(self, layer: LayerView, line: Seq<char>, now: Seq<char>) -> StateView {
        StateView {
            new_layers: self.new_layers.push(layer),
            adopted: true,
            ..self.logged(line, now, false)
        }
    }
}

/// A step in the cache.
#[derive(Debug)]
pub struct CachedStep {
    /// The digest of the layer's bytes.
    pub blob_digest: String,
    /// The digest of its bytes before compression.
    pub diff_id: String,
    /// Its media type.
    pub media_type: String,
    /// The step's line in the history.
    pub history_line: String,
}

/// The model of a [`CachedStep`].
#[verifier::ext_equal]
pub struct CachedView {
    /// The digest of the layer's bytes.
    pub blob_digest: Seq<char>,
    /// The digest of its bytes before compression.
    pub diff_id: Seq<char>,
    /// Its media type.
    pub media_type: Seq<char>,
    /// The step's line in the history.
    pub history_line: Seq<char>,
}

impl View for CachedStep {
    type V = CachedView;

    open spec fn view(&self) -> CachedView {
        CachedView {
            blob_digest: self.blob_digest@,
            diff_id: self.diff_id@,
            media_type: self.media_type@,
            history_line: self.history_line@,
        }
    }
}

/// The step that goes into the cache for a layer.
pub open spec fn cached_step(layer: LayerView, line: Seq<char>) -> CachedView {
    CachedView {
        blob_digest: blob_digest(layer.data),
        diff_id: layer.diff_id,
        media_type: layer.media_type,
        history_line: line,
    }
}

/// The layer of a cached step whose bytes are `data`.
pub open spec fn restored_layer(step: CachedView, data: Seq<u8>) -> LayerView {
    LayerView { data, media_type: step.media_type, diff_id: step.diff_id }
}

impl BuildState {
    /// The state in which a stage starts: from the base image, with the
    /// build-global scope.
    pub fn new(
        base: BaseImage,
        compression: LayerCompression,
        globals: &TextMap<String>,
    ) -> (r: Self)
        ensures
            r@ == initial_state(
                base.config@,
                layer_views(base.layers@),
                compression,
                text_values(globals@),
            ),
    {
        let mut image_config = base.config;
        image_config.umf_type = L0Kind::Container;
        let r = BuildState {
            image_config,
            base_layers: base.layers,
            new_layers: Vec::new(),
            uppers: Vec::new(),
            current_shell: default_shell_argv(),
            adopted_from_cache: false,
            compression,
            arg_scope: globals.clone(),
        };
        assert(layer_views(r.new_layers@) =~= Seq::empty());
        assert(texts(r.uppers@) =~= Seq::empty());
        r
    }

    /// Expands the references to `ARG`s in scope.
    pub fn subst(&self, text: &str) -> (r: String)
        ensures
            r@ == self@.subst(text@),
    {
        subst_with(&self.arg_scope, text)
    }

    /// The lower directories of the next overlay, from the top down: the
    /// directories of this build, the newest first, then those of the base
    /// image.
    pub fn lower_stack(&self, base_lowers: &Vec<String>) -> (r: Vec<String>)
        ensures
            texts(r@) == self@.uppers.reverse() + texts(base_lowers@),
    {
        let mut out: Vec<String> = Vec::new();
        let ghost all = self@.uppers;
        let n: usize = self.uppers.len();
        let mut i: usize = 0;
        assert(texts(out@) =~= all.reverse().take(0));
        while i < n
            invariant
                i <= n,
                n == self.uppers@.len(),
                all == texts(self.uppers@),
                texts(out@) == all.reverse().take(i as int),
            decreases n - i,
        {
            proof {
                crate::text::lemma_texts_push(out@, self.uppers@[n - 1 - i]);
                assert(all.reverse().take(i as int + 1) =~= all.reverse().take(i as int).push(
                    all[n - 1 - i],
                ));
            }
            out.push(self.uppers[n - 1 - i].clone());
            i += 1;
        }
        assert(all.reverse().take(i as int) =~= all.reverse());
        let ghost base = texts(base_lowers@);
        let mut k: usize = 0;
        assert(texts(out@) =~= all.reverse() + base.take(0));
        while k < base_lowers.len()
            invariant
                k <= base_lowers@.len(),
                base == texts(base_lowers@),
                texts(out@) == all.reverse() + base.take(k as int),
            decreases base_lowers.len() - k,
        {
            proof {
                crate::text::lemma_texts_push(out@, base_lowers@[k as int]);
                assert((all.reverse() + base.take(k as int)).push(base[k as int]) =~= all.reverse()
                    + base.take(k as int + 1));
            }
            out.push(base_lowers[k].clone());
            k += 1;
        }
        assert(base.take(k as int) =~= base);
        out
    }

    /// The configuration of the image.
    pub fn finalise_image_config(&self) -> (r: ImageConfig)
        ensures
            r@ == self@.config,
    {
        self.image_config.copy()
    }

    /// The layers of the image: those of the base, then those of this build.
    pub fn assemble_layer_chain(&self) -> (r: Vec<LayerSource>)
        ensures
            layer_views(r@) == self@.base_layers + self@.new_layers,
    {
        let mut out: Vec<LayerSource> = Vec::new();
        assert(layer_views(out@) =~= Seq::empty());
        append_layers(&mut out, &self.base_layers);
        append_layers(&mut out, &self.new_layers);
        assert(layer_views(out@) =~= self@.base_layers + self@.new_layers);
        out
    }

    /// Takes in a layer that this build packed from the directory `upper`, and
    /// logs the step.
    pub fn push_new_layer(
        &mut self,
        layer: LayerSource,
        upper: String,
        history_line: String,
        now: String,
    )
        ensures
            final(self)@ == old(self)@.with_layer(layer@, upper@, history_line@, now@),
    {
        proof {
            lemma_layers_push(self.new_layers@, layer);
            crate::text::lemma_texts_push(self.uppers@, upper);
        }
        self.new_layers.push(layer);
        self.uppers.push(upper);
        self.log(history_line, now, false);
        assert(self@ =~= old(self)@.with_layer(layer@, upper@, history_line@, now@));
    }

    /// Takes in a layer from the cache, and logs the step. The layer has no
    /// directory, so the state is marked.
    pub fn adopt_cached_layer(&mut self, layer: LayerSource, history_line: String, now: String)
        ensures
            final(self)@ == old(self)@.with_cached(layer@, history_line@, now@),
    {
        proof {
            lemma_layers_push(self.new_layers@, layer);
        }
        self.adopted_from_cache = true;
        self.new_layers.push(layer);
        self.log(history_line, now, false);
        assert(self@ =~= old(self)@.with_cached(layer@, history_line@, now@));
    }

    /// Logs a step that left no layer.
    pub fn push_metadata_history(&mut self, history_line: String, now: String)
        ensures
            final(self)@ == old(self)@.logged(history_line@, now@, true),
            final(self).arg_scope == old(self).arg_scope,
            final(self).current_shell == old(self).current_shell,
    {
        self.log(history_line, now, true);
    }

    fn log(&mut self, history_line: String, now: String, empty_layer: bool)
        ensures
            final(self)@ == old(self)@.logged(history_line@, now@, empty_layer),
            final(self).arg_scope == old(self).arg_scope,
            final(self).current_shell == old(self).current_shell,
    {
        let entry = HistoryEntry {
            created: Some(now),
            created_by: Some(history_line),
            author: Some(String::from_str("umf-engine")),
            comment: None,
            empty_layer,
        };
        proof {
            lemma_history_push(self.image_config.history@, entry);
            assert(entry@ == step_entry(history_line@, now@, empty_layer));
        }
        self.image_config.history.push(entry);
        assert(self@ =~= old(self)@.logged(history_line@, now@, empty_layer));
    }
}

fn append_layers(out: &mut Vec<LayerSource>, layers: &Vec<LayerSource>)
    ensures
        layer_views(final(out)@) == layer_views(old(out)@) + layer_views(layers@),
{
    let ghost before = layer_views(out@);
    let ghost all = layer_views(layers@);
    let mut i: usize = 0;
    assert(layer_views(out@) =~= before + all.take(0));
    while i < layers.len()
        invariant
            i <= layers@.len(),
            all == layer_views(layers@),
            layer_views(out@) == before + all.take(i as int),
        decreases layers.len() - i,
    {
        let copy = layers[i].copy();
        proof {
            lemma_layers_push(out@, copy);
            assert((before + all.take(i as int)).push(copy@) =~= before + all.take(i as int + 1));
        }
        out.push(copy);
        i += 1;
    }
    assert(all.take(i as int) =~= all);
}

/// The shell that a stage starts with.
pub fn default_shell_argv() -> (r: Vec<String>)
    ensures
        texts(r@) == default_shell(),
{
    let mut r: Vec<String> = Vec::new();
    r.push(String::from_str("/bin/sh"));
    r.push(String::from_str("-c"));
    assert(texts(r@) =~= default_shell());
    r
}

/// The step that goes into the cache for a new layer.
pub fn store_layer_cache(layer: &LayerSource, history_line: String) -> (r: CachedStep)
    ensures
        r@ == cached_step(layer@, history_line@),
{
    CachedStep {
        blob_digest: sha256_digest(layer.data.as_slice()),
        diff_id: layer.diff_id.clone(),
        media_type: layer.media_type.clone(),
        history_line,
    }
}

/// The layer of a cached step, where its bytes are still there.
pub fn layer_from_cache(entry: &CachedStep, blob: Option<Vec<u8>>) -> (r: Option<LayerSource>)
    ensures
        match blob {
            Some(data) => r matches Some(l) && l@ == restored_layer(entry@, data@),
            None => r is None,
        },
{
    match blob {
        Some(data) => Some(
            LayerSource {
                data,
                media_type: entry.media_type.clone(),
                diff_id: entry.diff_id.clone(),
            },
        ),
        None => None,
    }
}

/// What the cache gives back of a layer is the layer that was stored, and it is
/// found by the digest of its bytes.
pub proof fn lemma_cache_round_trip(layer: LayerView, line: Seq<char>)
    ensures
        restored_layer(cached_step(layer, line), layer.data) == layer,
        cached_step(layer, line).blob_digest == blob_digest(layer.data),
        cached_step(layer, line).history_line == line,
{
}

} // verus!
