//! Finding the layers of an image that a bootable build uses: an explicit file,
//! the local layout, then a registry.
use vstd::prelude::*;
use crate::architecture::Architecture;
use crate::engine_build::base_image::{
    canonical_forms, keep_reference, read_all, reference_forms, ManifestPlace,
};
use crate::manifest::{ImageManifest, ImageView, Manifest, ManifestView};
use crate::platform::{select_for_arch, selected};
use crate::reference::{read_reference, reference_of, ImageReference};
use crate::text::{concat2, concat3, join, joined, lemma_texts_push, texts};

pub mod add;
pub mod from_kernel;

pub use crate::resolver::add::{resolve_add, AddArtifact, AddProvenance, AddResolveError};
pub use crate::resolver::from_kernel::{
    resolve_from_kernel, FromKernelArtifact, FromKernelProvenance, FromKernelResolveError,
};

verus! {

/// Where layers were found.
#[derive(Debug)]
pub enum Provenance {
    /// In a file that the caller named.
    Override(String),
    /// In a registry.
    Registry(String),
    /// In the local layout.
    Cache(String),
}

/// Why layers were not found.
#[derive(Debug)]
pub enum ResolveFailure {
    /// The file that the caller named is not there.
    OverrideMissing {
        /// What to say.
        message: String,
    },
    /// They are nowhere.
    NotFound {
        /// The places that were tried, in order.
        tried: String,
    },
    /// The text is no image reference.
    MalformedRef {
        /// The text.
        ref_name: String,
        /// Why.
        detail: String,
    },
    /// The image cannot be used.
    MalformedArtifact {
        /// The image.
        ref_name: String,
        /// Why.
        detail: String,
    },
}

/// Takes the file that the caller named.
pub fn take_override(label: &str, path: &str, is_file: bool) -> (r: Result<String, ResolveFailure>)
    ensures
        match r {
            Ok(p) => is_file && p@ == path@,
            Err(e) => !is_file && (e matches ResolveFailure::OverrideMissing { message } && message@
                == label@ + " override path "@ + path@ + " not found"@),
        },
{
    if is_file {
        Ok(String::from_str(path))
    } else {
        let head = concat3(label, " override path ", path);
        Err(ResolveFailure::OverrideMissing { message: concat2(head.as_str(), " not found") })
    }
}

/// The reference to look for: what the caller named, else what the recipe has.
pub open spec fn wanted_ref(reference: Seq<char>, registry_ref: Option<&str>) -> Seq<char> {
    match registry_ref {
        Some(r) => r@,
        None => reference,
    }
}

/// The reference to look for.
pub fn pull_ref(reference: &str, registry_ref: Option<&str>) -> (r: String)
    ensures
        r@ == wanted_ref(reference@, registry_ref),
{
    match registry_ref {
        Some(r) => String::from_str(r),
        None => String::from_str(reference),
    }
}

/// One place to look in.
#[derive(Debug)]
pub enum Attempt {
    /// The local layout.
    Cache {
        /// The reference in canonical form.
        canonical: String,
    },
    /// A registry.
    Registry {
        /// The registry.
        registry: String,
        /// The reference in canonical form.
        canonical: String,
    },
}

/// The model of an [`Attempt`].
#[verifier::ext_equal]
pub enum AttemptView {
    /// The local layout.
    Cache(Seq<char>),
    /// A registry.
    Registry(Seq<char>, Seq<char>),
}

impl View for Attempt {
    type V = AttemptView;

    open spec fn view(&self) -> AttemptView {
        match *self {
            Attempt::Cache { canonical } => AttemptView::Cache(canonical@),
            Attempt::Registry { registry, canonical } => AttemptView::Registry(
                registry@,
                canonical@,
            ),
        }
    }
}

/// The models of attempts.
pub open spec fn attempt_views(a: Seq<Attempt>) -> Seq<AttemptView> {
    Seq::new(a.len(), |i: int| a[i]@)
}

/// The places to look in, in order: for each reference the local layout, then,
/// where registries can be asked, its registry.
pub open spec fn attempts(forms: Seq<(Seq<char>, Seq<char>)>, has_client: bool) -> Seq<AttemptView>
    decreases forms.len(),
{
    if forms.len() == 0 {
        Seq::empty()
    } else {
        let before = attempts(forms.drop_last(), has_client).push(
            AttemptView::Cache(forms.last().1),
        );
        if has_client {
            before.push(AttemptView::Registry(forms.last().0, forms.last().1))
        } else {
            before
        }
    }
}

/// The places in words.
pub open spec fn tried(forms: Seq<(Seq<char>, Seq<char>)>, has_client: bool) -> Seq<Seq<char>>
    decreases forms.len(),
{
    if forms.len() == 0 {
        Seq::empty()
    } else {
        let canonical = forms.last().1;
        tried(forms.drop_last(), has_client).push("cache "@ + canonical).push(
            if has_client {
                "registry "@ + canonical
            } else {
                "registry "@ + canonical + " (skipped — no client)"@
            },
        )
    }
}

/// Where to look for an image.
#[derive(Debug)]
pub struct ResolvePlan {
    /// The places, in order.
    pub attempts: Vec<Attempt>,
    /// The places in words, for where the image is in none of them.
    pub tried: String,
}

/// Is it the plan for these references?
pub open spec fn is_plan(p: ResolvePlan, forms: Seq<(Seq<char>, Seq<char>)>, has_client: bool) -> bool {
    &&& attempt_views(p.attempts@) == attempts(forms, has_client)
    &&& p.tried@ == join(tried(forms, has_client), ", "@)
}

proof fn lemma_attempts_push(a: Seq<Attempt>, x: Attempt)
    ensures
        attempt_views(a.push(x)) == attempt_views(a).push(x@),
{
    assert(attempt_views(a.push(x)) =~= attempt_views(a).push(x@));
}

/// Plans where to look for the image with one of these references.
pub fn plan_attempts(refs: &Vec<ImageReference>, has_client: bool) -> (r: ResolvePlan)
    ensures
        is_plan(r, reference_forms(refs@), has_client),
{
    let ghost forms = reference_forms(refs@);
    let mut list: Vec<Attempt> = Vec::new();
    let mut words: Vec<String> = Vec::new();
    let mut i: usize = 0;
    proof {
        assert(forms.take(0) =~= Seq::empty());
        assert(attempt_views(list@) =~= Seq::empty());
        assert(texts(words@) =~= Seq::empty());
    }
    while i < refs.len()
        invariant
            i <= refs@.len(),
            forms == reference_forms(refs@),
            attempt_views(list@) == attempts(forms.take(i as int), has_client),
            texts(words@) == tried(forms.take(i as int), has_client),
        decreases refs.len() - i,
    {
        let canonical = &refs[i].whole;
        let cache = Attempt::Cache { canonical: canonical.clone() };
        let first = concat2("cache ", canonical.as_str());
        proof {
            assert(forms.take(i as int + 1).drop_last() =~= forms.take(i as int));
            assert(forms.take(i as int + 1).last() == forms[i as int]);
            lemma_attempts_push(list@, cache);
            lemma_texts_push(words@, first);
        }
        list.push(cache);
        words.push(first);
        let second = if has_client {
            let registry = Attempt::Registry {
                registry: refs[i].registry.clone(),
                canonical: canonical.clone(),
            };
            proof {
                lemma_attempts_push(list@, registry);
            }
            list.push(registry);
            concat2("registry ", canonical.as_str())
        } else {
            concat3("registry ", canonical.as_str(), " (skipped — no client)")
        };
        proof {
            lemma_texts_push(words@, second);
        }
        words.push(second);
        i += 1;
    }
    assert(forms.take(i as int) =~= forms);
    ResolvePlan { attempts: list, tried: joined(&words, ", ") }
}

/// Plans where to look for the image `wanted`. The candidates are what it can
/// stand for in the registries to search; those that are no references are
/// passed over. What is looked for must itself be a reference.
pub fn resolve_layers(wanted: &str, candidates: &Vec<String>, has_client: bool) -> (r: Result<
    ResolvePlan,
    ResolveFailure,
>)
    ensures
        match (r, reference_of(wanted@)) {
            (Ok(p), Ok(_)) => is_plan(
                p,
                canonical_forms(read_all(texts(candidates@))),
                has_client,
            ),
            (Err(e), Err(why)) => e matches ResolveFailure::MalformedRef { ref_name, detail }
                && ref_name@ == wanted@ && detail@ == why,
            _ => false,
        },
{
    if let Err(why) = read_reference(wanted) {
        return Err(
            ResolveFailure::MalformedRef { ref_name: String::from_str(wanted), detail: why },
        );
    }
    let ghost all = read_all(texts(candidates@));
    let mut refs: Vec<ImageReference> = Vec::new();
    let mut i: usize = 0;
    proof {
        assert(all.take(0) =~= Seq::empty());
        assert(reference_forms(refs@) =~= Seq::empty());
    }
    while i < candidates.len()
        invariant
            i <= candidates@.len(),
            all == read_all(texts(candidates@)),
            reference_forms(refs@) == canonical_forms(all.take(i as int)),
        decreases candidates.len() - i,
    {
        proof {
            assert(all.take(i as int + 1).drop_last() =~= all.take(i as int));
            assert(all.take(i as int + 1).last() == all[i as int]);
        }
        let parsed = read_reference(candidates[i].as_str());
        keep_reference(&mut refs, parsed);
        i += 1;
    }
    assert(all.take(i as int) =~= all);
    Ok(plan_attempts(&refs, has_client))
}

/// The layout is asked before any registry: an image is pulled only where the
/// layout was just asked for it, and never without a client.
pub proof fn lemma_cache_first(forms: Seq<(Seq<char>, Seq<char>)>, has_client: bool, k: int)
    requires
        0 <= k < attempts(forms, has_client).len(),
        attempts(forms, has_client)[k] is Registry,
    ensures
        has_client,
        k > 0,
        attempts(forms, has_client)[k - 1] == AttemptView::Cache(
            attempts(forms, has_client)[k]->Registry_1,
        ),
    decreases forms.len(),
{
    let before = attempts(forms.drop_last(), has_client);
    if k < before.len() {
        assert(attempts(forms, has_client)[k] == before[k]);
        lemma_cache_first(forms.drop_last(), has_client, k);
        assert(attempts(forms, has_client)[k - 1] == before[k - 1]);
    }
}

/// The search for an image, one place after another. The first place that has it
/// ends the search.
#[derive(Debug)]
pub struct ResolveWalk {
    /// Where to look.
    pub plan: ResolvePlan,
    /// How many places did not have it.
    pub at: usize,
}

/// Is it what layers from that place are marked with?
pub open spec fn is_from(p: Provenance, a: AttemptView) -> bool {
    match a {
        AttemptView::Cache(canonical) => p matches Provenance::Cache(x) && x@ == canonical,
        AttemptView::Registry(_, canonical) => p matches Provenance::Registry(x) && x@ == canonical,
    }
}

impl ResolveWalk {
    /// The search before its first place.
    pub fn start(plan: ResolvePlan) -> (r: Self)
        ensures
            r.plan == plan,
            r.at == 0,
    {
        ResolveWalk { plan, at: 0 }
    }

    /// The place to look in next; none where all were tried.
    pub fn next(&self) -> (r: Option<&Attempt>)
        ensures
            match r {
                Some(a) => self.at < self.plan.attempts@.len() && *a
                    == self.plan.attempts@[self.at as int],
                None => self.at >= self.plan.attempts@.len(),
            },
    {
        if self.at < self.plan.attempts.len() {
            Some(&self.plan.attempts[self.at])
        } else {
            None
        }
    }

    /// The place did not have the image, or not one that can be used.
    pub fn on_missed(&mut self)
        requires
            old(self).at < old(self).plan.attempts@.len(),
        ensures
            final(self).plan == old(self).plan,
            final(self).at == old(self).at + 1,
    {
        assert(self.plan.attempts@.len() == self.plan.attempts.len());
        self.at = self.at + 1;
    }

    /// The place had the image: its layers, and where they come from.
    pub fn on_found(self, layers: Vec<String>) -> (r: (Vec<String>, Provenance))
        requires
            self.at < self.plan.attempts@.len(),
        ensures
            r.0 == layers,
            is_from(r.1, self.plan.attempts@[self.at as int]@),
    {
        let provenance = match &self.plan.attempts[self.at] {
            Attempt::Cache { canonical } => Provenance::Cache(canonical.clone()),
            Attempt::Registry { canonical, .. } => Provenance::Registry(canonical.clone()),
        };
        (layers, provenance)
    }

    /// The failure where no place had the image.
    pub fn not_found(self) -> (r: ResolveFailure)
        requires
            self.at >= self.plan.attempts@.len(),
        ensures
            r == (ResolveFailure::NotFound { tried: self.plan.tried }),
    {
        ResolveFailure::NotFound { tried: self.plan.tried }
    }
}

/// The failure where an image cannot be used.
pub fn malformed(ref_name: &str, detail: &str) -> (r: ResolveFailure)
    ensures
        r matches ResolveFailure::MalformedArtifact { ref_name: x, detail: d } && x@ == ref_name@
            && d@ == detail@,
{
    ResolveFailure::MalformedArtifact {
        ref_name: String::from_str(ref_name),
        detail: String::from_str(detail),
    }
}

/// Does the failure say that the image cannot be used, and why?
pub open spec fn is_malformed(e: ResolveFailure, name: Seq<char>, why: Seq<char>) -> bool {
    e matches ResolveFailure::MalformedArtifact { ref_name, detail } && ref_name@ == name && detail@
        == why
}

/// Picks the manifest for the architecture.
pub fn read_image_manifest(ref_name: &str, manifest: Manifest, architecture: Architecture) -> (r:
    Result<ManifestPlace, ResolveFailure>)
    ensures
        match manifest@ {
            ManifestView::Image(m) => r matches Ok(ManifestPlace::Here(x)) && x@ == m,
            ManifestView::Index(index) => match selected(index, architecture) {
                Some(i) => r matches Ok(ManifestPlace::Blob(digest)) && digest@ == index[i].digest,
                None => r matches Err(e) && is_malformed(
                    e,
                    ref_name@,
                    "image index has no linux/"@ + architecture.oci_name() + " manifest"@,
                ),
            },
        },
{
    match manifest {
        Manifest::Image(m) => Ok(ManifestPlace::Here(m)),
        Manifest::Index(index) => match select_for_arch(&index, architecture) {
            Some(entry) => Ok(ManifestPlace::Blob(entry.digest.clone())),
            None => {
                let detail = concat3(
                    "image index has no linux/",
                    architecture.oci_arch_string(),
                    " manifest",
                );
                Err(malformed(ref_name, detail.as_str()))
            },
        },
    }
}

/// The digests of the layers, from the bottom up.
pub open spec fn layer_digests(m: ImageView) -> Seq<Seq<char>> {
    Seq::new(m.layers.len(), |i: int| m.layers[i].digest)
}

/// The digests of the layers of an image, in the order in which they are
/// unpacked. An image without layers cannot be used.
pub fn read_layer_paths(ref_name: &str, manifest: &ImageManifest) -> (r: Result<
    Vec<String>,
    ResolveFailure,
>)
    ensures
        match r {
            Ok(v) => manifest@.layers.len() > 0 && texts(v@) == layer_digests(manifest@),
            Err(e) => manifest@.layers.len() == 0 && is_malformed(
                e,
                ref_name@,
                "no layers in manifest"@,
            ),
        },
{
    if manifest.layers.len() == 0 {
        return Err(malformed(ref_name, "no layers in manifest"));
    }
    let ghost all = layer_digests(manifest@);
    let mut out: Vec<String> = Vec::new();
    let mut i: usize = 0;
    assert(texts(out@) =~= all.take(0));
    while i < manifest.layers.len()
        invariant
            i <= manifest.layers@.len(),
            all == layer_digests(manifest@),
            texts(out@) == all.take(i as int),
        decreases manifest.layers.len() - i,
    {
        let digest = manifest.layers[i].digest.clone();
        proof {
            lemma_texts_push(out@, digest);
            assert(manifest@.layers[i as int] == manifest.layers@[i as int]@);
            assert(all.take(i as int + 1) =~= all.take(i as int).push(digest@));
        }
        out.push(digest);
        i += 1;
    }
    assert(all.take(i as int) =~= all);
    Ok(out)
}

} // verus!
