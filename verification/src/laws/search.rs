//! Where an image or a kernel is looked for, in which order, and what is made of
//! what was found.
use vstd::prelude::*;
use crate::architecture::Architecture;
use crate::engine_build::base_image::{
    canonical_forms, pull_candidates, read_all, reference_forms, ManifestPlace,
};
use crate::introspect::{
    find_entry, infer_kind, introspect_image, single_image, L0Profile, RegistryError,
};
use crate::l0::{L0Kind, Payload};
use crate::laws::aid::{lemma_occurs, lemma_occurs_within};
use crate::manifest::{ImageIndex, ImageManifest, IndexEntry, Manifest};
use crate::platform::select_for_arch;
use crate::reference::{read_reference, ImageReference};
use crate::resolver::add::{
    add_artifact, add_error, resolve_add, AddArtifact, AddProvenance, AddResolution,
    AddResolveError,
};
use crate::resolver::from_kernel::{
    check_kernel, from_kernel_artifact, resolve_from_kernel, FromKernelArtifact,
    FromKernelProvenance, FromKernelResolution, FromKernelResolveError,
};
use crate::resolver::{
    attempt_views, attempts, plan_attempts, read_image_manifest, read_layer_paths, tried, Attempt,
    AttemptView, Provenance, ResolveFailure, ResolvePlan, ResolveWalk,
};
use crate::text::{contains_text, join, texts};
use crate::text_map::TextMap;

verus! {

proof fn lemma_attempts_at(forms: Seq<(Seq<char>, Seq<char>)>, i: int)
    ensures
        attempts(forms, true).len() == 2 * forms.len(),
        attempts(forms, false).len() == forms.len(),
        0 <= i < forms.len() ==> attempts(forms, true)[2 * i] == AttemptView::Cache(forms[i].1),
        0 <= i < forms.len() ==> attempts(forms, true)[2 * i + 1] == AttemptView::Registry(
            forms[i].0,
            forms[i].1,
        ),
        0 <= i < forms.len() ==> attempts(forms, false)[i] == AttemptView::Cache(forms[i].1),
    decreases forms.len(),
{
    if forms.len() > 0 {
        lemma_attempts_at(forms.drop_last(), i);
    }
}

proof fn lemma_tried_at(forms: Seq<(Seq<char>, Seq<char>)>, has_client: bool, i: int)
    ensures
        tried(forms, has_client).len() == 2 * forms.len(),
        0 <= i < forms.len() ==> tried(forms, has_client)[2 * i] == "cache "@ + forms[i].1,
        0 <= i < forms.len() && has_client ==> tried(forms, has_client)[2 * i + 1] == "registry "@
            + forms[i].1,
    decreases forms.len(),
{
    if forms.len() > 0 {
        lemma_tried_at(forms.drop_last(), has_client, i);
    }
}

/// What is joined holds each of its parts.
pub proof fn lemma_join_occurs(parts: Seq<Seq<char>>, sep: Seq<char>, i: int)
    requires
        0 <= i < parts.len(),
    ensures
        contains_text(join(parts, sep), parts[i]),
    decreases parts.len(),
{
    let e = Seq::<char>::empty();
    if parts.len() == 1 {
        lemma_occurs(e, parts[0], e);
        assert(e + parts[0] + e =~= parts[0]);
    } else if i == parts.len() - 1 {
        let before = join(parts.drop_last(), sep) + sep;
        lemma_occurs(before, parts.last(), e);
        assert(before + parts.last() + e =~= join(parts, sep));
    } else {
        let front = parts.drop_last();
        lemma_join_occurs(front, sep, i);
        assert(front[i] == parts[i]);
        let after = sep + parts.last();
        lemma_occurs_within(e, join(front, sep), after, parts[i]);
        assert(e + join(front, sep) + after =~= join(parts, sep));
    }
}

/// Each reference is looked for in the cache first and then, where there is a
/// client, in its registry, before the next reference is tried. Each place that is
/// tried is told.
pub proof fn lemma_cache_first(
    refs: &Vec<ImageReference>,
    with: ResolvePlan,
    without: ResolvePlan,
    i: int,
)
    requires
        call_ensures(plan_attempts, (refs, true), with),
        call_ensures(plan_attempts, (refs, false), without),
        0 <= i < refs@.len(),
    ensures
        with.attempts@.len() == 2 * refs@.len(),
        without.attempts@.len() == refs@.len(),
        with.attempts@[2 * i] matches Attempt::Cache { canonical } && canonical@ == refs@[i].whole@,
        with.attempts@[2 * i + 1] matches Attempt::Registry { registry, canonical } && registry@
            == refs@[i].registry@ && canonical@ == refs@[i].whole@,
        without.attempts@[i] matches Attempt::Cache { canonical } && canonical@ == refs@[i].whole@,
        contains_text(with.tried@, "cache "@ + refs@[i].whole@),
        contains_text(with.tried@, "registry "@ + refs@[i].whole@),
        contains_text(without.tried@, "cache "@ + refs@[i].whole@),
{
    let forms = reference_forms(refs@);
    lemma_attempts_at(forms, i);
    assert(attempt_views(with.attempts@).len() == with.attempts@.len());
    assert(attempt_views(without.attempts@).len() == without.attempts@.len());
    assert(attempt_views(with.attempts@)[2 * i] == with.attempts@[2 * i]@);
    assert(attempt_views(with.attempts@)[2 * i + 1] == with.attempts@[2 * i + 1]@);
    assert(attempt_views(without.attempts@)[i] == without.attempts@[i]@);
    lemma_tried_at(forms, true, i);
    lemma_tried_at(forms, false, i);
    lemma_join_occurs(tried(forms, true), ", "@, 2 * i);
    lemma_join_occurs(tried(forms, true), ", "@, 2 * i + 1);
    lemma_join_occurs(tried(forms, false), ", "@, 2 * i);
}

proof fn lemma_forms(parsed: Seq<Result<(Seq<char>, Seq<char>), Seq<char>>>, i: int)
    requires
        0 <= i < parsed.len(),
    ensures
        parsed[i] is Ok ==> canonical_forms(parsed).contains(parsed[i]->Ok_0),
        (forall|k: int| 0 <= k < parsed.len() ==> (#[trigger] parsed[k]) is Ok) ==> canonical_forms(
            parsed,
        ).len() == parsed.len() && canonical_forms(parsed)[i] == parsed[i]->Ok_0,
    decreases parsed.len(),
{
    let front = parsed.drop_last();
    if forall|k: int| 0 <= k < parsed.len() ==> (#[trigger] parsed[k]) is Ok {
        assert forall|k: int| 0 <= k < front.len() implies (#[trigger] front[k]) is Ok by {
            assert(front[k] == parsed[k]);
        }
        assert(parsed[parsed.len() - 1] is Ok);
        if front.len() > 0 {
            lemma_forms(front, 0);
        }
    }
    if i < parsed.len() - 1 {
        lemma_forms(front, i);
        assert(front[i] == parsed[i]);
        if parsed[i] is Ok {
            let x = parsed[i]->Ok_0;
            let k = canonical_forms(front).index_of(x);
            assert(canonical_forms(front)[k] == x);
            assert(canonical_forms(parsed)[k] == x);
        }
    } else if parsed[i] is Ok {
        assert(canonical_forms(parsed)[canonical_forms(parsed).len() - 1] == parsed[i]->Ok_0);
    }
}

/// Every candidate that is a reference is tried, in the order of the candidates.
pub proof fn lemma_candidates(
    name: &str,
    candidates: &Vec<String>,
    refs: Vec<ImageReference>,
    i: int,
    c: &str,
    x: ImageReference,
)
    requires
        call_ensures(pull_candidates, (name, candidates), Ok(refs)),
        0 <= i < candidates@.len(),
        c@ == candidates@[i]@,
        call_ensures(read_reference, (c,), Ok(x)),
    ensures
        exists|k: int|
            0 <= k < refs@.len() && (#[trigger] refs@[k]).whole@ == x.whole@ && refs@[k].registry@
                == x.registry@,
        (forall|k: int|
            0 <= k < candidates@.len() ==> crate::reference::reference_of(
                (#[trigger] candidates@[k])@,
            ) is Ok) ==> refs@.len() == candidates@.len() && refs@[i].whole@ == x.whole@
            && refs@[i].registry@ == x.registry@,
{
    let parsed = read_all(texts(candidates@));
    let forms = reference_forms(refs@);
    lemma_forms(parsed, i);
    assert(parsed[i] == Ok::<(Seq<char>, Seq<char>), Seq<char>>((x.registry@, x.whole@)));
    let k = forms.index_of((x.registry@, x.whole@));
    assert(forms[k] == (x.registry@, x.whole@));
    assert(refs@[k].whole@ == x.whole@);
    if forall|k: int|
        0 <= k < candidates@.len() ==> crate::reference::reference_of(
            (#[trigger] candidates@[k])@,
        ) is Ok {
        assert forall|k: int| 0 <= k < parsed.len() implies (#[trigger] parsed[k]) is Ok by {
            assert(crate::reference::reference_of(candidates@[k]@) is Ok);
        }
        assert(forms.len() == refs@.len());
        assert(forms[i] == (refs@[i].registry@, refs@[i].whole@));
    }
}

/// What a recipe names is a reference, or the build is refused with what it names.
pub proof fn lemma_named_reference(
    name: &str,
    candidates: &Vec<String>,
    r: Result<Vec<ImageReference>, crate::engine_build::error::EngineBuildError>,
    x: Result<ImageReference, String>,
)
    requires
        call_ensures(pull_candidates, (name, candidates), r),
        call_ensures(read_reference, (name,), x),
    ensures
        r is Ok <==> x is Ok,
        r matches Err(e) ==> (
        e matches crate::engine_build::error::EngineBuildError::InvalidReference(n, why) && n@
            == name@ && why@ == x->Err_0@),
{
}

/// A file that is given in place of an image or a kernel is taken, and is an error
/// where it is not there; nothing is searched for.
pub proof fn lemma_override_taken(
    reference: &str,
    path: &str,
    there: bool,
    registry_ref: Option<&str>,
    candidates: &Vec<String>,
    has_client: bool,
    a: Result<AddResolution, AddResolveError>,
    k: Result<FromKernelResolution, FromKernelResolveError>,
)
    requires
        call_ensures(
            resolve_add,
            (reference, Some((path, there)), registry_ref, candidates, has_client),
            a,
        ),
        call_ensures(
            resolve_from_kernel,
            (reference, Some((path, there)), registry_ref, candidates, has_client),
            k,
        ),
    ensures
        there ==> (a matches Ok(AddResolution::Found(x)) && x.layers@.len() == 1 && x.layers@[0]@
            == path@ && (x.provenance matches AddProvenance::Override(p) && p@ == path@)),
        there ==> (k matches Ok(FromKernelResolution::Found(x)) && x.layers@.len() == 1
            && x.layers@[0]@ == path@ && (x.provenance matches FromKernelProvenance::Override(p)
            && p@ == path@)),
        !there ==> (a matches Err(AddResolveError::OverrideMissing { message }) && contains_text(
            message@,
            path@,
        )),
        !there ==> (k matches Err(FromKernelResolveError::OverrideMissing { message })
            && contains_text(message@, path@)),
{
    if there {
        let x = a->Ok_0->Found_0;
        let y = k->Ok_0->Found_0;
        assert(texts(x.layers@).len() == x.layers@.len());
        assert(texts(x.layers@)[0] == x.layers@[0]@);
        assert(texts(y.layers@).len() == y.layers@.len());
        assert(texts(y.layers@)[0] == y.layers@[0]@);
    } else {
        let x = a->Err_0->OverrideMissing_message@;
        let y = k->Err_0->OverrideMissing_message@;
        lemma_occurs("ADD --from image"@ + " override path "@, path@, " not found"@);
        lemma_occurs("FROM kernel"@ + " override path "@, path@, " not found"@);
        assert(contains_text(x, path@));
        assert(contains_text(y, path@));
    }
}

/// Without a file, an image and a kernel are searched for in the same places: those
/// of the candidates, under the registry's reference where one is given.
pub proof fn lemma_same_search(
    reference: &str,
    registry_ref: Option<&str>,
    candidates: &Vec<String>,
    has_client: bool,
    a: Result<AddResolution, AddResolveError>,
    k: Result<FromKernelResolution, FromKernelResolveError>,
    wanted: &str,
    refs: Result<Vec<ImageReference>, crate::engine_build::error::EngineBuildError>,
    listed: &Vec<ImageReference>,
    plan: ResolvePlan,
)
    requires
        call_ensures(resolve_add, (reference, None, registry_ref, candidates, has_client), a),
        call_ensures(
            resolve_from_kernel,
            (reference, None, registry_ref, candidates, has_client),
            k,
        ),
        registry_ref is Some ==> wanted@ == registry_ref->0@,
        registry_ref is None ==> wanted@ == reference@,
        call_ensures(pull_candidates, (wanted, candidates), refs),
        refs matches Ok(v) ==> *listed == v,
        call_ensures(plan_attempts, (listed, has_client), plan),
    ensures
        refs is Ok ==> (a matches Ok(AddResolution::Search(p)) && attempt_views(p.attempts@)
            == attempt_views(plan.attempts@) && p.tried@ == plan.tried@),
        refs is Ok ==> (k matches Ok(FromKernelResolution::Search(p)) && attempt_views(p.attempts@)
            == attempt_views(plan.attempts@) && p.tried@ == plan.tried@),
        refs is Err ==> (a matches Err(AddResolveError::MalformedRef { ref_name, .. }) && ref_name@
            == wanted@),
        refs is Err ==> (k matches Err(FromKernelResolveError::MalformedRef { ref_name, .. })
            && ref_name@ == wanted@),
{
}

/// What was found is told to come from where it was found, under its full
/// reference, with the layers that were found.
pub proof fn lemma_provenance(walk: ResolveWalk, layers: Vec<String>, r: (Vec<String>, Provenance))
    requires
        call_ensures(ResolveWalk::on_found, (walk, layers), r),
        walk.at < walk.plan.attempts@.len(),
    ensures
        r.0 == layers,
        walk.plan.attempts@[walk.at as int] matches Attempt::Cache { canonical: c } ==> (
        r.1 matches Provenance::Cache(x) && x@
            == walk.plan.attempts@[walk.at as int]->Cache_canonical@),
        walk.plan.attempts@[walk.at as int] matches Attempt::Registry { registry: g, canonical: c }
            ==> (r.1 matches Provenance::Registry(x) && x@
            == walk.plan.attempts@[walk.at as int]->Registry_canonical@),
{
}

/// A search takes the attempts in order and ends behind the last one, with every
/// place that was tried.
pub proof fn lemma_search_order(
    plan: ResolvePlan,
    walk: ResolveWalk,
    next: Option<&Attempt>,
    at: ResolveWalk,
    after: Option<&Attempt>,
    failure: ResolveFailure,
)
    requires
        call_ensures(ResolveWalk::start, (plan,), walk),
        call_ensures(ResolveWalk::next, (&walk,), next),
        call_ensures(ResolveWalk::next, (&at,), after),
        at.plan == plan,
        call_ensures(ResolveWalk::not_found, (at,), failure),
    ensures
        plan.attempts@.len() > 0 ==> next == Some(&plan.attempts@[0]),
        at.at < plan.attempts@.len() ==> after == Some(&plan.attempts@[at.at as int]),
        at.at >= plan.attempts@.len() ==> after is None,
        failure matches ResolveFailure::NotFound { tried } && tried == plan.tried,
{
}

/// The layers of an artifact are those of its manifest, in order; one without
/// layers is refused.
pub proof fn lemma_artifact_layers(
    name: &str,
    manifest: &ImageManifest,
    r: Result<Vec<String>, ResolveFailure>,
    i: int,
)
    requires
        call_ensures(read_layer_paths, (name, manifest), r),
    ensures
        r is Ok <==> manifest.layers@.len() > 0,
        r matches Ok(v) ==> v@.len() == manifest.layers@.len() && (0 <= i < v@.len() ==> v@[i]@
            == manifest.layers@[i].digest@),
        r matches Err(e) ==> (e matches ResolveFailure::MalformedArtifact { ref_name, detail }
            && ref_name@ == name@ && detail@ == "no layers in manifest"@),
{
    assert(manifest@.layers.len() == manifest.layers@.len());
    if let Ok(v) = r {
        assert(texts(v@).len() == v@.len());
        if 0 <= i < v@.len() {
            assert(texts(v@)[i] == v@[i]@);
            assert(manifest@.layers[i] == manifest.layers@[i]@);
        }
    }
}

/// Of an index the artifact for the architecture is read, and an artifact is read
/// as it is.
pub proof fn lemma_artifact_manifest(
    name: &str,
    manifest: Manifest,
    architecture: Architecture,
    r: Result<ManifestPlace, ResolveFailure>,
    index: &ImageIndex,
    e: Option<&IndexEntry>,
)
    requires
        call_ensures(read_image_manifest, (name, manifest, architecture), r),
        manifest matches Manifest::Index(x) ==> x == *index,
        call_ensures(select_for_arch, (index, architecture), e),
    ensures
        manifest matches Manifest::Image(m) ==> (r matches Ok(ManifestPlace::Here(x)) && x@
            == manifest->Image_0@),
        manifest is Index && e is Some ==> (r matches Ok(ManifestPlace::Blob(digest)) && digest@
            == e->0.digest@),
        manifest is Index && e is None ==> (r matches Err(ResolveFailure::MalformedArtifact {
            ref_name,
            detail,
        }) && ref_name@ == name@ && (architecture is X86_64 ==> contains_text(detail@, "amd64"@))
            && (architecture is Aarch64 ==> contains_text(detail@, "arm64"@))),
{
    lemma_occurs("image index has no linux/"@, architecture.oci_name(), " manifest"@);
}

/// What a search failed on is told of an image and of a kernel alike.
pub proof fn lemma_failures_alike(
    failure: ResolveFailure,
    a: AddResolveError,
    k: FromKernelResolveError,
)
    requires
        call_ensures(add_error, (failure,), a),
        call_ensures(crate::resolver::from_kernel::from_kernel_error, (failure,), k),
    ensures
        failure matches ResolveFailure::NotFound { tried: t } ==> a == (AddResolveError::NotFound {
            tried: t,
        }) && k == (FromKernelResolveError::NotFound { tried: t }),
        failure matches ResolveFailure::OverrideMissing { message: m } ==> a == (
        AddResolveError::OverrideMissing { message: m }) && k == (
        FromKernelResolveError::OverrideMissing { message: m }),
        failure matches ResolveFailure::MalformedRef { ref_name: n, detail: d } ==> a == (
        AddResolveError::MalformedRef { ref_name: n, detail: d }) && k == (
        FromKernelResolveError::MalformedRef { ref_name: n, detail: d }),
        failure matches ResolveFailure::MalformedArtifact { ref_name: n, detail: d } ==> a == (
        AddResolveError::MalformedArtifact { ref_name: n, detail: d }) && k == (
        FromKernelResolveError::MalformedArtifact { ref_name: n, detail: d }),
{
}

/// An artifact keeps its layers and where it came from.
pub proof fn lemma_artifacts_alike(
    layers: Vec<String>,
    from: Provenance,
    a: AddArtifact,
    k: FromKernelArtifact,
)
    requires
        call_ensures(add_artifact, (layers, from), a),
        call_ensures(from_kernel_artifact, (layers, from), k),
    ensures
        a.layers == layers && k.layers == layers,
        from matches Provenance::Override(p) ==> a.provenance == AddProvenance::Override(p)
            && k.provenance == FromKernelProvenance::Override(p),
        from matches Provenance::Registry(p) ==> a.provenance == AddProvenance::Registry(p)
            && k.provenance == FromKernelProvenance::Registry(p),
        from matches Provenance::Cache(p) ==> a.provenance == AddProvenance::Cache(p)
            && k.provenance == FromKernelProvenance::Cache(p),
{
}

/// The kinds of image by the value of their label.
pub proof fn lemma_label_kinds(value: &str, r: L0Kind, kernel: bool, payload: bool)
    requires
        call_ensures(L0Kind::from_label, (value,), r),
        call_ensures(L0Kind::is_kernel, (&r,), kernel),
        call_ensures(L0Kind::is_payload, (&r,), payload),
    ensures
        value@ == "container"@ ==> r is Container,
        value@ == "bootable"@ ==> r is Bootable,
        value@ == "kernel-build-env"@ ==> r is KernelBuildEnv,
        value@ == "kernel"@ <==> r == L0Kind::Payload(Payload::Kernel),
        value@ == "rootfs"@ ==> r == L0Kind::Payload(Payload::Rootfs),
        value@ == "bootloader"@ ==> r == L0Kind::Payload(Payload::Bootloader),
        value@ == "firmware"@ ==> r == L0Kind::Payload(Payload::Firmware),
        !(r is Scratch),
        r matches L0Kind::Unknown(s) ==> s@ == value@,
        r is Unknown <==> value@ != "container"@ && value@ != "bootable"@ && value@
            != "kernel-build-env"@ && value@ != "kernel"@ && value@ != "rootfs"@ && value@
            != "bootloader"@ && value@ != "firmware"@,
        kernel == (value@ == "kernel"@),
        payload == (value@ == "kernel"@ || value@ == "rootfs"@ || value@ == "bootloader"@ || value@
            == "firmware"@),
{
    reveal_strlit("container");
    reveal_strlit("bootable");
    reveal_strlit("kernel-build-env");
    reveal_strlit("kernel");
    reveal_strlit("rootfs");
    reveal_strlit("bootloader");
    reveal_strlit("firmware");
    assert("container"@.len() == 9 && "bootable"@.len() == 8 && "kernel-build-env"@.len() == 16);
    assert("kernel"@.len() == 6 && "rootfs"@.len() == 6 && "bootloader"@.len() == 10);
    assert("firmware"@.len() == 8);
    assert("kernel"@[0] == 'k' && "rootfs"@[0] == 'r');
    assert("bootable"@[0] == 'b' && "firmware"@[0] == 'f');
}

/// The label of an image decides its kind; without the label the kind is inferred.
pub proof fn lemma_kind_known(
    digest: &str,
    manifest: &ImageManifest,
    labels: TextMap<String>,
    r: L0Profile,
    value: &str,
    by_label: L0Kind,
    inferred: L0Kind,
)
    requires
        call_ensures(introspect_image, (digest, manifest, labels), r),
        labels@.dom().contains("org.imagilux.umf.type"@) ==> value@
            == labels@["org.imagilux.umf.type"@]@,
        call_ensures(L0Kind::from_label, (value,), by_label),
        call_ensures(infer_kind, (manifest,), inferred),
    ensures
        r.manifest_digest@ == digest@,
        r.labels@ == labels@,
        labels@.dom().contains("org.imagilux.umf.type"@) ==> r.kind@ == by_label@ && r.source
            is Label,
        !labels@.dom().contains("org.imagilux.umf.type"@) ==> r.kind@ == inferred@ && r.source
            is Inferred,
{
}

/// An image without a label is a container where it has an image's configuration
/// and a layer, and of no known kind otherwise.
pub proof fn lemma_kind_inferred(manifest: &ImageManifest, r: L0Kind)
    requires
        call_ensures(infer_kind, (manifest,), r),
    ensures
        r is Container <==> manifest.layers@.len() > 0 && (manifest.config.media_type@
            == "application/vnd.oci.image.config.v1+json"@ || manifest.config.media_type@
            == "application/vnd.docker.container.image.v1+json"@),
        !(r is Container) ==> (r matches L0Kind::Unknown(s) && s@.len() == 0),
{
    assert(manifest@.layers.len() == manifest.layers@.len());
}

/// A kernel artifact is of the kernel's kind, and nothing else is accepted as one.
pub proof fn lemma_kernel_kind(
    name: &str,
    kind: &L0Kind,
    r: Result<(), FromKernelResolveError>,
    told: String,
)
    requires
        call_ensures(check_kernel, (name, kind), r),
        call_ensures(L0Kind::describe, (kind,), told),
    ensures
        r is Ok <==> *kind == L0Kind::Payload(Payload::Kernel),
        r matches Err(e) ==> (e matches FromKernelResolveError::MalformedArtifact {
            ref_name,
            detail,
        } && ref_name@ == name@ && told@.is_suffix_of(detail@)),
{
    let head = "expected org.imagilux.umf.type=kernel, got "@;
    let whole = head + told@;
    assert(whole.skip(head.len() as int) =~= told@);
    assert(told@.is_suffix_of(whole));
}

/// The kinds of image are told apart in words.
pub proof fn lemma_kinds_told(a: &L0Kind, b: &L0Kind, x: String, y: String)
    requires
        call_ensures(L0Kind::describe, (a,), x),
        call_ensures(L0Kind::describe, (b,), y),
    ensures
        *a is Container ==> x@ == "Container"@,
        *a is Bootable ==> x@ == "Bootable"@,
        *a is Scratch ==> x@ == "Scratch"@,
        *a is KernelBuildEnv ==> x@ == "KernelBuildEnv"@,
        *a is Payload && *b is Payload && x@ == y@ ==> *a == *b,
{
    if *a is Payload && *b is Payload && x@ == y@ {
        reveal_strlit("Kernel");
        reveal_strlit("Rootfs");
        reveal_strlit("Bootloader");
        reveal_strlit("Firmware");
        let p = crate::l0::payload_name(a->Payload_0);
        let q = crate::l0::payload_name(b->Payload_0);
        let h = "Payload("@;
        let e = ")"@;
        assert(x@ == h + p + e && y@ == h + q + e);
        assert(x@.len() == h.len() + p.len() + e.len());
        assert(y@.len() == h.len() + q.len() + e.len());
        assert(p =~= x@.subrange(h.len() as int, (h.len() + p.len()) as int));
        assert(q =~= y@.subrange(h.len() as int, (h.len() + p.len()) as int));
        assert("Kernel"@[0] == 'K' && "Rootfs"@[0] == 'R' && "Bootloader"@[0] == 'B');
        assert("Firmware"@[0] == 'F');
    }
}

/// An image that has no entry is not found, by its name, and an index is no image.
pub proof fn lemma_entry_found(
    name: &str,
    digest: Option<String>,
    r: Result<String, RegistryError>,
    manifest: Manifest,
    image: Result<ImageManifest, RegistryError>,
)
    requires
        call_ensures(find_entry, (name, digest), r),
        call_ensures(single_image, (name, manifest), image),
    ensures
        digest is Some ==> r == Ok::<String, RegistryError>(digest->0),
        digest is None ==> (r matches Err(RegistryError::NotFound(n)) && n@ == name@),
        manifest matches Manifest::Image(m) ==> (image matches Ok(x) && x@ == manifest->Image_0@),
        manifest is Index ==> (image matches Err(RegistryError::InvalidLayout(message))
            && name@.is_prefix_of(message@)),
{
    if manifest is Index {
        let m = image->Err_0->InvalidLayout_0@;
        assert(m == name@
            + " resolves to an image index — select a platform before introspection"@);
        assert(m.take(name@.len() as int) =~= name@);
    }
}

} // verus!
