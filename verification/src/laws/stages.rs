//! A container build as a whole: which stages it has, what it fetches and pulls,
//! what it starts from, and the layers that it puts together.
use vstd::prelude::*;
use crate::architecture::Architecture;
use crate::arg_subst::{global_scope, scope_after, substitute};
use crate::ast::{AddSource, Ast, Directive, FromSource, Stage};
use crate::digest::{blob_digest, sha256_digest};
use crate::engine_build::base_image::{
    check_layer_count, choose_manifest, extract_diff_ids, image_config_from_raw, resolve_base_image,
    ManifestPlace, PullAction, PullWalk,
};
use crate::engine_build::error::EngineBuildError;
use crate::engine_build::secrets::{
    missing_reason, resolve_secrets, secret_file, secret_files, ResolvedSecrets, SecretFinding,
    SecretInput, SecretSource,
};
use crate::engine_build::state::{
    layer_from_cache, store_layer_cache, BaseImage, BuildState, CachedStep,
};
use crate::engine_build::{
    build, check_cross_stage_refs, images_behind, images_to_pull, produced_by, scope_at, stage_base,
    stage_ref, stage_urls, urls_behind, BuildPlan, EngineBuildOptions, StageBase,
};
use crate::image::{ImageConfig, LayerSource};
use crate::json::{member_index, text_items, Json, JsonView};
use crate::l0::KindView;
use crate::manifest::{ImageIndex, ImageManifest, IndexEntry, Manifest};
use crate::number::{decimal, lemma_in_base_injective};
use crate::platform::select_for_arch;
use crate::laws::aid::lemma_occurs;
use crate::text::{contains_text, texts};
use crate::text_map::{text_values, TextMap};

verus! {

/// The stage that an `ADD --from` takes files from.
pub open spec fn takes_from(d: Directive) -> Option<Seq<char>> {
    match d {
        Directive::Add(a) => match a.from {
            Some(name) => Some(name@),
            None => None,
        },
        _ => None,
    }
}

/// Has one of the first `n` stages the name?
pub open spec fn is_named_before(ast: Ast, n: int, name: Seq<char>) -> bool {
    exists|k: int|
        0 <= k < n && (#[trigger] ast.stages@[k]).name is Some && ast.stages@[k].name->0@ == name
}

/// Does every `ADD --from` in the stage name an earlier stage?
pub open spec fn takes_from_earlier(ast: Ast, i: int, j: int) -> bool {
    takes_from(ast.stages@[i].directives@[j]) matches Some(name) ==> is_named_before(ast, i, name)
}

/// A recipe passes exactly where every `ADD --from` names an earlier stage.
pub proof fn lemma_stage_references(ast: &Ast, r: Result<(), EngineBuildError>)
    requires
        call_ensures(check_cross_stage_refs, (ast,), r),
    ensures
        r is Ok <==> forall|i: int, j: int|
            0 <= i < ast.stages@.len() && 0 <= j < ast.stages@[i].directives@.len()
                ==> #[trigger] takes_from_earlier(*ast, i, j),
{
    assert forall|i: int, j: int|
        0 <= i < ast.stages@.len() && 0 <= j < ast.stages@[i].directives@.len() implies
        crate::engine_build::refers_back(*ast, i, j) == #[trigger] takes_from_earlier(
        *ast,
        i,
        j,
    ) by {
        lemma_same_names(*ast, i, j);
    }
    if r is Ok {
        assert forall|i: int, j: int|
            0 <= i < ast.stages@.len() && 0 <= j < ast.stages@[i].directives@.len() implies
            #[trigger] takes_from_earlier(*ast, i, j) by {
            assert(crate::engine_build::refers_back(*ast, i, j));
        }
    } else {
        let (i, j) = choose|i: int, j: int| #[trigger]
            crate::engine_build::first_bad_reference(*ast, i, j);
        assert(!takes_from_earlier(*ast, i, j));
    }
}

/// Does a stage from the `from`th on have the name?
pub open spec fn is_named_from(ast: Ast, from: int, name: Seq<char>) -> bool {
    exists|k: int|
        from <= k < ast.stages@.len() && (#[trigger] ast.stages@[k]).name is Some
            && ast.stages@[k].name->0@ == name
}

/// Does the error speak of an `ADD --from` in the stage that names no earlier one:
/// that it names the stage itself, a later one or none?
pub open spec fn tells_bad_reference(e: EngineBuildError, ast: Ast, i: int, j: int) -> bool {
    takes_from(ast.stages@[i].directives@[j]) matches Some(name) && !is_named_before(ast, i, name)
        && ({
        let own = ast.stages@[i].name;
        &&& own is Some && own->0@ == name ==> (e matches EngineBuildError::AddFromSelf { stage }
            && stage@ == name)
        &&& !(own is Some && own->0@ == name) && is_named_from(ast, i + 1, name) ==> (
        e matches EngineBuildError::AddFromForwardReference { stage } && stage@ == name)
        &&& !is_named_from(ast, i, name) ==> (
        e matches EngineBuildError::AddFromUnknownStage { stage } && stage@ == name)
    })
}

/// A recipe that is refused for an `ADD --from` is told which stage it names, and
/// whether that is the stage itself, a later one or none.
pub proof fn lemma_bad_reference_told(ast: &Ast, e: EngineBuildError)
    requires
        call_ensures(check_cross_stage_refs, (ast,), Err(e)),
    ensures
        exists|i: int, j: int|
            0 <= i < ast.stages@.len() && 0 <= j < ast.stages@[i].directives@.len()
                && #[trigger] tells_bad_reference(e, *ast, i, j),
{
    let (i, j) = choose|i: int, j: int| #[trigger]
        crate::engine_build::first_bad_reference(*ast, i, j)
            && crate::engine_build::is_reference_error(
            e,
            *ast,
            i,
            crate::engine_build::from_stage(ast.stages@[i].directives@[j])->0,
        );
    lemma_same_names(*ast, i, j);
    let name = takes_from(ast.stages@[i].directives@[j])->0;
    if is_named_from(*ast, i + 1, name) {
        let k = choose|k: int|
            i + 1 <= k < ast.stages@.len() && (#[trigger] ast.stages@[k]).name is Some
                && ast.stages@[k].name->0@ == name;
        assert(crate::engine_build::is_named(ast.stages@[k], name));
    }
    if crate::engine_build::named_between(ast.stages@, i + 1, ast.stages@.len() as int, name) {
        let k = choose|k: int|
            i + 1 <= k < ast.stages@.len() && crate::engine_build::is_named(
                #[trigger] ast.stages@[k],
                name,
            );
        assert(ast.stages@[k].name->0@ == name);
        assert(is_named_from(*ast, i, name));
    }
    if crate::engine_build::is_named(ast.stages@[i], name) {
        assert(ast.stages@[i].name->0@ == name);
        assert(is_named_from(*ast, i, name));
    }
    assert(tells_bad_reference(e, *ast, i, j));
}

proof fn lemma_same_names(ast: Ast, i: int, j: int)
    requires
        0 <= i < ast.stages@.len(),
        0 <= j < ast.stages@[i].directives@.len(),
    ensures
        crate::engine_build::refers_back(ast, i, j) == takes_from_earlier(ast, i, j),
{
    if let Some(name) = takes_from(ast.stages@[i].directives@[j]) {
        if crate::engine_build::named_between(ast.stages@, 0, i, name) {
            let k = choose|k: int|
                0 <= k < i && crate::engine_build::is_named(#[trigger] ast.stages@[k], name);
            assert(ast.stages@[k].name->0@ == name);
            assert(is_named_before(ast, i, name));
        }
        if is_named_before(ast, i, name) {
            let k = choose|k: int|
                0 <= k < i && (#[trigger] ast.stages@[k]).name is Some && ast.stages@[k].name->0@
                    == name;
            assert(crate::engine_build::is_named(ast.stages@[k], name));
        }
    }
}

/// The last stage is built under the reference that was asked for; each of the
/// others under one of its own.
pub proof fn lemma_stage_refs(
    i: usize,
    total: usize,
    final_ref: &str,
    r: String,
    j: usize,
    q: String,
)
    requires
        call_ensures(stage_ref, (i, total, final_ref), r),
        call_ensures(stage_ref, (j, total, final_ref), q),
        i < total,
        j < total,
    ensures
        i + 1 == total ==> r@ == final_ref@,
        i + 1 < total && j + 1 < total && i != j ==> r@ != q@,
        i + 1 < total ==> r@ == "umf-build/stage-"@ + decimal(i as nat) + ":internal"@,
{
    if i + 1 < total && j + 1 < total && i != j && r@ == q@ {
        let a = decimal(i as nat);
        let b = decimal(j as nat);
        let h = "umf-build/stage-"@;
        let e = ":internal"@;
        assert(r@.len() == h.len() + a.len() + e.len());
        assert(q@.len() == h.len() + b.len() + e.len());
        assert(a =~= r@.subrange(h.len() as int, (h.len() + a.len()) as int));
        assert(b =~= q@.subrange(h.len() as int, (h.len() + a.len()) as int));
        lemma_in_base_injective(i as nat, j as nat, 10, false);
    }
}

/// A stage is found by its name under the reference of the last of the stages
/// before that have it.
pub proof fn lemma_produced(
    stages: Seq<Stage>,
    n: int,
    total: int,
    final_ref: Seq<char>,
    i: int,
    name: Seq<char>,
)
    requires
        0 <= n <= stages.len(),
        n < total,
    ensures
        ({
            let p = produced_by(stages, n, total, final_ref);
            &&& (0 <= i < n && stages[i].name is Some && stages[i].name->0@ == name && (forall|
                k: int,
            |
                i < k < n ==> (#[trigger] stages[k]).name is None || stages[k].name->0@ != name))
                ==> p.dom().contains(name) && p[name] == "umf-build/stage-"@ + decimal(i as nat)
                + ":internal"@
            &&& (forall|k: int|
                0 <= k < n ==> (#[trigger] stages[k]).name is None || stages[k].name->0@ != name)
                ==> !p.dom().contains(name)
        }),
    decreases n,
{
    if n > 0 {
        lemma_produced(stages, n - 1, total, final_ref, i, name);
    }
}

/// The scope at a directive is the global one, with the `ARG`s before it applied
/// one after another.
pub proof fn lemma_scope_at(
    ds: Seq<Directive>,
    n: int,
    globals: Map<Seq<char>, Seq<char>>,
    build_args: Map<Seq<char>, Seq<char>>,
)
    requires
        0 <= n < ds.len(),
    ensures
        scope_at(ds, 0, globals, build_args) == globals,
        ds[n] matches Directive::Arg(a) ==> scope_at(ds, n + 1, globals, build_args) == scope_after(
            scope_at(ds, n, globals, build_args),
            a,
            build_args,
        ),
        !(ds[n] is Arg) ==> scope_at(ds, n + 1, globals, build_args) == scope_at(
            ds,
            n,
            globals,
            build_args,
        ),
{
}

/// Is the directive an `ADD` of the URL, as the recipe writes it?
pub open spec fn adds_url(d: Directive, url: Seq<char>) -> bool {
    d matches Directive::Add(a) && !a.plain_copy && (a.source matches AddSource::Url(u) && u@
        == url)
}

/// Is the directive an `ADD` of the image, as the recipe writes it?
pub open spec fn adds_image(d: Directive, image: Seq<char>) -> bool {
    d matches Directive::Add(a) && !a.plain_copy && (a.source matches AddSource::Oci(u) && u@
        == image)
}

proof fn lemma_urls_grow(
    urls: Seq<Seq<char>>,
    ds: Seq<Directive>,
    n: int,
    globals: Map<Seq<char>, Seq<char>>,
    build_args: Map<Seq<char>, Seq<char>>,
)
    requires
        0 <= n <= ds.len(),
    ensures
        ({
            let all = urls_behind(urls, ds, n, globals, build_args);
            &&& forall|u: Seq<char>| urls.contains(u) ==> #[trigger] all.contains(u)
            &&& forall|j: int, u: Seq<char>|
                #![trigger adds_url(ds[j], u)]
                0 <= j < n && adds_url(ds[j], u) ==> all.contains(
                    substitute(u, scope_at(ds, j, globals, build_args)),
                )
            &&& urls.no_duplicates() ==> all.no_duplicates()
        }),
    decreases n,
{
    if n > 0 {
        lemma_urls_grow(urls, ds, n - 1, globals, build_args);
        let before = urls_behind(urls, ds, n - 1, globals, build_args);
        let all = urls_behind(urls, ds, n, globals, build_args);
        assert forall|u: Seq<char>| before.contains(u) implies #[trigger] all.contains(u) by {
            let k = before.index_of(u);
            assert(before[k] == u);
            assert(all[k] == u);
        }
        assert forall|j: int, u: Seq<char>|
            #![trigger adds_url(ds[j], u)]
            0 <= j < n && adds_url(ds[j], u) implies all.contains(
            substitute(u, scope_at(ds, j, globals, build_args)),
        ) by {
            if j == n - 1 {
                let x = substitute(u, scope_at(ds, j, globals, build_args));
                if !before.contains(x) {
                    assert(all[before.len() as int] == x);
                }
            }
        }
    }
}

proof fn lemma_stage_urls(
    stages: Seq<Stage>,
    n: int,
    globals: Map<Seq<char>, Seq<char>>,
    build_args: Map<Seq<char>, Seq<char>>,
    i: int,
    j: int,
    url: Seq<char>,
)
    requires
        0 <= i < n <= stages.len(),
        0 <= j < stages[i].directives@.len(),
        adds_url(stages[i].directives@[j], url),
    ensures
        stage_urls(stages, n, globals, build_args).contains(
            substitute(url, scope_at(stages[i].directives@, j, globals, build_args)),
        ),
    decreases n,
{
    let ds = stages[n - 1].directives@;
    let before = stage_urls(stages, n - 1, globals, build_args);
    lemma_urls_grow(before, ds, ds.len() as int, globals, build_args);
    if i < n - 1 {
        lemma_stage_urls(stages, n - 1, globals, build_args, i, j, url);
    } else {
        assert(adds_url(ds[j], url));
    }
}

proof fn lemma_urls_once(
    stages: Seq<Stage>,
    n: int,
    globals: Map<Seq<char>, Seq<char>>,
    build_args: Map<Seq<char>, Seq<char>>,
)
    requires
        0 <= n <= stages.len(),
    ensures
        stage_urls(stages, n, globals, build_args).no_duplicates(),
    decreases n,
{
    if n > 0 {
        lemma_urls_once(stages, n - 1, globals, build_args);
        let ds = stages[n - 1].directives@;
        lemma_urls_grow(
            stage_urls(stages, n - 1, globals, build_args),
            ds,
            ds.len() as int,
            globals,
            build_args,
        );
    }
}

/// A build is planned for every stage, with the last under the reference that was
/// asked for. Whatever URL an `ADD` of the recipe names, references replaced as at
/// that directive, is fetched, and none is fetched twice.
pub proof fn lemma_build_plan(
    ast: &Ast,
    final_ref: &str,
    options: &EngineBuildOptions,
    p: BuildPlan,
    i: int,
    j: int,
    url: Seq<char>,
)
    requires
        call_ensures(build, (ast, final_ref, options), Ok(p)),
        0 <= i < ast.stages@.len(),
        0 <= j < ast.stages@[i].directives@.len(),
    ensures
        p.stage_refs@.len() == ast.stages@.len(),
        p.stage_refs@.last()@ == final_ref@,
        text_values(p.globals@) == global_scope(*ast, text_values(options.build_args@)),
        adds_url(ast.stages@[i].directives@[j], url) ==> texts(p.urls@).contains(
            substitute(
                url,
                scope_at(
                    ast.stages@[i].directives@,
                    j,
                    text_values(p.globals@),
                    text_values(options.build_args@),
                ),
            ),
        ),
        texts(p.urls@).no_duplicates(),
{
    let n = ast.stages@.len() as int;
    let globals = text_values(p.globals@);
    let build_args = text_values(options.build_args@);
    assert(texts(p.stage_refs@).len() == n);
    assert(texts(p.stage_refs@)[n - 1] == final_ref@);
    lemma_urls_once(ast.stages@, n, globals, build_args);
    if adds_url(ast.stages@[i].directives@[j], url) {
        lemma_stage_urls(ast.stages@, n, globals, build_args, i, j, url);
    }
}

proof fn lemma_images(
    ds: Seq<Directive>,
    n: int,
    globals: Map<Seq<char>, Seq<char>>,
    build_args: Map<Seq<char>, Seq<char>>,
)
    requires
        0 <= n <= ds.len(),
    ensures
        ({
            let all = images_behind(ds, n, globals, build_args);
            &&& forall|j: int, u: Seq<char>|
                #![trigger adds_image(ds[j], u)]
                0 <= j < n && adds_image(ds[j], u) ==> all.contains(
                    substitute(u, scope_at(ds, j, globals, build_args)),
                )
            &&& (forall|j: int, u: Seq<char>|
                #![trigger adds_image(ds[j], u)]
                0 <= j < n ==> !adds_image(ds[j], u)) ==> all.len() == 0
        }),
    decreases n,
{
    if n > 0 {
        lemma_images(ds, n - 1, globals, build_args);
        let before = images_behind(ds, n - 1, globals, build_args);
        let all = images_behind(ds, n, globals, build_args);
        assert forall|j: int, u: Seq<char>|
            #![trigger adds_image(ds[j], u)]
            0 <= j < n && adds_image(ds[j], u) implies all.contains(
            substitute(u, scope_at(ds, j, globals, build_args)),
        ) by {
            let x = substitute(u, scope_at(ds, j, globals, build_args));
            if j == n - 1 {
                assert(all[before.len() as int] == x);
            } else {
                let k = before.index_of(x);
                assert(before[k] == x);
                assert(all[k] == x);
            }
        }
        if forall|j: int, u: Seq<char>|
            #![trigger adds_image(ds[j], u)]
            0 <= j < n ==> !adds_image(ds[j], u) {
            if let Directive::Add(a) = ds[n - 1] {
                if let AddSource::Oci(u) = a.source {
                    assert(!adds_image(ds[n - 1], u@));
                }
            }
        }
    }
}

/// Whatever image an `ADD` of the stage names, references replaced as at that
/// directive, is pulled before; a stage that names none has nothing pulled.
pub proof fn lemma_images_pulled(
    stage: &Stage,
    globals: &TextMap<String>,
    build_args: &TextMap<String>,
    r: Vec<String>,
    j: int,
    image: Seq<char>,
)
    requires
        call_ensures(images_to_pull, (stage, globals, build_args), r),
    ensures
        0 <= j < stage.directives@.len() && adds_image(stage.directives@[j], image) ==> texts(
            r@,
        ).contains(
            substitute(
                image,
                scope_at(stage.directives@, j, text_values(globals@), text_values(build_args@)),
            ),
        ),
        (forall|k: int, u: Seq<char>|
            #![trigger adds_image(stage.directives@[k], u)]
            0 <= k < stage.directives@.len() ==> !adds_image(stage.directives@[k], u))
            ==> r@.len() == 0,
{
    let ds = stage.directives@;
    lemma_images(ds, ds.len() as int, text_values(globals@), text_values(build_args@));
    assert(texts(r@).len() == r@.len());
}

/// A stage starts from nothing, or from the image that its `FROM` names, global
/// `ARG`s replaced.
pub proof fn lemma_stage_base(stage: &Stage, globals: &TextMap<String>, r: StageBase)
    requires
        call_ensures(stage_base, (stage, globals), r),
    ensures
        stage.from is Scratch <==> r is Scratch,
        stage.from matches FromSource::Reference(text) ==> (r matches StageBase::Image(x) && x@
            == substitute(stage.from->Reference_0@, text_values(globals@))),
{
}

/// Of an index the image for the architecture is taken, and an image is taken as it
/// is.
pub proof fn lemma_manifest_choice(
    manifest: Manifest,
    architecture: Architecture,
    r: Result<ManifestPlace, EngineBuildError>,
    index: &ImageIndex,
    e: Option<&IndexEntry>,
)
    requires
        call_ensures(choose_manifest, (manifest, architecture), r),
        manifest matches Manifest::Index(x) ==> x == *index,
        call_ensures(select_for_arch, (index, architecture), e),
    ensures
        manifest matches Manifest::Image(m) ==> (r matches Ok(ManifestPlace::Here(x)) && x@
            == manifest->Image_0@),
        manifest is Index && e is Some ==> (r matches Ok(ManifestPlace::Blob(digest)) && digest@
            == e->0.digest@),
        manifest is Index && e is None ==> (
        r matches Err(EngineBuildError::NoManifestForPlatform { .. })),
{
}

proof fn lemma_member_index(o: Seq<(Seq<char>, JsonView)>, key: Seq<char>, i: int)
    requires
        0 <= i <= o.len(),
        forall|k: int| 0 <= k < i ==> (#[trigger] o[k]).0 != key,
    ensures
        i < o.len() && o[i].0 == key ==> member_index(o, key) == Some(i),
        i == o.len() ==> member_index(o, key) is None,
    decreases o.len(),
{
    if o.len() > 0 && i > 0 {
        let rest = o.skip(1);
        assert(o[0].0 != key);
        assert forall|k: int| 0 <= k < i - 1 implies (#[trigger] rest[k]).0 != key by {
            assert(rest[k] == o[k + 1]);
        }
        lemma_member_index(rest, key, i - 1);
        if i < o.len() {
            assert(rest[i - 1] == o[i]);
        }
    }
}

/// The value of a member is that of the first entry with its name.
pub proof fn lemma_member(o: Seq<(Seq<char>, JsonView)>, key: Seq<char>, i: int)
    requires
        0 <= i <= o.len(),
        forall|k: int| 0 <= k < i ==> (#[trigger] o[k]).0 != key,
    ensures
        i < o.len() && o[i].0 == key ==> JsonView::Object(o).member(key) == Some(o[i].1),
        i == o.len() ==> JsonView::Object(o).member(key) is None,
{
    lemma_member_index(o, key, i);
}

proof fn lemma_all_texts(a: Seq<JsonView>)
    requires
        forall|i: int| 0 <= i < a.len() ==> (#[trigger] a[i]) is Text,
    ensures
        text_items(a).len() == a.len(),
        forall|i: int| 0 <= i < a.len() ==> text_items(a)[i] == (#[trigger] a[i])->Text_0,
    decreases a.len(),
{
    if a.len() > 0 {
        let front = a.drop_last();
        assert forall|i: int| 0 <= i < front.len() implies (#[trigger] front[i]) is Text by {
            assert(front[i] == a[i]);
        }
        lemma_all_texts(front);
        assert(a[a.len() - 1] is Text);
        assert forall|i: int| 0 <= i < a.len() implies text_items(a)[i] == (
        #[trigger] a[i])->Text_0 by {
            if i < front.len() {
                assert(front[i] == a[i]);
            }
        }
    }
}

/// Is `v` the list of texts that the array holds?
pub open spec fn is_list_of(v: Seq<Seq<char>>, a: Seq<JsonView>) -> bool {
    v.len() == a.len() && forall|i: int|
        0 <= i < a.len() ==> #[trigger] a[i] == JsonView::Text(v[i])
}

/// The texts of a list are the list.
pub proof fn lemma_list_read(v: Seq<Seq<char>>, a: Seq<JsonView>)
    requires
        is_list_of(v, a),
    ensures
        text_items(a) == v,
{
    assert forall|i: int| 0 <= i < a.len() implies (#[trigger] a[i]) is Text by {
        assert(a[i] == JsonView::Text(v[i]));
    }
    lemma_all_texts(a);
    assert(text_items(a) =~= v) by {
        assert forall|i: int| 0 <= i < a.len() implies text_items(a)[i] == v[i] by {
            assert(a[i] == JsonView::Text(v[i]));
        }
    }
}

/// An image that is built on another inherits its environment, its entrypoint, its
/// command, its working directory and its user; what the other does not have, or
/// has empty, it does not have.
pub proof fn lemma_inherited(
    raw: &Json,
    architecture: Architecture,
    r: ImageConfig,
    cfg: JsonView,
    list: Seq<Seq<char>>,
    a: Seq<JsonView>,
    text: Seq<char>,
)
    requires
        call_ensures(image_config_from_raw, (raw, architecture), r),
        raw@.member("config"@) == Some(cfg),
        is_list_of(list, a),
    ensures
        cfg.member("Env"@) == Some(JsonView::Array(a)) ==> r@.container.env == list,
        cfg.member("Env"@) is None ==> r@.container.env.len() == 0,
        cfg.member("Entrypoint"@) == Some(JsonView::Array(a)) && a.len() > 0
            ==> r@.container.entrypoint == Some(list),
        cfg.member("Entrypoint"@) is None ==> r@.container.entrypoint is None,
        cfg.member("Cmd"@) == Some(JsonView::Array(a)) && a.len() > 0 ==> r@.container.cmd == Some(
            list,
        ),
        cfg.member("Cmd"@) is None ==> r@.container.cmd is None,
        a.len() == 0 ==> (cfg.member("Entrypoint"@) == Some(JsonView::Array(a))
            ==> r@.container.entrypoint is None) && (cfg.member("Cmd"@) == Some(JsonView::Array(a))
            ==> r@.container.cmd is None),
        text.len() == 0 ==> (cfg.member("WorkingDir"@) == Some(JsonView::Text(text))
            ==> r@.container.working_dir is None) && (cfg.member("User"@) == Some(
            JsonView::Text(text),
        ) ==> r@.container.user is None),
        cfg.member("Labels"@) is None ==> r@.container.labels == Map::<
            Seq<char>,
            Seq<char>,
        >::empty(),
        raw@.member("os"@) == Some(JsonView::Text(text)) ==> r@.os == text,
        raw@.member("os"@) is None ==> r@.os == "linux"@,
        r@.container.exposed_ports.len() == 0 && r@.container.volumes.len() == 0,
        cfg.member("WorkingDir"@) == Some(JsonView::Text(text)) && text.len() > 0
            ==> r@.container.working_dir == Some(text),
        cfg.member("WorkingDir"@) is None ==> r@.container.working_dir is None,
        cfg.member("User"@) == Some(JsonView::Text(text)) && text.len() > 0 ==> r@.container.user
            == Some(text),
        cfg.member("User"@) is None ==> r@.container.user is None,
        architecture == Architecture::X86_64 ==> r@.architecture == "amd64"@,
        architecture == Architecture::Aarch64 ==> r@.architecture == "arm64"@,
        r@.umf_type == KindView::Container,
        r@.history.len() == 0,
{
    lemma_list_read(list, a);
}

/// The labels of an image are inherited too, those with a text.
pub proof fn lemma_labels_inherited(
    raw: &Json,
    architecture: Architecture,
    r: ImageConfig,
    cfg: JsonView,
    o: Seq<(Seq<char>, JsonView)>,
    i: int,
)
    requires
        call_ensures(image_config_from_raw, (raw, architecture), r),
        raw@.member("config"@) == Some(cfg),
        cfg.member("Labels"@) == Some(JsonView::Object(o)),
        0 <= i < o.len(),
        o[i].1 is Text,
        forall|k: int| i < k < o.len() ==> (#[trigger] o[k]).0 != o[i].0,
    ensures
        r@.container.labels.dom().contains(o[i].0),
        r@.container.labels[o[i].0] == o[i].1->Text_0,
{
    lemma_text_member(o, i);
}

proof fn lemma_text_member(o: Seq<(Seq<char>, JsonView)>, i: int)
    requires
        0 <= i < o.len(),
        o[i].1 is Text,
        forall|k: int| i < k < o.len() ==> (#[trigger] o[k]).0 != o[i].0,
    ensures
        crate::json::text_members(o).dom().contains(o[i].0),
        crate::json::text_members(o)[o[i].0] == o[i].1->Text_0,
    decreases o.len(),
{
    if i < o.len() - 1 {
        let front = o.drop_last();
        assert(front[i] == o[i]);
        assert forall|k: int| i < k < front.len() implies (#[trigger] front[k]).0 != front[i].0 by {
            assert(front[k] == o[k]);
        }
        lemma_text_member(front, i);
        assert(o[o.len() - 1].0 != o[i].0);
    }
}

/// The layers of a base image are those of its manifest, each with its bytes, its
/// media type and its digest before compression.
pub proof fn lemma_base_layers(
    manifest: &ImageManifest,
    raw: &Json,
    diff_ids: &Vec<String>,
    blobs: &Vec<Vec<u8>>,
    architecture: Architecture,
    r: BaseImage,
    c: ImageConfig,
    i: int,
)
    requires
        call_ensures(resolve_base_image, (manifest, raw, diff_ids, blobs, architecture), r),
        call_ensures(image_config_from_raw, (raw, architecture), c),
        diff_ids@.len() == manifest.layers@.len(),
        blobs@.len() == manifest.layers@.len(),
        0 <= i < manifest.layers@.len(),
    ensures
        r.layers@.len() == manifest.layers@.len(),
        r.layers@[i].data@ == blobs@[i]@,
        r.layers@[i].media_type@ == manifest.layers@[i].media_type@,
        r.layers@[i].diff_id@ == diff_ids@[i]@,
        r.config@ == c@,
{
    let views = crate::image::layer_views(r.layers@);
    assert(views.len() == manifest.layers@.len());
    assert(views[i] == r.layers@[i]@);
    assert(manifest@.layers[i] == manifest.layers@[i]@);
}

/// A base image must name as many digests as it has layers; those are its digests.
pub proof fn lemma_layer_count(
    manifest: &ImageManifest,
    raw: &Json,
    r: Result<Vec<String>, EngineBuildError>,
    ids: Vec<String>,
)
    requires
        call_ensures(check_layer_count, (manifest, raw), r),
        call_ensures(extract_diff_ids, (raw,), ids),
    ensures
        r is Ok <==> ids@.len() == manifest.layers@.len(),
        r matches Ok(v) ==> texts(v@) == texts(ids@),
{
    assert(texts(ids@).len() == ids@.len());
    assert(manifest@.layers.len() == manifest.layers@.len());
    if let Ok(v) = r {
        assert(texts(v@).len() == v@.len());
    }
}

/// The digests of a base image are those that its configuration lists.
pub proof fn lemma_diff_ids(
    raw: &Json,
    r: Vec<String>,
    rootfs: JsonView,
    list: Seq<Seq<char>>,
    a: Seq<JsonView>,
)
    requires
        call_ensures(extract_diff_ids, (raw,), r),
        raw@.member("rootfs"@) == Some(rootfs),
        rootfs.member("diff_ids"@) == Some(JsonView::Array(a)),
        is_list_of(list, a),
    ensures
        texts(r@) == list,
{
    lemma_list_read(list, a);
}

/// An image that is in the layout is not pulled again.
pub proof fn lemma_layout_first(walk: &PullWalk, is_there: bool, r: PullAction)
    requires
        call_ensures(PullWalk::on_lookup, (walk, is_there), r),
        walk.at < walk.refs@.len(),
    ensures
        is_there ==> (r matches PullAction::Use(x) && x@ == walk.refs@[walk.at as int].whole@),
        !is_there ==> (r matches PullAction::Pull { registry, canonical } && registry@
            == walk.refs@[walk.at as int].registry@ && canonical@
            == walk.refs@[walk.at as int].whole@),
{
}

/// An image has the layers of its base and then those of the build, in order; a
/// command sees the newest on top.
pub proof fn lemma_layer_chain(
    state: &BuildState,
    r: Vec<LayerSource>,
    lowers: &Vec<String>,
    stack: Vec<String>,
    i: int,
)
    requires
        call_ensures(BuildState::assemble_layer_chain, (state,), r),
        call_ensures(BuildState::lower_stack, (state, lowers), stack),
    ensures
        r@.len() == state.base_layers@.len() + state.new_layers@.len(),
        0 <= i < state.base_layers@.len() ==> r@[i]@ == state.base_layers@[i]@,
        0 <= i < state.new_layers@.len() ==> r@[state.base_layers@.len() + i]@
            == state.new_layers@[i]@,
        stack@.len() == state.uppers@.len() + lowers@.len(),
        0 <= i < state.uppers@.len() ==> stack@[i]@ == state.uppers@[state.uppers@.len() - 1 - i]@,
        0 <= i < lowers@.len() ==> stack@[state.uppers@.len() + i]@ == lowers@[i]@,
{
    let views = crate::image::layer_views(r@);
    let base = state@.base_layers;
    assert(views.len() == r@.len());
    if 0 <= i < state.base_layers@.len() {
        assert(views[i] == base[i]);
    }
    if 0 <= i < state.new_layers@.len() {
        assert(views[base.len() + i] == state@.new_layers[i]);
    }
    let all = texts(stack@);
    assert(all.len() == stack@.len());
    if 0 <= i < state.uppers@.len() {
        assert(all[i] == state@.uppers.reverse()[i]);
    }
    if 0 <= i < lowers@.len() {
        assert(all[state.uppers@.len() + i] == texts(lowers@)[i]);
    }
}

/// The cache gives back the layer that was stored, found by the digest of its
/// bytes.
pub proof fn lemma_cached_layer(
    layer: &LayerSource,
    line: String,
    stored: CachedStep,
    digest: String,
    bytes: &[u8],
    data: Vec<u8>,
    r: Option<LayerSource>,
    none: Option<LayerSource>,
)
    requires
        call_ensures(store_layer_cache, (layer, line), stored),
        call_ensures(sha256_digest, (bytes,), digest),
        bytes@ == layer.data@,
        data@ == layer.data@,
        call_ensures(layer_from_cache, (&stored, Some(data)), r),
        call_ensures(layer_from_cache, (&stored, None), none),
    ensures
        stored.blob_digest@ == digest@,
        stored.history_line@ == line@,
        r matches Some(l) && l.data@ == layer.data@ && l.media_type@ == layer.media_type@
            && l.diff_id@ == layer.diff_id@,
        none is None,
{
}

proof fn lemma_secret_kept(
    inputs: Seq<SecretInput>,
    found: Seq<SecretFinding>,
    n: int,
    i: int,
)
    requires
        0 <= i < n <= inputs.len(),
        forall|j: int| i < j < n ==> (#[trigger] inputs[j]).id@ != inputs[i].id@,
    ensures
        secret_files(inputs, found, n).dom().contains(inputs[i].id@),
        secret_files(inputs, found, n)[inputs[i].id@] == secret_file(
            inputs[i].source,
            found[i],
        )->0,
    decreases n,
{
    if i < n - 1 {
        lemma_secret_kept(inputs, found, n - 1, i);
    }
}

proof fn lemma_reason(source: SecretSource)
    ensures
        contains_text(missing_reason(source), source_name(source)),
{
    match source {
        SecretSource::File(path) => {
            lemma_occurs("source file `"@, path@, "` does not exist"@);
        },
        SecretSource::Env { name } => {
            lemma_occurs("environment variable `"@, name@, "` is not set"@);
        },
    }
}

/// The file or the variable that a secret comes from.
pub open spec fn source_name(source: SecretSource) -> Seq<char> {
    match source {
        SecretSource::File(path) => path@,
        SecretSource::Env { name } => name@,
    }
}

/// A secret from a file is used in place, one from a variable from the file that
/// its value was written to; the last of an id counts. The build is refused exactly
/// where a source is not there, and names the first such secret.
pub proof fn lemma_secrets(
    inputs: &Vec<SecretInput>,
    found: &Vec<SecretFinding>,
    r: Result<ResolvedSecrets, EngineBuildError>,
    i: int,
)
    requires
        call_ensures(resolve_secrets, (inputs, found), r),
        inputs@.len() == found@.len(),
        0 <= i < inputs@.len(),
    ensures
        r is Ok && (forall|j: int|
            i < j < inputs@.len() ==> (#[trigger] inputs@[j]).id@ != inputs@[i].id@) ==> ({
            let s = r->Ok_0@;
            &&& s.dom().contains(inputs@[i].id@)
            &&& inputs@[i].source matches SecretSource::File(p) ==> s[inputs@[i].id@] == p@
            &&& inputs@[i].source is Env ==> (found@[i] matches SecretFinding::Env {
                written: Some(f),
            } && s[inputs@[i].id@] == f@)
        }),
        found@[i] == (SecretFinding::File { there: false }) || found@[i] == (SecretFinding::Env {
            written: None,
        }) ==> r is Err,
        r matches Err(e) ==> (e matches EngineBuildError::SecretResolution { id, reason }
            && exists|j: int|
            0 <= j < inputs@.len() && (#[trigger] inputs@[j]).id@ == id@ && contains_text(
                reason@,
                source_name(inputs@[j].source),
            )),
{
    let n = inputs@.len() as int;
    if r is Ok {
        assert(secret_file(inputs@[i].source, found@[i]) is Some);
        if forall|j: int| i < j < n ==> (#[trigger] inputs@[j]).id@ != inputs@[i].id@ {
            lemma_secret_kept(inputs@, found@, n, i);
        }
    } else {
        let k = choose|k: int| #[trigger]
            crate::engine_build::secrets::first_missing(inputs@, found@, k) && (
            r->Err_0 matches EngineBuildError::SecretResolution { id, reason } && id@
                == inputs@[k].id@ && reason@ == missing_reason(inputs@[k].source));
        lemma_reason(inputs@[k].source);
        assert(inputs@[k].id@ == r->Err_0->SecretResolution_id@);
    }
}

} // verus!
