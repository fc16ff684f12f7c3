//! The build of container images, stage by stage.
//!
//! A recipe's stages are built in order. Each stage starts from an image or
//! from nothing, and its directives are applied one by one: some change the
//! configuration, some make a layer. A stage before the last gets an internal
//! reference, under which later stages find its files.
use vstd::prelude::*;
use crate::architecture::Architecture;
use crate::arg_subst::{
    apply_arg_to_scope, global_scope, resolve_global_args, scope_after, subst_with, substitute,
};
use crate::ast::{Add, AddSource, Ast, Directive, FromSource, Stage};
use crate::image::LayerCompression;
use crate::number::{decimal, write_decimal};
use crate::text::{concat3, lemma_texts_push, same, texts};
use crate::text_map::{lemma_text_values_insert, text_values, TextMap};

pub mod add;
pub mod base_image;
pub mod cache;
pub mod directives;
pub mod error;
pub mod fetch;
pub mod run;
pub mod secrets;
pub mod stage;
pub mod state;
pub mod util;

pub use crate::engine_build::error::EngineBuildError;
pub use crate::engine_build::secrets::{SecretInput, SecretSource};

use crate::engine_build::directives::{add_new, push_new};

verus! {

/// What the caller of a build can choose.
#[derive(Debug)]
pub struct EngineBuildOptions {
    /// The CPU architecture of the image.
    pub architecture: Architecture,
    /// How its layers are compressed.
    pub compression: LayerCompression,
    /// Where the container runtime keeps its state; a temporary directory where
    /// nothing is said.
    pub state_root: Option<String>,
    /// The secrets that `RUN`s can mount.
    pub secrets: Vec<SecretInput>,
    /// Values for `ARG`s.
    pub build_args: TextMap<String>,
}

impl EngineBuildOptions {
    /// The options for an architecture, with nothing else chosen.
    pub fn new(architecture: Architecture) -> (r: Self)
        ensures
            r.architecture == architecture,
            r.compression == LayerCompression::Gzip,
            r.state_root is None,
            r.secrets@.len() == 0,
            r.build_args@ == Map::<Seq<char>, String>::empty(),
    {
        EngineBuildOptions {
            architecture,
            compression: LayerCompression::Gzip,
            state_root: None,
            secrets: Vec::new(),
            build_args: TextMap::new(),
        }
    }
}

/// Is the stage named so?
pub open spec fn is_named(stage: Stage, name: Seq<char>) -> bool {
    stage.name matches Some(n) && n@ == name
}

/// Is one of the stages from `from` up to `to` named so?
pub open spec fn named_between(stages: Seq<Stage>, from: int, to: int, name: Seq<char>) -> bool {
    exists|k: int| from <= k < to && is_named(#[trigger] stages[k], name)
}

/// The stage that a directive takes files from.
pub open spec fn from_stage(d: Directive) -> Option<Seq<char>> {
    match d {
        Directive::Add(a) => match a.from {
            Some(name) => Some(name@),
            None => None,
        },
        _ => None,
    }
}

/// Does the `j`th directive of the `i`th stage, where it takes files from a
/// stage, take them from an earlier one?
pub open spec fn refers_back(ast: Ast, i: int, j: int) -> bool {
    from_stage(ast.stages@[i].directives@[j]) matches Some(name) ==> named_between(
        ast.stages@,
        0,
        i,
        name,
    )
}

/// Does every directive that takes files from a stage take them from an earlier
/// one?
pub open spec fn all_refer_back(ast: Ast) -> bool {
    forall|i: int, j: int|
        0 <= i < ast.stages@.len() && 0 <= j < ast.stages@[i].directives@.len()
            ==> #[trigger] refers_back(ast, i, j)
}

/// Is the `j`th directive of the `i`th stage the first that takes files from a
/// stage that is not earlier?
pub open spec fn first_bad_reference(ast: Ast, i: int, j: int) -> bool {
    &&& 0 <= i < ast.stages@.len()
    &&& 0 <= j < ast.stages@[i].directives@.len()
    &&& !refers_back(ast, i, j)
    &&& forall|k: int, l: int|
        0 <= k < i && 0 <= l < ast.stages@[k].directives@.len() ==> #[trigger] refers_back(
            ast,
            k,
            l,
        )
    &&& forall|l: int| 0 <= l < j ==> #[trigger] refers_back(ast, i, l)
}

/// Does the error say what is wrong with a reference from the `i`th stage to
/// `name`?
pub open spec fn is_reference_error(e: EngineBuildError, ast: Ast, i: int, name: Seq<char>) -> bool {
    if is_named(ast.stages@[i], name) {
        e matches EngineBuildError::AddFromSelf { stage } && stage@ == name
    } else if named_between(ast.stages@, i + 1, ast.stages@.len() as int, name) {
        e matches EngineBuildError::AddFromForwardReference { stage } && stage@ == name
    } else {
        e matches EngineBuildError::AddFromUnknownStage { stage } && stage@ == name
    }
}

fn has_name(stage: &Stage, name: &str) -> (r: bool)
    ensures
        r == is_named(*stage, name@),
{
    match &stage.name {
        Some(n) => same(n.as_str(), name),
        None => false,
    }
}

fn any_named(stages: &Vec<Stage>, from: usize, to: usize, name: &str) -> (r: bool)
    requires
        from <= to <= stages@.len(),
    ensures
        r == named_between(stages@, from as int, to as int, name@),
{
    let mut k: usize = from;
    while k < to
        invariant
            from <= k <= to <= stages@.len(),
            forall|m: int| from <= m < k ==> !is_named(#[trigger] stages@[m], name@),
        decreases to - k,
    {
        if has_name(&stages[k], name) {
            assert(is_named(stages@[k as int], name@));
            return true;
        }
        k += 1;
    }
    false
}

/// Checks that every `ADD --from` names an earlier stage. A stage's own name, a
/// later stage's and an unknown one are errors of their own.
pub fn check_cross_stage_refs(ast: &Ast) -> (r: Result<(), EngineBuildError>)
    ensures
        match r {
            Ok(_) => all_refer_back(*ast),
            Err(e) => exists|i: int, j: int| #[trigger]
                first_bad_reference(*ast, i, j) && is_reference_error(
                    e,
                    *ast,
                    i,
                    from_stage(ast.stages@[i].directives@[j])->0,
                ),
        },
{
    let n: usize = ast.stages.len();
    let mut i: usize = 0;
    while i < n
        invariant
            i <= n,
            n == ast.stages@.len(),
            forall|k: int, l: int|
                0 <= k < i && 0 <= l < ast.stages@[k].directives@.len() ==> #[trigger] refers_back(
                    *ast,
                    k,
                    l,
                ),
        decreases n - i,
    {
        let stage = &ast.stages[i];
        let mut j: usize = 0;
        while j < stage.directives.len()
            invariant
                i < n,
                n == ast.stages@.len(),
                *stage == ast.stages@[i as int],
                j <= stage.directives@.len(),
                forall|k: int, l: int|
                    0 <= k < i && 0 <= l < ast.stages@[k].directives@.len()
                        ==> #[trigger] refers_back(*ast, k, l),
                forall|l: int| 0 <= l < j ==> #[trigger] refers_back(*ast, i as int, l),
            decreases stage.directives.len() - j,
        {
            if let Directive::Add(add) = &stage.directives[j] {
                if let Some(from) = &add.from {
                    let target = from.as_str();
                    if !any_named(&ast.stages, 0, i, target) {
                        assert(first_bad_reference(*ast, i as int, j as int));
                        let name = from.clone();
                        return Err(
                            if has_name(stage, target) {
                                EngineBuildError::AddFromSelf { stage: name }
                            } else if any_named(&ast.stages, i + 1, n, target) {
                                EngineBuildError::AddFromForwardReference { stage: name }
                            } else {
                                EngineBuildError::AddFromUnknownStage { stage: name }
                            },
                        );
                    }
                }
            }
            assert(refers_back(*ast, i as int, j as int));
            j += 1;
        }
        i += 1;
    }
    Ok(())
}

/// The reference under which the `i`th of `total` stages is kept.
pub open spec fn stage_ref_text(i: int, total: int, final_ref: Seq<char>) -> Seq<char> {
    if i + 1 == total {
        final_ref
    } else {
        internal_ref(i)
    }
}

/// The internal reference of the `i`th stage.
pub open spec fn internal_ref(i: int) -> Seq<char> {
    "umf-build/stage-"@ + decimal(i as nat) + ":internal"@
}

/// The internal reference of the `i`th stage.
pub fn internal_stage_ref(i: usize) -> (r: String)
    ensures
        r@ == internal_ref(i as int),
{
    let n = write_decimal(i as u128);
    concat3("umf-build/stage-", n.as_str(), ":internal")
}

/// The reference under which the `i`th of `total` stages is kept: what the
/// caller asked for in the case of the last, an internal one else.
pub fn stage_ref(i: usize, total: usize, final_ref: &str) -> (r: String)
    requires
        i < total,
    ensures
        r@ == stage_ref_text(i as int, total as int, final_ref@),
{
    if i == total - 1 {
        String::from_str(final_ref)
    } else {
        internal_stage_ref(i)
    }
}

/// The references of the first `n` stages, by name; the last of a name counts.
pub open spec fn produced_by(
    stages: Seq<Stage>,
    n: int,
    total: int,
    final_ref: Seq<char>,
) -> Map<Seq<char>, Seq<char>>
    decreases n,
{
    if n <= 0 {
        Map::empty()
    } else {
        let before = produced_by(stages, n - 1, total, final_ref);
        match stages[n - 1].name {
            Some(name) => before.insert(name@, stage_ref_text(n - 1, total, final_ref)),
            None => before,
        }
    }
}

/// Notes the reference of a stage that was built.
pub fn record_stage(produced: &mut TextMap<String>, stage: &Stage, reference: &str)
    ensures
        text_values(final(produced)@) == (match stage.name {
            Some(name) => text_values(old(produced)@).insert(name@, reference@),
            None => text_values(old(produced)@),
        }),
{
    if let Some(name) = &stage.name {
        let value = String::from_str(reference);
        proof {
            lemma_text_values_insert(produced@, name@, value);
        }
        produced.insert(name.clone(), value);
    }
}

proof fn lemma_produced_dom(stages: Seq<Stage>, n: int, total: int, final_ref: Seq<char>, name: Seq<char>)
    requires
        0 <= n <= stages.len(),
    ensures
        produced_by(stages, n, total, final_ref).dom().contains(name) == named_between(
            stages,
            0,
            n,
            name,
        ),
    decreases n,
{
    if n > 0 {
        lemma_produced_dom(stages, n - 1, total, final_ref, name);
        if named_between(stages, 0, n - 1, name) {
            let k = choose|k: int| 0 <= k < n - 1 && is_named(#[trigger] stages[k], name);
            assert(is_named(stages[k], name));
        }
        if is_named(stages[n - 1], name) {
            assert(named_between(stages, 0, n, name));
        }
        if named_between(stages, 0, n, name) && !is_named(stages[n - 1], name) {
            let k = choose|k: int| 0 <= k < n && is_named(#[trigger] stages[k], name);
            assert(k < n - 1);
        }
    }
}

/// In a recipe that passed the check, every `ADD --from` finds its stage: by the
/// time a stage is built, the stage that it takes files from has a reference.
pub proof fn lemma_references_found(ast: Ast, i: int, j: int, final_ref: Seq<char>)
    requires
        all_refer_back(ast),
        0 <= i < ast.stages@.len(),
        0 <= j < ast.stages@[i].directives@.len(),
        from_stage(ast.stages@[i].directives@[j]) is Some,
    ensures
        produced_by(ast.stages@, i, ast.stages@.len() as int, final_ref).dom().contains(
            from_stage(ast.stages@[i].directives@[j])->0,
        ),
{
    assert(refers_back(ast, i, j));
    lemma_produced_dom(
        ast.stages@,
        i,
        ast.stages@.len() as int,
        final_ref,
        from_stage(ast.stages@[i].directives@[j])->0,
    );
}

/// The scope behind a directive.
pub open spec fn scope_behind(
    scope: Map<Seq<char>, Seq<char>>,
    d: Directive,
    build_args: Map<Seq<char>, Seq<char>>,
) -> Map<Seq<char>, Seq<char>> {
    match d {
        Directive::Arg(a) => scope_after(scope, a, build_args),
        _ => scope,
    }
}

/// The scope before the `n`th directive of a stage.
pub open spec fn scope_at(
    directives: Seq<Directive>,
    n: int,
    globals: Map<Seq<char>, Seq<char>>,
    build_args: Map<Seq<char>, Seq<char>>,
) -> Map<Seq<char>, Seq<char>>
    decreases n,
{
    if n <= 0 {
        globals
    } else {
        scope_behind(scope_at(directives, n - 1, globals, build_args), directives[n - 1], build_args)
    }
}

/// The URL that a directive has fetched. A `COPY` has none.
pub open spec fn wanted_url(d: Directive, scope: Map<Seq<char>, Seq<char>>) -> Option<Seq<char>> {
    match d {
        Directive::Add(a) => match a.source {
            AddSource::Url(url) => if a.plain_copy {
                None
            } else {
                Some(substitute(url@, scope))
            },
            _ => None,
        },
        _ => None,
    }
}

/// The image that a directive has pulled. A `COPY` has none.
pub open spec fn wanted_image(d: Directive, scope: Map<Seq<char>, Seq<char>>) -> Option<Seq<char>> {
    match d {
        Directive::Add(a) => match a.source {
            AddSource::Oci(image) => if a.plain_copy {
                None
            } else {
                Some(substitute(image@, scope))
            },
            _ => None,
        },
        _ => None,
    }
}

/// `urls` and those that the first `n` directives of a stage have fetched, each
/// once.
pub open spec fn urls_behind(
    urls: Seq<Seq<char>>,
    directives: Seq<Directive>,
    n: int,
    globals: Map<Seq<char>, Seq<char>>,
    build_args: Map<Seq<char>, Seq<char>>,
) -> Seq<Seq<char>>
    decreases n,
{
    if n <= 0 {
        urls
    } else {
        let before = urls_behind(urls, directives, n - 1, globals, build_args);
        match wanted_url(directives[n - 1], scope_at(directives, n - 1, globals, build_args)) {
            Some(url) => add_new(before, url),
            None => before,
        }
    }
}

/// The URLs that the first `n` stages have fetched, each once.
pub open spec fn stage_urls(
    stages: Seq<Stage>,
    n: int,
    globals: Map<Seq<char>, Seq<char>>,
    build_args: Map<Seq<char>, Seq<char>>,
) -> Seq<Seq<char>>
    decreases n,
{
    if n <= 0 {
        Seq::empty()
    } else {
        urls_behind(
            stage_urls(stages, n - 1, globals, build_args),
            stages[n - 1].directives@,
            stages[n - 1].directives@.len() as int,
            globals,
            build_args,
        )
    }
}

/// The images that the first `n` directives of a stage have pulled, in order.
pub open spec fn images_behind(
    directives: Seq<Directive>,
    n: int,
    globals: Map<Seq<char>, Seq<char>>,
    build_args: Map<Seq<char>, Seq<char>>,
) -> Seq<Seq<char>>
    decreases n,
{
    if n <= 0 {
        Seq::empty()
    } else {
        let before = images_behind(directives, n - 1, globals, build_args);
        match wanted_image(directives[n - 1], scope_at(directives, n - 1, globals, build_args)) {
            Some(image) => before.push(image),
            None => before,
        }
    }
}

fn url_wanted(d: &Directive, scope: &TextMap<String>) -> (r: Option<String>)
    ensures
        match r {
            Some(u) => wanted_url(*d, text_values(scope@)) == Some(u@),
            None => wanted_url(*d, text_values(scope@)) is None,
        },
{
    match d {
        Directive::Add(a) => match &a.source {
            AddSource::Url(url) => if a.plain_copy {
                None
            } else {
                Some(subst_with(scope, url.as_str()))
            },
            _ => None,
        },
        _ => None,
    }
}

fn image_wanted(d: &Directive, scope: &TextMap<String>) -> (r: Option<String>)
    ensures
        match r {
            Some(u) => wanted_image(*d, text_values(scope@)) == Some(u@),
            None => wanted_image(*d, text_values(scope@)) is None,
        },
{
    match d {
        Directive::Add(a) => match &a.source {
            AddSource::Oci(image) => if a.plain_copy {
                None
            } else {
                Some(subst_with(scope, image.as_str()))
            },
            _ => None,
        },
        _ => None,
    }
}

fn advance_scope(scope: &mut TextMap<String>, d: &Directive, build_args: &TextMap<String>)
    ensures
        text_values(final(scope)@) == scope_behind(
            text_values(old(scope)@),
            *d,
            text_values(build_args@),
        ),
{
    if let Directive::Arg(arg) = d {
        apply_arg_to_scope(scope, arg, build_args);
    }
}

/// The URLs to fetch before the first `count` stages are built, each once. An
/// `ARG` counts from the directive on that declares it.
pub fn urls_to_fetch(
    stages: &Vec<Stage>,
    count: usize,
    globals: &TextMap<String>,
    build_args: &TextMap<String>,
) -> (r: Vec<String>)
    requires
        count <= stages@.len(),
    ensures
        texts(r@) == stage_urls(
            stages@,
            count as int,
            text_values(globals@),
            text_values(build_args@),
        ),
{
    let ghost g = text_values(globals@);
    let ghost b = text_values(build_args@);
    let mut urls: Vec<String> = Vec::new();
    let mut i: usize = 0;
    assert(texts(urls@) =~= Seq::empty());
    while i < count
        invariant
            i <= count <= stages@.len(),
            g == text_values(globals@),
            b == text_values(build_args@),
            texts(urls@) == stage_urls(stages@, i as int, g, b),
        decreases count - i,
    {
        let directives = &stages[i].directives;
        let ghost d = directives@;
        let ghost before = texts(urls@);
        let mut scope = globals.clone();
        let mut j: usize = 0;
        while j < directives.len()
            invariant
                j <= directives@.len(),
                d == directives@,
                g == text_values(globals@),
                b == text_values(build_args@),
                text_values(scope@) == scope_at(d, j as int, g, b),
                texts(urls@) == urls_behind(before, d, j as int, g, b),
            decreases directives.len() - j,
        {
            if let Some(url) = url_wanted(&directives[j], &scope) {
                push_new(&mut urls, url);
            }
            advance_scope(&mut scope, &directives[j], build_args);
            j += 1;
        }
        i += 1;
    }
    urls
}

/// The images to pull before a stage is built, in order.
pub fn images_to_pull(stage: &Stage, globals: &TextMap<String>, build_args: &TextMap<String>) -> (r:
    Vec<String>)
    ensures
        texts(r@) == images_behind(
            stage.directives@,
            stage.directives@.len() as int,
            text_values(globals@),
            text_values(build_args@),
        ),
{
    let ghost g = text_values(globals@);
    let ghost b = text_values(build_args@);
    let ghost d = stage.directives@;
    let mut images: Vec<String> = Vec::new();
    let mut scope = globals.clone();
    let mut j: usize = 0;
    assert(texts(images@) =~= Seq::empty());
    while j < stage.directives.len()
        invariant
            j <= stage.directives@.len(),
            d == stage.directives@,
            g == text_values(globals@),
            b == text_values(build_args@),
            text_values(scope@) == scope_at(d, j as int, g, b),
            texts(images@) == images_behind(d, j as int, g, b),
        decreases stage.directives.len() - j,
    {
        if let Some(image) = image_wanted(&stage.directives[j], &scope) {
            proof {
                lemma_texts_push(images@, image);
            }
            images.push(image);
        }
        advance_scope(&mut scope, &stage.directives[j], build_args);
        j += 1;
    }
    images
}

proof fn lemma_urls_kept(
    urls: Seq<Seq<char>>,
    directives: Seq<Directive>,
    n: int,
    globals: Map<Seq<char>, Seq<char>>,
    build_args: Map<Seq<char>, Seq<char>>,
    url: Seq<char>,
)
    requires
        urls.contains(url),
    ensures
        urls_behind(urls, directives, n, globals, build_args).contains(url),
    decreases n,
{
    if n > 0 {
        lemma_urls_kept(urls, directives, n - 1, globals, build_args, url);
        let before = urls_behind(urls, directives, n - 1, globals, build_args);
        match wanted_url(directives[n - 1], scope_at(directives, n - 1, globals, build_args)) {
            Some(x) => {
                let k = choose|k: int| 0 <= k < before.len() && before[k] == url;
                assert(before.push(x)[k] == url);
            },
            None => {},
        }
    }
}

proof fn lemma_stage_url(
    urls: Seq<Seq<char>>,
    directives: Seq<Directive>,
    n: int,
    j: int,
    globals: Map<Seq<char>, Seq<char>>,
    build_args: Map<Seq<char>, Seq<char>>,
)
    requires
        0 <= j < n,
        wanted_url(directives[j], scope_at(directives, j, globals, build_args)) is Some,
    ensures
        urls_behind(urls, directives, n, globals, build_args).contains(
            wanted_url(directives[j], scope_at(directives, j, globals, build_args))->0,
        ),
    decreases n,
{
    let before = urls_behind(urls, directives, n - 1, globals, build_args);
    let url = wanted_url(directives[j], scope_at(directives, j, globals, build_args))->0;
    if j < n - 1 {
        lemma_stage_url(urls, directives, n - 1, j, globals, build_args);
        match wanted_url(directives[n - 1], scope_at(directives, n - 1, globals, build_args)) {
            Some(x) => {
                let k = choose|k: int| 0 <= k < before.len() && before[k] == url;
                assert(before.push(x)[k] == url);
            },
            None => {},
        }
    } else {
        assert(before.push(url)[before.len() as int] == url);
    }
}

/// What a directive has fetched was fetched: the URL of an `ADD` in one of the
/// first `n` stages, read in the scope at that directive, is among those of
/// [`urls_to_fetch`].
pub proof fn lemma_url_fetched(
    stages: Seq<Stage>,
    n: int,
    i: int,
    j: int,
    globals: Map<Seq<char>, Seq<char>>,
    build_args: Map<Seq<char>, Seq<char>>,
)
    requires
        0 <= i < n <= stages.len(),
        0 <= j < stages[i].directives@.len(),
        wanted_url(
            stages[i].directives@[j],
            scope_at(stages[i].directives@, j, globals, build_args),
        ) is Some,
    ensures
        stage_urls(stages, n, globals, build_args).contains(
            wanted_url(
                stages[i].directives@[j],
                scope_at(stages[i].directives@, j, globals, build_args),
            )->0,
        ),
    decreases n,
{
    let url = wanted_url(
        stages[i].directives@[j],
        scope_at(stages[i].directives@, j, globals, build_args),
    )->0;
    let before = stage_urls(stages, n - 1, globals, build_args);
    let d = stages[n - 1].directives@;
    if i < n - 1 {
        lemma_url_fetched(stages, n - 1, i, j, globals, build_args);
        lemma_urls_kept(before, d, d.len() as int, globals, build_args, url);
    } else {
        lemma_stage_url(before, d, d.len() as int, j, globals, build_args);
    }
}

/// What a stage starts from.
#[derive(Debug)]
pub enum StageBase {
    /// Nothing.
    Scratch,
    /// The image with this reference.
    Image(String),
}

/// What a stage starts from, with the references to build-global `ARG`s
/// replaced.
pub fn stage_base(stage: &Stage, globals: &TextMap<String>) -> (r: StageBase)
    ensures
        match stage.from {
            FromSource::Scratch => r is Scratch,
            FromSource::Reference(text) => r matches StageBase::Image(x) && x@ == substitute(
                text@,
                text_values(globals@),
            ),
        },
{
    match &stage.from {
        FromSource::Scratch => StageBase::Scratch,
        FromSource::Reference(text) => StageBase::Image(subst_with(globals, text.as_str())),
    }
}

/// What is known of a build before its first stage.
#[derive(Debug)]
pub struct BuildPlan {
    /// The build-global scope.
    pub globals: TextMap<String>,
    /// The URLs to fetch.
    pub urls: Vec<String>,
    /// The reference of each stage that is built, in order.
    pub stage_refs: Vec<String>,
}

/// Prepares the build of all stages.
pub fn build(ast: &Ast, final_ref: &str, options: &EngineBuildOptions) -> (r: Result<
    BuildPlan,
    EngineBuildError,
>)
    ensures
        ({
            let total = ast.stages@.len() as int;
            let globals = global_scope(*ast, text_values(options.build_args@));
            match r {
                Ok(p) => {
                    &&& total > 0
                    &&& all_refer_back(*ast)
                    &&& text_values(p.globals@) == globals
                    &&& texts(p.urls@) == stage_urls(
                        ast.stages@,
                        total,
                        globals,
                        text_values(options.build_args@),
                    )
                    &&& texts(p.stage_refs@) == Seq::new(
                        total as nat,
                        |i: int| stage_ref_text(i, total, final_ref@),
                    )
                },
                Err(e) => if total == 0 {
                    e is NoStages
                } else {
                    exists|i: int, j: int| #[trigger]
                        first_bad_reference(*ast, i, j) && is_reference_error(
                            e,
                            *ast,
                            i,
                            from_stage(ast.stages@[i].directives@[j])->0,
                        )
                },
            }
        }),
{
    let total: usize = ast.stages.len();
    if total == 0 {
        return Err(EngineBuildError::NoStages);
    }
    if let Err(e) = check_cross_stage_refs(ast) {
        return Err(e);
    }
    let globals = resolve_global_args(ast, &options.build_args);
    let urls = urls_to_fetch(&ast.stages, total, &globals, &options.build_args);
    let mut stage_refs: Vec<String> = Vec::new();
    let ghost all = Seq::new(total as nat, |i: int| stage_ref_text(i, total as int, final_ref@));
    let mut i: usize = 0;
    assert(texts(stage_refs@) =~= all.take(0));
    while i < total
        invariant
            i <= total,
            all == Seq::new(total as nat, |i: int| stage_ref_text(i, total as int, final_ref@)),
            texts(stage_refs@) == all.take(i as int),
        decreases total - i,
    {
        let reference = stage_ref(i, total, final_ref);
        proof {
            lemma_texts_push(stage_refs@, reference);
            assert(all.take(i as int + 1) =~= all.take(i as int).push(reference@));
        }
        stage_refs.push(reference);
        i += 1;
    }
    assert(all.take(i as int) =~= all);
    Ok(BuildPlan { globals, urls, stage_refs })
}

/// Prepares the build of a recipe with a single stage. More stages are an error.
pub fn build_single_stage(ast: &Ast, final_ref: &str, options: &EngineBuildOptions) -> (r: Result<
    BuildPlan,
    EngineBuildError,
>)
    ensures
        ({
            let total = ast.stages@.len();
            match r {
                Ok(p) => total == 1 && all_refer_back(*ast) && texts(p.stage_refs@)
                    == seq![final_ref@] && text_values(p.globals@) == global_scope(
                    *ast,
                    text_values(options.build_args@),
                ) && texts(p.urls@) == stage_urls(
                    ast.stages@,
                    1,
                    text_values(p.globals@),
                    text_values(options.build_args@),
                ),
                Err(e) => if total > 1 {
                    e is MultiStageNotSupported
                } else if total == 0 {
                    e is NoStages
                } else {
                    exists|i: int, j: int| #[trigger]
                        first_bad_reference(*ast, i, j) && is_reference_error(
                            e,
                            *ast,
                            i,
                            from_stage(ast.stages@[i].directives@[j])->0,
                        )
                },
            }
        }),
{
    if ast.stages.len() > 1 {
        return Err(EngineBuildError::MultiStageNotSupported);
    }
    match build(ast, final_ref, options) {
        Ok(p) => {
            assert(texts(p.stage_refs@) =~= seq![final_ref@]);
            Ok(p)
        },
        Err(e) => Err(e),
    }
}

/// Refuses a stage before the last that starts from a kernel.
pub fn check_not_nested(stage_index: usize, from: &str, is_kernel: bool) -> (r: Result<
    (),
    EngineBuildError,
>)
    ensures
        match r {
            Ok(_) => !is_kernel,
            Err(e) => is_kernel && (e matches EngineBuildError::NestedBootableStage {
                stage_index: i,
                from: f,
            } && i == stage_index && f@ == from@),
        },
{
    if is_kernel {
        Err(EngineBuildError::NestedBootableStage { stage_index, from: String::from_str(from) })
    } else {
        Ok(())
    }
}

/// Prepares the build of the stages before the last of a bootable recipe, each
/// under an internal reference. A recipe with one stage has none.
pub fn build_container_stages(ast: &Ast, options: &EngineBuildOptions) -> (r: Result<
    Option<BuildPlan>,
    EngineBuildError,
>)
    ensures
        ({
            let total = ast.stages@.len() as int;
            let globals = global_scope(*ast, text_values(options.build_args@));
            match r {
                Ok(None) => total <= 1,
                Ok(Some(p)) => {
                    &&& total > 1
                    &&& all_refer_back(*ast)
                    &&& text_values(p.globals@) == globals
                    &&& texts(p.urls@) == stage_urls(
                        ast.stages@,
                        total - 1,
                        globals,
                        text_values(options.build_args@),
                    )
                    &&& texts(p.stage_refs@) == Seq::new(
                        (total - 1) as nat,
                        |i: int| internal_ref(i),
                    )
                },
                Err(e) => total > 1 && exists|i: int, j: int| #[trigger]
                    first_bad_reference(*ast, i, j) && is_reference_error(
                        e,
                        *ast,
                        i,
                        from_stage(ast.stages@[i].directives@[j])->0,
                    ),
            }
        }),
{
    let total: usize = ast.stages.len();
    if total <= 1 {
        return Ok(None);
    }
    if let Err(e) = check_cross_stage_refs(ast) {
        return Err(e);
    }
    let count: usize = total - 1;
    let globals = resolve_global_args(ast, &options.build_args);
    let urls = urls_to_fetch(&ast.stages, count, &globals, &options.build_args);
    let mut stage_refs: Vec<String> = Vec::new();
    let ghost all = Seq::new(count as nat, |i: int| internal_ref(i));
    let mut i: usize = 0;
    assert(texts(stage_refs@) =~= all.take(0));
    while i < count
        invariant
            i <= count,
            all == Seq::new(count as nat, |i: int| internal_ref(i)),
            texts(stage_refs@) == all.take(i as int),
        decreases count - i,
    {
        let reference = internal_stage_ref(i);
        proof {
            lemma_texts_push(stage_refs@, reference);
            assert(all.take(i as int + 1) =~= all.take(i as int).push(reference@));
        }
        stage_refs.push(reference);
        i += 1;
    }
    assert(all.take(i as int) =~= all);
    Ok(Some(BuildPlan { globals, urls, stage_refs }))
}

} // verus!
