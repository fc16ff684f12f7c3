//! The walk through the directives of one stage.
//!
//! Each directive is planned against the state so far. A directive that makes
//! no layer is applied at once. For one that makes a layer the cache is asked
//! first; what comes of it, or the layer that was made, goes back into the
//! walk. Where a `RUN` would see a file system that lacks a layer from the
//! cache, the stage is walked again without asking the cache.
use vstd::prelude::*;
use crate::architecture::Architecture;
use crate::arg_subst::global_scope;
use crate::ast::{Add, Ast, Directive, Run, Stage};
use crate::image::{layer_views, ImageConfig, LayerCompression, LayerSource, LayerView};
use crate::text_map::{text_values, TextMap};
use super::add::{
    add_history_line, add_line, add_outcome, is_outcome, plan_add, AddPlan, AddRefusal,
};
use super::cache::parent_key;
use super::directives::{
    after_metadata, after_workdir, apply_arg, apply_cmd, apply_entrypoint, apply_env, apply_expose,
    apply_label, apply_shell, apply_stopsignal, apply_user, apply_volume, apply_workdir,
    classify_directive, describe_directive, directive_text, is_workdir_plan, plan_workdir,
    shortened, step_kind, workdir_after, StepKind, WorkdirPlan,
};
use super::error::EngineBuildError;
use super::run::{
    is_run_plan, plan_run, run_argv, run_decision, run_history_line, run_key, run_line, RunDecision,
    RunPlan,
};
use super::secrets::ResolvedSecrets;
use super::state::{
    cached_step, initial_state, layer_from_cache, restored_layer, store_layer_cache, BaseImage,
    BuildState, CachedStep, StateView,
};
use super::{
    all_refer_back, lemma_references_found, lemma_url_fetched, produced_by, scope_at, scope_behind,
    stage_urls,
};

verus! {

/// What a directive asks for.
#[derive(Debug)]
pub enum StepPlan {
    /// Nothing beyond the configuration.
    Metadata,
    /// A directory as a layer of its own.
    Workdir(WorkdirPlan),
    /// A command.
    Run(RunPlan),
    /// Files.
    Add(AddPlan),
}

/// What goes into the planning of a stage's directives.
#[derive(Debug)]
pub struct StageContext {
    /// The secrets of the build.
    pub secrets: ResolvedSecrets,
    /// The references of the stages so far, by name.
    pub produced: TextMap<String>,
    /// The digests of what was fetched, by URL.
    pub fetched: TextMap<String>,
    /// The CPU architecture of the image.
    pub architecture: Architecture,
    /// Values for `ARG`s.
    pub build_args: TextMap<String>,
}

/// The walk through the directives of a stage.
#[derive(Debug)]
pub struct StageWalk {
    state: BuildState,
    lookup_cache: bool,
    at: usize,
}

/// The model of a [`StageWalk`].
#[verifier::ext_equal]
pub struct StageView {
    /// The state so far.
    pub state: StateView,
    /// Is the cache asked?
    pub lookup_cache: bool,
    /// How many directives are done.
    pub at: nat,
}

impl View for StageWalk {
    type V = StageView;

    closed spec fn view(&self) -> StageView {
        StageView { state: self.state@, lookup_cache: self.lookup_cache, at: self.at as nat }
    }
}

impl StageView {
    /// The next directive.
    pub open spec fn directive(self, stage: Stage) -> Directive {
        stage.directives@[self.at as int]
    }
}

/// Is the directive one whose layer may be in the cache?
pub open spec fn asks_cache(d: Directive) -> bool {
    d is Run || d is Add
}

/// Does the directive make a layer?
pub open spec fn makes_layer(d: Directive) -> bool {
    asks_cache(d) || d is Workdir
}

/// The line that a directive with a layer leaves in the history: its text in the
/// recipe.
pub open spec fn layer_line(d: Directive) -> Seq<char> {
    match d {
        Directive::Run(run) => run_line(run),
        Directive::Add(add) => add_line(add),
        Directive::Workdir(wd) => "WORKDIR "@ + wd.path@,
        _ => ""@,
    }
}

/// The state behind a `WORKDIR` whose directory was made as `layer`.
pub open spec fn behind_workdir(
    s: StateView,
    d: Directive,
    layer: LayerView,
    upper: Seq<char>,
    now: Seq<char>,
) -> StateView {
    after_workdir(s, workdir_after(s, d->Workdir_0.path@), layer_line(d), layer, upper, now)
}

/// What is said of a step before and after it.
#[derive(Debug)]
pub struct StepInfo {
    /// The number of the stage, from one.
    pub stage_index: usize,
    /// How many stages there are.
    pub stage_total: usize,
    /// The number of the step, from one.
    pub step_index: u32,
    /// How many steps the stage has.
    pub step_total: u32,
    /// What kind of step it is.
    pub kind: StepKind,
    /// The step in one line.
    pub description: String,
}

/// What came of asking the cache.
#[derive(Debug)]
pub enum LookupOutcome {
    /// The step is done: its layer came from the cache.
    Adopted(StageWalk),
    /// The step is to be executed.
    Execute(StageWalk),
    /// The stage is to be walked again, from the start and without the cache.
    RebuildWithoutCache,
}

/// The layer that the cache has for a step.
pub open spec fn cached_layer(found: Option<(CachedStep, Option<Vec<u8>>)>) -> Option<LayerView> {
    match found {
        Some((entry, Some(data))) => Some(restored_layer(entry@, data@)),
        _ => None,
    }
}

/// The line in the history of the step that the cache has.
pub open spec fn cached_line(found: Option<(CachedStep, Option<Vec<u8>>)>) -> Seq<char> {
    match found {
        Some((entry, _)) => entry.history_line@,
        None => Seq::empty(),
    }
}

impl StageWalk {
    #[verifier::type_invariant]
    spec fn adopts_only_by_lookup(self) -> bool {
        self.state@.adopted ==> self.lookup_cache
    }

    /// Starts a stage. The cache is asked.
    pub fn start(base: BaseImage, compression: LayerCompression, globals: &TextMap<String>) -> (r:
        StageWalk)
        ensures
            r@ == (StageView {
                state: initial_state(
                    base.config@,
                    layer_views(base.layers@),
                    compression,
                    text_values(globals@),
                ),
                lookup_cache: true,
                at: 0,
            }),
    {
        StageWalk { state: BuildState::new(base, compression, globals), lookup_cache: true, at: 0 }
    }

    /// Starts a stage again. The cache is not asked, so it is never started a
    /// third time: see [`StageWalk::on_lookup`].
    pub fn restart(base: BaseImage, compression: LayerCompression, globals: &TextMap<String>) -> (r:
        StageWalk)
        ensures
            r@ == (StageView {
                state: initial_state(
                    base.config@,
                    layer_views(base.layers@),
                    compression,
                    text_values(globals@),
                ),
                lookup_cache: false,
                at: 0,
            }),
    {
        StageWalk { state: BuildState::new(base, compression, globals), lookup_cache: false, at: 0 }
    }

    /// The state so far.
    pub fn state(&self) -> (r: &BuildState)
        ensures
            r@ == self@.state,
    {
        &self.state
    }

    /// Is the cache asked?
    pub fn lookup_cache(&self) -> (r: bool)
        ensures
            r == self@.lookup_cache,
    {
        self.lookup_cache
    }

    /// The next directive, if there is one: they come in source order, each once.
    pub fn next<'a>(&self, stage: &'a Stage) -> (r: Option<&'a Directive>)
        ensures
            match r {
                Some(d) => self@.at < stage.directives@.len() && *d == self@.directive(*stage),
                None => self@.at >= stage.directives@.len(),
            },
    {
        if self.at < stage.directives.len() {
            Some(&stage.directives[self.at])
        } else {
            None
        }
    }

    /// What is said of the next step, in the stage with that number.
    pub fn step_info(&self, stage: &Stage, stage_index: usize, stage_total: usize) -> (r: StepInfo)
        requires
            self@.at < stage.directives@.len(),
            self@.at < u32::MAX,
        ensures
            r.stage_index == stage_index,
            r.stage_total == stage_total,
            r.step_index == self@.at + 1,
            r.step_total == (if stage.directives@.len() <= u32::MAX {
                stage.directives@.len() as int
            } else {
                u32::MAX as int
            }),
            r.kind == step_kind(self@.directive(*stage)),
            r.description@ == shortened(directive_text(self@.directive(*stage)), 80),
    {
        let d = &stage.directives[self.at];
        let n: usize = stage.directives.len();
        StepInfo {
            stage_index,
            stage_total,
            step_index: self.at as u32 + 1,
            step_total: if n as u64 <= u32::MAX as u64 {
                n as u32
            } else {
                u32::MAX
            },
            kind: classify_directive(d),
            description: describe_directive(d),
        }
    }

    /// What the next directive asks for in the state so far.
    pub fn plan(&self, stage: &Stage, context: &StageContext) -> (r: Result<
        StepPlan,
        EngineBuildError,
    >)
        requires
            self@.at < stage.directives@.len(),
        ensures
            match self@.directive(*stage) {
                Directive::Run(run) => match r {
                    Ok(StepPlan::Run(p)) => is_run_plan(
                        Ok(p),
                        self@.state,
                        run,
                        context.secrets@,
                        context.architecture,
                    ),
                    Err(e) => is_run_plan(
                        Err(e),
                        self@.state,
                        run,
                        context.secrets@,
                        context.architecture,
                    ),
                    _ => false,
                },
                Directive::Add(add) => match r {
                    Ok(StepPlan::Add(p)) => is_outcome(
                        Ok(p),
                        add_outcome(
                            self@.state,
                            add,
                            text_values(context.produced@),
                            text_values(context.fetched@),
                        ),
                    ),
                    Err(e) => is_outcome(
                        Err(e),
                        add_outcome(
                            self@.state,
                            add,
                            text_values(context.produced@),
                            text_values(context.fetched@),
                        ),
                    ),
                    _ => false,
                },
                Directive::Workdir(wd) => r matches Ok(StepPlan::Workdir(p)) && is_workdir_plan(
                    p,
                    self@.state,
                    wd,
                ),
                _ => r matches Ok(StepPlan::Metadata),
            },
    {
        match &stage.directives[self.at] {
            Directive::Run(run) => match plan_run(
                &self.state,
                run,
                &context.secrets,
                context.architecture,
            ) {
                Ok(p) => Ok(StepPlan::Run(p)),
                Err(e) => Err(e),
            },
            Directive::Add(add) => match plan_add(
                &self.state,
                add,
                &context.produced,
                &context.fetched,
            ) {
                Ok(p) => Ok(StepPlan::Add(p)),
                Err(e) => Err(e),
            },
            Directive::Workdir(wd) => Ok(StepPlan::Workdir(plan_workdir(&self.state, wd))),
            _ => Ok(StepPlan::Metadata),
        }
    }

    /// Applies the next directive, which makes no layer.
    pub fn on_metadata(self, stage: &Stage, build_args: &TextMap<String>, now: &str) -> (r:
        StageWalk)
        requires
            self@.at < stage.directives@.len(),
            !makes_layer(self@.directive(*stage)),
        ensures
            r@ == (StageView {
                state: after_metadata(
                    self@.state,
                    self@.directive(*stage),
                    text_values(build_args@),
                    now@,
                ),
                at: self@.at + 1,
                ..self@
            }),
    {
        proof {
            use_type_invariant(&self);
            assert(stage.directives@.len() == stage.directives.len());
        }
        let mut state = self.state;
        match &stage.directives[self.at] {
            Directive::User(x) => apply_user(&mut state, x, now),
            Directive::Env(x) => apply_env(&mut state, x, now),
            Directive::Arg(x) => apply_arg(&mut state, x, build_args),
            Directive::Shell(x) => apply_shell(&mut state, x, now),
            Directive::Label(x) => apply_label(&mut state, x, now),
            Directive::Entrypoint(x) => apply_entrypoint(&mut state, x, now),
            Directive::Expose(x) => apply_expose(&mut state, x, now),
            Directive::Cmd(x) => apply_cmd(&mut state, x, now),
            Directive::Volume(x) => apply_volume(&mut state, x, now),
            Directive::Stopsignal(x) => apply_stopsignal(&mut state, x, now),
            Directive::Run(_) | Directive::Add(_) | Directive::Workdir(_) => {},
        }
        StageWalk { state, lookup_cache: self.lookup_cache, at: self.at + 1 }
    }

    /// Takes what the cache has for the next step: the entry under its key and the
    /// bytes of its layer, as far as they are there. A `RUN` without a layer
    /// from the cache, behind a step with one, cannot be executed; a walk that
    /// does not ask the cache never comes to that.
    pub fn on_lookup(
        self,
        stage: &Stage,
        found: Option<(CachedStep, Option<Vec<u8>>)>,
        now: &str,
    ) -> (r: LookupOutcome)
        requires
            self@.at < stage.directives@.len(),
            asks_cache(self@.directive(*stage)),
        ensures
            match run_decision(
                self@.directive(*stage) is Run && self@.state.adopted,
                self@.lookup_cache,
                cached_layer(found) is Some,
            ) {
                RunDecision::Adopt => r matches LookupOutcome::Adopted(w) && w@ == (StageView {
                    state: self@.state.with_cached(
                        cached_layer(found)->0,
                        cached_line(found),
                        now@,
                    ),
                    at: self@.at + 1,
                    ..self@
                }),
                RunDecision::Execute => r matches LookupOutcome::Execute(w) && w@ == self@ && (
                self@.directive(*stage) is Run ==> !w@.state.adopted),
                RunDecision::RebuildWithoutCache => r is RebuildWithoutCache,
            },
            r is RebuildWithoutCache ==> self@.lookup_cache && self@.directive(*stage) is Run,
            r is Adopted ==> self@.lookup_cache,
    {
        proof {
            use_type_invariant(&self);
            assert(stage.directives@.len() == stage.directives.len());
        }
        let is_run: bool = matches!(&stage.directives[self.at], Directive::Run(_));
        if self.lookup_cache {
            if let Some((entry, blob)) = found {
                if let Some(layer) = layer_from_cache(&entry, blob) {
                    let mut state = self.state;
                    let line = entry.history_line;
                    state.adopt_cached_layer(layer, line, String::from_str(now));
                    return LookupOutcome::Adopted(
                        StageWalk { state, lookup_cache: true, at: self.at + 1 },
                    );
                }
            }
        }
        if is_run && self.state.adopted_from_cache {
            LookupOutcome::RebuildWithoutCache
        } else {
            LookupOutcome::Execute(self)
        }
    }

    /// Takes the layer that the next step made, packed from the directory `upper`.
    /// What comes with the walk goes into the cache under the step's key.
    pub fn on_layer(
        self,
        stage: &Stage,
        layer: LayerSource,
        upper: String,
        now: &str,
    ) -> (r: (StageWalk, CachedStep))
        requires
            self@.at < stage.directives@.len(),
            asks_cache(self@.directive(*stage)),
        ensures
            r.0@ == (StageView {
                state: self@.state.with_layer(
                    layer@,
                    upper@,
                    layer_line(self@.directive(*stage)),
                    now@,
                ),
                at: self@.at + 1,
                ..self@
            }),
            r.1@ == cached_step(layer@, layer_line(self@.directive(*stage))),
    {
        proof {
            use_type_invariant(&self);
            assert(stage.directives@.len() == stage.directives.len());
        }
        let history_line = match &stage.directives[self.at] {
            Directive::Run(run) => run_history_line(run),
            Directive::Add(add) => add_history_line(add),
            _ => String::new(),
        };
        let entry = store_layer_cache(&layer, history_line.clone());
        let mut state = self.state;
        state.push_new_layer(layer, upper, history_line, String::from_str(now));
        (StageWalk { state, lookup_cache: self.lookup_cache, at: self.at + 1 }, entry)
    }

    /// Takes the layer that the next directive, a `WORKDIR`, made.
    pub fn on_workdir(
        self,
        stage: &Stage,
        layer: LayerSource,
        upper: String,
        now: &str,
    ) -> (r: StageWalk)
        requires
            self@.at < stage.directives@.len(),
            self@.directive(*stage) is Workdir,
        ensures
            r@ == (StageView {
                state: behind_workdir(
                    self@.state,
                    self@.directive(*stage),
                    layer@,
                    upper@,
                    now@,
                ),
                at: self@.at + 1,
                ..self@
            }),
    {
        proof {
            use_type_invariant(&self);
            assert(stage.directives@.len() == stage.directives.len());
        }
        let mut state = self.state;
        if let Directive::Workdir(wd) = &stage.directives[self.at] {
            let plan = plan_workdir(&state, wd);
            apply_workdir(&mut state, plan, layer, upper, now);
        }
        StageWalk { state, lookup_cache: self.lookup_cache, at: self.at + 1 }
    }

    /// The image that the stage makes: its configuration and its layers, those
    /// of the base image first.
    pub fn finish(&self) -> (r: (ImageConfig, Vec<LayerSource>))
        ensures
            r.0@ == self@.state.config,
            layer_views(r.1@) == self@.state.base_layers + self@.state.new_layers,
    {
        (self.state.finalise_image_config(), self.state.assemble_layer_chain())
    }
}

/// The error of a build that was stopped before a step.
pub fn aborted(info: &StepInfo) -> (r: EngineBuildError)
    ensures
        r matches EngineBuildError::BuildAborted { stage_index, step_index } && stage_index
            == info.stage_index && step_index == info.step_index,
{
    EngineBuildError::BuildAborted { stage_index: info.stage_index, step_index: info.step_index }
}

/// Whatever becomes of a directive, the scope behind it is the one that its
/// `ARG`s make: an `ADD` refers to the same things when it is applied as when
/// its sources were fetched.
pub proof fn lemma_scope_kept(
    s: StateView,
    d: Directive,
    build_args: Map<Seq<char>, Seq<char>>,
    layer: LayerView,
    upper: Seq<char>,
    line: Seq<char>,
    resolved: Seq<char>,
    now: Seq<char>,
)
    ensures
        after_metadata(s, d, build_args, now).scope == scope_behind(s.scope, d, build_args),
        s.with_layer(layer, upper, line, now).scope == s.scope,
        s.with_cached(layer, line, now).scope == s.scope,
        after_workdir(s, resolved, line, layer, upper, now).scope == s.scope,
{
}

/// What an `ADD` takes is at hand when it is applied, in a recipe that passed the
/// check and once what is to be fetched was fetched: it never fails for a stage
/// that was not built or a URL that was not fetched. The first `n` stages are
/// built, and the state is one in the scope at the `j`th directive of the `i`th.
pub proof fn lemma_sources_at_hand(
    ast: Ast,
    n: int,
    i: int,
    j: int,
    s: StateView,
    add: Add,
    final_ref: Seq<char>,
    build_args: Map<Seq<char>, Seq<char>>,
    fetched: Map<Seq<char>, Seq<char>>,
)
    requires
        all_refer_back(ast),
        0 <= i < n <= ast.stages@.len(),
        0 <= j < ast.stages@[i].directives@.len(),
        ast.stages@[i].directives@[j] == Directive::Add(add),
        s.scope == scope_at(
            ast.stages@[i].directives@,
            j,
            global_scope(ast, build_args),
            build_args,
        ),
        forall|url: Seq<char>|
            stage_urls(ast.stages@, n, global_scope(ast, build_args), build_args).contains(url)
                ==> #[trigger] fetched.dom().contains(url),
    ensures
        ({
            let produced = produced_by(ast.stages@, i, ast.stages@.len() as int, final_ref);
            let outcome = add_outcome(s, add, produced, fetched);
            !(outcome matches Err(AddRefusal::UnknownStage(_))) && !(outcome matches Err(
                AddRefusal::NotFetched(_),
            ))
        }),
{
    if add.from is Some {
        lemma_references_found(ast, i, j, final_ref);
    }
    if add.source is Url && !add.plain_copy {
        lemma_url_fetched(ast.stages@, n, i, j, global_scope(ast, build_args), build_args);
    }
}

/// A step with a layer adds one layer and leaves the layers below it as they
/// are; a directive without one changes no layer.
pub proof fn lemma_layers_grow(
    s: StateView,
    d: Directive,
    build_args: Map<Seq<char>, Seq<char>>,
    layer: LayerView,
    upper: Seq<char>,
    line: Seq<char>,
    resolved: Seq<char>,
    now: Seq<char>,
)
    ensures
        ({
            let m = after_metadata(s, d, build_args, now);
            m.base_layers == s.base_layers && m.new_layers == s.new_layers && m.uppers == s.uppers
                && m.adopted == s.adopted
        }),
        ({
            let n = s.with_layer(layer, upper, line, now);
            n.base_layers == s.base_layers && n.new_layers == s.new_layers.push(layer) && n.uppers
                == s.uppers.push(upper) && n.adopted == s.adopted
        }),
        ({
            let c = s.with_cached(layer, line, now);
            c.base_layers == s.base_layers && c.new_layers == s.new_layers.push(layer) && c.uppers
                == s.uppers && c.adopted
        }),
        ({
            let w = after_workdir(s, resolved, line, layer, upper, now);
            w.base_layers == s.base_layers && w.new_layers == s.new_layers.push(layer) && w.uppers
                == s.uppers.push(upper) && w.adopted == s.adopted
        }),
{
}

/// The value of an `ARG` does not get into the history by a step with a layer
/// either: what the step leaves there is the text of the recipe, whatever the
/// scope, the layer and the place that it came from.
pub proof fn lemma_layer_history(
    s: StateView,
    t: StateView,
    d: Directive,
    layer: LayerView,
    other_layer: LayerView,
    upper: Seq<char>,
    other_upper: Seq<char>,
    now: Seq<char>,
)
    requires
        s.config.history == t.config.history,
    ensures
        s.with_layer(layer, upper, layer_line(d), now).config.history == t.with_layer(
            other_layer,
            other_upper,
            layer_line(d),
            now,
        ).config.history,
        s.with_layer(layer, upper, layer_line(d), now).config.history == t.with_cached(
            other_layer,
            cached_step(layer, layer_line(d)).history_line,
            now,
        ).config.history,
        d is Workdir ==> behind_workdir(s, d, layer, upper, now).config.history == behind_workdir(
            t,
            d,
            other_layer,
            other_upper,
            now,
        ).config.history,
{
}

/// Two states are the same for all that follows. They may differ in when they
/// were made, and in where their layers came from.
pub open spec fn alike(a: StateView, b: StateView) -> bool {
    &&& a.base_layers == b.base_layers
    &&& a.new_layers == b.new_layers
    &&& a.shell == b.shell
    &&& a.compression == b.compression
    &&& a.scope == b.scope
    &&& a.config.container == b.config.container
}

/// A build that is made again asks the cache for the same keys: in states that
/// are alike, each directive is planned in the same way and under the same key.
pub proof fn lemma_alike_keys(
    a: StateView,
    b: StateView,
    run: Run,
    add: Add,
    architecture: Architecture,
    produced: Map<Seq<char>, Seq<char>>,
    fetched: Map<Seq<char>, Seq<char>>,
)
    requires
        alike(a, b),
    ensures
        run_key(a, run, architecture) == run_key(b, run, architecture),
        add_outcome(a, add, produced, fetched) == add_outcome(b, add, produced, fetched),
        parent_key(a) == parent_key(b),
{
    assert(run_argv(a, run.command) =~= run_argv(b, run.command));
}

/// A build that is made again stays alike. A step whose layer comes from the
/// entry that the first build stored leaves a state like the one that the first
/// build had behind it, and so does a directive that is applied again. So, step
/// by step, every step of a build in which nothing changed is found in the cache.
pub proof fn lemma_rebuild_alike(
    a: StateView,
    b: StateView,
    d: Directive,
    build_args: Map<Seq<char>, Seq<char>>,
    layer: LayerView,
    upper: Seq<char>,
    other_upper: Seq<char>,
    line: Seq<char>,
    resolved: Seq<char>,
    before: Seq<char>,
    now: Seq<char>,
)
    requires
        alike(a, b),
    ensures
        alike(
            a.with_layer(layer, upper, line, before),
            b.with_cached(restored_layer(cached_step(layer, line), layer.data), line, now),
        ),
        alike(after_metadata(a, d, build_args, before), after_metadata(b, d, build_args, now)),
        alike(
            after_workdir(a, resolved, line, layer, upper, before),
            after_workdir(b, resolved, line, layer, other_upper, now),
        ),
{
    assert forall|parts: Seq<Seq<char>>| #[trigger] a.subst_all(parts) == b.subst_all(parts) by {
        assert(a.subst_all(parts) =~= b.subst_all(parts));
    }
}

} // verus!
