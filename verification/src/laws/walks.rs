//! How a stage and a bootable build go from directive to directive: what each step
//! asks for, and what its answer changes.
use vstd::prelude::*;
use crate::arg_subst::substitute;
use crate::ast::{Add, Directive, Run, RunCommand, Stage, Workdir};
use crate::bootable::add::{
    check_staging_source, place_copy, place_fetched, plan_staging_add, StagingAdd,
};
use crate::bootable::BootableBuildError;
use crate::bootable::run::{
    is_run_step, rendered, render_run_command, shell_quoted, wrap_run_command, ContextView,
    RunAction, RunContext,
};
use crate::bootable::walk::{Phase, VmAction, VmWalk};
use crate::engine_build::add::{
    add_history_line, compute_add_destination, file_destination, place_payload, Format, Placement,
};
use crate::engine_build::directives::{plan_workdir, WorkdirPlan};
use crate::engine_build::error::EngineBuildError;
use crate::engine_build::run::{plan_run, run_history_line, RunPlan};
use crate::engine_build::stage::{
    aborted, LookupOutcome, StageContext, StageWalk, StepInfo, StepPlan,
};
use crate::engine_build::state::{BaseImage, BuildState, CachedStep};
use crate::fsutil::PathRefusal;
use crate::image::{layer_views, ImageConfig, LayerCompression, LayerSource};
use crate::path::steps_up;
use crate::text::{join, texts};
use crate::text_map::{text_values, TextMap};

verus! {

/// A stage starts at its first directive, on the layers and the configuration of
/// its base; the cache is asked at first, and no longer once a stage is built anew.
pub proof fn lemma_stage_starts(
    base: BaseImage,
    compression: LayerCompression,
    globals: &TextMap<String>,
    r: StageWalk,
    again: StageWalk,
    asks: bool,
    asks_again: bool,
    stage: &Stage,
    d: Option<&Directive>,
)
    requires
        call_ensures(StageWalk::start, (base, compression, globals), r),
        call_ensures(StageWalk::restart, (base, compression, globals), again),
        call_ensures(StageWalk::lookup_cache, (&r,), asks),
        call_ensures(StageWalk::lookup_cache, (&again,), asks_again),
        call_ensures(StageWalk::next, (&r, stage), d),
    ensures
        asks && !asks_again,
        r@.state == again@.state,
        r@.state.base_layers == layer_views(base.layers@),
        r@.state.config.container == base.config@.container,
        r@.state.scope == text_values(globals@),
        stage.directives@.len() > 0 ==> (d matches Some(x) && *x == stage.directives@[0]),
        stage.directives@.len() == 0 ==> d is None,
{
}

/// A layer of the cache is taken where the cache is asked and has it, and is then
/// the newest. Otherwise the step is executed on the stage as it is; but a `RUN`
/// behind a layer of the cache has the stage built anew.
pub proof fn lemma_lookup(
    walk: StageWalk,
    stage: &Stage,
    entry: CachedStep,
    data: Vec<u8>,
    now: &str,
    hit: LookupOutcome,
    miss: LookupOutcome,
    lost: LookupOutcome,
)
    requires
        walk@.at < stage.directives@.len(),
        stage.directives@[walk@.at as int] is Run || stage.directives@[walk@.at as int] is Add,
        call_ensures(StageWalk::on_lookup, (walk, stage, Some((entry, Some(data))), now), hit),
        call_ensures(StageWalk::on_lookup, (walk, stage, None, now), miss),
        call_ensures(StageWalk::on_lookup, (walk, stage, Some((entry, None)), now), lost),
    ensures
        walk@.lookup_cache ==> (hit matches LookupOutcome::Adopted(w) && w@.at == walk@.at + 1
            && w@.state.new_layers.len() == walk@.state.new_layers.len() + 1
            && w@.state.new_layers.last().data == data@ && w@.state.new_layers.last().media_type
            == entry.media_type@ && w@.state.new_layers.last().diff_id == entry.diff_id@
            && w@.state.new_layers.drop_last() == walk@.state.new_layers && w@.state.adopted
            && w@.state.config.history.len() == walk@.state.config.history.len() + 1
            && w@.state.config.history.last().created_by == Some(entry.history_line@)
            && w@.state.config.container == walk@.state.config.container),
        ({
            let anew = walk@.state.adopted && stage.directives@[walk@.at as int] is Run;
            &&& anew ==> miss is RebuildWithoutCache && lost is RebuildWithoutCache
            &&& !anew ==> (miss matches LookupOutcome::Execute(w) && w@ == walk@)
            &&& !anew ==> (lost matches LookupOutcome::Execute(w) && w@ == walk@)
            &&& !walk@.lookup_cache && !anew ==> (hit matches LookupOutcome::Execute(w) && w@
                == walk@)
        }),
{
    if walk@.lookup_cache {
        let w = hit->Adopted_0;
        assert(w@.state.new_layers.drop_last() =~= walk@.state.new_layers);
    }
}

/// A layer that a step made is the newest of the stage, with its files on top, and
/// is kept for the cache as it is.
pub proof fn lemma_layer_made(
    walk: StageWalk,
    stage: &Stage,
    layer: LayerSource,
    upper: String,
    now: &str,
    r: (StageWalk, CachedStep),
    d: Directive,
    run: &Run,
    add: &Add,
    run_line: String,
    add_line: String,
)
    requires
        walk@.at < stage.directives@.len(),
        d == stage.directives@[walk@.at as int],
        d is Run || d is Add,
        d is Run ==> *run == d->Run_0,
        d is Add ==> *add == d->Add_0,
        call_ensures(run_history_line, (run,), run_line),
        call_ensures(add_history_line, (add,), add_line),
        call_ensures(StageWalk::on_layer, (walk, stage, layer, upper, now), r),
    ensures
        r.0@.at == walk@.at + 1,
        r.0@.lookup_cache == walk@.lookup_cache,
        r.0@.state.new_layers == walk@.state.new_layers.push(layer@),
        r.0@.state.uppers == walk@.state.uppers.push(upper@),
        r.0@.state.config.container == walk@.state.config.container,
        r.0@.state.scope == walk@.state.scope,
        r.0@.state.adopted == walk@.state.adopted,
        r.1.diff_id@ == layer.diff_id@,
        r.1.media_type@ == layer.media_type@,
        r.1.blob_digest@ == crate::digest::blob_digest(layer.data@),
        r.0@.state.config.history.len() == walk@.state.config.history.len() + 1,
        r.0@.state.config.history.last().created_by == Some(r.1.history_line@),
        d is Run ==> r.1.history_line@ == run_line@,
        d is Add ==> r.1.history_line@ == add_line@,
{
    assert(r.1@.history_line == r.1.history_line@);
}

/// A directive that makes no layer leaves the layers as they are.
pub proof fn lemma_no_layer_made(
    walk: StageWalk,
    stage: &Stage,
    build_args: &TextMap<String>,
    now: &str,
    r: StageWalk,
    d: Directive,
)
    requires
        walk@.at < stage.directives@.len(),
        d == stage.directives@[walk@.at as int],
        !(d is Run) && !(d is Add) && !(d is Workdir),
        call_ensures(StageWalk::on_metadata, (walk, stage, build_args, now), r),
    ensures
        r@.at == walk@.at + 1,
        r@.lookup_cache == walk@.lookup_cache,
        r@.state.new_layers == walk@.state.new_layers,
        r@.state.base_layers == walk@.state.base_layers,
        r@.state.uppers == walk@.state.uppers,
        r@.state.adopted == walk@.state.adopted,
        r@.state.compression == walk@.state.compression,
{
}

/// What a stage makes is its base's layers and its own, in order.
pub proof fn lemma_stage_made(walk: &StageWalk, r: (ImageConfig, Vec<LayerSource>), i: int)
    requires
        call_ensures(StageWalk::finish, (walk,), r),
    ensures
        r.0@ == walk@.state.config,
        r.1@.len() == walk@.state.base_layers.len() + walk@.state.new_layers.len(),
        0 <= i < walk@.state.base_layers.len() ==> r.1@[i]@ == walk@.state.base_layers[i],
        0 <= i < walk@.state.new_layers.len() ==> r.1@[walk@.state.base_layers.len() + i]@
            == walk@.state.new_layers[i],
{
    let views = layer_views(r.1@);
    assert(views.len() == r.1@.len());
    if 0 <= i < walk@.state.base_layers.len() {
        assert(views[i] == r.1@[i]@);
    }
    if 0 <= i < walk@.state.new_layers.len() {
        assert(views[walk@.state.base_layers.len() + i] == r.1@[walk@.state.base_layers.len() + i]@);
    }
}

/// A step is planned as its directive is in the state of the stage.
pub proof fn lemma_step_planned(
    walk: &StageWalk,
    stage: &Stage,
    context: &StageContext,
    r: Result<StepPlan, EngineBuildError>,
    state: &BuildState,
    run: &Run,
    planned: Result<RunPlan, EngineBuildError>,
    wd: &Workdir,
    dir: WorkdirPlan,
    d: Directive,
)
    requires
        walk@.at < stage.directives@.len(),
        d == stage.directives@[walk@.at as int],
        call_ensures(StageWalk::plan, (walk, stage, context), r),
        call_ensures(StageWalk::state, (walk,), state),
        d is Run ==> *run == d->Run_0,
        d is Workdir ==> *wd == d->Workdir_0,
        call_ensures(plan_run, (state, run, &context.secrets, context.architecture), planned),
        call_ensures(plan_workdir, (state, wd), dir),
    ensures
        d is Run ==> (r is Ok <==> planned is Ok),
        d is Run && r is Ok ==> (r matches Ok(StepPlan::Run(p)) && p.key@ == planned->Ok_0.key@
            && texts(p.argv@) == texts(planned->Ok_0.argv@) && texts(p.env@) == texts(
            planned->Ok_0.env@,
        ) && p.history_line@ == planned->Ok_0.history_line@),
        d is Workdir ==> (r matches Ok(StepPlan::Workdir(p)) && p.resolved@ == dir.resolved@),
        d is Add ==> (r is Err || r->Ok_0 is Add),
        !(d is Run) && !(d is Add) && !(d is Workdir) ==> (r matches Ok(StepPlan::Metadata)),
{
    if let Directive::Run(x) = d {
        if planned is Ok && r is Err {
            let i = choose|i: int| #[trigger]
                crate::engine_build::run::first_unknown(x.mounts@, context.secrets@, i);
            assert(context.secrets@.dom().contains(
                crate::engine_build::run::mount_id(x.mounts@[i]),
            ));
        }
        if planned is Err && r is Ok {
            let i = choose|i: int| #[trigger]
                crate::engine_build::run::first_unknown(x.mounts@, context.secrets@, i);
            assert(context.secrets@.dom().contains(
                crate::engine_build::run::mount_id(x.mounts@[i]),
            ));
        }
    }
}

/// A step is told by its number, counted from one, out of the number of
/// directives; where a build stops, it tells that step.
pub proof fn lemma_step_told(
    walk: &StageWalk,
    stage: &Stage,
    index: usize,
    total: usize,
    r: StepInfo,
    e: EngineBuildError,
)
    requires
        walk@.at < stage.directives@.len(),
        stage.directives@.len() <= u32::MAX,
        call_ensures(StageWalk::step_info, (walk, stage, index, total), r),
        call_ensures(aborted, (&r,), e),
    ensures
        r.stage_index == index,
        r.stage_total == total,
        r.step_index == walk@.at + 1,
        r.step_total == stage.directives@.len(),
        1 <= r.step_index <= r.step_total,
        e matches EngineBuildError::BuildAborted { stage_index, step_index } && stage_index == index
            && step_index == walk@.at + 1,
{
}

/// A step of the guest is the command of its `RUN`, rendered and wrapped for the
/// shell, the user and the directory in force, in the environment in force.
pub proof fn lemma_guest_command(
    c: &RunContext,
    run: &Run,
    r: Result<RunAction, BootableBuildError>,
    text: String,
    command: &str,
    user: Option<&str>,
    dir: Option<&str>,
    w: String,
)
    requires
        is_run_step(r, Directive::Run(*run), c@, true),
        call_ensures(render_run_command, (&run.command, &c.arg_scope), text),
        command@ == text@,
        (user is Some) == (c.user is Some),
        user matches Some(u) ==> u@ == c.user->0@,
        (dir is Some) == (c.workdir is Some),
        dir matches Some(d) ==> d@ == c.workdir->0@,
        call_ensures(wrap_run_command, (command, &c.shell, user, dir), w),
    ensures
        r matches Ok(RunAction::Execute { command, env }) && command@ == w@ && text_values(env@)
            == text_values(c.env@),
{
}

/// A `WORKDIR` of the guest makes the directory, by the path below the root.
pub proof fn lemma_guest_directory(
    r: Result<RunAction, BootableBuildError>,
    wd: &Workdir,
    c: ContextView,
    qemu: bool,
    rel: Seq<char>,
)
    requires
        is_run_step(r, Directive::Workdir(*wd), c, qemu),
        rel.len() > 0,
        rel[0] != '/',
    ensures
        substitute(wd.path@, c.scope) == seq!['/'] + rel ==> (
        r matches Ok(RunAction::MakeDirectory(dir)) && dir@ == rel),
        substitute(wd.path@, c.scope) == rel && c.workdir is None ==> (
        r matches Ok(RunAction::MakeDirectory(dir)) && dir@ == rel),
{
    reveal_strlit("/");
    assert("/"@ =~= seq!['/']);
    let s = seq!['/'] + rel;
    assert(s.skip(1) =~= rel);
    reveal_with_fuel(crate::text::trim_start_char, 2);
    assert(crate::text::trim_start_char(s, '/') == rel);
    reveal_with_fuel(crate::text::trim_end_char, 2);
    assert("/"@.drop_last() =~= Seq::empty());
    assert(Seq::<char>::empty() + "/"@ + rel =~= s);
}

/// A command in exec form is the one without its last argument, and that argument
/// as one word more.
pub proof fn lemma_exec_arguments(
    a: &RunCommand,
    b: &RunCommand,
    scope: &TextMap<String>,
    r: String,
    q: String,
)
    requires
        call_ensures(render_run_command, (a, scope), r),
        call_ensures(render_run_command, (b, scope), q),
        *a is Exec,
        *b is Exec,
        a->Exec_0@.len() > 1,
        b->Exec_0@ == a->Exec_0@.drop_last(),
    ensures
        r@ == q@ + " "@ + shell_quoted(substitute(a->Exec_0@.last()@, text_values(scope@))),
{
    let s = text_values(scope@);
    let x = a->Exec_0@;
    let y = b->Exec_0@;
    let all = Seq::new(x.len(), |i: int| substitute(x[i]@, s));
    let some = Seq::new(y.len(), |i: int| substitute(y[i]@, s));
    let words = Seq::new(all.len(), |i: int| shell_quoted(all[i]));
    let fewer = Seq::new(some.len(), |i: int| shell_quoted(some[i]));
    assert(words.drop_last() =~= fewer);
    assert(words.last() == shell_quoted(substitute(x.last()@, s)));
    assert(join(words, " "@) == join(fewer, " "@) + " "@ + words.last());
}

/// An `ADD` of an image brings its layers, as the root of the tree where it is the
/// first.
pub proof fn lemma_staged_image(
    add: &Add,
    scope: &TextMap<String>,
    first: bool,
    produced: &TextMap<String>,
    r: Result<StagingAdd, BootableBuildError>,
)
    requires
        call_ensures(plan_staging_add, (add, scope, first, produced), r),
        add.source is Oci,
    ensures
        r matches Ok(StagingAdd::Image { reference, first: f }) && reference@ == substitute(
            add.source->Oci_0@,
            text_values(scope@),
        ) && f == first,
{
}

/// An `ADD` of a file or of a directory takes it from the context, or from the
/// stage that it names, below the root, to its destination; a `..` in either path
/// is refused, and so is a stage that was not built.
pub proof fn lemma_staged_path(
    add: &Add,
    scope: &TextMap<String>,
    first: bool,
    produced: &TextMap<String>,
    r: Result<StagingAdd, BootableBuildError>,
    rel: Seq<char>,
)
    requires
        call_ensures(plan_staging_add, (add, scope, first, produced), r),
        add.source is Path,
        rel.len() > 0,
        rel[0] != '/',
        ({
            let src = substitute(add.source->Path_0@, text_values(scope@));
            src == rel || src == seq!['/'] + rel
        }),
    ensures
        ({
            let s = text_values(scope@);
            let src = substitute(add.source->Path_0@, s);
            let dst = substitute(add.destination@, s);
            let made = text_values(produced@);
            &&& steps_up(src) ==> (r matches Err(BootableBuildError::AddPathTraversal { kind, path })
                && kind@ == "source"@ && path@ == src)
            &&& !steps_up(src) && steps_up(dst) ==> (
            r matches Err(BootableBuildError::AddPathTraversal { kind, path }) && kind@
                == "destination"@ && path@ == dst)
            &&& !steps_up(src) && !steps_up(dst) && add.from is None ==> (
            r matches Ok(StagingAdd::Local { source, below_context, destination }) && source@
                == add.source->Path_0@ && below_context@ == rel && destination@ == dst)
            &&& !steps_up(src) && !steps_up(dst) && add.from is Some && !made.dom().contains(
                add.from->0@,
            ) ==> (r matches Err(BootableBuildError::AddFromUnknownStage { stage }) && stage@
                == add.from->0@)
            &&& !steps_up(src) && !steps_up(dst) && add.from is Some && made.dom().contains(
                add.from->0@,
            ) ==> (r matches Ok(StagingAdd::FromStage {
                stage,
                producer_ref,
                source,
                below_root,
                destination,
            }) && stage@ == add.from->0@ && producer_ref@ == made[add.from->0@] && below_root@ == rel
                && destination@ == dst)
        }),
{
    let src = substitute(add.source->Path_0@, text_values(scope@));
    assert(crate::text::trim_start_char(rel, '/') == rel);
    let s = seq!['/'] + rel;
    assert(s.skip(1) =~= rel);
    assert(crate::text::trim_start_char(s, '/') == rel) by {
        reveal_with_fuel(crate::text::trim_start_char, 2);
    }
}

/// An `ADD` of a URL fetches it to its destination; a `..` there is refused.
pub proof fn lemma_staged_url(
    add: &Add,
    scope: &TextMap<String>,
    first: bool,
    produced: &TextMap<String>,
    r: Result<StagingAdd, BootableBuildError>,
)
    requires
        call_ensures(plan_staging_add, (add, scope, first, produced), r),
        add.source is Url,
    ensures
        ({
            let s = text_values(scope@);
            let dst = substitute(add.destination@, s);
            &&& steps_up(dst) ==> (r matches Err(BootableBuildError::AddPathTraversal { kind, path })
                && kind@ == "destination"@ && path@ == dst)
            &&& !steps_up(dst) ==> (r matches Ok(StagingAdd::Url { url, destination }) && url@
                == substitute(add.source->Url_0@, s) && destination@ == dst)
        }),
{
}

/// A staged source must exist and lie within its root.
pub proof fn lemma_staged_source(
    root: &str,
    resolved: &str,
    canonical: Option<&str>,
    path: &str,
    context: &str,
    r: Result<(), BootableBuildError>,
    plain: Result<(), PathRefusal>,
    at: &str,
)
    requires
        call_ensures(check_staging_source, (root, resolved, canonical, path, context), r),
        canonical matches Some(c) ==> c@ == at@,
        call_ensures(crate::fsutil::ensure_source_contained, (root, resolved, at), plain),
    ensures
        canonical is None ==> (r matches Err(BootableBuildError::AddSourceNotFound {
            path: p,
            context: c,
        }) && p@ == path@ && c@ == context@),
        canonical is Some ==> (r is Ok <==> plain is Ok),
        canonical is Some && r is Err ==> (
        r matches Err(BootableBuildError::Path(PathRefusal::OutsideRoot { canonical: y, root: x, .. }))
            && y@ == at@ && x@ == root@),
{
}

/// What is fetched for a tree is unpacked where it is a plain or a gzipped archive,
/// refused where it is another archive, and else a file of its own.
pub proof fn lemma_staged_fetch(
    format: Format,
    url: &str,
    destination: &str,
    r: Result<Placement, BootableBuildError>,
)
    requires
        call_ensures(place_fetched, (format, url, destination), r),
    ensures
        format is Tar || format is Gzip ==> (r matches Ok(Placement::Unpack { directory })
            && directory@ == destination@),
        format is Zstd || format is Xz || format is Bzip2 || format is Squashfs ==> (
        r matches Err(BootableBuildError::AddUrlArchiveUnsupported { url: u, .. }) && u@ == url@),
        format is Unknown && !steps_up(file_destination(url@, destination@)) ==> (
        r matches Ok(Placement::File { path }) && path@ == file_destination(url@, destination@)),
        format is Unknown && steps_up(file_destination(url@, destination@)) ==> (
        r matches Err(BootableBuildError::AddPathTraversal { .. })),
{
}

/// A tree and an image place a copy and a fetched file alike.
pub proof fn lemma_placed_alike(
    format: Format,
    url: &str,
    dst: &str,
    src: &str,
    is_dir: bool,
    copy: Result<String, BootableBuildError>,
    place: String,
    fetched: Result<Placement, BootableBuildError>,
    payload: Result<Placement, EngineBuildError>,
)
    requires
        call_ensures(place_copy, (dst, src, is_dir), copy),
        call_ensures(compute_add_destination, (dst, src, is_dir), place),
        call_ensures(place_fetched, (format, url, dst), fetched),
        call_ensures(place_payload, (format, url, dst), payload),
    ensures
        copy is Ok <==> !steps_up(place@),
        copy matches Ok(p) ==> p@ == place@,
        fetched is Ok <==> payload is Ok,
        fetched matches Ok(Placement::File { path }) ==> (
        payload matches Ok(Placement::File { path: q }) && q@
            == fetched->Ok_0->File_path@),
        fetched matches Ok(Placement::Unpack { directory }) ==> (
        payload matches Ok(Placement::Unpack { directory: q }) && q@
            == fetched->Ok_0->Unpack_directory@),
{
}

/// The layer of a `WORKDIR` is the newest of the stage, and the image starts where it
/// leads.
pub proof fn lemma_workdir_made(
    walk: StageWalk,
    stage: &Stage,
    layer: LayerSource,
    upper: String,
    now: &str,
    r: StageWalk,
    state: &BuildState,
    wd: &Workdir,
    p: WorkdirPlan,
)
    requires
        walk@.at < stage.directives@.len(),
        stage.directives@[walk@.at as int] is Workdir,
        *wd == stage.directives@[walk@.at as int]->Workdir_0,
        call_ensures(StageWalk::on_workdir, (walk, stage, layer, upper, now), r),
        call_ensures(StageWalk::state, (&walk,), state),
        call_ensures(plan_workdir, (state, wd), p),
    ensures
        r@.at == walk@.at + 1,
        r@.state.config.container.working_dir == Some(p.resolved@),
        r@.state.new_layers == walk@.state.new_layers.push(layer@),
        r@.state.uppers == walk@.state.uppers.push(upper@),
        r@.state.config.container.env == walk@.state.config.container.env,
        r@.state.config.container.user == walk@.state.config.container.user,
        r@.state.config.history.len() == walk@.state.config.history.len() + 1,
        r@.state.config.history.last().created_by == Some("WORKDIR "@ + wd.path@),
{
}

/// A bootable build asks for the kernel that its recipe names.
pub proof fn lemma_kernel_asked<'a>(
    w: VmWalk<'a>,
    after: VmWalk<'a>,
    r: Result<VmAction, BootableBuildError>,
)
    requires
        w.is_next(after, r),
        w.phase is Kernel,
    ensures
        r matches Ok(VmAction::ResolveKernel(reference)) && reference@ == w.plan.from_kernel_ref@,
        after.phase == w.phase,
{
}

/// The directives of a bootable build are taken one after another, for what they
/// add and again for what they run; each is taken in the scope behind the ones
/// before it.
pub proof fn lemma_directives_taken<'a>(
    w: VmWalk<'a>,
    after: VmWalk<'a>,
    r: Result<VmAction, BootableBuildError>,
    i: usize,
    d: Directive,
)
    requires
        w.is_next(after, r),
        i < w.stage.directives@.len(),
        d == w.stage.directives@[i as int],
    ensures
        w.phase == Phase::Add(i) ==> after.phase == Phase::Add((i + 1) as usize),
        w.phase == Phase::Add(i) && !(d is Add) ==> r == Ok::<VmAction, BootableBuildError>(
            VmAction::Nothing,
        ),
        w.phase == Phase::Add(i) && d is Add && r is Ok ==> r->Ok_0 is Add,
        w.phase == Phase::Add(i) && d is Add && d->Add_0.source is Oci ==> (
        r matches Ok(VmAction::Add(StagingAdd::Image { reference, first })) && first
            == w.adds.first_image && reference@ == substitute(
            d->Add_0.source->Oci_0@,
            text_values(w.adds.arg_scope@),
        )) && !after.adds.first_image,
        w.phase == Phase::Add(i) && !(d is Add && d->Add_0.source is Oci)
            ==> after.adds.first_image == w.adds.first_image,
        w.phase == Phase::Run(i) ==> after.phase == Phase::Run((i + 1) as usize),
        w.phase == Phase::Run(i) && d is Run && w.options.qemu_path is Some ==> (
        r matches Ok(VmAction::Run(RunAction::Execute { env, .. })) && text_values(env@)
            == w.runs@.env),
        w.phase == Phase::Run(i) && d is Run && w.options.qemu_path is None ==> (
        r matches Err(BootableBuildError::RunWithoutQemu)),
        w.phase == Phase::Run(i) && d is Workdir ==> (
        r matches Ok(VmAction::Run(RunAction::MakeDirectory(_)))),
        w.phase == Phase::Run(i) && !(d is Run) && !(d is Workdir) ==> (
        r matches Ok(VmAction::Run(RunAction::Nothing))),
{
}

/// Behind its directives a bootable build unpacks the kernel, then reads it, and at
/// the end makes the initramfs where one is needed, emits the image and keeps the
/// tree where it is asked to.
pub proof fn lemma_build_ends<'a>(
    w: VmWalk<'a>,
    after: VmWalk<'a>,
    r: Result<VmAction, BootableBuildError>,
    n: usize,
)
    requires
        w.is_next(after, r),
        n == w.stage.directives@.len(),
    ensures
        w.phase == Phase::Add(n) ==> r == Ok::<VmAction, BootableBuildError>(VmAction::UnpackKernel)
            && after.phase is Layout,
        w.phase is Layout ==> r == Ok::<VmAction, BootableBuildError>(VmAction::ReadLayout),
        w.phase == Phase::Run(n) && w.plan.needs_initramfs ==> r == Ok::<
            VmAction,
            BootableBuildError,
        >(VmAction::MakeInitramfs),
        w.phase == Phase::Run(n) && !w.plan.needs_initramfs ==> after.phase is Emit,
        w.phase is Emit ==> (r matches Ok(VmAction::Emit(_))) && after.phase is Persist,
        w.phase is Persist && w.options.staging_keep_path is Some ==> (
        r matches Ok(VmAction::Persist(p)) && p@ == w.options.staging_keep_path->0@),
        w.phase is Persist && w.options.staging_keep_path is None ==> r == Ok::<
            VmAction,
            BootableBuildError,
        >(VmAction::Finish),
        w.phase is Done ==> r == Ok::<VmAction, BootableBuildError>(VmAction::Finish),
        after.plan == w.plan && after.stage == w.stage && after.options == w.options && after.root
            == w.root,
        after.reports == w.reports && after.add_sources == w.add_sources && after.kernel
            == w.kernel && after.initrd == w.initrd,
{
}

} // verus!
