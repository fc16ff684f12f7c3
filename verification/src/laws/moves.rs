//! What operations that change a value in place make of it.
use vstd::prelude::*;
use crate::arg_subst::{apply_arg_to_scope, substitute};
use crate::ast::{
    Arg, Cmd, CmdForm, Directive, Entrypoint, EntrypointInit, Env, Expose, Label, RunCommand, Shell,
    Stage, Stopsignal, User, Volume,
};
use crate::bootable::add::{StagingAdd, StagingWalk};
use crate::bootable::run::{context_behind, is_run_step, RunAction, RunContext};
use crate::bootable::walk::{Phase, VmAction, VmWalk};
use crate::bootable::BootableBuildError;
use crate::engine_build::base_image::PullWalk;
use crate::engine_build::directives::{
    apply_arg, apply_cmd, apply_entrypoint, apply_env, apply_expose, apply_label, apply_shell,
    apply_stopsignal, apply_user, apply_volume, apply_workdir, WorkdirPlan,
};
use crate::engine_build::error::EngineBuildError;
use crate::engine_build::fetch::{FetchWalk, Reply, UrlParts};
use crate::engine_build::record_stage;
use crate::engine_build::run::run_argv;
use crate::engine_build::state::BuildState;
use crate::fsutil::{Found, PathRefusal, WalkAction, WriteWalk};
use crate::image::LayerSource;
use crate::initrd::InitrdReport;
use crate::kernel::KernelLayout;
use crate::laws::container::{
    lemma_cmd, lemma_entrypoint, lemma_env, lemma_label, lemma_stopsignal, lemma_user,
    lemma_volume, shell_form,
};
use crate::metrics::{BuildMetrics, MetricsLayer};
use crate::number::decimal;
use crate::resolver::add::AddProvenance;
use crate::resolver::from_kernel::FromKernelProvenance;
use crate::resolver::ResolveWalk;
use crate::text_map::{text_values, TextMap};
use crate::vm_runner::RunStepResult;

verus! {

/// `ENTRYPOINT` in shell form is stored as the command of a `RUN` would be executed:
/// by the shell in force, which is `/bin/sh -c` where none is.
pub proof fn lemma_entrypoint_applied(
    state: &mut BuildState,
    ep: &Entrypoint,
    now: &str,
    command: &String,
)
    requires
        call_ensures(apply_entrypoint, (state, ep, now), ()),
        ep.init matches EntrypointInit::Path(c) ==> c@ == command@,
    ensures
        ep.init is Path ==> final(state)@.config.container.entrypoint == Some(
            shell_form(old(state)@.shell, substitute(command@, old(state)@.scope)),
        ),
        ep.init is Path ==> final(state)@.config.container.entrypoint == Some(
            run_argv(old(state)@, RunCommand::Shell(*command)),
        ),
        ep.init is NoInit ==> final(state)@.config.container.entrypoint is None,
        final(state)@.config.container.cmd == old(state)@.config.container.cmd,
        final(state)@.new_layers == old(state)@.new_layers,
{
    lemma_entrypoint(old(state)@, Directive::Entrypoint(*ep), Map::empty(), now@);
}

/// `CMD` in shell form is stored as an `ENTRYPOINT` in shell form is; in exec form as
/// its arguments.
pub proof fn lemma_cmd_applied(state: &mut BuildState, c: &Cmd, now: &str, i: int)
    requires
        call_ensures(apply_cmd, (state, c, now), ()),
    ensures
        c.command matches CmdForm::Shell(text) ==> final(state)@.config.container.cmd == Some(
            shell_form(old(state)@.shell, substitute(c.command->Shell_0@, old(state)@.scope)),
        ),
        c.command is Exec ==> (final(state)@.config.container.cmd matches Some(argv) && argv.len()
            == c.command->Exec_0@.len() && (0 <= i < argv.len() ==> argv[i] == substitute(
            c.command->Exec_0@[i]@,
            old(state)@.scope,
        ))),
        final(state)@.config.container.entrypoint == old(state)@.config.container.entrypoint,
{
    lemma_cmd(old(state)@, Directive::Cmd(*c), Map::empty(), now@);
}

/// `ENV` sets its variable, references replaced, and once.
pub proof fn lemma_env_applied(state: &mut BuildState, e: &Env, now: &str)
    requires
        call_ensures(apply_env, (state, e, now), ()),
    ensures
        final(state)@.config.container.env.len() > 0,
        final(state)@.config.container.env.last() == e.key@ + seq!['='] + substitute(
            e.value@,
            old(state)@.scope,
        ),
        forall|i: int|
            0 <= i < final(state)@.config.container.env.len() - 1 ==> !(e.key@ + seq![
                '=',
            ]).is_prefix_of(#[trigger] final(state)@.config.container.env[i]),
        final(state)@.config.container.user == old(state)@.config.container.user,
{
    lemma_env(old(state)@, Directive::Env(*e), Map::empty(), now@);
}

/// `USER`, `LABEL` and `STOPSIGNAL` each set what they name; of those the first two
/// have references replaced.
pub proof fn lemma_settings_applied(
    a: &mut BuildState,
    u: &User,
    b: &mut BuildState,
    l: &Label,
    c: &mut BuildState,
    s: &Stopsignal,
    now: &str,
)
    requires
        call_ensures(apply_user, (a, u, now), ()),
        call_ensures(apply_label, (b, l, now), ()),
        call_ensures(apply_stopsignal, (c, s, now), ()),
    ensures
        final(a)@.config.container.user == Some(substitute(u.name@, old(a)@.scope)),
        final(a)@.config.container.env == old(a)@.config.container.env,
        final(b)@.config.container.labels.dom().contains(l.key@),
        final(b)@.config.container.labels[l.key@] == substitute(l.value@, old(b)@.scope),
        final(c)@.config.container.stop_signal == Some(s.signal@),
{
    lemma_user(old(a)@, Directive::User(*u), Map::empty(), now@);
    lemma_label(old(b)@, Directive::Label(*l), Map::empty(), now@);
    lemma_stopsignal(old(c)@, Directive::Stopsignal(*s), Map::empty(), now@);
}

/// `EXPOSE` and `VOLUME` name what they open and what they keep, beside what was named
/// before.
pub proof fn lemma_lists_applied(
    a: &mut BuildState,
    e: &Expose,
    b: &mut BuildState,
    v: &Volume,
    now: &str,
    i: int,
)
    requires
        call_ensures(apply_expose, (a, e, now), ()),
        call_ensures(apply_volume, (b, v, now), ()),
    ensures
        e.protocol is Tcp ==> final(a)@.config.container.exposed_ports.contains(
            decimal(e.port as nat) + "/tcp"@,
        ),
        e.protocol is Udp ==> final(a)@.config.container.exposed_ports.contains(
            decimal(e.port as nat) + "/udp"@,
        ),
        0 <= i < v.paths@.len() ==> final(b)@.config.container.volumes.contains(
            substitute(v.paths@[i]@, old(b)@.scope),
        ),
        old(b)@.config.container.volumes.is_prefix_of(final(b)@.config.container.volumes),
{
    lemma_volume(old(b)@, Directive::Volume(*v), Map::empty(), now@);
    reveal_strlit("/");
    reveal_strlit("tcp");
    reveal_strlit("udp");
    reveal_strlit("/tcp");
    reveal_strlit("/udp");
    let n = decimal(e.port as nat);
    let entry = n + "/"@ + e.protocol.name();
    assert(e.protocol is Tcp ==> entry =~= n + "/tcp"@);
    assert(e.protocol is Udp ==> entry =~= n + "/udp"@);
    let before = old(a)@.config.container.exposed_ports;
    if !before.contains(entry) {
        assert(before.push(entry)[before.len() as int] == entry);
    }
}

/// `SHELL` changes the shell for what follows, and `ARG` the scope; neither changes
/// the configuration of the container.
pub proof fn lemma_scope_applied(
    a: &mut BuildState,
    s: &Shell,
    b: &mut BuildState,
    arg: &Arg,
    build_args: &TextMap<String>,
    scope: &mut TextMap<String>,
    now: &str,
)
    requires
        call_ensures(apply_shell, (a, s, now), ()),
        call_ensures(apply_arg, (b, arg, build_args), ()),
        call_ensures(apply_arg_to_scope, (scope, arg, build_args), ()),
        text_values(old(scope)@) == old(b)@.scope,
    ensures
        final(a)@.shell == crate::text::texts(s.argv@),
        final(a)@.config.container == old(a)@.config.container,
        final(b)@.scope == text_values(final(scope)@),
        final(b)@.config == old(b)@.config,
        build_args@.dom().contains(arg.name@) ==> final(b)@.scope.dom().contains(arg.name@)
            && final(b)@.scope[arg.name@] == build_args@[arg.name@]@,
        !build_args@.dom().contains(arg.name@) && arg.default is Some
            ==> final(b)@.scope.dom().contains(arg.name@) && final(b)@.scope[arg.name@]
            == arg.default->0@,
{
}

/// `WORKDIR` changes where the image starts, and puts its layer on top.
pub proof fn lemma_directory_applied(
    state: &mut BuildState,
    plan: WorkdirPlan,
    layer: LayerSource,
    upper: String,
    now: &str,
)
    requires
        call_ensures(apply_workdir, (state, plan, layer, upper, now), ()),
    ensures
        final(state)@.config.container.working_dir == Some(plan.resolved@),
        final(state)@.new_layers == old(state)@.new_layers.push(layer@),
        final(state)@.uppers == old(state)@.uppers.push(upper@),
        final(state)@.config.container.env == old(state)@.config.container.env,
{
}

/// A layer that is made, or adopted from the cache, is the newest; only the one that
/// is made has files to show.
pub proof fn lemma_layer_pushed(
    a: &mut BuildState,
    b: &mut BuildState,
    layer: LayerSource,
    upper: String,
    history: String,
    now: String,
)
    requires
        call_ensures(BuildState::push_new_layer, (a, layer, upper, history, now), ()),
        call_ensures(BuildState::adopt_cached_layer, (b, layer, history, now), ()),
    ensures
        final(a)@.new_layers == old(a)@.new_layers.push(layer@),
        final(b)@.new_layers == old(b)@.new_layers.push(layer@),
        final(a)@.uppers == old(a)@.uppers.push(upper@),
        final(b)@.uppers == old(b)@.uppers,
        final(b)@.adopted,
        final(a)@.config.history.last().created_by == Some(history@),
        final(b)@.config.history.last().created_by == Some(history@),
        !final(a)@.config.history.last().empty_layer && !final(b)@.config.history.last().empty_layer,
{
}

/// On its way down a walk enters directories and makes those that are not there; it
/// does not go through a link, nor through a file. At its end it removes a link.
pub proof fn lemma_walk_step(w: &mut WriteWalk, found: Found, r: WalkAction)
    requires
        call_ensures(WriteWalk::step, (w, found), r),
        old(w)@.at < old(w)@.steps.len(),
    ensures
        ({
            let last = old(w)@.at == old(w)@.steps.len() - 1;
            &&& final(w)@.root == old(w)@.root && final(w)@.steps == old(w)@.steps
            &&& !last && found is Symlink ==> (r matches WalkAction::Refuse(PathRefusal::Symlink {
                ..
            })) && final(w)@.at == old(w)@.at
            &&& !last && found is Other ==> (r matches WalkAction::Refuse(
                PathRefusal::NotADirectory { .. },
            )) && final(w)@.at == old(w)@.at
            &&& !last && found is Unreadable ==> r is Fail && final(w)@.at == old(w)@.at
            &&& !last && found is Directory ==> r is GoOn && final(w)@.at == old(w)@.at + 1
            &&& !last && found is Missing ==> r is CreateDir && final(w)@.at == old(w)@.at + 1
            &&& last ==> final(w)@.at == old(w)@.at + 1
            &&& last && found is Symlink ==> r is Unlink
            &&& last && !(found is Symlink) ==> r is GoOn
        }),
{
}

/// A staging walk plans each `ADD` in the scope before it, and does nothing for the
/// other directives; an `ARG` changes the scope, and the first image is the first.
pub proof fn lemma_staging_step(
    w: &mut StagingWalk,
    d: &Directive,
    build_args: &TextMap<String>,
    produced: &TextMap<String>,
    r: Result<Option<StagingAdd>, BootableBuildError>,
)
    requires
        call_ensures(StagingWalk::step, (w, d, build_args, produced), r),
    ensures
        !(*d is Add) ==> (r matches Ok(None)),
        *d is Add && r is Ok ==> r->Ok_0 is Some,
        *d is Add && d->Add_0.source is Oci ==> (r matches Ok(Some(StagingAdd::Image {
            reference,
            first,
        })) && first == old(w).first_image && reference@ == substitute(
            d->Add_0.source->Oci_0@,
            text_values(old(w).arg_scope@),
        )) && !final(w).first_image,
        !(*d is Add && d->Add_0.source is Oci) ==> final(w).first_image == old(w).first_image,
        !(*d is Arg) ==> text_values(final(w).arg_scope@) == text_values(old(w).arg_scope@),
        *d matches Directive::Arg(a) && build_args@.dom().contains(a.name@) ==> text_values(
            final(w).arg_scope@,
        )[d->Arg_0.name@] == build_args@[d->Arg_0.name@]@,
{
}

/// A `RUN` changes nothing for the commands behind it, and is executed in the
/// environment before it; without an emulator it is refused.
pub proof fn lemma_context_step(
    c: &mut RunContext,
    d: &Directive,
    build_args: &TextMap<String>,
    qemu: bool,
    r: Result<RunAction, BootableBuildError>,
)
    requires
        call_ensures(RunContext::step, (c, d, build_args, qemu), r),
    ensures
        *d is Run ==> final(c)@ == old(c)@,
        *d is Run && qemu ==> (r matches Ok(RunAction::Execute { env, .. }) && text_values(env@)
            == old(c)@.env),
        *d is Run && !qemu ==> (r matches Err(BootableBuildError::RunWithoutQemu)),
        *d matches Directive::Env(e) ==> final(c)@.env.dom().contains(d->Env_0.key@)
            && final(c)@.env[d->Env_0.key@] == substitute(d->Env_0.value@, old(c)@.scope),
        *d matches Directive::User(u) ==> final(c)@.user == Some(
            substitute(d->User_0.name@, old(c)@.scope),
        ),
        !(*d is Run) && !(*d is Workdir) ==> (r matches Ok(RunAction::Nothing)),
        final(c)@ == context_behind(old(c)@, *d, text_values(build_args@)),
        is_run_step(r, *d, old(c)@, qemu),
{
}

/// A bootable build goes on from where it is, and through nothing else than its next
/// step.
pub proof fn lemma_vm_next<'a>(w: &mut VmWalk<'a>, r: Result<VmAction, BootableBuildError>)
    requires
        call_ensures(VmWalk::<'a>::next, (w,), r),
    ensures
        old(w).is_next(*final(w), r),
        final(w).plan == old(w).plan,
        final(w).reports == old(w).reports,
        final(w).phase.rank() >= old(w).phase.rank(),
{
}

/// What a step of a bootable build brought is kept: the kernel and where it came from,
/// the images, the commands that ended well, and the initramfs.
pub proof fn lemma_vm_answers<'a>(
    a: &mut VmWalk<'a>,
    kernel: FromKernelProvenance,
    b: &mut VmWalk<'a>,
    image: AddProvenance,
    c: &mut VmWalk<'a>,
    layout: KernelLayout,
    d: &mut VmWalk<'a>,
    report: InitrdReport,
)
    requires
        call_ensures(VmWalk::<'a>::on_kernel, (a, kernel), ()),
        call_ensures(VmWalk::<'a>::on_added, (b, image), ()),
        call_ensures(VmWalk::<'a>::on_layout, (c, layout), ()),
        call_ensures(VmWalk::<'a>::on_initramfs, (d, report), ()),
    ensures
        final(a).kernel_source == Some(kernel) && final(a).phase == Phase::Add(0),
        final(b).add_sources@ == old(b).add_sources@.push(image) && final(b).phase == old(b).phase,
        final(c).kernel == Some(layout) && final(c).phase is Runtime,
        final(d).initrd == Some(report) && final(d).phase is Emit,
        final(d).kernel == old(d).kernel && final(d).reports == old(d).reports,
{
}

/// A command that ends with anything but zero stops a bootable build; one that ends
/// well is kept among the reports.
pub proof fn lemma_vm_run<'a>(
    w: &mut VmWalk<'a>,
    command: &str,
    result: RunStepResult,
    r: Result<(), BootableBuildError>,
)
    requires
        call_ensures(VmWalk::<'a>::on_run, (w, command, result), r),
    ensures
        r is Ok <==> result.exit_code == 0,
        r is Ok ==> final(w).reports@ == old(w).reports@.push(result),
        r is Err ==> final(w).reports == old(w).reports,
        r matches Err(e) ==> (e matches BootableBuildError::RunStepFailed {
            command: c,
            exit_code,
            ..
        } && c@ == command@ && exit_code == result.exit_code),
{
}

/// A reply with a body ends a fetch where it is. One that leads elsewhere is followed,
/// ten times and with a place to go to; any other ends the fetch with an error.
pub proof fn lemma_reply(
    w: &mut FetchWalk,
    status: u16,
    text: &str,
    location: Option<&str>,
    r: Result<Reply, EngineBuildError>,
)
    requires
        call_ensures(FetchWalk::on_reply, (w, status, text, location), r),
        old(w)@.hops <= 10,
    ensures
        final(w)@.original == old(w)@.original,
        status / 100 == 2 ==> r == Ok::<Reply, EngineBuildError>(Reply::Body) && final(w)@
            == old(w)@,
        status / 100 == 3 && (old(w)@.hops >= 10 || location is None) ==> r is Err && final(w)@
            == old(w)@,
        status / 100 != 2 && status / 100 != 3 ==> r is Err && final(w)@ == old(w)@,
        r == Ok::<Reply, EngineBuildError>(Reply::Redirected) ==> status / 100 == 3
            && final(w)@.hops == old(w)@.hops + 1 && location is Some,
        r matches Err(e) ==> (e matches EngineBuildError::AddUrlFetchFailed { url, detail } && url@
            == old(w)@.original && (status / 100 != 2 && status / 100 != 3 ==> detail@ == "HTTP "@
            + text@)),
{
}

/// A redirection leads to the place that is given, and counts.
pub proof fn lemma_redirected(
    w: &mut FetchWalk,
    text: &str,
    place: UrlParts,
    r: Result<Reply, EngineBuildError>,
)
    requires
        call_ensures(FetchWalk::redirect, (w, text, Some(Ok(place))), r),
        old(w)@.hops <= 10,
    ensures
        old(w)@.hops < 10 ==> r == Ok::<Reply, EngineBuildError>(Reply::Redirected)
            && final(w)@.target == place@ && final(w)@.hops == old(w)@.hops + 1
            && final(w)@.original == old(w)@.original,
        old(w)@.hops >= 10 ==> r is Err && final(w)@ == old(w)@,
{
}

/// What is measured is the time from the start of a span to its end, of spans of the
/// builder alone.
pub proof fn lemma_spans(
    layer: &mut MetricsLayer,
    name: &str,
    id: u64,
    now: u128,
    other: &mut MetricsLayer,
    metrics: &mut BuildMetrics,
    end: u128,
)
    requires
        call_ensures(MetricsLayer::on_new_span, (layer, name, id, now), ()),
        *old(other) == *final(layer),
        call_ensures(MetricsLayer::on_close, (other, id, Some(name), end, metrics), ()),
        !old(layer).span_starts@.dom().contains(id),
        !old(metrics)@.counts.dom().contains(name@),
        end >= now,
    ensures
        "umf."@.is_prefix_of(name@) ==> final(metrics)@.phases.dom().contains(name@)
            && final(metrics)@.phases[name@] == end - now && final(metrics)@.counts[name@] == 1,
        !"umf."@.is_prefix_of(name@) ==> final(metrics)@ == old(metrics)@,
        !final(other).span_starts@.dom().contains(id),
{
}

/// A reference that could not be pulled is passed over for the next, and a place that
/// was tried in vain for the next place.
pub proof fn lemma_next_tried(p: &mut PullWalk, e: EngineBuildError, w: &mut ResolveWalk)
    requires
        call_ensures(PullWalk::on_failed, (p, e), ()),
        call_ensures(ResolveWalk::on_missed, (w,), ()),
        old(p).at < old(p).refs@.len(),
        old(w).at < old(w).plan.attempts@.len(),
    ensures
        final(p).at == old(p).at + 1,
        final(p).refs == old(p).refs,
        final(p).last == Some(e),
        final(w).at == old(w).at + 1,
        final(w).plan == old(w).plan,
{
    assert(old(p).refs@.len() == old(p).refs.len());
}

/// A stage with a name is found under it; what else was found is found as before.
pub proof fn lemma_stage_recorded(
    produced: &mut TextMap<String>,
    stage: &Stage,
    reference: &str,
    other: Seq<char>,
)
    requires
        call_ensures(record_stage, (produced, stage, reference), ()),
        stage.name is Some,
    ensures
        text_values(final(produced)@).dom().contains(stage.name->0@),
        text_values(final(produced)@)[stage.name->0@] == reference@,
        other != stage.name->0@ ==> text_values(final(produced)@).dom().contains(other)
            == text_values(old(produced)@).dom().contains(other) && (text_values(
            old(produced)@,
        ).dom().contains(other) ==> text_values(final(produced)@)[other] == text_values(
            old(produced)@,
        )[other]),
{
}

/// What is put into a map is found in it again, under its key alone.
pub proof fn lemma_put_and_got(
    m: &mut TextMap<String>,
    key: String,
    value: String,
    after: &TextMap<String>,
    before: &TextMap<String>,
    k: &str,
    other: &str,
    r: Option<&String>,
    q: Option<&String>,
    p: Option<&String>,
)
    requires
        call_ensures(TextMap::<String>::insert, (m, key, value), ()),
        *after == *final(m),
        *before == *old(m),
        k@ == key@,
        other@ != key@,
        call_ensures(TextMap::<String>::get, (after, k), r),
        call_ensures(TextMap::<String>::get, (after, other), q),
        call_ensures(TextMap::<String>::get, (before, other), p),
    ensures
        r matches Some(v) && *v == value,
        (q is Some) == (p is Some),
        q is Some ==> *q->0 == *p->0,
{
}

} // verus!
