//! What the directives that make no layer do to a stage, and how directives are
//! named to the user.
use vstd::prelude::*;
use crate::arg_subst::{apply_arg_to_scope, scope_after};
use crate::ast::{
    Arg, Cmd, CmdForm, Directive, Entrypoint, EntrypointInit, Env, Expose, Label, RunCommand,
    Shell, Stopsignal, User, Volume, Workdir,
};
use crate::fsutil::{resolve_workdir, workdir};
use crate::image::{copy_texts, ConfigView, ContainerView, LayerSource, LayerView};
use crate::number::{decimal, write_decimal};
use crate::text::{
    chars_of, concat2, concat3, concat4, join, joined, lemma_texts_push, replace_char, replaced,
    same, starts_with, text_of, texts, trim_start_char, trim_start_matches,
};
use crate::text_map::{lemma_text_values_insert, text_values, TextMap};
use super::state::{default_shell, default_shell_argv, BuildState, StateView};

verus! {

/// The coarse kinds of steps.
#[derive(Clone, Copy, Debug, PartialEq, Eq, Structural)]
pub enum StepKind {
    /// A command is run.
    Run,
    /// Files are added.
    Add,
    /// Only the configuration changes.
    Metadata,
}

/// The kind of step that a directive is.
pub open spec fn step_kind(d: Directive) -> StepKind {
    match d {
        Directive::Run(_) => StepKind::Run,
        Directive::Add(_) => StepKind::Add,
        _ => StepKind::Metadata,
    }
}

/// The kind of step that a directive is.
pub fn classify_directive(d: &Directive) -> (r: StepKind)
    ensures
        r == step_kind(*d),
{
    match d {
        Directive::Run(_) => StepKind::Run,
        Directive::Add(_) => StepKind::Add,
        _ => StepKind::Metadata,
    }
}

/// The command of a `RUN` as one text.
pub open spec fn command_text(command: RunCommand) -> Seq<char> {
    match command {
        RunCommand::Shell(s) => s@,
        RunCommand::Exec(parts) => join(texts(parts@), " "@),
    }
}

/// The directive as one text.
pub open spec fn directive_text(d: Directive) -> Seq<char> {
    match d {
        Directive::Run(r) => "RUN "@ + command_text(r.command),
        Directive::Add(a) => "ADD "@ + a.source.text() + " "@ + a.destination@,
        Directive::Label(_) => "LABEL"@,
        Directive::Env(_) => "ENV"@,
        Directive::Arg(_) => "ARG"@,
        Directive::User(_) => "USER"@,
        Directive::Workdir(_) => "WORKDIR"@,
        Directive::Entrypoint(_) => "ENTRYPOINT"@,
        Directive::Expose(_) => "EXPOSE"@,
        Directive::Shell(_) => "SHELL"@,
        Directive::Cmd(_) => "CMD"@,
        Directive::Volume(_) => "VOLUME"@,
        Directive::Stopsignal(_) => "STOPSIGNAL"@,
    }
}

/// `s` on one line, cut to `max` characters; an ellipsis marks the cut.
pub open spec fn shortened(s: Seq<char>, max: nat) -> Seq<char> {
    let line = replace_char(s, '\n', " "@);
    if line.len() <= max {
        line
    } else {
        line.take(if max == 0 {
            0
        } else {
            max - 1
        }) + "…"@
    }
}

/// What is shown of a directive at a prompt is no longer than asked for.
pub proof fn lemma_shortened_length(s: Seq<char>, max: nat)
    requires
        max > 0,
    ensures
        shortened(s, max).len() <= max,
{
    reveal_strlit("…");
}

/// The command of a `RUN` as one text.
pub fn render_command(command: &RunCommand) -> (r: String)
    ensures
        r@ == command_text(*command),
{
    match command {
        RunCommand::Shell(s) => s.clone(),
        RunCommand::Exec(parts) => joined(parts, " "),
    }
}

/// The directive on one line of at most eighty characters.
pub fn describe_directive(d: &Directive) -> (r: String)
    ensures
        r@ == shortened(directive_text(*d), 80),
{
    let raw = match d {
        Directive::Run(run) => concat2("RUN ", render_command(&run.command).as_str()),
        Directive::Add(a) => concat4("ADD ", a.source.as_str(), " ", a.destination.as_str()),
        Directive::Label(_) => String::from_str("LABEL"),
        Directive::Env(_) => String::from_str("ENV"),
        Directive::Arg(_) => String::from_str("ARG"),
        Directive::User(_) => String::from_str("USER"),
        Directive::Workdir(_) => String::from_str("WORKDIR"),
        Directive::Entrypoint(_) => String::from_str("ENTRYPOINT"),
        Directive::Expose(_) => String::from_str("EXPOSE"),
        Directive::Shell(_) => String::from_str("SHELL"),
        Directive::Cmd(_) => String::from_str("CMD"),
        Directive::Volume(_) => String::from_str("VOLUME"),
        Directive::Stopsignal(_) => String::from_str("STOPSIGNAL"),
    };
    truncate_for_prompt(raw.as_str(), 80)
}

/// `s` on one line, cut to `max` characters.
pub fn truncate_for_prompt(s: &str, max: usize) -> (r: String)
    ensures
        r@ == shortened(s@, max as nat),
{
    let line = replaced(s, '\n', " ");
    let v = chars_of(line.as_str());
    if v.len() <= max {
        line
    } else {
        let keep: usize = if max == 0 {
            0
        } else {
            max - 1
        };
        let head = text_of(&v, 0, keep);
        assert(v@.subrange(0, keep as int) =~= v@.take(keep as int));
        concat2(head.as_str(), "…")
    }
}

impl StateView {
    /// The state with other settings for containers.
    pub open spec fn with_container(self, container: ContainerView) -> StateView {
        StateView { config: ConfigView { container, ..self.config }, ..self }
    }

    /// The texts with the references to `ARG`s in scope replaced.
    pub open spec fn subst_all(self, parts: Seq<Seq<char>>) -> Seq<Seq<char>> {
        Seq::new(parts.len(), |i: int| self.subst(parts[i]))
    }

    /// The shell for a command in shell form; the default one where there is none.
    pub open spec fn stored_shell(self) -> Seq<Seq<char>> {
        if self.shell.len() == 0 {
            default_shell()
        } else {
            self.shell
        }
    }
}

/// `list` with `item` at its end, unless it is in it already.
pub open spec fn add_new(list: Seq<Seq<char>>, item: Seq<char>) -> Seq<Seq<char>> {
    if list.contains(item) {
        list
    } else {
        list.push(item)
    }
}

/// `list` with those of the items added that are not in it, one after another.
pub open spec fn add_all_new(list: Seq<Seq<char>>, items: Seq<Seq<char>>) -> Seq<Seq<char>>
    decreases items.len(),
{
    if items.len() == 0 {
        list
    } else {
        add_new(add_all_new(list, items.drop_last()), items.last())
    }
}

/// Does an environment entry set another variable than `key`?
pub open spec fn sets_other(key: Seq<char>) -> spec_fn(Seq<char>) -> bool {
    |e: Seq<char>| !(key + "="@).is_prefix_of(e)
}

/// The environment with `key` set to `value`: what it was set to before is
/// gone.
pub open spec fn env_with(env: Seq<Seq<char>>, key: Seq<char>, value: Seq<char>) -> Seq<Seq<char>> {
    env.filter(sets_other(key)).push(key + "="@ + value)
}

/// The line in the history that a directive leaves: its text in the recipe.
pub open spec fn metadata_line(d: Directive) -> Seq<char> {
    match d {
        Directive::User(u) => "USER "@ + u.name@,
        Directive::Env(e) => "ENV "@ + e.key@ + "="@ + e.value@,
        Directive::Shell(s) => "SHELL "@ + (if s.argv@.len() == 0 {
            "(none)"@
        } else {
            "switched"@
        }),
        Directive::Label(l) => "LABEL "@ + l.key@ + "="@ + l.value@,
        Directive::Entrypoint(ep) => "ENTRYPOINT "@ + (match ep.init {
            EntrypointInit::Path(s) => s@,
            EntrypointInit::Exec(parts) => join(texts(parts@), " "@),
            EntrypointInit::NoInit => "none"@,
            EntrypointInit::Systemd => "systemd"@,
            EntrypointInit::OpenRc => "openrc"@,
        }),
        Directive::Expose(e) => "EXPOSE "@ + port_entry(e),
        Directive::Cmd(c) => "CMD "@ + (match c.command {
            CmdForm::Shell(s) => s@,
            CmdForm::Exec(parts) => join(texts(parts@), " "@),
        }),
        Directive::Volume(v) => "VOLUME "@ + join(texts(v.paths@), " "@),
        Directive::Stopsignal(s) => "STOPSIGNAL "@ + s.signal@,
        _ => Seq::empty(),
    }
}

/// An exposed port as the configuration has it.
pub open spec fn port_entry(e: Expose) -> Seq<char> {
    decimal(e.port as nat) + "/"@ + e.protocol.name()
}

/// The settings for containers after a directive.
pub open spec fn container_after(s: StateView, d: Directive) -> ContainerView {
    let c = s.config.container;
    match d {
        Directive::User(u) => ContainerView { user: Some(s.subst(u.name@)), ..c },
        Directive::Env(e) => ContainerView { env: env_with(c.env, e.key@, s.subst(e.value@)), ..c },
        Directive::Label(l) => ContainerView {
            labels: c.labels.insert(l.key@, s.subst(l.value@)),
            ..c
        },
        Directive::Entrypoint(ep) => ContainerView {
            entrypoint: match ep.init {
                EntrypointInit::Path(cmd) => Some(s.stored_shell().push(s.subst(cmd@))),
                EntrypointInit::Exec(parts) => Some(s.subst_all(texts(parts@))),
                EntrypointInit::NoInit => None,
                EntrypointInit::Systemd => Some(seq!["/usr/sbin/init"@]),
                EntrypointInit::OpenRc => Some(seq!["/sbin/openrc-init"@]),
            },
            ..c
        },
        Directive::Expose(e) => ContainerView {
            exposed_ports: add_new(c.exposed_ports, port_entry(e)),
            ..c
        },
        Directive::Cmd(cmd) => ContainerView {
            cmd: Some(
                match cmd.command {
                    CmdForm::Shell(line) => s.stored_shell().push(s.subst(line@)),
                    CmdForm::Exec(parts) => s.subst_all(texts(parts@)),
                },
            ),
            ..c
        },
        Directive::Volume(v) => ContainerView {
            volumes: add_all_new(c.volumes, s.subst_all(texts(v.paths@))),
            ..c
        },
        Directive::Stopsignal(sig) => ContainerView { stop_signal: Some(sig.signal@), ..c },
        _ => c,
    }
}

/// The state after a directive that makes no layer, taken at `now`. An `ARG`
/// changes only the scope; the others are logged with their text in the recipe.
pub open spec fn after_metadata(
    s: StateView,
    d: Directive,
    build_args: Map<Seq<char>, Seq<char>>,
    now: Seq<char>,
) -> StateView {
    match d {
        Directive::Arg(a) => StateView {
            scope: scope_after(s.scope, a, build_args),
            ..s
        },
        Directive::Shell(sh) => StateView {
            shell: texts(sh.argv@),
            ..s.logged(metadata_line(d), now, true)
        },
        Directive::Run(_) => s,
        Directive::Add(_) => s,
        Directive::Workdir(_) => s,
        _ => s.with_container(container_after(s, d)).logged(metadata_line(d), now, true),
    }
}

/// Expands the references to `ARG`s in scope in each of the texts.
pub fn subst_texts(state: &BuildState, parts: &Vec<String>) -> (r: Vec<String>)
    ensures
        texts(r@) == state@.subst_all(texts(parts@)),
{
    let ghost all = state@.subst_all(texts(parts@));
    let mut out: Vec<String> = Vec::new();
    let mut i: usize = 0;
    assert(texts(out@) =~= all.take(0));
    while i < parts.len()
        invariant
            i <= parts@.len(),
            all == state@.subst_all(texts(parts@)),
            texts(out@) == all.take(i as int),
        decreases parts.len() - i,
    {
        let value = state.subst(parts[i].as_str());
        proof {
            lemma_texts_push(out@, value);
            assert(all.take(i as int + 1) =~= all.take(i as int).push(value@));
        }
        out.push(value);
        i += 1;
    }
    assert(all.take(i as int) =~= all);
    out
}

fn contains_item(list: &Vec<String>, item: &str) -> (r: bool)
    ensures
        r == texts(list@).contains(item@),
{
    let ghost all = texts(list@);
    let mut i: usize = 0;
    while i < list.len()
        invariant
            i <= list@.len(),
            all == texts(list@),
            forall|j: int| 0 <= j < i ==> #[trigger] all[j] != item@,
        decreases list.len() - i,
    {
        assert(all[i as int] == list@[i as int]@);
        if same(list[i].as_str(), item) {
            return true;
        }
        i += 1;
    }
    false
}

pub(crate) fn push_new(list: &mut Vec<String>, item: String)
    ensures
        texts(final(list)@) == add_new(texts(old(list)@), item@),
{
    if !contains_item(list, item.as_str()) {
        proof {
            lemma_texts_push(list@, item);
        }
        list.push(item);
    }
}

/// The command line for the shell, with the references to `ARG`s in scope
/// replaced.
pub fn argv_with_shell(state: &BuildState, command: &str) -> (r: Vec<String>)
    ensures
        texts(r@) == state@.stored_shell().push(state@.subst(command@)),
{
    let mut argv = if state.current_shell.len() == 0 {
        default_shell_argv()
    } else {
        copy_texts(&state.current_shell)
    };
    let line = state.subst(command);
    proof {
        lemma_texts_push(argv@, line);
    }
    argv.push(line);
    argv
}

/// `USER`: the user of later steps and of containers.
pub fn apply_user(state: &mut BuildState, u: &User, now: &str)
    ensures
        final(state)@ == after_metadata(old(state)@, Directive::User(*u), Map::empty(), now@),
{
    let value = state.subst(u.name.as_str());
    state.image_config.container.user = Some(value);
    proof {
        assert(state@ =~= old(state)@.with_container(
            container_after(old(state)@, Directive::User(*u)),
        ));
    }
    state.push_metadata_history(concat2("USER ", u.name.as_str()), String::from_str(now));
}

/// `ENV`: sets a variable, in place of what it was set to before.
pub fn apply_env(state: &mut BuildState, e: &Env, now: &str)
    ensures
        final(state)@ == after_metadata(old(state)@, Directive::Env(*e), Map::empty(), now@),
{
    let value = state.subst(e.value.as_str());
    let prefix = concat2(e.key.as_str(), "=");
    let entry = concat2(prefix.as_str(), value.as_str());
    let ghost all = old(state)@.config.container.env;
    let ghost keep = sets_other(e.key@);
    let mut env: Vec<String> = Vec::new();
    let mut i: usize = 0;
    proof {
        reveal(Seq::filter);
        assert(all.take(0) =~= Seq::empty());
        assert(texts(env@) =~= all.take(0).filter(keep));
    }
    while i < state.image_config.container.env.len()
        invariant
            i <= state.image_config.container.env@.len(),
            all == texts(state.image_config.container.env@),
            *state == *old(state),
            keep == sets_other(e.key@),
            prefix@ == e.key@ + "="@,
            texts(env@) == all.take(i as int).filter(keep),
        decreases state.image_config.container.env.len() - i,
    {
        proof {
            assert(all[i as int] == state.image_config.container.env@[i as int]@);
            assert(all.take(i as int + 1).drop_last() =~= all.take(i as int));
            assert(all.take(i as int + 1).last() == all[i as int]);
            reveal(Seq::filter);
        }
        let here = state.image_config.container.env[i].clone();
        if !starts_with(here.as_str(), prefix.as_str()) {
            proof {
                lemma_texts_push(env@, here);
            }
            env.push(here);
        }
        i += 1;
    }
    proof {
        assert(all.take(i as int) =~= all);
        lemma_texts_push(env@, entry);
    }
    env.push(entry);
    state.image_config.container.env = env;
    proof {
        assert(state@ =~= old(state)@.with_container(
            container_after(old(state)@, Directive::Env(*e)),
        ));
    }
    let line = concat4("ENV ", e.key.as_str(), "=", e.value.as_str());
    state.push_metadata_history(line, String::from_str(now));
}

/// `SHELL`: the shell for commands in shell form from here on.
pub fn apply_shell(state: &mut BuildState, s: &Shell, now: &str)
    ensures
        final(state)@ == after_metadata(old(state)@, Directive::Shell(*s), Map::empty(), now@),
{
    let what = if s.argv.len() == 0 {
        "(none)"
    } else {
        "switched"
    };
    state.push_metadata_history(concat2("SHELL ", what), String::from_str(now));
    state.current_shell = copy_texts(&s.argv);
    proof {
        assert(state@ =~= after_metadata(
            old(state)@,
            Directive::Shell(*s),
            Map::empty(),
            now@,
        ));
    }
}

/// `LABEL`: sets a label.
pub fn apply_label(state: &mut BuildState, l: &Label, now: &str)
    ensures
        final(state)@ == after_metadata(old(state)@, Directive::Label(*l), Map::empty(), now@),
{
    let value = state.subst(l.value.as_str());
    proof {
        lemma_text_values_insert(state.image_config.container.labels@, l.key@, value);
    }
    state.image_config.container.labels.insert(l.key.clone(), value);
    proof {
        assert(state@ =~= old(state)@.with_container(
            container_after(old(state)@, Directive::Label(*l)),
        ));
    }
    let line = concat4("LABEL ", l.key.as_str(), "=", l.value.as_str());
    state.push_metadata_history(line, String::from_str(now));
}

/// `ARG`: brings a name into scope. It leaves no layer and no line in the
/// history.
pub fn apply_arg(state: &mut BuildState, arg: &Arg, build_args: &TextMap<String>)
    ensures
        final(state)@ == after_metadata(
            old(state)@,
            Directive::Arg(*arg),
            text_values(build_args@),
            Seq::empty(),
        ),
{
    let mut scope = state.arg_scope.clone();
    apply_arg_to_scope(&mut scope, arg, build_args);
    state.arg_scope = scope;
    proof {
        assert(state@ =~= after_metadata(
            old(state)@,
            Directive::Arg(*arg),
            text_values(build_args@),
            Seq::empty(),
        ));
    }
}

/// `ENTRYPOINT`: what a container starts.
pub fn apply_entrypoint(state: &mut BuildState, ep: &Entrypoint, now: &str)
    ensures
        final(state)@ == after_metadata(old(state)@, Directive::Entrypoint(*ep), Map::empty(), now@),
{
    let (argv, line) = match &ep.init {
        EntrypointInit::Path(command) => (
            Some(argv_with_shell(state, command.as_str())),
            command.clone(),
        ),
        EntrypointInit::Exec(parts) => (Some(subst_texts(state, parts)), joined(parts, " ")),
        EntrypointInit::NoInit => (None, String::from_str("none")),
        EntrypointInit::Systemd => (
            Some(single("/usr/sbin/init")),
            String::from_str("systemd"),
        ),
        EntrypointInit::OpenRc => (
            Some(single("/sbin/openrc-init")),
            String::from_str("openrc"),
        ),
    };
    state.image_config.container.entrypoint = argv;
    proof {
        assert(state@ =~= old(state)@.with_container(
            container_after(old(state)@, Directive::Entrypoint(*ep)),
        ));
    }
    state.push_metadata_history(concat2("ENTRYPOINT ", line.as_str()), String::from_str(now));
}

fn single(s: &str) -> (r: Vec<String>)
    ensures
        texts(r@) == seq![s@],
{
    let mut r: Vec<String> = Vec::new();
    r.push(String::from_str(s));
    assert(texts(r@) =~= seq![s@]);
    r
}

/// `EXPOSE`: a port that containers open, named once.
pub fn apply_expose(state: &mut BuildState, e: &Expose, now: &str)
    ensures
        final(state)@ == after_metadata(old(state)@, Directive::Expose(*e), Map::empty(), now@),
{
    let port = write_decimal(e.port as u128);
    let entry = concat3(port.as_str(), "/", e.protocol.as_str());
    push_new(&mut state.image_config.container.exposed_ports, entry.clone());
    proof {
        assert(state@ =~= old(state)@.with_container(
            container_after(old(state)@, Directive::Expose(*e)),
        ));
    }
    state.push_metadata_history(concat2("EXPOSE ", entry.as_str()), String::from_str(now));
}

/// `CMD`: the arguments of what a container starts. The last one counts.
pub fn apply_cmd(state: &mut BuildState, c: &Cmd, now: &str)
    ensures
        final(state)@ == after_metadata(old(state)@, Directive::Cmd(*c), Map::empty(), now@),
{
    let (argv, line) = match &c.command {
        CmdForm::Shell(command) => (argv_with_shell(state, command.as_str()), command.clone()),
        CmdForm::Exec(parts) => (subst_texts(state, parts), joined(parts, " ")),
    };
    state.image_config.container.cmd = Some(argv);
    proof {
        assert(state@ =~= old(state)@.with_container(
            container_after(old(state)@, Directive::Cmd(*c)),
        ));
    }
    state.push_metadata_history(concat2("CMD ", line.as_str()), String::from_str(now));
}

/// `VOLUME`: mount points, each named once.
pub fn apply_volume(state: &mut BuildState, v: &Volume, now: &str)
    ensures
        final(state)@ == after_metadata(old(state)@, Directive::Volume(*v), Map::empty(), now@),
{
    let paths = subst_texts(state, &v.paths);
    let ghost all = texts(paths@);
    let ghost before = texts(state.image_config.container.volumes@);
    let mut volumes = copy_texts(&state.image_config.container.volumes);
    let mut i: usize = 0;
    assert(all.take(0) =~= Seq::empty());
    while i < paths.len()
        invariant
            i <= paths@.len(),
            all == texts(paths@),
            texts(volumes@) == add_all_new(before, all.take(i as int)),
        decreases paths.len() - i,
    {
        proof {
            assert(all.take(i as int + 1).drop_last() =~= all.take(i as int));
            assert(all.take(i as int + 1).last() == paths@[i as int]@);
        }
        push_new(&mut volumes, paths[i].clone());
        i += 1;
    }
    assert(all.take(i as int) =~= all);
    state.image_config.container.volumes = volumes;
    proof {
        assert(state@ =~= old(state)@.with_container(
            container_after(old(state)@, Directive::Volume(*v)),
        ));
    }
    let line = concat2("VOLUME ", joined(&v.paths, " ").as_str());
    state.push_metadata_history(line, String::from_str(now));
}

/// `STOPSIGNAL`: the signal that stops a container. The last one counts.
pub fn apply_stopsignal(state: &mut BuildState, s: &Stopsignal, now: &str)
    ensures
        final(state)@ == after_metadata(old(state)@, Directive::Stopsignal(*s), Map::empty(), now@),
{
    state.image_config.container.stop_signal = Some(s.signal.clone());
    proof {
        assert(state@ =~= old(state)@.with_container(
            container_after(old(state)@, Directive::Stopsignal(*s)),
        ));
    }
    let line = concat2("STOPSIGNAL ", s.signal.as_str());
    state.push_metadata_history(line, String::from_str(now));
}

/// What a `WORKDIR` asks for: a directory that is made as a layer of its own.
#[derive(Debug)]
pub struct WorkdirPlan {
    /// The working directory from here on.
    pub resolved: String,
    /// The directory to make, below the root of the layer.
    pub directory: String,
    /// The line in the history.
    pub history_line: String,
}

/// The working directory that a `WORKDIR` leads to.
pub open spec fn workdir_after(s: StateView, path: Seq<char>) -> Seq<char> {
    workdir(
        match s.config.container.working_dir {
            Some(d) => d,
            None => "/"@,
        },
        s.subst(path),
    )
}

/// Is it what a `WORKDIR` asks for?
pub open spec fn is_workdir_plan(p: WorkdirPlan, s: StateView, wd: Workdir) -> bool {
    &&& p.resolved@ == workdir_after(s, wd.path@)
    &&& p.directory@ == trim_start_char(p.resolved@, '/')
    &&& p.history_line@ == "WORKDIR "@ + wd.path@
}

/// What a `WORKDIR` asks for.
pub fn plan_workdir(state: &BuildState, wd: &Workdir) -> (r: WorkdirPlan)
    ensures
        is_workdir_plan(r, state@, *wd),
{
    let requested = state.subst(wd.path.as_str());
    let resolved = match &state.image_config.container.working_dir {
        Some(current) => resolve_workdir(current.as_str(), requested.as_str()),
        None => resolve_workdir("/", requested.as_str()),
    };
    let directory = trim_start_matches(resolved.as_str(), '/');
    WorkdirPlan { resolved, directory, history_line: concat2("WORKDIR ", wd.path.as_str()) }
}

/// The state after a `WORKDIR` whose directory was made as `layer`.
pub open spec fn after_workdir(
    s: StateView,
    resolved: Seq<char>,
    line: Seq<char>,
    layer: LayerView,
    upper: Seq<char>,
    now: Seq<char>,
) -> StateView {
    let done = s.with_layer(layer, upper, line, now);
    done.with_container(ContainerView { working_dir: Some(resolved), ..done.config.container })
}

/// Finishes a `WORKDIR` whose directory was made as `layer`, packed from `upper`.
pub fn apply_workdir(
    state: &mut BuildState,
    plan: WorkdirPlan,
    layer: LayerSource,
    upper: String,
    now: &str,
)
    ensures
        final(state)@ == after_workdir(
            old(state)@,
            plan.resolved@,
            plan.history_line@,
            layer@,
            upper@,
            now@,
        ),
{
    let resolved = plan.resolved;
    state.push_new_layer(layer, upper, plan.history_line, String::from_str(now));
    state.image_config.container.working_dir = Some(resolved);
    proof {
        assert(state@ =~= after_workdir(
            old(state)@,
            plan.resolved@,
            plan.history_line@,
            layer@,
            upper@,
            now@,
        ));
    }
}

/// The value of an `ARG` never gets into the history: what directives leave
/// there does not depend on the scope, nor on values from the command line.
pub proof fn lemma_history_has_no_values(
    s: StateView,
    t: StateView,
    d: Directive,
    s_args: Map<Seq<char>, Seq<char>>,
    t_args: Map<Seq<char>, Seq<char>>,
    now: Seq<char>,
)
    requires
        s.config.history == t.config.history,
    ensures
        after_metadata(s, d, s_args, now).config.history == after_metadata(
            t,
            d,
            t_args,
            now,
        ).config.history,
{
}

/// After an `ENV` the variable is set once, at the end, to the new value; the
/// other variables are set as before.
pub proof fn lemma_env_last_wins(env: Seq<Seq<char>>, key: Seq<char>, value: Seq<char>)
    ensures
        ({
            let after = env_with(env, key, value);
            &&& after.last() == key + "="@ + value
            &&& forall|i: int|
                0 <= i < after.len() - 1 ==> sets_other(key)(#[trigger] after[i]) && env.contains(
                    after[i],
                )
            &&& forall|i: int|
                0 <= i < env.len() && sets_other(key)(#[trigger] env[i]) ==> after.contains(env[i])
        }),
{
    let keep = sets_other(key);
    let rest = env.filter(keep);
    let after = env_with(env, key, value);
    assert forall|i: int| 0 <= i < after.len() - 1 implies keep(#[trigger] after[i])
        && env.contains(after[i]) by {
        assert(after[i] == rest[i]);
        env.lemma_filter_pred(keep, i);
        assert(rest.contains(rest[i]));
        env.lemma_filter_contains_rev(keep, rest[i]);
    }
    assert forall|i: int| 0 <= i < env.len() && keep(#[trigger] env[i]) implies after.contains(
        env[i],
    ) by {
        env.lemma_filter_contains(keep, i);
        let k = choose|k: int| 0 <= k < rest.len() && rest[k] == env[i];
        assert(after[k] == env[i]);
    }
}

/// An `ENV` for one variable twice leaves what the second alone would have left.
pub proof fn lemma_env_twice(
    env: Seq<Seq<char>>,
    key: Seq<char>,
    first: Seq<char>,
    second: Seq<char>,
)
    ensures
        env_with(env_with(env, key, first), key, second) == env_with(env, key, second),
{
    let keep = sets_other(key);
    let once = env_with(env, key, first);
    let rest = env.filter(keep);
    reveal(Seq::filter);
    assert(once.drop_last() =~= rest);
    assert((key + "="@).is_prefix_of(once.last())) by {
        assert((key + "="@) =~= once.last().subrange(0, (key + "="@).len() as int));
    }
    lemma_filter_twice(env, keep);
    assert(once.filter(keep) == rest.filter(keep));
}

proof fn lemma_filter_twice(s: Seq<Seq<char>>, keep: spec_fn(Seq<char>) -> bool)
    ensures
        s.filter(keep).filter(keep) == s.filter(keep),
    decreases s.len(),
{
    reveal(Seq::filter);
    if s.len() > 0 {
        lemma_filter_twice(s.drop_last(), keep);
        if keep(s.last()) {
            let rest = s.drop_last().filter(keep);
            assert(rest.push(s.last()).drop_last() =~= rest);
        }
    }
}

/// A port or mount point that is named again changes nothing, and a list in
/// which nothing is named twice stays such a list.
pub proof fn lemma_add_new_once(list: Seq<Seq<char>>, item: Seq<char>)
    ensures
        add_new(list, item).contains(item),
        add_new(add_new(list, item), item) == add_new(list, item),
        list.no_duplicates() ==> add_new(list, item).no_duplicates(),
{
    if !list.contains(item) {
        assert(list.push(item)[list.len() as int] == item);
    }
}

/// The mount points of a `VOLUME` are each named once.
pub proof fn lemma_volumes_once(list: Seq<Seq<char>>, items: Seq<Seq<char>>)
    requires
        list.no_duplicates(),
    ensures
        add_all_new(list, items).no_duplicates(),
        forall|i: int| 0 <= i < items.len() ==> add_all_new(list, items).contains(#[trigger] items[i]),
        forall|i: int| 0 <= i < list.len() ==> add_all_new(list, items).contains(#[trigger] list[i]),
    decreases items.len(),
{
    if items.len() > 0 {
        let before = add_all_new(list, items.drop_last());
        lemma_volumes_once(list, items.drop_last());
        lemma_add_new_once(before, items.last());
        let after = add_all_new(list, items);
        assert forall|x: Seq<char>| before.contains(x) implies #[trigger] after.contains(x) by {
            let k = choose|k: int| 0 <= k < before.len() && before[k] == x;
            assert(after[k] == x);
        }
        assert forall|i: int| 0 <= i < items.len() implies after.contains(#[trigger] items[i]) by {
            if i < items.len() - 1 {
                assert(items.drop_last()[i] == items[i]);
            }
        }
    }
}

} // verus!
