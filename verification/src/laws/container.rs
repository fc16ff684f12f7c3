//! What each directive does to a container image, and what a `RUN` executes.
use vstd::prelude::*;
use crate::architecture::Architecture;
use crate::arg_subst::substitute;
use crate::ast::{
    CmdForm, Directive, EntrypointInit, Expose, ExposeProtocol, Run, RunCommand, RunMount,
    RunMountKind, Workdir,
};
use crate::engine_build::cache::{diff_ids, parent_key, run_text, stack_text};
use crate::engine_build::directives::{
    add_all_new, add_new, after_metadata, after_workdir, env_with, plan_workdir, sets_other,
    WorkdirPlan,
};
use crate::engine_build::error::EngineBuildError;
use crate::engine_build::run::{
    check_outcome, mount_ids, mount_views, plan_run, run_argv, text_or_nothing, BindMount, RunPlan,
};
use crate::engine_build::secrets::ResolvedSecrets;
use crate::engine_build::state::{initial_state, BuildState, StateView};
use crate::image::{ConfigView, ContainerView, HistoryView, LayerCompression, LayerView};
use crate::l0::KindView;
use crate::number::decimal;
use crate::text::{join, texts};
use super::cache_keys::{
    is_environment, lemma_run_text_fields, lemma_same_text, names_two, one_line, without_nul,
};

verus! {

/// The entry that a directive without a layer leaves in the history.
pub open spec fn metadata_entry(line: Seq<char>, now: Seq<char>) -> HistoryView {
    HistoryView {
        created: Some(now),
        created_by: Some(line),
        author: Some("umf-engine"@),
        comment: None,
        empty_layer: true,
    }
}

/// Is `t` the state `s` with another container configuration and one more line of
/// history, and otherwise the same: its layers, its shell and its scope too?
pub open spec fn reconfigured(
    s: StateView,
    t: StateView,
    container: ContainerView,
    line: Seq<char>,
    now: Seq<char>,
) -> bool {
    &&& t.config.container == container
    &&& t.config.history == s.config.history.push(metadata_entry(line, now))
    &&& t.config.architecture == s.config.architecture
    &&& t.config.os == s.config.os
    &&& t.config.created == s.config.created
    &&& t.config.author == s.config.author
    &&& t.config.umf_type == s.config.umf_type
    &&& t.config.umf_spec == s.config.umf_spec
    &&& t.base_layers == s.base_layers
    &&& t.new_layers == s.new_layers
    &&& t.uppers == s.uppers
    &&& t.shell == s.shell
    &&& t.adopted == s.adopted
    &&& t.compression == s.compression
    &&& t.scope == s.scope
}

/// The argument vector of a command in shell form: that of the shell in force,
/// `/bin/sh -c` where none is, and the command behind it.
pub open spec fn shell_form(shell: Seq<Seq<char>>, command: Seq<char>) -> Seq<Seq<char>> {
    if shell.len() == 0 {
        seq!["/bin/sh"@, "-c"@, command]
    } else {
        shell + seq![command]
    }
}

/// `USER` sets the user of the image, references replaced.
pub proof fn lemma_user(
    s: StateView,
    d: Directive,
    build_args: Map<Seq<char>, Seq<char>>,
    now: Seq<char>,
)
    requires
        d is User,
    ensures
        reconfigured(
            s,
            after_metadata(s, d, build_args, now),
            ContainerView {
                user: Some(substitute(d->User_0.name@, s.scope)),
                ..s.config.container
            },
            "USER "@ + d->User_0.name@,
            now,
        ),
{
}

/// `ENV` sets the variable, references replaced: it stands once in the
/// environment, behind the others, which stay as they are and where they are.
pub proof fn lemma_env(
    s: StateView,
    d: Directive,
    build_args: Map<Seq<char>, Seq<char>>,
    now: Seq<char>,
)
    requires
        d is Env,
    ensures
        ({
            let e = d->Env_0;
            let t = after_metadata(s, d, build_args, now);
            let before = s.config.container.env;
            let after = t.config.container.env;
            let set = e.key@ + seq!['='];
            &&& reconfigured(
                s,
                t,
                ContainerView { env: after, ..s.config.container },
                "ENV "@ + e.key@ + seq!['='] + e.value@,
                now,
            )
            &&& after.len() > 0
            &&& after.last() == set + substitute(e.value@, s.scope)
            &&& forall|i: int|
                0 <= i < after.len() - 1 ==> !set.is_prefix_of(#[trigger] after[i])
                    && before.contains(after[i])
            &&& forall|i: int|
                0 <= i < before.len() && !set.is_prefix_of(#[trigger] before[i])
                    ==> after.drop_last().contains(before[i])
            &&& (forall|i: int| 0 <= i < before.len() ==> !set.is_prefix_of(#[trigger] before[i]))
                ==> after.drop_last() == before
        }),
{
    reveal_strlit("=");
    assert("="@ =~= seq!['=']);
    let e = d->Env_0;
    let before = s.config.container.env;
    let keep = sets_other(e.key@);
    let kept = before.filter(keep);
    let after = env_with(before, e.key@, substitute(e.value@, s.scope));
    assert(after.drop_last() =~= kept);
    before.lemma_filter_len(keep);
    assert forall|i: int| 0 <= i < after.len() - 1 implies !(e.key@ + seq!['=']).is_prefix_of(
        #[trigger] after[i],
    ) && before.contains(after[i]) by {
        assert(after[i] == kept[i]);
        before.lemma_filter_pred(keep, i);
        assert(keep(kept[i]));
        assert(kept.contains(kept[i]));
        before.lemma_filter_contains_rev(keep, kept[i]);
    }
    assert forall|i: int|
        0 <= i < before.len() && !(e.key@ + seq!['=']).is_prefix_of(
            #[trigger] before[i],
        ) implies after.drop_last().contains(before[i]) by {
        before.lemma_filter_contains(keep, i);
    }
    if forall|i: int|
        0 <= i < before.len() ==> !(e.key@ + seq!['=']).is_prefix_of(#[trigger] before[i]) {
        lemma_filter_all(before, keep);
    }
}

proof fn lemma_filter_all(s: Seq<Seq<char>>, keep: spec_fn(Seq<char>) -> bool)
    requires
        forall|i: int| 0 <= i < s.len() ==> keep(#[trigger] s[i]),
    ensures
        s.filter(keep) == s,
    decreases s.len(),
{
    reveal(Seq::filter);
    if s.len() > 0 {
        let t = s.drop_last();
        assert forall|i: int| 0 <= i < t.len() implies keep(#[trigger] t[i]) by {
            assert(t[i] == s[i]);
        }
        lemma_filter_all(t, keep);
        assert(keep(s[s.len() - 1]));
        assert(t.push(s.last()) =~= s);
    } else {
        assert(s.filter(keep) =~= s);
    }
}

/// `LABEL` sets the label, references replaced; the other labels stay.
pub proof fn lemma_label(
    s: StateView,
    d: Directive,
    build_args: Map<Seq<char>, Seq<char>>,
    now: Seq<char>,
)
    requires
        d is Label,
    ensures
        ({
            let l = d->Label_0;
            let t = after_metadata(s, d, build_args, now);
            let labels = t.config.container.labels;
            &&& reconfigured(
                s,
                t,
                ContainerView { labels, ..s.config.container },
                "LABEL "@ + l.key@ + seq!['='] + l.value@,
                now,
            )
            &&& labels.dom().contains(l.key@) && labels[l.key@] == substitute(l.value@, s.scope)
            &&& forall|k: Seq<char>|
                k != l.key@ ==> (#[trigger] labels.dom().contains(k)
                    <==> s.config.container.labels.dom().contains(k)) && (labels.dom().contains(k)
                    ==> labels[k] == s.config.container.labels[k])
        }),
{
    reveal_strlit("=");
    assert("="@ =~= seq!['=']);
}

/// `ENTRYPOINT` in shell form runs the command, references replaced, by the shell
/// in force; in exec form the arguments, references replaced; an init system by
/// its path. `ENTRYPOINT none` takes the entrypoint away.
pub proof fn lemma_entrypoint(
    s: StateView,
    d: Directive,
    build_args: Map<Seq<char>, Seq<char>>,
    now: Seq<char>,
)
    requires
        d is Entrypoint,
    ensures
        ({
            let init = d->Entrypoint_0.init;
            let t = after_metadata(s, d, build_args, now);
            let entrypoint = t.config.container.entrypoint;
            &&& exists|line: Seq<char>| #[trigger]
                reconfigured(
                    s,
                    t,
                    ContainerView { entrypoint, ..s.config.container },
                    line,
                    now,
                )
            &&& init matches EntrypointInit::Path(cmd) ==> entrypoint == Some(
                shell_form(s.shell, substitute(cmd@, s.scope)),
            ) && t.config.history.last().created_by == Some("ENTRYPOINT "@ + cmd@)
            &&& init matches EntrypointInit::Exec(parts) ==> (entrypoint matches Some(argv)
                && argv.len() == parts@.len() && forall|i: int|
                0 <= i < argv.len() ==> #[trigger] argv[i] == substitute(parts@[i]@, s.scope))
                && t.config.history.last().created_by == Some(
                "ENTRYPOINT "@ + join(texts(parts@), " "@),
            )
            &&& init is NoInit ==> t.config.history.last().created_by == Some("ENTRYPOINT none"@)
            &&& init is Systemd ==> t.config.history.last().created_by == Some(
                "ENTRYPOINT systemd"@,
            )
            &&& init is OpenRc ==> t.config.history.last().created_by == Some("ENTRYPOINT openrc"@)
            &&& init is NoInit ==> entrypoint is None
            &&& init is Systemd ==> entrypoint == Some(seq!["/usr/sbin/init"@])
            &&& init is OpenRc ==> entrypoint == Some(seq!["/sbin/openrc-init"@])
        }),
{
    let init = d->Entrypoint_0.init;
    let t = after_metadata(s, d, build_args, now);
    let entrypoint = t.config.container.entrypoint;
    reveal_strlit("ENTRYPOINT ");
    reveal_strlit("none");
    reveal_strlit("systemd");
    reveal_strlit("openrc");
    reveal_strlit("ENTRYPOINT none");
    reveal_strlit("ENTRYPOINT systemd");
    reveal_strlit("ENTRYPOINT openrc");
    assert("ENTRYPOINT "@ + "none"@ =~= "ENTRYPOINT none"@);
    assert("ENTRYPOINT "@ + "systemd"@ =~= "ENTRYPOINT systemd"@);
    assert("ENTRYPOINT "@ + "openrc"@ =~= "ENTRYPOINT openrc"@);
    assert(reconfigured(
        s,
        t,
        ContainerView { entrypoint, ..s.config.container },
        crate::engine_build::directives::metadata_line(d),
        now,
    ));
    if let EntrypointInit::Path(cmd) = init {
        assert(entrypoint->0 =~= shell_form(s.shell, substitute(cmd@, s.scope)));
    }
}

/// `CMD` in shell form runs the command, references replaced, by the shell in
/// force; in exec form the arguments, references replaced.
pub proof fn lemma_cmd(
    s: StateView,
    d: Directive,
    build_args: Map<Seq<char>, Seq<char>>,
    now: Seq<char>,
)
    requires
        d is Cmd,
    ensures
        ({
            let form = d->Cmd_0.command;
            let t = after_metadata(s, d, build_args, now);
            let cmd = t.config.container.cmd;
            &&& exists|line: Seq<char>| #[trigger]
                reconfigured(s, t, ContainerView { cmd, ..s.config.container }, line, now)
            &&& form matches CmdForm::Shell(line) ==> cmd == Some(
                shell_form(s.shell, substitute(line@, s.scope)),
            ) && t.config.history.last().created_by == Some("CMD "@ + line@)
            &&& form matches CmdForm::Exec(parts) ==> (cmd matches Some(argv) && argv.len()
                == parts@.len() && forall|i: int|
                0 <= i < argv.len() ==> #[trigger] argv[i] == substitute(parts@[i]@, s.scope))
                && t.config.history.last().created_by == Some("CMD "@ + join(texts(parts@), " "@))
        }),
{
    let form = d->Cmd_0.command;
    let t = after_metadata(s, d, build_args, now);
    let cmd = t.config.container.cmd;
    assert(reconfigured(
        s,
        t,
        ContainerView { cmd, ..s.config.container },
        crate::engine_build::directives::metadata_line(d),
        now,
    ));
    if let CmdForm::Shell(line) = form {
        assert(cmd->0 =~= shell_form(s.shell, substitute(line@, s.scope)));
    }
}

/// A command in shell form is the same for `ENTRYPOINT`, `CMD` and `RUN`.
pub proof fn lemma_shell_forms_agree(
    s: StateView,
    entrypoint: Directive,
    cmd: Directive,
    run: RunCommand,
    build_args: Map<Seq<char>, Seq<char>>,
    now: Seq<char>,
)
    requires
        entrypoint is Entrypoint,
        cmd is Cmd,
        entrypoint->Entrypoint_0.init is Path,
        cmd->Cmd_0.command is Shell,
        run is Shell,
        run->Shell_0@ == entrypoint->Entrypoint_0.init->Path_0@,
        run->Shell_0@ == cmd->Cmd_0.command->Shell_0@,
    ensures
        after_metadata(s, entrypoint, build_args, now).config.container.entrypoint == Some(
            run_argv(s, run),
        ),
        after_metadata(s, cmd, build_args, now).config.container.cmd == Some(run_argv(s, run)),
{
}

/// The name of a port: its number and its protocol.
pub open spec fn port_name(e: Expose) -> Seq<char> {
    decimal(e.port as nat) + (match e.protocol {
        ExposeProtocol::Tcp => "/tcp"@,
        ExposeProtocol::Udp => "/udp"@,
    })
}

/// `EXPOSE` adds the port, by number and protocol, behind those that were there;
/// one that was there is not added again.
pub proof fn lemma_expose(
    s: StateView,
    d: Directive,
    build_args: Map<Seq<char>, Seq<char>>,
    now: Seq<char>,
)
    requires
        d is Expose,
    ensures
        ({
            let name = port_name(d->Expose_0);
            let t = after_metadata(s, d, build_args, now);
            let before = s.config.container.exposed_ports;
            let after = t.config.container.exposed_ports;
            &&& reconfigured(
                s,
                t,
                ContainerView { exposed_ports: after, ..s.config.container },
                "EXPOSE "@ + name,
                now,
            )
            &&& after.contains(name)
            &&& before.contains(name) ==> after == before
            &&& !before.contains(name) ==> after == before + seq![name]
        }),
{
    reveal_strlit("/");
    reveal_strlit("/tcp");
    reveal_strlit("/udp");
    reveal_strlit("tcp");
    reveal_strlit("udp");
    let e = d->Expose_0;
    let n = decimal(e.port as nat);
    let before = s.config.container.exposed_ports;
    let name = port_name(e);
    assert(n + "/"@ + e.protocol.name() =~= name);
    let after = add_new(before, name);
    if !before.contains(name) {
        assert(after =~= before + seq![name]);
        assert(after[before.len() as int] == name);
    }
}

/// `VOLUME` adds each mount point, references replaced, behind those that were
/// there; it adds nothing else, and nothing twice.
pub proof fn lemma_volume(
    s: StateView,
    d: Directive,
    build_args: Map<Seq<char>, Seq<char>>,
    now: Seq<char>,
)
    requires
        d is Volume,
    ensures
        ({
            let paths = d->Volume_0.paths@;
            let t = after_metadata(s, d, build_args, now);
            let before = s.config.container.volumes;
            let after = t.config.container.volumes;
            &&& exists|line: Seq<char>| #[trigger]
                reconfigured(
                    s,
                    t,
                    ContainerView { volumes: after, ..s.config.container },
                    line,
                    now,
                )
            &&& before.is_prefix_of(after)
            &&& forall|i: int|
                0 <= i < paths.len() ==> after.contains(
                    substitute((#[trigger] paths[i])@, s.scope),
                )
            &&& forall|j: int|
                before.len() <= j < after.len() ==> !before.contains(#[trigger] after[j])
                    && exists|i: int|
                    0 <= i < paths.len() && after[j] == substitute((#[trigger] paths[i])@, s.scope)
            &&& before.no_duplicates() ==> after.no_duplicates()
            &&& t.config.history.last().created_by == Some("VOLUME "@ + join(texts(paths), " "@))
        }),
{
    let paths = d->Volume_0.paths@;
    let t = after_metadata(s, d, build_args, now);
    let before = s.config.container.volumes;
    let items = s.subst_all(texts(paths));
    let after = add_all_new(before, items);
    assert(reconfigured(
        s,
        t,
        ContainerView { volumes: after, ..s.config.container },
        crate::engine_build::directives::metadata_line(d),
        now,
    ));
    lemma_all_added(before, items);
    assert forall|i: int| 0 <= i < paths.len() implies after.contains(
        substitute((#[trigger] paths[i])@, s.scope),
    ) by {
        assert(items[i] == substitute(paths[i]@, s.scope));
    }
    assert forall|j: int| before.len() <= j < after.len() implies !before.contains(
        #[trigger] after[j],
    ) && exists|i: int|
        0 <= i < paths.len() && after[j] == substitute((#[trigger] paths[i])@, s.scope) by {
        let i = items.index_of(after[j]);
        assert(items.contains(after[j]));
        assert(items[i] == substitute(paths[i]@, s.scope));
    }
}

proof fn lemma_all_added(list: Seq<Seq<char>>, items: Seq<Seq<char>>)
    ensures
        ({
            let after = add_all_new(list, items);
            &&& list.is_prefix_of(after)
            &&& forall|i: int| 0 <= i < items.len() ==> after.contains(#[trigger] items[i])
            &&& forall|j: int|
                list.len() <= j < after.len() ==> !list.contains(#[trigger] after[j])
                    && items.contains(after[j])
            &&& list.no_duplicates() ==> after.no_duplicates()
        }),
    decreases items.len(),
{
    let after = add_all_new(list, items);
    if items.len() == 0 {
        assert(list =~= after.subrange(0, list.len() as int));
    } else {
        let front = items.drop_last();
        let mid = add_all_new(list, front);
        let last = items.last();
        lemma_all_added(list, front);
        assert(list =~= mid.subrange(0, list.len() as int));
        assert(list =~= after.subrange(0, list.len() as int)) by {
            assert forall|k: int| 0 <= k < list.len() implies list[k] == after[k] by {
                assert(mid.subrange(0, list.len() as int)[k] == mid[k]);
                assert(after[k] == mid[k]);
            }
        }
        assert forall|i: int| 0 <= i < items.len() implies after.contains(#[trigger] items[i]) by {
            if i < front.len() {
                assert(front[i] == items[i]);
                let k = mid.index_of(items[i]);
                assert(mid[k] == items[i]);
                assert(after[k] == items[i]);
            } else if mid.contains(last) {
            } else {
                assert(after[mid.len() as int] == last);
            }
        }
        assert forall|j: int| list.len() <= j < after.len() implies !list.contains(
            #[trigger] after[j],
        ) && items.contains(after[j]) by {
            if j < mid.len() {
                assert(after[j] == mid[j]);
                let k = front.index_of(mid[j]);
                assert(front.contains(mid[j]));
                assert(items[k] == mid[j]);
            } else {
                assert(after[j] == last);
                assert(items[items.len() - 1] == last);
                if list.contains(last) {
                    let k = list.index_of(last);
                    assert(list[k] == mid.subrange(0, list.len() as int)[k]);
                    assert(mid[k] == last);
                }
            }
        }
    }
}

/// `STOPSIGNAL` sets the signal as it is written.
pub proof fn lemma_stopsignal(
    s: StateView,
    d: Directive,
    build_args: Map<Seq<char>, Seq<char>>,
    now: Seq<char>,
)
    requires
        d is Stopsignal,
    ensures
        reconfigured(
            s,
            after_metadata(s, d, build_args, now),
            ContainerView {
                stop_signal: Some(d->Stopsignal_0.signal@),
                ..s.config.container
            },
            "STOPSIGNAL "@ + d->Stopsignal_0.signal@,
            now,
        ),
{
}

/// `SHELL` puts another shell in force for the commands in shell form behind it,
/// and changes nothing of the image but its history.
pub proof fn lemma_shell(
    s: StateView,
    d: Directive,
    build_args: Map<Seq<char>, Seq<char>>,
    now: Seq<char>,
    command: RunCommand,
)
    requires
        d is Shell,
        command is Shell,
    ensures
        ({
            let t = after_metadata(s, d, build_args, now);
            &&& run_argv(t, command) == shell_form(
                texts(d->Shell_0.argv@),
                substitute(command->Shell_0@, s.scope),
            )
            &&& exists|line: Seq<char>| #[trigger]
                reconfigured(s, (StateView { shell: s.shell, ..t }), s.config.container, line, now)
            &&& t.config.history.last().created_by == Some(
                if d->Shell_0.argv@.len() == 0 {
                    "SHELL (none)"@
                } else {
                    "SHELL switched"@
                },
            )
        }),
{
    let t = after_metadata(s, d, build_args, now);
    reveal_strlit("SHELL ");
    reveal_strlit("(none)");
    reveal_strlit("switched");
    reveal_strlit("SHELL (none)");
    reveal_strlit("SHELL switched");
    assert("SHELL "@ + "(none)"@ =~= "SHELL (none)"@);
    assert("SHELL "@ + "switched"@ =~= "SHELL switched"@);
    assert(run_argv(t, command) =~= shell_form(
        texts(d->Shell_0.argv@),
        substitute(command->Shell_0@, s.scope),
    ));
    assert(reconfigured(
        s,
        StateView { shell: s.shell, ..t },
        s.config.container,
        crate::engine_build::directives::metadata_line(d),
        now,
    ));
}

/// `ARG` changes the scope alone: no line of history, no configuration.
pub proof fn lemma_arg_directive(
    s: StateView,
    d: Directive,
    build_args: Map<Seq<char>, Seq<char>>,
    now: Seq<char>,
)
    requires
        d is Arg,
    ensures
        ({
            let t = after_metadata(s, d, build_args, now);
            &&& (StateView { scope: s.scope, ..t }) == s
            &&& t.scope == crate::arg_subst::scope_after(s.scope, d->Arg_0, build_args)
        }),
{
}

/// `WORKDIR` with an absolute path leads there; with a relative one it leads below
/// the working directory, which is the root where none is set. The directory is
/// made, by the path below the root, and the history keeps the path as written.
pub proof fn lemma_workdir(state: &BuildState, wd: &Workdir, p: WorkdirPlan)
    requires
        call_ensures(plan_workdir, (state, wd), p),
    ensures
        ({
            let path = substitute(wd.path@, state@.scope);
            let current = state@.config.container.working_dir;
            &&& path.len() > 0 && path[0] == '/' ==> p.resolved@ == path
            &&& path.len() > 0 && path[0] != '/' && current is None ==> p.resolved@ == seq!['/']
                + path
            &&& path.len() > 0 && path[0] != '/' && (current matches Some(c) && c.len() > 0
                && c.last() != '/') ==> p.resolved@ == current->0 + seq!['/'] + path
            &&& path.len() > 0 && path[0] != '/' && current == Some(seq!['/']) ==> p.resolved@
                == seq!['/'] + path
            &&& p.resolved@.len() > 1 && p.resolved@[0] == '/' && p.resolved@[1] != '/'
                ==> p.directory@ == p.resolved@.skip(1)
            &&& p.history_line@ == "WORKDIR "@ + wd.path@
        }),
{
    reveal_strlit("/");
    assert("/"@ =~= seq!['/']);
    let path = substitute(wd.path@, state@.scope);
    let current = state@.config.container.working_dir;
    let root = seq!['/'];
    assert(root.drop_last() =~= Seq::empty());
    assert(crate::text::trim_end_char(root.drop_last(), '/') =~= Seq::empty());
    assert(crate::text::trim_end_char(root, '/') =~= Seq::empty());
    assert(Seq::<char>::empty() + "/"@ + path =~= seq!['/'] + path);
    if p.resolved@.len() > 1 && p.resolved@[0] == '/' && p.resolved@[1] != '/' {
        assert(p.resolved@.skip(1)[0] == p.resolved@[1]);
        assert(crate::text::trim_start_char(p.resolved@.skip(1), '/') == p.resolved@.skip(1));
    }
}

/// After `WORKDIR` the image has the directory as its working directory, and one
/// more layer, with its line of history.
pub proof fn lemma_workdir_applied(
    s: StateView,
    resolved: Seq<char>,
    line: Seq<char>,
    layer: LayerView,
    upper: Seq<char>,
    now: Seq<char>,
)
    ensures
        ({
            let t = after_workdir(s, resolved, line, layer, upper, now);
            &&& t.config.container == (ContainerView {
                working_dir: Some(resolved),
                ..s.config.container
            })
            &&& t.new_layers == s.new_layers.push(layer)
            &&& t.uppers == s.uppers.push(upper)
            &&& t.base_layers == s.base_layers
            &&& t.scope == s.scope
            &&& t.shell == s.shell
            &&& t.config.history == s.config.history.push(
                (HistoryView { empty_layer: false, ..metadata_entry(line, now) }),
            )
        }),
{
}

/// A build starts from the configuration and the layers of its base image, with
/// `/bin/sh -c` in force, the global `ARG`s in scope, and as a container image.
pub proof fn lemma_start(
    config: ConfigView,
    layers: Seq<LayerView>,
    compression: LayerCompression,
    globals: Map<Seq<char>, Seq<char>>,
)
    ensures
        ({
            let s = initial_state(config, layers, compression, globals);
            &&& s.config.container == config.container
            &&& s.config.history == config.history
            &&& s.config.architecture == config.architecture
            &&& s.config.umf_type == KindView::Container
            &&& s.base_layers == layers
            &&& s.new_layers.len() == 0
            &&& s.shell == seq!["/bin/sh"@, "-c"@]
            &&& s.scope == globals
            &&& s.compression == compression
            &&& !s.adopted
        }),
{
}

/// A layer that a step makes and one from the cache are put on top of the others
/// alike: with one line of history that is not for an empty layer. Only the one
/// that was made has files at hand.
pub proof fn lemma_layer_on_top(
    s: StateView,
    layer: LayerView,
    upper: Seq<char>,
    line: Seq<char>,
    now: Seq<char>,
)
    ensures
        ({
            let made = s.with_layer(layer, upper, line, now);
            let cached = s.with_cached(layer, line, now);
            let entry = HistoryView { empty_layer: false, ..metadata_entry(line, now) };
            &&& made.new_layers == s.new_layers.push(layer)
            &&& cached.new_layers == s.new_layers.push(layer)
            &&& made.config == cached.config
            &&& made.config.history == s.config.history.push(entry)
            &&& made.config.container == s.config.container
            &&& made.uppers == s.uppers.push(upper)
            &&& cached.uppers == s.uppers
            &&& cached.adopted
            &&& made.adopted == s.adopted
            &&& made.base_layers == s.base_layers && cached.base_layers == s.base_layers
            &&& made.scope == s.scope && cached.scope == s.scope
            &&& made.shell == s.shell && cached.shell == s.shell
        }),
{
}

/// A `RUN` executes its command, references replaced, by the shell in force or by
/// its own arguments, in the environment, in the directory and as the user of the
/// image. Its history line keeps the command as written.
pub proof fn lemma_run_executes(
    state: &BuildState,
    run: &Run,
    secrets: &ResolvedSecrets,
    architecture: Architecture,
    p: RunPlan,
)
    requires
        call_ensures(plan_run, (state, run, secrets, architecture), Ok(p)),
    ensures
        run.command matches RunCommand::Shell(line) ==> texts(p.argv@) == shell_form(
            state@.shell,
            substitute(line@, state@.scope),
        ) && p.history_line@ == "RUN "@ + line@,
        run.command matches RunCommand::Exec(parts) ==> p.argv@.len() == parts@.len() && forall|i: int|
            0 <= i < parts@.len() ==> (#[trigger] p.argv@[i])@ == substitute(
                parts@[i]@,
                state@.scope,
            ),
        texts(p.env@) == state@.config.container.env,
        p.working_dir matches Some(d) ==> state@.config.container.working_dir == Some(d@),
        p.working_dir is None ==> state@.config.container.working_dir is None,
        p.user matches Some(u) ==> state@.config.container.user == Some(u@),
        p.user is None ==> state@.config.container.user is None,
{
    if let RunCommand::Shell(line) = run.command {
        assert(texts(p.argv@) =~= shell_form(state@.shell, substitute(line@, state@.scope)));
    }
    if let RunCommand::Exec(parts) = run.command {
        assert(texts(p.argv@).len() == parts@.len());
        assert forall|i: int| 0 <= i < parts@.len() implies (#[trigger] p.argv@[i])@ == substitute(
            parts@[i]@,
            state@.scope,
        ) by {
            assert(texts(p.argv@)[i] == state@.subst_all(texts(parts@))[i]);
        }
    }
}

/// Is `b` the mount that `m` asks for: read-only, from the file that holds the
/// secret, at the place that the recipe says, else at `/run/secrets/` and its id?
pub open spec fn mounts_secret(
    b: BindMount,
    m: RunMount,
    secrets: Map<Seq<char>, Seq<char>>,
) -> bool {
    match m.kind {
        RunMountKind::Secret { id, target } => {
            &&& b.read_only
            &&& b.host_path@ == secrets[id@]
            &&& b.container_path@ == match target {
                Some(t) => t@,
                None => "/run/secrets/"@ + id@,
            }
        },
    }
}

/// Is the secret that `m` names given?
pub open spec fn is_given(m: RunMount, secrets: Map<Seq<char>, Seq<char>>) -> bool {
    match m.kind {
        RunMountKind::Secret { id, .. } => secrets.dom().contains(id@),
    }
}

/// Every secret that a `RUN` names is mounted for it, read-only, from the file
/// that holds it: where the recipe says, else at `/run/secrets/` and its id. A
/// `RUN` that names a secret that is not given is refused, and only that.
pub proof fn lemma_run_secrets_mounted(
    state: &BuildState,
    run: &Run,
    secrets: &ResolvedSecrets,
    architecture: Architecture,
    r: Result<RunPlan, EngineBuildError>,
)
    requires
        call_ensures(plan_run, (state, run, secrets, architecture), r),
    ensures
        r is Ok <==> forall|i: int|
            0 <= i < run.mounts@.len() ==> is_given(#[trigger] run.mounts@[i], secrets@),
        r matches Ok(p) ==> p.bind_mounts@.len() == run.mounts@.len() && forall|i: int|
            0 <= i < run.mounts@.len() ==> mounts_secret(
                p.bind_mounts@[i],
                #[trigger] run.mounts@[i],
                secrets@,
            ),
        r matches Err(e) ==> e is MissingSecret,
{
    if let Ok(p) = r {
        assert forall|i: int| 0 <= i < run.mounts@.len() implies is_given(
            #[trigger] run.mounts@[i],
            secrets@,
        ) by {
            assert(secrets@.dom().contains(crate::engine_build::run::mount_id(run.mounts@[i])));
        }
        let views = mount_views(p.bind_mounts@);
        assert(views.len() == run.mounts@.len());
        assert forall|i: int| 0 <= i < run.mounts@.len() implies mounts_secret(
            p.bind_mounts@[i],
            #[trigger] run.mounts@[i],
            secrets@,
        ) by {
            assert(views[i] == p.bind_mounts@[i]@);
        }
    } else {
        let i = choose|i: int| #[trigger]
            crate::engine_build::run::first_unknown(run.mounts@, secrets@, i);
        assert(!is_given(run.mounts@[i], secrets@));
    }
}

/// Is the id of the secret one line, without NUL?
pub open spec fn has_plain_id(m: RunMount) -> bool {
    match m.kind {
        RunMountKind::Secret { id, .. } => one_line(id@) && !id@.contains('\0'),
    }
}

/// Two `RUN`s share a key of the cache only where they execute the same command in
/// the same environment, directory and as the same user, name the same secrets,
/// and stand on the same layers, for the same target.
pub proof fn lemma_run_plans_share(
    s1: &BuildState,
    run1: &Run,
    secrets1: &ResolvedSecrets,
    arch1: Architecture,
    p1: RunPlan,
    s2: &BuildState,
    run2: &Run,
    secrets2: &ResolvedSecrets,
    arch2: Architecture,
    p2: RunPlan,
)
    requires
        call_ensures(plan_run, (s1, run1, secrets1, arch1), Ok(p1)),
        call_ensures(plan_run, (s2, run2, secrets2, arch2), Ok(p2)),
        without_nul(texts(p1.argv@)) && is_environment(texts(p1.env@)),
        without_nul(texts(p2.argv@)) && is_environment(texts(p2.env@)),
        p1.working_dir matches Some(d) ==> one_line(d@) && !d@.contains('\0'),
        p2.working_dir matches Some(d) ==> one_line(d@) && !d@.contains('\0'),
        p1.user matches Some(u) ==> one_line(u@) && !u@.contains('\0'),
        p2.user matches Some(u) ==> one_line(u@) && !u@.contains('\0'),
        forall|i: int|
            0 <= i < run1.mounts@.len() ==> has_plain_id(#[trigger] run1.mounts@[i]),
        forall|i: int|
            0 <= i < run2.mounts@.len() ==> has_plain_id(#[trigger] run2.mounts@[i]),
        p1.key@ == p2.key@,
        !names_two(p1.key@),
    ensures
        texts(p1.argv@) == texts(p2.argv@),
        texts(p1.env@) == texts(p2.env@),
        p1.working_dir is Some && p2.working_dir is Some ==> p1.working_dir->0@
            == p2.working_dir->0@,
        p1.user is Some && p2.user is Some ==> p1.user->0@ == p2.user->0@,
        p1.user is None && p2.user is Some ==> p2.user->0@.len() == 0,
        p1.working_dir is None && p2.working_dir is Some ==> p2.working_dir->0@.len() == 0,
        mount_ids(run1.mounts@).to_multiset() == mount_ids(run2.mounts@).to_multiset(),
        arch1 == arch2,
        s1.compression == s2.compression,
        parent_key(s1@) == parent_key(s2@),
{
    reveal_strlit("");
    lemma_target_names();
    let i1 = mount_ids(run1.mounts@);
    let i2 = mount_ids(run2.mounts@);
    assert forall|i: int| 0 <= i < i1.len() implies one_line(#[trigger] i1[i]) && !i1[i].contains(
        '\0',
    ) by {
        assert(has_plain_id(run1.mounts@[i]));
    }
    assert forall|i: int| 0 <= i < i2.len() implies one_line(#[trigger] i2[i]) && !i2[i].contains(
        '\0',
    ) by {
        assert(has_plain_id(run2.mounts@[i]));
    }
    let c1 = text_or_nothing(s1@.config.container.working_dir);
    let c2 = text_or_nothing(s2@.config.container.working_dir);
    let u1 = text_or_nothing(s1@.config.container.user);
    let u2 = text_or_nothing(s2@.config.container.user);
    lemma_parent_one_line(s1@);
    lemma_parent_one_line(s2@);
    lemma_same_text(
        run_text(
            arch1.oci_name(),
            s1@.compression.media_type_text(),
            parent_key(s1@),
            texts(p1.argv@),
            texts(p1.env@),
            c1,
            u1,
            i1,
        ),
        run_text(
            arch2.oci_name(),
            s2@.compression.media_type_text(),
            parent_key(s2@),
            texts(p2.argv@),
            texts(p2.env@),
            c2,
            u2,
            i2,
        ),
    );
    lemma_run_text_fields(
        arch1.oci_name(),
        s1@.compression.media_type_text(),
        parent_key(s1@),
        texts(p1.argv@),
        texts(p1.env@),
        c1,
        u1,
        i1,
        arch2.oci_name(),
        s2@.compression.media_type_text(),
        parent_key(s2@),
        texts(p2.argv@),
        texts(p2.env@),
        c2,
        u2,
        i2,
    );
}

/// The names of the targets are one line each, and tell them apart.
pub proof fn lemma_target_names()
    ensures
        forall|a: Architecture| one_line(#[trigger] a.oci_name()),
        forall|c: LayerCompression| one_line(#[trigger] c.media_type_text()),
        forall|a: Architecture, b: Architecture|
            #[trigger] a.oci_name() == #[trigger] b.oci_name() ==> a == b,
        forall|c: LayerCompression, d: LayerCompression|
            #[trigger] c.media_type_text() == #[trigger] d.media_type_text() ==> c == d,
{
    reveal_strlit("amd64");
    reveal_strlit("arm64");
    reveal_strlit("application/vnd.oci.image.layer.v1.tar+gzip");
    reveal_strlit("application/vnd.oci.image.layer.v1.tar+zstd");
    assert("amd64"@[1] != "arm64"@[1]);
    let g = "application/vnd.oci.image.layer.v1.tar+gzip"@;
    let z = "application/vnd.oci.image.layer.v1.tar+zstd"@;
    assert(g[39] != z[39]);
}

/// A digest is one line.
pub proof fn lemma_parent_one_line(s: StateView)
    ensures
        one_line(parent_key(s)),
{
    let text = stack_text(diff_ids(s.base_layers), diff_ids(s.new_layers));
    super::cache_keys::lemma_text_digest(text);
    let k = parent_key(s);
    if k.contains('\n') {
        let i = k.index_of('\n');
        assert('0' <= k[i] <= '9' || 'a' <= k[i] <= 'f');
    }
}

/// A command that ends with anything but zero fails its step.
pub proof fn lemma_run_outcome(
    exit_code: Option<i32>,
    line: &str,
    r: Result<(), EngineBuildError>,
)
    requires
        call_ensures(check_outcome, (exit_code, line), r),
    ensures
        r is Ok <==> exit_code == Some(0i32),
        r matches Err(e) ==> (e matches EngineBuildError::RunFailed { code, summary } && summary@
            == line@ && (exit_code is Some ==> code == exit_code->0)),
{
}

} // verus!
