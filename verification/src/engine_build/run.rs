//! `RUN`: what is executed, when a layer from the cache takes its place, and
//! what is cleaned up after it.
use vstd::prelude::*;
use crate::architecture::Architecture;
use crate::ast::{Run, RunCommand, RunMount, RunMountKind};
use crate::digest::is_hex_digest;
use crate::fsutil::{lemma_path_down, path_down, Found};
use crate::image::{copy_texts, opt_text};
use crate::path::{
    components, has_idle_end, has_parent_step, is_same_path, is_within, joined_path,
    lemma_parent_shorter, names, names_of, parent, parent_of, path_is_within, same_path, steps_up,
};
use crate::text::{concat2, lemma_texts_push, texts};
use super::cache::{
    or_empty, parent_key, parent_state_hash, run_cache_key, run_text, text_digest,
};
use super::directives::{argv_with_shell, command_text, render_command, subst_texts};
use super::error::EngineBuildError;
use super::secrets::ResolvedSecrets;
use super::state::{BuildState, StateView};

verus! {

/// A file of the host that is mounted into the container.
#[derive(Debug)]
pub struct BindMount {
    /// The file on the host.
    pub host_path: String,
    /// Where it is mounted.
    pub container_path: String,
    /// May the container only read it?
    pub read_only: bool,
}

/// The model of a [`BindMount`].
#[verifier::ext_equal]
pub struct MountView {
    /// The file on the host.
    pub host_path: Seq<char>,
    /// Where it is mounted.
    pub container_path: Seq<char>,
    /// May the container only read it?
    pub read_only: bool,
}

impl View for BindMount {
    type V = MountView;

    open spec fn view(&self) -> MountView {
        MountView {
            host_path: self.host_path@,
            container_path: self.container_path@,
            read_only: self.read_only,
        }
    }
}

/// The models of mounts.
pub open spec fn mount_views(m: Seq<BindMount>) -> Seq<MountView> {
    Seq::new(m.len(), |i: int| m[i]@)
}

/// What a `RUN` executes.
#[derive(Debug)]
pub struct RunPlan {
    /// The command.
    pub argv: Vec<String>,
    /// The environment.
    pub env: Vec<String>,
    /// The working directory.
    pub working_dir: Option<String>,
    /// The user.
    pub user: Option<String>,
    /// The secrets that are mounted.
    pub bind_mounts: Vec<BindMount>,
    /// The key of the layer in the cache.
    pub key: String,
    /// The line in the history.
    pub history_line: String,
}

/// The command of a `RUN`: in shell form the shell and the line, else the
/// arguments, with references to `ARG`s replaced. Where `SHELL none` took the
/// shell away, the default one is used.
pub open spec fn run_argv(s: StateView, command: RunCommand) -> Seq<Seq<char>> {
    match command {
        RunCommand::Shell(line) => s.stored_shell().push(s.subst(line@)),
        RunCommand::Exec(parts) => s.subst_all(texts(parts@)),
    }
}

/// The line that a `RUN` leaves in the history: its text in the recipe.
pub open spec fn run_line(run: Run) -> Seq<char> {
    "RUN "@ + command_text(run.command)
}

/// The line that a `RUN` leaves in the history.
pub fn run_history_line(run: &Run) -> (r: String)
    ensures
        r@ == run_line(*run),
{
    concat2("RUN ", render_command(&run.command).as_str())
}

/// The id of the secret that is mounted.
pub open spec fn mount_id(m: RunMount) -> Seq<char> {
    match m.kind {
        RunMountKind::Secret { id, .. } => id@,
    }
}

/// Where the secret is mounted.
pub open spec fn mount_target(m: RunMount) -> Seq<char> {
    match m.kind {
        RunMountKind::Secret { id, target } => match target {
            Some(t) => t@,
            None => "/run/secrets/"@ + id@,
        },
    }
}

/// The ids of the secrets that are mounted.
pub open spec fn mount_ids(mounts: Seq<RunMount>) -> Seq<Seq<char>> {
    Seq::new(mounts.len(), |i: int| mount_id(mounts[i]))
}

/// The mounts of the secrets. They can only be read.
pub open spec fn secret_mounts(
    mounts: Seq<RunMount>,
    secrets: Map<Seq<char>, Seq<char>>,
) -> Seq<MountView> {
    Seq::new(
        mounts.len(),
        |i: int|
            MountView {
                host_path: secrets[mount_id(mounts[i])],
                container_path: mount_target(mounts[i]),
                read_only: true,
            },
    )
}

/// Is the `i`th mount the first whose secret was not given?
pub open spec fn first_unknown(
    mounts: Seq<RunMount>,
    secrets: Map<Seq<char>, Seq<char>>,
    i: int,
) -> bool {
    &&& 0 <= i < mounts.len()
    &&& !secrets.dom().contains(mount_id(mounts[i]))
    &&& forall|j: int| 0 <= j < i ==> secrets.dom().contains(#[trigger] mount_id(mounts[j]))
}

/// An absent text counts as the empty one.
pub open spec fn text_or_nothing(s: Option<Seq<char>>) -> Seq<char> {
    match s {
        Some(x) => x,
        None => ""@,
    }
}

/// The key of a `RUN` in the cache.
pub open spec fn run_key(s: StateView, run: Run, architecture: Architecture) -> Seq<char> {
    text_digest(
        run_text(
            architecture.oci_name(),
            s.compression.media_type_text(),
            parent_key(s),
            run_argv(s, run.command),
            s.config.container.env,
            text_or_nothing(s.config.container.working_dir),
            text_or_nothing(s.config.container.user),
            mount_ids(run.mounts@),
        ),
    )
}

/// Is it what a `RUN` executes, or the error for the first secret that it
/// mounts and that was not given?
pub open spec fn is_run_plan(
    r: Result<RunPlan, EngineBuildError>,
    s: StateView,
    run: Run,
    secrets: Map<Seq<char>, Seq<char>>,
    architecture: Architecture,
) -> bool {
    match r {
        Ok(p) => {
            &&& forall|i: int|
                0 <= i < run.mounts@.len() ==> secrets.dom().contains(
                    #[trigger] mount_id(run.mounts@[i]),
                )
            &&& texts(p.argv@) == run_argv(s, run.command)
            &&& texts(p.env@) == s.config.container.env
            &&& opt_text(p.working_dir) == s.config.container.working_dir
            &&& opt_text(p.user) == s.config.container.user
            &&& mount_views(p.bind_mounts@) == secret_mounts(run.mounts@, secrets)
            &&& p.key@ == run_key(s, run, architecture)
            &&& is_hex_digest(p.key@)
            &&& p.history_line@ == run_line(run)
        },
        Err(e) => exists|i: int| #[trigger]
            first_unknown(run.mounts@, secrets, i) && (e matches EngineBuildError::MissingSecret(id)
                && id@ == mount_id(run.mounts@[i])),
    }
}

/// What a `RUN` executes. A secret that it mounts must have been given.
pub fn plan_run(
    state: &BuildState,
    run: &Run,
    secrets: &ResolvedSecrets,
    architecture: Architecture,
) -> (r: Result<RunPlan, EngineBuildError>)
    ensures
        is_run_plan(r, state@, *run, secrets@, architecture),
{
    let argv = match &run.command {
        RunCommand::Shell(line) => argv_with_shell(state, line.as_str()),
        RunCommand::Exec(parts) => subst_texts(state, parts),
    };
    let mut ids: Vec<String> = Vec::new();
    let mut bind_mounts: Vec<BindMount> = Vec::new();
    let ghost all_ids = mount_ids(run.mounts@);
    let ghost all = secret_mounts(run.mounts@, secrets@);
    let mut i: usize = 0;
    proof {
        assert(texts(ids@) =~= all_ids.take(0));
        assert(mount_views(bind_mounts@) =~= all.take(0));
    }
    while i < run.mounts.len()
        invariant
            i <= run.mounts@.len(),
            all_ids == mount_ids(run.mounts@),
            all == secret_mounts(run.mounts@, secrets@),
            texts(ids@) == all_ids.take(i as int),
            mount_views(bind_mounts@) == all.take(i as int),
            forall|j: int|
                0 <= j < i ==> secrets@.dom().contains(#[trigger] mount_id(run.mounts@[j])),
        decreases run.mounts.len() - i,
    {
        match &run.mounts[i].kind {
            RunMountKind::Secret { id, target } => {
                assert(id@ == mount_id(run.mounts@[i as int]));
                let host_path = match secrets.host_path_for(id.as_str()) {
                    Some(p) => p.clone(),
                    None => {
                        assert(first_unknown(run.mounts@, secrets@, i as int));
                        return Err(EngineBuildError::MissingSecret(id.clone()));
                    },
                };
                let container_path = match target {
                    Some(t) => t.clone(),
                    None => concat2("/run/secrets/", id.as_str()),
                };
                let mount = BindMount { host_path, container_path, read_only: true };
                proof {
                    lemma_texts_push(ids@, *id);
                    assert(all_ids.take(i as int + 1) =~= all_ids.take(i as int).push(id@));
                    assert(mount@ == all[i as int]);
                    assert(all.take(i as int + 1) =~= all.take(i as int).push(mount@));
                    assert(mount_views(bind_mounts@.push(mount)) =~= mount_views(
                        bind_mounts@,
                    ).push(mount@));
                }
                ids.push(id.clone());
                bind_mounts.push(mount);
            },
        }
        i += 1;
    }
    proof {
        assert(all_ids.take(i as int) =~= all_ids);
        assert(all.take(i as int) =~= all);
    }
    let container = &state.image_config.container;
    let working_dir = container.working_dir.clone();
    let user = container.user.clone();
    let parent = parent_state_hash(state);
    let key = run_cache_key(
        architecture.oci_arch_string(),
        state.compression.media_type(),
        parent.as_str(),
        &argv,
        &container.env,
        as_str(&working_dir),
        as_str(&user),
        &ids,
    );
    let history_line = run_history_line(run);
    Ok(
        RunPlan {
            argv,
            env: copy_texts(&container.env),
            working_dir,
            user,
            bind_mounts,
            key,
            history_line,
        },
    )
}

fn as_str(s: &Option<String>) -> (r: Option<&str>)
    ensures
        or_empty(r) == text_or_nothing(opt_text(*s)),
{
    match s {
        Some(x) => Some(x.as_str()),
        None => None,
    }
}

/// What becomes of a `RUN` once the cache was asked.
#[derive(Clone, Copy, Debug, PartialEq, Eq, Structural)]
pub enum RunDecision {
    /// The layer from the cache takes its place.
    Adopt,
    /// It is executed.
    Execute,
    /// The stage is built again without the cache: an earlier step's layer came
    /// from the cache, and the command would see a file system without it.
    RebuildWithoutCache,
}

/// What becomes of a `RUN`: `hit` says whether the cache has its layer.
pub open spec fn run_decision(adopted: bool, lookup_cache: bool, hit: bool) -> RunDecision {
    if lookup_cache && hit {
        RunDecision::Adopt
    } else if adopted {
        RunDecision::RebuildWithoutCache
    } else {
        RunDecision::Execute
    }
}

/// The outcome of a command: it succeeds with status zero. A command that a
/// signal ended has no status.
pub fn check_outcome(exit_code: Option<i32>, history_line: &str) -> (r: Result<(), EngineBuildError>)
    ensures
        match r {
            Ok(_) => exit_code == Some(0i32),
            Err(e) => exit_code != Some(0i32) && (e matches EngineBuildError::RunFailed {
                code,
                summary,
            } && summary@ == history_line@ && code == (match exit_code {
                Some(c) => c as int,
                None => -1,
            })),
        },
{
    match exit_code {
        Some(0) => Ok(()),
        Some(code) => Err(
            EngineBuildError::RunFailed { code, summary: String::from_str(history_line) },
        ),
        None => Err(
            EngineBuildError::RunFailed { code: -1, summary: String::from_str(history_line) },
        ),
    }
}

/// Where the placeholder of a secret stands in the directory that a `RUN` left;
/// none for a target that steps up to a parent directory.
pub open spec fn placeholder(upper: Seq<char>, target: Seq<char>) -> Option<Seq<char>> {
    if steps_up(target) {
        None
    } else {
        Some(path_down(upper, names(target), names(target).len() as int))
    }
}

/// Where the placeholder of a secret stands.
pub fn scrub_path(upper: &str, target: &str) -> (r: Option<String>)
    ensures
        match r {
            Some(p) => placeholder(upper@, target@) == Some(p@),
            None => placeholder(upper@, target@) is None,
        },
{
    if has_parent_step(target) {
        return None;
    }
    let steps = names_of(target);
    let ghost all = names(target@);
    let mut path = String::from_str(upper);
    let mut i: usize = 0;
    while i < steps.len()
        invariant
            i <= steps@.len(),
            texts(steps@) == all,
            path@ == path_down(upper@, all, i as int),
        decreases steps.len() - i,
    {
        assert(all[i as int] == steps@[i as int]@);
        path = joined_path(path.as_str(), steps[i].as_str());
        i += 1;
    }
    Some(path)
}

/// What is done to the placeholder of a secret.
#[derive(Clone, Copy, Debug, PartialEq, Eq, Structural)]
pub enum ScrubAction {
    /// Nothing, and nothing above it: there is none.
    Skip,
    /// The directory goes, with everything in it.
    RemoveTree,
    /// The file goes.
    RemoveFile,
}

/// What is done to the placeholder of a secret, by what is there.
pub fn scrub_action(found: Found) -> (r: ScrubAction)
    ensures
        r == (match found {
            Found::Directory => ScrubAction::RemoveTree,
            Found::Symlink => ScrubAction::RemoveFile,
            Found::Other => ScrubAction::RemoveFile,
            Found::Missing => ScrubAction::Skip,
            Found::Unreadable => ScrubAction::Skip,
        }),
{
    match found {
        Found::Directory => ScrubAction::RemoveTree,
        Found::Symlink => ScrubAction::RemoveFile,
        Found::Other => ScrubAction::RemoveFile,
        Found::Missing => ScrubAction::Skip,
        Found::Unreadable => ScrubAction::Skip,
    }
}

/// The directory above `path` that goes next if it is empty; none where that is
/// the root of the layer or outside it.
pub open spec fn prunable(upper: Seq<char>, path: Seq<char>) -> Option<Seq<char>> {
    match parent(path) {
        Some(dir) => if same_path(dir, upper) || !is_within(dir, upper) {
            None
        } else {
            Some(dir)
        },
        None => None,
    }
}

/// The directory above `path` that goes next if it is empty.
pub fn prune_next(upper: &str, path: &str) -> (r: Option<String>)
    ensures
        match r {
            Some(p) => prunable(upper@, path@) == Some(p@),
            None => prunable(upper@, path@) is None,
        },
{
    match parent_of(path) {
        Some(dir) => if is_same_path(dir.as_str(), upper) || !path_is_within(
            dir.as_str(),
            upper,
        ) {
            None
        } else {
            Some(dir)
        },
        None => None,
    }
}

/// What is pruned lies below the root of the layer, and each next directory has
/// a shorter path: pruning ends.
pub proof fn lemma_prune(upper: Seq<char>, path: Seq<char>)
    ensures
        prunable(upper, path) matches Some(dir) ==> is_within(dir, upper) && !same_path(dir, upper)
            && dir.len() < path.len(),
{
    lemma_parent_shorter(path);
}

/// The placeholder of a secret is the root of the layer with the names of the
/// target below it, however the target is written: slashes at its end, doubled
/// slashes and `.` do not matter. It lies within the layer.
pub proof fn lemma_placeholder(upper: Seq<char>, target: Seq<char>)
    requires
        upper.len() > 0,
    ensures
        placeholder(upper, target) is None <==> steps_up(target),
        placeholder(upper, target) matches Some(path) ==> is_within(path, upper) && components(path)
            == components(upper) + names(target),
{
    let all = names(target);
    lemma_path_down(upper, target, all.len() as int);
    assert(all.take(all.len() as int) =~= all);
    let top = components(upper);
    assert((top + all).subrange(0, top.len() as int) =~= top);
}

/// Pruning above a placeholder comes by every directory between the root of the
/// layer and the placeholder, the innermost first, and stops at the root.
pub proof fn lemma_prune_chain(upper: Seq<char>, target: Seq<char>, n: int)
    requires
        upper.len() > 0,
        !has_idle_end(upper),
        0 < n <= names(target).len(),
    ensures
        prunable(upper, path_down(upper, names(target), n)) == (if n == 1 {
            None::<Seq<char>>
        } else {
            Some(path_down(upper, names(target), n - 1))
        }),
{
    let all = names(target);
    lemma_path_down(upper, target, n);
    lemma_path_down(upper, target, n - 1);
    let top = components(upper);
    let dir = path_down(upper, all, n - 1);
    assert((top + all.take(n - 1)).subrange(0, top.len() as int) =~= top);
    if n > 1 {
        assert(components(dir).len() == top.len() + n - 1);
    }
}

/// What the secrets hold, and where the host keeps them, is nothing to the key of
/// a `RUN` nor to its history: a secret may change without a new layer.
pub proof fn lemma_secret_values(
    p: RunPlan,
    q: RunPlan,
    s: StateView,
    run: Run,
    secrets: Map<Seq<char>, Seq<char>>,
    others: Map<Seq<char>, Seq<char>>,
    architecture: Architecture,
)
    requires
        is_run_plan(Ok(p), s, run, secrets, architecture),
        is_run_plan(Ok(q), s, run, others, architecture),
    ensures
        p.key@ == q.key@,
        p.history_line@ == q.history_line@,
        texts(p.argv@) == texts(q.argv@),
        texts(p.env@) == texts(q.env@),
{
}

/// A command is not executed on a file system that lacks layers: it is executed
/// only where every earlier layer of the stage was made in this build. And a
/// build that does not ask the cache never has to start again.
pub proof fn lemma_run_decision(adopted: bool, lookup_cache: bool, hit: bool)
    ensures
        run_decision(adopted, lookup_cache, hit) is Execute ==> !adopted,
        run_decision(adopted, lookup_cache, hit) is Adopt ==> lookup_cache,
        !adopted ==> run_decision(adopted, false, hit) is Execute,
{
}

} // verus!
