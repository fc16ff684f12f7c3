//! The `RUN`s of a bootable build: the command that the guest gets, and the
//! walk that gathers its context.
use vstd::prelude::*;
use crate::arg_subst::{apply_arg_to_scope, scope_after, subst_with, substitute};
use crate::ast::{Directive, RunCommand};
use crate::engine_build::state::{default_shell, default_shell_argv};
use crate::fsutil::{resolve_workdir, workdir};
use crate::image::{copy_texts, opt_text};
use crate::text::{
    concat3, concat4, join, joined, lemma_texts_push, replace_char, replaced, same, texts,
    trim_start_char, trim_start_matches,
};
use crate::text_map::{lemma_text_values_insert, text_values, TextMap};
use crate::vm_runner::RunStepResult;
use super::BootableBuildError;

verus! {

/// `value` in single quotes for the shell.
pub open spec fn shell_quoted(value: Seq<char>) -> Seq<char> {
    "'"@ + replace_char(value, '\'', "'\\''"@) + "'"@
}

/// `value` in single quotes for the shell. A quote in it ends the quotes, stands
/// escaped, and starts them again.
pub fn shell_quote(value: &str) -> (r: String)
    ensures
        r@ == shell_quoted(value@),
{
    let body = replaced(value, '\'', "'\\''");
    concat3("'", body.as_str(), "'")
}

/// The word that the shell reads from `s` where it stands for itself alone:
/// quotes taken off, escapes resolved. Nothing where a character stands outside
/// quotes without an escape. `in_quotes` says whether `s` starts inside quotes.
pub open spec fn shell_word(s: Seq<char>, in_quotes: bool) -> Option<Seq<char>>
    decreases s.len(),
{
    if s.len() == 0 {
        if in_quotes {
            None
        } else {
            Some(Seq::empty())
        }
    } else if s[0] == '\'' {
        shell_word(s.skip(1), !in_quotes)
    } else if in_quotes {
        match shell_word(s.skip(1), true) {
            Some(w) => Some(seq![s[0]] + w),
            None => None,
        }
    } else if s[0] == '\\' && s.len() >= 2 {
        match shell_word(s.skip(2), false) {
            Some(w) => Some(seq![s[1]] + w),
            None => None,
        }
    } else {
        None
    }
}

proof fn lemma_quoted_char(c: char, rest: Seq<char>)
    ensures
        ({
            let piece = if c == '\'' {
                "'\\''"@
            } else {
                seq![c]
            };
            shell_word(piece + rest, true) == (match shell_word(rest, true) {
                Some(w) => Some(seq![c] + w),
                None => None,
            })
        }),
{
    reveal_strlit("'\\''");
    if c == '\'' {
        let s = "'\\''"@ + rest;
        let t = s.skip(1);
        assert(t[0] == '\\' && t[1] == '\'');
        let u = t.skip(2);
        assert(u[0] == '\'');
        assert(u.skip(1) =~= rest);
        assert(shell_word(u, false) == shell_word(rest, true));
        assert(shell_word(s, true) == shell_word(t, false));
    } else {
        let s = seq![c] + rest;
        assert(s.skip(1) =~= rest);
    }
}

proof fn lemma_quoted_text(v: Seq<char>, rest: Seq<char>)
    ensures
        shell_word(replace_char(v, '\'', "'\\''"@) + rest, true) == (match shell_word(rest, true) {
            Some(w) => Some(v + w),
            None => None,
        }),
    decreases v.len(),
{
    if v.len() == 0 {
        assert(v + rest =~= rest);
        match shell_word(rest, true) {
            Some(w) => {
                assert(v + w =~= w);
            },
            None => {},
        }
    } else {
        let c = v.last();
        let piece = if c == '\'' {
            "'\\''"@
        } else {
            seq![c]
        };
        let head = replace_char(v.drop_last(), '\'', "'\\''"@);
        assert(replace_char(v, '\'', "'\\''"@) + rest =~= head + (piece + rest));
        lemma_quoted_text(v.drop_last(), piece + rest);
        lemma_quoted_char(c, rest);
        match shell_word(rest, true) {
            Some(w) => {
                assert(v.drop_last() + (seq![c] + w) =~= v + w);
            },
            None => {},
        }
    }
}

/// What the shell reads from a quoted text is the text, whatever it holds.
pub proof fn lemma_shell_quote(value: Seq<char>)
    ensures
        shell_word(shell_quoted(value), false) == Some(value),
{
    reveal_strlit("'");
    let body = replace_char(value, '\'', "'\\''"@);
    let s = shell_quoted(value);
    assert(s[0] == '\'');
    assert(s.skip(1) =~= body + "'"@);
    assert("'"@.skip(1) =~= Seq::empty());
    assert(shell_word("'"@.skip(1), false) == Some(Seq::<char>::empty()));
    assert(shell_word("'"@, true) == Some(Seq::<char>::empty()));
    lemma_quoted_text(value, "'"@);
    assert(value + Seq::<char>::empty() =~= value);
}

/// The texts in quotes, with a space between neighbours.
pub open spec fn quoted_words(parts: Seq<Seq<char>>) -> Seq<char> {
    join(Seq::new(parts.len(), |i: int| shell_quoted(parts[i])), " "@)
}

fn quote_words(parts: &Vec<String>) -> (r: String)
    ensures
        r@ == quoted_words(texts(parts@)),
{
    let ghost all = Seq::new(parts@.len(), |i: int| shell_quoted(texts(parts@)[i]));
    let mut out: Vec<String> = Vec::new();
    let mut i: usize = 0;
    assert(texts(out@) =~= all.take(0));
    while i < parts.len()
        invariant
            i <= parts@.len(),
            all == Seq::new(parts@.len(), |i: int| shell_quoted(texts(parts@)[i])),
            texts(out@) == all.take(i as int),
        decreases parts.len() - i,
    {
        let word = shell_quote(parts[i].as_str());
        proof {
            lemma_texts_push(out@, word);
            assert(all.take(i as int + 1) =~= all.take(i as int).push(word@));
        }
        out.push(word);
        i += 1;
    }
    assert(all.take(i as int) =~= all);
    assert(all =~= Seq::new(texts(parts@).len(), |i: int| shell_quoted(texts(parts@)[i])));
    joined(&out, " ")
}

/// The line of a `RUN`, with references to `ARG`s in scope replaced: as it is in
/// shell form, each argument in quotes else.
pub open spec fn rendered(command: RunCommand, scope: Map<Seq<char>, Seq<char>>) -> Seq<char> {
    match command {
        RunCommand::Shell(line) => substitute(line@, scope),
        RunCommand::Exec(argv) => quoted_words(
            Seq::new(argv@.len(), |i: int| substitute(argv@[i]@, scope)),
        ),
    }
}

/// The line of a `RUN`, with references to `ARG`s in scope replaced.
pub fn render_run_command(command: &RunCommand, arg_scope: &TextMap<String>) -> (r: String)
    ensures
        r@ == rendered(*command, text_values(arg_scope@)),
{
    match command {
        RunCommand::Shell(line) => subst_with(arg_scope, line.as_str()),
        RunCommand::Exec(argv) => {
            let ghost scope = text_values(arg_scope@);
            let ghost all = Seq::new(argv@.len(), |i: int| substitute(argv@[i]@, scope));
            let mut out: Vec<String> = Vec::new();
            let mut i: usize = 0;
            assert(texts(out@) =~= all.take(0));
            while i < argv.len()
                invariant
                    i <= argv@.len(),
                    scope == text_values(arg_scope@),
                    all == Seq::new(argv@.len(), |i: int| substitute(argv@[i]@, scope)),
                    texts(out@) == all.take(i as int),
                decreases argv.len() - i,
            {
                let value = subst_with(arg_scope, argv[i].as_str());
                proof {
                    lemma_texts_push(out@, value);
                    assert(all.take(i as int + 1) =~= all.take(i as int).push(value@));
                }
                out.push(value);
                i += 1;
            }
            assert(all.take(i as int) =~= all);
            quote_words(&out)
        },
    }
}

/// The shell that a `SHELL` names; the default one for `SHELL none`.
pub open spec fn named_shell(argv: Seq<Seq<char>>) -> Seq<Seq<char>> {
    if argv.len() == 0 {
        default_shell()
    } else {
        argv
    }
}

/// The shell that a `SHELL` names; the default one for `SHELL none`.
pub fn resolve_shell(argv: &Vec<String>) -> (r: Vec<String>)
    ensures
        texts(r@) == named_shell(texts(argv@)),
{
    if argv.len() == 0 {
        default_shell_argv()
    } else {
        copy_texts(argv)
    }
}

/// Is it the default shell?
pub fn is_default_shell(shell: &Vec<String>) -> (r: bool)
    ensures
        r == (texts(shell@) == default_shell()),
{
    let r = shell.len() == 2 && same(shell[0].as_str(), "/bin/sh") && same(shell[1].as_str(), "-c");
    proof {
        let all = texts(shell@);
        if all == default_shell() {
            assert(all.len() == 2);
            assert(all[0] == shell@[0]@ && all[1] == shell@[1]@);
        }
        if r {
            assert(all =~= default_shell());
        }
    }
    r
}

/// A command in its working directory.
pub open spec fn in_directory(command: Seq<char>, directory: Option<Seq<char>>) -> Seq<char> {
    match directory {
        Some(dir) => "cd "@ + shell_quoted(dir) + " && "@ + command,
        None => command,
    }
}

/// The line that the guest runs: the command in its directory, by its shell, as
/// its user, from the inside out. In the default shell, without a user, the
/// shell is not named.
pub open spec fn wrapped(
    command: Seq<char>,
    shell: Seq<Seq<char>>,
    user: Option<Seq<char>>,
    directory: Option<Seq<char>>,
) -> Seq<char> {
    let snippet = in_directory(command, directory);
    let interpreted = if shell != default_shell() || user is Some {
        quoted_words(shell) + " "@ + shell_quoted(snippet)
    } else {
        snippet
    };
    match user {
        Some(u) => "runuser -u "@ + shell_quoted(u) + " -- "@ + interpreted,
        None => interpreted,
    }
}

/// Without `SHELL`, `USER` and `WORKDIR` the guest gets the command as it is.
pub proof fn lemma_default_context(command: Seq<char>)
    ensures
        wrapped(command, default_shell(), None, None) == command,
{
}

/// A text that may be absent.
pub open spec fn opt_str(s: Option<&str>) -> Option<Seq<char>> {
    match s {
        Some(x) => Some(x@),
        None => None,
    }
}

/// The line that the guest runs.
pub fn wrap_run_command(
    command: &str,
    shell: &Vec<String>,
    user: Option<&str>,
    workdir: Option<&str>,
) -> (r: String)
    ensures
        r@ == wrapped(command@, texts(shell@), opt_str(user), opt_str(workdir)),
{
    let snippet = match workdir {
        Some(dir) => concat4("cd ", shell_quote(dir).as_str(), " && ", command),
        None => String::from_str(command),
    };
    let interpreted = if !is_default_shell(shell) || user.is_some() {
        let argv = quote_words(shell);
        concat3(argv.as_str(), " ", shell_quote(snippet.as_str()).as_str())
    } else {
        snippet
    };
    match user {
        Some(u) => concat4(
            "runuser -u ",
            shell_quote(u).as_str(),
            " -- ",
            interpreted.as_str(),
        ),
        None => interpreted,
    }
}

/// The context that directives make for the `RUN`s behind them.
#[derive(Debug)]
pub struct RunContext {
    /// The environment.
    pub env: TextMap<String>,
    /// The shell.
    pub shell: Vec<String>,
    /// The user.
    pub user: Option<String>,
    /// The working directory.
    pub workdir: Option<String>,
    /// The values of the `ARG`s in scope.
    pub arg_scope: TextMap<String>,
}

/// The model of a [`RunContext`].
#[verifier::ext_equal]
pub struct ContextView {
    /// The environment.
    pub env: Map<Seq<char>, Seq<char>>,
    /// The shell.
    pub shell: Seq<Seq<char>>,
    /// The user.
    pub user: Option<Seq<char>>,
    /// The working directory.
    pub workdir: Option<Seq<char>>,
    /// The values of the `ARG`s in scope.
    pub scope: Map<Seq<char>, Seq<char>>,
}

impl View for RunContext {
    type V = ContextView;

    open spec fn view(&self) -> ContextView {
        ContextView {
            env: text_values(self.env@),
            shell: texts(self.shell@),
            user: opt_text(self.user),
            workdir: opt_text(self.workdir),
            scope: text_values(self.arg_scope@),
        }
    }
}

/// The context before the first directive.
pub open spec fn first_context(globals: Map<Seq<char>, Seq<char>>) -> ContextView {
    ContextView {
        env: Map::empty(),
        shell: default_shell(),
        user: None,
        workdir: None,
        scope: globals,
    }
}

/// The working directory that a `WORKDIR` leads to.
pub open spec fn context_workdir(c: ContextView, path: Seq<char>) -> Seq<char> {
    workdir(
        match c.workdir {
            Some(d) => d,
            None => "/"@,
        },
        substitute(path, c.scope),
    )
}

/// The context behind a directive.
pub open spec fn context_behind(
    c: ContextView,
    d: Directive,
    build_args: Map<Seq<char>, Seq<char>>,
) -> ContextView {
    match d {
        Directive::Arg(a) => ContextView { scope: scope_after(c.scope, a, build_args), ..c },
        Directive::Env(e) => ContextView {
            env: c.env.insert(e.key@, substitute(e.value@, c.scope)),
            ..c
        },
        Directive::Shell(s) => ContextView { shell: named_shell(texts(s.argv@)), ..c },
        Directive::User(u) => ContextView { user: Some(substitute(u.name@, c.scope)), ..c },
        Directive::Workdir(w) => ContextView {
            workdir: Some(context_workdir(c, w.path@)),
            ..c
        },
        _ => c,
    }
}

/// What a directive asks for.
#[derive(Debug)]
pub enum RunAction {
    /// Nothing.
    Nothing,
    /// A directory, below the root of the staging tree.
    MakeDirectory(String),
    /// A command in a micro-VM.
    Execute {
        /// The line that the guest runs.
        command: String,
        /// The environment.
        env: TextMap<String>,
    },
}

/// The line that the guest runs for a `RUN` in a context.
pub open spec fn guest_command(c: ContextView, command: RunCommand) -> Seq<char> {
    wrapped(rendered(command, c.scope), c.shell, c.user, c.workdir)
}

/// Is it what a directive asks for in a context?
pub open spec fn is_run_step(
    r: Result<RunAction, BootableBuildError>,
    d: Directive,
    c: ContextView,
    has_qemu: bool,
) -> bool {
    match d {
        Directive::Workdir(w) => r matches Ok(RunAction::MakeDirectory(dir)) && dir@
            == trim_start_char(context_workdir(c, w.path@), '/'),
        Directive::Run(run) => if has_qemu {
            r matches Ok(RunAction::Execute { command, env }) && command@ == guest_command(
                c,
                run.command,
            ) && text_values(env@) == c.env
        } else {
            r matches Err(BootableBuildError::RunWithoutQemu)
        },
        _ => r matches Ok(RunAction::Nothing),
    }
}

fn as_opt_str(s: &Option<String>) -> (r: Option<&str>)
    ensures
        opt_str(r) == opt_text(*s),
{
    match s {
        Some(x) => Some(x.as_str()),
        None => None,
    }
}

impl RunContext {
    /// The context before the first directive.
    pub fn new(globals: &TextMap<String>) -> (r: Self)
        ensures
            r@ == first_context(text_values(globals@)),
    {
        let r = RunContext {
            env: TextMap::new(),
            shell: default_shell_argv(),
            user: None,
            workdir: None,
            arg_scope: globals.clone(),
        };
        assert(text_values(r.env@) =~= Map::empty());
        r
    }

    /// Takes a directive into the context, and says what it asks for. A `RUN`
    /// needs QEMU.
    pub fn step(&mut self, d: &Directive, build_args: &TextMap<String>, has_qemu: bool) -> (r: Result<
        RunAction,
        BootableBuildError,
    >)
        ensures
            final(self)@ == context_behind(old(self)@, *d, text_values(build_args@)),
            is_run_step(r, *d, old(self)@, has_qemu),
    {
        match d {
            Directive::Arg(arg) => {
                let mut scope = self.arg_scope.clone();
                apply_arg_to_scope(&mut scope, arg, build_args);
                self.arg_scope = scope;
                Ok(RunAction::Nothing)
            },
            Directive::Env(e) => {
                let value = subst_with(&self.arg_scope, e.value.as_str());
                proof {
                    lemma_text_values_insert(self.env@, e.key@, value);
                }
                let mut env = self.env.clone();
                env.insert(e.key.clone(), value);
                self.env = env;
                Ok(RunAction::Nothing)
            },
            Directive::Shell(s) => {
                self.shell = resolve_shell(&s.argv);
                Ok(RunAction::Nothing)
            },
            Directive::User(u) => {
                self.user = Some(subst_with(&self.arg_scope, u.name.as_str()));
                Ok(RunAction::Nothing)
            },
            Directive::Workdir(w) => {
                let requested = subst_with(&self.arg_scope, w.path.as_str());
                let resolved = match &self.workdir {
                    Some(current) => resolve_workdir(current.as_str(), requested.as_str()),
                    None => resolve_workdir("/", requested.as_str()),
                };
                let directory = trim_start_matches(resolved.as_str(), '/');
                self.workdir = Some(resolved);
                Ok(RunAction::MakeDirectory(directory))
            },
            Directive::Run(run) => {
                if !has_qemu {
                    return Err(BootableBuildError::RunWithoutQemu);
                }
                let raw = render_run_command(&run.command, &self.arg_scope);
                let command = wrap_run_command(
                    raw.as_str(),
                    &self.shell,
                    as_opt_str(&self.user),
                    as_opt_str(&self.workdir),
                );
                Ok(RunAction::Execute { command, env: self.env.clone() })
            },
            _ => Ok(RunAction::Nothing),
        }
    }
}

/// Checks that a command succeeded.
pub fn check_run_step(command: &str, result: &RunStepResult) -> (r: Result<(), BootableBuildError>)
    ensures
        match r {
            Ok(_) => result.exit_code == 0,
            Err(e) => result.exit_code != 0 && (e matches BootableBuildError::RunStepFailed {
                command: c,
                exit_code,
                serial_output,
            } && c@ == command@ && exit_code == result.exit_code && serial_output@
                == result.serial_output@),
        },
{
    if result.exit_code != 0 {
        Err(
            BootableBuildError::RunStepFailed {
                command: String::from_str(command),
                exit_code: result.exit_code,
                serial_output: result.serial_output.clone(),
            },
        )
    } else {
        Ok(())
    }
}

} // verus!
