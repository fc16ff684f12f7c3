//! The parsed recipe: stages of directives.
use vstd::prelude::*;

verus! {

/// A recipe: the `ARG`s before the first `FROM`, then the stages.
#[derive(Debug)]
pub struct Ast {
    /// The `ARG`s before the first `FROM`, in source order.
    pub global_args: Vec<Arg>,
    /// The stages, in source order.
    pub stages: Vec<Stage>,
}

/// One stage: its `FROM` line and what follows it.
#[derive(Debug)]
pub struct Stage {
    /// What the stage starts from.
    pub from: FromSource,
    /// The stage's name (`FROM … AS <name>`).
    pub name: Option<String>,
    /// The directives, in source order.
    pub directives: Vec<Directive>,
}

/// What a `FROM` line names.
#[derive(Debug)]
pub enum FromSource {
    /// An image reference.
    Reference(String),
    /// The keyword `scratch`: no image.
    Scratch,
}

/// One directive of a stage.
#[derive(Debug)]
pub enum Directive {
    /// `RUN`
    Run(Run),
    /// `ADD`, and `COPY`, which is a plain copy
    Add(Add),
    /// `WORKDIR`
    Workdir(Workdir),
    /// `USER`
    User(User),
    /// `ENV`
    Env(Env),
    /// `ARG`
    Arg(Arg),
    /// `SHELL`
    Shell(Shell),
    /// `LABEL`
    Label(Label),
    /// `ENTRYPOINT`
    Entrypoint(Entrypoint),
    /// `EXPOSE`
    Expose(Expose),
    /// `CMD`
    Cmd(Cmd),
    /// `VOLUME`
    Volume(Volume),
    /// `STOPSIGNAL`
    Stopsignal(Stopsignal),
}

/// `ARG name[=default]`
#[derive(Debug)]
pub struct Arg {
    /// The name that references use.
    pub name: String,
    /// The value where none is given on the command line.
    pub default: Option<String>,
}

/// `RUN [--mount=…] command`
#[derive(Debug)]
pub struct Run {
    /// The command.
    pub command: RunCommand,
    /// The mounts that the step asks for.
    pub mounts: Vec<RunMount>,
}

/// The command of a `RUN`.
#[derive(Debug)]
pub enum RunCommand {
    /// A line for the shell.
    Shell(String),
    /// An argument vector.
    Exec(Vec<String>),
}

/// `--mount=…` of a `RUN`.
#[derive(Debug)]
pub struct RunMount {
    /// What is mounted.
    pub kind: RunMountKind,
}

/// What a `RUN` can mount.
#[derive(Debug)]
pub enum RunMountKind {
    /// A build secret.
    Secret {
        /// The secret's id.
        id: String,
        /// Where it is mounted; `/run/secrets/<id>` where nothing is said.
        target: Option<String>,
    },
}

/// `ADD [--from=stage] source destination`
#[derive(Debug)]
pub struct Add {
    /// What is added.
    pub source: AddSource,
    /// Where it is put.
    pub destination: String,
    /// The stage that the source path is read from.
    pub from: Option<String>,
    /// Was the directive written as `COPY`?
    pub plain_copy: bool,
}

/// The source of an `ADD`.
#[derive(Debug)]
pub enum AddSource {
    /// A path in the build context or in a stage.
    Path(String),
    /// A URL.
    Url(String),
    /// An image reference.
    Oci(String),
}

impl AddSource {
    /// The source as the recipe has it.
    pub open spec fn text(self) -> Seq<char> {
        match self {
            AddSource::Path(s) => s@,
            AddSource::Url(s) => s@,
            AddSource::Oci(s) => s@,
        }
    }

    /// The source as the recipe has it.
    pub fn as_str(&self) -> (r: &str)
        ensures
            r@ == self.text(),
    {
        match self {
            AddSource::Path(s) => s.as_str(),
            AddSource::Url(s) => s.as_str(),
            AddSource::Oci(s) => s.as_str(),
        }
    }
}

/// `WORKDIR path`
#[derive(Debug)]
pub struct Workdir {
    /// The directory.
    pub path: String,
}

/// `USER name`
#[derive(Debug)]
pub struct User {
    /// The user.
    pub name: String,
}

/// `ENV key=value`
#[derive(Debug)]
pub struct Env {
    /// The variable.
    pub key: String,
    /// Its value.
    pub value: String,
}

/// `SHELL argv`; an empty vector is `SHELL none`.
#[derive(Debug)]
pub struct Shell {
    /// The interpreter and its arguments.
    pub argv: Vec<String>,
}

/// `LABEL key=value`
#[derive(Debug)]
pub struct Label {
    /// The key.
    pub key: String,
    /// The value.
    pub value: String,
}

/// `ENTRYPOINT init`
#[derive(Debug)]
pub struct Entrypoint {
    /// What is started.
    pub init: EntrypointInit,
}

/// What an `ENTRYPOINT` starts.
#[derive(Debug)]
pub enum EntrypointInit {
    /// systemd
    Systemd,
    /// OpenRC
    OpenRc,
    /// A command line.
    Path(String),
    /// An argument vector.
    Exec(Vec<String>),
    /// Nothing (`ENTRYPOINT none`).
    NoInit,
}

impl EntrypointInit {
    /// Is it an init system?
    pub open spec fn starts_init_system(self) -> bool {
        self is Systemd || self is OpenRc
    }

    /// Is it an init system?
    pub fn is_init_system(&self) -> (r: bool)
        ensures
            r == self.starts_init_system(),
    {
        match self {
            EntrypointInit::Systemd => true,
            EntrypointInit::OpenRc => true,
            EntrypointInit::Path(_) => false,
            EntrypointInit::Exec(_) => false,
            EntrypointInit::NoInit => false,
        }
    }
}

/// `EXPOSE port[/protocol]`
#[derive(Debug)]
pub struct Expose {
    /// The port.
    pub port: u16,
    /// The protocol.
    pub protocol: ExposeProtocol,
}

/// The protocol of an exposed port.
#[derive(Clone, Copy, Debug, PartialEq, Eq, Structural)]
pub enum ExposeProtocol {
    /// TCP
    Tcp,
    /// UDP
    Udp,
}

impl ExposeProtocol {
    /// The protocol's name.
    pub open spec fn name(self) -> Seq<char> {
        match self {
            ExposeProtocol::Tcp => "tcp"@,
            ExposeProtocol::Udp => "udp"@,
        }
    }

    /// The protocol's name.
    pub fn as_str(self) -> (r: &'static str)
        ensures
            r@ == self.name(),
    {
        match self {
            ExposeProtocol::Tcp => "tcp",
            ExposeProtocol::Udp => "udp",
        }
    }
}

/// `CMD command`
#[derive(Debug)]
pub struct Cmd {
    /// The command.
    pub command: CmdForm,
}

/// The command of a `CMD`.
#[derive(Debug)]
pub enum CmdForm {
    /// A line for the shell.
    Shell(String),
    /// An argument vector.
    Exec(Vec<String>),
}

/// `VOLUME paths`
#[derive(Debug)]
pub struct Volume {
    /// The mount points.
    pub paths: Vec<String>,
}

/// `STOPSIGNAL signal`
#[derive(Debug)]
pub struct Stopsignal {
    /// The signal.
    pub signal: String,
}

} // verus!
