//! Build secrets: given by the caller, mounted by `RUN`s, never in a layer.
use vstd::prelude::*;
use crate::text::concat3;
use crate::text_map::{lemma_text_values_insert, text_values, TextMap};
use super::error::EngineBuildError;

verus! {

/// A build secret.
#[derive(Debug)]
pub struct SecretInput {
    /// The id by which a `RUN` mounts it.
    pub id: String,
    /// Where it comes from.
    pub source: SecretSource,
}

/// Where a build secret comes from.
#[derive(Debug)]
pub enum SecretSource {
    /// A file on the host.
    File(String),
    /// An environment variable.
    Env {
        /// The variable.
        name: String,
    },
}

/// What was found of the source of a secret.
#[derive(Debug)]
pub enum SecretFinding {
    /// Of a file.
    File {
        /// Is it there?
        there: bool,
    },
    /// Of an environment variable.
    Env {
        /// The file that its value was written to; none where it is not set.
        written: Option<String>,
    },
}

/// The secrets of a build, by id: the files on the host that hold them.
#[derive(Debug)]
pub struct ResolvedSecrets {
    /// The file of each secret.
    pub by_id: TextMap<String>,
}

impl View for ResolvedSecrets {
    type V = Map<Seq<char>, Seq<char>>;

    open spec fn view(&self) -> Map<Seq<char>, Seq<char>> {
        text_values(self.by_id@)
    }
}

impl ResolvedSecrets {
    /// The file of the secret `id`.
    pub fn host_path_for(&self, id: &str) -> (r: Option<&String>)
        ensures
            match r {
                Some(p) => self@.dom().contains(id@) && self@[id@] == p@,
                None => !self@.dom().contains(id@),
            },
    {
        self.by_id.get(id)
    }
}

/// Why a secret whose source is not there cannot be used.
pub open spec fn missing_reason(source: SecretSource) -> Seq<char> {
    match source {
        SecretSource::File(path) => "source file `"@ + path@ + "` does not exist"@,
        SecretSource::Env { name } => "environment variable `"@ + name@ + "` is not set"@,
    }
}

/// The file that holds a secret: the source itself where it is a file that is
/// there, the file that was written for a variable that is set. A finding of the
/// other kind finds nothing.
pub open spec fn secret_file(source: SecretSource, found: SecretFinding) -> Option<Seq<char>> {
    match (source, found) {
        (SecretSource::File(path), SecretFinding::File { there: true }) => Some(path@),
        (SecretSource::Env { .. }, SecretFinding::Env { written: Some(file) }) => Some(file@),
        _ => None,
    }
}

/// The files of the first `n` secrets, by id; the last of an id counts.
pub open spec fn secret_files(
    inputs: Seq<SecretInput>,
    found: Seq<SecretFinding>,
    n: int,
) -> Map<Seq<char>, Seq<char>>
    decreases n,
{
    if n <= 0 {
        Map::empty()
    } else {
        secret_files(inputs, found, n - 1).insert(
            inputs[n - 1].id@,
            secret_file(inputs[n - 1].source, found[n - 1])->0,
        )
    }
}

/// Is there a file for each of the first `n` secrets?
pub open spec fn all_there(
    inputs: Seq<SecretInput>,
    found: Seq<SecretFinding>,
    n: int,
) -> bool {
    forall|i: int|
        0 <= i < n ==> secret_file((#[trigger] inputs[i]).source, found[i]) is Some
}

/// Is the `i`th secret the first whose source is not there?
pub open spec fn first_missing(
    inputs: Seq<SecretInput>,
    found: Seq<SecretFinding>,
    i: int,
) -> bool {
    &&& 0 <= i < inputs.len()
    &&& secret_file(inputs[i].source, found[i]) is None
    &&& all_there(inputs, found, i)
}

/// A secret from a file is used in place: unless a later secret has its id, the
/// file of a secret whose source is the file `path` is `path`.
pub proof fn lemma_file_in_place(
    inputs: Seq<SecretInput>,
    found: Seq<SecretFinding>,
    n: int,
    i: int,
)
    requires
        0 <= i < n <= inputs.len(),
        all_there(inputs, found, n),
        inputs[i].source is File,
        forall|j: int| i < j < n ==> (#[trigger] inputs[j]).id@ != inputs[i].id@,
    ensures
        secret_files(inputs, found, n).dom().contains(inputs[i].id@),
        secret_files(inputs, found, n)[inputs[i].id@] == inputs[i].source->File_0@,
    decreases n,
{
    if i < n - 1 {
        lemma_file_in_place(inputs, found, n - 1, i);
    }
}

/// The file that holds a secret.
fn file_of(source: &SecretSource, found: &SecretFinding) -> (r: Option<String>)
    ensures
        match r {
            Some(file) => secret_file(*source, *found) == Some(file@),
            None => secret_file(*source, *found) is None,
        },
{
    match source {
        SecretSource::File(path) => match found {
            SecretFinding::File { there } => {
                if *there {
                    Some(path.clone())
                } else {
                    None
                }
            },
            SecretFinding::Env { .. } => None,
        },
        SecretSource::Env { .. } => match found {
            SecretFinding::Env { written: Some(file) } => Some(file.clone()),
            _ => None,
        },
    }
}

/// Takes in the secrets of a build. For each, `found` is what was found of its
/// source.
pub fn resolve_secrets(inputs: &Vec<SecretInput>, found: &Vec<SecretFinding>) -> (r: Result<
    ResolvedSecrets,
    EngineBuildError,
>)
    requires
        inputs@.len() == found@.len(),
    ensures
        match r {
            Ok(s) => all_there(inputs@, found@, inputs@.len() as int) && s@ == secret_files(
                inputs@,
                found@,
                inputs@.len() as int,
            ),
            Err(e) => exists|i: int| #[trigger]
                first_missing(inputs@, found@, i) && (e matches EngineBuildError::SecretResolution {
                    id,
                    reason,
                } && id@ == inputs@[i].id@ && reason@ == missing_reason(inputs@[i].source)),
        },
{
    let mut by_id: TextMap<String> = TextMap::new();
    let mut i: usize = 0;
    proof {
        assert(text_values(by_id@) =~= Map::<Seq<char>, Seq<char>>::empty());
    }
    while i < inputs.len()
        invariant
            i <= inputs@.len(),
            inputs@.len() == found@.len(),
            all_there(inputs@, found@, i as int),
            text_values(by_id@) == secret_files(inputs@, found@, i as int),
        decreases inputs.len() - i,
    {
        match file_of(&inputs[i].source, &found[i]) {
            Some(file) => {
                proof {
                    lemma_text_values_insert(by_id@, inputs@[i as int].id@, file);
                }
                by_id.insert(inputs[i].id.clone(), file);
            },
            None => {
                let reason = match &inputs[i].source {
                    SecretSource::File(path) => concat3(
                        "source file `",
                        path.as_str(),
                        "` does not exist",
                    ),
                    SecretSource::Env { name } => concat3(
                        "environment variable `",
                        name.as_str(),
                        "` is not set",
                    ),
                };
                assert(first_missing(inputs@, found@, i as int));
                return Err(
                    EngineBuildError::SecretResolution { id: inputs[i].id.clone(), reason },
                );
            },
        }
        i += 1;
    }
    Ok(ResolvedSecrets { by_id })
}

} // verus!
