//! Paths that builds write to and read from, and what keeps them inside their
//! roots.
use vstd::prelude::*;
use crate::image::copy_texts;
use crate::path::{
    components, has_idle_end, has_parent_step, is_absolute, is_name, is_parent_step, is_within,
    join_path, joined_path, lemma_components_join, lemma_parent_of_name, lemma_single_name, names,
    names_of, parent, path_is_within, steps_up, with_slash,
};
use crate::text::{
    chars_of, concat3, lemma_split_parts, split, texts, trim_end_char, trim_end_matches,
    trim_start_char, trim_start_matches,
};

verus! {

/// The working directory after `WORKDIR requested` in `current`.
pub open spec fn workdir(current: Seq<char>, requested: Seq<char>) -> Seq<char> {
    if is_absolute(requested) {
        requested
    } else {
        trim_end_char(current, '/') + "/"@ + requested
    }
}

/// The working directory after `WORKDIR requested` in `current`: an absolute
/// path takes its place, a relative one goes below it.
pub fn resolve_workdir(current: &str, requested: &str) -> (r: String)
    ensures
        r@ == workdir(current@, requested@),
{
    let v = chars_of(requested);
    if v.len() > 0 && v[0] == '/' {
        String::from_str(requested)
    } else {
        let base = trim_end_matches(current, '/');
        concat3(base.as_str(), "/", requested)
    }
}

proof fn lemma_trim_end_first(s: Seq<char>)
    ensures
        trim_end_char(s, '/').len() > 0 ==> s.len() > 0 && trim_end_char(s, '/')[0] == s[0],
    decreases s.len(),
{
    if s.len() > 0 && s.last() == '/' {
        lemma_trim_end_first(s.drop_last());
    }
}

/// From an absolute working directory every `WORKDIR` leads to an absolute one.
pub proof fn lemma_workdir_absolute(current: Seq<char>, requested: Seq<char>)
    requires
        is_absolute(current),
    ensures
        is_absolute(workdir(current, requested)),
{
    reveal_strlit("/");
    lemma_trim_end_first(current);
    if !is_absolute(requested) {
        let base = trim_end_char(current, '/');
        if base.len() == 0 {
            assert(workdir(current, requested)[0] == '/');
        } else {
            assert(workdir(current, requested)[0] == base[0]);
        }
    }
}

/// What is found at a path, a symbolic link not followed.
#[derive(Clone, Copy, Debug, PartialEq, Eq, Structural)]
pub enum Found {
    /// Nothing.
    Missing,
    /// A symbolic link.
    Symlink,
    /// A directory.
    Directory,
    /// Something else.
    Other,
    /// The path could not be looked at.
    Unreadable,
}

/// Why a path is refused.
#[derive(Debug)]
pub enum PathRefusal {
    /// A destination steps up to a parent directory.
    UnsafeComponent {
        /// The destination.
        destination: String,
    },
    /// A symbolic link would lead out of the root.
    Symlink {
        /// Where it is.
        path: String,
    },
    /// What should be a directory is something else.
    NotADirectory {
        /// Where it is.
        path: String,
    },
    /// A source lies outside its root.
    OutsideRoot {
        /// The source.
        resolved: String,
        /// Where it really is.
        canonical: String,
        /// The root.
        root: String,
    },
}

/// What to do at a directory on the way to a destination.
#[derive(Clone, Copy, Debug, PartialEq, Eq, Structural)]
pub enum DirAction {
    /// Go through it.
    Enter,
    /// Make it, and go through it.
    Create,
    /// Stop: it is a symbolic link.
    RefuseSymlink,
    /// Stop: it is not a directory.
    RefuseNotADirectory,
    /// Stop with the error that looking at it gave.
    Fail,
}

/// What to do at a directory on the way to a destination, by what is there.
pub open spec fn dir_action_for(found: Found) -> DirAction {
    match found {
        Found::Missing => DirAction::Create,
        Found::Symlink => DirAction::RefuseSymlink,
        Found::Directory => DirAction::Enter,
        Found::Other => DirAction::RefuseNotADirectory,
        Found::Unreadable => DirAction::Fail,
    }
}

/// What to do at a directory that is written through: the destination of a
/// recursive copy, or a step on the way to a file.
pub fn dir_action(found: Found) -> (r: DirAction)
    ensures
        r == dir_action_for(found),
{
    match found {
        Found::Missing => DirAction::Create,
        Found::Symlink => DirAction::RefuseSymlink,
        Found::Directory => DirAction::Enter,
        Found::Other => DirAction::RefuseNotADirectory,
        Found::Unreadable => DirAction::Fail,
    }
}

/// Is what stands at the place of a file unlinked before the file is written?
pub fn unlinks_leaf(found: Found) -> (r: bool)
    ensures
        r == (found is Symlink),
{
    match found {
        Found::Symlink => true,
        _ => false,
    }
}

/// What an entry of a directory that is copied is.
#[derive(Clone, Copy, Debug, PartialEq, Eq, Structural)]
pub enum EntryKind {
    /// A directory.
    Directory,
    /// A symbolic link.
    Symlink,
    /// A file.
    File,
}

/// How an entry is copied.
#[derive(Clone, Copy, Debug, PartialEq, Eq, Structural)]
pub enum CopyAction {
    /// Copy the directory, which is looked at first.
    Recurse,
    /// Make a symbolic link to the same target.
    Link {
        /// Is a symbolic link at the destination removed first?
        unlink: bool,
    },
    /// Copy the bytes.
    Copy {
        /// Is a symbolic link at the destination removed first?
        unlink: bool,
    },
}

/// How an entry is copied, by what it is and what is at its destination.
pub fn copy_action(kind: EntryKind, destination: Found) -> (r: CopyAction)
    ensures
        r == (match kind {
            EntryKind::Directory => CopyAction::Recurse,
            EntryKind::Symlink => CopyAction::Link { unlink: destination is Symlink },
            EntryKind::File => CopyAction::Copy { unlink: destination is Symlink },
        }),
{
    match kind {
        EntryKind::Directory => CopyAction::Recurse,
        EntryKind::Symlink => CopyAction::Link { unlink: unlinks_leaf(destination) },
        EntryKind::File => CopyAction::Copy { unlink: unlinks_leaf(destination) },
    }
}

/// `root` with the first `n` names below it.
pub open spec fn path_down(root: Seq<char>, steps: Seq<Seq<char>>, n: int) -> Seq<char>
    decreases n,
{
    if n <= 0 {
        root
    } else {
        join_path(path_down(root, steps, n - 1), steps[n - 1])
    }
}

/// The names on the way to a destination.
pub open spec fn write_steps(rel: Seq<char>) -> Seq<Seq<char>> {
    names(trim_start_char(rel, '/'))
}

/// The way to a destination below a root, one name at a time.
pub struct WriteWalk {
    path: String,
    steps: Vec<String>,
    at: usize,
    root: Ghost<Seq<char>>,
}

/// The model of a [`WriteWalk`].
#[verifier::ext_equal]
pub struct WalkView {
    /// The root.
    pub root: Seq<char>,
    /// The names on the way.
    pub steps: Seq<Seq<char>>,
    /// How many of them are behind.
    pub at: int,
}

impl View for WriteWalk {
    type V = WalkView;

    closed spec fn view(&self) -> WalkView {
        WalkView { root: self.root@, steps: texts(self.steps@), at: self.at as int }
    }
}

/// What to do at the place that a walk has come to.
#[derive(Debug)]
pub enum WalkAction {
    /// Make the directory, and go on.
    CreateDir,
    /// Go on.
    GoOn,
    /// This is the destination: remove the symbolic link there.
    Unlink,
    /// Stop with this refusal.
    Refuse(PathRefusal),
    /// Stop with the error that looking at the place gave.
    Fail,
}

impl WalkView {
    /// The place that the walk looks at next.
    pub open spec fn next_path(self) -> Seq<char> {
        path_down(self.root, self.steps, self.at + 1)
    }

    /// Has the walk come to its destination?
    pub open spec fn done(self) -> bool {
        self.at >= self.steps.len()
    }

    /// Is the next place the destination?
    pub open spec fn at_leaf(self) -> bool {
        self.at == self.steps.len() - 1
    }
}

impl WriteWalk {
    #[verifier::type_invariant]
    spec fn consistent(self) -> bool {
        &&& self.at <= self.steps@.len()
        &&& self.path@ == path_down(self.root@, texts(self.steps@), self.at as int)
    }

    /// The walk to `rel` below `root`. A destination that steps up to a parent
    /// directory is refused.
    pub fn start(root: &str, rel: &str) -> (r: Result<WriteWalk, PathRefusal>)
        ensures
            match r {
                Ok(w) => !steps_up(trim_start_char(rel@, '/')) && w@ == (WalkView {
                    root: root@,
                    steps: write_steps(rel@),
                    at: 0,
                }),
                Err(e) => steps_up(trim_start_char(rel@, '/')) && (
                e matches PathRefusal::UnsafeComponent { destination } && destination@ == rel@),
            },
    {
        let trimmed = trim_start_matches(rel, '/');
        if has_parent_step(trimmed.as_str()) {
            return Err(PathRefusal::UnsafeComponent { destination: String::from_str(rel) });
        }
        let steps = names_of(trimmed.as_str());
        Ok(WriteWalk { path: String::from_str(root), steps, at: 0, root: Ghost(root@) })
    }

    /// The place to look at next; none at the end, where the path is that of
    /// [`WriteWalk::destination`].
    pub fn next(&self) -> (r: Option<String>)
        ensures
            match r {
                Some(p) => !self@.done() && p@ == self@.next_path(),
                None => self@.done(),
            },
    {
        proof {
            use_type_invariant(self);
        }
        if self.at < self.steps.len() {
            Some(joined_path(self.path.as_str(), self.steps[self.at].as_str()))
        } else {
            None
        }
    }

    /// Takes what was found at the next place, and says what to do there. The
    /// walk goes on only through directories, and never through a symbolic link.
    pub fn step(&mut self, found: Found) -> (r: WalkAction)
        requires
            !old(self)@.done(),
        ensures
            final(self)@.root == old(self)@.root,
            final(self)@.steps == old(self)@.steps,
            old(self)@.at_leaf() ==> final(self)@.at == old(self)@.at + 1 && (if found is Symlink {
                r is Unlink
            } else {
                r is GoOn
            }),
            !old(self)@.at_leaf() ==> match found {
                Found::Missing => r is CreateDir && final(self)@.at == old(self)@.at + 1,
                Found::Directory => r is GoOn && final(self)@.at == old(self)@.at + 1,
                Found::Symlink => r matches WalkAction::Refuse(PathRefusal::Symlink { path })
                    && path@ == old(self)@.next_path() && final(self)@.at == old(self)@.at,
                Found::Other => r matches WalkAction::Refuse(PathRefusal::NotADirectory { path })
                    && path@ == old(self)@.next_path() && final(self)@.at == old(self)@.at,
                Found::Unreadable => r is Fail && final(self)@.at == old(self)@.at,
            },
    {
        proof {
            use_type_invariant(&*self);
        }
        let path = joined_path(self.path.as_str(), self.steps[self.at].as_str());
        let leaf = self.at == self.steps.len() - 1;
        let action = dir_action(found);
        if !leaf {
            match action {
                DirAction::RefuseSymlink => {
                    return WalkAction::Refuse(PathRefusal::Symlink { path });
                },
                DirAction::RefuseNotADirectory => {
                    return WalkAction::Refuse(PathRefusal::NotADirectory { path });
                },
                DirAction::Fail => {
                    return WalkAction::Fail;
                },
                _ => {},
            }
        }
        let steps = copy_texts(&self.steps);
        let at: usize = self.at + 1;
        *self = WriteWalk { path, steps, at, root: Ghost(self.root@) };
        if leaf {
            if unlinks_leaf(found) {
                WalkAction::Unlink
            } else {
                WalkAction::GoOn
            }
        } else if found == Found::Missing {
            WalkAction::CreateDir
        } else {
            WalkAction::GoOn
        }
    }

    /// The path that the walk has come to.
    pub fn destination(&self) -> (r: String)
        ensures
            r@ == path_down(self@.root, self@.steps, self@.at),
    {
        proof {
            use_type_invariant(self);
        }
        self.path.clone()
    }
}

/// A path below a root is that of the root and the names, and the one above it
/// is a name shorter.
pub proof fn lemma_path_down(root: Seq<char>, s: Seq<char>, n: int)
    requires
        root.len() > 0,
        0 <= n <= names(s).len(),
    ensures
        root.is_prefix_of(path_down(root, names(s), n)),
        path_down(root, names(s), n).len() >= root.len() + n,
        components(path_down(root, names(s), n)) == components(root) + names(s).take(n),
        !has_idle_end(root) ==> !has_idle_end(path_down(root, names(s), n)),
        !has_idle_end(root) && n > 0 ==> parent(path_down(root, names(s), n)) == Some(
            path_down(root, names(s), n - 1),
        ),
    decreases n,
{
    let all = names(s);
    if n > 0 {
        lemma_path_down(root, s, n - 1);
        lemma_name(s, n - 1);
        let name = all[n - 1];
        let above = path_down(root, all, n - 1);
        if is_absolute(name) {
            assert(name.contains(name[0]));
        }
        lemma_single_name(name);
        lemma_components_join(above, name);
        let here = path_down(root, all, n);
        assert(root =~= here.subrange(0, root.len() as int)) by {
            assert(root == above.subrange(0, root.len() as int));
            assert forall|i: int| 0 <= i < root.len() implies root[i] == here[i] by {
                assert(root[i] == above[i]);
            }
        }
        assert(all.take(n) =~= all.take(n - 1) + seq![name]);
        assert(components(root) + all.take(n - 1) + seq![name] =~= components(root) + all.take(n));
        if !has_idle_end(root) {
            lemma_parent_of_name(above, name);
        }
    } else {
        assert(components(root) + all.take(0) =~= components(root));
        assert(root =~= root.subrange(0, root.len() as int));
    }
}

/// Every place that a walk below a root comes by lies below the root.
pub proof fn lemma_walk_contained(root: Seq<char>, rel: Seq<char>, n: int)
    requires
        root.len() > 0,
        0 <= n <= write_steps(rel).len(),
    ensures
        is_within(path_down(root, write_steps(rel), n), root),
        components(path_down(root, write_steps(rel), n)) == components(root) + write_steps(
            rel,
        ).take(n),
        n > 0 ==> with_slash(root).is_prefix_of(path_down(root, write_steps(rel), n)),
    decreases n,
{
    lemma_path_down(root, trim_start_char(rel, '/'), n);
    let top = components(root);
    assert((top + write_steps(rel).take(n)).subrange(0, top.len() as int) =~= top);
    if n > 0 {
        lemma_walk_contained(root, rel, n - 1);
        let steps = write_steps(rel);
        let above = path_down(root, steps, n - 1);
        let here = path_down(root, steps, n);
        lemma_name(trim_start_char(rel, '/'), n - 1);
        let name = steps[n - 1];
        assert(!is_absolute(name));
        assert(above.len() > 0);
        let base = with_slash(root);
        assert(base.len() <= here.len());
        assert forall|i: int| 0 <= i < base.len() implies here[i] == base[i] by {
            if n > 1 {
                assert(above[i] == base[i]);
            }
        }
        assert(base =~= here.subrange(0, base.len() as int));
        assert(base.is_prefix_of(here));
    }
}

proof fn lemma_filtered(s: Seq<Seq<char>>, keep: spec_fn(Seq<char>) -> bool, i: int)
    requires
        0 <= i < s.filter(keep).len(),
    ensures
        s.contains(s.filter(keep)[i]),
        keep(s.filter(keep)[i]),
    decreases s.len(),
{
    reveal(Seq::filter);
    if s.len() > 0 {
        let rest = s.drop_last().filter(keep);
        if i < rest.len() {
            lemma_filtered(s.drop_last(), keep, i);
            let j = choose|j: int| 0 <= j < s.drop_last().len() && s.drop_last()[j] == rest[i];
            assert(s[j] == rest[i]);
        } else {
            assert(s[s.len() - 1] == s.filter(keep)[i]);
        }
    }
}

/// A name in a path has no slash, is not empty, and steps up only where the
/// path does.
pub proof fn lemma_name(s: Seq<char>, i: int)
    requires
        0 <= i < names(s).len(),
    ensures
        is_name(names(s)[i]),
        !names(s)[i].contains('/'),
        is_parent_step(names(s)[i]) ==> steps_up(s),
{
    let all = split(s, '/');
    let keep = |p: Seq<char>| is_name(p);
    let name = names(s)[i];
    assert(names(s) == all.filter(keep));
    lemma_filtered(all, keep, i);
    let j = choose|j: int| 0 <= j < all.len() && all[j] == name;
    lemma_split_parts(s, '/');
    assert(!all[j].contains('/'));
}

/// Checks that a source lies inside its root. Both paths are free of symbolic
/// links.
pub fn ensure_source_contained(root_canonical: &str, resolved: &str, canonical: &str) -> (r: Result<
    (),
    PathRefusal,
>)
    ensures
        match r {
            Ok(_) => is_within(canonical@, root_canonical@),
            Err(e) => !is_within(canonical@, root_canonical@) && (e matches PathRefusal::OutsideRoot {
                resolved: at,
                canonical: found,
                root,
            } && at@ == resolved@ && found@ == canonical@ && root@ == root_canonical@),
        },
{
    if path_is_within(canonical, root_canonical) {
        Ok(())
    } else {
        Err(
            PathRefusal::OutsideRoot {
                resolved: String::from_str(resolved),
                canonical: String::from_str(canonical),
                root: String::from_str(root_canonical),
            },
        )
    }
}

/// What the system says of a move from one file system to another.
pub const CROSS_DEVICE: i32 = 18;

/// A tree that could not be moved is copied where the move was one between file
/// systems.
pub fn copies_instead(os_error: Option<i32>) -> (r: bool)
    ensures
        r == (os_error == Some(CROSS_DEVICE)),
{
    match os_error {
        Some(code) => code == CROSS_DEVICE,
        None => false,
    }
}

} // verus!
