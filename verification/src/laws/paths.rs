//! Paths: what they are made of, what lies below what, and how a tree is written
//! without leaving its root.
use vstd::prelude::*;
use crate::engine_build::run::{prune_next, scrub_action, scrub_path, ScrubAction};
use crate::fsutil::{
    copies_instead, copy_action, dir_action, lemma_name, path_down, resolve_workdir, unlinks_leaf,
    CopyAction, DirAction, EntryKind, Found, PathRefusal, WriteWalk,
};
use crate::laws::aid::lemma_split_whole;
use crate::path::{
    file_name_of, has_idle_end, is_name, is_within, join_path, joined_path, lemma_parent_of_name,
    lemma_single_name, names, names_of, parent_of, part_below,
};
use crate::text::{join, split, texts};

verus! {

/// A path is joined to another with one slash between them; an absolute one stands
/// for itself.
pub proof fn lemma_joined(base: &str, rel: &str, r: String)
    requires
        call_ensures(joined_path, (base, rel), r),
    ensures
        rel@.len() > 0 && rel@[0] == '/' ==> r@ == rel@,
        (rel@.len() == 0 || rel@[0] != '/') && base@.len() > 0 && base@.last() != '/' ==> r@ == base@
            + seq!['/'] + rel@,
        (rel@.len() == 0 || rel@[0] != '/') && base@.len() > 0 && base@.last() == '/' ==> r@ == base@
            + rel@,
        (rel@.len() == 0 || rel@[0] != '/') && base@.len() == 0 ==> r@ == rel@,
{
    if base@.len() == 0 && (rel@.len() == 0 || rel@[0] != '/') {
        assert(base@ + rel@ =~= rel@);
    }
}

/// The names of a path are those before a slash and those behind it; a text without
/// a slash is one name, unless it is empty or the directory itself.
pub proof fn lemma_names(a: &str, b: &str, s: &str, x: Vec<String>, y: Vec<String>, r: Vec<String>)
    requires
        call_ensures(names_of, (a,), x),
        call_ensures(names_of, (b,), y),
        call_ensures(names_of, (s,), r),
        s@ == a@ + seq!['/'] + b@,
    ensures
        texts(r@) == texts(x@) + texts(y@),
        !a@.contains('/') && a@.len() > 0 && a@ != seq!['.'] ==> texts(x@) == seq![a@],
        a@.len() == 0 || a@ == seq!['.'] ==> x@.len() == 0,
{
    let keep = |p: Seq<char>| is_name(p);
    crate::path::lemma_split_concat(a@, b@);
    Seq::filter_distributes_over_add(split(a@, '/'), split(b@, '/'), keep);
    if !a@.contains('/') && a@.len() > 0 && a@ != seq!['.'] {
        lemma_single_name(a@);
    }
    if a@.len() == 0 || a@ == seq!['.'] {
        assert(!a@.contains('/')) by {
            if a@.contains('/') {
                let k = a@.index_of('/');
                assert(a@[k] == '/');
            }
        }
        lemma_split_whole(a@, '/');
        let one = seq![a@];
        assert(split(a@, '/') == one);
        reveal(Seq::filter);
        assert(one.drop_last() =~= Seq::empty());
        assert(one.drop_last().filter(keep) =~= Seq::empty());
        assert(!is_name(one.last()));
        assert(one.filter(keep) =~= Seq::empty());
        assert(texts(x@).len() == x@.len());
    }
}

/// The last name of a path is its file name, and the rest its directory.
pub proof fn lemma_last_name(
    dir: &str,
    name: Seq<char>,
    s: &str,
    r: Option<String>,
    up: Option<String>,
)
    requires
        call_ensures(file_name_of, (s,), r),
        call_ensures(parent_of, (s,), up),
        s@ == dir@ + seq!['/'] + name,
        dir@.len() > 0,
        !has_idle_end(dir@),
        dir@.last() != '/',
        name.len() > 0,
        name != seq!['.'],
        name != seq!['.', '.'],
        !name.contains('/'),
    ensures
        r matches Some(x) && x@ == name,
        up matches Some(x) && x@ == dir@,
{
    let keep = |p: Seq<char>| is_name(p);
    crate::path::lemma_split_concat(dir@, name);
    Seq::filter_distributes_over_add(split(dir@, '/'), split(name, '/'), keep);
    lemma_single_name(name);
    assert(names(s@) == names(dir@) + seq![name]);
    assert(names(s@).last() == name);
    assert(name[0] != '/') by {
        if name[0] == '/' {
            assert(name.contains('/'));
        }
    }
    assert(join_path(dir@, name) == s@);
    lemma_parent_of_name(dir@, name);
}

/// What stands below a root is the path without the root; what only starts with the
/// same characters does not stand below it.
pub proof fn lemma_below(
    root: &str,
    rel: Seq<char>,
    s: &str,
    r: Option<String>,
    same: Option<String>,
    t: &str,
    q: Option<String>,
    more: Seq<char>,
)
    requires
        call_ensures(part_below, (s, root), r),
        call_ensures(part_below, (root, root), same),
        call_ensures(part_below, (t, root), q),
        root@.len() > 0,
        root@.last() != '/',
        s@ == root@ + seq!['/'] + rel,
        t@ == root@ + more,
        more.len() > 0,
        more[0] != '/',
    ensures
        r matches Some(x) && x@ == rel,
        same matches Some(x) && x@.len() == 0,
        q is None,
{
    let base = root@.push('/');
    assert(base =~= root@ + seq!['/']);
    assert(base.is_prefix_of(s@)) by {
        assert(s@.take(base.len() as int) =~= base);
    }
    assert(s@.len() > root@.len());
    assert(s@.skip(base.len() as int) =~= rel);
    assert(t@.len() > root@.len());
    assert(t@[root@.len() as int] == more[0]);
    if base.is_prefix_of(t@) {
        assert(base[root@.len() as int] == t@[root@.len() as int]);
    }
}

proof fn lemma_down(root: Seq<char>, steps: Seq<Seq<char>>, n: int)
    requires
        0 <= n <= steps.len(),
        root.len() > 0,
        root.last() != '/',
        forall|i: int|
            0 <= i < steps.len() ==> (#[trigger] steps[i]).len() > 0 && !steps[i].contains('/'),
    ensures
        path_down(root, steps, n) == join(seq![root] + steps.take(n), seq!['/']),
        path_down(root, steps, n).len() > 0,
        path_down(root, steps, n).last() != '/',
    decreases n,
{
    if n == 0 {
        assert(seq![root] + steps.take(0) =~= seq![root]);
    } else {
        lemma_down(root, steps, n - 1);
        let step = steps[n - 1];
        assert(step.len() > 0 && !step.contains('/'));
        assert(step[0] != '/' && step[step.len() - 1] != '/');
        let all = seq![root] + steps.take(n);
        assert(all.drop_last() =~= seq![root] + steps.take(n - 1));
        assert(all.last() == step);
        assert(path_down(root, steps, n).last() == step.last());
    }
}

/// A walk down a tree starts at its root and goes by the names of the path, one at
/// a time; a path with a `..` is refused, and named.
pub proof fn lemma_walk_starts(
    root: &str,
    rel: &str,
    r: Result<WriteWalk, PathRefusal>,
    x: Option<String>,
)
    requires
        call_ensures(WriteWalk::start, (root, rel), r),
        r matches Ok(w) ==> call_ensures(WriteWalk::next, (&w,), x),
        root@.len() > 0,
        root@.last() != '/',
        rel@.len() > 0,
        rel@[0] != '/',
    ensures
        r is Ok <==> !crate::path::steps_up(rel@),
        r matches Ok(w) ==> w@.root == root@ && w@.steps == names(rel@) && w@.at == 0,
        r is Ok && names(rel@).len() > 0 ==> (x matches Some(p) && p@ == root@ + seq!['/'] + names(
            rel@,
        )[0]),
        r is Ok && names(rel@).len() == 0 ==> x is None,
        r matches Err(e) ==> (e matches PathRefusal::UnsafeComponent { destination } && destination@
            == rel@),
{
    assert(crate::text::trim_start_char(rel@, '/') == rel@);
    if r is Ok && names(rel@).len() > 0 {
        lemma_names_plain(rel@, 0);
        let w = r->Ok_0;
        reveal_with_fuel(path_down, 2);
        let n = names(rel@)[0];
        assert(n[0] != '/');
    }
}

proof fn lemma_names_plain(s: Seq<char>, i: int)
    requires
        0 <= i < names(s).len(),
    ensures
        names(s)[i].len() > 0,
        !names(s)[i].contains('/'),
        names(s)[i] != seq!['.'],
        names(s)[i][0] != '/',
{
    lemma_name(s, i);
    let n = names(s)[i];
    assert(n[0] != '/') by {
        if n[0] == '/' {
            assert(n.contains('/'));
        }
    }
}

/// Behind all its steps a walk is at the root with the names of the path below it,
/// one slash between each two.
pub proof fn lemma_walk_arrives(w: &WriteWalk, r: String, rel: Seq<char>)
    requires
        call_ensures(WriteWalk::destination, (w,), r),
        w@.steps == names(rel),
        w@.at == w@.steps.len(),
        w@.root.len() > 0,
        w@.root.last() != '/',
    ensures
        r@ == join(seq![w@.root] + names(rel), seq!['/']),
{
    let steps = w@.steps;
    assert forall|i: int| 0 <= i < steps.len() implies (#[trigger] steps[i]).len() > 0
        && !steps[i].contains('/') by {
        lemma_names_plain(rel, i);
    }
    lemma_down(w@.root, steps, steps.len() as int);
    assert(steps.take(steps.len() as int) =~= steps);
}

/// On the way down a directory is entered, or made where nothing is there; a link
/// and anything else are refused.
pub proof fn lemma_way_down(found: Found, r: DirAction, leaf: bool)
    requires
        call_ensures(dir_action, (found,), r),
        call_ensures(unlinks_leaf, (found,), leaf),
    ensures
        found is Directory <==> r is Enter,
        found is Missing <==> r is Create,
        found is Symlink <==> r is RefuseSymlink,
        found is Other <==> r is RefuseNotADirectory,
        found is Unreadable <==> r is Fail,
        leaf <==> found is Symlink,
{
}

/// A tree is copied entry by entry: directories into, links as links, files as
/// files; a link that stands in the way is taken away first.
pub proof fn lemma_entries_copied(kind: EntryKind, there: Found, r: CopyAction)
    requires
        call_ensures(copy_action, (kind, there), r),
    ensures
        kind is Directory <==> r is Recurse,
        kind is Symlink <==> r is Link,
        kind is File <==> r is Copy,
        r matches CopyAction::Link { unlink } ==> unlink == (there is Symlink),
        r matches CopyAction::Copy { unlink } ==> unlink == (there is Symlink),
{
}

/// A move between devices is a copy; any other failure is a failure.
pub proof fn lemma_moved_by_copy(os_error: Option<i32>, r: bool)
    requires
        call_ensures(copies_instead, (os_error,), r),
    ensures
        r <==> os_error == Some(18i32),
{
}

/// What a mount left behind is removed, a directory with what is in it; what is not
/// there is passed over.
pub proof fn lemma_mount_scrubbed(found: Found, r: ScrubAction)
    requires
        call_ensures(scrub_action, (found,), r),
    ensures
        found is Directory <==> r is RemoveTree,
        found is Symlink || found is Other <==> r is RemoveFile,
        found is Missing || found is Unreadable <==> r is Skip,
{
}

/// What is left of a mount lies in the layer, under the names of its target; a
/// target with a `..` is passed over.
pub proof fn lemma_mount_place(upper: &str, target: &str, r: Option<String>)
    requires
        call_ensures(scrub_path, (upper, target), r),
        upper@.len() > 0,
        upper@.last() != '/',
    ensures
        r is None <==> crate::path::steps_up(target@),
        r matches Some(p) ==> p@ == join(seq![upper@] + names(target@), seq!['/']),
{
    let steps = names(target@);
    assert forall|i: int| 0 <= i < steps.len() implies (#[trigger] steps[i]).len() > 0
        && !steps[i].contains('/') by {
        lemma_names_plain(target@, i);
    }
    lemma_down(upper@, steps, steps.len() as int);
    assert(steps.take(steps.len() as int) =~= steps);
}

/// Directories are pruned upwards, below the layer's root only.
pub proof fn lemma_pruned_below(upper: &str, path: &str, r: Option<String>, up: Option<String>)
    requires
        call_ensures(prune_next, (upper, path), r),
        call_ensures(parent_of, (path,), up),
    ensures
        r matches Some(p) ==> (up matches Some(d) && d@ == p@) && is_within(p@, upper@)
            && !crate::path::same_path(p@, upper@),
        up matches Some(d) ==> (is_within(d@, upper@) && !crate::path::same_path(d@, upper@) ==> (
        r matches Some(p) && p@ == d@)),
{
}

/// A working directory that is absolute replaces the one before; a relative one is
/// below it.
pub proof fn lemma_workdir_resolved(current: &str, requested: &str, r: String)
    requires
        call_ensures(resolve_workdir, (current, requested), r),
    ensures
        requested@.len() > 0 && requested@[0] == '/' ==> r@ == requested@,
        requested@.len() > 0 && requested@[0] != '/' && current@ == seq!['/'] ==> r@ == seq!['/']
            + requested@,
        requested@.len() > 0 && requested@[0] != '/' && current@.len() > 0 && current@.last() != '/'
            ==> r@ == current@ + seq!['/'] + requested@,
{
    reveal_strlit("/");
    assert("/"@ =~= seq!['/']);
    reveal_with_fuel(crate::text::trim_end_char, 2);
    if current@ == seq!['/'] {
        assert(current@.drop_last() =~= Seq::empty());
        assert(Seq::<char>::empty() + "/"@ + requested@ =~= seq!['/'] + requested@);
    }
}

} // verus!
