//! What the archive of an initramfs holds makes one tree: no path stands in it
//! twice, and every entry follows the directory that it lies in.
use vstd::prelude::*;
use crate::fsutil::{lemma_name, lemma_path_down, path_down};
use crate::initrd::cpio_newc::EntryView;
use crate::initrd::modules::InitramfsFlavor;
use crate::initrd::{
    base_entries, chain_down, dir_entry, dirs_of, file_entry, initramfs_entries, is_new,
    module_entries, module_paths, modules_dir, needed_before, new_dirs, Busybox, ModuleFile,
};
use crate::path::{
    after_last_slash, components, has_idle_end, is_name, join_path, lemma_parent_of_name, names,
    parent, tidy_end,
};
use crate::text::{join, lemma_split_join, lemma_split_nonempty, split};

verus! {

/// Is the path made of names alone: relative, without doubled slashes, without a
/// slash at its end, without `.`?
pub open spec fn is_plain_path(s: Seq<char>) -> bool {
    forall|i: int| 0 <= i < split(s, '/').len() ==> is_name(#[trigger] split(s, '/')[i])
}

/// Can the paths be those of the files of one directory: is each plain, and does
/// none lie at or below another?
pub open spec fn are_files(paths: Seq<Seq<char>>) -> bool {
    &&& forall|i: int| 0 <= i < paths.len() ==> is_plain_path(#[trigger] paths[i])
    &&& forall|i: int, j: int|
        0 <= i < paths.len() && 0 <= j < paths.len() && i != j ==> !names(
            #[trigger] paths[i],
        ).is_prefix_of(names(#[trigger] paths[j]))
}

/// Is there a directory entry at `path`?
pub open spec fn has_dir(entries: Seq<EntryView>, path: Seq<char>) -> bool {
    exists|j: int|
        0 <= j < entries.len() && (#[trigger] entries[j]).path == path
            && entries[j].kind is Directory
}

/// Does `path` stand at the top, or in a directory that is among the entries?
pub open spec fn has_place(entries: Seq<EntryView>, path: Seq<char>) -> bool {
    parent(path) matches Some(up) && (up.len() == 0 || has_dir(entries, up))
}

/// Is `path` that of none of the entries?
pub open spec fn is_free(entries: Seq<EntryView>, path: Seq<char>) -> bool {
    forall|j: int| 0 <= j < entries.len() ==> (#[trigger] entries[j]).path != path
}

/// Do the entries make a tree: is the path of each free among those before it,
/// and does the directory that it lies in stand before it?
pub open spec fn is_tree(entries: Seq<EntryView>) -> bool {
    forall|i: int|
        0 <= i < entries.len() ==> is_free(#[trigger] entries.take(i), entries[i].path)
            && has_place(entries.take(i), entries[i].path)
}

proof fn lemma_tree_push(entries: Seq<EntryView>, e: EntryView)
    requires
        is_tree(entries),
        is_free(entries, e.path),
        has_place(entries, e.path),
    ensures
        is_tree(entries.push(e)),
{
    let all = entries.push(e);
    assert forall|i: int| 0 <= i < all.len() implies is_free(#[trigger] all.take(i), all[i].path)
        && has_place(all.take(i), all[i].path) by {
        if i < entries.len() {
            assert(all.take(i) =~= entries.take(i));
        } else {
            assert(all.take(i) =~= entries);
        }
    }
}

proof fn lemma_has_dir_push(entries: Seq<EntryView>, e: EntryView, path: Seq<char>)
    requires
        has_dir(entries, path) || e == dir_entry(path),
    ensures
        has_dir(entries.push(e), path),
{
    let all = entries.push(e);
    if has_dir(entries, path) {
        let j = choose|j: int|
            0 <= j < entries.len() && (#[trigger] entries[j]).path == path
                && entries[j].kind is Directory;
        assert(all[j] == entries[j]);
    } else {
        assert(all[entries.len() as int] == e);
    }
}

/// A name by itself stands at the top.
proof fn lemma_top(name: Seq<char>)
    requires
        is_name(name),
        !name.contains('/'),
    ensures
        parent(name) == Some(Seq::<char>::empty()),
{
    lemma_parent_of_name(Seq::empty(), name);
    assert(join_path(Seq::empty(), name) =~= name) by {
        if name[0] == '/' {
            assert(name.contains(name[0]));
        }
    }
}

/// The names of a plain path are its segments.
proof fn lemma_plain_names(s: Seq<char>)
    requires
        is_plain_path(s),
    ensures
        names(s) == split(s, '/'),
        names(s).len() > 0,
{
    lemma_split_nonempty(s, '/');
    lemma_all_kept(split(s, '/'));
}

proof fn lemma_all_kept(parts: Seq<Seq<char>>)
    requires
        forall|i: int| 0 <= i < parts.len() ==> is_name(#[trigger] parts[i]),
    ensures
        parts.filter(|p: Seq<char>| is_name(p)) == parts,
    decreases parts.len(),
{
    reveal(Seq::filter);
    if parts.len() > 0 {
        let front = parts.drop_last();
        assert forall|i: int| 0 <= i < front.len() implies is_name(#[trigger] front[i]) by {
            assert(front[i] == parts[i]);
        }
        lemma_all_kept(front);
        assert(is_name(parts[parts.len() - 1]));
        assert(front.push(parts.last()) =~= parts);
    }
}

/// The text of the path that goes down by the first `n` names.
proof fn lemma_down_text(dir: Seq<char>, s: Seq<char>, n: int)
    requires
        dir.len() > 1,
        !has_idle_end(dir),
        0 < n <= names(s).len(),
    ensures
        path_down(dir, names(s), n) == dir + seq!['/'] + join(names(s).take(n), seq!['/']),
    decreases n,
{
    let all = names(s);
    let part = all.take(n);
    lemma_path_down(dir, s, n - 1);
    lemma_name(s, n - 1);
    let name = all[n - 1];
    if name[0] == '/' {
        assert(name.contains(name[0]));
    }
    let above = path_down(dir, all, n - 1);
    if n > 1 {
        lemma_down_text(dir, s, n - 1);
        assert(above.len() > 1);
        assert(part.drop_last() =~= all.take(n - 1));
        assert(part.last() == name);
        let text = join(all.take(n - 1), seq!['/']);
        assert(dir + seq!['/'] + text + seq!['/'] + name =~= dir + seq!['/'] + (text + seq!['/']
            + name));
    } else {
        assert(part[0] == name);
    }
    assert(above.last() != '/');
}

/// A plain path below a directory goes down by its names.
proof fn lemma_join_down(dir: Seq<char>, s: Seq<char>)
    requires
        dir.len() > 1,
        !has_idle_end(dir),
        is_plain_path(s),
    ensures
        join_path(dir, s) == path_down(dir, names(s), names(s).len() as int),
{
    let all = names(s);
    lemma_plain_names(s);
    lemma_down_text(dir, s, all.len() as int);
    assert(all.take(all.len() as int) =~= all);
    lemma_split_join(s, '/');
    if s.len() > 0 && s[0] == '/' {
        let rest = s.drop_first();
        assert(s =~= Seq::<char>::empty() + seq!['/'] + rest);
        crate::path::lemma_split_concat(Seq::empty(), rest);
        assert(split(s, '/')[0] == split(Seq::<char>::empty(), '/')[0]);
        assert(split(Seq::<char>::empty(), '/') =~= seq![Seq::<char>::empty()]);
        assert(is_name(split(s, '/')[0]));
    }
    assert(dir.last() != '/');
}

/// The directories between a directory and a path that goes down from it.
proof fn lemma_chain(dir: Seq<char>, s: Seq<char>, n: int)
    requires
        dir.len() > 1,
        !has_idle_end(dir),
        0 <= n <= names(s).len(),
    ensures
        chain_down(path_down(dir, names(s), n), dir) == Seq::new(
            n as nat,
            |k: int| path_down(dir, names(s), k + 1),
        ),
    decreases n,
{
    let all = names(s);
    let down = Seq::new(n as nat, |k: int| path_down(dir, all, k + 1));
    lemma_path_down(dir, s, n);
    if n == 0 {
        assert(chain_down(dir, dir) =~= down);
    } else {
        lemma_chain(dir, s, n - 1);
        assert(components(path_down(dir, all, n)).len() == components(dir).len() + n);
        assert(chain_down(path_down(dir, all, n), dir) =~= down);
    }
}

/// The directories that a plain module path needs go down to it by its names.
proof fn lemma_dirs(dir: Seq<char>, s: Seq<char>)
    requires
        dir.len() > 1,
        !has_idle_end(dir),
        is_plain_path(s),
    ensures
        dirs_of(dir, s) == Seq::new(
            (names(s).len() - 1) as nat,
            |k: int| path_down(dir, names(s), k + 1),
        ),
{
    let n = names(s).len() as int;
    lemma_plain_names(s);
    lemma_join_down(dir, s);
    lemma_path_down(dir, s, n);
    lemma_chain(dir, s, n - 1);
    assert(components(path_down(dir, names(s), n)).len() == components(dir).len() + n);
}

/// Paths that go down from one directory are the same only by the same names.
proof fn lemma_down_same(dir: Seq<char>, s: Seq<char>, m: int, t: Seq<char>, n: int)
    requires
        dir.len() > 0,
        0 <= m <= names(s).len(),
        0 <= n <= names(t).len(),
        path_down(dir, names(s), m) == path_down(dir, names(t), n),
    ensures
        m == n,
        names(s).take(m) == names(t).take(n),
{
    lemma_path_down(dir, s, m);
    lemma_path_down(dir, t, n);
    let top = components(dir);
    let a = top + names(s).take(m);
    let b = top + names(t).take(n);
    assert(a == b);
    assert(a.skip(top.len() as int) =~= names(s).take(m));
    assert(b.skip(top.len() as int) =~= names(t).take(n));
}

/// The entries that every initramfs starts with make a tree.
#[verifier::rlimit(60)]
proof fn lemma_base_tree(busybox: Busybox)
    ensures
        is_tree(base_entries(busybox)),
        forall|i: int|
            0 <= i < base_entries(busybox).len() ==> (#[trigger] base_entries(
                busybox,
            )[i]).path.len() <= 12 || base_entries(busybox)[i].path[0] == 'b',
        is_free(base_entries(busybox), "init"@),
        has_dir(base_entries(busybox), "lib/modules"@),
{
    reveal_strlit(".");
    reveal_strlit("bin");
    reveal_strlit("sbin");
    reveal_strlit("dev");
    reveal_strlit("proc");
    reveal_strlit("sys");
    reveal_strlit("sysroot");
    reveal_strlit("lib");
    reveal_strlit("lib/modules");
    reveal_strlit("bin/busybox");
    reveal_strlit("bin/sh");
    reveal_strlit("bin/mount");
    reveal_strlit("bin/umount");
    reveal_strlit("bin/modprobe");
    reveal_strlit("bin/insmod");
    reveal_strlit("bin/switch_root");
    reveal_strlit("init");
    let all = base_entries(busybox);
    assert(all[8].path == "lib/modules"@);
    assert forall|i: int| 0 <= i < all.len() implies is_free(#[trigger] all.take(i), all[i].path) by {
        assert forall|j: int| 0 <= j < i implies (#[trigger] all.take(i)[j]).path != all[i].path by {
            assert(all.take(i)[j] == all[j]);
            assert(all[j].path.len() != all[i].path.len() || all[j].path[0] != all[i].path[0]
                || all[j].path[4] != all[i].path[4]);
        }
    }
    assert forall|j: int| 0 <= j < all.len() implies (#[trigger] all[j]).path != "init"@ by {
        assert(all[j].path.len() != 4 || all[j].path[0] != 'i');
    }
    lemma_base_places(busybox);
}

/// Every entry that an initramfs starts with lies at the top or in a directory
/// that stands before it.
proof fn lemma_base_places(busybox: Busybox)
    ensures
        forall|i: int|
            0 <= i < base_entries(busybox).len() ==> has_place(
                #[trigger] base_entries(busybox).take(i),
                base_entries(busybox)[i].path,
            ),
{
    let all = base_entries(busybox);
    lemma_base_top();
    lemma_base_below();
    assert forall|i: int| 0 <= i < all.len() implies has_place(
        #[trigger] all.take(i),
        all[i].path,
    ) by {
        if i == 8 {
            assert(all.take(i)[7] == dir_entry("lib"@));
        } else if i > 8 {
            assert(all.take(i)[1] == dir_entry("bin"@));
        }
    }
}

proof fn lemma_base_top()
    ensures
        parent("."@) == Some(Seq::<char>::empty()),
        parent("bin"@) == Some(Seq::<char>::empty()),
        parent("sbin"@) == Some(Seq::<char>::empty()),
        parent("dev"@) == Some(Seq::<char>::empty()),
        parent("proc"@) == Some(Seq::<char>::empty()),
        parent("sys"@) == Some(Seq::<char>::empty()),
        parent("sysroot"@) == Some(Seq::<char>::empty()),
        parent("lib"@) == Some(Seq::<char>::empty()),
        parent("init"@) == Some(Seq::<char>::empty()),
{
    reveal_strlit(".");
    reveal_strlit("bin");
    reveal_strlit("sbin");
    reveal_strlit("dev");
    reveal_strlit("proc");
    reveal_strlit("sys");
    reveal_strlit("sysroot");
    reveal_strlit("lib");
    reveal_strlit("init");
    lemma_top("bin"@);
    lemma_top("sbin"@);
    lemma_top("dev"@);
    lemma_top("proc"@);
    lemma_top("sys"@);
    lemma_top("sysroot"@);
    lemma_top("lib"@);
    lemma_top("init"@);
    let here = "."@;
    assert(here.drop_last() =~= Seq::empty());
    assert(after_last_slash(here.drop_last()) == 0);
    assert(after_last_slash(here) == 0);
    assert(tidy_end(here) == here);
    assert(here.take(0) =~= Seq::empty());
    assert(tidy_end(Seq::<char>::empty()) == Seq::<char>::empty());
    assert(here[0] != '/');
}

proof fn lemma_base_below()
    ensures
        parent("lib/modules"@) == Some("lib"@),
        parent("bin/busybox"@) == Some("bin"@),
        parent("bin/sh"@) == Some("bin"@),
        parent("bin/mount"@) == Some("bin"@),
        parent("bin/umount"@) == Some("bin"@),
        parent("bin/modprobe"@) == Some("bin"@),
        parent("bin/insmod"@) == Some("bin"@),
        parent("bin/switch_root"@) == Some("bin"@),
{
    reveal_strlit("lib");
    reveal_strlit("bin");
    reveal_strlit("lib/modules");
    reveal_strlit("bin/busybox");
    reveal_strlit("bin/sh");
    reveal_strlit("bin/mount");
    reveal_strlit("bin/umount");
    reveal_strlit("bin/modprobe");
    reveal_strlit("bin/insmod");
    reveal_strlit("bin/switch_root");
    lemma_below("lib"@, "lib/modules"@);
    lemma_below("bin"@, "bin/busybox"@);
    lemma_below("bin"@, "bin/sh"@);
    lemma_below("bin"@, "bin/mount"@);
    lemma_below("bin"@, "bin/umount"@);
    lemma_below("bin"@, "bin/modprobe"@);
    lemma_below("bin"@, "bin/insmod"@);
    lemma_below("bin"@, "bin/switch_root"@);
}

/// What stands behind a directory of three characters and a slash lies in it.
proof fn lemma_below(dir: Seq<char>, path: Seq<char>)
    requires
        dir.len() == 3,
        dir[1] != '/',
        dir[2] != '/',
        dir[2] != '.',
        path.len() > 4,
        path[0] == dir[0],
        path[1] == dir[1],
        path[2] == dir[2],
        path[3] == '/',
        path[4] != '.',
        forall|i: int| 4 <= i < path.len() ==> path[i] != '/',
    ensures
        parent(path) == Some(dir),
{
    let name = path.skip(4);
    assert(name[0] == path[4]);
    if name.contains('/') {
        let i = name.index_of('/');
        assert(path[4 + i] == '/');
    }
    lemma_parent_of_name(dir, name);
    assert(join_path(dir, name) =~= path);
}


/// Is `path` one that the first `n` module files, or the first `m` names of the
/// next one, lead to?
spec fn is_led_to(
    dir: Seq<char>,
    paths: Seq<Seq<char>>,
    n: int,
    m: int,
    path: Seq<char>,
) -> bool {
    ||| exists|j: int, k: int|
        0 <= j < n && 0 < k <= names(paths[j]).len() && path == #[trigger] path_down(
            dir,
            names(paths[j]),
            k,
        )
    ||| exists|k: int| 0 < k <= m && path == #[trigger] path_down(dir, names(paths[n]), k)
}

/// The entries with the first `n` module files and the directories by the first
/// `m` names of the next one: they make a tree behind `base`, hold nothing that
/// no module file leads to, and every directory on the way.
spec fn is_stage(
    entries: Seq<EntryView>,
    base: Seq<EntryView>,
    dir: Seq<char>,
    paths: Seq<Seq<char>>,
    n: int,
    m: int,
) -> bool {
    &&& is_tree(entries)
    &&& base.is_prefix_of(entries)
    &&& forall|i: int|
        base.len() <= i < entries.len() ==> is_led_to(
            dir,
            paths,
            n,
            m,
            (#[trigger] entries[i]).path,
        )
    &&& forall|j: int, k: int|
        0 <= j < n && 0 < k < names(paths[j]).len() ==> has_dir(
            entries,
            #[trigger] path_down(dir, names(paths[j]), k),
        )
    &&& forall|k: int|
        0 < k <= m ==> has_dir(entries, #[trigger] path_down(dir, names(paths[n]), k))
}

/// Is `dir` a directory at the end of the entries, and is nothing else at or below
/// it?
spec fn is_base(base: Seq<EntryView>, dir: Seq<char>) -> bool {
    &&& dir.len() > 1
    &&& !has_idle_end(dir)
    &&& has_dir(base, dir)
    &&& forall|p: Seq<char>|
        #![trigger is_free(base, p)]
        dir.is_prefix_of(p) && p.len() > dir.len() ==> is_free(base, p)
}

/// The place of what the next name of a module file leads to.
proof fn lemma_stage_place(
    entries: Seq<EntryView>,
    base: Seq<EntryView>,
    dir: Seq<char>,
    paths: Seq<Seq<char>>,
    n: int,
    m: int,
)
    requires
        is_base(base, dir),
        is_stage(entries, base, dir, paths, n, m),
        0 <= m < names(paths[n]).len(),
    ensures
        has_place(entries, path_down(dir, names(paths[n]), m + 1)),
{
    lemma_path_down(dir, paths[n], m + 1);
    if m == 0 {
        let j = choose|j: int|
            0 <= j < base.len() && (#[trigger] base[j]).path == dir && base[j].kind is Directory;
        assert(base == entries.subrange(0, base.len() as int));
        assert(entries[j] == base[j]);
        assert(has_dir(entries, dir));
    } else {
        assert(has_dir(entries, path_down(dir, names(paths[n]), m)));
    }
}

/// What the next name of a module file leads to is free, unless an earlier module
/// file has led there: as to a directory.
proof fn lemma_stage_free(
    entries: Seq<EntryView>,
    base: Seq<EntryView>,
    dir: Seq<char>,
    paths: Seq<Seq<char>>,
    n: int,
    m: int,
)
    requires
        is_base(base, dir),
        is_stage(entries, base, dir, paths, n, m),
        are_files(paths),
        0 <= n < paths.len(),
        0 <= m < names(paths[n]).len(),
        forall|j: int, k: int|
            0 <= j < n && 0 < k < names(paths[j]).len() ==> #[trigger] path_down(
                dir,
                names(paths[j]),
                k,
            ) != path_down(dir, names(paths[n]), m + 1),
    ensures
        is_free(entries, path_down(dir, names(paths[n]), m + 1)),
{
    let own = names(paths[n]);
    let path = path_down(dir, own, m + 1);
    lemma_path_down(dir, paths[n], m + 1);
    assert(is_free(base, path));
    assert forall|i: int| 0 <= i < entries.len() implies (#[trigger] entries[i]).path != path by {
        if i < base.len() {
            assert(base == entries.subrange(0, base.len() as int));
            assert(entries[i] == base[i]);
        } else if entries[i].path == path {
            assert(is_led_to(dir, paths, n, m, path));
            if exists|j: int, k: int|
                0 <= j < n && 0 < k <= names(paths[j]).len() && path == #[trigger] path_down(
                    dir,
                    names(paths[j]),
                    k,
                ) {
                let (j, k) = choose|j: int, k: int|
                    0 <= j < n && 0 < k <= names(paths[j]).len() && path == #[trigger] path_down(
                        dir,
                        names(paths[j]),
                        k,
                    );
                assert(k == names(paths[j]).len());
                lemma_down_same(dir, paths[n], m + 1, paths[j], k);
                assert(names(paths[j]).take(k) =~= names(paths[j]));
                assert(own.take(k) =~= own.subrange(0, k));
                assert(names(paths[j]).is_prefix_of(own));
            } else {
                let k = choose|k: int|
                    0 < k <= m && path == #[trigger] path_down(dir, names(paths[n]), k);
                lemma_down_same(dir, paths[n], m + 1, paths[n], k);
            }
        }
    }
}

/// Adding the directory that the next name leads to, or leaving it out where it is
/// there already.
proof fn lemma_stage_dir(
    entries: Seq<EntryView>,
    base: Seq<EntryView>,
    dir: Seq<char>,
    paths: Seq<Seq<char>>,
    n: int,
    m: int,
) -> (after: Seq<EntryView>)
    requires
        is_base(base, dir),
        is_stage(entries, base, dir, paths, n, m),
        are_files(paths),
        0 <= n < paths.len(),
        0 <= m < names(paths[n]).len() - 1,
    ensures
        is_stage(after, base, dir, paths, n, m + 1),
        ({
            let d = path_down(dir, names(paths[n]), m + 1);
            after == if is_new(dir, paths, n)(d) {
                entries.push(dir_entry(d))
            } else {
                entries
            }
        }),
{
    let own = names(paths[n]);
    let d = path_down(dir, own, m + 1);
    let e = dir_entry(d);
    lemma_path_down(dir, paths[n], m + 1);
    assert(d.len() > dir.len());
    if is_new(dir, paths, n)(d) {
        assert forall|j: int, k: int|
            0 <= j < n && 0 < k < names(paths[j]).len() implies #[trigger] path_down(
            dir,
            names(paths[j]),
            k,
        ) != d by {
            lemma_dirs(dir, paths[j]);
            let there = dirs_of(dir, paths[j]);
            assert(there[k - 1] == path_down(dir, names(paths[j]), k));
            if there[k - 1] == d {
                assert(there.contains(d));
                assert(needed_before(dir, paths, n, d));
            }
        }
        lemma_stage_free(entries, base, dir, paths, n, m);
        lemma_stage_place(entries, base, dir, paths, n, m);
        lemma_tree_push(entries, e);
        let after = entries.push(e);
        lemma_stage_grow(entries, base, dir, paths, n, m, e);
        after
    } else {
        let j = choose|j: int| 0 <= j < n && dirs_of(dir, #[trigger] paths[j]).contains(d);
        lemma_dirs(dir, paths[j]);
        let there = dirs_of(dir, paths[j]);
        let k = there.index_of(d);
        assert(there[k] == d);
        assert(has_dir(entries, path_down(dir, names(paths[j]), k + 1)));
        assert forall|i: int| base.len() <= i < entries.len() implies is_led_to(
            dir,
            paths,
            n,
            m + 1,
            (#[trigger] entries[i]).path,
        ) by {
            assert(is_led_to(dir, paths, n, m, entries[i].path));
        }
        entries
    }
}

/// A directory more keeps what is there.
proof fn lemma_stage_grow(
    entries: Seq<EntryView>,
    base: Seq<EntryView>,
    dir: Seq<char>,
    paths: Seq<Seq<char>>,
    n: int,
    m: int,
    e: EntryView,
)
    requires
        is_stage(entries, base, dir, paths, n, m),
        is_tree(entries.push(e)),
        0 <= m,
        e == dir_entry(path_down(dir, names(paths[n]), m + 1)),
    ensures
        is_stage(entries.push(e), base, dir, paths, n, m + 1),
{
    let after = entries.push(e);
    assert(base =~= after.subrange(0, base.len() as int)) by {
        assert(base == entries.subrange(0, base.len() as int));
    }
    assert forall|i: int| base.len() <= i < after.len() implies is_led_to(
        dir,
        paths,
        n,
        m + 1,
        (#[trigger] after[i]).path,
    ) by {
        if i < entries.len() {
            assert(is_led_to(dir, paths, n, m, entries[i].path));
        } else {
            assert(after[i].path == path_down(dir, names(paths[n]), m + 1));
        }
    }
    assert forall|j: int, k: int| 0 <= j < n && 0 < k < names(paths[j]).len() implies has_dir(
        after,
        #[trigger] path_down(dir, names(paths[j]), k),
    ) by {
        lemma_has_dir_push(entries, e, path_down(dir, names(paths[j]), k));
    }
    assert forall|k: int| 0 < k <= m + 1 implies has_dir(
        after,
        #[trigger] path_down(dir, names(paths[n]), k),
    ) by {
        lemma_has_dir_push(entries, e, path_down(dir, names(paths[n]), k));
    }
}

/// Adding the module file behind its directories.
proof fn lemma_stage_file(
    entries: Seq<EntryView>,
    base: Seq<EntryView>,
    dir: Seq<char>,
    paths: Seq<Seq<char>>,
    n: int,
    e: EntryView,
)
    requires
        is_base(base, dir),
        are_files(paths),
        0 <= n < paths.len(),
        is_stage(entries, base, dir, paths, n, names(paths[n]).len() - 1),
        e.path == join_path(dir, paths[n]),
    ensures
        is_stage(entries.push(e), base, dir, paths, n + 1, 0),
{
    let own = names(paths[n]);
    let m = own.len() - 1;
    lemma_plain_names(paths[n]);
    lemma_join_down(dir, paths[n]);
    assert forall|j: int, k: int|
        0 <= j < n && 0 < k < names(paths[j]).len() implies #[trigger] path_down(
        dir,
        names(paths[j]),
        k,
    ) != path_down(dir, own, m + 1) by {
        let there = names(paths[j]);
        if path_down(dir, there, k) == path_down(dir, own, m + 1) {
            lemma_down_same(dir, paths[n], m + 1, paths[j], k);
            assert(own.take(m + 1) =~= own);
            assert(there.take(k) =~= there.subrange(0, k));
            assert(own.is_prefix_of(there));
        }
    }
    lemma_stage_free(entries, base, dir, paths, n, m);
    lemma_stage_place(entries, base, dir, paths, n, m);
    lemma_tree_push(entries, e);
    let after = entries.push(e);
    assert(base =~= after.subrange(0, base.len() as int)) by {
        assert(base == entries.subrange(0, base.len() as int));
    }
    assert forall|i: int| base.len() <= i < after.len() implies is_led_to(
        dir,
        paths,
        n + 1,
        0,
        (#[trigger] after[i]).path,
    ) by {
        if i < entries.len() {
            assert(is_led_to(dir, paths, n, m, entries[i].path));
        } else {
            assert(after[i].path == path_down(dir, names(paths[n]), m + 1));
        }
    }
    assert forall|j: int, k: int| 0 <= j < n + 1 && 0 < k < names(paths[j]).len() implies has_dir(
        after,
        #[trigger] path_down(dir, names(paths[j]), k),
    ) by {
        lemma_has_dir_push(entries, e, path_down(dir, names(paths[j]), k));
    }
}

/// The directories that a module file is the first to need, up to the first `m` of
/// its names.
proof fn lemma_stage_dirs(
    entries: Seq<EntryView>,
    base: Seq<EntryView>,
    dir: Seq<char>,
    paths: Seq<Seq<char>>,
    n: int,
    m: int,
)
    requires
        is_base(base, dir),
        are_files(paths),
        0 <= n < paths.len(),
        is_stage(entries, base, dir, paths, n, 0),
        0 <= m < names(paths[n]).len(),
    ensures
        is_stage(
            entries + dirs_of(dir, paths[n]).take(m).filter(is_new(dir, paths, n)).map_values(
                |d: Seq<char>| dir_entry(d),
            ),
            base,
            dir,
            paths,
            n,
            m,
        ),
    decreases m,
{
    let keep = is_new(dir, paths, n);
    let as_dir = |d: Seq<char>| dir_entry(d);
    let all = dirs_of(dir, paths[n]);
    lemma_dirs(dir, paths[n]);
    reveal(Seq::filter);
    if m == 0 {
        assert(all.take(0) =~= Seq::empty());
        assert(entries + all.take(0).filter(keep).map_values(as_dir) =~= entries);
    } else {
        lemma_stage_dirs(entries, base, dir, paths, n, m - 1);
        let kept = all.take(m - 1).filter(keep);
        let before = entries + kept.map_values(as_dir);
        let d = path_down(dir, names(paths[n]), m);
        let after = lemma_stage_dir(before, base, dir, paths, n, m - 1);
        assert(all[m - 1] == d);
        assert(all.take(m).drop_last() =~= all.take(m - 1));
        assert(all.take(m).last() == d);
        assert(kept.push(d).map_values(as_dir) =~= kept.map_values(as_dir).push(dir_entry(d)));
        assert(after =~= entries + all.take(m).filter(keep).map_values(as_dir));
    }
}

/// The module files behind the entries that an initramfs starts with.
proof fn lemma_modules_tree(
    base: Seq<EntryView>,
    dir: Seq<char>,
    modules: Seq<ModuleFile>,
    n: int,
)
    requires
        is_base(base, dir),
        is_tree(base),
        are_files(module_paths(modules)),
        0 <= n <= modules.len(),
    ensures
        is_stage(
            base + module_entries(dir, modules, n),
            base,
            dir,
            module_paths(modules),
            n,
            0,
        ),
    decreases n,
{
    let paths = module_paths(modules);
    if n == 0 {
        assert(base + module_entries(dir, modules, 0) =~= base);
        assert(base =~= base.subrange(0, base.len() as int));
    } else {
        lemma_modules_tree(base, dir, modules, n - 1);
        let entries = base + module_entries(dir, modules, n - 1);
        let m = names(paths[n - 1]).len() - 1;
        let all = dirs_of(dir, paths[n - 1]);
        lemma_plain_names(paths[n - 1]);
        lemma_dirs(dir, paths[n - 1]);
        lemma_stage_dirs(entries, base, dir, paths, n - 1, m);
        assert(all.take(m) =~= all);
        let dirs = new_dirs(dir, paths, n - 1).map_values(|d: Seq<char>| dir_entry(d));
        let e = file_entry(
            join_path(dir, modules[n - 1].path@),
            modules[n - 1].bytes@,
            0o644,
        );
        lemma_stage_file(entries + dirs, base, dir, paths, n - 1, e);
        assert((entries + dirs).push(e) =~= base + module_entries(dir, modules, n));
    }
}

/// The archive of an initramfs holds a tree: no path stands in it twice, and
/// every entry stands behind the directory that it lies in. The release is one
/// name, and the modules are files of one directory.
pub proof fn lemma_initramfs_tree(
    busybox: Busybox,
    release: Seq<char>,
    modules: Seq<ModuleFile>,
    flavor: InitramfsFlavor,
)
    requires
        is_name(release),
        !release.contains('/'),
        are_files(module_paths(modules)),
    ensures
        is_tree(initramfs_entries(busybox, release, modules, flavor)),
{
    let dir = modules_dir(release);
    let start = base_entries(busybox);
    let base = start.push(dir_entry(dir));
    reveal_strlit("lib/modules");
    reveal_strlit("init");
    lemma_base_tree(busybox);
    lemma_base_top();
    lemma_parent_of_name("lib/modules"@, release);
    assert forall|p: Seq<char>|
        "lib/modules"@.is_prefix_of(p) && p.len() > 12 implies #[trigger] is_free(start, p) by {
        assert("lib/modules"@ == p.subrange(0, 11));
        assert("lib/modules"@[0] == p[0]);
    }
    assert("lib/modules"@.is_prefix_of(dir)) by {
        assert("lib/modules"@ =~= dir.subrange(0, 11));
    }
    assert(dir.len() > 12);
    lemma_tree_push(start, dir_entry(dir));
    assert(is_base(base, dir)) by {
        lemma_has_dir_push(start, dir_entry(dir), dir);
        assert forall|p: Seq<char>|
            #![trigger is_free(base, p)]
            dir.is_prefix_of(p) && p.len() > dir.len() implies is_free(base, p) by {
            assert("lib/modules"@ =~= p.subrange(0, 11)) by {
                assert(dir == p.subrange(0, dir.len() as int));
                assert("lib/modules"@ == dir.subrange(0, 11));
                assert forall|i: int| 0 <= i < 11 implies "lib/modules"@[i] == p[i] by {
                    assert(dir[i] == p[i]);
                    assert("lib/modules"@[i] == dir[i]);
                }
            }
            assert(is_free(start, p));
        }
    }
    lemma_modules_tree(base, dir, modules, modules.len() as int);
    let paths = module_paths(modules);
    let entries = base + module_entries(dir, modules, modules.len() as int);
    let script = initramfs_entries(busybox, release, modules, flavor).last();
    assert(is_free(entries, "init"@)) by {
        assert forall|i: int| 0 <= i < entries.len() implies (#[trigger] entries[i]).path
            != "init"@ by {
            if i < start.len() {
                assert(entries[i] == start[i]);
            } else if i >= base.len() {
                lemma_led_long(dir, paths, modules.len() as int, entries[i].path);
            }
        }
    }
    lemma_tree_push(entries, script);
    assert(initramfs_entries(busybox, release, modules, flavor) =~= entries.push(script));
}

proof fn lemma_led_long(dir: Seq<char>, paths: Seq<Seq<char>>, n: int, path: Seq<char>)
    requires
        dir.len() > 0,
        is_led_to(dir, paths, n, 0, path),
    ensures
        path.len() > dir.len(),
{
    let (j, k) = choose|j: int, k: int|
        0 <= j < n && 0 < k <= names(paths[j]).len() && path == #[trigger] path_down(
            dir,
            names(paths[j]),
            k,
        );
    lemma_path_down(dir, paths[j], k);
}

} // verus!
