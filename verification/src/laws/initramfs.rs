//! The initramfs: the modules that it carries, the init script that loads them,
//! and the archive that holds both.
use vstd::prelude::*;
use vstd::utf8::encode_utf8;
use crate::initrd::cpio_newc::{archive, EntryView, KindView};
use crate::initrd::modules::{
    allowlist, carried, collect_modules_for, depends, dep_text, is_carried, is_listed,
    is_module_file, lemma_line, lemma_listed_carried, lemma_need_carried, line_depends,
    module_files, module_name, reached, stem, InitramfsFlavor,
};
use crate::initrd::scripts::{
    build_boot_init_script, build_run_init_script, embedded_path, module_list, module_loads,
    BOOT_INIT_HEAD, BOOT_INIT_TAIL, MOUNT_TAG_STAGING, RUN_INIT_HEAD, RUN_INIT_MOUNT, RUN_INIT_TAIL,
};
use crate::initrd::{
    base_entries, file_entry, generate_initramfs_with_flavor, init_script, initramfs_archive,
    initramfs_entries, module_entries, module_paths, modules_dir, Busybox, InitrdError,
    InitrdReport, ModuleFile,
};
use crate::order::{lemma_path_order, path_le, path_lt};
use crate::path::join_path;
use crate::text::{
    contains_text, lemma_split_nonempty, lines, replace_char, split, split_once_spec, terminated,
    texts, words,
};
use super::aid::{
    lemma_occurs, lemma_occurs_within, lemma_split_at, lemma_split_whole, lemma_terminated_occurs,
    lemma_word, lemma_words_at,
};

verus! {

/// The path below the root under which an initramfs has a file of the module tree
/// of the kernel `release`.
pub open spec fn carried_path(release: Seq<char>, module: Seq<char>) -> Seq<char> {
    "/lib/modules/"@ + release + seq!['/'] + module
}

/// Is the release the name of a directory, and the module a path below it?
pub open spec fn is_module_of(release: Seq<char>, module: Seq<char>) -> bool {
    &&& release.len() > 0
    &&& release[0] != '/'
    &&& release.last() != '/'
    &&& module.len() > 0
    &&& module[0] != '/'
}

proof fn lemma_embedded(release: Seq<char>, module: Seq<char>)
    requires
        is_module_of(release, module),
    ensures
        embedded_path(release, module) == carried_path(release, module),
{
    reveal_strlit("/lib/modules");
    reveal_strlit("/lib/modules/");
    let dir = join_path("/lib/modules"@, release);
    assert(dir =~= "/lib/modules/"@ + release);
    assert(dir.last() == release.last());
}

proof fn lemma_list_text(release: Seq<char>, modules: Seq<Seq<char>>)
    requires
        forall|i: int| 0 <= i < modules.len() ==> is_module_of(release, #[trigger] modules[i]),
    ensures
        module_list(release, modules) == terminated(
            Seq::new(modules.len(), |i: int| carried_path(release, modules[i])),
            " \\\n"@,
        ),
    decreases modules.len(),
{
    let all = Seq::new(modules.len(), |i: int| carried_path(release, modules[i]));
    if modules.len() > 0 {
        let front = modules.drop_last();
        assert forall|i: int| 0 <= i < front.len() implies is_module_of(
            release,
            #[trigger] front[i],
        ) by {
            assert(front[i] == modules[i]);
        }
        lemma_list_text(release, front);
        assert(all.drop_last() =~= Seq::new(
            front.len(),
            |i: int| carried_path(release, front[i]),
        ));
        assert(is_module_of(release, modules[modules.len() - 1]));
        lemma_embedded(release, modules.last());
    }
}

/// The boot script lists every module that it is given, by the path under which
/// the initramfs has it, one on a line and in order, and no other: it is the script
/// without modules with that list put in at one place.
pub proof fn lemma_boot_script_lists(
    release: &str,
    modules: &Vec<String>,
    r: String,
    none: &Vec<String>,
    bare: String,
)
    requires
        call_ensures(build_boot_init_script, (release, modules), r),
        call_ensures(build_boot_init_script, (release, none), bare),
        none@.len() == 0,
        forall|i: int|
            0 <= i < modules@.len() ==> is_module_of(release@, (#[trigger] modules@[i])@),
    ensures
        exists|before: Seq<char>, after: Seq<char>|
            bare@ == #[trigger] (before + after) && r@ == before + terminated(
                Seq::new(modules@.len(), |i: int| carried_path(release@, modules@[i]@)),
                " \\\n"@,
            ) + after,
        forall|i: int|
            0 <= i < modules@.len() ==> contains_text(
                r@,
                "/lib/modules/"@ + release@ + seq!['/'] + (#[trigger] modules@[i])@ + " "@,
            ),
{
    let all = texts(modules@);
    let paths = Seq::new(modules@.len(), |i: int| carried_path(release@, modules@[i]@));
    assert forall|i: int| 0 <= i < all.len() implies is_module_of(release@, #[trigger] all[i]) by {
        assert(is_module_of(release@, modules@[i]@));
    }
    lemma_list_text(release@, all);
    assert(Seq::new(all.len(), |i: int| carried_path(release@, all[i])) =~= paths);
    assert(texts(none@) =~= Seq::empty());
    let before = BOOT_INIT_HEAD@;
    let after = BOOT_INIT_TAIL@;
    let list = terminated(paths, " \\\n"@);
    assert(bare@ =~= before + after);
    assert(r@ == before + list + after);
    reveal_strlit(" ");
    reveal_strlit(" \\\n");
    assert forall|i: int| 0 <= i < modules@.len() implies contains_text(
        r@,
        "/lib/modules/"@ + release@ + seq!['/'] + (#[trigger] modules@[i])@ + " "@,
    ) by {
        let t = carried_path(release@, modules@[i]@);
        assert(paths[i] == t);
        lemma_terminated_occurs(paths, " \\\n"@, i);
        lemma_occurs_within(before, list, after, t + " \\\n"@);
        let rest = seq!['\\', '\n'];
        assert(t + " \\\n"@ =~= t + " "@ + rest);
        lemma_part_occurs(r@, t + " "@, rest);
    }
}

proof fn lemma_part_occurs(s: Seq<char>, t: Seq<char>, rest: Seq<char>)
    requires
        contains_text(s, t + rest),
    ensures
        contains_text(s, t),
{
    let i = choose|i: int| #[trigger] crate::text::occurs_at(s, t + rest, i);
    assert(s.subrange(i, i + t.len()) =~= (t + rest).subrange(0, t.len() as int));
    assert((t + rest).subrange(0, t.len() as int) =~= t);
    assert(crate::text::occurs_at(s, t, i));
}

proof fn lemma_loads_text(release: Seq<char>, modules: Seq<Seq<char>>)
    requires
        forall|i: int| 0 <= i < modules.len() ==> is_module_of(release, #[trigger] modules[i]),
    ensures
        module_loads(release, modules) == terminated(
            Seq::new(modules.len(), |i: int| "insmod "@ + carried_path(release, modules[i])),
            " 2>/dev/null || true\n"@,
        ),
    decreases modules.len(),
{
    let all = Seq::new(modules.len(), |i: int| "insmod "@ + carried_path(release, modules[i]));
    let end = " 2>/dev/null || true\n"@;
    if modules.len() > 0 {
        let front = modules.drop_last();
        assert forall|i: int| 0 <= i < front.len() implies is_module_of(
            release,
            #[trigger] front[i],
        ) by {
            assert(front[i] == modules[i]);
        }
        lemma_loads_text(release, front);
        assert(all.drop_last() =~= Seq::new(
            front.len(),
            |i: int| "insmod "@ + carried_path(release, front[i]),
        ));
        assert(is_module_of(release, modules[modules.len() - 1]));
        lemma_embedded(release, modules.last());
        let before = module_loads(release, front);
        let p = carried_path(release, modules.last());
        assert(before + "insmod "@ + p + end =~= before + ("insmod "@ + p) + end);
    }
}

/// The run script loads every module that it is given, by the path under which the
/// initramfs has it, one on a line and in order, and no other. It mounts the tree
/// that the host shares under the tag `umfstage`.
pub proof fn lemma_run_script_loads(
    release: &str,
    modules: &Vec<String>,
    r: String,
    none: &Vec<String>,
    bare: String,
)
    requires
        call_ensures(build_run_init_script, (release, modules), r),
        call_ensures(build_run_init_script, (release, none), bare),
        none@.len() == 0,
        forall|i: int|
            0 <= i < modules@.len() ==> is_module_of(release@, (#[trigger] modules@[i])@),
    ensures
        exists|before: Seq<char>, after: Seq<char>|
            bare@ == #[trigger] (before + after) && r@ == before + terminated(
                Seq::new(
                    modules@.len(),
                    |i: int| "insmod "@ + carried_path(release@, modules@[i]@),
                ),
                " 2>/dev/null || true\n"@,
            ) + after,
        forall|i: int|
            0 <= i < modules@.len() ==> contains_text(
                r@,
                "insmod "@ + ("/lib/modules/"@ + release@ + seq!['/'] + (#[trigger] modules@[i])@)
                    + " "@,
            ),
        contains_text(r@, "umfstage"@),
{
    let all = texts(modules@);
    let loads = Seq::new(
        modules@.len(),
        |i: int| "insmod "@ + carried_path(release@, modules@[i]@),
    );
    assert forall|i: int| 0 <= i < all.len() implies is_module_of(release@, #[trigger] all[i]) by {
        assert(is_module_of(release@, modules@[i]@));
    }
    lemma_loads_text(release@, all);
    assert(Seq::new(all.len(), |i: int| "insmod "@ + carried_path(release@, all[i])) =~= loads);
    assert(texts(none@) =~= Seq::empty());
    let before = RUN_INIT_HEAD@;
    let after = RUN_INIT_MOUNT@ + MOUNT_TAG_STAGING@ + RUN_INIT_TAIL@;
    let end = " 2>/dev/null || true\n"@;
    let list = terminated(loads, end);
    assert(bare@ =~= before + after);
    assert(r@ =~= before + list + after);
    lemma_occurs(before + list + RUN_INIT_MOUNT@, "umfstage"@, RUN_INIT_TAIL@);
    assert(r@ =~= before + list + RUN_INIT_MOUNT@ + "umfstage"@ + RUN_INIT_TAIL@);
    reveal_strlit(" ");
    reveal_strlit(" 2>/dev/null || true\n");
    assert forall|i: int| 0 <= i < modules@.len() implies contains_text(
        r@,
        "insmod "@ + ("/lib/modules/"@ + release@ + seq!['/'] + (#[trigger] modules@[i])@) + " "@,
    ) by {
        let t = "insmod "@ + carried_path(release@, modules@[i]@);
        assert(loads[i] == t);
        lemma_terminated_occurs(loads, end, i);
        lemma_occurs_within(before, list, after, t + end);
        let rest = end.skip(1);
        assert(t + end =~= t + " "@ + rest);
        lemma_part_occurs(r@, t + " "@, rest);
    }
}

/// Does the archive hold a file at the path, with these bytes and this mode, owned
/// by root?
pub open spec fn holds_file(
    entries: Seq<EntryView>,
    path: Seq<char>,
    bytes: Seq<u8>,
    mode: u32,
) -> bool {
    exists|i: int|
        0 <= i < entries.len() && #[trigger] entries[i] == (EntryView {
            path,
            kind: KindView::File(bytes),
            mode,
            uid: 0,
            gid: 0,
            mtime: 0,
        })
}

/// Does the archive hold a link at the path to the target?
pub open spec fn holds_link(entries: Seq<EntryView>, path: Seq<char>, target: Seq<char>) -> bool {
    exists|i: int|
        0 <= i < entries.len() && (#[trigger] entries[i]).path == path && entries[i].kind
            == KindView::Symlink(target)
}

/// Does the archive hold a directory at the path that everybody can enter?
pub open spec fn holds_directory(entries: Seq<EntryView>, path: Seq<char>) -> bool {
    exists|i: int|
        0 <= i < entries.len() && (#[trigger] entries[i]).path == path && entries[i].kind
            == KindView::Directory && entries[i].mode == 0o755
}

proof fn lemma_module_held(dir: Seq<char>, modules: Seq<ModuleFile>, n: int, i: int)
    requires
        0 <= i < n <= modules.len(),
    ensures
        module_entries(dir, modules, n).contains(
            file_entry(join_path(dir, modules[i].path@), modules[i].bytes@, 0o644),
        ),
    decreases n,
{
    let e = file_entry(join_path(dir, modules[i].path@), modules[i].bytes@, 0o644);
    let all = module_entries(dir, modules, n);
    if i == n - 1 {
        assert(all[all.len() - 1] == e);
    } else {
        lemma_module_held(dir, modules, n - 1, i);
        let before = module_entries(dir, modules, n - 1);
        let k = before.index_of(e);
        assert(before[k] == e);
        assert(all[k] == e);
    }
}

/// An initramfs holds what its init script needs: busybox under the names that the
/// script calls it by, the directories that it mounts on, the init script itself,
/// which can be executed, and every module file with its bytes, at the place where
/// the script looks for it.
#[verifier::rlimit(40)]
pub proof fn lemma_archive_holds(
    busybox: &Busybox,
    release: &str,
    modules: &Vec<ModuleFile>,
    flavor: InitramfsFlavor,
    r: Vec<u8>,
    paths: &Vec<String>,
    boot: String,
    run: String,
)
    requires
        call_ensures(initramfs_archive, (busybox, release, modules, flavor), r),
        call_ensures(build_boot_init_script, (release, paths), boot),
        call_ensures(build_run_init_script, (release, paths), run),
        paths@.len() == modules@.len(),
        forall|i: int|
            0 <= i < paths@.len() ==> (#[trigger] paths@[i])@ == modules@[i].path@ && is_module_of(
                release@,
                paths@[i]@,
            ),
    ensures
        exists|e: Seq<EntryView>|
            {
                &&& r@ == #[trigger] archive(e)
                &&& holds_file(e, "bin/busybox"@, busybox.bytes@, busybox.mode % 0o10000)
                &&& holds_link(e, "bin/sh"@, "busybox"@)
                &&& holds_link(e, "bin/mount"@, "busybox"@)
                &&& holds_link(e, "bin/umount"@, "busybox"@)
                &&& holds_link(e, "bin/insmod"@, "busybox"@)
                &&& holds_link(e, "bin/modprobe"@, "busybox"@)
                &&& holds_link(e, "bin/switch_root"@, "busybox"@)
                &&& holds_directory(e, "proc"@)
                &&& holds_directory(e, "sys"@)
                &&& holds_directory(e, "dev"@)
                &&& holds_directory(e, "sysroot"@)
                &&& flavor == InitramfsFlavor::Boot ==> holds_file(
                    e,
                    "init"@,
                    encode_utf8(boot@),
                    0o755,
                )
                &&& flavor == InitramfsFlavor::Run ==> holds_file(
                    e,
                    "init"@,
                    encode_utf8(run@),
                    0o755,
                )
                &&& forall|i: int|
                    0 <= i < modules@.len() ==> holds_file(
                        e,
                        "lib/modules/"@ + release@ + seq!['/'] + (#[trigger] modules@[i]).path@,
                        modules@[i].bytes@,
                        0o644,
                    )
            },
{
    let e = initramfs_entries(*busybox, release@, modules@, flavor);
    let base = base_entries(*busybox);
    let dir = modules_dir(release@);
    let files = module_entries(dir, modules@, modules@.len() as int);
    assert forall|k: int| 0 <= k < base.len() implies e[k] == #[trigger] base[k] by {}
    assert(e[9] == base[9]);
    assert(e[10] == base[10]);
    assert(e[11] == base[11]);
    assert(e[12] == base[12]);
    assert(e[13] == base[13]);
    assert(e[14] == base[14]);
    assert(e[15] == base[15]);
    assert(e[3] == base[3]);
    assert(e[4] == base[4]);
    assert(e[5] == base[5]);
    assert(e[6] == base[6]);
    assert(module_paths(modules@) =~= texts(paths@)) by {
        assert forall|i: int| 0 <= i < paths@.len() implies module_paths(modules@)[i] == texts(
            paths@,
        )[i] by {
            assert(paths@[i]@ == modules@[i].path@);
        }
    }
    let last = e.len() - 1;
    assert(e[last] == file_entry(
        "init"@,
        encode_utf8(init_script(flavor, release@, module_paths(modules@))),
        0o755,
    ));
    assert forall|i: int| 0 <= i < modules@.len() implies holds_file(
        e,
        "lib/modules/"@ + release@ + seq!['/'] + (#[trigger] modules@[i]).path@,
        modules@[i].bytes@,
        0o644,
    ) by {
        assert(is_module_of(release@, paths@[i]@));
        reveal_strlit("lib/modules");
        reveal_strlit("lib/modules/");
        assert(dir =~= "lib/modules/"@ + release@);
        assert(dir.last() == release@.last());
        lemma_module_held(dir, modules@, modules@.len() as int, i);
        let f = file_entry(join_path(dir, modules@[i].path@), modules@[i].bytes@, 0o644);
        let k = files.index_of(f);
        assert(files[k] == f);
        assert(e[base.len() + 1 + k] == f);
    }
    assert(r@ == archive(e));
}

/// An entry is written as what it is: a file with its bytes, a directory without
/// any, a link with its target; its mode has the type and the permission bits.
pub proof fn lemma_entry_written(e: EntryView)
    ensures
        e.node().name == encode_utf8(e.path),
        e.node().uid == e.uid && e.node().gid == e.gid && e.node().mtime == e.mtime,
        e.kind matches KindView::File(bytes) ==> e.node().data == bytes && e.node().mode == 0o100000
            + e.mode % 0o10000 && e.node().nlink == 1,
        e.kind is Directory ==> e.node().data.len() == 0 && e.node().mode == 0o040000 + e.mode
            % 0o10000 && e.node().nlink == 2,
        e.kind matches KindView::Symlink(target) ==> e.node().data == encode_utf8(target)
            && e.node().mode == 0o120000 + e.mode % 0o10000 && e.node().nlink == 1,
{
}

/// An initramfs is named by its kernel, and made only where there is a busybox to
/// put into it.
pub proof fn lemma_initramfs_report(
    staging: &str,
    busybox: Option<&Busybox>,
    release: &str,
    modules: &Vec<ModuleFile>,
    flavor: InitramfsFlavor,
    r: Result<(Vec<u8>, InitrdReport), InitrdError>,
    cpio: Vec<u8>,
)
    requires
        call_ensures(
            generate_initramfs_with_flavor,
            (staging, busybox, release, modules, flavor),
            r,
        ),
        busybox matches Some(b) ==> call_ensures(
            initramfs_archive,
            (b, release, modules, flavor),
            cpio,
        ),
        staging@.len() > 0,
        staging@.last() != '/',
    ensures
        busybox is None ==> (r matches Err(InitrdError::MissingBusybox(path)) && path@ == staging@
            + "/bin/busybox"@),
        busybox is Some && r is Err ==> (r matches Err(InitrdError::Io(_))),
        r matches Ok(x) ==> x.1.filename@ == "initramfs-"@ + release@ + ".img"@
            && x.1.modules_count == modules@.len() && x.1.compressed_size_bytes == x.0@.len()
            && x.1.cpio_size_bytes == cpio@.len() && crate::initrd::gzip_best(cpio@) == Some(x.0@),
{
    reveal_strlit("bin");
    reveal_strlit("busybox");
    reveal_strlit("/bin/busybox");
    let bin = staging@ + seq!['/'] + "bin"@;
    assert(bin.last() == 'n');
    assert(bin + seq!['/'] + "busybox"@ =~= staging@ + "/bin/busybox"@);
}

proof fn lemma_suffix(a: Seq<char>, b: Seq<char>)
    ensures
        b.is_suffix_of(a + b),
        (a + b).take(a.len() as int) == a,
{
    assert(b =~= (a + b).subrange(a.len() as int, (a + b).len() as int));
    assert((a + b).take(a.len() as int) =~= a);
}

proof fn lemma_not_suffix(s: Seq<char>, t: Seq<char>, k: int)
    requires
        0 < k <= t.len(),
        k <= s.len(),
        s[s.len() - k] != t[t.len() - k],
    ensures
        !t.is_suffix_of(s),
{
    if t.is_suffix_of(s) {
        assert(t == s.subrange(s.len() - t.len(), s.len() as int));
        assert(t[t.len() - k] == s.subrange(s.len() - t.len(), s.len() as int)[t.len() - k]);
    }
}

/// Can the text follow the name of a module in the name of its file?
pub open spec fn is_module_suffix(t: Seq<char>) -> bool {
    t == ".ko"@ || t == ".ko.gz"@ || t == ".ko.xz"@ || t == ".ko.zst"@
}

proof fn lemma_stem(name: Seq<char>, suffix: Seq<char>)
    requires
        is_module_suffix(suffix),
    ensures
        stem(name + suffix) == name,
        is_module_file(name + suffix),
{
    reveal_strlit(".ko");
    reveal_strlit(".ko.gz");
    reveal_strlit(".ko.xz");
    reveal_strlit(".ko.zst");
    let s = name + suffix;
    lemma_suffix(name, suffix);
    assert(s[s.len() - 1] == suffix[suffix.len() - 1]);
    assert(s[s.len() - 2] == suffix[suffix.len() - 2]);
    if suffix == ".ko.xz"@ {
        lemma_not_suffix(s, ".ko.zst"@, 1);
    } else if suffix == ".ko.gz"@ {
        lemma_not_suffix(s, ".ko.zst"@, 1);
        lemma_not_suffix(s, ".ko.xz"@, 2);
    } else if suffix == ".ko"@ {
        lemma_not_suffix(s, ".ko.zst"@, 1);
        lemma_not_suffix(s, ".ko.xz"@, 1);
        lemma_not_suffix(s, ".ko.gz"@, 1);
    }
}

/// Is `file` a file of the module `name`: the name, with `-` or `_`, and a suffix,
/// in some directory of the tree?
pub open spec fn is_file_of(
    file: Seq<char>,
    dir: Seq<char>,
    written: Seq<char>,
    suffix: Seq<char>,
    name: Seq<char>,
) -> bool {
    &&& file == dir + seq!['/'] + (written + suffix)
    &&& is_module_suffix(suffix)
    &&& written.len() == name.len()
    &&& !written.contains('/')
    &&& forall|i: int|
        0 <= i < name.len() ==> #[trigger] name[i] == if written[i] == '-' {
            '_'
        } else {
            written[i]
        }
}

proof fn lemma_underscores(s: Seq<char>, name: Seq<char>)
    requires
        s.len() == name.len(),
        forall|i: int|
            0 <= i < name.len() ==> #[trigger] name[i] == if s[i] == '-' {
                '_'
            } else {
                s[i]
            },
    ensures
        replace_char(s, '-', "_"@) == name,
    decreases s.len(),
{
    reveal_strlit("_");
    assert("_"@ =~= seq!['_']);
    if s.len() > 0 {
        let t = s.drop_last();
        let m = name.drop_last();
        assert forall|i: int| 0 <= i < m.len() implies #[trigger] m[i] == (if t[i] == '-' {
            '_'
        } else {
            t[i]
        }) by {
            assert(m[i] == name[i]);
        }
        lemma_underscores(t, m);
        assert(name[name.len() - 1] == if s.last() == '-' {
            '_'
        } else {
            s.last()
        });
        assert(replace_char(s, '-', "_"@) =~= name);
    } else {
        assert(name =~= s);
    }
}

proof fn lemma_module_name(
    file: Seq<char>,
    dir: Seq<char>,
    written: Seq<char>,
    suffix: Seq<char>,
    name: Seq<char>,
)
    requires
        is_file_of(file, dir, written, suffix, name),
    ensures
        module_name(file) == name,
        is_module_file(file),
{
    reveal(module_name);
    reveal_strlit(".ko");
    reveal_strlit(".ko.gz");
    reveal_strlit(".ko.xz");
    reveal_strlit(".ko.zst");
    let leaf = written + suffix;
    assert(!leaf.contains('/')) by {
        if leaf.contains('/') {
            let i = leaf.index_of('/');
            assert(leaf[i] == '/');
            if i < written.len() {
                assert(written.contains(written[i]));
            } else {
                assert(suffix[i - written.len()] == '/');
            }
        }
    }
    lemma_split_at(dir, leaf, '/');
    lemma_split_whole(leaf, '/');
    lemma_split_nonempty(dir, '/');
    assert(split(file, '/').last() == leaf);
    lemma_stem(written, suffix);
    lemma_underscores(written, name);
    lemma_stem(dir + seq!['/'] + written, suffix);
    assert(file =~= dir + seq!['/'] + written + suffix);
}

/// The drivers without which a disk of one of the usual kinds, or the root
/// filesystem on it, could not be read at boot.
pub open spec fn boot_drivers() -> Seq<Seq<char>> {
    seq![
        "virtio"@,
        "virtio_ring"@,
        "virtio_pci"@,
        "virtio_blk"@,
        "virtio_scsi"@,
        "nvme"@,
        "nvme_core"@,
        "ahci"@,
        "libahci"@,
        "libata"@,
        "scsi_mod"@,
        "sd_mod"@,
        "mmc_block"@,
        "sdhci"@,
        "xhci_hcd"@,
        "xhci_pci"@,
        "usb_storage"@,
        "squashfs"@,
        "ext4"@,
        "erofs"@,
    ]
}

/// The drivers without which a guest could not mount the tree that the host shares
/// with it, or reach the network.
pub open spec fn guest_drivers() -> Seq<Seq<char>> {
    seq![
        "virtio"@,
        "virtio_ring"@,
        "virtio_pci"@,
        "9p"@,
        "9pnet"@,
        "9pnet_virtio"@,
        "virtio_net"@,
    ]
}

proof fn lemma_drivers_listed(name: Seq<char>)
    ensures
        boot_drivers().contains(name) ==> allowlist(InitramfsFlavor::Boot).contains(name),
        guest_drivers().contains(name) ==> allowlist(InitramfsFlavor::Run).contains(name),
{
    let b = allowlist(InitramfsFlavor::Boot);
    let g = allowlist(InitramfsFlavor::Run);
    if boot_drivers().contains(name) {
        let d = boot_drivers();
        let i = d.index_of(name);
        assert(d[i] == name);
        assert(b[0] == d[0] && b[1] == d[1] && b[2] == d[2] && b[4] == d[3] && b[5] == d[4]);
        assert(b[7] == d[5] && b[6] == d[6] && b[10] == d[7] && b[9] == d[8] && b[8] == d[9]);
        assert(b[13] == d[10] && b[14] == d[11] && b[16] == d[12] && b[17] == d[13]);
        assert(b[24] == d[14] && b[25] == d[15] && b[26] == d[16]);
        assert(b[27] == d[17] && b[28] == d[18] && b[29] == d[19]);
    }
    if guest_drivers().contains(name) {
        let d = guest_drivers();
        let i = d.index_of(name);
        assert(d[i] == name);
        assert(g[0] == d[0] && g[1] == d[1] && g[2] == d[2] && g[6] == d[3] && g[7] == d[4]);
        assert(g[8] == d[5] && g[9] == d[6]);
    }
}

proof fn lemma_carried_items(files: Seq<Seq<char>>, dep: Seq<char>, flavor: InitramfsFlavor)
    ensures
        forall|f: Seq<char>| #[trigger]
            carried(module_files(files), dep, flavor).contains(f) <==> files.contains(f)
                && is_module_file(f) && is_carried(module_files(files), dep, flavor, f),
{
    broadcast use vstd::seq_lib::group_to_multiset_ensures;

    let mods = module_files(files);
    let keep = |f: Seq<char>| is_carried(mods, dep, flavor, f);
    let good = |f: Seq<char>| is_module_file(f);
    let kept = mods.filter(keep);
    let sorted = carried(mods, dep, flavor);
    lemma_path_order();
    kept.lemma_sort_by_ensures(path_le());
    assert forall|f: Seq<char>| #[trigger] sorted.contains(f) <==> files.contains(f)
        && is_module_file(f) && is_carried(mods, dep, flavor, f) by {
        assert(sorted.contains(f) == (sorted.to_multiset().count(f) > 0));
        assert(kept.contains(f) == (kept.to_multiset().count(f) > 0));
        if kept.contains(f) {
            let i = kept.index_of(f);
            mods.lemma_filter_pred(keep, i);
            mods.lemma_filter_contains_rev(keep, f);
            let j = mods.index_of(f);
            files.lemma_filter_pred(good, j);
            files.lemma_filter_contains_rev(good, f);
        }
        if files.contains(f) && is_module_file(f) && is_carried(mods, dep, flavor, f) {
            let i = files.index_of(f);
            files.lemma_filter_contains(good, i);
            let j = mods.index_of(f);
            mods.lemma_filter_contains(keep, j);
        }
    }
}

/// The drivers for the root disk are carried, whatever the suffix of their files,
/// and whether their names are written with `-` or `_`; a guest gets those for the
/// shared tree.
pub proof fn lemma_drivers_carried(
    files: &Vec<String>,
    dep: Option<&str>,
    flavor: InitramfsFlavor,
    r: Vec<String>,
    i: int,
    dir: Seq<char>,
    written: Seq<char>,
    suffix: Seq<char>,
    name: Seq<char>,
)
    requires
        call_ensures(collect_modules_for, (files, dep, flavor), r),
        0 <= i < files@.len(),
        is_file_of(files@[i]@, dir, written, suffix, name),
        flavor == InitramfsFlavor::Boot ==> boot_drivers().contains(name),
        flavor == InitramfsFlavor::Run ==> guest_drivers().contains(name),
    ensures
        texts(r@).contains(files@[i]@),
{
    let all = texts(files@);
    lemma_module_name(files@[i]@, dir, written, suffix, name);
    lemma_drivers_listed(name);
    assert(all[i] == files@[i]@);
    lemma_listed_carried(module_files(all), dep_text(dep), flavor, files@[i]@);
    lemma_carried_items(all, dep_text(dep), flavor);
}

/// Only module files of the tree are carried, in the order of their paths; without
/// `modules.dep` only those that are asked for by name.
pub proof fn lemma_nothing_else_carried(
    files: &Vec<String>,
    dep: Option<&str>,
    flavor: InitramfsFlavor,
    r: Vec<String>,
)
    requires
        call_ensures(collect_modules_for, (files, dep, flavor), r),
    ensures
        forall|k: int|
            0 <= k < r@.len() ==> texts(files@).contains((#[trigger] r@[k])@) && (
            ".ko"@.is_suffix_of(r@[k]@) || ".ko.gz"@.is_suffix_of(r@[k]@) || ".ko.xz"@.is_suffix_of(
                r@[k]@,
            ) || ".ko.zst"@.is_suffix_of(r@[k]@)),
        forall|j: int, k: int|
            0 <= j < k < r@.len() ==> !path_lt((#[trigger] r@[k])@, (#[trigger] r@[j])@),
        dep is None ==> forall|k: int|
            0 <= k < r@.len() ==> allowlist(flavor).contains(
                module_name((#[trigger] r@[k])@),
            ),
{
    let all = texts(files@);
    let mods = module_files(all);
    lemma_carried_items(all, dep_text(dep), flavor);
    let sorted = carried(mods, dep_text(dep), flavor);
    assert forall|k: int| 0 <= k < r@.len() implies texts(files@).contains((#[trigger] r@[k])@)
        && is_module_file(r@[k]@) && is_carried(mods, dep_text(dep), flavor, r@[k]@) by {
        assert(texts(r@)[k] == r@[k]@);
        assert(sorted.contains(r@[k]@));
    }
    lemma_path_order();
    mods.filter(|f: Seq<char>| is_carried(mods, dep_text(dep), flavor, f)).lemma_sort_by_ensures(
        path_le(),
    );
    assert forall|j: int, k: int| 0 <= j < k < r@.len() implies !path_lt(
        (#[trigger] r@[k])@,
        (#[trigger] r@[j])@,
    ) by {
        assert(texts(r@)[k] == r@[k]@);
        assert(texts(r@)[j] == r@[j]@);
        let le = path_le();
        assert(le(sorted[j], sorted[k]));
        if path_lt(r@[k]@, r@[j]@) && path_lt(r@[j]@, r@[k]@) {
            assert(path_lt(r@[j]@, r@[j]@));
        }
    }
    if dep is None {
        assert forall|k: int| 0 <= k < r@.len() implies allowlist(flavor).contains(
            module_name((#[trigger] r@[k])@),
        ) by {
            let f = r@[k]@;
            let n = choose|n: nat| reached(mods, dep_text(dep), flavor, f, n);
            lemma_no_dependencies(mods, flavor, f, n);
        }
    }
}

proof fn lemma_no_dependencies(
    files: Seq<Seq<char>>,
    flavor: InitramfsFlavor,
    f: Seq<char>,
    n: nat,
)
    requires
        reached(files, Seq::empty(), flavor, f, n),
    ensures
        is_listed(flavor, f),
{
    let none = Seq::<char>::empty();
    assert(split(none, '\n') =~= seq![none]);
    assert(lines(none).len() == 0);
}

/// The carried modules are in the order of their paths.
pub proof fn lemma_carried_in_order(
    files: &Vec<String>,
    dep: Option<&str>,
    flavor: InitramfsFlavor,
    r: Vec<String>,
    i: int,
    j: int,
    a: &str,
    b: &str,
    before: bool,
)
    requires
        call_ensures(collect_modules_for, (files, dep, flavor), r),
        0 <= i < j < r@.len(),
        a@ == r@[i]@,
        b@ == r@[j]@,
        call_ensures(crate::order::path_before, (b, a), before),
    ensures
        !before,
{
    let mods = module_files(texts(files@));
    let text = crate::initrd::modules::dep_text(dep);
    let kept = mods.filter(
        |f: Seq<char>| crate::initrd::modules::is_carried(mods, text, flavor, f),
    );
    assert(texts(r@).len() == r@.len());
    assert(texts(r@)[i] == a@ && texts(r@)[j] == b@);
    super::texts::lemma_in_path_order(kept, i, j);
}

/// A carried module brings what `modules.dep` says that it needs: a line of it is
/// the module's file, a colon, and the files that it needs.
#[verifier::rlimit(40)]
pub proof fn lemma_needs_carried(
    files: &Vec<String>,
    dep: &str,
    flavor: InitramfsFlavor,
    r: Vec<String>,
    g: int,
    f: int,
    above: Seq<char>,
    before: Seq<char>,
    after: Seq<char>,
    below: Seq<char>,
)
    requires
        call_ensures(collect_modules_for, (files, Some(dep), flavor), r),
        0 <= g < files@.len(),
        0 <= f < files@.len(),
        texts(r@).contains(files@[g]@),
        ".ko"@.is_suffix_of(files@[f]@) || ".ko.gz"@.is_suffix_of(files@[f]@)
            || ".ko.xz"@.is_suffix_of(files@[f]@) || ".ko.zst"@.is_suffix_of(files@[f]@),
        !files@[g]@.contains(':') && !files@[g]@.contains('\n'),
        files@[f]@.len() > 0,
        forall|i: int|
            0 <= i < files@[f]@.len() ==> !crate::text::is_space(#[trigger] files@[f]@[i]),
        above.len() == 0 || above.last() == '\n',
        !before.contains('\n') && !after.contains('\n') && !files@[f]@.contains('\n'),
        dep@ == above + (files@[g]@ + seq![':'] + before + seq![' '] + files@[f]@ + seq![' ']
            + after) + seq!['\n'] + below,
        after.len() == 0 || after.last() != '\r',
    ensures
        texts(r@).contains(files@[f]@),
{
    let all = texts(files@);
    let mods = module_files(all);
    let a = files@[g]@;
    let b = files@[f]@;
    let line = a + seq![':'] + before + seq![' '] + b + seq![' '] + after;
    lemma_carried_items(all, dep@, flavor);
    assert(all[g] == a && all[f] == b);
    lemma_one_line(a, before, b, after);
    lemma_line_listed(above, line, below);
    let k = lines(dep@).index_of(line);
    assert(lines(dep@)[k] == line);
    lemma_line_says(a, before, b, after);
    assert(depends(dep@, module_name(a), module_name(b)));
    let good = |x: Seq<char>| is_module_file(x);
    all.lemma_filter_contains(good, g);
    let m = mods.index_of(a);
    assert(mods[m] == a);
    lemma_need_carried(mods, dep@, flavor, m, b);
}

proof fn lemma_one_line(a: Seq<char>, before: Seq<char>, b: Seq<char>, after: Seq<char>)
    requires
        !a.contains('\n'),
        !before.contains('\n'),
        !b.contains('\n'),
        !after.contains('\n'),
    ensures
        !(a + seq![':'] + before + seq![' '] + b + seq![' '] + after).contains('\n'),
{
    let line = a + seq![':'] + before + seq![' '] + b + seq![' '] + after;
    if line.contains('\n') {
        let i = line.index_of('\n');
        assert(line[i] == '\n');
        let p = a.len() + 1;
        let q = p + before.len() + 1;
        if i < a.len() {
            assert(a.contains(a[i]));
        } else if p <= i < p + before.len() {
            assert(before.contains(before[i - p]));
        } else if q <= i < q + b.len() {
            assert(b.contains(b[i - q]));
        } else if i > q + b.len() {
            assert(after.contains(after[i - q - b.len() - 1]));
        }
    }
}

/// A line of `modules.dep` says that the first file needs each of the others.
proof fn lemma_line_says(a: Seq<char>, before: Seq<char>, b: Seq<char>, after: Seq<char>)
    requires
        !a.contains(':'),
        b.len() > 0,
        forall|i: int| 0 <= i < b.len() ==> !crate::text::is_space(#[trigger] b[i]),
    ensures
        line_depends(
            a + seq![':'] + before + seq![' '] + b + seq![' '] + after,
            module_name(a),
            module_name(b),
        ),
{
    let line = a + seq![':'] + before + seq![' '] + b + seq![' '] + after;
    let needs = before + seq![' '] + (b + seq![' '] + after);
    assert(line =~= a + seq![':'] + needs);
    lemma_cut_at_colon(a, needs);
    lemma_words_at(before, ' ', b + seq![' '] + after);
    lemma_words_at(b, ' ', after);
    lemma_word(b);
    let w = words(before).len() as int;
    assert(words(needs).len() > w);
    assert(words(needs)[w] == b);
    assert(split_once_spec(line, ":"@) == Some((a, needs)));
    let listed = Seq::new(words(needs).len(), |k: int| module_name(words(needs)[k]));
    assert(listed[w] == module_name(b));
    lemma_line(line, a, needs, listed);
}

proof fn lemma_cut_at_colon(a: Seq<char>, needs: Seq<char>)
    requires
        !a.contains(':'),
    ensures
        split_once_spec(a + seq![':'] + needs, ":"@) == Some((a, needs)),
{
    reveal_strlit(":");
    let c = ":"@;
    let line = a + seq![':'] + needs;
    assert(c =~= seq![':']);
    assert(crate::text::occurs_at(line, c, a.len() as int)) by {
        assert(line.subrange(a.len() as int, a.len() as int + 1) =~= c);
    }
    assert forall|j: int| 0 <= j < a.len() implies !crate::text::occurs_at(line, c, j) by {
        if crate::text::occurs_at(line, c, j) {
            assert(line.subrange(j, j + 1)[0] == ':');
            assert(a.contains(a[j]));
        }
    }
    let at = crate::text::first_occurrence(line, c);
    assert(crate::text::occurs_at(line, c, at));
    assert(at == a.len());
    assert(line.take(at) =~= a);
    assert(line.skip(at + 1) =~= needs);
}

proof fn lemma_line_listed(above: Seq<char>, line: Seq<char>, below: Seq<char>)
    requires
        above.len() == 0 || above.last() == '\n',
        !line.contains('\n'),
        line.len() > 0,
        line.last() != '\r',
    ensures
        lines(above + line + seq!['\n'] + below).contains(line),
{
    let s = above + line + seq!['\n'] + below;
    lemma_split_at(above + line, below, '\n');
    lemma_split_whole(line, '\n');
    lemma_split_nonempty(below, '\n');
    let parts = split(s, '\n');
    let k = split(above + line, '\n').len() - 1;
    if above.len() == 0 {
        assert(above + line =~= line);
    } else {
        let front = above.drop_last();
        assert(above + line =~= front + seq!['\n'] + line);
        lemma_split_at(front, line, '\n');
        lemma_split_nonempty(front, '\n');
    }
    assert(split(above + line, '\n')[k] == line);
    assert(parts[k] == line);
    assert(k < parts.len() - 1);
    let ls = lines(s);
    assert(ls[k] == line);
}

} // verus!
