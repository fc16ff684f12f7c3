//! The initramfs of a bootable image: a gzipped CPIO archive with busybox, the
//! kernel modules that the root filesystem needs, and an init script.
use vstd::prelude::*;
use vstd::utf8::encode_utf8;
use crate::path::{
    is_same_path, join_path, joined_path, lemma_parent_shorter, parent, parent_of, same_path,
};
use crate::text::texts;

pub mod cpio_newc;
pub mod modules;
pub mod scripts;
pub mod tree;

pub use crate::initrd::cpio_newc::{CpioEntry, CpioKind, CpioWriter};
pub use crate::initrd::modules::{collect_modules_for, InitramfsFlavor};

use crate::initrd::cpio_newc::{archive, EntryView, KindView};
use crate::initrd::scripts::{
    boot_init_script, build_boot_init_script, build_run_init_script, run_init_script,
};

verus! {

/// `std::io::Error`, carried as it is.
#[verifier::external_type_specification]
#[verifier::external_body]
pub struct ExIoError(std::io::Error);

/// Why no initramfs was made.
#[derive(Debug)]
pub enum InitrdError {
    /// The staging tree has no busybox at this path.
    MissingBusybox(String),
    /// An I/O error.
    Io(std::io::Error),
}

/// What a generated initramfs is like.
#[derive(Debug)]
pub struct InitrdReport {
    /// Its file name.
    pub filename: String,
    /// The size of the archive, in bytes.
    pub cpio_size_bytes: usize,
    /// The size of the archive compressed, in bytes.
    pub compressed_size_bytes: usize,
    /// How many modules it carries.
    pub modules_count: usize,
}

/// The busybox of the staging tree.
#[derive(Debug)]
pub struct Busybox {
    /// Its bytes.
    pub bytes: Vec<u8>,
    /// Its mode.
    pub mode: u32,
}

/// A module file.
#[derive(Debug)]
pub struct ModuleFile {
    /// Its path below the root of the module tree.
    pub path: String,
    /// Its bytes.
    pub bytes: Vec<u8>,
}

/// The paths of module files.
pub open spec fn module_paths(modules: Seq<ModuleFile>) -> Seq<Seq<char>> {
    Seq::new(modules.len(), |i: int| modules[i].path@)
}

/// A directory entry.
pub open spec fn dir_entry(path: Seq<char>) -> EntryView {
    EntryView { path, kind: KindView::Directory, mode: 0o755, uid: 0, gid: 0, mtime: 0 }
}

/// A file entry.
pub open spec fn file_entry(path: Seq<char>, bytes: Seq<u8>, mode: u32) -> EntryView {
    EntryView { path, kind: KindView::File(bytes), mode, uid: 0, gid: 0, mtime: 0 }
}

/// A link to busybox.
pub open spec fn applet_entry(path: Seq<char>) -> EntryView {
    EntryView { path, kind: KindView::Symlink("busybox"@), mode: 0o755, uid: 0, gid: 0, mtime: 0 }
}

/// The entries that every initramfs starts with.
pub open spec fn base_entries(busybox: Busybox) -> Seq<EntryView> {
    seq![
        dir_entry("."@),
        dir_entry("bin"@),
        dir_entry("sbin"@),
        dir_entry("dev"@),
        dir_entry("proc"@),
        dir_entry("sys"@),
        dir_entry("sysroot"@),
        dir_entry("lib"@),
        dir_entry("lib/modules"@),
        file_entry("bin/busybox"@, busybox.bytes@, busybox.mode % 0o10000),
        applet_entry("bin/sh"@),
        applet_entry("bin/mount"@),
        applet_entry("bin/umount"@),
        applet_entry("bin/modprobe"@),
        applet_entry("bin/insmod"@),
        applet_entry("bin/switch_root"@),
    ]
}

/// The directories from below `root` down to `path` itself, the outermost
/// first. Where `root` is none of them, those from the top down.
pub open spec fn chain_down(path: Seq<char>, root: Seq<char>) -> Seq<Seq<char>>
    decreases path.len(),
{
    if same_path(path, root) {
        Seq::empty()
    } else {
        proof {
            lemma_parent_shorter(path);
        }
        match parent(path) {
            None => seq![path],
            Some(up) => chain_down(up, root).push(path),
        }
    }
}

/// The directories that `path` lies in, from below `root` down: neither `root`
/// nor `path` itself, the outermost first.
pub open spec fn ancestors(path: Seq<char>, root: Seq<char>) -> Seq<Seq<char>> {
    match parent(path) {
        Some(up) if !same_path(path, root) => chain_down(up, root),
        _ => Seq::empty(),
    }
}

/// The directory of the modules in the archive.
pub open spec fn modules_dir(release: Seq<char>) -> Seq<char> {
    join_path("lib/modules"@, release)
}

/// The directories that a module file needs below the directory of the modules.
pub open spec fn dirs_of(dir: Seq<char>, module: Seq<char>) -> Seq<Seq<char>> {
    ancestors(join_path(dir, module), dir)
}

/// Does one of the first `n` module files need the directory `d`?
pub open spec fn needed_before(
    dir: Seq<char>,
    modules: Seq<Seq<char>>,
    n: int,
    d: Seq<char>,
) -> bool {
    exists|j: int| 0 <= j < n && dirs_of(dir, #[trigger] modules[j]).contains(d)
}

/// Is a directory neither that of the modules nor needed by one of the first
/// `n` module files?
pub open spec fn is_new(
    dir: Seq<char>,
    modules: Seq<Seq<char>>,
    n: int,
) -> spec_fn(Seq<char>) -> bool {
    |d: Seq<char>| d != dir && !needed_before(dir, modules, n, d)
}

/// The directories that the module file `n` needs and none before it did.
pub open spec fn new_dirs(dir: Seq<char>, modules: Seq<Seq<char>>, n: int) -> Seq<Seq<char>> {
    dirs_of(dir, modules[n]).filter(is_new(dir, modules, n))
}

/// The entries of the first `n` module files, each behind the directories that
/// it is the first to need.
pub open spec fn module_entries(dir: Seq<char>, modules: Seq<ModuleFile>, n: int) -> Seq<EntryView>
    decreases n,
{
    if n <= 0 {
        Seq::empty()
    } else {
        (module_entries(dir, modules, n - 1) + new_dirs(
            dir,
            module_paths(modules),
            n - 1,
        ).map_values(|d: Seq<char>| dir_entry(d))).push(
            file_entry(join_path(dir, modules[n - 1].path@), modules[n - 1].bytes@, 0o644),
        )
    }
}

/// The init script of the flavor.
pub open spec fn init_script(
    flavor: InitramfsFlavor,
    release: Seq<char>,
    modules: Seq<Seq<char>>,
) -> Seq<char> {
    match flavor {
        InitramfsFlavor::Boot => boot_init_script(release, modules),
        InitramfsFlavor::Run => run_init_script(release, modules),
    }
}

/// The entries of an initramfs.
pub open spec fn initramfs_entries(
    busybox: Busybox,
    release: Seq<char>,
    modules: Seq<ModuleFile>,
    flavor: InitramfsFlavor,
) -> Seq<EntryView> {
    (base_entries(busybox).push(dir_entry(modules_dir(release))) + module_entries(
        modules_dir(release),
        modules,
        modules.len() as int,
    )).push(
        file_entry(
            "init"@,
            encode_utf8(init_script(flavor, release, module_paths(modules))),
            0o755,
        ),
    )
}

/// A directory entry with the usual mode.
fn top_level_dir(name: &str) -> (r: CpioEntry)
    ensures
        r@ == dir_entry(name@),
{
    CpioEntry {
        path: String::from_str(name),
        kind: CpioKind::Directory,
        mode: 0o755,
        uid: 0,
        gid: 0,
        mtime: 0,
    }
}

/// A link to busybox.
fn applet(path: &str) -> (r: CpioEntry)
    ensures
        r@ == applet_entry(path@),
{
    CpioEntry {
        path: String::from_str(path),
        kind: CpioKind::Symlink(String::from_str("busybox")),
        mode: 0o755,
        uid: 0,
        gid: 0,
        mtime: 0,
    }
}

fn copy_bytes(bytes: &Vec<u8>) -> (r: Vec<u8>)
    ensures
        r@ == bytes@,
{
    vstd::slice::slice_to_vec(bytes.as_slice())
}

/// A file entry.
fn file(path: String, bytes: Vec<u8>, mode: u32) -> (r: CpioEntry)
    ensures
        r@ == file_entry(path@, bytes@, mode),
{
    CpioEntry { path, kind: CpioKind::File(bytes), mode, uid: 0, gid: 0, mtime: 0 }
}

/// The directories that `path` lies in, from below `root` down: neither `root`
/// nor `path` itself, the outermost first.
pub fn walk_ancestors(path: &str, root: &str) -> (r: Vec<String>)
    ensures
        texts(r@) == ancestors(path@, root@),
{
    match parent_of(path) {
        Some(up) if !is_same_path(path, root) => walk_down(up.as_str(), root),
        _ => {
            let none: Vec<String> = Vec::new();
            assert(texts(none@) =~= Seq::empty());
            none
        },
    }
}

/// The directories from below `root` down to `path` itself.
fn walk_down(path: &str, root: &str) -> (r: Vec<String>)
    ensures
        texts(r@) == chain_down(path@, root@),
    decreases path@.len(),
{
    if is_same_path(path, root) {
        let r: Vec<String> = Vec::new();
        assert(texts(r@) =~= Seq::empty());
        return r;
    }
    proof {
        lemma_parent_shorter(path@);
    }
    let mut r: Vec<String> = match parent_of(path) {
        Some(up) => walk_down(up.as_str(), root),
        None => {
            let none: Vec<String> = Vec::new();
            assert(texts(none@) =~= Seq::empty());
            none
        },
    };
    let ghost before = r@;
    let own = String::from_str(path);
    r.push(own);
    proof {
        crate::text::lemma_texts_push(before, own);
        if parent(path@) is None {
            assert(texts(r@) =~= seq![path@]);
        }
    }
    r
}

/// A directory stands below the ones before it, so none occurs twice.
proof fn lemma_chain_distinct(path: Seq<char>, root: Seq<char>)
    ensures
        chain_down(path, root).no_duplicates(),
        forall|i: int|
            0 <= i < chain_down(path, root).len() ==> (#[trigger] chain_down(path, root)[i]).len()
                <= path.len(),
    decreases path.len(),
{
    if !same_path(path, root) {
        lemma_parent_shorter(path);
        match parent(path) {
            None => {},
            Some(up) => {
                lemma_chain_distinct(up, root);
                let all = chain_down(path, root);
                let before = chain_down(up, root);
                assert forall|i: int, j: int|
                    0 <= i < all.len() && 0 <= j < all.len() && i != j implies all[i] != all[j] by {
                    if i < before.len() {
                        assert(before[i].len() <= up.len());
                    }
                    if j < before.len() {
                        assert(before[j].len() <= up.len());
                    }
                }
            },
        }
    }
}

/// No directory of a path occurs twice, and the path is none of them.
pub proof fn lemma_ancestors(path: Seq<char>, root: Seq<char>)
    ensures
        ancestors(path, root).no_duplicates(),
        !ancestors(path, root).contains(path),
{
    match parent(path) {
        Some(up) => {
            lemma_chain_distinct(up, root);
            lemma_parent_shorter(path);
        },
        None => {},
    }
}

fn contains_text(v: &Vec<String>, s: &String) -> (r: bool)
    ensures
        r == texts(v@).contains(s@),
{
    let mut i: usize = 0;
    while i < v.len()
        invariant
            i <= v@.len(),
            forall|j: int| 0 <= j < i ==> v@[j]@ != s@,
        decreases v.len() - i,
    {
        if v[i] == *s {
            assert(texts(v@)[i as int] == s@);
            return true;
        }
        i += 1;
    }
    proof {
        if texts(v@).contains(s@) {
            let k = texts(v@).index_of(s@);
            assert(v@[k]@ == s@);
        }
    }
    false
}

/// Adds the directories of `chain` that are not in `added`.
fn push_new_dirs(cpio: &mut CpioWriter, chain: &Vec<String>, added: &mut Vec<String>)
    requires
        texts(chain@).no_duplicates(),
    ensures
        final(cpio)@ == old(cpio)@ + texts(chain@).filter(
            |d: Seq<char>| !texts(old(added)@).contains(d),
        ).map_values(|d: Seq<char>| dir_entry(d)),
        forall|d: Seq<char>| #[trigger]
            texts(final(added)@).contains(d) == (texts(old(added)@).contains(d) || texts(
                chain@,
            ).contains(d)),
{
    let ghost all = texts(chain@);
    let ghost was = texts(added@);
    let ghost keep = |d: Seq<char>| !was.contains(d);
    let ghost as_dir = |d: Seq<char>| dir_entry(d);
    let mut k: usize = 0;
    proof {
        reveal(Seq::filter);
        assert(all.take(0) =~= Seq::empty());
        assert(cpio@ =~= old(cpio)@ + all.take(0).filter(keep).map_values(as_dir));
    }
    while k < chain.len()
        invariant
            k <= chain@.len(),
            all == texts(chain@),
            all.no_duplicates(),
            keep == (|d: Seq<char>| !was.contains(d)),
            as_dir == (|d: Seq<char>| dir_entry(d)),
            cpio@ == old(cpio)@ + all.take(k as int).filter(keep).map_values(as_dir),
            forall|d: Seq<char>| #[trigger]
                texts(added@).contains(d) == (was.contains(d) || all.take(k as int).contains(d)),
        decreases chain.len() - k,
    {
        let ghost d = all[k as int];
        let ghost before = added@;
        let ghost kept = all.take(k as int).filter(keep);
        assert(d == chain@[k as int]@);
        let present = contains_text(added, &chain[k]);
        proof {
            reveal(Seq::filter);
            assert(all.take(k as int + 1).drop_last() =~= all.take(k as int));
            assert(all.take(k as int + 1).last() == d);
            if all.take(k as int).contains(d) {
                let j = all.take(k as int).index_of(d);
                assert(all.take(k as int)[j] == d);
                assert(all[j] == d);
                assert(false);
            }
            assert(kept.push(d).map_values(as_dir) =~= kept.map_values(as_dir).push(dir_entry(d)));
        }
        if !present {
            cpio.push(top_level_dir(chain[k].as_str()));
            added.push(chain[k].clone());
            proof {
                crate::text::lemma_texts_push(before, added@.last());
                assert(cpio@ =~= old(cpio)@ + kept.push(d).map_values(as_dir));
            }
        }
        proof {
            assert forall|x: Seq<char>| #[trigger]
                texts(added@).contains(x) == (was.contains(x) || all.take(
                    k as int + 1,
                ).contains(x)) by {
                let t = all.take(k as int + 1);
                if t.contains(x) && x != d {
                    let j = t.index_of(x);
                    assert(t[j] == x);
                    assert(all.take(k as int)[j] == x);
                }
                if x == d {
                    assert(t[k as int] == d);
                    if !present {
                        assert(texts(added@)[before.len() as int] == d);
                    }
                }
                if all.take(k as int).contains(x) {
                    let j = all.take(k as int).index_of(x);
                    assert(all.take(k as int)[j] == x);
                    assert(t[j] == x);
                }
                if !present {
                    if texts(added@).contains(x) && x != d {
                        let j = texts(added@).index_of(x);
                        assert(texts(added@)[j] == x);
                        assert(texts(before)[j] == x);
                    }
                    if texts(before).contains(x) {
                        let j = texts(before).index_of(x);
                        assert(texts(before)[j] == x);
                        assert(texts(added@)[j] == x);
                    }
                }
            }
        }
        k += 1;
    }
    assert(all.take(k as int) =~= all);
}

/// Adds the module files, each behind the directories that it is the first to
/// need.
fn push_modules(cpio: &mut CpioWriter, dir: &str, modules: &Vec<ModuleFile>)
    ensures
        final(cpio)@ == old(cpio)@ + module_entries(dir@, modules@, modules@.len() as int),
{
    let ghost paths = module_paths(modules@);
    let mut added: Vec<String> = Vec::new();
    added.push(String::from_str(dir));
    let mut i: usize = 0;
    proof {
        assert(cpio@ =~= old(cpio)@ + module_entries(dir@, modules@, 0));
        assert forall|d: Seq<char>| #[trigger]
            texts(added@).contains(d) == (d == dir@ || needed_before(dir@, paths, 0, d)) by {
            assert(texts(added@)[0] == dir@);
        }
    }
    while i < modules.len()
        invariant
            i <= modules@.len(),
            paths == module_paths(modules@),
            cpio@ == old(cpio)@ + module_entries(dir@, modules@, i as int),
            forall|d: Seq<char>| #[trigger]
                texts(added@).contains(d) == (d == dir@ || needed_before(
                    dir@,
                    paths,
                    i as int,
                    d,
                )),
        decreases modules.len() - i,
    {
        let dest = joined_path(dir, modules[i].path.as_str());
        let chain = walk_ancestors(dest.as_str(), dir);
        let ghost module = paths[i as int];
        let ghost was = texts(added@);
        let ghost before = cpio@;
        proof {
            lemma_ancestors(dest@, dir@);
            assert(texts(chain@) == dirs_of(dir@, module));
        }
        push_new_dirs(cpio, &chain, &mut added);
        proof {
            let f = |d: Seq<char>| !was.contains(d);
            assert(f =~= is_new(dir@, paths, i as int));
            assert forall|d: Seq<char>| #[trigger]
                texts(added@).contains(d) == (d == dir@ || needed_before(
                    dir@,
                    paths,
                    i as int + 1,
                    d,
                )) by {
                if needed_before(dir@, paths, i as int, d) {
                    let j = choose|j: int|
                        0 <= j < i && dirs_of(dir@, #[trigger] paths[j]).contains(d);
                    assert(dirs_of(dir@, paths[j]).contains(d));
                    assert(needed_before(dir@, paths, i as int + 1, d));
                }
                if dirs_of(dir@, module).contains(d) {
                    assert(dirs_of(dir@, paths[i as int]).contains(d));
                }
            }
        }
        cpio.push(file(dest, copy_bytes(&modules[i].bytes), 0o644));
        proof {
            let entries = module_entries(dir@, modules@, i as int);
            let dirs = new_dirs(dir@, paths, i as int).map_values(|d: Seq<char>| dir_entry(d));
            let own = file_entry(dest@, modules@[i as int].bytes@, 0o644);
            assert((old(cpio)@ + entries + dirs).push(own) =~= old(cpio)@ + (entries + dirs).push(
                own,
            ));
        }
        i += 1;
    }
}

/// The archive of an initramfs.
pub fn initramfs_archive(
    busybox: &Busybox,
    release: &str,
    modules: &Vec<ModuleFile>,
    flavor: InitramfsFlavor,
) -> (r: Vec<u8>)
    ensures
        r@ == archive(initramfs_entries(*busybox, release@, modules@, flavor)),
{
    let mut cpio = CpioWriter::new();
    cpio.push(top_level_dir("."));
    cpio.push(top_level_dir("bin"));
    cpio.push(top_level_dir("sbin"));
    cpio.push(top_level_dir("dev"));
    cpio.push(top_level_dir("proc"));
    cpio.push(top_level_dir("sys"));
    cpio.push(top_level_dir("sysroot"));
    cpio.push(top_level_dir("lib"));
    cpio.push(top_level_dir("lib/modules"));
    cpio.push(
        file(String::from_str("bin/busybox"), copy_bytes(&busybox.bytes), busybox.mode % 0o10000),
    );
    cpio.push(applet("bin/sh"));
    cpio.push(applet("bin/mount"));
    cpio.push(applet("bin/umount"));
    cpio.push(applet("bin/modprobe"));
    cpio.push(applet("bin/insmod"));
    cpio.push(applet("bin/switch_root"));
    assert(cpio@ =~= base_entries(*busybox));
    let dir = joined_path("lib/modules", release);
    cpio.push(top_level_dir(dir.as_str()));
    push_modules(&mut cpio, dir.as_str(), modules);
    let paths = paths_of(modules);
    let script = match flavor {
        InitramfsFlavor::Boot => build_boot_init_script(release, &paths),
        InitramfsFlavor::Run => build_run_init_script(release, &paths),
    };
    cpio.push(file(String::from_str("init"), script.as_str().as_bytes_vec(), 0o755));
    cpio.finish()
}

fn paths_of(modules: &Vec<ModuleFile>) -> (r: Vec<String>)
    ensures
        texts(r@) == module_paths(modules@),
{
    let mut out: Vec<String> = Vec::new();
    let ghost all = module_paths(modules@);
    let mut i: usize = 0;
    assert(texts(out@) =~= all.take(0));
    while i < modules.len()
        invariant
            i <= modules@.len(),
            all == module_paths(modules@),
            texts(out@) == all.take(i as int),
        decreases modules.len() - i,
    {
        proof {
            crate::text::lemma_texts_push(out@, modules@[i as int].path);
            assert(all.take(i as int + 1) =~= all.take(i as int).push(all[i as int]));
        }
        out.push(modules[i].path.clone());
        i += 1;
    }
    assert(all.take(i as int) =~= all);
    out
}

/// What `bytes` are compressed to by gzip at the best level; nothing where the
/// encoder fails.
pub uninterp spec fn gzip_best(bytes: Seq<u8>) -> Option<Seq<u8>>;

/// `flate2::write::GzEncoder` at `Compression::best()`, given the bytes in one
/// `write_all` and then finished: what comes out depends on the bytes alone.
#[verifier::external_body]
fn gzip(bytes: &[u8]) -> (r: Result<Vec<u8>, std::io::Error>)
    ensures
        match r {
            Ok(out) => gzip_best(bytes@) == Some(out@),
            Err(_) => gzip_best(bytes@) is None,
        },
{
    let mut gz = flate2::write::GzEncoder::new(Vec::new(), flate2::Compression::best());
    std::io::Write::write_all(&mut gz, bytes)?;
    gz.finish()
}

/// The file name of the initramfs of a kernel.
pub open spec fn initramfs_name(release: Seq<char>) -> Seq<char> {
    "initramfs-"@ + release + ".img"@
}

/// The report on an initramfs: the kernel's release names it, the sizes are
/// those of the archive before and after compression.
pub fn report_initramfs(
    release: &str,
    cpio_size_bytes: usize,
    compressed_size_bytes: usize,
    modules_count: usize,
) -> (r: InitrdReport)
    ensures
        r.filename@ == initramfs_name(release@),
        r.cpio_size_bytes == cpio_size_bytes,
        r.compressed_size_bytes == compressed_size_bytes,
        r.modules_count == modules_count,
{
    let mut filename = String::from_str("initramfs-");
    filename.append(release);
    filename.append(".img");
    InitrdReport { filename, cpio_size_bytes, compressed_size_bytes, modules_count }
}

/// Generates an initramfs of the flavor from the busybox of the staging tree
/// `staging` and the modules that it is to carry.
pub fn generate_initramfs_with_flavor(
    staging: &str,
    busybox: Option<&Busybox>,
    release: &str,
    modules: &Vec<ModuleFile>,
    flavor: InitramfsFlavor,
) -> (r: Result<(Vec<u8>, InitrdReport), InitrdError>)
    ensures
        match busybox {
            None => r matches Err(InitrdError::MissingBusybox(path)) && path@ == join_path(
                join_path(staging@, "bin"@),
                "busybox"@,
            ),
            Some(b) => ({
                let cpio = archive(initramfs_entries(*b, release@, modules@, flavor));
                match gzip_best(cpio) {
                    Some(bytes) => r matches Ok((out, report)) && out@ == bytes
                        && report.filename@ == initramfs_name(release@) && report.cpio_size_bytes
                        == cpio.len() && report.compressed_size_bytes == bytes.len()
                        && report.modules_count == modules@.len(),
                    None => r matches Err(InitrdError::Io(_)),
                }
            }),
        },
{
    let busybox = match busybox {
        Some(b) => b,
        None => {
            let bin = joined_path(staging, "bin");
            return Err(InitrdError::MissingBusybox(joined_path(bin.as_str(), "busybox")));
        },
    };
    let cpio = initramfs_archive(busybox, release, modules, flavor);
    match gzip(cpio.as_slice()) {
        Ok(out) => {
            let report = report_initramfs(release, cpio.len(), out.len(), modules.len());
            Ok((out, report))
        },
        Err(e) => Err(InitrdError::Io(e)),
    }
}

/// Generates the initramfs that boots the image.
pub fn generate_initramfs(
    staging: &str,
    busybox: Option<&Busybox>,
    release: &str,
    modules: &Vec<ModuleFile>,
) -> (r: Result<(Vec<u8>, InitrdReport), InitrdError>)
    ensures
        match busybox {
            None => r matches Err(InitrdError::MissingBusybox(path)) && path@ == join_path(
                join_path(staging@, "bin"@),
                "busybox"@,
            ),
            Some(b) => ({
                let cpio = archive(
                    initramfs_entries(*b, release@, modules@, InitramfsFlavor::Boot),
                );
                match gzip_best(cpio) {
                    Some(bytes) => r matches Ok((out, report)) && out@ == bytes
                        && report.filename@ == initramfs_name(release@) && report.cpio_size_bytes
                        == cpio.len() && report.compressed_size_bytes == bytes.len()
                        && report.modules_count == modules@.len(),
                    None => r matches Err(InitrdError::Io(_)),
                }
            }),
        },
{
    generate_initramfs_with_flavor(staging, busybox, release, modules, InitramfsFlavor::Boot)
}

/// Every directory that a module file needs stands in the archive before the
/// file: parents come before their children.
pub proof fn lemma_parents_first(dir: Seq<char>, modules: Seq<ModuleFile>, n: int, d: Seq<char>)
    requires
        0 < n <= modules.len(),
        d != dir,
        dirs_of(dir, modules[n - 1].path@).contains(d),
    ensures
        module_entries(dir, modules, n).drop_last().contains(dir_entry(d)),
        module_entries(dir, modules, n).last() == file_entry(
            join_path(dir, modules[n - 1].path@),
            modules[n - 1].bytes@,
            0o644,
        ),
    decreases n,
{
    let paths = module_paths(modules);
    let as_dir = |x: Seq<char>| dir_entry(x);
    let before = module_entries(dir, modules, n - 1);
    let dirs = new_dirs(dir, paths, n - 1).map_values(as_dir);
    assert(module_entries(dir, modules, n).drop_last() =~= before + dirs);
    if needed_before(dir, paths, n - 1, d) {
        let j = choose|j: int| 0 <= j < n - 1 && dirs_of(dir, #[trigger] paths[j]).contains(d);
        lemma_parents_first(dir, modules, j + 1, d);
        lemma_entries_grow(dir, modules, j + 1, n - 1);
        let early = module_entries(dir, modules, j + 1);
        let k = early.drop_last().index_of(dir_entry(d));
        assert(early.drop_last()[k] == dir_entry(d));
        assert(before[k] == dir_entry(d));
        assert((before + dirs)[k] == dir_entry(d));
    } else {
        let m = n - 1;
        let keep = is_new(dir, paths, m);
        let all = dirs_of(dir, paths[m]);
        let i = all.index_of(d);
        assert(all[i] == d);
        all.lemma_filter_contains(keep, i);
        let k = all.filter(keep).index_of(d);
        assert(all.filter(keep)[k] == d);
        assert(dirs[k] == dir_entry(d));
        assert((before + dirs)[before.len() + k] == dir_entry(d));
    }
}

proof fn lemma_entries_grow(dir: Seq<char>, modules: Seq<ModuleFile>, a: int, b: int)
    requires
        0 <= a <= b <= modules.len(),
    ensures
        module_entries(dir, modules, a).is_prefix_of(module_entries(dir, modules, b)),
    decreases b - a,
{
    if a < b {
        lemma_entries_grow(dir, modules, a, b - 1);
    }
}

} // verus!
