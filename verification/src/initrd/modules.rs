//! Which kernel modules an initramfs carries.
//!
//! A flavor names drivers; a driver brings the modules that it needs, as the
//! tree's `modules.dep` records them. Modules are known by name, not by file:
//! `modules.dep` may still have the compression suffixes of files that were
//! unpacked since, and `-` and `_` are the same in a module name.
use vstd::prelude::*;
use vstd::set_lib::*;
use crate::boot::RootfsFs;
use crate::order::{path_le, sort_paths};
use crate::text::{
    lemma_texts_push, lines, lines_of, replace_char, replaced, split, split_on, split_once,
    split_once_spec, strip_suffix, texts, words, words_of,
};

verus! {

/// What an initramfs is for.
#[derive(Clone, Copy, Debug, PartialEq, Eq, Structural)]
pub enum InitramfsFlavor {
    /// Mounts the root filesystem and hands over to its init.
    Boot,
    /// Runs one command against a staging tree shared by the host, then powers
    /// off.
    Run,
}

/// The views of a sequence of string slices.
pub open spec fn names_of(v: Seq<&'static str>) -> Seq<Seq<char>> {
    Seq::new(v.len(), |i: int| v[i]@)
}

/// The modules that each flavor asks for by name.
pub open spec fn allowlist(flavor: InitramfsFlavor) -> Seq<Seq<char>> {
    match flavor {
        InitramfsFlavor::Boot => seq![
            "virtio"@,
            "virtio_ring"@,
            "virtio_pci"@,
            "virtio_pci_modern_dev"@,
            "virtio_blk"@,
            "virtio_scsi"@,
            "nvme_core"@,
            "nvme"@,
            "libata"@,
            "libahci"@,
            "ahci"@,
            "ata_piix"@,
            "ata_generic"@,
            "scsi_mod"@,
            "sd_mod"@,
            "mmc_core"@,
            "mmc_block"@,
            "sdhci"@,
            "sdhci_pci"@,
            "sdhci_acpi"@,
            "usb_common"@,
            "usbcore"@,
            "ehci_hcd"@,
            "ehci_pci"@,
            "xhci_hcd"@,
            "xhci_pci"@,
            "usb_storage"@,
            "squashfs"@,
            "ext4"@,
            "erofs"@,
            "crc32c_generic"@,
            "crc32c_intel"@,
            "libcrc32c"@,
        ],
        InitramfsFlavor::Run => seq![
            "virtio"@,
            "virtio_ring"@,
            "virtio_pci"@,
            "virtio_pci_modern_dev"@,
            "virtio_blk"@,
            "squashfs"@,
            "9p"@,
            "9pnet"@,
            "9pnet_virtio"@,
            "virtio_net"@,
        ],
    }
}

/// The modules that each flavor asks for by name.
///
/// `Boot` lists whatever may carry the root filesystem: storage drivers for
/// virtual and real hardware, a driver for every filesystem that a disk can be
/// projected with, and the `crc32c` providers that ext4 asks for by algorithm,
/// so that no dependency shows them. `Run` needs virtio, 9p and the network
/// card. A name that the tree lacks costs nothing.
pub fn modules_allowlist(flavor: InitramfsFlavor) -> (r: Vec<&'static str>)
    ensures
        names_of(r@) == allowlist(flavor),
{
    let r: Vec<&'static str> = match flavor {
        InitramfsFlavor::Boot => vec![
            "virtio",
            "virtio_ring",
            "virtio_pci",
            "virtio_pci_modern_dev",
            "virtio_blk",
            "virtio_scsi",
            "nvme_core",
            "nvme",
            "libata",
            "libahci",
            "ahci",
            "ata_piix",
            "ata_generic",
            "scsi_mod",
            "sd_mod",
            "mmc_core",
            "mmc_block",
            "sdhci",
            "sdhci_pci",
            "sdhci_acpi",
            "usb_common",
            "usbcore",
            "ehci_hcd",
            "ehci_pci",
            "xhci_hcd",
            "xhci_pci",
            "usb_storage",
            "squashfs",
            "ext4",
            "erofs",
            "crc32c_generic",
            "crc32c_intel",
            "libcrc32c",
        ],
        InitramfsFlavor::Run => vec![
            "virtio",
            "virtio_ring",
            "virtio_pci",
            "virtio_pci_modern_dev",
            "virtio_blk",
            "squashfs",
            "9p",
            "9pnet",
            "9pnet_virtio",
            "virtio_net",
        ],
    };
    assert(names_of(r@) =~= allowlist(flavor));
    r
}

/// The boot initramfs carries a driver for every filesystem that a disk can be
/// projected with.
pub proof fn lemma_every_filesystem_has_a_driver(fs: RootfsFs)
    ensures
        allowlist(InitramfsFlavor::Boot).contains(fs.name()),
{
    let all = allowlist(InitramfsFlavor::Boot);
    assert(all[27] == "squashfs"@ && all[28] == "ext4"@ && all[29] == "erofs"@);
}

/// `s` without the suffix `t`, where it has it.
pub open spec fn without_suffix(s: Seq<char>, t: Seq<char>) -> Seq<char> {
    if t.is_suffix_of(s) {
        s.take(s.len() - t.len())
    } else {
        s
    }
}

/// The name of a module file without `.ko` and the suffix of a compression.
pub open spec fn stem(filename: Seq<char>) -> Seq<char> {
    if ".ko.zst"@.is_suffix_of(filename) {
        without_suffix(filename, ".ko.zst"@)
    } else if ".ko.xz"@.is_suffix_of(filename) {
        without_suffix(filename, ".ko.xz"@)
    } else if ".ko.gz"@.is_suffix_of(filename) {
        without_suffix(filename, ".ko.gz"@)
    } else {
        without_suffix(filename, ".ko"@)
    }
}

/// The name of a module file without `.ko` and the suffix of a compression.
pub fn module_stem(filename: &str) -> (r: String)
    ensures
        r@ == stem(filename@),
{
    match strip_suffix(filename, ".ko.zst") {
        Some(s) => s,
        None => match strip_suffix(filename, ".ko.xz") {
            Some(s) => s,
            None => match strip_suffix(filename, ".ko.gz") {
                Some(s) => s,
                None => match strip_suffix(filename, ".ko") {
                    Some(s) => s,
                    None => String::from_str(filename),
                },
            },
        },
    }
}

/// The name of the module in the file `path`, with `_` for `-`.
#[verifier::opaque]
pub open spec fn module_name(path: Seq<char>) -> Seq<char> {
    replace_char(stem(split(path, '/').last()), '-', "_"@)
}

/// The name of the module in the file `path`, with `_` for `-`.
pub fn module_name_of(path: &str) -> (r: String)
    ensures
        r@ == module_name(path@),
{
    reveal(module_name);
    let parts = split_on(path, '/');
    let last: usize = parts.len() - 1;
    assert(split(path@, '/').last() == parts@[last as int]@);
    let s = module_stem(parts[last].as_str());
    replaced(s.as_str(), '-', "_")
}

/// Does the line of a `modules.dep` say that the module `n` needs the module
/// `m`? A line has a file, a colon, and the files that it needs.
#[verifier::opaque]
pub open spec fn line_depends(line: Seq<char>, n: Seq<char>, m: Seq<char>) -> bool {
    match split_once_spec(line, ":"@) {
        Some((file, needs)) => module_name(file) == n && exists|k: int|
            0 <= k < words(needs).len() && module_name(#[trigger] words(needs)[k]) == m,
        None => false,
    }
}

/// Does the `modules.dep` text say that the module `n` needs the module `m`?
pub open spec fn depends(dep: Seq<char>, n: Seq<char>, m: Seq<char>) -> bool {
    exists|i: int| 0 <= i < lines(dep).len() && line_depends(#[trigger] lines(dep)[i], n, m)
}

/// Is the module in the file asked for by name?
pub open spec fn is_listed(flavor: InitramfsFlavor, file: Seq<char>) -> bool {
    allowlist(flavor).contains(module_name(file))
}

/// Is the file reached in at most `k` steps, each from a file of the tree to
/// one that its module needs, from a module asked for by name?
pub open spec fn reached(
    files: Seq<Seq<char>>,
    dep: Seq<char>,
    flavor: InitramfsFlavor,
    file: Seq<char>,
    k: nat,
) -> bool
    decreases k,
{
    is_listed(flavor, file) || (k > 0 && exists|g: int|
        #![trigger files[g]]
        0 <= g < files.len() && reached(files, dep, flavor, files[g], (k - 1) as nat) && depends(
            dep,
            module_name(files[g]),
            module_name(file),
        ))
}

/// Is the file carried: is its module asked for by name, or needed, directly or
/// not, by one that is?
pub open spec fn is_carried(
    files: Seq<Seq<char>>,
    dep: Seq<char>,
    flavor: InitramfsFlavor,
    file: Seq<char>,
) -> bool {
    exists|k: nat| reached(files, dep, flavor, file, k)
}

/// Is the file that of a module, compressed or not?
pub open spec fn is_module_file(file: Seq<char>) -> bool {
    ||| ".ko"@.is_suffix_of(file)
    ||| ".ko.gz"@.is_suffix_of(file)
    ||| ".ko.xz"@.is_suffix_of(file)
    ||| ".ko.zst"@.is_suffix_of(file)
}

/// Those of the files that are modules.
pub open spec fn module_files(files: Seq<Seq<char>>) -> Seq<Seq<char>> {
    files.filter(|f: Seq<char>| is_module_file(f))
}

/// The module files that an initramfs carries, in the order of their paths.
pub open spec fn carried(
    files: Seq<Seq<char>>,
    dep: Seq<char>,
    flavor: InitramfsFlavor,
) -> Seq<Seq<char>> {
    files.filter(|f: Seq<char>| is_carried(files, dep, flavor, f)).sort_by(path_le())
}

/// What one line of a `modules.dep` says.
struct Needs {
    module: String,
    needs: Vec<String>,
}

spec fn says(entries: Seq<Needs>, n: Seq<char>, m: Seq<char>) -> bool {
    exists|i: int|
        0 <= i < entries.len() && (#[trigger] entries[i]).module@ == n && texts(
            entries[i].needs@,
        ).contains(m)
}

fn module_names(files: &Vec<String>) -> (r: Vec<String>)
    ensures
        texts(r@) == Seq::new(files@.len(), |k: int| module_name(files@[k]@)),
{
    let mut out: Vec<String> = Vec::new();
    let ghost all = Seq::new(files@.len(), |k: int| module_name(files@[k]@));
    let mut i: usize = 0;
    assert(texts(out@) =~= all.take(0));
    while i < files.len()
        invariant
            i <= files@.len(),
            all == Seq::new(files@.len(), |k: int| module_name(files@[k]@)),
            texts(out@) == all.take(i as int),
        decreases files.len() - i,
    {
        let name = module_name_of(files[i].as_str());
        proof {
            broadcast use lemma_texts_push;

            assert(all.take(i as int + 1) =~= all.take(i as int).push(name@));
        }
        out.push(name);
        i += 1;
    }
    assert(all.take(i as int) =~= all);
    out
}

fn read_line(line: &str) -> (r: Option<Needs>)
    ensures
        match r {
            Some(e) => forall|n: Seq<char>, m: Seq<char>| #[trigger]
                line_depends(line@, n, m) == (e.module@ == n && texts(e.needs@).contains(m)),
            None => forall|n: Seq<char>, m: Seq<char>| !#[trigger] line_depends(line@, n, m),
        },
{
    match split_once(line, ":") {
        Some((file, rest)) => {
            let module = module_name_of(file.as_str());
            let listed = words_of(rest.as_str());
            let needs = module_names(&listed);
            proof {
                lemma_needs(listed@, rest@, texts(needs@));
                lemma_line(line@, file@, rest@, texts(needs@));
            }
            Some(Needs { module, needs })
        },
        None => {
            proof {
                lemma_no_line(line@);
            }
            None
        },
    }
}

proof fn lemma_needs(listed: Seq<String>, rest: Seq<char>, needs: Seq<Seq<char>>)
    requires
        texts(listed) == words(rest),
        needs == Seq::new(listed.len(), |k: int| module_name(listed[k]@)),
    ensures
        needs == Seq::new(words(rest).len(), |k: int| module_name(words(rest)[k])),
{
    let all = words(rest);
    assert forall|k: int| 0 <= k < all.len() implies all[k] == listed[k]@ by {
        assert(texts(listed)[k] == listed[k]@);
    }
    assert(needs =~= Seq::new(all.len(), |k: int| module_name(all[k])));
}

proof fn lemma_no_line(line: Seq<char>)
    requires
        split_once_spec(line, ":"@) is None,
    ensures
        forall|n: Seq<char>, m: Seq<char>| !#[trigger] line_depends(line, n, m),
{
    reveal(line_depends);
}

/// Do the first `i` lines say that the module `n` needs the module `m`?
spec fn said(ls: Seq<Seq<char>>, i: int, n: Seq<char>, m: Seq<char>) -> bool {
    exists|j: int| 0 <= j < i && line_depends(#[trigger] ls[j], n, m)
}

/// What a line says, from the file before its colon and the modules behind it.
pub proof fn lemma_line(line: Seq<char>, file: Seq<char>, rest: Seq<char>, needs: Seq<Seq<char>>)
    requires
        split_once_spec(line, ":"@) == Some((file, rest)),
        needs == Seq::new(words(rest).len(), |k: int| module_name(words(rest)[k])),
    ensures
        forall|n: Seq<char>, m: Seq<char>| #[trigger]
            line_depends(line, n, m) == (module_name(file) == n && needs.contains(m)),
{
    reveal(line_depends);
    let all = words(rest);
    assert forall|n: Seq<char>, m: Seq<char>| #[trigger]
        line_depends(line, n, m) == (module_name(file) == n && needs.contains(m)) by {
        if line_depends(line, n, m) {
            let k = choose|k: int| 0 <= k < all.len() && module_name(#[trigger] all[k]) == m;
            assert(needs[k] == m);
        }
        if module_name(file) == n && needs.contains(m) {
            let k = needs.index_of(m);
            assert(needs[k] == m);
            assert(module_name(all[k]) == m);
        }
    }
}

proof fn lemma_said_more(
    before: Seq<Needs>,
    e: Needs,
    ls: Seq<Seq<char>>,
    i: int,
    n: Seq<char>,
    m: Seq<char>,
)
    requires
        0 <= i < ls.len(),
        says(before, n, m) == said(ls, i, n, m),
        line_depends(ls[i], n, m) == (e.module@ == n && texts(e.needs@).contains(m)),
    ensures
        says(before.push(e), n, m) == said(ls, i + 1, n, m),
{
    let after = before.push(e);
    if says(after, n, m) {
        let k = choose|k: int|
            0 <= k < after.len() && (#[trigger] after[k]).module@ == n && texts(
                after[k].needs@,
            ).contains(m);
        if k < before.len() {
            assert(before[k] == after[k]);
            let j = choose|j: int| 0 <= j < i && line_depends(#[trigger] ls[j], n, m);
            assert(line_depends(ls[j], n, m));
        } else {
            assert(line_depends(ls[i], n, m));
        }
    }
    if said(ls, i + 1, n, m) {
        let j = choose|j: int| 0 <= j < i + 1 && line_depends(#[trigger] ls[j], n, m);
        if j < i {
            assert(said(ls, i, n, m));
            let k = choose|k: int|
                0 <= k < before.len() && (#[trigger] before[k]).module@ == n && texts(
                    before[k].needs@,
                ).contains(m);
            assert(after[k] == before[k]);
        } else {
            assert(after[before.len() as int] == e);
        }
    }
}

fn read_dependencies(dep: &str) -> (r: Vec<Needs>)
    ensures
        forall|n: Seq<char>, m: Seq<char>| #[trigger] says(r@, n, m) == depends(dep@, n, m),
{
    let all = lines_of(dep);
    let ghost ls = lines(dep@);
    let mut out: Vec<Needs> = Vec::new();
    let mut i: usize = 0;
    while i < all.len()
        invariant
            i <= all@.len(),
            texts(all@) == ls,
            forall|n: Seq<char>, m: Seq<char>| #[trigger]
                says(out@, n, m) == said(ls, i as int, n, m),
        decreases all.len() - i,
    {
        let ghost before = out@;
        assert(ls[i as int] == all@[i as int]@);
        match read_line(all[i].as_str()) {
            Some(e) => {
                proof {
                    assert forall|n: Seq<char>, m: Seq<char>| #[trigger]
                        says(before.push(e), n, m) == said(ls, i + 1, n, m) by {
                        lemma_said_more(before, e, ls, i as int, n, m);
                    }
                }
                out.push(e);
            },
            None => {
                proof {
                    assert forall|n: Seq<char>, m: Seq<char>| #[trigger]
                        says(out@, n, m) == said(ls, i + 1, n, m) by {
                        if said(ls, i as int, n, m) {
                            let j = choose|j: int|
                                0 <= j < i && line_depends(#[trigger] ls[j], n, m);
                            assert(line_depends(ls[j], n, m));
                        }
                        if said(ls, i + 1, n, m) {
                            let j = choose|j: int|
                                0 <= j < i + 1 && line_depends(#[trigger] ls[j], n, m);
                            assert(j != i);
                        }
                    }
                }
            },
        }
        i += 1;
    }
    proof {
        assert forall|n: Seq<char>, m: Seq<char>| #[trigger]
            says(out@, n, m) == depends(dep@, n, m) by {
            if depends(dep@, n, m) {
                let j = choose|j: int| 0 <= j < ls.len() && line_depends(#[trigger] ls[j], n, m);
                assert(line_depends(ls[j], n, m));
            }
        }
    }
    out
}

fn list_contains(list: &Vec<&'static str>, name: &str) -> (r: bool)
    ensures
        r == names_of(list@).contains(name@),
{
    let mut i: usize = 0;
    while i < list.len()
        invariant
            i <= list@.len(),
            forall|j: int| 0 <= j < i ==> list@[j]@ != name@,
        decreases list.len() - i,
    {
        if crate::text::same(list[i], name) {
            assert(names_of(list@)[i as int] == name@);
            return true;
        }
        i += 1;
    }
    proof {
        if names_of(list@).contains(name@) {
            let k = names_of(list@).index_of(name@);
            assert(list@[k]@ == name@);
        }
    }
    false
}

proof fn lemma_distinct_below(q: Seq<usize>, n: nat)
    requires
        q.no_duplicates(),
        forall|i: int| 0 <= i < q.len() ==> #[trigger] q[i] < n,
    ensures
        q.len() <= n,
{
    let ints = q.map_values(|x: usize| x as int);
    assert forall|i: int, j: int| 0 <= i < ints.len() && 0 <= j < ints.len() && i != j implies ints[i]
        != ints[j] by {
        assert(q[i] != q[j]);
    }
    assert(ints.no_duplicates());
    ints.unique_seq_to_set();
    lemma_int_range(0, n as int);
    assert(ints.to_set().subset_of(set_int_range(0, n as int)));
    lemma_len_subset(ints.to_set(), set_int_range(0, n as int));
}

/// What holds while the carried files are being marked: `queue` holds each
/// marked file once, every marked file is carried, and what the files before
/// `done` need is marked.
spec fn marking(
    files: Seq<Seq<char>>,
    dep: Seq<char>,
    flavor: InitramfsFlavor,
    marked: Seq<bool>,
    queue: Seq<usize>,
    done: int,
) -> bool {
    &&& marked.len() == files.len()
    &&& queue.no_duplicates()
    &&& forall|q: int| 0 <= q < queue.len() ==> (#[trigger] queue[q]) < files.len()
    &&& forall|q: int| 0 <= q < queue.len() ==> marked[(#[trigger] queue[q]) as int]
    &&& forall|f: int| 0 <= f < files.len() && #[trigger] marked[f] ==> queue.contains(f as usize)
    &&& forall|f: int|
        0 <= f < files.len() && #[trigger] marked[f] ==> is_carried(files, dep, flavor, files[f])
    &&& forall|f: int|
        0 <= f < files.len() && is_listed(flavor, #[trigger] files[f]) ==> marked[f]
    &&& 0 <= done <= queue.len()
    &&& forall|q: int, f: int|
        0 <= q < done && 0 <= f < files.len() && #[trigger] depends(
            dep,
            module_name(files[queue[q] as int]),
            module_name(files[f]),
        ) ==> marked[f]
}

proof fn lemma_all_marked(
    files: Seq<Seq<char>>,
    dep: Seq<char>,
    flavor: InitramfsFlavor,
    marked: Seq<bool>,
    queue: Seq<usize>,
    f: int,
    k: nat,
)
    requires
        marking(files, dep, flavor, marked, queue, queue.len() as int),
        0 <= f < files.len() <= usize::MAX,
        reached(files, dep, flavor, files[f], k),
    ensures
        marked[f],
    decreases k,
{
    if !is_listed(flavor, files[f]) {
        let g = choose|g: int|
            #![trigger files[g]]
            0 <= g < files.len() && reached(files, dep, flavor, files[g], (k - 1) as nat)
                && depends(dep, module_name(files[g]), module_name(files[f]));
        lemma_all_marked(files, dep, flavor, marked, queue, g, (k - 1) as nat);
        let q = queue.index_of(g as usize);
        assert(queue.contains(g as usize));
        assert(queue[q] == g as usize);
        assert(depends(dep, module_name(files[queue[q] as int]), module_name(files[f])));
    }
}

/// What a carried module needs is carried too, where the tree has it.
pub proof fn lemma_need_carried(
    files: Seq<Seq<char>>,
    dep: Seq<char>,
    flavor: InitramfsFlavor,
    g: int,
    file: Seq<char>,
)
    requires
        0 <= g < files.len(),
        is_carried(files, dep, flavor, files[g]),
        depends(dep, module_name(files[g]), module_name(file)),
    ensures
        is_carried(files, dep, flavor, file),
{
    let k = choose|k: nat| reached(files, dep, flavor, files[g], k);
    assert(reached(files, dep, flavor, file, k + 1));
}

/// A module asked for by name is carried.
pub proof fn lemma_listed_carried(
    files: Seq<Seq<char>>,
    dep: Seq<char>,
    flavor: InitramfsFlavor,
    file: Seq<char>,
)
    requires
        is_listed(flavor, file),
    ensures
        is_carried(files, dep, flavor, file),
{
    assert(reached(files, dep, flavor, file, 0));
}

/// Marks the files of the module `need`.
fn mark_module(
    names: &Vec<String>,
    need: &String,
    marked: &mut Vec<bool>,
    queue: &mut Vec<usize>,
    files: Ghost<Seq<Seq<char>>>,
    dep: Ghost<Seq<char>>,
    flavor: Ghost<InitramfsFlavor>,
    done: Ghost<int>,
    g: Ghost<int>,
)
    requires
        marking(files@, dep@, flavor@, old(marked)@, old(queue)@, done@),
        texts(names@) == Seq::new(files@.len(), |k: int| module_name(files@[k])),
        0 <= g@ < files@.len(),
        old(marked)@[g@],
        depends(dep@, module_name(files@[g@]), need@),
    ensures
        marking(files@, dep@, flavor@, final(marked)@, final(queue)@, done@),
        old(queue)@.is_prefix_of(final(queue)@),
        forall|f: int|
            0 <= f < files@.len() && #[trigger] old(marked)@[f] ==> final(marked)@[f],
        forall|f: int|
            0 <= f < files@.len() && module_name(#[trigger] files@[f]) == need@
                ==> final(marked)@[f],
{
    let n: usize = names.len();
    assert(texts(names@).len() == files@.len());
    let mut f: usize = 0;
    while f < n
        invariant
            f <= n,
            n == names@.len(),
            n == files@.len(),
            marking(files@, dep@, flavor@, marked@, queue@, done@),
            texts(names@) == Seq::new(files@.len(), |k: int| module_name(files@[k])),
            0 <= g@ < files@.len(),
            marked@[g@],
            depends(dep@, module_name(files@[g@]), need@),
            old(queue)@.is_prefix_of(queue@),
            forall|x: int| 0 <= x < n && #[trigger] old(marked)@[x] ==> marked@[x],
            forall|x: int|
                0 <= x < f && module_name(#[trigger] files@[x]) == need@ ==> marked@[x],
        decreases n - f,
    {
        let ghost name = module_name(files@[f as int]);
        assert(names@[f as int]@ == texts(names@)[f as int]);
        if !marked[f] && names[f] == *need {
            let ghost before = queue@;
            let ghost old_marked = marked@;
            proof {
                lemma_need_carried(files@, dep@, flavor@, g@, files@[f as int]);
                if before.contains(f) {
                    let q = before.index_of(f);
                    assert(before[q] == f);
                    assert(old_marked[before[q] as int]);
                }
            }
            marked.set(f, true);
            queue.push(f);
            proof {
                assert(queue@[before.len() as int] == f);
                assert forall|x: int| 0 <= x < n && #[trigger] marked@[x] implies queue@.contains(
                    x as usize,
                ) by {
                    if x != f {
                        assert(old_marked[x]);
                        let q = before.index_of(x as usize);
                        assert(before.contains(x as usize));
                        assert(queue@[q] == x as usize);
                    }
                }
                assert forall|q: int, x: int|
                    0 <= q < done@ && 0 <= x < n && #[trigger] depends(
                        dep@,
                        module_name(files@[queue@[q] as int]),
                        module_name(files@[x]),
                    ) implies marked@[x] by {
                    assert(queue@[q] == before[q]);
                }
                assert forall|q: int| 0 <= q < queue@.len() implies marked@[(
                #[trigger] queue@[q]) as int] by {
                    if q < before.len() {
                        assert(queue@[q] == before[q]);
                    }
                }
                assert(old(queue)@.is_prefix_of(queue@));
            }
        }
        f += 1;
    }
}

/// Picks the module files that an initramfs of the flavor carries.
///
/// `files` are the files of the module tree, by their paths below its root; those
/// that are no modules do not count. `dep` is the text of the tree's
/// `modules.dep`. Without one the modules asked for by name are all there is; a
/// module that is needed but not in the tree is left out, since the kernel has it
/// built in.
pub fn collect_modules_for(
    files: &Vec<String>,
    dep: Option<&str>,
    flavor: InitramfsFlavor,
) -> (r: Vec<String>)
    ensures
        texts(r@) == carried(module_files(texts(files@)), dep_text(dep), flavor),
{
    let ghost all = texts(files@);
    let ghost keep = |f: Seq<char>| is_module_file(f);
    let mut modules: Vec<String> = Vec::new();
    let mut i: usize = 0;
    proof {
        reveal(Seq::filter);
        assert(all.take(0) =~= Seq::empty());
        assert(texts(modules@) =~= all.take(0).filter(keep));
    }
    while i < files.len()
        invariant
            i <= files@.len(),
            all == texts(files@),
            keep == (|f: Seq<char>| is_module_file(f)),
            texts(modules@) == all.take(i as int).filter(keep),
        decreases files.len() - i,
    {
        proof {
            broadcast use lemma_texts_push;

            reveal(Seq::filter);
            assert(all.take(i as int + 1).drop_last() =~= all.take(i as int));
            assert(all.take(i as int + 1).last() == all[i as int]);
            assert(all[i as int] == files@[i as int]@);
        }
        let file = files[i].as_str();
        if strip_suffix(file, ".ko").is_some() || strip_suffix(file, ".ko.gz").is_some()
            || strip_suffix(file, ".ko.xz").is_some() || strip_suffix(file, ".ko.zst").is_some() {
            modules.push(files[i].clone());
        }
        i += 1;
    }
    assert(all.take(i as int) =~= all);
    carry(&modules, dep, flavor)
}

/// Picks those of the module files that an initramfs of the flavor carries.
fn carry(files: &Vec<String>, dep: Option<&str>, flavor: InitramfsFlavor) -> (r: Vec<String>)
    ensures
        texts(r@) == carried(texts(files@), dep_text(dep), flavor),
{
    let needs: Vec<Needs> = match dep {
        Some(text) => read_dependencies(text),
        None => {
            let none: Vec<Needs> = Vec::new();
            proof {
                lemma_no_dependencies();
            }
            none
        },
    };
    let ghost text = dep_text(dep);
    let ghost paths = texts(files@);
    let names = module_names(files);
    assert(texts(names@) =~= Seq::new(paths.len(), |k: int| module_name(paths[k])));
    let listed = modules_allowlist(flavor);
    let n: usize = files.len();
    let mut marked: Vec<bool> = Vec::new();
    let mut queue: Vec<usize> = Vec::new();
    let mut i: usize = 0;
    while i < n
        invariant
            i <= n,
            n == files@.len(),
            n == paths.len(),
            names@.len() == n,
            texts(names@) == Seq::new(paths.len(), |k: int| module_name(paths[k])),
            names_of(listed@) == allowlist(flavor),
            marked@.len() == i,
            forall|x: int| 0 <= x < i ==> #[trigger] marked@[x] == is_listed(flavor, paths[x]),
            queue@.no_duplicates(),
            forall|q: int| 0 <= q < queue@.len() ==> (#[trigger] queue@[q]) < i,
            forall|q: int| 0 <= q < queue@.len() ==> marked@[(#[trigger] queue@[q]) as int],
            forall|x: int| 0 <= x < i && #[trigger] marked@[x] ==> queue@.contains(x as usize),
        decreases n - i,
    {
        let is = list_contains(&listed, names[i].as_str());
        assert(names@[i as int]@ == texts(names@)[i as int]);
        let ghost before = queue@;
        let ghost old_marked = marked@;
        marked.push(is);
        if is {
            queue.push(i);
            assert(queue@[before.len() as int] == i);
        }
        proof {
            assert forall|x: int| 0 <= x < i + 1 && #[trigger] marked@[x] implies queue@.contains(
                x as usize,
            ) by {
                if x < i {
                    assert(old_marked[x]);
                    let q = before.index_of(x as usize);
                    assert(before.contains(x as usize));
                    assert(queue@[q] == x as usize);
                }
            }
            assert forall|q: int| 0 <= q < queue@.len() implies marked@[(
            #[trigger] queue@[q]) as int] by {
                if q < before.len() {
                    assert(queue@[q] == before[q]);
                    assert(old_marked[before[q] as int]);
                }
            }
        }
        i += 1;
    }
    assert(marking(paths, text, flavor, marked@, queue@, 0)) by {
        assert forall|f: int| 0 <= f < paths.len() && #[trigger] marked@[f] implies is_carried(
            paths,
            text,
            flavor,
            paths[f],
        ) by {
            assert(reached(paths, text, flavor, paths[f], 0));
        }
    }
    let mut done: usize = 0;
    while done < queue.len()
        invariant
            done <= queue@.len(),
            n == files@.len(),
            n == paths.len(),
            names@.len() == n,
            texts(names@) == Seq::new(paths.len(), |k: int| module_name(paths[k])),
            forall|a: Seq<char>, b: Seq<char>| #[trigger]
                says(needs@, a, b) == depends(text, a, b),
            marking(paths, text, flavor, marked@, queue@, done as int),
        decreases n - done,
    {
        proof {
            lemma_distinct_below(queue@, n as nat);
        }
        let g: usize = queue[done];
        mark_needs(
            &names,
            &needs,
            g,
            &mut marked,
            &mut queue,
            Ghost(paths),
            Ghost(text),
            Ghost(flavor),
            Ghost(done as int),
        );
        proof {
            lemma_distinct_below(queue@, n as nat);
        }
        done += 1;
    }
    let mut out: Vec<String> = Vec::new();
    let ghost keep = |f: Seq<char>| is_carried(paths, text, flavor, f);
    let mut k: usize = 0;
    proof {
        assert forall|f: int| 0 <= f < paths.len() implies #[trigger] marked@[f] == is_carried(
            paths,
            text,
            flavor,
            paths[f],
        ) by {
            if is_carried(paths, text, flavor, paths[f]) {
                let c = choose|c: nat| reached(paths, text, flavor, paths[f], c);
                lemma_all_marked(paths, text, flavor, marked@, queue@, f, c);
            }
        }
        reveal(Seq::filter);
        assert(paths.take(0) =~= Seq::empty());
        assert(texts(out@) =~= paths.take(0).filter(keep));
    }
    while k < n
        invariant
            k <= n,
            n == files@.len(),
            paths == texts(files@),
            marked@.len() == n,
            keep == (|f: Seq<char>| is_carried(paths, text, flavor, f)),
            forall|f: int|
                0 <= f < paths.len() ==> #[trigger] marked@[f] == is_carried(
                    paths,
                    text,
                    flavor,
                    paths[f],
                ),
            texts(out@) == paths.take(k as int).filter(keep),
        decreases n - k,
    {
        proof {
            broadcast use lemma_texts_push;

            reveal(Seq::filter);
            assert(paths.take(k as int + 1).drop_last() =~= paths.take(k as int));
            assert(paths.take(k as int + 1).last() == paths[k as int]);
            assert(marked@[k as int] == is_carried(paths, text, flavor, paths[k as int]));
            assert(paths[k as int] == files@[k as int]@);
        }
        if marked[k] {
            out.push(files[k].clone());
        }
        k += 1;
    }
    assert(paths.take(k as int) =~= paths);
    sort_paths(out)
}

/// The text of a `modules.dep`; nothing where the tree has none.
pub open spec fn dep_text(dep: Option<&str>) -> Seq<char> {
    match dep {
        Some(text) => text@,
        None => Seq::empty(),
    }
}

proof fn lemma_no_dependencies()
    ensures
        forall|n: Seq<char>, m: Seq<char>| !#[trigger] depends(Seq::empty(), n, m),
{
    let s = Seq::<char>::empty();
    assert(split(s, '\n') =~= seq![s]);
    assert(lines(s) =~= Seq::empty());
}

/// Marks what the module of file `g` needs.
fn mark_needs(
    names: &Vec<String>,
    needs: &Vec<Needs>,
    g: usize,
    marked: &mut Vec<bool>,
    queue: &mut Vec<usize>,
    files: Ghost<Seq<Seq<char>>>,
    dep: Ghost<Seq<char>>,
    flavor: Ghost<InitramfsFlavor>,
    done: Ghost<int>,
)
    requires
        marking(files@, dep@, flavor@, old(marked)@, old(queue)@, done@),
        texts(names@) == Seq::new(files@.len(), |k: int| module_name(files@[k])),
        forall|a: Seq<char>, b: Seq<char>| #[trigger]
            says(needs@, a, b) == depends(dep@, a, b),
        0 <= done@ < old(queue)@.len(),
        g == old(queue)@[done@],
    ensures
        marking(files@, dep@, flavor@, final(marked)@, final(queue)@, done@ + 1),
{
    let ghost name = module_name(files@[g as int]);
    assert(old(marked)@[old(queue)@[done@] as int]);
    assert(texts(names@).len() == files@.len());
    assert(names@[g as int]@ == texts(names@)[g as int]);
    let mut e: usize = 0;
    while e < needs.len()
        invariant
            e <= needs@.len(),
            texts(names@) == Seq::new(files@.len(), |k: int| module_name(files@[k])),
            g < files@.len(),
            files@.len() == names@.len(),
            names@[g as int]@ == name,
            name == module_name(files@[g as int]),
            forall|a: Seq<char>, b: Seq<char>| #[trigger]
                says(needs@, a, b) == depends(dep@, a, b),
            marking(files@, dep@, flavor@, marked@, queue@, done@),
            marked@[g as int],
            old(queue)@.is_prefix_of(queue@),
            forall|k: int, f: int|
                #![trigger needs@[k], files@[f]]
                0 <= k < e && needs@[k].module@ == name && 0 <= f < files@.len() && texts(
                    needs@[k].needs@,
                ).contains(module_name(files@[f])) ==> marked@[f],
        decreases needs.len() - e,
    {
        if needs[e].module == names[g] {
            let mut w: usize = 0;
            while w < needs[e].needs.len()
                invariant
                    e < needs@.len(),
                    w <= needs@[e as int].needs@.len(),
                    texts(names@) == Seq::new(files@.len(), |k: int| module_name(files@[k])),
                    g < files@.len(),
                    needs@[e as int].module@ == name,
                    name == module_name(files@[g as int]),
                    forall|a: Seq<char>, b: Seq<char>| #[trigger]
                        says(needs@, a, b) == depends(dep@, a, b),
                    marking(files@, dep@, flavor@, marked@, queue@, done@),
                    marked@[g as int],
                    old(queue)@.is_prefix_of(queue@),
                    forall|k: int, f: int|
                        #![trigger needs@[k], files@[f]]
                        0 <= k < e && needs@[k].module@ == name && 0 <= f < files@.len() && texts(
                            needs@[k].needs@,
                        ).contains(module_name(files@[f])) ==> marked@[f],
                    forall|x: int, f: int|
                        #![trigger needs@[e as int].needs@[x], files@[f]]
                        0 <= x < w && 0 <= f < files@.len() && needs@[e as int].needs@[x]@
                            == module_name(files@[f]) ==> marked@[f],
                decreases needs@[e as int].needs@.len() - w,
            {
                let need = &needs[e].needs[w];
                proof {
                    assert(texts(needs@[e as int].needs@)[w as int] == need@);
                    assert(texts(needs@[e as int].needs@).contains(need@));
                    assert(says(needs@, name, need@));
                }
                mark_module(
                    names,
                    need,
                    marked,
                    queue,
                    files,
                    dep,
                    flavor,
                    done,
                    Ghost(g as int),
                );
                w += 1;
            }
            proof {
                let own = needs@[e as int].needs@;
                assert forall|f: int|
                    0 <= f < files@.len() && texts(own).contains(
                        module_name(#[trigger] files@[f]),
                    ) implies marked@[f] by {
                    let x = texts(own).index_of(module_name(files@[f]));
                    assert(texts(own)[x] == module_name(files@[f]));
                    assert(own[x]@ == module_name(files@[f]));
                }
            }
        }
        e += 1;
    }
    proof {
        assert forall|q: int, f: int|
            0 <= q < done@ + 1 && 0 <= f < files@.len() && #[trigger] depends(
                dep@,
                module_name(files@[queue@[q] as int]),
                module_name(files@[f]),
            ) implies marked@[f] by {
            if q == done@ {
                assert(queue@[q] == g);
                assert(says(needs@, name, module_name(files@[f])));
                let k = choose|k: int|
                    0 <= k < needs@.len() && (#[trigger] needs@[k]).module@ == name && texts(
                        needs@[k].needs@,
                    ).contains(module_name(files@[f]));
                assert(needs@[k].module@ == name);
            }
        }
    }
}

} // verus!
