//! Finding the kernel in a staging tree.
//!
//! A kernel artifact has its image at `boot/vmlinuz-<release>` and its modules
//! in `lib/modules/<release>/`.
use vstd::prelude::*;
use crate::order::{path_le, sort_paths, sort_texts, text_le};
use crate::path::{file_name, file_name_of, join_path, joined_path};
use crate::text::{lemma_texts_push, starts_with, strip_prefix, texts};

verus! {

/// Why no kernel was found.
#[derive(Debug)]
pub enum KernelLayoutError {
    /// There is no `boot/vmlinuz*`.
    NoVmlinuz,
    /// There is no `lib/modules`, no release directory in it, or the release
    /// directory that matches is empty.
    NoModules {
        /// The release that was settled on; `<none>` where there is no directory
        /// at all.
        release: String,
    },
    /// An I/O error on the way through the staging tree.
    Io(std::io::Error),
}

/// Where the kernel is in the staging tree.
#[derive(Debug)]
pub struct KernelLayout {
    /// The release.
    pub release: String,
    /// The path of the image.
    pub vmlinuz: String,
    /// The path of the module tree.
    pub modules: String,
}

/// A directory below `lib/modules`.
#[derive(Debug)]
pub struct ReleaseDir {
    /// Its name, which is the release.
    pub name: String,
    /// Does it hold anything?
    pub non_empty: bool,
}

/// The names of the directories.
pub open spec fn release_names(dirs: Seq<ReleaseDir>) -> Seq<Seq<char>> {
    Seq::new(dirs.len(), |i: int| dirs[i].name@)
}

/// Does a directory of that name hold anything?
pub open spec fn has_modules(dirs: Seq<ReleaseDir>, name: Seq<char>) -> bool {
    exists|i: int| 0 <= i < dirs.len() && (#[trigger] dirs[i]).name@ == name && dirs[i].non_empty
}

/// Is the name that of a kernel image?
pub open spec fn is_image_name() -> spec_fn(Seq<char>) -> bool {
    |name: Seq<char>| "vmlinuz"@.is_prefix_of(name)
}

/// The paths of the kernel images among the files of `boot`, in order.
pub open spec fn images(staging: Seq<char>, boot_files: Seq<Seq<char>>) -> Seq<Seq<char>> {
    boot_files.filter(is_image_name()).map_values(
        |name: Seq<char>| join_path(join_path(staging, "boot"@), name),
    ).sort_by(path_le())
}

/// The release in the name of a kernel image: what follows `vmlinuz-`.
pub open spec fn suffix_of(path: Seq<char>) -> Option<Seq<char>> {
    match file_name(path) {
        Some(name) => if "vmlinuz-"@.is_prefix_of(name) {
            Some(name.skip("vmlinuz-"@.len() as int))
        } else {
            None
        },
        None => None,
    }
}

/// Is the image named after a release whose modules are there?
pub open spec fn is_paired(image: Seq<char>, dirs: Seq<ReleaseDir>) -> bool {
    suffix_of(image) is Some && has_modules(dirs, suffix_of(image)->0)
}

/// The first image that is named after a release whose modules are there.
pub open spec fn first_paired(images: Seq<Seq<char>>, dirs: Seq<ReleaseDir>) -> Option<Seq<char>>
    decreases images.len(),
{
    if images.len() == 0 {
        None
    } else if is_paired(images[0], dirs) {
        Some(images[0])
    } else {
        first_paired(images.skip(1), dirs)
    }
}

/// Is there a directory of that name?
pub open spec fn has_release(dirs: Seq<ReleaseDir>, name: Seq<char>) -> bool {
    release_names(dirs).contains(name)
}

/// The release of the first image that is named after one with a directory,
/// empty or not.
pub open spec fn first_matching(images: Seq<Seq<char>>, dirs: Seq<ReleaseDir>) -> Option<Seq<char>>
    decreases images.len(),
{
    if images.len() == 0 {
        None
    } else {
        match suffix_of(images[0]) {
            Some(release) if has_release(dirs, release) => Some(release),
            _ => first_matching(images.skip(1), dirs),
        }
    }
}

/// The path of the module tree of a release.
pub open spec fn modules_path(staging: Seq<char>, release: Seq<char>) -> Seq<char> {
    join_path(join_path(join_path(staging, "lib"@), "modules"@), release)
}

/// Is `l` the layout with that release and image?
pub open spec fn is_layout(
    l: KernelLayout,
    staging: Seq<char>,
    release: Seq<char>,
    image: Seq<char>,
) -> bool {
    &&& l.release@ == release
    &&& l.vmlinuz@ == image
    &&& l.modules@ == modules_path(staging, release)
}

/// The release in the name of a kernel image.
pub fn vmlinuz_suffix(path: &str) -> (r: Option<String>)
    ensures
        match r {
            Some(s) => suffix_of(path@) == Some(s@),
            None => suffix_of(path@) is None,
        },
{
    match file_name_of(path) {
        Some(name) => strip_prefix(name.as_str(), "vmlinuz-"),
        None => None,
    }
}

fn dir_has_modules(dirs: &Vec<ReleaseDir>, name: &String) -> (r: bool)
    ensures
        r == has_modules(dirs@, name@),
{
    let mut i: usize = 0;
    while i < dirs.len()
        invariant
            i <= dirs@.len(),
            forall|j: int|
                0 <= j < i ==> !((#[trigger] dirs@[j]).name@ == name@ && dirs@[j].non_empty),
        decreases dirs.len() - i,
    {
        if dirs[i].name == *name && dirs[i].non_empty {
            return true;
        }
        i += 1;
    }
    false
}

fn dir_exists(dirs: &Vec<ReleaseDir>, name: &String) -> (r: bool)
    ensures
        r == has_release(dirs@, name@),
{
    let ghost all = release_names(dirs@);
    let mut i: usize = 0;
    while i < dirs.len()
        invariant
            i <= dirs@.len(),
            all == release_names(dirs@),
            forall|j: int| 0 <= j < i ==> all[j] != name@,
        decreases dirs.len() - i,
    {
        assert(all[i as int] == dirs@[i as int].name@);
        if dirs[i].name == *name {
            return true;
        }
        i += 1;
    }
    false
}

/// The releases in order.
fn sorted_releases(dirs: &Vec<ReleaseDir>) -> (r: Vec<String>)
    ensures
        texts(r@) == release_names(dirs@).sort_by(text_le()),
{
    let mut names: Vec<String> = Vec::new();
    let ghost all = release_names(dirs@);
    let mut i: usize = 0;
    assert(texts(names@) =~= all.take(0));
    while i < dirs.len()
        invariant
            i <= dirs@.len(),
            all == release_names(dirs@),
            texts(names@) == all.take(i as int),
        decreases dirs.len() - i,
    {
        proof {
            lemma_texts_push(names@, dirs@[i as int].name);
            assert(all.take(i as int + 1) =~= all.take(i as int).push(all[i as int]));
        }
        names.push(dirs[i].name.clone());
        i += 1;
    }
    assert(all.take(i as int) =~= all);
    sort_texts(names)
}

/// The paths of the kernel images in order.
fn sorted_images(staging: &str, boot_files: &Vec<String>) -> (r: Vec<String>)
    ensures
        texts(r@) == images(staging@, texts(boot_files@)),
{
    let boot = joined_path(staging, "boot");
    let ghost all = texts(boot_files@);
    let ghost at = |name: Seq<char>| join_path(join_path(staging@, "boot"@), name);
    let mut out: Vec<String> = Vec::new();
    let mut i: usize = 0;
    proof {
        reveal(Seq::filter);
        assert(all.take(0) =~= Seq::empty());
        assert(texts(out@) =~= all.take(0).filter(is_image_name()).map_values(at));
    }
    while i < boot_files.len()
        invariant
            i <= boot_files@.len(),
            all == texts(boot_files@),
            boot@ == join_path(staging@, "boot"@),
            at == (|name: Seq<char>| join_path(join_path(staging@, "boot"@), name)),
            texts(out@) == all.take(i as int).filter(is_image_name()).map_values(at),
        decreases boot_files.len() - i,
    {
        let ghost kept = all.take(i as int).filter(is_image_name());
        proof {
            reveal(Seq::filter);
            assert(all.take(i as int + 1).drop_last() =~= all.take(i as int));
            assert(all.take(i as int + 1).last() == boot_files@[i as int]@);
        }
        if starts_with(boot_files[i].as_str(), "vmlinuz") {
            let path = joined_path(boot.as_str(), boot_files[i].as_str());
            proof {
                lemma_texts_push(out@, path);
                assert(kept.push(boot_files@[i as int]@).map_values(at) =~= kept.map_values(
                    at,
                ).push(path@));
            }
            out.push(path);
        }
        i += 1;
    }
    assert(all.take(i as int) =~= all);
    sort_paths(out)
}

fn layout(staging: &str, release: String, vmlinuz: String) -> (r: KernelLayout)
    ensures
        is_layout(r, staging@, release@, vmlinuz@),
{
    let lib = joined_path(staging, "lib");
    let root = joined_path(lib.as_str(), "modules");
    let modules = joined_path(root.as_str(), release.as_str());
    KernelLayout { release, vmlinuz, modules }
}

/// Finds the kernel image and its modules in the staging tree `staging`.
///
/// `dirs` are the directories below `lib/modules` and `boot_files` the names of
/// the regular files in `boot`, in any order. An image named after a release
/// whose modules are there is preferred. Where an image is named after a release
/// whose directory is empty, that is an error. Only where no image is named after
/// a release at all are the first image and the first release taken.
pub fn detect_kernel_layout(
    staging: &str,
    dirs: &Vec<ReleaseDir>,
    boot_files: &Vec<String>,
) -> (r: Result<KernelLayout, KernelLayoutError>)
    ensures
        ({
            let found = images(staging@, texts(boot_files@));
            let releases = release_names(dirs@).sort_by(text_le());
            if dirs@.len() == 0 {
                r matches Err(KernelLayoutError::NoModules { release }) && release@ == "<none>"@
            } else if found.len() == 0 {
                r matches Err(KernelLayoutError::NoVmlinuz)
            } else if first_paired(found, dirs@) is Some {
                let image = first_paired(found, dirs@)->0;
                r matches Ok(l) && is_layout(l, staging@, suffix_of(image)->0, image)
            } else if first_matching(found, dirs@) is Some {
                r matches Err(KernelLayoutError::NoModules { release }) && Some(release@)
                    == first_matching(found, dirs@)
            } else if has_modules(dirs@, releases[0]) {
                r matches Ok(l) && is_layout(l, staging@, releases[0], found[0])
            } else {
                r matches Err(KernelLayoutError::NoModules { release }) && release@ == releases[0]
            }
        }),
{
    let releases = sorted_releases(dirs);
    proof {
        crate::order::lemma_text_order();
        release_names(dirs@).lemma_sort_by_ensures(text_le());
        vstd::seq_lib::to_multiset_len(release_names(dirs@));
        vstd::seq_lib::to_multiset_len(release_names(dirs@).sort_by(text_le()));
        assert(texts(releases@).len() == dirs@.len());
    }
    if dirs.is_empty() {
        return Err(KernelLayoutError::NoModules { release: String::from_str("<none>") });
    }
    let found = sorted_images(staging, boot_files);
    let ghost all = images(staging@, texts(boot_files@));
    if found.is_empty() {
        return Err(KernelLayoutError::NoVmlinuz);
    }
    let mut matching: Option<String> = None;
    let mut i: usize = 0;
    assert(all.skip(0) =~= all);
    while i < found.len()
        invariant
            i <= found@.len(),
            texts(found@) == all,
            all == images(staging@, texts(boot_files@)),
            all.len() > 0,
            dirs@.len() > 0,
            first_paired(all.skip(i as int), dirs@) == first_paired(all, dirs@),
            match matching {
                Some(release) => first_matching(all, dirs@) == Some(release@),
                None => first_matching(all.skip(i as int), dirs@) == first_matching(all, dirs@),
            },
        decreases found.len() - i,
    {
        assert(all[i as int] == found@[i as int]@);
        assert(all.skip(i as int)[0] == all[i as int]);
        assert(all.skip(i as int).skip(1) =~= all.skip(i as int + 1));
        if let Some(suffix) = vmlinuz_suffix(found[i].as_str()) {
            if dir_has_modules(dirs, &suffix) {
                return Ok(layout(staging, suffix, found[i].clone()));
            }
            if matching.is_none() && dir_exists(dirs, &suffix) {
                matching = Some(suffix);
            }
        }
        i += 1;
    }
    if let Some(release) = matching {
        return Err(KernelLayoutError::NoModules { release });
    }
    let release = releases[0].clone();
    assert(release@ == release_names(dirs@).sort_by(text_le())[0]);
    assert(found@[0]@ == all[0]);
    if !dir_has_modules(dirs, &release) {
        return Err(KernelLayoutError::NoModules { release });
    }
    Ok(layout(staging, release, found[0].clone()))
}

} // verus!
