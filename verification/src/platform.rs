//! Picking the image of a platform out of an index.
use vstd::prelude::*;
use crate::architecture::Architecture;
use crate::manifest::{EntryView, ImageIndex, IndexEntry};
use crate::text::same;

verus! {

/// Is the entry a Linux image for the architecture?
pub open spec fn is_for(e: EntryView, architecture: Architecture) -> bool {
    match e.platform {
        Some(p) => p.os == "linux"@ && p.architecture == architecture.oci_name(),
        None => false,
    }
}

/// Has the entry no variant of its architecture?
pub open spec fn is_plain(e: EntryView) -> bool {
    match e.platform {
        Some(p) => match p.variant {
            Some(v) => v.len() == 0,
            None => true,
        },
        None => false,
    }
}

/// The position of the first Linux image for the architecture from `from` on; with `plain`, of the
/// first without a variant.
pub open spec fn first_for(
    index: Seq<EntryView>,
    architecture: Architecture,
    plain: bool,
    from: int,
) -> Option<int>
    decreases index.len() - from,
{
    if from < 0 || from >= index.len() {
        None
    } else if is_for(index[from], architecture) && (plain ==> is_plain(index[from])) {
        Some(from)
    } else {
        first_for(index, architecture, plain, from + 1)
    }
}

/// The position of the image for the architecture: the first without a
/// variant, else the first.
pub open spec fn selected(index: Seq<EntryView>, architecture: Architecture) -> Option<int> {
    match first_for(index, architecture, true, 0) {
        Some(i) => Some(i),
        None => first_for(index, architecture, false, 0),
    }
}

fn matches(e: &IndexEntry, architecture: Architecture, plain: bool) -> (r: bool)
    ensures
        r == (is_for(e@, architecture) && (plain ==> is_plain(e@))),
{
    match &e.platform {
        Some(p) => {
            let bare = match &p.variant {
                Some(v) => v.as_str().is_empty(),
                None => true,
            };
            same(p.os.as_str(), "linux") && same(
                p.architecture.as_str(),
                architecture.oci_arch_string(),
            ) && (!plain || bare)
        },
        None => false,
    }
}

fn find(index: &ImageIndex, architecture: Architecture, plain: bool) -> (r: Option<usize>)
    ensures
        match r {
            Some(i) => i < index.manifests@.len() && first_for(index@, architecture, plain, 0) == Some(
                i as int,
            ),
            None => first_for(index@, architecture, plain, 0) is None,
        },
{
    let mut i: usize = 0;
    while i < index.manifests.len()
        invariant
            i <= index.manifests@.len(),
            first_for(index@, architecture, plain, 0) == first_for(
                index@,
                architecture,
                plain,
                i as int,
            ),
        decreases index.manifests.len() - i,
    {
        assert(index@[i as int] == index.manifests@[i as int]@);
        if matches(&index.manifests[i], architecture, plain) {
            return Some(i);
        }
        i += 1;
    }
    None
}

/// Picks the image for the architecture from an index. Another architecture is
/// never picked.
pub fn select_for_arch(index: &ImageIndex, architecture: Architecture) -> (r: Option<&IndexEntry>)
    ensures
        match r {
            Some(e) => selected(index@, architecture) matches Some(i) && 0 <= i < index@.len()
                && e@ == index@[i],
            None => selected(index@, architecture) is None,
        },
{
    match find(index, architecture, true) {
        Some(i) => Some(&index.manifests[i]),
        None => match find(index, architecture, false) {
            Some(i) => Some(&index.manifests[i]),
            None => None,
        },
    }
}

proof fn lemma_first_for(
    index: Seq<EntryView>,
    architecture: Architecture,
    plain: bool,
    from: int,
)
    requires
        0 <= from,
    ensures
        match first_for(index, architecture, plain, from) {
            Some(i) => from <= i < index.len() && is_for(index[i], architecture) && (plain
                ==> is_plain(index[i])) && forall|j: int|
                from <= j < i ==> !(is_for(#[trigger] index[j], architecture) && (plain
                    ==> is_plain(index[j]))),
            None => forall|i: int|
                from <= i < index.len() ==> !(is_for(#[trigger] index[i], architecture) && (plain
                    ==> is_plain(index[i]))),
        },
    decreases index.len() - from,
{
    if from < index.len() {
        lemma_first_for(index, architecture, plain, from + 1);
    }
}

/// What is picked is a Linux image for the architecture: the first without a
/// variant where there is any, else the first. Nothing is picked only where there
/// is none for the architecture.
pub proof fn lemma_selected(index: Seq<EntryView>, architecture: Architecture)
    ensures
        match selected(index, architecture) {
            Some(i) => {
                &&& 0 <= i < index.len()
                &&& is_for(index[i], architecture)
                &&& is_plain(index[i]) ==> forall|j: int|
                    0 <= j < i && is_for(#[trigger] index[j], architecture) ==> !is_plain(index[j])
                &&& !is_plain(index[i]) ==> (forall|j: int|
                    0 <= j < index.len() && is_for(#[trigger] index[j], architecture) ==> !is_plain(
                        index[j],
                    )) && (forall|j: int|
                    0 <= j < i ==> !is_for(#[trigger] index[j], architecture))
            },
            None => forall|j: int|
                0 <= j < index.len() ==> !is_for(#[trigger] index[j], architecture),
        },
{
    lemma_first_for(index, architecture, true, 0);
    lemma_first_for(index, architecture, false, 0);
}

} // verus!
