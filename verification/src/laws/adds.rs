//! What an `ADD` reads, where it puts it, what it refuses, and when its layer is
//! reused.
use vstd::prelude::*;
use vstd::utf8::*;
use crate::architecture::Architecture;
use crate::arg_subst::substitute;
use crate::ast::Add;
use crate::digest::{hex_digest, sha256};
use crate::engine_build::add::{
    add_history_line, check_source, compute_add_destination, from_stage_key, image_add_key,
    local_add_key, path_within_upper, place_payload, plan_add, reject_traversal, AddPlan, Format,
    Placement,
};
use crate::engine_build::cache::{
    add_source_digest, add_text, cache_entry_path, content_bytes, cross_stage_add_text,
    digest_add_text, entry_bytes, lemma_listing_change, lemma_mode_line_cut, mode_line, parent_key,
    path_order, source_bytes, SourceContent, TreeEntry, TreeKind,
};
use crate::engine_build::error::EngineBuildError;
use crate::engine_build::fetch::{
    choose_address, redirect_failure, url_leaf, AddressCheck, FetchWalk, UrlView,
};
use crate::engine_build::state::BuildState;
use crate::fsutil::PathRefusal;
use crate::order::{lemma_path_order, path_le};
use crate::path::{
    components, file_name, is_name, is_parent_step, lemma_components_concat, lemma_split_concat,
    names, steps_up,
};
use crate::text::{contains_text, lemma_split_nonempty, occurs_at, split, split_once_spec};
use crate::text_map::TextMap;
use super::aid::{lemma_cut, lemma_occurs, lemma_same_tail, lemma_split_at, lemma_split_whole};
use super::cache_keys::{
    lemma_add_text_fields, lemma_digest_add_fields, lemma_same_text, names_two, one_line, spells,
};
use super::container::{lemma_parent_one_line, lemma_target_names};

verus! {

/// Is one of the segments of the path, between slashes, `..`?
pub open spec fn has_dot_dot(path: Seq<char>) -> bool {
    split(path, '/').contains(seq!['.', '.'])
}

proof fn lemma_dot_dot(path: Seq<char>)
    ensures
        steps_up(path) == has_dot_dot(path),
{
    let parts = split(path, '/');
    if has_dot_dot(path) {
        let i = parts.index_of(seq!['.', '.']);
        assert(is_parent_step(parts[i]));
    }
    if steps_up(path) {
        let i = choose|i: int| 0 <= i < parts.len() && is_parent_step(#[trigger] parts[i]);
        assert(parts[i] == seq!['.', '.']);
    }
}

/// `..` behind or before a slash, or alone, is found wherever it stands.
pub proof fn lemma_dot_dot_found(a: Seq<char>, b: Seq<char>)
    ensures
        has_dot_dot(seq!['.', '.']),
        has_dot_dot(seq!['.', '.', '/'] + b),
        has_dot_dot(a + seq!['/', '.', '.']),
        has_dot_dot(a + seq!['/', '.', '.', '/'] + b),
{
    let d = seq!['.', '.'];
    lemma_split_whole(d, '/');
    assert(split(d, '/')[0] == d);
    assert(seq!['.', '.', '/'] + b =~= d + seq!['/'] + b);
    lemma_split_at(d, b, '/');
    assert(split(d + seq!['/'] + b, '/')[0] == d);
    assert(a + seq!['/', '.', '.'] =~= a + seq!['/'] + d);
    lemma_split_at(a, d, '/');
    let n = split(a, '/').len() as int;
    assert(split(a + seq!['/'] + d, '/')[n] == d);
    assert(a + seq!['/', '.', '.', '/'] + b =~= a + seq!['/'] + (d + seq!['/'] + b));
    lemma_split_at(a, d + seq!['/'] + b, '/');
    assert(split(a + seq!['/'] + (d + seq!['/'] + b), '/')[n] == d);
}

/// A path is refused exactly where one of its segments is `..`.
pub proof fn lemma_traversal(kind: &'static str, raw: &str, r: Result<(), EngineBuildError>)
    requires
        call_ensures(reject_traversal, (kind, raw), r),
    ensures
        r is Ok <==> !has_dot_dot(raw@),
{
    lemma_dot_dot(raw@);
}

/// `path` without the slashes that it starts with.
pub open spec fn is_below_root(path: Seq<char>, below: Seq<char>) -> bool {
    &&& below.len() > 0 ==> below[0] != '/'
    &&& below.is_suffix_of(path)
    &&& forall|i: int| 0 <= i < path.len() - below.len() ==> #[trigger] path[i] == '/'
}

proof fn lemma_trimmed(s: Seq<char>)
    ensures
        is_below_root(s, crate::text::trim_start_char(s, '/')),
    decreases s.len(),
{
    let t = crate::text::trim_start_char(s, '/');
    if s.len() > 0 && s[0] == '/' {
        lemma_trimmed(s.skip(1));
        assert(t.len() <= s.skip(1).len());
        assert(t =~= s.skip(1).subrange(s.skip(1).len() - t.len(), s.skip(1).len() as int));
        assert(t =~= s.subrange(s.len() - t.len(), s.len() as int)) by {
            assert forall|i: int| 0 <= i < t.len() implies t[i] == s[s.len() - t.len() + i] by {
                assert(t[i] == s.skip(1).subrange(
                    s.skip(1).len() - t.len(),
                    s.skip(1).len() as int,
                )[i]);
            }
        }
        assert forall|i: int| 0 <= i < s.len() - t.len() implies #[trigger] s[i] == '/' by {
            if i > 0 {
                assert(s.skip(1)[i - 1] == s[i]);
            }
        }
    } else {
        assert(t =~= s.subrange(0, s.len() as int));
    }
}

/// An `ADD` of a path reads it, references replaced, below the build context or
/// below the root of the stage that it names, and puts it at its destination,
/// references replaced. It is refused where either has a `..`, and where the stage
/// was not built.
pub proof fn lemma_add_path(
    state: &BuildState,
    add: &Add,
    produced: &TextMap<String>,
    fetched: &TextMap<String>,
    r: Result<AddPlan, EngineBuildError>,
    line: String,
)
    requires
        call_ensures(add_history_line, (add,), line),
        call_ensures(plan_add, (state, add, produced, fetched), r),
        add.source is Path,
    ensures
        ({
            let src = substitute(add.source->Path_0@, state@.scope);
            let dst = substitute(add.destination@, state@.scope);
            &&& has_dot_dot(src) ==> (r matches Err(EngineBuildError::AddPathTraversal {
                kind,
                path,
            }) && kind@ == "source"@ && path@ == add.source->Path_0@)
            &&& !has_dot_dot(src) && has_dot_dot(dst) ==> (
            r matches Err(EngineBuildError::AddPathTraversal { kind, path }) && kind@
                == "destination"@ && path@ == add.destination@)
            &&& !has_dot_dot(src) && !has_dot_dot(dst) && add.from is None ==> (
            r matches Ok(AddPlan::Local { source, below_context, destination, history_line })
                && source@ == add.source->Path_0@ && is_below_root(src, below_context@)
                && destination@ == dst && history_line@ == line@)
            &&& !has_dot_dot(src) && !has_dot_dot(dst) && (add.from matches Some(f)
                && produced@.dom().contains(f@)) ==> (r matches Ok(AddPlan::FromStage {
                stage,
                producer_ref,
                written,
                source,
                below_root,
                destination,
                history_line,
            }) && stage@ == add.from->0@ && producer_ref@ == produced@[add.from->0@]@ && source@
                == src && written@ == add.source->Path_0@ && is_below_root(src, below_root@)
                && destination@ == dst && history_line@ == line@)
            &&& !has_dot_dot(src) && !has_dot_dot(dst) && (add.from matches Some(f)
                && !produced@.dom().contains(f@)) ==> (
            r matches Err(EngineBuildError::AddFromUnknownStage { stage }) && stage@
                == add.from->0@)
        }),
{
    let src = substitute(add.source->Path_0@, state@.scope);
    let dst = substitute(add.destination@, state@.scope);
    lemma_dot_dot(src);
    lemma_dot_dot(dst);
    lemma_trimmed(src);
}

/// An `ADD` of a URL puts what was fetched from it, references replaced, at its
/// destination, references replaced. It is refused where the destination has a
/// `..`, and where nothing was fetched.
pub proof fn lemma_add_url(
    state: &BuildState,
    add: &Add,
    produced: &TextMap<String>,
    fetched: &TextMap<String>,
    r: Result<AddPlan, EngineBuildError>,
    line: String,
)
    requires
        call_ensures(add_history_line, (add,), line),
        call_ensures(plan_add, (state, add, produced, fetched), r),
        add.source is Url,
    ensures
        ({
            let place = substitute(add.source->Url_0@, state@.scope);
            let dst = substitute(add.destination@, state@.scope);
            &&& add.plain_copy ==> (r matches Err(EngineBuildError::CopyRemoteSource {
                reference,
                ..
            }) && reference@ == add.source->Url_0@)
            &&& !add.plain_copy && has_dot_dot(dst) ==> (
            r matches Err(EngineBuildError::AddPathTraversal { kind, path }) && kind@
                == "destination"@ && path@ == add.destination@)
            &&& !add.plain_copy && !has_dot_dot(dst) && !fetched@.dom().contains(place) ==> (
            r matches Err(EngineBuildError::AddUrlFetchFailed { url, .. }) && url@ == place)
            &&& !add.plain_copy && !has_dot_dot(dst) && fetched@.dom().contains(place) ==> (
            r matches Ok(AddPlan::Url { url, digest, destination, history_line, .. }) && url@
                == place && digest@ == fetched@[place]@ && destination@ == dst && history_line@
                == line@)
        }),
{
    let dst = substitute(add.destination@, state@.scope);
    lemma_dot_dot(dst);
}

/// An `ADD` of an image takes the image that the reference stands for, references
/// replaced. `COPY` takes none.
pub proof fn lemma_add_image(
    state: &BuildState,
    add: &Add,
    produced: &TextMap<String>,
    fetched: &TextMap<String>,
    r: Result<AddPlan, EngineBuildError>,
    line: String,
)
    requires
        call_ensures(add_history_line, (add,), line),
        call_ensures(plan_add, (state, add, produced, fetched), r),
        add.source is Oci,
    ensures
        ({
            let text = substitute(add.source->Oci_0@, state@.scope);
            let dst = substitute(add.destination@, state@.scope);
            &&& add.plain_copy ==> (r matches Err(EngineBuildError::CopyRemoteSource {
                reference,
                ..
            }) && reference@ == add.source->Oci_0@)
            &&& !add.plain_copy && has_dot_dot(dst) ==> (
            r matches Err(EngineBuildError::AddPathTraversal { kind, path }) && kind@
                == "destination"@ && path@ == add.destination@)
            &&& !add.plain_copy && !has_dot_dot(dst) && crate::reference::reference_of(text) is Err
                ==> (r matches Err(EngineBuildError::InvalidReference(x, why)) && x@ == text && why@
                == crate::reference::reference_of(text)->Err_0)
            &&& !add.plain_copy && !has_dot_dot(dst) && (crate::reference::reference_of(
                text,
            ) matches Ok(parts)) ==> (r matches Ok(AddPlan::Image {
                canonical,
                destination,
                history_line,
            }) && canonical@ == crate::reference::reference_of(text)->Ok_0.1 && destination@ == dst
                && history_line@ == line@)
        }),
{
    let dst = substitute(add.destination@, state@.scope);
    lemma_dot_dot(dst);
}

/// The history keeps an `ADD` as it is written: the instruction, the stage if it
/// names one, the source and the destination.
pub proof fn lemma_add_history(add: &Add, r: String)
    requires
        call_ensures(add_history_line, (add,), r),
    ensures
        add.source is Path && add.from is None && !add.plain_copy ==> r@ == "ADD "@
            + add.source->Path_0@ + " "@ + add.destination@,
        add.source is Path && add.from is None && add.plain_copy ==> r@ == "COPY "@
            + add.source->Path_0@ + " "@ + add.destination@,
        add.source is Path && add.from is Some && !add.plain_copy ==> r@ == "ADD --from="@
            + add.from->0@ + " "@ + add.source->Path_0@ + " "@ + add.destination@,
        add.source is Path && add.from is Some && add.plain_copy ==> r@ == "COPY --from="@
            + add.from->0@ + " "@ + add.source->Path_0@ + " "@ + add.destination@,
        add.source is Url ==> r@ == "ADD "@ + add.source->Url_0@ + " "@ + add.destination@,
        add.source is Oci ==> r@ == "ADD "@ + add.source->Oci_0@ + " "@ + add.destination@,
{
    lemma_verbs();
}

proof fn lemma_verbs()
    ensures
        "ADD"@ + " "@ == "ADD "@,
        "COPY"@ + " "@ == "COPY "@,
        "ADD"@ + " --from="@ == "ADD --from="@,
        "COPY"@ + " --from="@ == "COPY --from="@,
{
    reveal_strlit("ADD ");
    reveal_strlit("ADD");
    reveal_strlit("COPY ");
    reveal_strlit("COPY");
    reveal_strlit(" ");
    reveal_strlit(" --from=");
    reveal_strlit("ADD --from=");
    reveal_strlit("COPY --from=");
    assert("ADD"@ + " "@ =~= "ADD "@);
    assert("COPY"@ + " "@ =~= "COPY "@);
    assert("ADD"@ + " --from="@ =~= "ADD --from="@);
    assert("COPY"@ + " --from="@ =~= "COPY --from="@);
}

proof fn lemma_last_name(dir: Seq<char>, name: Seq<char>)
    requires
        name.len() > 0,
        name != seq!['.'],
        name != seq!['.', '.'],
        !name.contains('/'),
    ensures
        file_name(dir + seq!['/'] + name) == Some(name),
        file_name(name) == Some(name),
{
    let keep = |p: Seq<char>| is_name(p);
    lemma_split_concat(dir, name);
    crate::path::lemma_single_name(name);
    Seq::filter_distributes_over_add(split(dir, '/'), split(name, '/'), keep);
    assert(names(dir + seq!['/'] + name) =~= names(dir) + seq![name]);
}

/// A destination with a slash at its end is a directory that the source is put
/// into by its name; any other is the name of a file itself.
pub proof fn lemma_destination(
    dst: &str,
    src: &str,
    is_dir: bool,
    r: String,
    dir: Seq<char>,
    name: Seq<char>,
)
    requires
        call_ensures(compute_add_destination, (dst, src, is_dir), r),
        src@ == dir + seq!['/'] + name || src@ == name,
        name.len() > 0,
        name != seq!['.'],
        name != seq!['.', '.'],
        !name.contains('/'),
    ensures
        dst@.len() > 0 && dst@.last() == '/' ==> r@ == dst@ + name,
        dst@.len() > 0 && dst@.last() != '/' && !is_dir ==> r@ == dst@,
        dst@.len() > 0 && dst@.last() != '/' && is_dir ==> r@ == dst@ + seq!['/'],
{
    reveal_strlit("/");
    assert("/"@ =~= seq!['/']);
    lemma_last_name(dir, name);
}

/// A source without a name of its own is put into a directory as `file`.
pub proof fn lemma_nameless_source(dst: &str, src: &str, is_dir: bool, r: String)
    requires
        call_ensures(compute_add_destination, (dst, src, is_dir), r),
        src@ == seq!['.', '.'] || src@ == seq!['/'] || src@.len() == 0,
        dst@.len() > 0,
        dst@.last() == '/',
    ensures
        r@ == dst@ + "file"@,
{
    let none = Seq::<char>::empty();
    lemma_split_whole(none, '/');
    let keep = |p: Seq<char>| is_name(p);
    reveal(Seq::filter);
    if src@ == seq!['.', '.'] {
        assert(!src@.contains('/')) by {
            if src@.contains('/') {
                let k = src@.index_of('/');
                assert(src@[k] == '/');
            }
        }
        crate::path::lemma_single_name(src@);
        assert(names(src@).last() == src@);
    } else {
        let one = seq![none];
        assert(one.drop_last() =~= Seq::empty());
        assert(one.drop_last().filter(keep) =~= Seq::empty());
        assert(one.filter(keep) =~= Seq::empty());
        if src@.len() == 0 {
            assert(src@ =~= none);
            assert(names(src@) =~= Seq::empty());
        } else {
            assert(src@ =~= none + seq!['/'] + none);
            lemma_split_concat(none, none);
            Seq::filter_distributes_over_add(split(none, '/'), split(none, '/'), keep);
            assert(names(src@) =~= Seq::empty());
        }
    }
}

/// A path of the image lies below the root of the layer by the same names.
pub proof fn lemma_within_upper(root: &str, dst: &str, r: String, rel: Seq<char>)
    requires
        call_ensures(path_within_upper, (root, dst), r),
        root@.len() > 0,
        root@.last() != '/',
        rel.len() > 0 ==> rel[0] != '/',
        dst@ == rel || dst@ == seq!['/'] + rel,
    ensures
        r@ == root@ + seq!['/'] + rel,
{
    assert(crate::text::trim_start_char(rel, '/') == rel);
    let s = seq!['/'] + rel;
    assert(s.skip(1) =~= rel);
    assert(crate::text::trim_start_char(s, '/') == rel);
}

proof fn lemma_split_extend(a: Seq<char>, b: Seq<char>)
    ensures
        split(a + b, '/') == split(a, '/').drop_last() + seq![
            split(a, '/').last() + split(b, '/')[0],
        ] + split(b, '/').skip(1),
    decreases b.len(),
{
    let x = split(a, '/');
    lemma_split_nonempty(a, '/');
    lemma_split_nonempty(b, '/');
    if b.len() == 0 {
        assert(a + b =~= a);
        assert(split(b, '/') =~= seq![b]);
        assert(x.last() + b =~= x.last());
        assert(x =~= x.drop_last() + seq![x.last() + split(b, '/')[0]] + split(b, '/').skip(1));
    } else {
        let c = b.drop_last();
        lemma_split_extend(a, c);
        lemma_split_nonempty(c, '/');
        let y = split(c, '/');
        let z = split(b, '/');
        let s = a + b;
        assert(s.drop_last() =~= a + c);
        assert(s.last() == b.last());
        let before = split(a + c, '/');
        assert(before == x.drop_last() + seq![x.last() + y[0]] + y.skip(1));
        if b.last() == '/' {
            assert(z == y.push(Seq::empty()));
            assert(split(s, '/') =~= x.drop_last() + seq![x.last() + z[0]] + z.skip(1));
        } else {
            assert(z == y.drop_last().push(y.last().push(b.last())));
            if y.len() == 1 {
                assert(before.last() == x.last() + y[0]);
                assert((x.last() + y[0]).push(b.last()) =~= x.last() + z[0]);
                assert(split(s, '/') =~= x.drop_last() + seq![x.last() + z[0]] + z.skip(1));
            } else {
                assert(before.last() == y.last());
                assert(split(s, '/') =~= x.drop_last() + seq![x.last() + z[0]] + z.skip(1));
            }
        }
    }
}

/// A path that only starts with the text of a directory is not below it.
#[verifier::rlimit(40)]
proof fn lemma_sibling(root: Seq<char>, more: Seq<char>)
    requires
        root.len() > 0,
        root[0] == '/',
        root.last() != '/',
        split(root, '/').last() != seq!['.'],
        more.len() > 0,
        more[0] != '/',
    ensures
        !components(root).is_prefix_of(components(root + more)),
{
    let keep = |p: Seq<char>| is_name(p);
    let path = root + more;
    let x = split(root, '/');
    let y = split(more, '/');
    lemma_split_nonempty(root, '/');
    lemma_split_nonempty(more, '/');
    lemma_split_extend(root, more);
    lemma_first_part(more);
    assert(root =~= root.drop_last().push(root.last()));
    lemma_split_nonempty(root.drop_last(), '/');
    assert(x.last().len() > 0);
    let front = x.drop_last();
    let ext = x.last() + y[0];
    assert(ext.len() > x.last().len());
    assert(x =~= front + seq![x.last()]);
    assert(split(path, '/') =~= front + (seq![ext] + y.skip(1)));
    Seq::filter_distributes_over_add(front, seq![x.last()], keep);
    Seq::filter_distributes_over_add(front, seq![ext] + y.skip(1), keep);
    Seq::filter_distributes_over_add(seq![ext], y.skip(1), keep);
    lemma_filter_one(x.last());
    assert(ext.len() > 1 || ext =~= ext);
    assert(is_name(ext)) by {
        if ext == seq!['.'] {
            assert(ext.len() == 1);
            assert(x.last().len() == 0);
        }
    }
    lemma_filter_one(ext);
    let f = front.filter(keep);
    assert(names(root) =~= f + seq![x.last()]);
    assert(names(path) =~= f + seq![ext] + y.skip(1).filter(keep));
    let n = f.len() as int;
    if components(root).is_prefix_of(components(path)) {
        assert(components(root)[n + 1] == x.last());
        assert(components(path)[n + 1] == ext);
        assert(components(root) == components(path).subrange(0, n + 2));
    }
}

proof fn lemma_first_part(s: Seq<char>)
    requires
        s.len() > 0,
        s[0] != '/',
    ensures
        split(s, '/')[0].len() > 0,
    decreases s.len(),
{
    let t = s.drop_last();
    lemma_split_nonempty(t, '/');
    if t.len() > 0 {
        lemma_first_part(t);
    }
}

proof fn lemma_filter_one(w: Seq<char>)
    requires
        is_name(w),
    ensures
        seq![w].filter(|p: Seq<char>| is_name(p)) == seq![w],
{
    reveal_with_fuel(Seq::filter, 2);
    let one = seq![w];
    assert(one.drop_last() =~= Seq::empty());
    assert(one.filter(|p: Seq<char>| is_name(p)) =~= one);
}

/// A source counts as inside its root where its real path is the root or below it,
/// by whole names: one whose path only starts with the text of the root is outside.
/// A source that is not there is an error by itself.
pub proof fn lemma_source_contained(
    root: &str,
    resolved: &str,
    canonical: Option<&str>,
    path: &str,
    context: &str,
    r: Result<(), EngineBuildError>,
    more: Seq<char>,
)
    requires
        call_ensures(check_source, (root, resolved, canonical, path, context), r),
        root@.len() > 1,
        root@[0] == '/',
        root@.last() != '/',
        split(root@, '/').last() != seq!['.'],
    ensures
        canonical is None ==> (r matches Err(EngineBuildError::AddSourceNotFound { .. })),
        canonical matches Some(c) && c@ == root@ ==> r is Ok,
        canonical matches Some(c) && c@ == root@ + seq!['/'] + more ==> r is Ok,
        canonical matches Some(c) && c@ == root@ + more && more.len() > 0 && more[0] != '/' ==> (
        r matches Err(EngineBuildError::Path(PathRefusal::OutsideRoot { .. }))),
{
    lemma_components_concat(root@, more);
    let all = components(root@ + seq!['/'] + more);
    assert(components(root@) =~= all.subrange(0, components(root@).len() as int));
    assert(components(root@) =~= components(root@).subrange(0, components(root@).len() as int));
    if more.len() > 0 && more[0] != '/' {
        lemma_sibling(root@, more);
    }
}

/// A fetched tar archive, plain or gzipped, is unpacked at the destination; other
/// archives are refused; anything else is put there as a file, in a directory under
/// the name that the URL implies.
pub proof fn lemma_payload(
    format: Format,
    url: &str,
    destination: &str,
    r: Result<Placement, EngineBuildError>,
    leaf: String,
)
    requires
        call_ensures(place_payload, (format, url, destination), r),
        call_ensures(url_leaf, (url,), leaf),
    ensures
        format == Format::Tar || format == Format::Gzip ==> (
        r matches Ok(Placement::Unpack { directory }) && directory@ == destination@),
        format == Format::Zstd || format == Format::Xz || format == Format::Bzip2 || format
            == Format::Squashfs ==> (
        r matches Err(EngineBuildError::AddUrlArchiveUnsupported { .. })),
        format == Format::Unknown && destination@.len() > 0 && destination@.last() != '/'
            && !has_dot_dot(destination@) ==> (r matches Ok(Placement::File { path }) && path@
            == destination@),
        format == Format::Unknown && destination@.len() > 0 && destination@.last() == '/'
            && !has_dot_dot(destination@ + leaf@) ==> (r matches Ok(Placement::File { path })
            && path@ == destination@ + leaf@),
        format == Format::Unknown && destination@.len() > 0 && destination@.last() == '/'
            && has_dot_dot(destination@ + leaf@) ==> r is Err,
{
    lemma_dot_dot(destination@);
    lemma_dot_dot(destination@ + leaf@);
}

#[verifier::rlimit(40)]
proof fn lemma_scheme_cut(scheme: Seq<char>, rest: Seq<char>)
    requires
        !scheme.contains(':'),
    ensures
        split_once_spec(scheme + "://"@ + rest, "://"@) == Some((scheme, rest)),
{
    reveal_strlit("://");
    let sep = "://"@;
    let s = scheme + sep + rest;
    let n = scheme.len() as int;
    assert(s.subrange(n, n + 3) =~= sep);
    assert(occurs_at(s, sep, n));
    assert forall|j: int| 0 <= j < n implies !occurs_at(s, sep, j) by {
        if occurs_at(s, sep, j) {
            assert(s.subrange(j, j + 3)[0] == ':');
            assert(s[j] == scheme[j]);
            assert(scheme.contains(scheme[j]));
        }
    }
    let i = crate::text::first_occurrence(s, sep);
    assert(occurs_at(s, sep, i) && forall|j: int| 0 <= j < i ==> !occurs_at(s, sep, j));
    assert(i == n);
    assert(s.take(n) =~= scheme);
    assert(s.skip(n + 3) =~= rest);
}

proof fn lemma_no_mark(a: Seq<char>, b: Seq<char>, c: char)
    requires
        !a.contains(c),
        !b.contains(c),
    ensures
        !(a + b).contains(c),
{
    if (a + b).contains(c) {
        let i = (a + b).index_of(c);
        assert((a + b)[i] == c);
        if i < a.len() {
            assert(a[i] == c);
        } else {
            assert(b[i - a.len()] == c);
        }
    }
}

/// Is it free of the marks of a query and of a fragment?
pub open spec fn is_unmarked(s: Seq<char>) -> bool {
    !s.contains('#') && !s.contains('?')
}

#[verifier::rlimit(40)]
proof fn lemma_url_path(scheme: Seq<char>, path: Seq<char>, tail: Seq<char>)
    requires
        is_unmarked(scheme),
        !scheme.contains(':'),
        is_unmarked(path),
        tail.len() > 0 ==> tail[0] == '#' || tail[0] == '?',
    ensures
        crate::engine_build::fetch::url_path(scheme + "://"@ + path + tail) == path,
{
    reveal_strlit("://");
    let sep = "://"@;
    assert(is_unmarked(sep)) by {
        if sep.contains('#') {
            let i = sep.index_of('#');
            assert(sep[i] == '#');
        }
        if sep.contains('?') {
            let i = sep.index_of('?');
            assert(sep[i] == '?');
        }
    }
    lemma_no_mark(scheme, sep, '#');
    lemma_no_mark(scheme, sep, '?');
    lemma_no_mark(scheme + sep, path, '#');
    lemma_no_mark(scheme + sep, path, '?');
    lemma_head(scheme + sep + path, tail);
    lemma_scheme_cut(scheme, path);
}

/// The name that a URL implies is the last segment of its path, without query and
/// fragment.
pub proof fn lemma_url_name(
    url: &str,
    r: String,
    scheme: Seq<char>,
    place: Seq<char>,
    name: Seq<char>,
    tail: Seq<char>,
)
    requires
        call_ensures(url_leaf, (url,), r),
        is_unmarked(scheme) && !scheme.contains(':'),
        is_unmarked(place) && place.len() > 0,
        name.len() > 0,
        is_unmarked(name) && !name.contains('/'),
        tail.len() > 0 ==> tail[0] == '#' || tail[0] == '?',
        url@ == scheme + "://"@ + (place + seq!['/'] + name) + tail,
    ensures
        r@ == name,
{
    let path = place + seq!['/'] + name;
    assert(is_unmarked(seq!['/'])) by {
        if seq!['/'].contains('#') {
            let i = seq!['/'].index_of('#');
            assert(seq!['/'][i] == '#');
        }
        if seq!['/'].contains('?') {
            let i = seq!['/'].index_of('?');
            assert(seq!['/'][i] == '?');
        }
    }
    lemma_no_mark(place, seq!['/'], '#');
    lemma_no_mark(place, seq!['/'], '?');
    lemma_no_mark(place + seq!['/'], name, '#');
    lemma_no_mark(place + seq!['/'], name, '?');
    lemma_url_path(scheme, path, tail);
    lemma_split_at(place, name, '/');
    lemma_split_whole(name, '/');
    assert(split(path, '/').last() == name);
    assert(path.len() > name.len());
}

/// A URL without a path, or with one that ends in a slash, implies `download`.
pub proof fn lemma_url_no_name(
    url: &str,
    r: String,
    scheme: Seq<char>,
    place: Seq<char>,
    tail: Seq<char>,
)
    requires
        call_ensures(url_leaf, (url,), r),
        is_unmarked(scheme) && !scheme.contains(':'),
        is_unmarked(place),
        !place.contains('/') || place.last() == '/',
        tail.len() > 0 ==> tail[0] == '#' || tail[0] == '?',
        url@ == scheme + "://"@ + place + tail,
    ensures
        r@ == "download"@,
{
    lemma_url_path(scheme, place, tail);
    if !place.contains('/') {
        lemma_split_whole(place, '/');
    } else {
        let front = place.drop_last();
        assert(place =~= front + seq!['/'] + Seq::<char>::empty());
        lemma_split_at(front, Seq::empty(), '/');
        lemma_split_whole(Seq::empty(), '/');
        assert(split(place, '/').last() =~= Seq::<char>::empty());
    }
}

/// What precedes the query and the fragment.
proof fn lemma_head(plain: Seq<char>, tail: Seq<char>)
    requires
        !plain.contains('#'),
        !plain.contains('?'),
        tail.len() > 0 ==> tail[0] == '#' || tail[0] == '?',
    ensures
        split(split(plain + tail, '#')[0], '?')[0] == plain,
{
    let s = plain + tail;
    lemma_split_whole(plain, '#');
    lemma_split_whole(plain, '?');
    if tail.len() == 0 {
        assert(s =~= plain);
    } else if tail[0] == '#' {
        assert(s =~= plain + seq!['#'] + tail.skip(1));
        lemma_split_at(plain, tail.skip(1), '#');
    } else {
        // The fragment, if there is one, lies behind the query.
        lemma_split_nonempty(s, '#');
        lemma_front_kept(plain + seq!['?'], tail.skip(1), '#');
        assert(s =~= plain + seq!['?'] + tail.skip(1));
        let h = split(s, '#')[0];
        let rest = h.skip(plain.len() as int + 1);
        assert(h =~= plain + seq!['?'] + rest);
        lemma_split_at(plain, rest, '?');
    }
}

proof fn lemma_front_kept(a: Seq<char>, b: Seq<char>, c: char)
    requires
        !a.contains(c),
    ensures
        a.is_prefix_of(split(a + b, c)[0]),
    decreases b.len(),
{
    let s = a + b;
    if b.len() == 0 {
        assert(s =~= a);
        lemma_split_whole(a, c);
        assert(a =~= a.subrange(0, a.len() as int));
    } else {
        lemma_front_kept(a, b.drop_last(), c);
        assert(s.drop_last() =~= a + b.drop_last());
        lemma_split_nonempty(s.drop_last(), c);
        let before = split(s.drop_last(), c)[0];
        let now = split(s, c)[0];
        assert(a =~= before.subrange(0, a.len() as int));
        assert(a =~= now.subrange(0, a.len() as int)) by {
            if s.last() != c && split(s.drop_last(), c).len() == 1 {
                assert(now == before.push(s.last()));
                assert forall|i: int| 0 <= i < a.len() implies a[i] == now[i] by {
                    assert(before.subrange(0, a.len() as int)[i] == before[i]);
                }
            } else {
                assert(now == before);
            }
        }
    }
}

/// Two files have the same digest only where they have the same bytes, the same
/// permission bits and the same name.
pub proof fn lemma_file_digest(
    name1: Vec<u8>,
    mode1: u32,
    bytes1: Vec<u8>,
    r1: String,
    name2: Vec<u8>,
    mode2: u32,
    bytes2: Vec<u8>,
    r2: String,
)
    requires
        call_ensures(
            add_source_digest,
            (&SourceContent::File { name: name1, mode: mode1, bytes: bytes1 },),
            r1,
        ),
        call_ensures(
            add_source_digest,
            (&SourceContent::File { name: name2, mode: mode2, bytes: bytes2 },),
            r2,
        ),
        !name1@.contains(10u8),
        !name2@.contains(10u8),
        r1@ == r2@,
        !names_two(r1@),
    ensures
        bytes1@ == bytes2@,
        mode1 % 0o10000 == mode2 % 0o10000,
        name1@ == name2@,
{
    let t1 = source_bytes(SourceContent::File { name: name1, mode: mode1, bytes: bytes1 });
    let t2 = source_bytes(SourceContent::File { name: name2, mode: mode2, bytes: bytes2 });
    lemma_same_bytes(t1, t2);
    let head = encode_utf8("file:"@);
    let end = encode_utf8("\n"@);
    lemma_line_end();
    crate::digest::lemma_encode_concat("\n"@, mode_line(mode1));
    crate::digest::lemma_encode_concat("\n"@, mode_line(mode2));
    let x1 = encode_utf8(mode_line(mode1)) + bytes1@;
    let x2 = encode_utf8(mode_line(mode2)) + bytes2@;
    assert(t1 =~= head + (name1@ + seq![10u8] + x1));
    assert(t2 =~= head + (name2@ + seq![10u8] + x2));
    lemma_same_tail(head, name1@ + seq![10u8] + x1, name2@ + seq![10u8] + x2);
    lemma_cut(name1@, x1, name2@, x2, 10u8);
    lemma_mode_line_cut(mode1, bytes1@, mode2, bytes2@);
}

proof fn lemma_line_end()
    ensures
        encode_utf8("\n"@) == seq![10u8],
{
    reveal_strlit("\n");
    assert("\n"@ =~= seq!['\n']);
    assert(is_ascii_chars("\n"@));
    is_ascii_chars_encode_utf8("\n"@);
    assert(encode_utf8("\n"@) =~= seq![10u8]);
}

proof fn lemma_same_bytes(a: Seq<u8>, b: Seq<u8>)
    requires
        hex_digest(a) == hex_digest(b),
    ensures
        a == b || names_two(hex_digest(a)),
{
    super::cache_keys::lemma_spells(sha256(a));
    super::cache_keys::lemma_spells(sha256(b));
    if a != b {
        assert(spells(hex_digest(a), sha256(a)));
        assert(spells(hex_digest(a), sha256(b)));
    }
}

/// Do the entries differ in what a layer would hold of them: in the path, the
/// permission bits, the bytes of a file or the target of a link?
pub open spec fn differ(e: TreeEntry, f: TreeEntry) -> bool {
    ||| e.path@ != f.path@
    ||| e.mode % 0o10000 != f.mode % 0o10000
    ||| (e.kind matches TreeKind::File(x) && f.kind matches TreeKind::File(y) && x@ != y@)
    ||| (e.kind matches TreeKind::Symlink(x) && f.kind matches TreeKind::Symlink(y) && x@ != y@)
}

#[verifier::rlimit(40)]
proof fn lemma_entries_differ(e: TreeEntry, f: TreeEntry)
    requires
        one_line(e.path@),
        one_line(f.path@),
        differ(e, f),
    ensures
        entry_bytes(e) != entry_bytes(f),
{
    let end = encode_utf8("\n"@);
    let c1 = content_bytes(e.kind);
    let c2 = content_bytes(f.kind);
    reveal_strlit("\n");
    assert("\n"@ =~= seq!['\n']);
    if entry_bytes(e) == entry_bytes(f) {
        crate::digest::lemma_encode_concat(e.path@ + "\n"@, mode_line(e.mode));
        crate::digest::lemma_encode_concat(f.path@ + "\n"@, mode_line(f.mode));
        crate::digest::lemma_encode_concat(e.path@, "\n"@);
        crate::digest::lemma_encode_concat(f.path@, "\n"@);
        lemma_line_end();
        let x1 = encode_utf8(mode_line(e.mode)) + (c1 + end);
        let x2 = encode_utf8(mode_line(f.mode)) + (c2 + end);
        let p1 = encode_utf8(e.path@);
        let p2 = encode_utf8(f.path@);
        assert(entry_bytes(e) =~= p1 + seq![10u8] + x1);
        assert(entry_bytes(f) =~= p2 + seq![10u8] + x2);
        lemma_no_line_end(e.path@);
        lemma_no_line_end(f.path@);
        lemma_cut(p1, x1, p2, x2, 10u8);
        encode_utf8_decode_utf8(e.path@);
        encode_utf8_decode_utf8(f.path@);
        lemma_mode_line_cut(e.mode, c1 + end, f.mode, c2 + end);
        assert((c1 + end).len() == (c2 + end).len());
        assert((c1 + end).take(c1.len() as int) =~= c1);
        assert((c2 + end).take(c1.len() as int) =~= c2);
        if let TreeKind::Symlink(x) = e.kind {
            if let TreeKind::Symlink(y) = f.kind {
                encode_utf8_decode_utf8("->"@ + x@);
                encode_utf8_decode_utf8("->"@ + y@);
                lemma_same_tail("->"@, x@, y@);
            }
        }
    }
}

/// No byte of a line is a line end.
proof fn lemma_no_line_end(s: Seq<char>)
    requires
        one_line(s),
    ensures
        !encode_utf8(s).contains(10u8),
    decreases s.len(),
{
    if s.len() == 0 {
        assert(encode_utf8(s) =~= Seq::empty());
    } else {
        let t = s.drop_first();
        assert(one_line(t)) by {
            if t.contains('\n') {
                let i = t.index_of('\n');
                assert(s[i + 1] == '\n');
            }
        }
        lemma_no_line_end(t);
        assert(s.contains(s[0]));
        assert(s =~= seq![s[0]] + t);
        crate::digest::lemma_encode_concat(seq![s[0]], t);
        lemma_char_no_line_end(s[0]);
        let a = encode_utf8(seq![s[0]]);
        let b = encode_utf8(t);
        if encode_utf8(s).contains(10u8) {
            let i = encode_utf8(s).index_of(10u8);
            assert((a + b)[i] == 10u8);
            if i < a.len() {
                assert(a.contains(a[i]));
            } else {
                assert(b.contains(b[i - a.len()]));
            }
        }
    }
}

proof fn lemma_char_no_line_end(c: char)
    requires
        c != '\n',
    ensures
        !encode_utf8(seq![c]).contains(10u8),
{
    let one = seq![c];
    let e = encode_utf8(one);
    if e.contains(10u8) {
        // A byte below 128 stands for the character with its number.
        let i = e.index_of(10u8);
        assert(e[i] == 10u8);
        assert(one.drop_first() =~= Seq::empty());
        assert(encode_utf8(one.drop_first()) =~= Seq::empty());
        let u = c as u32;
        assert(e =~= encode_scalar(u));
        lemma_scalar_bytes(u, i);
    }
}

proof fn lemma_scalar_bytes(u: u32, i: int)
    requires
        is_scalar(u),
        0 <= i < encode_scalar(u).len(),
        encode_scalar(u)[i] == 10u8,
    ensures
        u == 10,
{
    if has_width_1_encoding(u) {
        assert(u <= 0x7f ==> (u & 0x7f) as u8 == u as u8) by (bit_vector);
    } else {
        let a = ((u >> 6) & 0x1f) as u8;
        let b = ((u >> 12) & 0x0f) as u8;
        let c = ((u >> 18) & 0x7) as u8;
        lemma_high_byte(a);
        lemma_high_byte(b);
        lemma_high_byte(c);
        lemma_high_byte((u & 0x3f) as u8);
        lemma_high_byte(((u >> 6) & 0x3f) as u8);
        lemma_high_byte(((u >> 12) & 0x3f) as u8);
    }
}

proof fn lemma_high_byte(x: u8)
    ensures
        0x80u8 | x >= 0x80,
        0xC0u8 | x >= 0x80,
        0xE0u8 | x >= 0x80,
        0xF0u8 | x >= 0x80,
{
    assert(0x80u8 | x >= 0x80u8 && 0xC0u8 | x >= 0x80u8 && 0xE0u8 | x >= 0x80u8 && 0xF0u8 | x
        >= 0x80u8) by (bit_vector);
}

/// Two trees that differ in one entry, which stands at the same place in the order
/// of the paths, have different digests.
#[verifier::rlimit(40)]
pub proof fn lemma_tree_digest(
    a: Vec<TreeEntry>,
    r1: String,
    b: Vec<TreeEntry>,
    r2: String,
    k: int,
)
    requires
        call_ensures(add_source_digest, (&SourceContent::Tree(a),), r1),
        call_ensures(add_source_digest, (&SourceContent::Tree(b),), r2),
        a@.len() == b@.len(),
        0 <= k < a@.len(),
        forall|i: int| 0 <= i < a@.len() && i != k ==> #[trigger] a@[i] == b@[i],
        path_order(a@) == path_order(b@),
        one_line(a@[k].path@),
        one_line(b@[k].path@),
        differ(a@[k], b@[k]),
        !names_two(r1@),
    ensures
        r1@ != r2@,
{
    let order = path_order(a@);
    lemma_path_order();
    crate::order::lemma_positions(crate::engine_build::cache::entry_paths(a@), path_le());
    lemma_entries_differ(a@[k], b@[k]);
    assert(order.contains(k));
    let m = order.index_of(k);
    lemma_listing_change(a@, b@, order, m);
    if r1@ == r2@ {
        lemma_same_bytes(source_bytes(SourceContent::Tree(a)), source_bytes(SourceContent::Tree(b)));
    }
}

/// Two `ADD`s from the build context share a key only where what they add has the
/// same digest, and they put it at the same place, on the same layers, for the
/// same target.
pub proof fn lemma_local_keys_share(
    s1: &BuildState,
    source1: &SourceContent,
    dst1: &str,
    arch1: Architecture,
    r1: String,
    d1: String,
    s2: &BuildState,
    source2: &SourceContent,
    dst2: &str,
    arch2: Architecture,
    r2: String,
    d2: String,
)
    requires
        call_ensures(local_add_key, (s1, source1, dst1, arch1), r1),
        call_ensures(local_add_key, (s2, source2, dst2, arch2), r2),
        call_ensures(add_source_digest, (source1,), d1),
        call_ensures(add_source_digest, (source2,), d2),
        r1@ == r2@,
        !names_two(r1@),
    ensures
        d1@ == d2@,
        dst1@ == dst2@,
        arch1 == arch2,
        s1.compression == s2.compression,
        parent_key(s1@) == parent_key(s2@),
{
    lemma_target_names();
    lemma_parent_one_line(s1@);
    lemma_parent_one_line(s2@);
    lemma_digest_one_line(d1@);
    lemma_digest_one_line(d2@);
    lemma_same_text(
        add_text(
            arch1.oci_name(),
            s1@.compression.media_type_text(),
            parent_key(s1@),
            d1@,
            dst1@,
        ),
        add_text(
            arch2.oci_name(),
            s2@.compression.media_type_text(),
            parent_key(s2@),
            d2@,
            dst2@,
        ),
    );
    lemma_add_text_fields(
        arch1.oci_name(),
        s1@.compression.media_type_text(),
        parent_key(s1@),
        d1@,
        dst1@,
        arch2.oci_name(),
        s2@.compression.media_type_text(),
        parent_key(s2@),
        d2@,
        dst2@,
    );
}

proof fn lemma_digest_one_line(d: Seq<char>)
    requires
        crate::digest::is_hex_digest(d),
    ensures
        one_line(d),
{
    if d.contains('\n') {
        let i = d.index_of('\n');
        assert(crate::digest::is_hex_digit(d[i]));
    }
}

/// Two `ADD`s of URLs share a key only where the same was fetched, and they put it
/// at the same place, on the same layers, with the same codec.
pub proof fn lemma_url_plans_share(
    s1: &BuildState,
    add1: &Add,
    produced1: &TextMap<String>,
    fetched1: &TextMap<String>,
    r1: Result<AddPlan, EngineBuildError>,
    s2: &BuildState,
    add2: &Add,
    produced2: &TextMap<String>,
    fetched2: &TextMap<String>,
    r2: Result<AddPlan, EngineBuildError>,
)
    requires
        call_ensures(plan_add, (s1, add1, produced1, fetched1), r1),
        call_ensures(plan_add, (s2, add2, produced2, fetched2), r2),
        r1 matches Ok(AddPlan::Url { .. }),
        r2 matches Ok(AddPlan::Url { .. }),
        one_line(r1->Ok_0->Url_digest@),
        one_line(r2->Ok_0->Url_digest@),
        r1->Ok_0->Url_key@ == r2->Ok_0->Url_key@,
        !names_two(r1->Ok_0->Url_key@),
    ensures
        r1->Ok_0->Url_digest@ == r2->Ok_0->Url_digest@,
        r1->Ok_0->Url_destination@ == r2->Ok_0->Url_destination@,
        s1.compression == s2.compression,
        parent_key(s1@) == parent_key(s2@),
{
    let h = "ADD-URL\ncodec:"@;
    lemma_target_names();
    lemma_parent_one_line(s1@);
    lemma_parent_one_line(s2@);
    let p1 = r1->Ok_0;
    let p2 = r2->Ok_0;
    assert(p1@ is Url && p2@ is Url);
    let d1 = p1->Url_digest@;
    let d2 = p2->Url_digest@;
    let t1 = p1->Url_destination@;
    let t2 = p2->Url_destination@;
    lemma_same_text(
        digest_add_text(h, s1@.compression.media_type_text(), parent_key(s1@), d1, t1),
        digest_add_text(h, s2@.compression.media_type_text(), parent_key(s2@), d2, t2),
    );
    lemma_digest_add_fields(
        h,
        s1@.compression.media_type_text(),
        parent_key(s1@),
        d1,
        t1,
        s2@.compression.media_type_text(),
        parent_key(s2@),
        d2,
        t2,
    );
}

/// Two `ADD --from`s share a key only where the image of the stage, the path in it
/// and the destination are the same, on the same layers, with the same codec.
pub proof fn lemma_from_stage_keys_share(
    s1: &BuildState,
    ref1: &str,
    digest1: &str,
    src1: &str,
    dst1: &str,
    r1: String,
    s2: &BuildState,
    ref2: &str,
    digest2: &str,
    src2: &str,
    dst2: &str,
    r2: String,
)
    requires
        call_ensures(from_stage_key, (s1, ref1, Some(digest1), src1, dst1), Ok(r1)),
        call_ensures(from_stage_key, (s2, ref2, Some(digest2), src2, dst2), Ok(r2)),
        one_line(digest1@) && one_line(src1@),
        one_line(digest2@) && one_line(src2@),
        r1@ == r2@,
        !names_two(r1@),
    ensures
        digest1@ == digest2@,
        src1@ == src2@,
        dst1@ == dst2@,
        s1.compression == s2.compression,
        parent_key(s1@) == parent_key(s2@),
{
    reveal_strlit("\n");
    assert("\n"@ =~= seq!['\n']);
    let h = "ADD-FROM\ncodec:"@;
    lemma_target_names();
    lemma_parent_one_line(s1@);
    lemma_parent_one_line(s2@);
    let c1 = s1@.compression.media_type_text();
    let c2 = s2@.compression.media_type_text();
    let t1 = cross_stage_add_text(c1, parent_key(s1@), digest1@, src1@, dst1@);
    let t2 = cross_stage_add_text(c2, parent_key(s2@), digest2@, src2@, dst2@);
    lemma_same_text(t1, t2);
    let x1 = src1@ + seq!['\n'] + dst1@;
    let x2 = src2@ + seq!['\n'] + dst2@;
    assert(t1 =~= digest_add_text(h, c1, parent_key(s1@), digest1@, x1));
    assert(t2 =~= digest_add_text(h, c2, parent_key(s2@), digest2@, x2));
    lemma_digest_add_fields(
        h,
        c1,
        parent_key(s1@),
        digest1@,
        x1,
        c2,
        parent_key(s2@),
        digest2@,
        x2,
    );
    lemma_cut(src1@, dst1@, src2@, dst2@, '\n');
}

/// Two `ADD`s of images share a key only where the manifest and the destination
/// are the same, on the same layers, with the same codec.
pub proof fn lemma_image_keys_share(
    s1: &BuildState,
    ref1: &str,
    digest1: &str,
    dst1: &str,
    r1: String,
    s2: &BuildState,
    ref2: &str,
    digest2: &str,
    dst2: &str,
    r2: String,
)
    requires
        call_ensures(image_add_key, (s1, ref1, Some(digest1), dst1), Ok(r1)),
        call_ensures(image_add_key, (s2, ref2, Some(digest2), dst2), Ok(r2)),
        one_line(digest1@),
        one_line(digest2@),
        r1@ == r2@,
        !names_two(r1@),
    ensures
        digest1@ == digest2@,
        dst1@ == dst2@,
        s1.compression == s2.compression,
        parent_key(s1@) == parent_key(s2@),
{
    let h = "ADD-OCI\ncodec:"@;
    lemma_target_names();
    lemma_parent_one_line(s1@);
    lemma_parent_one_line(s2@);
    let c1 = s1@.compression.media_type_text();
    let c2 = s2@.compression.media_type_text();
    lemma_same_text(
        digest_add_text(h, c1, parent_key(s1@), digest1@, dst1@),
        digest_add_text(h, c2, parent_key(s2@), digest2@, dst2@),
    );
    lemma_digest_add_fields(
        h,
        c1,
        parent_key(s1@),
        digest1@,
        dst1@,
        c2,
        parent_key(s2@),
        digest2@,
        dst2@,
    );
}

/// Where an entry of the cache lies is told by its key: two keys, two files.
pub proof fn lemma_entry_files(root: &str, key1: &str, r1: String, key2: &str, r2: String)
    requires
        call_ensures(cache_entry_path, (root, key1), r1),
        call_ensures(cache_entry_path, (root, key2), r2),
        root@.len() > 0,
        root@.last() != '/',
        key1@.len() > 0 && key1@[0] != '/',
        key2@.len() > 0 && key2@[0] != '/',
    ensures
        r1@ == root@ + "/umf-engine-cache/"@ + key1@ + ".json"@,
        key1@ != key2@ ==> r1@ != r2@,
{
    reveal_strlit("umf-engine-cache");
    reveal_strlit("/umf-engine-cache/");
    reveal_strlit(".json");
    let dir = root@ + seq!['/'] + "umf-engine-cache"@;
    assert(dir.last() == "umf-engine-cache"@.last());
    assert(r1@ =~= root@ + "/umf-engine-cache/"@ + key1@ + ".json"@);
    assert(r2@ =~= root@ + "/umf-engine-cache/"@ + key2@ + ".json"@);
    if r1@ == r2@ {
        let n = (root@ + "/umf-engine-cache/"@).len() as int;
        assert(key1@ =~= r1@.subrange(n, r1@.len() - 5));
        assert(key2@ =~= r2@.subrange(n, r2@.len() - 5));
    }
}

/// A connection is made only to an address that is allowed, the first of them; a
/// host without an allowed address is refused.
pub proof fn lemma_egress(
    original: &str,
    target: &str,
    host: &str,
    checks: &Vec<AddressCheck>,
    r: Result<usize, EngineBuildError>,
)
    requires
        call_ensures(choose_address, (original, target, host, checks), r),
    ensures
        r matches Ok(i) ==> i < checks@.len() && checks@[i as int].denied is None && forall|j: int|
            0 <= j < i ==> (#[trigger] checks@[j]).denied is Some,
        (exists|j: int| 0 <= j < checks@.len() && (#[trigger] checks@[j]).denied is None) ==> r
            is Ok,
        checks@.len() == 0 ==> (r matches Err(EngineBuildError::AddUrlFetchFailed { .. })),
        checks@.len() > 0 && r is Err ==> (r matches Err(EngineBuildError::AddUrlEgressDenied {
            url,
            target: t,
            address,
            category,
        }) && address@ == checks@[0].address@ && category@ == checks@[0].denied->0@ && url@
            == original@ && t@ == target@),
{
}

/// Ten redirects are followed, each to a place that can be read, and no more.
pub proof fn lemma_redirects(
    hops: nat,
    status: Seq<char>,
    next: Option<Result<UrlView, Seq<char>>>,
)
    ensures
        redirect_failure(hops, status, next) is None <==> hops < 10 && next is Some && next->0
            is Ok,
        hops < 10 && next is None ==> (redirect_failure(hops, status, next) matches Some(why)
            && contains_text(why, status)),
        hops < 10 && next is Some && next->0 is Err ==> (redirect_failure(
            hops,
            status,
            next,
        ) matches Some(why) && next->0->Err_0.is_suffix_of(why)),
{
    lemma_occurs("HTTP "@, status, " without a Location"@);
    if next is Some && next->0 is Err {
        let head = "bad redirect target: "@;
        let why = next->0->Err_0;
        assert((head + why).skip(head.len() as int) =~= why);
        assert(why.is_suffix_of(head + why));
    }
}

/// A URL is asked at its own port, and at 443 where neither it nor its scheme has
/// one.
pub proof fn lemma_endpoint(walk: &FetchWalk, r: Result<(String, u16), EngineBuildError>)
    requires
        call_ensures(FetchWalk::endpoint, (walk,), r),
    ensures
        r is Ok <==> walk.target.host is Some,
        r matches Ok(x) ==> x.0@ == walk.target.host->0@ && (walk.target.port matches Some(p)
            ==> x.1 == p) && (walk.target.port is None ==> x.1 == 443),
{
}

} // verus!
