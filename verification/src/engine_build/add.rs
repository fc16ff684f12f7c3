//! `ADD` and `COPY`: where the files come from, where they go, and the keys of
//! their layers.
use vstd::prelude::*;
use crate::architecture::Architecture;
use crate::ast::{Add, AddSource};
use crate::digest::{hex_digest, is_hex_digest};
use crate::fsutil::{ensure_source_contained, PathRefusal};
use crate::introspect::RegistryError;
use crate::path::{
    file_name, file_name_of, has_parent_step, is_within, join_path, joined_path,
    lemma_join_contained, steps_up,
};
use crate::reference::{read_reference, reference_of, ImageReference};
use crate::text::{
    chars_of, concat2, concat3, concat4, concat5, trim_start_char, trim_start_matches,
};
use crate::text_map::{text_values, TextMap};
use super::cache::{
    add_cache_key, add_source_digest, add_text, cross_stage_add_cache_key, cross_stage_add_text,
    digest_add_text, oci_image_add_cache_key, parent_key, parent_state_hash, source_bytes,
    text_digest, url_add_cache_key, SourceContent,
};
use super::error::EngineBuildError;
use super::fetch::{leaf_of_url, url_leaf};
use super::state::{BuildState, StateView};

verus! {

/// What a remote source is, which `COPY` refuses.
pub open spec fn remote_kind(source: AddSource) -> Option<Seq<char>> {
    match source {
        AddSource::Url(_) => Some("a URL"@),
        AddSource::Oci(_) => Some("an OCI image reference"@),
        AddSource::Path(_) => None,
    }
}

/// What a remote source is, which `COPY` refuses; none for a path.
pub fn plain_copy_rejected_kind(source: &AddSource) -> (r: Option<&'static str>)
    ensures
        match r {
            Some(k) => remote_kind(*source) == Some(k@),
            None => remote_kind(*source) is None,
        },
{
    match source {
        AddSource::Url(_) => Some("a URL"),
        AddSource::Oci(_) => Some("an OCI image reference"),
        AddSource::Path(_) => None,
    }
}

/// Refuses a path that steps up to a parent directory.
pub fn reject_traversal(kind: &'static str, raw: &str) -> (r: Result<(), EngineBuildError>)
    ensures
        match r {
            Ok(_) => !steps_up(raw@),
            Err(e) => steps_up(raw@) && is_refusal(
                e,
                AddRefusal::Traversal { kind: kind@, path: raw@ },
            ),
        },
{
    if has_parent_step(raw) {
        Err(EngineBuildError::AddPathTraversal { kind, path: String::from_str(raw) })
    } else {
        Ok(())
    }
}

/// Where in the image an `ADD` of `src` to `dst` puts it: inside `dst` where that
/// ends with a slash, else at `dst`.
pub open spec fn add_destination(dst: Seq<char>, src: Seq<char>, is_dir: bool) -> Seq<char> {
    if dst.len() > 0 && dst.last() == '/' {
        dst + (match file_name(src) {
            Some(leaf) => leaf,
            None => "file"@,
        })
    } else if is_dir {
        dst + "/"@
    } else {
        dst
    }
}

fn ends_with_slash(s: &str) -> (r: bool)
    ensures
        r == (s@.len() > 0 && s@.last() == '/'),
{
    let v = chars_of(s);
    v.len() > 0 && v[v.len() - 1] == '/'
}

/// Where in the image an `ADD` of `src` to `dst` puts it.
pub fn compute_add_destination(dst: &str, src: &str, is_dir: bool) -> (r: String)
    ensures
        r@ == add_destination(dst@, src@, is_dir),
{
    if ends_with_slash(dst) {
        match file_name_of(src) {
            Some(leaf) => concat2(dst, leaf.as_str()),
            None => concat2(dst, "file"),
        }
    } else if is_dir {
        concat2(dst, "/")
    } else {
        String::from_str(dst)
    }
}

/// Where a path of the image lies below the root of a layer.
pub open spec fn upper_path(upper_root: Seq<char>, dst: Seq<char>) -> Seq<char> {
    join_path(upper_root, trim_start_char(dst, '/'))
}

/// Where a path of the image lies below the root of a layer.
pub fn path_within_upper(upper_root: &str, dst_inside: &str) -> (r: String)
    ensures
        r@ == upper_path(upper_root@, dst_inside@),
{
    let trimmed = trim_start_matches(dst_inside, '/');
    joined_path(upper_root, trimmed.as_str())
}

/// A destination that is not refused lies below the root of the layer, and its
/// path steps up only where the root itself does.
pub proof fn lemma_upper_contained(upper_root: Seq<char>, dst: Seq<char>)
    requires
        !steps_up(dst),
    ensures
        is_within(upper_path(upper_root, dst), upper_root),
        steps_up(upper_path(upper_root, dst)) == steps_up(upper_root),
{
    lemma_join_contained(upper_root, dst);
}

/// An `ADD` in terms of what it reads and writes.
#[derive(Debug)]
pub enum AddPlan {
    /// From the build context.
    Local {
        /// The source, as written in the recipe.
        source: String,
        /// The source below the build context.
        below_context: String,
        /// The destination.
        destination: String,
        /// The line in the history.
        history_line: String,
    },
    /// From an earlier stage.
    FromStage {
        /// The stage.
        stage: String,
        /// The reference of its image in the layout.
        producer_ref: String,
        /// The source, as written in the recipe.
        written: String,
        /// The source.
        source: String,
        /// The source below the root of the stage.
        below_root: String,
        /// The destination.
        destination: String,
        /// The line in the history.
        history_line: String,
    },
    /// From a URL.
    Url {
        /// The URL.
        url: String,
        /// The digest of what was fetched.
        digest: String,
        /// The destination.
        destination: String,
        /// The key of the layer in the cache.
        key: String,
        /// The line in the history.
        history_line: String,
    },
    /// The files of an image.
    Image {
        /// The image's reference in canonical form.
        canonical: String,
        /// The destination.
        destination: String,
        /// The line in the history.
        history_line: String,
    },
}

/// The model of an [`AddPlan`].
#[verifier::ext_equal]
pub enum AddView {
    /// From the build context.
    Local {
        /// The source, as written in the recipe.
        source: Seq<char>,
        /// The source below the build context.
        below_context: Seq<char>,
        /// The destination.
        destination: Seq<char>,
        /// The line in the history.
        line: Seq<char>,
    },
    /// From an earlier stage.
    FromStage {
        /// The stage.
        stage: Seq<char>,
        /// The reference of its image in the layout.
        producer_ref: Seq<char>,
        /// The source, as written in the recipe.
        written: Seq<char>,
        /// The source.
        source: Seq<char>,
        /// The source below the root of the stage.
        below_root: Seq<char>,
        /// The destination.
        destination: Seq<char>,
        /// The line in the history.
        line: Seq<char>,
    },
    /// From a URL.
    Url {
        /// The URL.
        url: Seq<char>,
        /// The digest of what was fetched.
        digest: Seq<char>,
        /// The destination.
        destination: Seq<char>,
        /// The key of the layer in the cache.
        key: Seq<char>,
        /// The line in the history.
        line: Seq<char>,
    },
    /// The files of an image.
    Image {
        /// The image's reference in canonical form.
        canonical: Seq<char>,
        /// The destination.
        destination: Seq<char>,
        /// The line in the history.
        line: Seq<char>,
    },
}

impl View for AddPlan {
    type V = AddView;

    open spec fn view(&self) -> AddView {
        match *self {
            AddPlan::Local { source, below_context, destination, history_line } => AddView::Local {
                source: source@,
                below_context: below_context@,
                destination: destination@,
                line: history_line@,
            },
            AddPlan::FromStage {
                stage,
                producer_ref,
                written,
                source,
                below_root,
                destination,
                history_line,
            } => AddView::FromStage {
                stage: stage@,
                producer_ref: producer_ref@,
                written: written@,
                source: source@,
                below_root: below_root@,
                destination: destination@,
                line: history_line@,
            },
            AddPlan::Url { url, digest, destination, key, history_line } => AddView::Url {
                url: url@,
                digest: digest@,
                destination: destination@,
                key: key@,
                line: history_line@,
            },
            AddPlan::Image { canonical, destination, history_line } => AddView::Image {
                canonical: canonical@,
                destination: destination@,
                line: history_line@,
            },
        }
    }
}

/// Why an `ADD` is refused.
pub enum AddRefusal {
    /// A `COPY` of something remote.
    CopyRemote {
        /// The source.
        reference: Seq<char>,
        /// What it is.
        kind: Seq<char>,
    },
    /// A path steps up to a parent directory.
    Traversal {
        /// `source` or `destination`.
        kind: Seq<char>,
        /// The path, as written in the recipe.
        path: Seq<char>,
    },
    /// No stage of that name was built.
    UnknownStage(Seq<char>),
    /// The URL was not fetched.
    NotFetched(Seq<char>),
    /// The text is no image reference.
    BadReference(Seq<char>, Seq<char>),
}

/// Does the error say that?
pub open spec fn is_refusal(e: EngineBuildError, r: AddRefusal) -> bool {
    match r {
        AddRefusal::CopyRemote { reference, kind } =>
        e matches EngineBuildError::CopyRemoteSource { reference: x, kind: k } && x@ == reference
            && k@ == kind,
        AddRefusal::Traversal { kind, path } =>
        e matches EngineBuildError::AddPathTraversal { kind: k, path: x } && k@ == kind && x@ == path,
        AddRefusal::UnknownStage(stage) =>
        e matches EngineBuildError::AddFromUnknownStage { stage: x } && x@ == stage,
        AddRefusal::NotFetched(url) =>
        e matches EngineBuildError::AddUrlFetchFailed { url: x, detail } && x@ == url && detail@
            == "payload was not staged by the fetch phase"@,
        AddRefusal::BadReference(text, why) =>
        e matches EngineBuildError::InvalidReference(x, y) && x@ == text && y@ == why,
    }
}

/// The word for the directive in the history.
pub open spec fn add_verb(plain_copy: bool) -> Seq<char> {
    if plain_copy {
        "COPY"@
    } else {
        "ADD"@
    }
}

/// The line that an `ADD` leaves in the history: its text in the recipe.
pub open spec fn add_line(add: Add) -> Seq<char> {
    match (add.source, add.from) {
        (AddSource::Path(src), Some(from)) => add_verb(add.plain_copy) + " --from="@ + from@ + " "@
            + src@ + " "@ + add.destination@,
        (AddSource::Path(src), None) => add_verb(add.plain_copy) + " "@ + src@ + " "@
            + add.destination@,
        (AddSource::Url(url), _) => "ADD "@ + url@ + " "@ + add.destination@,
        (AddSource::Oci(image), _) => "ADD "@ + image@ + " "@ + add.destination@,
    }
}

/// The line that an `ADD` leaves in the history.
pub fn add_history_line(add: &Add) -> (r: String)
    ensures
        r@ == add_line(*add),
{
    let dst = add.destination.as_str();
    match &add.source {
        AddSource::Path(src) => {
            let verb = if add.plain_copy {
                "COPY"
            } else {
                "ADD"
            };
            match &add.from {
                Some(from) => {
                    let head = concat4(verb, " --from=", from.as_str(), " ");
                    concat4(head.as_str(), src.as_str(), " ", dst)
                },
                None => concat5(verb, " ", src.as_str(), " ", dst),
            }
        },
        AddSource::Url(url) => concat4("ADD ", url.as_str(), " ", dst),
        AddSource::Oci(image) => concat4("ADD ", image.as_str(), " ", dst),
    }
}

/// The key of an `ADD` of a URL.
pub open spec fn url_add_key(s: StateView, digest: Seq<char>, dst: Seq<char>) -> Seq<char> {
    text_digest(
        digest_add_text(
            "ADD-URL\ncodec:"@,
            s.compression.media_type_text(),
            parent_key(s),
            digest,
            dst,
        ),
    )
}

/// What an `ADD` of an image is, for each outcome of reading its reference. The
/// destination is `dst`, and `written` in the recipe.
pub open spec fn image_add(
    text: Seq<char>,
    dst: Seq<char>,
    written: Seq<char>,
    line: Seq<char>,
    parsed: Result<(Seq<char>, Seq<char>), Seq<char>>,
) -> Result<AddView, AddRefusal> {
    if steps_up(dst) {
        Err(AddRefusal::Traversal { kind: "destination"@, path: written })
    } else {
        match parsed {
            Ok(reference) => Ok(
                AddView::Image { canonical: reference.1, destination: dst, line },
            ),
            Err(why) => Err(AddRefusal::BadReference(text, why)),
        }
    }
}

/// What an `ADD` is, or why it is refused. `produced` has the images of the
/// stages so far, `fetched` the digests of what was fetched, by URL.
pub open spec fn add_outcome(
    s: StateView,
    add: Add,
    produced: Map<Seq<char>, Seq<char>>,
    fetched: Map<Seq<char>, Seq<char>>,
) -> Result<AddView, AddRefusal> {
    let dst = s.subst(add.destination@);
    let line = add_line(add);
    if add.plain_copy && remote_kind(add.source) is Some {
        Err(
            AddRefusal::CopyRemote {
                reference: add.source.text(),
                kind: remote_kind(add.source)->0,
            },
        )
    } else {
        match add.source {
            AddSource::Url(raw) => {
                let url = s.subst(raw@);
                if steps_up(dst) {
                    Err(AddRefusal::Traversal { kind: "destination"@, path: add.destination@ })
                } else if !fetched.dom().contains(url) {
                    Err(AddRefusal::NotFetched(url))
                } else {
                    Ok(
                        AddView::Url {
                            url,
                            digest: fetched[url],
                            destination: dst,
                            key: url_add_key(s, fetched[url], dst),
                            line,
                        },
                    )
                }
            },
            AddSource::Oci(raw) => {
                let text = s.subst(raw@);
                image_add(text, dst, add.destination@, line, reference_of(text))
            },
            AddSource::Path(raw) => {
                let src = s.subst(raw@);
                if steps_up(src) {
                    Err(AddRefusal::Traversal { kind: "source"@, path: raw@ })
                } else if steps_up(dst) {
                    Err(AddRefusal::Traversal { kind: "destination"@, path: add.destination@ })
                } else {
                    match add.from {
                        Some(from) => if !produced.dom().contains(from@) {
                            Err(AddRefusal::UnknownStage(from@))
                        } else {
                            Ok(
                                AddView::FromStage {
                                    stage: from@,
                                    producer_ref: produced[from@],
                                    written: raw@,
                                    source: src,
                                    below_root: trim_start_char(src, '/'),
                                    destination: dst,
                                    line,
                                },
                            )
                        },
                        None => Ok(
                            AddView::Local {
                                source: raw@,
                                below_context: trim_start_char(src, '/'),
                                destination: dst,
                                line,
                            },
                        ),
                    }
                }
            },
        }
    }
}

/// Is the result the outcome?
pub open spec fn is_outcome(
    r: Result<AddPlan, EngineBuildError>,
    outcome: Result<AddView, AddRefusal>,
) -> bool {
    match (r, outcome) {
        (Ok(p), Ok(v)) => p@ == v,
        (Err(e), Err(why)) => is_refusal(e, why),
        _ => false,
    }
}

/// Refuses a path that steps up to a parent directory, with the text that it has
/// in the recipe.
fn reject_written(kind: &'static str, path: &str, written: &str) -> (r: Result<
    (),
    EngineBuildError,
>)
    ensures
        match r {
            Ok(_) => !steps_up(path@),
            Err(e) => steps_up(path@) && is_refusal(
                e,
                AddRefusal::Traversal { kind: kind@, path: written@ },
            ),
        },
{
    if has_parent_step(path) {
        Err(EngineBuildError::AddPathTraversal { kind, path: String::from_str(written) })
    } else {
        Ok(())
    }
}

/// What an `ADD` of an image is, from what reading its reference gave. The text of
/// the destination in the recipe is `written`.
pub fn plan_image_add(
    text: &str,
    destination: String,
    written: &str,
    history_line: String,
    parsed: Result<ImageReference, String>,
) -> (r: Result<AddPlan, EngineBuildError>)
    ensures
        is_outcome(
            r,
            image_add(
                text@,
                destination@,
                written@,
                history_line@,
                match parsed {
                    Ok(x) => Ok((x.registry@, x.whole@)),
                    Err(e) => Err(e@),
                },
            ),
        ),
{
    if let Err(e) = reject_written("destination", destination.as_str(), written) {
        return Err(e);
    }
    match parsed {
        Ok(reference) => Ok(
            AddPlan::Image { canonical: reference.whole, destination, history_line },
        ),
        Err(why) => Err(EngineBuildError::InvalidReference(String::from_str(text), why)),
    }
}

/// What an `ADD` is, or why it is refused.
pub fn plan_add(
    state: &BuildState,
    add: &Add,
    produced: &TextMap<String>,
    fetched: &TextMap<String>,
) -> (r: Result<AddPlan, EngineBuildError>)
    ensures
        is_outcome(
            r,
            add_outcome(state@, *add, text_values(produced@), text_values(fetched@)),
        ),
{
    if add.plain_copy {
        if let Some(kind) = plain_copy_rejected_kind(&add.source) {
            return Err(
                EngineBuildError::CopyRemoteSource {
                    reference: String::from_str(add.source.as_str()),
                    kind,
                },
            );
        }
    }
    let destination = state.subst(add.destination.as_str());
    let history_line = add_history_line(add);
    match &add.source {
        AddSource::Url(raw) => {
            let url = state.subst(raw.as_str());
            if let Err(e) = reject_written(
                "destination",
                destination.as_str(),
                add.destination.as_str(),
            ) {
                return Err(e);
            }
            match fetched.get(url.as_str()) {
                Some(digest) => {
                    let parent = parent_state_hash(state);
                    let key = url_add_cache_key(
                        state.compression.media_type(),
                        parent.as_str(),
                        digest.as_str(),
                        destination.as_str(),
                    );
                    Ok(
                        AddPlan::Url {
                            url,
                            digest: digest.clone(),
                            destination,
                            key,
                            history_line,
                        },
                    )
                },
                None => Err(
                    EngineBuildError::AddUrlFetchFailed {
                        url,
                        detail: String::from_str("payload was not staged by the fetch phase"),
                    },
                ),
            }
        },
        AddSource::Oci(raw) => {
            let text = state.subst(raw.as_str());
            let parsed = read_reference(text.as_str());
            let written = add.destination.as_str();
            plan_image_add(text.as_str(), destination, written, history_line, parsed)
        },
        AddSource::Path(raw) => {
            let source = state.subst(raw.as_str());
            if let Err(e) = reject_written("source", source.as_str(), raw.as_str()) {
                return Err(e);
            }
            if let Err(e) = reject_written(
                "destination",
                destination.as_str(),
                add.destination.as_str(),
            ) {
                return Err(e);
            }
            let below = trim_start_matches(source.as_str(), '/');
            match &add.from {
                Some(from) => match produced.get(from.as_str()) {
                    Some(producer_ref) => Ok(
                        AddPlan::FromStage {
                            stage: from.clone(),
                            producer_ref: producer_ref.clone(),
                            written: raw.clone(),
                            source,
                            below_root: below,
                            destination,
                            history_line,
                        },
                    ),
                    None => Err(EngineBuildError::AddFromUnknownStage { stage: from.clone() }),
                },
                None => Ok(
                    AddPlan::Local {
                        source: raw.clone(),
                        below_context: below,
                        destination,
                        history_line,
                    },
                ),
            }
        },
    }
}

/// Checks that the source of an `ADD` is there and lies inside its root.
/// `canonical` is where it really is, with no symbolic link on the way; none
/// where it is not there.
pub fn check_source(
    root_canonical: &str,
    resolved: &str,
    canonical: Option<&str>,
    path: &str,
    context: &str,
) -> (r: Result<(), EngineBuildError>)
    ensures
        match canonical {
            None => r matches Err(EngineBuildError::AddSourceNotFound { path: p, context: c })
                && p@ == path@ && c@ == context@,
            Some(real_path) => if is_within(real_path@, root_canonical@) {
                r is Ok
            } else {
                r matches Err(EngineBuildError::Path(PathRefusal::OutsideRoot {
                    resolved: at,
                    canonical: found,
                    root,
                })) && at@ == resolved@ && found@ == real_path@ && root@ == root_canonical@
            },
        },
{
    match canonical {
        None => Err(
            EngineBuildError::AddSourceNotFound {
                path: String::from_str(path),
                context: String::from_str(context),
            },
        ),
        Some(real_path) => match ensure_source_contained(root_canonical, resolved, real_path) {
            Ok(_) => Ok(()),
            Err(e) => Err(EngineBuildError::Path(e)),
        },
    }
}

/// Where the source of an `ADD --from` is looked for, in words.
pub fn stage_context(stage: &str) -> (r: String)
    ensures
        r@ == "stage `"@ + stage@ + "` rootfs"@,
{
    concat3("stage `", stage, "` rootfs")
}

/// The key of an `ADD` from the build context.
pub fn local_add_key(
    state: &BuildState,
    source: &SourceContent,
    destination: &str,
    architecture: Architecture,
) -> (r: String)
    ensures
        r@ == text_digest(
            add_text(
                architecture.oci_name(),
                state@.compression.media_type_text(),
                parent_key(state@),
                hex_digest(source_bytes(*source)),
                destination@,
            ),
        ),
        is_hex_digest(r@),
{
    let src_digest = add_source_digest(source);
    let parent = parent_state_hash(state);
    add_cache_key(
        architecture.oci_arch_string(),
        state.compression.media_type(),
        parent.as_str(),
        src_digest.as_str(),
        destination,
    )
}

/// The key of an `ADD --from`, by the manifest digest of the stage's image;
/// an error where the layout does not have that image.
pub fn from_stage_key(
    state: &BuildState,
    producer_ref: &str,
    manifest_digest: Option<&str>,
    source: &str,
    destination: &str,
) -> (r: Result<String, EngineBuildError>)
    ensures
        match (r, manifest_digest) {
            (Ok(k), Some(digest)) => k@ == text_digest(
                cross_stage_add_text(
                    state@.compression.media_type_text(),
                    parent_key(state@),
                    digest@,
                    source@,
                    destination@,
                ),
            ) && is_hex_digest(k@),
            (Err(e), None) => e matches EngineBuildError::Registry(RegistryError::NotFound(x))
                && x@ == producer_ref@,
            _ => false,
        },
{
    match manifest_digest {
        Some(digest) => {
            let parent = parent_state_hash(state);
            Ok(
                cross_stage_add_cache_key(
                    state.compression.media_type(),
                    parent.as_str(),
                    digest,
                    source,
                    destination,
                ),
            )
        },
        None => Err(
            EngineBuildError::Registry(RegistryError::NotFound(String::from_str(producer_ref))),
        ),
    }
}

/// The key of an `ADD` of an image, by the digest of its manifest; an error
/// where the layout does not have the image.
pub fn image_add_key(
    state: &BuildState,
    canonical: &str,
    manifest_digest: Option<&str>,
    destination: &str,
) -> (r: Result<String, EngineBuildError>)
    ensures
        match (r, manifest_digest) {
            (Ok(k), Some(digest)) => k@ == text_digest(
                digest_add_text(
                    "ADD-OCI\ncodec:"@,
                    state@.compression.media_type_text(),
                    parent_key(state@),
                    digest@,
                    destination@,
                ),
            ) && is_hex_digest(k@),
            (Err(e), None) => e matches EngineBuildError::Registry(RegistryError::NotFound(x))
                && x@ == canonical@,
            _ => false,
        },
{
    match manifest_digest {
        Some(digest) => {
            let parent = parent_state_hash(state);
            Ok(
                oci_image_add_cache_key(
                    state.compression.media_type(),
                    parent.as_str(),
                    digest,
                    destination,
                ),
            )
        },
        None => Err(
            EngineBuildError::Registry(RegistryError::NotFound(String::from_str(canonical))),
        ),
    }
}

/// What a fetched file is, by its first bytes.
#[derive(Clone, Copy, Debug, PartialEq, Eq, Structural)]
pub enum Format {
    /// A tar archive.
    Tar,
    /// gzip
    Gzip,
    /// Zstandard
    Zstd,
    /// xz
    Xz,
    /// bzip2
    Bzip2,
    /// SquashFS
    Squashfs,
    /// Something else.
    Unknown,
}

impl Format {
    /// The format's name.
    pub open spec fn name(self) -> Seq<char> {
        match self {
            Format::Tar => "tar"@,
            Format::Gzip => "gzip"@,
            Format::Zstd => "zstd"@,
            Format::Xz => "xz"@,
            Format::Bzip2 => "bzip2"@,
            Format::Squashfs => "squashfs"@,
            Format::Unknown => "unknown"@,
        }
    }

    /// The format's name.
    pub fn as_str(self) -> (r: &'static str)
        ensures
            r@ == self.name(),
    {
        match self {
            Format::Tar => "tar",
            Format::Gzip => "gzip",
            Format::Zstd => "zstd",
            Format::Xz => "xz",
            Format::Bzip2 => "bzip2",
            Format::Squashfs => "squashfs",
            Format::Unknown => "unknown",
        }
    }
}

/// How a fetched file gets into the image.
#[derive(Debug)]
pub enum Placement {
    /// It is unpacked; what it holds goes into this directory.
    Unpack {
        /// The directory in the image.
        directory: String,
    },
    /// It goes to this path as it is.
    File {
        /// The path in the image.
        path: String,
    },
}

/// The path of a fetched file that is put into the image as it is.
pub open spec fn file_destination(url: Seq<char>, dst: Seq<char>) -> Seq<char> {
    if dst.len() > 0 && dst.last() == '/' {
        dst + leaf_of_url(url)
    } else {
        dst
    }
}

/// Where a fetched file that is no archive goes.
pub(crate) fn payload_path(url: &str, destination: &str) -> (r: String)
    ensures
        r@ == file_destination(url@, destination@),
{
    if ends_with_slash(destination) {
        concat2(destination, url_leaf(url).as_str())
    } else {
        String::from_str(destination)
    }
}

/// How a fetched file gets into the image: a tar archive, plain or gzipped, is
/// unpacked; another archive is an error; anything else is a file.
pub fn place_payload(format: Format, url: &str, destination: &str) -> (r: Result<
    Placement,
    EngineBuildError,
>)
    ensures
        match format {
            Format::Tar | Format::Gzip => r matches Ok(Placement::Unpack { directory })
                && directory@ == destination@,
            Format::Zstd | Format::Xz | Format::Bzip2 | Format::Squashfs =>
            r matches Err(EngineBuildError::AddUrlArchiveUnsupported { url: u, format: f }) && u@
                == url@ && f@ == format.name(),
            Format::Unknown => if steps_up(file_destination(url@, destination@)) {
                r matches Err(e) && is_refusal(
                    e,
                    AddRefusal::Traversal {
                        kind: "destination"@,
                        path: file_destination(url@, destination@),
                    },
                )
            } else {
                r matches Ok(Placement::File { path }) && path@ == file_destination(
                    url@,
                    destination@,
                )
            },
        },
{
    match format {
        Format::Tar | Format::Gzip => Ok(
            Placement::Unpack { directory: String::from_str(destination) },
        ),
        Format::Zstd | Format::Xz | Format::Bzip2 | Format::Squashfs => Err(
            EngineBuildError::AddUrlArchiveUnsupported {
                url: String::from_str(url),
                format: String::from_str(format.as_str()),
            },
        ),
        Format::Unknown => {
            let path = payload_path(url, destination);
            match reject_traversal("destination", path.as_str()) {
                Ok(_) => Ok(Placement::File { path }),
                Err(e) => Err(e),
            }
        },
    }
}

/// The error for an archive that could not be unpacked.
pub fn extract_failed(url: &str, format: Format, detail: String) -> (r: EngineBuildError)
    ensures
        r matches EngineBuildError::AddUrlExtractFailed { url: u, format: f, detail: d } && u@
            == url@ && f@ == format.name() && d@ == detail@,
{
    EngineBuildError::AddUrlExtractFailed {
        url: String::from_str(url),
        format: String::from_str(format.as_str()),
        detail,
    }
}

} // verus!
