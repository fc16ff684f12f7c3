//! The `ADD`s of a bootable build. They go into one staging tree, before any
//! `RUN`.
use vstd::prelude::*;
use crate::arg_subst::{apply_arg_to_scope, subst_with, substitute};
use crate::ast::{Add, AddSource, Directive};
use crate::engine_build::add::{
    add_destination, compute_add_destination, file_destination, payload_path, upper_path, Format,
    Placement,
};
use crate::engine_build::scope_behind;
use crate::fsutil::{ensure_source_contained, PathRefusal};
use crate::path::{has_parent_step, is_within, joined_path, steps_up};
use crate::text::{trim_start_char, trim_start_matches};
use crate::text_map::{text_values, TextMap};
use super::BootableBuildError;

verus! {

/// Does the error say that the path steps up?
pub open spec fn is_traversal(e: BootableBuildError, side: Seq<char>, at: Seq<char>) -> bool {
    e matches BootableBuildError::AddPathTraversal { kind, path } && kind@ == side && path@ == at
}

/// Refuses a path that steps up to a parent directory.
pub fn reject_traversal(kind: &'static str, raw: &str) -> (r: Result<(), BootableBuildError>)
    ensures
        match r {
            Ok(_) => !steps_up(raw@),
            Err(e) => steps_up(raw@) && is_traversal(e, kind@, raw@),
        },
{
    if has_parent_step(raw) {
        Err(BootableBuildError::AddPathTraversal { kind, path: String::from_str(raw) })
    } else {
        Ok(())
    }
}

/// Where a path of the image lies in the staging tree.
pub fn staging_join(staging_root: &str, dst: &str) -> (r: String)
    ensures
        r@ == upper_path(staging_root@, dst@),
{
    let trimmed = trim_start_matches(dst, '/');
    joined_path(staging_root, trimmed.as_str())
}

/// An `ADD` in terms of what it reads and writes.
#[derive(Debug)]
pub enum StagingAdd {
    /// The layers of an image, unpacked at the root.
    Image {
        /// The image.
        reference: String,
        /// May a file that the caller named take its place?
        first: bool,
    },
    /// From the build context.
    Local {
        /// The source, as written in the recipe.
        source: String,
        /// The source below the build context.
        below_context: String,
        /// The destination.
        destination: String,
    },
    /// From an earlier stage.
    FromStage {
        /// The stage.
        stage: String,
        /// The reference of its image in the layout.
        producer_ref: String,
        /// The source, as written in the recipe.
        source: String,
        /// The source below the root of the stage.
        below_root: String,
        /// The destination.
        destination: String,
    },
    /// From a URL.
    Url {
        /// The URL.
        url: String,
        /// The destination.
        destination: String,
    },
}

/// Is it what the `ADD` reads and writes, or why it is refused?
pub open spec fn is_staging_add(
    r: Result<StagingAdd, BootableBuildError>,
    add: Add,
    scope: Map<Seq<char>, Seq<char>>,
    first: bool,
    produced: Map<Seq<char>, Seq<char>>,
) -> bool {
    let dst = substitute(add.destination@, scope);
    match add.source {
        AddSource::Oci(image) => r matches Ok(StagingAdd::Image { reference, first: f })
            && reference@ == substitute(image@, scope) && f == first,
        AddSource::Url(raw) => if steps_up(dst) {
            r matches Err(e) && is_traversal(e, "destination"@, dst)
        } else {
            r matches Ok(StagingAdd::Url { url, destination }) && url@ == substitute(raw@, scope)
                && destination@ == dst
        },
        AddSource::Path(raw) => {
            let src = substitute(raw@, scope);
            if steps_up(src) {
                r matches Err(e) && is_traversal(e, "source"@, src)
            } else if steps_up(dst) {
                r matches Err(e) && is_traversal(e, "destination"@, dst)
            } else {
                match add.from {
                    None => r matches Ok(StagingAdd::Local { source, below_context, destination })
                        && source@ == raw@ && below_context@ == trim_start_char(src, '/')
                        && destination@ == dst,
                    Some(from) => if !produced.dom().contains(from@) {
                        r matches Err(BootableBuildError::AddFromUnknownStage { stage }) && stage@
                            == from@
                    } else {
                        r matches Ok(StagingAdd::FromStage {
                            stage,
                            producer_ref,
                            source,
                            below_root,
                            destination,
                        }) && stage@ == from@ && producer_ref@ == produced[from@] && source@ == raw@
                            && below_root@ == trim_start_char(src, '/') && destination@ == dst
                    },
                }
            }
        },
    }
}

/// What an `ADD` reads and writes. A path must not step up; that goes for what
/// it is once the references to `ARG`s are replaced.
pub fn plan_staging_add(
    add: &Add,
    arg_scope: &TextMap<String>,
    first: bool,
    produced: &TextMap<String>,
) -> (r: Result<StagingAdd, BootableBuildError>)
    ensures
        is_staging_add(r, *add, text_values(arg_scope@), first, text_values(produced@)),
{
    let destination = subst_with(arg_scope, add.destination.as_str());
    match &add.source {
        AddSource::Oci(image) => Ok(
            StagingAdd::Image { reference: subst_with(arg_scope, image.as_str()), first },
        ),
        AddSource::Url(raw) => {
            let url = subst_with(arg_scope, raw.as_str());
            match reject_traversal("destination", destination.as_str()) {
                Ok(_) => Ok(StagingAdd::Url { url, destination }),
                Err(e) => Err(e),
            }
        },
        AddSource::Path(raw) => {
            let source = subst_with(arg_scope, raw.as_str());
            if let Err(e) = reject_traversal("source", source.as_str()) {
                return Err(e);
            }
            if let Err(e) = reject_traversal("destination", destination.as_str()) {
                return Err(e);
            }
            let below = trim_start_matches(source.as_str(), '/');
            match &add.from {
                None => Ok(
                    StagingAdd::Local { source: raw.clone(), below_context: below, destination },
                ),
                Some(from) => match produced.get(from.as_str()) {
                    Some(producer_ref) => Ok(
                        StagingAdd::FromStage {
                            stage: from.clone(),
                            producer_ref: producer_ref.clone(),
                            source: raw.clone(),
                            below_root: below,
                            destination,
                        },
                    ),
                    None => Err(BootableBuildError::AddFromUnknownStage { stage: from.clone() }),
                },
            }
        },
    }
}

/// The walk through the `ADD`s of a stage.
#[derive(Debug)]
pub struct StagingWalk {
    /// The values of the `ARG`s in scope.
    pub arg_scope: TextMap<String>,
    /// Is the next image the first?
    pub first_image: bool,
}

/// Does the directive add an image?
pub open spec fn adds_image(d: Directive) -> bool {
    d matches Directive::Add(a) && a.source is Oci
}

/// Is it what a directive adds, if it adds anything?
pub open spec fn is_staging_step(
    r: Result<Option<StagingAdd>, BootableBuildError>,
    d: Directive,
    scope: Map<Seq<char>, Seq<char>>,
    first: bool,
    produced: Map<Seq<char>, Seq<char>>,
) -> bool {
    match d {
        Directive::Add(add) => match r {
            Ok(Some(x)) => is_staging_add(Ok(x), add, scope, first, produced),
            Ok(None) => false,
            Err(e) => is_staging_add(Err(e), add, scope, first, produced),
        },
        _ => r matches Ok(None),
    }
}

impl StagingWalk {
    /// The walk before the first directive.
    pub fn new(globals: &TextMap<String>) -> (r: Self)
        ensures
            text_values(r.arg_scope@) == text_values(globals@),
            r.first_image,
    {
        StagingWalk { arg_scope: globals.clone(), first_image: true }
    }

    /// Takes a directive, and says what it adds.
    pub fn step(&mut self, d: &Directive, build_args: &TextMap<String>, produced: &TextMap<String>) -> (r:
        Result<Option<StagingAdd>, BootableBuildError>)
        ensures
            text_values(final(self).arg_scope@) == scope_behind(
                text_values(old(self).arg_scope@),
                *d,
                text_values(build_args@),
            ),
            final(self).first_image == (old(self).first_image && !adds_image(*d)),
            is_staging_step(
                r,
                *d,
                text_values(old(self).arg_scope@),
                old(self).first_image,
                text_values(produced@),
            ),
    {
        match d {
            Directive::Arg(arg) => {
                let mut scope = self.arg_scope.clone();
                apply_arg_to_scope(&mut scope, arg, build_args);
                self.arg_scope = scope;
                Ok(None)
            },
            Directive::Add(add) => {
                let first = self.first_image;
                if let AddSource::Oci(_) = &add.source {
                    self.first_image = false;
                }
                match plan_staging_add(add, &self.arg_scope, first, produced) {
                    Ok(x) => Ok(Some(x)),
                    Err(e) => Err(e),
                }
            },
            _ => Ok(None),
        }
    }
}

/// Checks that the source of an `ADD` is there and lies inside its root.
pub fn check_staging_source(
    root_canonical: &str,
    resolved: &str,
    canonical: Option<&str>,
    path: &str,
    context: &str,
) -> (r: Result<(), BootableBuildError>)
    ensures
        match canonical {
            None => r matches Err(BootableBuildError::AddSourceNotFound { path: p, context: c })
                && p@ == path@ && c@ == context@,
            Some(at) => if is_within(at@, root_canonical@) {
                r is Ok
            } else {
                r matches Err(BootableBuildError::Path(PathRefusal::OutsideRoot {
                    resolved: x,
                    canonical: y,
                    root,
                })) && x@ == resolved@ && y@ == at@ && root@ == root_canonical@
            },
        },
{
    match canonical {
        None => Err(
            BootableBuildError::AddSourceNotFound {
                path: String::from_str(path),
                context: String::from_str(context),
            },
        ),
        Some(at) => match ensure_source_contained(root_canonical, resolved, at) {
            Ok(_) => Ok(()),
            Err(e) => Err(BootableBuildError::Path(e)),
        },
    }
}

/// Where in the image a copied file or directory goes. The path that it gets
/// must not step up either.
pub fn place_copy(dst: &str, src: &str, is_dir: bool) -> (r: Result<String, BootableBuildError>)
    ensures
        match r {
            Ok(p) => !steps_up(p@) && p@ == add_destination(dst@, src@, is_dir),
            Err(e) => steps_up(add_destination(dst@, src@, is_dir)) && is_traversal(
                e,
                "destination"@,
                add_destination(dst@, src@, is_dir),
            ),
        },
{
    let inside = compute_add_destination(dst, src, is_dir);
    match reject_traversal("destination", inside.as_str()) {
        Ok(_) => Ok(inside),
        Err(e) => Err(e),
    }
}

/// How a fetched file gets into the staging tree.
pub fn place_fetched(format: Format, url: &str, destination: &str) -> (r: Result<
    Placement,
    BootableBuildError,
>)
    ensures
        match format {
            Format::Tar | Format::Gzip => r matches Ok(Placement::Unpack { directory })
                && directory@ == destination@,
            Format::Zstd | Format::Xz | Format::Bzip2 | Format::Squashfs =>
            r matches Err(BootableBuildError::AddUrlArchiveUnsupported { url: u, format: f }) && u@
                == url@ && f@ == format.name(),
            Format::Unknown => if steps_up(file_destination(url@, destination@)) {
                r matches Err(e) && is_traversal(
                    e,
                    "destination"@,
                    file_destination(url@, destination@),
                )
            } else {
                r matches Ok(Placement::File { path }) && path@ == file_destination(
                    url@,
                    destination@,
                )
            },
        },
{
    match format {
        Format::Tar | Format::Gzip => Ok(
            Placement::Unpack { directory: String::from_str(destination) },
        ),
        Format::Zstd | Format::Xz | Format::Bzip2 | Format::Squashfs => Err(
            BootableBuildError::AddUrlArchiveUnsupported {
                url: String::from_str(url),
                format: String::from_str(format.as_str()),
            },
        ),
        Format::Unknown => {
            let path = payload_path(url, destination);
            match reject_traversal("destination", path.as_str()) {
                Ok(_) => Ok(Placement::File { path }),
                Err(e) => Err(e),
            }
        },
    }
}

/// The error for a failed fetch.
pub fn fetch_failed(url: &str, detail: String) -> (r: BootableBuildError)
    ensures
        r matches BootableBuildError::AddUrlFetch { url: u, detail: d } && u@ == url@ && d@
            == detail@,
{
    BootableBuildError::AddUrlFetch { url: String::from_str(url), detail }
}

/// The error for an archive that could not be unpacked.
pub fn extract_failed(url: &str, format: Format, detail: String) -> (r: BootableBuildError)
    ensures
        r matches BootableBuildError::AddUrlExtract { url: u, format: f, detail: d } && u@ == url@
            && f@ == format.name() && d@ == detail@,
{
    BootableBuildError::AddUrlExtract {
        url: String::from_str(url),
        format: String::from_str(format.as_str()),
        detail,
    }
}

} // verus!
