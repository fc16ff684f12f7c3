//! Image references.
use vstd::prelude::*;

verus! {

/// A parsed image reference.
#[derive(Debug)]
pub struct ImageReference {
    /// The registry that it names.
    pub registry: String,
    /// The reference in canonical form: with registry, repository, and tag or
    /// digest.
    pub whole: String,
}

/// What `text` is as an image reference: the registry and the canonical form,
/// or the reason why it is none.
pub uninterp spec fn reference_of(text: Seq<char>) -> Result<(Seq<char>, Seq<char>), Seq<char>>;

/// `oci_client::Reference` parsed from text, with its `registry()` and its
/// `whole()`; an `oci_client::ParseError` as its message. What comes out
/// depends on the text alone.
#[verifier::external_body]
pub(crate) fn parse_reference(text: &str) -> (r: Result<ImageReference, String>)
    ensures
        match r {
            Ok(x) => reference_of(text@) == Ok::<(Seq<char>, Seq<char>), Seq<char>>(
                (x.registry@, x.whole@),
            ),
            Err(e) => reference_of(text@) == Err::<(Seq<char>, Seq<char>), Seq<char>>(e@),
        },
{
    match text.parse::<oci_client::Reference>() {
        Ok(r) => Ok(ImageReference { registry: r.registry().to_string(), whole: r.whole() }),
        Err(e) => Err(e.to_string()),
    }
}

/// Reads an image reference.
pub fn read_reference(text: &str) -> (r: Result<ImageReference, String>)
    ensures
        match r {
            Ok(x) => reference_of(text@) == Ok::<(Seq<char>, Seq<char>), Seq<char>>(
                (x.registry@, x.whole@),
            ),
            Err(e) => reference_of(text@) == Err::<(Seq<char>, Seq<char>), Seq<char>>(e@),
        },
{
    parse_reference(text)
}

} // verus!
