//! Fetching what `ADD` names by URL.
use vstd::prelude::*;
use crate::digest::{blob_digest, hex_digest, is_hex_digest, Hasher};
use crate::image::opt_text;
use crate::number::{decimal, write_decimal};
use crate::text::{
    concat2, concat3, concat4, lemma_split_nonempty, same, split, split_on, split_once,
    split_once_spec, texts,
};
use super::error::EngineBuildError;

verus! {

/// `s` up to the first `c`.
pub open spec fn up_to(s: Seq<char>, c: char) -> Seq<char> {
    split(s, c)[0]
}

/// The part of a URL behind its scheme, without query and fragment.
pub open spec fn url_path(url: Seq<char>) -> Seq<char> {
    let plain = up_to(up_to(url, '#'), '?');
    match split_once_spec(plain, "://"@) {
        Some(parts) => parts.1,
        None => plain,
    }
}

/// The file name that a URL implies: its last segment; `download` where it has
/// none.
pub open spec fn leaf_of_url(url: Seq<char>) -> Seq<char> {
    let path = url_path(url);
    let leaf = split(path, '/').last();
    if leaf.len() > 0 && leaf != path {
        leaf
    } else {
        "download"@
    }
}

fn head_of(s: &str, c: char) -> (r: String)
    ensures
        r@ == up_to(s@, c),
{
    let parts = split_on(s, c);
    proof {
        lemma_split_nonempty(s@, c);
        assert(texts(parts@)[0] == parts@[0]@);
    }
    parts[0].clone()
}

/// The file name that a URL implies.
pub fn url_leaf(url: &str) -> (r: String)
    ensures
        r@ == leaf_of_url(url@),
{
    let no_fragment = head_of(url, '#');
    let no_query = head_of(no_fragment.as_str(), '?');
    let path = match split_once(no_query.as_str(), "://") {
        Some(parts) => parts.1,
        None => no_query,
    };
    let segments = split_on(path.as_str(), '/');
    proof {
        lemma_split_nonempty(path@, '/');
        assert(texts(segments@).last() == segments@[segments@.len() - 1]@);
    }
    let leaf = &segments[segments.len() - 1];
    if !leaf.as_str().is_empty() && !same(leaf.as_str(), path.as_str()) {
        leaf.clone()
    } else {
        String::from_str("download")
    }
}

/// How many redirects are followed.
pub const MAX_REDIRECTS: usize = 10;

/// How many bytes a fetched file may have.
pub const MAX_URL_FETCH_BYTES: u64 = 8589934592;

/// The port where a URL names none and its scheme has none.
pub const DEFAULT_PORT: u16 = 443;

/// A parsed URL.
#[derive(Debug)]
pub struct UrlParts {
    /// The URL in its normal form.
    pub url: String,
    /// Its host.
    pub host: Option<String>,
    /// Its port, or that of its scheme.
    pub port: Option<u16>,
}

/// The model of [`UrlParts`].
#[verifier::ext_equal]
pub struct UrlView {
    /// The URL in its normal form.
    pub url: Seq<char>,
    /// Its host.
    pub host: Option<Seq<char>>,
    /// Its port, or that of its scheme.
    pub port: Option<u16>,
}

impl View for UrlParts {
    type V = UrlView;

    open spec fn view(&self) -> UrlView {
        UrlView { url: self.url@, host: opt_text(self.host), port: self.port }
    }
}

/// What a text is as a URL, or why it is none.
pub uninterp spec fn url_of(text: Seq<char>) -> Result<UrlView, Seq<char>>;

/// What a reference is as a URL, seen from the URL `base`, or why it is none.
pub uninterp spec fn url_seen_from(base: Seq<char>, reference: Seq<char>) -> Result<
    UrlView,
    Seq<char>,
>;

/// Is the result the outcome?
pub open spec fn is_url_outcome(
    r: Result<UrlParts, String>,
    outcome: Result<UrlView, Seq<char>>,
) -> bool {
    match (r, outcome) {
        (Ok(u), Ok(v)) => u@ == v,
        (Err(e), Err(why)) => e@ == why,
        _ => false,
    }
}

/// `reqwest::Url::parse`, with `as_str`, `host_str` and `port_or_known_default` of
/// the URL; a parse error as its message. What comes out depends on the text
/// alone.
#[verifier::external_body]
fn parse_url(text: &str) -> (r: Result<UrlParts, String>)
    ensures
        is_url_outcome(r, url_of(text@)),
{
    match reqwest::Url::parse(text) {
        Ok(u) => Ok(
            UrlParts {
                url: u.as_str().to_string(),
                host: u.host_str().map(|h| h.to_string()),
                port: u.port_or_known_default(),
            },
        ),
        Err(e) => Err(e.to_string()),
    }
}

/// `reqwest::Url::join` on the URL that `reqwest::Url::parse` makes of `base`,
/// with `as_str`, `host_str` and `port_or_known_default` of the URL; an error of
/// either as its message. What comes out depends on the two texts alone.
#[verifier::external_body]
fn join_url(base: &str, reference: &str) -> (r: Result<UrlParts, String>)
    ensures
        is_url_outcome(r, url_seen_from(base@, reference@)),
{
    match reqwest::Url::parse(base).and_then(|b| b.join(reference)) {
        Ok(u) => Ok(
            UrlParts {
                url: u.as_str().to_string(),
                host: u.host_str().map(|h| h.to_string()),
                port: u.port_or_known_default(),
            },
        ),
        Err(e) => Err(e.to_string()),
    }
}

/// Does the error say that fetching `url` failed for this reason?
pub open spec fn is_fetch_failure(e: EngineBuildError, url: Seq<char>, why: Seq<char>) -> bool {
    e matches EngineBuildError::AddUrlFetchFailed { url: u, detail } && u@ == url && detail@ == why
}

/// The error for a failed fetch.
pub fn fetch_failed(url: &str, detail: String) -> (r: EngineBuildError)
    ensures
        is_fetch_failure(r, url@, detail@),
{
    EngineBuildError::AddUrlFetchFailed { url: String::from_str(url), detail }
}

/// A fetch under way: where it has come to by redirects.
#[derive(Debug)]
pub struct FetchWalk {
    /// The URL in the recipe.
    pub original: String,
    /// The URL to ask next.
    pub target: UrlParts,
    /// How many redirects were followed.
    pub hops: usize,
}

/// The model of a [`FetchWalk`].
#[verifier::ext_equal]
pub struct FetchView {
    /// The URL in the recipe.
    pub original: Seq<char>,
    /// The URL to ask next.
    pub target: UrlView,
    /// How many redirects were followed.
    pub hops: nat,
}

impl View for FetchWalk {
    type V = FetchView;

    open spec fn view(&self) -> FetchView {
        FetchView { original: self.original@, target: self.target@, hops: self.hops as nat }
    }
}

/// What a reply means.
#[derive(Clone, Copy, Debug, PartialEq, Eq, Structural)]
pub enum Reply {
    /// The file follows.
    Body,
    /// Another URL is asked.
    Redirected,
}

/// Is it the status of a redirect?
pub open spec fn is_redirection(status: u16) -> bool {
    300 <= status < 400
}

/// Is it the status of a success?
pub open spec fn is_success(status: u16) -> bool {
    200 <= status < 300
}

/// The start of a fetch, from what the URL is.
pub fn start_fetch(url: &str, parsed: Result<UrlParts, String>) -> (r: Result<
    FetchWalk,
    EngineBuildError,
>)
    ensures
        match (r, parsed) {
            (Ok(w), Ok(target)) => w@ == (FetchView {
                original: url@,
                target: target@,
                hops: 0,
            }),
            (Err(e), Err(why)) => is_fetch_failure(e, url@, why@),
            _ => false,
        },
{
    match parsed {
        Ok(target) => Ok(FetchWalk { original: String::from_str(url), target, hops: 0 }),
        Err(why) => Err(fetch_failed(url, why)),
    }
}

/// The reason for which a reply other than a success ends a fetch; none for a
/// redirect that is followed. `next` is what the place it names is.
pub open spec fn redirect_failure(
    hops: nat,
    status_text: Seq<char>,
    next: Option<Result<UrlView, Seq<char>>>,
) -> Option<Seq<char>> {
    if hops + 1 > MAX_REDIRECTS {
        Some("exceeded "@ + decimal(MAX_REDIRECTS as nat) + " redirects"@)
    } else {
        match next {
            None => Some("HTTP "@ + status_text + " without a Location"@),
            Some(Err(why)) => Some("bad redirect target: "@ + why),
            Some(Ok(_)) => None,
        }
    }
}

impl FetchWalk {
    /// Starts the fetch of what an `ADD` names by URL.
    pub fn start(url: &str) -> (r: Result<FetchWalk, EngineBuildError>)
        ensures
            match (r, url_of(url@)) {
                (Ok(w), Ok(target)) => w@ == (FetchView { original: url@, target, hops: 0 }),
                (Err(e), Err(why)) => is_fetch_failure(e, url@, why),
                _ => false,
            },
    {
        start_fetch(url, parse_url(url))
    }

    /// The host and port to ask; a URL without a host is an error.
    pub fn endpoint(&self) -> (r: Result<(String, u16), EngineBuildError>)
        ensures
            match (r, self@.target.host) {
                (Ok(x), Some(host)) => x.0@ == host && x.1 == (match self@.target.port {
                    Some(p) => p,
                    None => DEFAULT_PORT,
                }),
                (Err(e), None) => is_fetch_failure(
                    e,
                    self@.original,
                    self@.target.url + " has no host"@,
                ),
                _ => false,
            },
    {
        match &self.target.host {
            Some(host) => {
                let port: u16 = match self.target.port {
                    Some(p) => p,
                    None => DEFAULT_PORT,
                };
                Ok((host.clone(), port))
            },
            None => Err(
                fetch_failed(
                    self.original.as_str(),
                    concat2(self.target.url.as_str(), " has no host"),
                ),
            ),
        }
    }

    /// Takes a reply: its status, the status in words, and the place that its
    /// `Location` names.
    pub fn on_reply(&mut self, status: u16, status_text: &str, location: Option<&str>) -> (r: Result<
        Reply,
        EngineBuildError,
    >)
        requires
            old(self)@.hops <= MAX_REDIRECTS,
        ensures
            final(self)@.hops <= MAX_REDIRECTS,
            final(self)@.original == old(self)@.original,
            ({
                let next = match location {
                    Some(l) => Some(url_seen_from(old(self)@.target.url, l@)),
                    None => None,
                };
                if is_redirection(status) {
                    match redirect_failure(old(self)@.hops, status_text@, next) {
                        Some(why) => r matches Err(e) && is_fetch_failure(
                            e,
                            old(self)@.original,
                            why,
                        ) && final(self)@ == old(self)@,
                        None => r == Ok::<Reply, EngineBuildError>(Reply::Redirected)
                            && final(self)@ == (FetchView {
                            original: old(self)@.original,
                            target: next->0->Ok_0,
                            hops: old(self)@.hops + 1,
                        }),
                    }
                } else {
                    &&& final(self)@ == old(self)@
                    &&& if is_success(status) {
                        r == Ok::<Reply, EngineBuildError>(Reply::Body)
                    } else {
                        r matches Err(e) && is_fetch_failure(
                            e,
                            old(self)@.original,
                            "HTTP "@ + status_text@,
                        )
                    }
                }
            }),
    {
        let next: Option<Result<UrlParts, String>> = match location {
            Some(l) => if 300 <= status && status < 400 {
                Some(join_url(self.target.url.as_str(), l))
            } else {
                None
            },
            None => None,
        };
        if 300 <= status && status < 400 {
            self.redirect(status_text, next)
        } else if 200 <= status && status < 300 {
            Ok(Reply::Body)
        } else {
            Err(fetch_failed(self.original.as_str(), concat2("HTTP ", status_text)))
        }
    }

    /// Takes a redirect, from what the place it names is.
    pub fn redirect(&mut self, status_text: &str, next: Option<Result<UrlParts, String>>) -> (r: Result<
        Reply,
        EngineBuildError,
    >)
        requires
            old(self)@.hops <= MAX_REDIRECTS,
        ensures
            final(self)@.hops <= MAX_REDIRECTS,
            ({
                let place = next_view(next);
                match redirect_failure(old(self)@.hops, status_text@, place) {
                    Some(why) => r matches Err(e) && is_fetch_failure(e, old(self)@.original, why)
                        && final(self)@ == old(self)@,
                    None => r == Ok::<Reply, EngineBuildError>(Reply::Redirected) && final(self)@
                        == (FetchView {
                        original: old(self)@.original,
                        target: place->0->Ok_0,
                        hops: old(self)@.hops + 1,
                    }),
                }
            }),
    {
        if self.hops + 1 > MAX_REDIRECTS {
            let limit = write_decimal(MAX_REDIRECTS as u128);
            return Err(
                fetch_failed(
                    self.original.as_str(),
                    concat3("exceeded ", limit.as_str(), " redirects"),
                ),
            );
        }
        match next {
            None => Err(
                fetch_failed(
                    self.original.as_str(),
                    concat3("HTTP ", status_text, " without a Location"),
                ),
            ),
            Some(Err(why)) => Err(
                fetch_failed(
                    self.original.as_str(),
                    concat2("bad redirect target: ", why.as_str()),
                ),
            ),
            Some(Ok(target)) => {
                self.target = target;
                self.hops = self.hops + 1;
                Ok(Reply::Redirected)
            },
        }
    }
}

/// The model of the place that a redirect names.
pub open spec fn next_view(next: Option<Result<UrlParts, String>>) -> Option<
    Result<UrlView, Seq<char>>,
> {
    match next {
        Some(Ok(u)) => Some(Ok(u@)),
        Some(Err(e)) => Some(Err(e@)),
        None => None,
    }
}

/// An address of a host, and what the egress policy says of it.
#[derive(Debug)]
pub struct AddressCheck {
    /// The address.
    pub address: String,
    /// The kind of address for which it is denied; none where it is allowed.
    pub denied: Option<String>,
}

/// Is the `i`th address the first that is allowed?
pub open spec fn first_allowed(checks: Seq<AddressCheck>, i: int) -> bool {
    &&& 0 <= i < checks.len()
    &&& checks[i].denied is None
    &&& forall|j: int| 0 <= j < i ==> (#[trigger] checks[j]).denied is Some
}

/// Picks the address to connect to: the first that is allowed. A host without
/// addresses is an error, and so is one whose addresses are all denied.
pub fn choose_address(
    original: &str,
    target: &str,
    host: &str,
    checks: &Vec<AddressCheck>,
) -> (r: Result<usize, EngineBuildError>)
    ensures
        match r {
            Ok(i) => first_allowed(checks@, i as int),
            Err(e) => {
                &&& forall|j: int| 0 <= j < checks@.len() ==> (#[trigger] checks@[j]).denied is Some
                &&& if checks@.len() == 0 {
                    is_fetch_failure(e, original@, host@ + " resolved to no addresses"@)
                } else {
                    e matches EngineBuildError::AddUrlEgressDenied {
                        url,
                        target: t,
                        address,
                        category,
                    } && url@ == original@ && t@ == target@ && address@ == checks@[0].address@
                        && category@ == checks@[0].denied->0@
                }
            },
        },
{
    if checks.len() == 0 {
        return Err(fetch_failed(original, concat2(host, " resolved to no addresses")));
    }
    let mut i: usize = 0;
    while i < checks.len()
        invariant
            i <= checks@.len(),
            forall|j: int| 0 <= j < i ==> (#[trigger] checks@[j]).denied is Some,
        decreases checks.len() - i,
    {
        if checks[i].denied.is_none() {
            return Ok(i);
        }
        i += 1;
    }
    assert(checks@[0].denied is Some);
    let category = match &checks[0].denied {
        Some(c) => c.clone(),
        None => String::new(),
    };
    Err(
        EngineBuildError::AddUrlEgressDenied {
            url: String::from_str(original),
            target: String::from_str(target),
            address: checks[0].address.clone(),
            category,
        },
    )
}

/// The error for a host whose addresses could not be found out.
pub fn resolve_failed(original: &str, host: &str, why: &str) -> (r: EngineBuildError)
    ensures
        is_fetch_failure(r, original@, "resolving "@ + host@ + ": "@ + why@),
{
    fetch_failed(original, concat4("resolving ", host, ": ", why))
}

/// A file as it comes in: its digest, and how much of it there is.
pub struct FetchBody {
    hasher: Hasher,
    total: u64,
}

impl View for FetchBody {
    type V = Seq<u8>;

    /// The bytes so far.
    closed spec fn view(&self) -> Seq<u8> {
        self.hasher@
    }
}

impl FetchBody {
    #[verifier::type_invariant]
    spec fn bounded(self) -> bool {
        self.total == self.hasher@.len() && self.total <= MAX_URL_FETCH_BYTES
    }

    /// Nothing yet.
    pub fn new() -> (r: Self)
        ensures
            r@ == Seq::<u8>::empty(),
    {
        FetchBody { hasher: Hasher::new(), total: 0 }
    }

    /// Takes the next bytes; a file over the limit is an error.
    pub fn on_chunk(self, original: &str, chunk: &[u8]) -> (r: Result<Self, EngineBuildError>)
        ensures
            match r {
                Ok(b) => b@ == self@ + chunk@ && b@.len() <= MAX_URL_FETCH_BYTES,
                Err(e) => self@.len() + chunk@.len() > MAX_URL_FETCH_BYTES && is_fetch_failure(
                    e,
                    original@,
                    "payload exceeds the "@ + decimal(MAX_URL_FETCH_BYTES as nat)
                        + "-byte ceiling"@,
                ),
            },
    {
        proof {
            use_type_invariant(&self);
        }
        let n: u64 = chunk.len() as u64;
        if n > MAX_URL_FETCH_BYTES - self.total {
            let limit = write_decimal(MAX_URL_FETCH_BYTES as u128);
            return Err(
                fetch_failed(
                    original,
                    concat3("payload exceeds the ", limit.as_str(), "-byte ceiling"),
                ),
            );
        }
        let total: u64 = self.total + n;
        let mut hasher = self.hasher;
        hasher.feed(chunk);
        Ok(FetchBody { hasher, total })
    }

    /// How many bytes there are.
    pub fn len(&self) -> (r: u64)
        ensures
            r == self@.len(),
    {
        proof {
            use_type_invariant(self);
        }
        self.total
    }

    /// The digest of the whole file.
    pub fn finish(self) -> (r: String)
        ensures
            r@ == blob_digest(self@),
            is_hex_digest(hex_digest(self@)),
    {
        let hex = self.hasher.finish();
        concat2("sha256:", hex.as_str())
    }
}

} // verus!
