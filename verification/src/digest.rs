//! SHA-256 digests of text and bytes.
use sha2::Digest;
use vstd::prelude::*;
use vstd::utf8::*;
use crate::number::digit_char;

verus! {

/// The streaming SHA-256 state of the `sha2` crate.
#[verifier::external_type_specification]
#[verifier::external_body]
pub struct ExSha256(sha2::Sha256);

/// The bytes that a SHA-256 state has taken in so far.
pub uninterp spec fn absorbed(hasher: sha2::Sha256) -> Seq<u8>;

/// The SHA-256 digest of the bytes.
pub uninterp spec fn sha256(bytes: Seq<u8>) -> Seq<u8>;

/// `sha2::Sha256::new`: a state that has taken in nothing.
#[verifier::external_body]
fn sha256_new() -> (r: sha2::Sha256)
    ensures
        absorbed(r) == Seq::<u8>::empty(),
{
    sha2::Sha256::new()
}

/// `sha2::Sha256::update`: takes in the bytes after those taken in before.
#[verifier::external_body]
fn sha256_update(hasher: &mut sha2::Sha256, bytes: &[u8])
    ensures
        absorbed(*final(hasher)) == absorbed(*old(hasher)) + bytes@,
{
    hasher.update(bytes)
}

/// `sha2::Sha256::finalize`: the digest of all bytes taken in, 32 bytes long.
#[verifier::external_body]
fn sha256_finalize(hasher: sha2::Sha256) -> (r: Vec<u8>)
    ensures
        r@ == sha256(absorbed(hasher)),
        r@.len() == 32,
{
    hasher.finalize().to_vec()
}

/// Each byte as two lower-case hexadecimal digits, the high one first.
pub open spec fn hex_text(bytes: Seq<u8>) -> Seq<char>
    decreases bytes.len(),
{
    if bytes.len() == 0 {
        Seq::empty()
    } else {
        hex_text(bytes.drop_last()).push(digit_char((bytes.last() / 16) as nat, false)).push(
            digit_char((bytes.last() % 16) as nat, false),
        )
    }
}

/// Is the character a lower-case hexadecimal digit?
pub open spec fn is_hex_digit(c: char) -> bool {
    '0' <= c <= '9' || 'a' <= c <= 'f'
}

/// Is the text a digest in hexadecimal: 64 lower-case digits?
pub open spec fn is_hex_digest(s: Seq<char>) -> bool {
    s.len() == 64 && forall|i: int| 0 <= i < s.len() ==> is_hex_digit(#[trigger] s[i])
}

/// Two lower-case hexadecimal digits stand for each byte.
pub proof fn lemma_hex_text(bytes: Seq<u8>)
    ensures
        hex_text(bytes).len() == 2 * bytes.len(),
        forall|i: int| 0 <= i < hex_text(bytes).len() ==> is_hex_digit(#[trigger] hex_text(bytes)[i]),
    decreases bytes.len(),
{
    if bytes.len() > 0 {
        lemma_hex_text(bytes.drop_last());
        let b = bytes.last();
        assert(b / 16 < 16);
        assert(is_hex_digit(digit_char((b / 16) as nat, false)));
        assert(is_hex_digit(digit_char((b % 16) as nat, false)));
    }
}

/// `hex::encode`: each byte as two lower-case hexadecimal digits.
#[verifier::external_body]
fn hex_encode(bytes: &[u8]) -> (r: String)
    ensures
        r@ == hex_text(bytes@),
{
    hex::encode(bytes)
}

/// The digest of the bytes, in hexadecimal.
pub open spec fn hex_digest(bytes: Seq<u8>) -> Seq<char> {
    hex_text(sha256(bytes))
}

/// The digest of the bytes in the form that names a blob: `sha256:` and the
/// hexadecimal digits.
pub open spec fn blob_digest(bytes: Seq<u8>) -> Seq<char> {
    "sha256:"@ + hex_digest(bytes)
}

/// The encoding of two texts one after the other is that of the one and then
/// that of the other.
pub proof fn lemma_encode_concat(a: Seq<char>, b: Seq<char>)
    ensures
        encode_utf8(a + b) == encode_utf8(a) + encode_utf8(b),
    decreases a.len(),
{
    if a.len() == 0 {
        assert(a + b =~= b);
        assert(encode_utf8(a) + encode_utf8(b) =~= encode_utf8(b));
    } else {
        lemma_encode_concat(a.drop_first(), b);
        assert((a + b).drop_first() =~= a.drop_first() + b);
        assert((a + b)[0] == a[0]);
        assert(encode_utf8(a + b) =~= encode_utf8(a) + encode_utf8(b));
    }
}

/// A digest in the making.
pub struct Hasher {
    state: sha2::Sha256,
}

impl View for Hasher {
    type V = Seq<u8>;

    /// The bytes taken in so far.
    closed spec fn view(&self) -> Seq<u8> {
        absorbed(self.state)
    }
}

impl Hasher {
    /// Starts a digest.
    pub fn new() -> (r: Self)
        ensures
            r@ == Seq::<u8>::empty(),
    {
        Hasher { state: sha256_new() }
    }

    /// Takes in the bytes.
    pub fn feed(&mut self, bytes: &[u8])
        ensures
            final(self)@ == old(self)@ + bytes@,
    {
        sha256_update(&mut self.state, bytes);
    }

    /// The digest of all bytes taken in, in hexadecimal.
    pub fn finish(self) -> (r: String)
        ensures
            r@ == hex_digest(self@),
            is_hex_digest(r@),
    {
        let digest = sha256_finalize(self.state);
        proof {
            lemma_hex_text(digest@);
        }
        hex_encode(digest.as_slice())
    }
}

/// A digest of text in the making.
pub struct TextHasher {
    hasher: Hasher,
    text: Ghost<Seq<char>>,
}

impl View for TextHasher {
    type V = Seq<char>;

    /// The text taken in so far.
    closed spec fn view(&self) -> Seq<char> {
        self.text@
    }
}

impl TextHasher {
    #[verifier::type_invariant]
    spec fn consistent(self) -> bool {
        self.hasher@ == encode_utf8(self.text@)
    }

    /// Starts a digest.
    pub fn new() -> (r: Self)
        ensures
            r@ == Seq::<char>::empty(),
    {
        TextHasher { hasher: Hasher::new(), text: Ghost(Seq::empty()) }
    }

    /// Takes in the text, by its UTF-8 encoding.
    pub fn feed(self, s: &str) -> (r: Self)
        ensures
            r@ == self@ + s@,
    {
        proof {
            use_type_invariant(&self);
            lemma_encode_concat(self.text@, s@);
        }
        let ghost all = self.text@ + s@;
        let mut hasher = self.hasher;
        hasher.feed(s.as_bytes());
        TextHasher { hasher, text: Ghost(all) }
    }

    /// The digest of the text taken in, in hexadecimal.
    pub fn finish(self) -> (r: String)
        ensures
            r@ == hex_digest(encode_utf8(self@)),
            is_hex_digest(r@),
    {
        proof {
            use_type_invariant(&self);
        }
        self.hasher.finish()
    }
}

/// The digest that names the blob `bytes`.
pub fn sha256_digest(bytes: &[u8]) -> (r: String)
    ensures
        r@ == blob_digest(bytes@),
        is_hex_digest(hex_digest(bytes@)),
{
    let mut hasher = Hasher::new();
    hasher.feed(bytes);
    assert(hasher@ =~= bytes@);
    let mut r = String::from_str("sha256:");
    let hex = hasher.finish();
    r.append(hex.as_str());
    r
}

} // verus!
