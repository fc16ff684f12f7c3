//! When two steps share a key of the layer cache: only where everything that
//! their layers depend on is the same.
//!
//! A key is a digest, so two different texts could have the same one; the laws
//! leave that out, and nothing else.
use vstd::prelude::*;
use vstd::utf8::*;
use crate::digest::{hex_text, sha256, sha256_digest};
use crate::engine_build::cache::{
    add_cache_key, add_text, cross_stage_add_cache_key, cross_stage_add_text, diff_ids,
    digest_add_text, oci_image_add_cache_key, or_empty, parent_state_hash, run_cache_key, run_text,
    stack_text, text_digest, url_add_cache_key, lemma_stack_text,
};
use crate::engine_build::state::BuildState;
use crate::number::digit_char;
use crate::order::{lemma_text_order, text_le};
use crate::text::{lemma_terminated_injective, terminated, texts};
use super::aid::{lemma_cut, lemma_same_tail, lemma_terminated_first};

verus! {

/// The value of a hexadecimal digit.
pub open spec fn digit_value(c: char) -> int {
    if '0' <= c <= '9' {
        c as int - '0' as int
    } else {
        c as int - 'a' as int + 10
    }
}

/// Is `text` the bytes in lower-case hexadecimal digits, two for each, the high
/// one first?
pub open spec fn spells(text: Seq<char>, bytes: Seq<u8>) -> bool {
    &&& text.len() == 2 * bytes.len()
    &&& forall|i: int|
        0 <= i < text.len() ==> ('0' <= #[trigger] text[i] <= '9' || 'a' <= text[i] <= 'f')
    &&& forall|i: int|
        0 <= i < bytes.len() ==> #[trigger] bytes[i] == 16 * digit_value(text[2 * i])
            + digit_value(text[2 * i + 1])
}

/// Is `key` the SHA-256 digest of two different things?
pub open spec fn names_two(key: Seq<char>) -> bool {
    exists|x: Seq<u8>, y: Seq<u8>|
        x != y && #[trigger] spells(key, sha256(x)) && #[trigger] spells(key, sha256(y))
}

/// Is the text one line?
pub open spec fn one_line(s: Seq<char>) -> bool {
    !s.contains('\n')
}

/// Are the texts one line each?
pub open spec fn one_line_each(s: Seq<Seq<char>>) -> bool {
    forall|i: int| 0 <= i < s.len() ==> one_line(#[trigger] s[i])
}

/// Is NUL in none of the texts?
pub open spec fn without_nul(s: Seq<Seq<char>>) -> bool {
    forall|i: int| 0 <= i < s.len() ==> !(#[trigger] s[i]).contains('\0')
}

pub proof fn lemma_spells(bytes: Seq<u8>)
    ensures
        spells(hex_text(bytes), bytes),
    decreases bytes.len(),
{
    if bytes.len() > 0 {
        let front = bytes.drop_last();
        lemma_spells(front);
        let t = hex_text(bytes);
        let u = hex_text(front);
        let b = bytes.last();
        let n = front.len() as int;
        assert(b / 16 < 16);
        assert(t.len() == 2 * bytes.len());
        assert(t[2 * n] == digit_char((b / 16) as nat, false));
        assert(t[2 * n + 1] == digit_char((b % 16) as nat, false));
        assert forall|i: int| 0 <= i < t.len() implies ('0' <= #[trigger] t[i] <= '9' || 'a'
            <= t[i] <= 'f') by {
            if i < 2 * n {
                assert(t[i] == u[i]);
            }
        }
        assert forall|i: int| 0 <= i < bytes.len() implies #[trigger] bytes[i] == 16 * digit_value(
            t[2 * i],
        ) + digit_value(t[2 * i + 1]) by {
            if i < n {
                assert(front[i] == bytes[i]);
                assert(t[2 * i] == u[2 * i]);
                assert(t[2 * i + 1] == u[2 * i + 1]);
            } else {
                assert(b == 16 * (b / 16) + b % 16);
            }
        }
    } else {
        assert(hex_text(bytes) =~= Seq::empty());
    }
}

/// The digest that names a blob is `sha256:` and the SHA-256 digest of its bytes
/// in lower-case hexadecimal digits.
pub proof fn lemma_blob_digest(bytes: &[u8], r: String)
    requires
        call_ensures(sha256_digest, (bytes,), r),
    ensures
        r@.len() >= 7,
        r@.take(7) == "sha256:"@,
        spells(r@.skip(7), sha256(bytes@)),
{
    reveal_strlit("sha256:");
    lemma_spells(sha256(bytes@));
    assert(r@.take(7) =~= "sha256:"@);
    assert(r@.skip(7) =~= hex_text(sha256(bytes@)));
}

/// The digest of a text is that of its UTF-8 bytes.
pub proof fn lemma_text_digest(text: Seq<char>)
    ensures
        spells(text_digest(text), sha256(encode_utf8(text))),
{
    lemma_spells(sha256(encode_utf8(text)));
}

/// Texts with one digest are the same, unless the digest names two things.
pub proof fn lemma_same_text(a: Seq<char>, b: Seq<char>)
    requires
        text_digest(a) == text_digest(b),
    ensures
        a == b || names_two(text_digest(a)),
{
    lemma_text_digest(a);
    lemma_text_digest(b);
    if encode_utf8(a) == encode_utf8(b) {
        encode_utf8_decode_utf8(a);
        encode_utf8_decode_utf8(b);
    } else {
        assert(spells(text_digest(a), sha256(encode_utf8(a))));
        assert(spells(text_digest(a), sha256(encode_utf8(b))));
    }
}

proof fn lemma_line_feed()
    ensures
        "\n"@ == seq!['\n'],
        "\0"@ == seq!['\0'],
{
    reveal_strlit("\n");
    reveal_strlit("\0");
    assert("\n"@ =~= seq!['\n']);
    assert("\0"@ =~= seq!['\0']);
}

proof fn lemma_headed_line(head: Seq<char>, s: Seq<char>)
    requires
        one_line(head),
        one_line(s),
    ensures
        one_line(head + s),
{
    let t = head + s;
    if t.contains('\n') {
        let i = t.index_of('\n');
        assert(t[i] == '\n');
        if i < head.len() {
            assert(head.contains(head[i]));
        } else {
            assert(s.contains(s[i - head.len()]));
        }
    }
}

proof fn lemma_same_target(
    head: Seq<char>,
    arch1: Seq<char>,
    codec1: Seq<char>,
    parent1: Seq<char>,
    rest1: Seq<char>,
    arch2: Seq<char>,
    codec2: Seq<char>,
    parent2: Seq<char>,
    rest2: Seq<char>,
)
    requires
        one_line(arch1) && one_line(codec1) && one_line(parent1),
        one_line(arch2) && one_line(codec2) && one_line(parent2),
        head + "arch:"@ + arch1 + "\ncodec:"@ + codec1 + "\n"@ + parent1 + "\n"@ + rest1 == head
            + "arch:"@ + arch2 + "\ncodec:"@ + codec2 + "\n"@ + parent2 + "\n"@ + rest2,
    ensures
        arch1 == arch2,
        codec1 == codec2,
        parent1 == parent2,
        rest1 == rest2,
{
    reveal_strlit("\ncodec:");
    lemma_line_feed();
    let word = seq!['c', 'o', 'd', 'e', 'c', ':'];
    assert("\ncodec:"@ =~= seq!['\n'] + word);
    let c1 = codec1 + seq!['\n'] + (parent1 + seq!['\n'] + rest1);
    let c2 = codec2 + seq!['\n'] + (parent2 + seq!['\n'] + rest2);
    let a1 = arch1 + seq!['\n'] + (word + c1);
    let a2 = arch2 + seq!['\n'] + (word + c2);
    let p = head + "arch:"@;
    assert(p + a1 =~= p + arch1 + "\ncodec:"@ + codec1 + "\n"@ + parent1 + "\n"@ + rest1);
    assert(p + a2 =~= p + arch2 + "\ncodec:"@ + codec2 + "\n"@ + parent2 + "\n"@ + rest2);
    lemma_same_tail(p, a1, a2);
    lemma_cut(arch1, word + c1, arch2, word + c2, '\n');
    lemma_same_tail(word, c1, c2);
    lemma_cut(codec1, parent1 + seq!['\n'] + rest1, codec2, parent2 + seq!['\n'] + rest2, '\n');
    lemma_cut(parent1, rest1, parent2, rest2, '\n');
}

/// The text behind the key of an `ADD` from the build context is the same only
/// where the target, the stack below, the digest of the source and the
/// destination are.
pub proof fn lemma_add_text_fields(
    arch1: Seq<char>,
    codec1: Seq<char>,
    parent1: Seq<char>,
    digest1: Seq<char>,
    dst1: Seq<char>,
    arch2: Seq<char>,
    codec2: Seq<char>,
    parent2: Seq<char>,
    digest2: Seq<char>,
    dst2: Seq<char>,
)
    requires
        one_line(arch1) && one_line(codec1) && one_line(parent1) && one_line(digest1),
        one_line(arch2) && one_line(codec2) && one_line(parent2) && one_line(digest2),
        add_text(arch1, codec1, parent1, digest1, dst1) == add_text(
            arch2,
            codec2,
            parent2,
            digest2,
            dst2,
        ),
    ensures
        arch1 == arch2,
        codec1 == codec2,
        parent1 == parent2,
        digest1 == digest2,
        dst1 == dst2,
{
    lemma_line_feed();
    let r1 = digest1 + seq!['\n'] + dst1;
    let r2 = digest2 + seq!['\n'] + dst2;
    let h = "ADD\n"@;
    assert(add_text(arch1, codec1, parent1, digest1, dst1) =~= h + "arch:"@ + arch1 + "\ncodec:"@
        + codec1 + "\n"@ + parent1 + "\n"@ + r1);
    assert(add_text(arch2, codec2, parent2, digest2, dst2) =~= h + "arch:"@ + arch2 + "\ncodec:"@
        + codec2 + "\n"@ + parent2 + "\n"@ + r2);
    lemma_same_target(h, arch1, codec1, parent1, r1, arch2, codec2, parent2, r2);
    lemma_cut(digest1, dst1, digest2, dst2, '\n');
}

/// Two `ADD`s from the build context share a key only where the target, the stack
/// below, the digest of the source and the destination are the same.
pub proof fn lemma_add_key_fields(
    arch1: &str,
    codec1: &str,
    parent1: &str,
    digest1: &str,
    dst1: &str,
    r1: String,
    arch2: &str,
    codec2: &str,
    parent2: &str,
    digest2: &str,
    dst2: &str,
    r2: String,
)
    requires
        call_ensures(add_cache_key, (arch1, codec1, parent1, digest1, dst1), r1),
        call_ensures(add_cache_key, (arch2, codec2, parent2, digest2, dst2), r2),
        one_line(arch1@) && one_line(codec1@) && one_line(parent1@) && one_line(digest1@),
        one_line(arch2@) && one_line(codec2@) && one_line(parent2@) && one_line(digest2@),
        r1@ == r2@,
        !names_two(r1@),
    ensures
        arch1@ == arch2@,
        codec1@ == codec2@,
        parent1@ == parent2@,
        digest1@ == digest2@,
        dst1@ == dst2@,
{
    lemma_same_text(
        add_text(arch1@, codec1@, parent1@, digest1@, dst1@),
        add_text(arch2@, codec2@, parent2@, digest2@, dst2@),
    );
    lemma_add_text_fields(
        arch1@,
        codec1@,
        parent1@,
        digest1@,
        dst1@,
        arch2@,
        codec2@,
        parent2@,
        digest2@,
        dst2@,
    );
}

/// The text behind the key of an `ADD` of something with a digest is the same
/// only where the codec, the stack below, the digest and the destination are.
pub proof fn lemma_digest_add_fields(
    head: Seq<char>,
    codec1: Seq<char>,
    parent1: Seq<char>,
    digest1: Seq<char>,
    dst1: Seq<char>,
    codec2: Seq<char>,
    parent2: Seq<char>,
    digest2: Seq<char>,
    dst2: Seq<char>,
)
    requires
        one_line(codec1) && one_line(parent1) && one_line(digest1),
        one_line(codec2) && one_line(parent2) && one_line(digest2),
        digest_add_text(head, codec1, parent1, digest1, dst1) == digest_add_text(
            head,
            codec2,
            parent2,
            digest2,
            dst2,
        ),
    ensures
        codec1 == codec2,
        parent1 == parent2,
        digest1 == digest2,
        dst1 == dst2,
{
    lemma_line_feed();
    let d1 = digest1 + seq!['\n'] + dst1;
    let d2 = digest2 + seq!['\n'] + dst2;
    let p1 = parent1 + seq!['\n'] + d1;
    let p2 = parent2 + seq!['\n'] + d2;
    let c1 = codec1 + seq!['\n'] + p1;
    let c2 = codec2 + seq!['\n'] + p2;
    assert(digest_add_text(head, codec1, parent1, digest1, dst1) =~= head + c1);
    assert(digest_add_text(head, codec2, parent2, digest2, dst2) =~= head + c2);
    lemma_same_tail(head, c1, c2);
    lemma_cut(codec1, p1, codec2, p2, '\n');
    lemma_cut(parent1, d1, parent2, d2, '\n');
    lemma_cut(digest1, dst1, digest2, dst2, '\n');
}

/// Two `ADD`s of URLs share a key only where the codec, the stack below, what was
/// fetched and the destination are the same.
pub proof fn lemma_url_key_fields(
    codec1: &str,
    parent1: &str,
    digest1: &str,
    dst1: &str,
    r1: String,
    codec2: &str,
    parent2: &str,
    digest2: &str,
    dst2: &str,
    r2: String,
)
    requires
        call_ensures(url_add_cache_key, (codec1, parent1, digest1, dst1), r1),
        call_ensures(url_add_cache_key, (codec2, parent2, digest2, dst2), r2),
        one_line(codec1@) && one_line(parent1@) && one_line(digest1@),
        one_line(codec2@) && one_line(parent2@) && one_line(digest2@),
        r1@ == r2@,
        !names_two(r1@),
    ensures
        codec1@ == codec2@,
        parent1@ == parent2@,
        digest1@ == digest2@,
        dst1@ == dst2@,
{
    let h = "ADD-URL\ncodec:"@;
    lemma_same_text(
        digest_add_text(h, codec1@, parent1@, digest1@, dst1@),
        digest_add_text(h, codec2@, parent2@, digest2@, dst2@),
    );
    lemma_digest_add_fields(
        h,
        codec1@,
        parent1@,
        digest1@,
        dst1@,
        codec2@,
        parent2@,
        digest2@,
        dst2@,
    );
}

/// Two `ADD`s of images share a key only where the codec, the stack below, the
/// manifest of the image and the destination are the same.
pub proof fn lemma_image_key_fields(
    codec1: &str,
    parent1: &str,
    digest1: &str,
    dst1: &str,
    r1: String,
    codec2: &str,
    parent2: &str,
    digest2: &str,
    dst2: &str,
    r2: String,
)
    requires
        call_ensures(oci_image_add_cache_key, (codec1, parent1, digest1, dst1), r1),
        call_ensures(oci_image_add_cache_key, (codec2, parent2, digest2, dst2), r2),
        one_line(codec1@) && one_line(parent1@) && one_line(digest1@),
        one_line(codec2@) && one_line(parent2@) && one_line(digest2@),
        r1@ == r2@,
        !names_two(r1@),
    ensures
        codec1@ == codec2@,
        parent1@ == parent2@,
        digest1@ == digest2@,
        dst1@ == dst2@,
{
    let h = "ADD-OCI\ncodec:"@;
    lemma_same_text(
        digest_add_text(h, codec1@, parent1@, digest1@, dst1@),
        digest_add_text(h, codec2@, parent2@, digest2@, dst2@),
    );
    lemma_digest_add_fields(
        h,
        codec1@,
        parent1@,
        digest1@,
        dst1@,
        codec2@,
        parent2@,
        digest2@,
        dst2@,
    );
}

/// Two `ADD --from`s share a key only where the codec, the stack below, the image
/// of the stage, the path in it and the destination are the same.
pub proof fn lemma_cross_stage_key_fields(
    codec1: &str,
    parent1: &str,
    digest1: &str,
    src1: &str,
    dst1: &str,
    r1: String,
    codec2: &str,
    parent2: &str,
    digest2: &str,
    src2: &str,
    dst2: &str,
    r2: String,
)
    requires
        call_ensures(cross_stage_add_cache_key, (codec1, parent1, digest1, src1, dst1), r1),
        call_ensures(cross_stage_add_cache_key, (codec2, parent2, digest2, src2, dst2), r2),
        one_line(codec1@) && one_line(parent1@) && one_line(digest1@) && one_line(src1@),
        one_line(codec2@) && one_line(parent2@) && one_line(digest2@) && one_line(src2@),
        r1@ == r2@,
        !names_two(r1@),
    ensures
        codec1@ == codec2@,
        parent1@ == parent2@,
        digest1@ == digest2@,
        src1@ == src2@,
        dst1@ == dst2@,
{
    lemma_line_feed();
    let h = "ADD-FROM\ncodec:"@;
    let t1 = cross_stage_add_text(codec1@, parent1@, digest1@, src1@, dst1@);
    let t2 = cross_stage_add_text(codec2@, parent2@, digest2@, src2@, dst2@);
    lemma_same_text(t1, t2);
    let s1 = src1@ + seq!['\n'] + dst1@;
    let s2 = src2@ + seq!['\n'] + dst2@;
    assert(t1 =~= digest_add_text(h, codec1@, parent1@, digest1@, s1));
    assert(t2 =~= digest_add_text(h, codec2@, parent2@, digest2@, s2));
    lemma_digest_add_fields(h, codec1@, parent1@, digest1@, s1, codec2@, parent2@, digest2@, s2);
    lemma_cut(src1@, dst1@, src2@, dst2@, '\n');
}

proof fn lemma_same_items(a: Seq<Seq<char>>, t: Seq<char>, b: Seq<Seq<char>>, u: Seq<char>, c: char)
    requires
        forall|i: int| 0 <= i < a.len() ==> !(#[trigger] a[i]).contains(c),
        forall|i: int| 0 <= i < b.len() ==> !(#[trigger] b[i]).contains(c),
        !t.contains(c),
        !u.contains(c),
        terminated(a, seq![c]) + t == terminated(b, seq![c]) + u,
    ensures
        a == b,
        t == u,
    decreases a.len(),
{
    let end = seq![c];
    let s = terminated(a, end) + t;
    if a.len() == 0 && b.len() == 0 {
        assert(terminated(a, end) + t =~= t);
        assert(terminated(b, end) + u =~= u);
        assert(a =~= b);
    } else if a.len() == 0 {
        lemma_terminated_first(b, end);
        assert(s =~= t);
        assert((terminated(b, end) + u)[b[0].len() as int] == c);
        assert(t.contains(t[b[0].len() as int]));
    } else if b.len() == 0 {
        lemma_terminated_first(a, end);
        assert(terminated(b, end) + u =~= u);
        assert(s[a[0].len() as int] == c);
        assert(u.contains(u[a[0].len() as int]));
    } else {
        lemma_terminated_first(a, end);
        lemma_terminated_first(b, end);
        let x = terminated(a.skip(1), end) + t;
        let y = terminated(b.skip(1), end) + u;
        assert(s =~= a[0] + seq![c] + x);
        assert(terminated(b, end) + u =~= b[0] + seq![c] + y);
        lemma_cut(a[0], x, b[0], y, c);
        assert forall|i: int| 0 <= i < a.skip(1).len() implies !(#[trigger] a.skip(1)[i]).contains(
            c,
        ) by {
            assert(a.skip(1)[i] == a[i + 1]);
        }
        assert forall|i: int| 0 <= i < b.skip(1).len() implies !(#[trigger] b.skip(1)[i]).contains(
            c,
        ) by {
            assert(b.skip(1)[i] == b[i + 1]);
        }
        lemma_same_items(a.skip(1), t, b.skip(1), u, c);
        assert(a =~= seq![a[0]] + a.skip(1));
        assert(b =~= seq![b[0]] + b.skip(1));
    }
}

/// Lines before a line with a given head, which none of them has.
proof fn lemma_same_lines(
    a: Seq<Seq<char>>,
    l: Seq<char>,
    x: Seq<char>,
    b: Seq<Seq<char>>,
    m: Seq<char>,
    y: Seq<char>,
    head: Seq<char>,
)
    requires
        one_line_each(a),
        one_line_each(b),
        one_line(head + l),
        one_line(head + m),
        forall|i: int| 0 <= i < a.len() ==> !head.is_prefix_of(#[trigger] a[i]),
        forall|i: int| 0 <= i < b.len() ==> !head.is_prefix_of(#[trigger] b[i]),
        terminated(a, seq!['\n']) + (head + l + seq!['\n'] + x) == terminated(b, seq!['\n']) + (head
            + m + seq!['\n'] + y),
    ensures
        a == b,
        l == m,
        x == y,
    decreases a.len(),
{
    let end = seq!['\n'];
    let t = head + l + end + x;
    let u = head + m + end + y;
    assert(head =~= (head + l).subrange(0, head.len() as int));
    assert(head =~= (head + m).subrange(0, head.len() as int));
    if a.len() == 0 && b.len() == 0 {
        assert(terminated(a, end) + t =~= t);
        assert(terminated(b, end) + u =~= u);
        lemma_cut(head + l, x, head + m, y, '\n');
        lemma_same_tail(head, l, m);
        assert(a =~= b);
    } else if a.len() == 0 {
        lemma_terminated_first(b, end);
        assert(terminated(a, end) + t =~= t);
        let y2 = terminated(b.skip(1), end) + u;
        assert(terminated(b, end) + u =~= b[0] + end + y2);
        lemma_cut(head + l, x, b[0], y2, '\n');
    } else if b.len() == 0 {
        lemma_terminated_first(a, end);
        assert(terminated(b, end) + u =~= u);
        let x2 = terminated(a.skip(1), end) + t;
        assert(terminated(a, end) + t =~= a[0] + end + x2);
        lemma_cut(a[0], x2, head + m, y, '\n');
    } else {
        lemma_terminated_first(a, end);
        lemma_terminated_first(b, end);
        let x2 = terminated(a.skip(1), end) + t;
        let y2 = terminated(b.skip(1), end) + u;
        assert(terminated(a, end) + t =~= a[0] + end + x2);
        assert(terminated(b, end) + u =~= b[0] + end + y2);
        lemma_cut(a[0], x2, b[0], y2, '\n');
        assert forall|i: int| 0 <= i < a.skip(1).len() implies one_line(#[trigger] a.skip(1)[i])
            && !head.is_prefix_of(a.skip(1)[i]) by {
            assert(a.skip(1)[i] == a[i + 1]);
        }
        assert forall|i: int| 0 <= i < b.skip(1).len() implies one_line(#[trigger] b.skip(1)[i])
            && !head.is_prefix_of(b.skip(1)[i]) by {
            assert(b.skip(1)[i] == b[i + 1]);
        }
        lemma_same_lines(a.skip(1), l, x, b.skip(1), m, y, head);
        assert(a =~= seq![a[0]] + a.skip(1));
        assert(b =~= seq![b[0]] + b.skip(1));
    }
}

/// Can the environment of a `RUN` be told from what its key holds behind it: one
/// line for each variable, none of which starts with `cwd:`, and no NUL?
pub open spec fn is_environment(env: Seq<Seq<char>>) -> bool {
    &&& one_line_each(env)
    &&& without_nul(env)
    &&& forall|i: int| 0 <= i < env.len() ==> !"cwd:"@.is_prefix_of(#[trigger] env[i])
}

proof fn lemma_no_nul_terminated(items: Seq<Seq<char>>)
    requires
        without_nul(items),
    ensures
        !terminated(items, "\n"@).contains('\0'),
    decreases items.len(),
{
    lemma_line_feed();
    if items.len() > 0 {
        let front = items.drop_last();
        assert forall|i: int| 0 <= i < front.len() implies !(#[trigger] front[i]).contains('\0') by {
            assert(front[i] == items[i]);
        }
        lemma_no_nul_terminated(front);
        let before = terminated(front, "\n"@);
        let last = items[items.len() - 1];
        let s = terminated(items, "\n"@);
        if s.contains('\0') {
            let i = s.index_of('\0');
            assert(s[i] == '\0');
            if i < before.len() {
                assert(before.contains(before[i]));
            } else if i < before.len() + last.len() {
                assert(last.contains(last[i - before.len()]));
            }
        }
    }
}

proof fn lemma_no_nul_concat(a: Seq<char>, b: Seq<char>)
    requires
        !a.contains('\0'),
        !b.contains('\0'),
    ensures
        !(a + b).contains('\0'),
{
    let s = a + b;
    if s.contains('\0') {
        let i = s.index_of('\0');
        assert(s[i] == '\0');
        if i < a.len() {
            assert(a.contains(a[i]));
        } else {
            assert(b.contains(b[i - a.len()]));
        }
    }
}

spec fn run_tail(env: Seq<Seq<char>>, cwd: Seq<char>, user: Seq<char>, ids: Seq<Seq<char>>) -> Seq<
    char,
> {
    "\nenv:\n"@ + terminated(env, "\n"@) + "cwd:"@ + cwd + "\nuser:"@ + user + "\nsecrets:\n"@
        + terminated(ids.sort_by(text_le()), "\n"@)
}

proof fn lemma_sorted_items(ids: Seq<Seq<char>>)
    requires
        one_line_each(ids),
        without_nul(ids),
    ensures
        one_line_each(ids.sort_by(text_le())),
        without_nul(ids.sort_by(text_le())),
        ids.sort_by(text_le()).to_multiset() == ids.to_multiset(),
{
    broadcast use vstd::seq_lib::group_to_multiset_ensures;

    lemma_text_order();
    ids.lemma_sort_by_ensures(text_le());
    let s = ids.sort_by(text_le());
    assert forall|i: int| 0 <= i < s.len() implies one_line(#[trigger] s[i]) && !s[i].contains(
        '\0',
    ) by {
        assert(s.contains(s[i]));
        assert(s.to_multiset().count(s[i]) > 0);
        assert(ids.contains(s[i]));
        let j = ids.index_of(s[i]);
        assert(one_line(ids[j]));
        assert(!ids[j].contains('\0'));
    }
}

proof fn lemma_tail_no_nul(
    env: Seq<Seq<char>>,
    cwd: Seq<char>,
    user: Seq<char>,
    ids: Seq<Seq<char>>,
)
    requires
        without_nul(env),
        !cwd.contains('\0'),
        !user.contains('\0'),
        one_line_each(ids),
        without_nul(ids),
    ensures
        !run_tail(env, cwd, user, ids).contains('\0'),
{
    reveal_strlit("\nenv:\n");
    reveal_strlit("cwd:");
    reveal_strlit("\nuser:");
    reveal_strlit("\nsecrets:\n");
    lemma_sorted_items(ids);
    lemma_no_nul_terminated(env);
    lemma_no_nul_terminated(ids.sort_by(text_le()));
    let a = "\nenv:\n"@ + terminated(env, "\n"@);
    lemma_no_nul_concat("\nenv:\n"@, terminated(env, "\n"@));
    lemma_no_nul_concat(a, "cwd:"@);
    lemma_no_nul_concat(a + "cwd:"@, cwd);
    lemma_no_nul_concat(a + "cwd:"@ + cwd, "\nuser:"@);
    lemma_no_nul_concat(a + "cwd:"@ + cwd + "\nuser:"@, user);
    lemma_no_nul_concat(a + "cwd:"@ + cwd + "\nuser:"@ + user, "\nsecrets:\n"@);
    lemma_no_nul_concat(
        a + "cwd:"@ + cwd + "\nuser:"@ + user + "\nsecrets:\n"@,
        terminated(ids.sort_by(text_le()), "\n"@),
    );
}

spec fn user_part(user: Seq<char>, ids: Seq<Seq<char>>) -> Seq<char> {
    seq!['u', 's', 'e', 'r', ':'] + (user + seq!['\n'] + (seq![
        's',
        'e',
        'c',
        'r',
        'e',
        't',
        's',
        ':',
        '\n',
    ] + terminated(ids.sort_by(text_le()), seq!['\n'])))
}

proof fn lemma_run_tail_shape(
    env: Seq<Seq<char>>,
    cwd: Seq<char>,
    user: Seq<char>,
    ids: Seq<Seq<char>>,
)
    ensures
        run_tail(env, cwd, user, ids) == "\nenv:\n"@ + (terminated(env, seq!['\n']) + ("cwd:"@ + cwd
            + seq!['\n'] + user_part(user, ids))),
{
    lemma_line_feed();
    reveal_strlit("\nuser:");
    reveal_strlit("\nsecrets:\n");
    let u = seq!['u', 's', 'e', 'r', ':'];
    let s = seq!['s', 'e', 'c', 'r', 'e', 't', 's', ':', '\n'];
    let t = terminated(ids.sort_by(text_le()), "\n"@);
    let e = terminated(env, "\n"@);
    assert("\nuser:"@ =~= seq!['\n'] + u);
    assert("\nsecrets:\n"@ =~= seq!['\n'] + s);
    let h = "\nenv:\n"@ + e + "cwd:"@ + cwd;
    assert(h + (seq!['\n'] + u) + user + (seq!['\n'] + s) + t =~= h + (seq!['\n'] + (u + (user
        + seq!['\n'] + (s + t)))));
    assert(h + (seq!['\n'] + user_part(user, ids)) =~= "\nenv:\n"@ + (e + ("cwd:"@ + cwd
        + seq!['\n'] + user_part(user, ids))));
}

proof fn lemma_same_run_tail(
    env1: Seq<Seq<char>>,
    cwd1: Seq<char>,
    user1: Seq<char>,
    ids1: Seq<Seq<char>>,
    env2: Seq<Seq<char>>,
    cwd2: Seq<char>,
    user2: Seq<char>,
    ids2: Seq<Seq<char>>,
)
    requires
        is_environment(env1) && one_line(cwd1) && one_line(user1),
        is_environment(env2) && one_line(cwd2) && one_line(user2),
        one_line_each(ids1) && without_nul(ids1),
        one_line_each(ids2) && without_nul(ids2),
        run_tail(env1, cwd1, user1, ids1) == run_tail(env2, cwd2, user2, ids2),
    ensures
        env1 == env2,
        cwd1 == cwd2,
        user1 == user2,
        ids1.to_multiset() == ids2.to_multiset(),
{
    let l1 = ids1.sort_by(text_le());
    let l2 = ids2.sort_by(text_le());
    let u1 = user_part(user1, ids1);
    let u2 = user_part(user2, ids2);
    let e1 = terminated(env1, seq!['\n']) + ("cwd:"@ + cwd1 + seq!['\n'] + u1);
    let e2 = terminated(env2, seq!['\n']) + ("cwd:"@ + cwd2 + seq!['\n'] + u2);
    lemma_run_tail_shape(env1, cwd1, user1, ids1);
    lemma_run_tail_shape(env2, cwd2, user2, ids2);
    lemma_same_tail("\nenv:\n"@, e1, e2);
    assert(one_line("cwd:"@)) by {
        reveal_strlit("cwd:");
    }
    lemma_headed_line("cwd:"@, cwd1);
    lemma_headed_line("cwd:"@, cwd2);
    lemma_same_lines(env1, cwd1, u1, env2, cwd2, u2, "cwd:"@);
    let u = seq!['u', 's', 'e', 'r', ':'];
    let s = seq!['s', 'e', 'c', 'r', 'e', 't', 's', ':', '\n'];
    let s1 = s + terminated(l1, seq!['\n']);
    let s2 = s + terminated(l2, seq!['\n']);
    lemma_same_tail(u, user1 + seq!['\n'] + s1, user2 + seq!['\n'] + s2);
    lemma_cut(user1, s1, user2, s2, '\n');
    lemma_same_tail(s, terminated(l1, seq!['\n']), terminated(l2, seq!['\n']));
    lemma_sorted_items(ids1);
    lemma_sorted_items(ids2);
    lemma_terminated_injective(l1, l2, '\n');
}

proof fn lemma_run_text_shape(
    arch: Seq<char>,
    codec: Seq<char>,
    parent: Seq<char>,
    argv: Seq<Seq<char>>,
    env: Seq<Seq<char>>,
    cwd: Seq<char>,
    user: Seq<char>,
    ids: Seq<Seq<char>>,
)
    ensures
        run_text(arch, codec, parent, argv, env, cwd, user, ids) == "RUN\n"@ + "arch:"@ + arch
            + "\ncodec:"@ + codec + "\n"@ + parent + "\n"@ + (terminated(argv, seq!['\0'])
            + run_tail(env, cwd, user, ids)),
{
    lemma_line_feed();
    let h = "RUN\n"@ + "arch:"@ + arch + "\ncodec:"@ + codec + "\n"@ + parent + "\n"@;
    let a = terminated(argv, "\0"@);
    let t = run_tail(env, cwd, user, ids);
    assert(run_text(arch, codec, parent, argv, env, cwd, user, ids) =~= h + a + t);
    assert(h + a + t =~= h + (a + t));
}

/// The text behind the key of a `RUN` is the same only where the target, the
/// stack below, the command, the environment, the working directory, the user and
/// the secrets that it names are.
pub proof fn lemma_run_text_fields(
    arch1: Seq<char>,
    codec1: Seq<char>,
    parent1: Seq<char>,
    argv1: Seq<Seq<char>>,
    env1: Seq<Seq<char>>,
    cwd1: Seq<char>,
    user1: Seq<char>,
    ids1: Seq<Seq<char>>,
    arch2: Seq<char>,
    codec2: Seq<char>,
    parent2: Seq<char>,
    argv2: Seq<Seq<char>>,
    env2: Seq<Seq<char>>,
    cwd2: Seq<char>,
    user2: Seq<char>,
    ids2: Seq<Seq<char>>,
)
    requires
        one_line(arch1) && one_line(codec1) && one_line(parent1),
        one_line(arch2) && one_line(codec2) && one_line(parent2),
        without_nul(argv1) && without_nul(argv2),
        is_environment(env1) && one_line(cwd1) && one_line(user1),
        is_environment(env2) && one_line(cwd2) && one_line(user2),
        !cwd1.contains('\0') && !user1.contains('\0'),
        !cwd2.contains('\0') && !user2.contains('\0'),
        one_line_each(ids1) && without_nul(ids1),
        one_line_each(ids2) && without_nul(ids2),
        run_text(arch1, codec1, parent1, argv1, env1, cwd1, user1, ids1) == run_text(
            arch2,
            codec2,
            parent2,
            argv2,
            env2,
            cwd2,
            user2,
            ids2,
        ),
    ensures
        arch1 == arch2,
        codec1 == codec2,
        parent1 == parent2,
        argv1 == argv2,
        env1 == env2,
        cwd1 == cwd2,
        user1 == user2,
        ids1.to_multiset() == ids2.to_multiset(),
{
    let t1 = run_tail(env1, cwd1, user1, ids1);
    let t2 = run_tail(env2, cwd2, user2, ids2);
    let r1 = terminated(argv1, seq!['\0']) + t1;
    let r2 = terminated(argv2, seq!['\0']) + t2;
    lemma_run_text_shape(arch1, codec1, parent1, argv1, env1, cwd1, user1, ids1);
    lemma_run_text_shape(arch2, codec2, parent2, argv2, env2, cwd2, user2, ids2);
    lemma_same_target("RUN\n"@, arch1, codec1, parent1, r1, arch2, codec2, parent2, r2);
    lemma_tail_no_nul(env1, cwd1, user1, ids1);
    lemma_tail_no_nul(env2, cwd2, user2, ids2);
    lemma_same_items(argv1, t1, argv2, t2, '\0');
    lemma_same_run_tail(env1, cwd1, user1, ids1, env2, cwd2, user2, ids2);
}

/// Two `RUN`s share a key only where the target, the stack below, the command, the
/// environment, the working directory, the user and the secrets that they name are
/// the same.
pub proof fn lemma_run_key_fields(
    arch1: &str,
    codec1: &str,
    parent1: &str,
    argv1: &Vec<String>,
    env1: &Vec<String>,
    cwd1: Option<&str>,
    user1: Option<&str>,
    ids1: &Vec<String>,
    r1: String,
    arch2: &str,
    codec2: &str,
    parent2: &str,
    argv2: &Vec<String>,
    env2: &Vec<String>,
    cwd2: Option<&str>,
    user2: Option<&str>,
    ids2: &Vec<String>,
    r2: String,
)
    requires
        call_ensures(
            run_cache_key,
            (arch1, codec1, parent1, argv1, env1, cwd1, user1, ids1),
            r1,
        ),
        call_ensures(
            run_cache_key,
            (arch2, codec2, parent2, argv2, env2, cwd2, user2, ids2),
            r2,
        ),
        one_line(arch1@) && one_line(codec1@) && one_line(parent1@),
        one_line(arch2@) && one_line(codec2@) && one_line(parent2@),
        without_nul(texts(argv1@)) && without_nul(texts(argv2@)),
        is_environment(texts(env1@)) && is_environment(texts(env2@)),
        cwd1 matches Some(c) ==> one_line(c@) && !c@.contains('\0'),
        cwd2 matches Some(c) ==> one_line(c@) && !c@.contains('\0'),
        user1 matches Some(c) ==> one_line(c@) && !c@.contains('\0'),
        user2 matches Some(c) ==> one_line(c@) && !c@.contains('\0'),
        one_line_each(texts(ids1@)) && without_nul(texts(ids1@)),
        one_line_each(texts(ids2@)) && without_nul(texts(ids2@)),
        r1@ == r2@,
        !names_two(r1@),
    ensures
        arch1@ == arch2@,
        codec1@ == codec2@,
        parent1@ == parent2@,
        texts(argv1@) == texts(argv2@),
        texts(env1@) == texts(env2@),
        cwd1 is Some && cwd2 is Some ==> cwd1->0@ == cwd2->0@,
        cwd1 is None && cwd2 is Some ==> cwd2->0@.len() == 0,
        user1 is Some && user2 is Some ==> user1->0@ == user2->0@,
        user1 is None && user2 is Some ==> user2->0@.len() == 0,
        texts(ids1@).to_multiset() == texts(ids2@).to_multiset(),
{
    reveal_strlit("");
    let c1 = or_empty(cwd1);
    let c2 = or_empty(cwd2);
    let u1 = or_empty(user1);
    let u2 = or_empty(user2);
    lemma_same_text(
        run_text(arch1@, codec1@, parent1@, texts(argv1@), texts(env1@), c1, u1, texts(ids1@)),
        run_text(arch2@, codec2@, parent2@, texts(argv2@), texts(env2@), c2, u2, texts(ids2@)),
    );
    lemma_run_text_fields(
        arch1@,
        codec1@,
        parent1@,
        texts(argv1@),
        texts(env1@),
        c1,
        u1,
        texts(ids1@),
        arch2@,
        codec2@,
        parent2@,
        texts(argv2@),
        texts(env2@),
        c2,
        u2,
        texts(ids2@),
    );
}

/// Two states share a key only where they have the same layers, by what the
/// layers hold: as many from the base and as many new ones, in the same order.
pub proof fn lemma_parent_key_fields(s1: &BuildState, r1: String, s2: &BuildState, r2: String)
    requires
        call_ensures(parent_state_hash, (s1,), r1),
        call_ensures(parent_state_hash, (s2,), r2),
        forall|i: int|
            0 <= i < s1.base_layers@.len() ==> one_line((#[trigger] s1.base_layers@[i]).diff_id@)
                && s1.base_layers@[i].diff_id@ != "--"@,
        forall|i: int|
            0 <= i < s2.base_layers@.len() ==> one_line((#[trigger] s2.base_layers@[i]).diff_id@)
                && s2.base_layers@[i].diff_id@ != "--"@,
        forall|i: int|
            0 <= i < s1.new_layers@.len() ==> one_line((#[trigger] s1.new_layers@[i]).diff_id@),
        forall|i: int|
            0 <= i < s2.new_layers@.len() ==> one_line((#[trigger] s2.new_layers@[i]).diff_id@),
        r1@ == r2@,
        !names_two(r1@),
    ensures
        s1.base_layers@.len() == s2.base_layers@.len(),
        s1.new_layers@.len() == s2.new_layers@.len(),
        forall|i: int|
            0 <= i < s1.base_layers@.len() ==> (#[trigger] s1.base_layers@[i]).diff_id@
                == s2.base_layers@[i].diff_id@,
        forall|i: int|
            0 <= i < s1.new_layers@.len() ==> (#[trigger] s1.new_layers@[i]).diff_id@
                == s2.new_layers@[i].diff_id@,
{
    let b1 = diff_ids(s1@.base_layers);
    let n1 = diff_ids(s1@.new_layers);
    let b2 = diff_ids(s2@.base_layers);
    let n2 = diff_ids(s2@.new_layers);
    assert forall|i: int| 0 <= i < b1.len() implies !(#[trigger] b1[i]).contains('\n') && b1[i]
        != "--"@ by {
        assert(one_line(s1.base_layers@[i].diff_id@));
    }
    assert forall|i: int| 0 <= i < b2.len() implies !(#[trigger] b2[i]).contains('\n') && b2[i]
        != "--"@ by {
        assert(one_line(s2.base_layers@[i].diff_id@));
    }
    assert forall|i: int| 0 <= i < n1.len() implies !(#[trigger] n1[i]).contains('\n') by {
        assert(one_line(s1.new_layers@[i].diff_id@));
    }
    assert forall|i: int| 0 <= i < n2.len() implies !(#[trigger] n2[i]).contains('\n') by {
        assert(one_line(s2.new_layers@[i].diff_id@));
    }
    lemma_same_text(stack_text(b1, n1), stack_text(b2, n2));
    lemma_stack_text(b1, n1, b2, n2);
    assert forall|i: int| 0 <= i < s1.base_layers@.len() implies (#[trigger] s1.base_layers@[i]).diff_id@
        == s2.base_layers@[i].diff_id@ by {
        assert(b1[i] == b2[i]);
    }
    assert forall|i: int| 0 <= i < s1.new_layers@.len() implies (#[trigger] s1.new_layers@[i]).diff_id@
        == s2.new_layers@[i].diff_id@ by {
        assert(n1[i] == n2[i]);
    }
}

/// The text behind a key says first what kind of step it is of, so that steps of
/// different kinds never share one.
pub proof fn lemma_kinds_apart(
    arch: Seq<char>,
    codec: Seq<char>,
    parent: Seq<char>,
    argv: Seq<Seq<char>>,
    env: Seq<Seq<char>>,
    cwd: Seq<char>,
    user: Seq<char>,
    ids: Seq<Seq<char>>,
    digest: Seq<char>,
    src: Seq<char>,
    dst: Seq<char>,
)
    ensures
        "RUN\n"@.is_prefix_of(run_text(arch, codec, parent, argv, env, cwd, user, ids)),
        "ADD\n"@.is_prefix_of(add_text(arch, codec, parent, digest, dst)),
        "ADD-FROM\n"@.is_prefix_of(cross_stage_add_text(codec, parent, digest, src, dst)),
        "ADD-URL\n"@.is_prefix_of(
            digest_add_text("ADD-URL\ncodec:"@, codec, parent, digest, dst),
        ),
        "ADD-OCI\n"@.is_prefix_of(
            digest_add_text("ADD-OCI\ncodec:"@, codec, parent, digest, dst),
        ),
{
    reveal_strlit("ADD-URL\ncodec:");
    reveal_strlit("ADD-OCI\ncodec:");
    reveal_strlit("ADD-FROM\ncodec:");
    reveal_strlit("ADD-URL\n");
    reveal_strlit("ADD-OCI\n");
    reveal_strlit("ADD-FROM\n");
    reveal_strlit("RUN\n");
    reveal_strlit("ADD\n");
    assert("RUN\n"@ =~= run_text(arch, codec, parent, argv, env, cwd, user, ids).subrange(0, 4));
    assert("ADD\n"@ =~= add_text(arch, codec, parent, digest, dst).subrange(0, 4));
    assert("ADD-FROM\n"@ =~= cross_stage_add_text(codec, parent, digest, src, dst).subrange(0, 9));
    assert("ADD-URL\n"@ =~= digest_add_text(
        "ADD-URL\ncodec:"@,
        codec,
        parent,
        digest,
        dst,
    ).subrange(0, 8));
    assert("ADD-OCI\n"@ =~= digest_add_text(
        "ADD-OCI\ncodec:"@,
        codec,
        parent,
        digest,
        dst,
    ).subrange(0, 8));
}

} // verus!
