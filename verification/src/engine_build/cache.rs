//! The keys under which the layers of steps are kept for later builds.
//!
//! A key is the digest of a text that holds everything the layer depends on:
//! the layers below it, the target, and what the directive says.
use vstd::prelude::*;
use vstd::utf8::*;
use crate::architecture::Architecture;
use crate::digest::{hex_digest, is_hex_digest, lemma_encode_concat, Hasher, TextHasher};
use crate::image::{layer_views, LayerCompression, LayerSource, LayerView};
use crate::number::{in_base, lemma_in_base_digits, lemma_in_base_injective, write_in_base};
use crate::order::{
    ints, lemma_map_multiset, lemma_path_order, lemma_positions, lemma_text_order, path_le,
    path_positions, positions_by, sort_texts, text_le,
};
use crate::path::{join_path, joined_path};
use crate::text::{
    concat2, concat3, lemma_terminated_concat, lemma_terminated_injective, lemma_texts_push,
    terminated, texts,
};
use super::state::{BuildState, StateView};

verus! {

/// The digest of a text, in hexadecimal.
pub open spec fn text_digest(text: Seq<char>) -> Seq<char> {
    hex_digest(encode_utf8(text))
}

/// The digests of the layers before compression.
pub open spec fn diff_ids(layers: Seq<LayerView>) -> Seq<Seq<char>> {
    Seq::new(layers.len(), |i: int| layers[i].diff_id)
}

/// The text that stands for a stack of layers.
pub open spec fn stack_text(base: Seq<Seq<char>>, new: Seq<Seq<char>>) -> Seq<char> {
    terminated(base, "\n"@) + "--\n"@ + terminated(new, "\n"@)
}

/// The key of everything built so far.
pub open spec fn parent_key(state: StateView) -> Seq<char> {
    text_digest(stack_text(diff_ids(state.base_layers), diff_ids(state.new_layers)))
}

/// The text behind the key of a `RUN`.
pub open spec fn run_text(
    arch: Seq<char>,
    codec: Seq<char>,
    parent: Seq<char>,
    argv: Seq<Seq<char>>,
    env: Seq<Seq<char>>,
    cwd: Seq<char>,
    user: Seq<char>,
    secret_ids: Seq<Seq<char>>,
) -> Seq<char> {
    "RUN\n"@ + "arch:"@ + arch + "\ncodec:"@ + codec + "\n"@ + parent + "\n"@ + terminated(
        argv,
        "\0"@,
    ) + "\nenv:\n"@ + terminated(env, "\n"@) + "cwd:"@ + cwd + "\nuser:"@ + user
        + "\nsecrets:\n"@ + terminated(secret_ids.sort_by(text_le()), "\n"@)
}

/// The text behind the key of an `ADD` from the build context.
pub open spec fn add_text(
    arch: Seq<char>,
    codec: Seq<char>,
    parent: Seq<char>,
    src_digest: Seq<char>,
    dst: Seq<char>,
) -> Seq<char> {
    "ADD\n"@ + "arch:"@ + arch + "\ncodec:"@ + codec + "\n"@ + parent + "\n"@ + src_digest
        + "\n"@ + dst
}

/// The text behind the key of an `ADD` of something with a digest, headed by
/// what kind of thing that is.
pub open spec fn digest_add_text(
    head: Seq<char>,
    codec: Seq<char>,
    parent: Seq<char>,
    digest: Seq<char>,
    dst: Seq<char>,
) -> Seq<char> {
    head + codec + "\n"@ + parent + "\n"@ + digest + "\n"@ + dst
}

/// The text behind the key of an `ADD --from`.
pub open spec fn cross_stage_add_text(
    codec: Seq<char>,
    parent: Seq<char>,
    digest: Seq<char>,
    src_path: Seq<char>,
    dst: Seq<char>,
) -> Seq<char> {
    "ADD-FROM\ncodec:"@ + codec + "\n"@ + parent + "\n"@ + digest + "\n"@ + src_path + "\n"@
        + dst
}

/// An absent text counts as the empty one.
pub open spec fn or_empty(s: Option<&str>) -> Seq<char> {
    match s {
        Some(x) => x@,
        None => ""@,
    }
}

fn text_or_empty(s: Option<&str>) -> (r: &str)
    ensures
        r@ == or_empty(s),
{
    match s {
        Some(x) => x,
        None => "",
    }
}

fn feed_terminated(hasher: TextHasher, items: &Vec<String>, end: &str) -> (r: TextHasher)
    ensures
        r@ == hasher@ + terminated(texts(items@), end@),
{
    let ghost all = texts(items@);
    let ghost before = hasher@;
    let mut h = hasher;
    let mut i: usize = 0;
    proof {
        assert(before + terminated(all.take(0), end@) =~= before);
    }
    while i < items.len()
        invariant
            i <= items@.len(),
            all == texts(items@),
            h@ == before + terminated(all.take(i as int), end@),
        decreases items.len() - i,
    {
        proof {
            assert(all.take(i as int + 1).drop_last() =~= all.take(i as int));
        }
        h = h.feed(items[i].as_str()).feed(end);
        proof {
            assert(h@ =~= before + terminated(all.take(i as int + 1), end@));
        }
        i += 1;
    }
    assert(all.take(i as int) =~= all);
    h
}

fn feed_layers(hasher: TextHasher, layers: &Vec<LayerSource>) -> (r: TextHasher)
    ensures
        r@ == hasher@ + terminated(diff_ids(layer_views(layers@)), "\n"@),
{
    let mut ids: Vec<String> = Vec::new();
    let ghost all = diff_ids(layer_views(layers@));
    let mut i: usize = 0;
    while i < layers.len()
        invariant
            i <= layers@.len(),
            all == diff_ids(layer_views(layers@)),
            texts(ids@) == all.take(i as int),
        decreases layers.len() - i,
    {
        let id = layers[i].diff_id.clone();
        proof {
            lemma_texts_push(ids@, id);
            assert(all.take(i as int + 1) =~= all.take(i as int).push(id@));
        }
        ids.push(id);
        i += 1;
    }
    assert(all.take(i as int) =~= all);
    feed_terminated(hasher, &ids, "\n")
}

/// The digest of the layer stack so far. It heads the key of every step, so a
/// layer is reused only on the very stack it was made on.
pub fn parent_state_hash(state: &BuildState) -> (r: String)
    ensures
        r@ == parent_key(state@),
        is_hex_digest(r@),
{
    let h = feed_layers(TextHasher::new(), &state.base_layers).feed("--\n");
    let h = feed_layers(h, &state.new_layers);
    proof {
        assert(h@ =~= stack_text(diff_ids(state@.base_layers), diff_ids(state@.new_layers)));
    }
    h.finish()
}

/// The key of a `RUN`. The ids of the secrets it mounts go in, whatever their
/// order; what the secrets hold does not.
pub fn run_cache_key(
    arch: &str,
    codec: &str,
    parent: &str,
    argv: &Vec<String>,
    env: &Vec<String>,
    cwd: Option<&str>,
    user: Option<&str>,
    secret_ids: &Vec<String>,
) -> (r: String)
    ensures
        r@ == text_digest(
            run_text(
                arch@,
                codec@,
                parent@,
                texts(argv@),
                texts(env@),
                or_empty(cwd),
                or_empty(user),
                texts(secret_ids@),
            ),
        ),
        is_hex_digest(r@),
{
    let h = TextHasher::new().feed("RUN\n");
    let h = h.feed("arch:").feed(arch).feed("\ncodec:").feed(codec).feed("\n").feed(parent).feed(
        "\n",
    );
    let h = feed_terminated(h, argv, "\0").feed("\nenv:\n");
    let h = feed_terminated(h, env, "\n").feed("cwd:");
    let h = h.feed(text_or_empty(cwd)).feed("\nuser:").feed(text_or_empty(user)).feed(
        "\nsecrets:\n",
    );
    let ids = sort_texts(secret_ids.clone());
    let h = feed_terminated(h, &ids, "\n");
    h.finish()
}

/// The key of an `ADD` from the build context.
pub fn add_cache_key(arch: &str, codec: &str, parent: &str, src_digest: &str, dst: &str) -> (r:
    String)
    ensures
        r@ == text_digest(add_text(arch@, codec@, parent@, src_digest@, dst@)),
        is_hex_digest(r@),
{
    let h = TextHasher::new().feed("ADD\n");
    let h = h.feed("arch:").feed(arch).feed("\ncodec:").feed(codec).feed("\n").feed(parent).feed(
        "\n",
    );
    h.feed(src_digest).feed("\n").feed(dst).finish()
}

fn digest_add_key(head: &str, codec: &str, parent: &str, digest: &str, dst: &str) -> (r: String)
    ensures
        r@ == text_digest(digest_add_text(head@, codec@, parent@, digest@, dst@)),
        is_hex_digest(r@),
{
    let h = TextHasher::new().feed(head).feed(codec).feed("\n").feed(parent).feed("\n");
    h.feed(digest).feed("\n").feed(dst).finish()
}

/// The key of an `ADD` of a URL, by the digest of what was fetched.
pub fn url_add_cache_key(codec: &str, parent: &str, payload_digest: &str, dst: &str) -> (r: String)
    ensures
        r@ == text_digest(
            digest_add_text("ADD-URL\ncodec:"@, codec@, parent@, payload_digest@, dst@),
        ),
        is_hex_digest(r@),
{
    digest_add_key("ADD-URL\ncodec:", codec, parent, payload_digest, dst)
}

/// The key of an `ADD` of an image, by the digest of its manifest.
pub fn oci_image_add_cache_key(codec: &str, parent: &str, manifest_digest: &str, dst: &str) -> (r:
    String)
    ensures
        r@ == text_digest(
            digest_add_text("ADD-OCI\ncodec:"@, codec@, parent@, manifest_digest@, dst@),
        ),
        is_hex_digest(r@),
{
    digest_add_key("ADD-OCI\ncodec:", codec, parent, manifest_digest, dst)
}

/// The key of an `ADD --from`, by the manifest digest of the stage that made
/// the files.
pub fn cross_stage_add_cache_key(
    codec: &str,
    parent: &str,
    producer_manifest_digest: &str,
    src_path: &str,
    dst: &str,
) -> (r: String)
    ensures
        r@ == text_digest(
            cross_stage_add_text(codec@, parent@, producer_manifest_digest@, src_path@, dst@),
        ),
        is_hex_digest(r@),
{
    let h = TextHasher::new().feed("ADD-FROM\ncodec:").feed(codec).feed("\n").feed(parent).feed(
        "\n",
    );
    h.feed(producer_manifest_digest).feed("\n").feed(src_path).feed("\n").feed(dst).finish()
}

/// Keys of `RUN`s for different architectures, or with different codecs, come
/// from different texts, whatever else goes in.
pub proof fn lemma_run_target(
    arch1: Architecture,
    codec1: LayerCompression,
    parent1: Seq<char>,
    argv1: Seq<Seq<char>>,
    env1: Seq<Seq<char>>,
    cwd1: Seq<char>,
    user1: Seq<char>,
    ids1: Seq<Seq<char>>,
    arch2: Architecture,
    codec2: LayerCompression,
    parent2: Seq<char>,
    argv2: Seq<Seq<char>>,
    env2: Seq<Seq<char>>,
    cwd2: Seq<char>,
    user2: Seq<char>,
    ids2: Seq<Seq<char>>,
)
    requires
        arch1 != arch2 || codec1 != codec2,
    ensures
        run_text(
            arch1.oci_name(),
            codec1.media_type_text(),
            parent1,
            argv1,
            env1,
            cwd1,
            user1,
            ids1,
        ) != run_text(
            arch2.oci_name(),
            codec2.media_type_text(),
            parent2,
            argv2,
            env2,
            cwd2,
            user2,
            ids2,
        ),
{
    let t1 = run_text(
        arch1.oci_name(),
        codec1.media_type_text(),
        parent1,
        argv1,
        env1,
        cwd1,
        user1,
        ids1,
    );
    let t2 = run_text(
        arch2.oci_name(),
        codec2.media_type_text(),
        parent2,
        argv2,
        env2,
        cwd2,
        user2,
        ids2,
    );
    lemma_target_head("RUN\n"@, arch1, codec1, arch2, codec2);
    let n = target_head("RUN\n"@, arch1, codec1).len() as int;
    lemma_names();
    assert(t1.take(n) =~= target_head("RUN\n"@, arch1, codec1));
    assert(t2.take(n) =~= target_head("RUN\n"@, arch2, codec2));
}

/// Keys of `ADD`s from the build context for different architectures, or with
/// different codecs, come from different texts, whatever else goes in.
pub proof fn lemma_add_target(
    arch1: Architecture,
    codec1: LayerCompression,
    parent1: Seq<char>,
    digest1: Seq<char>,
    dst1: Seq<char>,
    arch2: Architecture,
    codec2: LayerCompression,
    parent2: Seq<char>,
    digest2: Seq<char>,
    dst2: Seq<char>,
)
    requires
        arch1 != arch2 || codec1 != codec2,
    ensures
        add_text(arch1.oci_name(), codec1.media_type_text(), parent1, digest1, dst1) != add_text(
            arch2.oci_name(),
            codec2.media_type_text(),
            parent2,
            digest2,
            dst2,
        ),
{
    let t1 = add_text(arch1.oci_name(), codec1.media_type_text(), parent1, digest1, dst1);
    let t2 = add_text(arch2.oci_name(), codec2.media_type_text(), parent2, digest2, dst2);
    lemma_target_head("ADD\n"@, arch1, codec1, arch2, codec2);
    let n = target_head("ADD\n"@, arch1, codec1).len() as int;
    lemma_names();
    assert(t1.take(n) =~= target_head("ADD\n"@, arch1, codec1));
    assert(t2.take(n) =~= target_head("ADD\n"@, arch2, codec2));
}

/// Keys of the other `ADD`s with different codecs come from different texts,
/// whatever else goes in.
pub proof fn lemma_digest_add_codec(
    head: Seq<char>,
    codec1: LayerCompression,
    parent1: Seq<char>,
    digest1: Seq<char>,
    dst1: Seq<char>,
    codec2: LayerCompression,
    parent2: Seq<char>,
    digest2: Seq<char>,
    dst2: Seq<char>,
)
    requires
        codec1 != codec2,
    ensures
        digest_add_text(head, codec1.media_type_text(), parent1, digest1, dst1) != digest_add_text(
            head,
            codec2.media_type_text(),
            parent2,
            digest2,
            dst2,
        ),
{
    let t1 = digest_add_text(head, codec1.media_type_text(), parent1, digest1, dst1);
    let t2 = digest_add_text(head, codec2.media_type_text(), parent2, digest2, dst2);
    lemma_names();
    let n = head.len() + codec1.media_type_text().len();
    assert(t1[n - 1] == codec1.media_type_text().last());
    assert(t2[n - 1] == codec2.media_type_text().last());
}

/// Keys of `ADD --from`s with different codecs come from different texts,
/// whatever else goes in.
pub proof fn lemma_cross_stage_codec(
    codec1: LayerCompression,
    parent1: Seq<char>,
    digest1: Seq<char>,
    src1: Seq<char>,
    dst1: Seq<char>,
    codec2: LayerCompression,
    parent2: Seq<char>,
    digest2: Seq<char>,
    src2: Seq<char>,
    dst2: Seq<char>,
)
    requires
        codec1 != codec2,
    ensures
        cross_stage_add_text(codec1.media_type_text(), parent1, digest1, src1, dst1)
            != cross_stage_add_text(codec2.media_type_text(), parent2, digest2, src2, dst2),
{
    let t1 = cross_stage_add_text(codec1.media_type_text(), parent1, digest1, src1, dst1);
    let t2 = cross_stage_add_text(codec2.media_type_text(), parent2, digest2, src2, dst2);
    lemma_names();
    let n = "ADD-FROM\ncodec:"@.len() + codec1.media_type_text().len();
    assert(t1[n - 1] == codec1.media_type_text().last());
    assert(t2[n - 1] == codec2.media_type_text().last());
}

/// What a key's text starts with.
spec fn target_head(head: Seq<char>, arch: Architecture, codec: LayerCompression) -> Seq<char> {
    head + "arch:"@ + arch.oci_name() + "\ncodec:"@ + codec.media_type_text()
}

proof fn lemma_names()
    ensures
        forall|a: Architecture| (#[trigger] a.oci_name()).len() == 5,
        forall|c: LayerCompression| (#[trigger] c.media_type_text()).len() == 43,
        forall|a: Architecture, b: Architecture|
            a != b ==> (#[trigger] a.oci_name())[1] != (#[trigger] b.oci_name())[1],
        forall|c: LayerCompression, d: LayerCompression|
            c != d ==> (#[trigger] c.media_type_text())[42] != (#[trigger] d.media_type_text())[42],
{
    reveal_strlit("amd64");
    reveal_strlit("arm64");
    reveal_strlit("application/vnd.oci.image.layer.v1.tar+gzip");
    reveal_strlit("application/vnd.oci.image.layer.v1.tar+zstd");
}

proof fn lemma_target_head(
    head: Seq<char>,
    arch1: Architecture,
    codec1: LayerCompression,
    arch2: Architecture,
    codec2: LayerCompression,
)
    requires
        arch1 != arch2 || codec1 != codec2,
    ensures
        target_head(head, arch1, codec1).len() == target_head(head, arch2, codec2).len(),
        target_head(head, arch1, codec1) != target_head(head, arch2, codec2),
{
    lemma_names();
    let a = target_head(head, arch1, codec1);
    let b = target_head(head, arch2, codec2);
    if arch1 != arch2 {
        let i = (head.len() + "arch:"@.len()) as int + 1;
        assert(a[i] == arch1.oci_name()[1]);
        assert(b[i] == arch2.oci_name()[1]);
    } else {
        assert(a.last() == codec1.media_type_text()[42]);
        assert(b.last() == codec2.media_type_text()[42]);
    }
}

/// The order in which a `RUN` names its secrets does not matter to its key.
pub proof fn lemma_run_secret_order(
    arch: Seq<char>,
    codec: Seq<char>,
    parent: Seq<char>,
    argv: Seq<Seq<char>>,
    env: Seq<Seq<char>>,
    cwd: Seq<char>,
    user: Seq<char>,
    ids1: Seq<Seq<char>>,
    ids2: Seq<Seq<char>>,
)
    requires
        ids1.to_multiset() == ids2.to_multiset(),
    ensures
        run_text(arch, codec, parent, argv, env, cwd, user, ids1) == run_text(
            arch,
            codec,
            parent,
            argv,
            env,
            cwd,
            user,
            ids2,
        ),
{
    lemma_text_order();
    ids1.lemma_sort_by_ensures(text_le());
    ids2.lemma_sort_by_ensures(text_le());
    vstd::seq_lib::lemma_sorted_unique(
        ids1.sort_by(text_le()),
        ids2.sort_by(text_le()),
        text_le(),
    );
}

/// With all else equal, the key of a `RUN` comes from the same text only where
/// the same secrets are named, as often. (An id is one line.)
pub proof fn lemma_run_secrets(
    arch: Seq<char>,
    codec: Seq<char>,
    parent: Seq<char>,
    argv: Seq<Seq<char>>,
    env: Seq<Seq<char>>,
    cwd: Seq<char>,
    user: Seq<char>,
    ids1: Seq<Seq<char>>,
    ids2: Seq<Seq<char>>,
)
    requires
        forall|i: int| 0 <= i < ids1.len() ==> !(#[trigger] ids1[i]).contains('\n'),
        forall|i: int| 0 <= i < ids2.len() ==> !(#[trigger] ids2[i]).contains('\n'),
        run_text(arch, codec, parent, argv, env, cwd, user, ids1) == run_text(
            arch,
            codec,
            parent,
            argv,
            env,
            cwd,
            user,
            ids2,
        ),
    ensures
        ids1.to_multiset() == ids2.to_multiset(),
{
    lemma_text_order();
    let s1 = ids1.sort_by(text_le());
    let s2 = ids2.sort_by(text_le());
    ids1.lemma_sort_by_ensures(text_le());
    ids2.lemma_sort_by_ensures(text_le());
    reveal_strlit("\n");
    assert("\n"@ =~= seq!['\n']);
    let t1 = run_text(arch, codec, parent, argv, env, cwd, user, ids1);
    let t2 = run_text(arch, codec, parent, argv, env, cwd, user, ids2);
    let a = terminated(s1, "\n"@);
    let b = terminated(s2, "\n"@);
    let n = t1.len() - a.len();
    assert(n == t2.len() - b.len());
    assert(t1.skip(n) =~= a);
    assert(t2.skip(n) =~= b);
    assert forall|i: int| 0 <= i < s1.len() implies !(#[trigger] s1[i]).contains('\n') by {
        lemma_from_multiset(s1, ids1, i);
    }
    assert forall|i: int| 0 <= i < s2.len() implies !(#[trigger] s2[i]).contains('\n') by {
        lemma_from_multiset(s2, ids2, i);
    }
    lemma_terminated_injective(s1, s2, '\n');
}

proof fn lemma_from_multiset(s: Seq<Seq<char>>, t: Seq<Seq<char>>, i: int)
    requires
        s.to_multiset() == t.to_multiset(),
        0 <= i < s.len(),
    ensures
        exists|j: int| 0 <= j < t.len() && #[trigger] t[j] == s[i],
{
    broadcast use vstd::seq_lib::group_to_multiset_ensures;

    assert(s.contains(s[i]));
    assert(s.to_multiset().count(s[i]) > 0);
    assert(t.contains(s[i]));
}

/// With all else equal, the key of a `RUN` comes from the same text only where
/// the command is the same. (An argument holds no NUL.)
pub proof fn lemma_run_argv(
    arch: Seq<char>,
    codec: Seq<char>,
    parent: Seq<char>,
    argv1: Seq<Seq<char>>,
    argv2: Seq<Seq<char>>,
    env: Seq<Seq<char>>,
    cwd: Seq<char>,
    user: Seq<char>,
    ids: Seq<Seq<char>>,
)
    requires
        forall|i: int| 0 <= i < argv1.len() ==> !(#[trigger] argv1[i]).contains('\0'),
        forall|i: int| 0 <= i < argv2.len() ==> !(#[trigger] argv2[i]).contains('\0'),
        run_text(arch, codec, parent, argv1, env, cwd, user, ids) == run_text(
            arch,
            codec,
            parent,
            argv2,
            env,
            cwd,
            user,
            ids,
        ),
    ensures
        argv1 == argv2,
{
    reveal_strlit("\0");
    assert("\0"@ =~= seq!['\0']);
    let head = "RUN\n"@ + "arch:"@ + arch + "\ncodec:"@ + codec + "\n"@ + parent + "\n"@;
    let t1 = run_text(arch, codec, parent, argv1, env, cwd, user, ids);
    let t2 = run_text(arch, codec, parent, argv2, env, cwd, user, ids);
    let a = terminated(argv1, "\0"@);
    let b = terminated(argv2, "\0"@);
    let n = head.len() as int;
    let tail = "\nenv:\n"@ + terminated(env, "\n"@) + "cwd:"@ + cwd + "\nuser:"@ + user
        + "\nsecrets:\n"@ + terminated(ids.sort_by(text_le()), "\n"@);
    assert(t1 =~= head + a + tail);
    assert(t2 =~= head + b + tail);
    assert(t1.len() == n + a.len() + tail.len());
    assert(t2.len() == n + b.len() + tail.len());
    assert(t1.subrange(n, n + a.len()) =~= a);
    assert(t2.subrange(n, n + a.len()) =~= b);
    lemma_terminated_injective(argv1, argv2, '\0');
}

/// Two stacks of layers make the same text only where they are the same, layer
/// by layer. (A digest is one line, and not `--`.)
pub proof fn lemma_stack_text(
    base1: Seq<Seq<char>>,
    new1: Seq<Seq<char>>,
    base2: Seq<Seq<char>>,
    new2: Seq<Seq<char>>,
)
    requires
        forall|i: int|
            0 <= i < base1.len() ==> !(#[trigger] base1[i]).contains('\n') && base1[i] != "--"@,
        forall|i: int| 0 <= i < new1.len() ==> !(#[trigger] new1[i]).contains('\n'),
        forall|i: int|
            0 <= i < base2.len() ==> !(#[trigger] base2[i]).contains('\n') && base2[i] != "--"@,
        forall|i: int| 0 <= i < new2.len() ==> !(#[trigger] new2[i]).contains('\n'),
        stack_text(base1, new1) == stack_text(base2, new2),
    ensures
        base1 == base2,
        new1 == new2,
{
    reveal_strlit("\n");
    reveal_strlit("--");
    reveal_strlit("--\n");
    assert("\n"@ =~= seq!['\n']);
    let l1 = base1.push("--"@) + new1;
    let l2 = base2.push("--"@) + new2;
    lemma_stack_list(base1, new1);
    lemma_stack_list(base2, new2);
    assert(!"--"@.contains('\n'));
    lemma_terminated_injective(l1, l2, '\n');
    if base1.len() < base2.len() {
        assert(l1[base1.len() as int] == "--"@);
        assert(l2[base1.len() as int] == base2[base1.len() as int]);
    } else if base2.len() < base1.len() {
        assert(l2[base2.len() as int] == "--"@);
        assert(l1[base2.len() as int] == base1[base2.len() as int]);
    }
    assert(base1 =~= l1.take(base1.len() as int));
    assert(base2 =~= l2.take(base1.len() as int));
    assert(new1 =~= l1.skip(base1.len() as int + 1));
    assert(new2 =~= l2.skip(base1.len() as int + 1));
}

proof fn lemma_stack_list(base: Seq<Seq<char>>, new: Seq<Seq<char>>)
    ensures
        terminated(base.push("--"@) + new, "\n"@) == stack_text(base, new),
{
    reveal_strlit("\n");
    reveal_strlit("--");
    reveal_strlit("--\n");
    assert("--"@ + "\n"@ =~= "--\n"@);
    lemma_terminated_concat(base.push("--"@), new, "\n"@);
    assert(base.push("--"@).drop_last() =~= base);
    assert(terminated(base, "\n"@) + "--"@ + "\n"@ =~= terminated(base, "\n"@) + "--\n"@);
}

/// What an `ADD` from the build context adds.
#[derive(Debug)]
pub enum SourceContent {
    /// A single file.
    File {
        /// Its name.
        name: Vec<u8>,
        /// Its mode.
        mode: u32,
        /// Its bytes.
        bytes: Vec<u8>,
    },
    /// A directory, with everything below it.
    Tree(Vec<TreeEntry>),
}

/// One entry of a directory tree.
#[derive(Debug)]
pub struct TreeEntry {
    /// Its path below the directory; empty for the directory itself.
    pub path: String,
    /// Its mode.
    pub mode: u32,
    /// What it is.
    pub kind: TreeKind,
}

/// What an entry of a directory tree is.
#[derive(Debug)]
pub enum TreeKind {
    /// A file with these bytes.
    File(Vec<u8>),
    /// A symbolic link to this path.
    Symlink(String),
    /// A directory, or something else without content.
    Other,
}

/// The permission bits of a mode, as a line of text.
pub open spec fn mode_line(mode: u32) -> Seq<char> {
    "mode:"@ + in_base((mode % 4096) as nat, 8, false) + "\n"@
}

/// What stands for the content of an entry.
pub open spec fn content_bytes(kind: TreeKind) -> Seq<u8> {
    match kind {
        TreeKind::File(bytes) => bytes@,
        TreeKind::Symlink(target) => encode_utf8("->"@ + target@),
        TreeKind::Other => Seq::empty(),
    }
}

/// What stands for an entry.
pub open spec fn entry_bytes(entry: TreeEntry) -> Seq<u8> {
    encode_utf8(entry.path@ + "\n"@ + mode_line(entry.mode)) + content_bytes(entry.kind)
        + encode_utf8("\n"@)
}

/// The paths of the entries.
pub open spec fn entry_paths(entries: Seq<TreeEntry>) -> Seq<Seq<char>> {
    Seq::new(entries.len(), |i: int| entries[i].path@)
}

/// The positions of the entries in the order of their paths. Entries at one path
/// keep the order in which they are listed.
pub open spec fn path_order(entries: Seq<TreeEntry>) -> Seq<int> {
    positions_by(entry_paths(entries), path_le())
}

/// What stands for the entries at the positions, in that order.
pub open spec fn listing_bytes(entries: Seq<TreeEntry>, order: Seq<int>) -> Seq<u8>
    decreases order.len(),
{
    if order.len() == 0 {
        Seq::empty()
    } else {
        listing_bytes(entries, order.drop_last()) + entry_bytes(entries[order.last()])
    }
}

/// What stands for what is added.
pub open spec fn source_bytes(source: SourceContent) -> Seq<u8> {
    match source {
        SourceContent::File { name, mode, bytes } => encode_utf8("file:"@) + name@ + encode_utf8(
            "\n"@ + mode_line(mode),
        ) + bytes@,
        SourceContent::Tree(entries) => listing_bytes(entries@, path_order(entries@)),
    }
}

fn write_mode_line(mode: u32) -> (r: String)
    ensures
        r@ == mode_line(mode),
{
    let digits = write_in_base((mode % 4096) as u128, 8, false);
    concat3("mode:", digits.as_str(), "\n")
}

/// The digest of what an `ADD` adds: the content and mode of a file and its
/// name, or those of everything in a directory, in the order of the paths.
pub fn add_source_digest(source: &SourceContent) -> (r: String)
    ensures
        r@ == hex_digest(source_bytes(*source)),
        is_hex_digest(r@),
{
    let mut hasher = Hasher::new();
    match source {
        SourceContent::File { name, mode, bytes } => {
            hasher.feed("file:".as_bytes());
            hasher.feed(name.as_slice());
            let line = concat2("\n", write_mode_line(*mode).as_str());
            hasher.feed(line.as_str().as_bytes());
            hasher.feed(bytes.as_slice());
            assert(hasher@ =~= source_bytes(*source));
        },
        SourceContent::Tree(entries) => {
            let ghost all = entry_paths(entries@);
            let mut paths: Vec<String> = Vec::new();
            let mut i: usize = 0;
            while i < entries.len()
                invariant
                    i <= entries@.len(),
                    all == entry_paths(entries@),
                    texts(paths@) == all.take(i as int),
                decreases entries.len() - i,
            {
                let path = entries[i].path.clone();
                proof {
                    lemma_texts_push(paths@, path);
                    assert(all.take(i as int + 1) =~= all.take(i as int).push(path@));
                }
                paths.push(path);
                i += 1;
            }
            assert(all.take(i as int) =~= all);
            let at = path_positions(&paths);
            let ghost order = path_order(entries@);
            proof {
                lemma_path_order();
                lemma_positions(all, path_le());
            }
            let mut k: usize = 0;
            while k < at.len()
                invariant
                    k <= at@.len(),
                    ints(at@) == order,
                    order.len() == entries@.len(),
                    forall|m: int| 0 <= m < order.len() ==> 0 <= #[trigger] order[m] < order.len(),
                    hasher@ == listing_bytes(entries@, order.take(k as int)),
                decreases at.len() - k,
            {
                proof {
                    assert(order[k as int] == at@[k as int] as int);
                    assert(order.take(k as int + 1).drop_last() =~= order.take(k as int));
                    assert(order.take(k as int + 1).last() == order[k as int]);
                }
                feed_entry(&mut hasher, &entries[at[k]]);
                k += 1;
            }
            assert(order.take(k as int) =~= order);
        },
    }
    hasher.finish()
}

fn feed_entry(hasher: &mut Hasher, entry: &TreeEntry)
    ensures
        final(hasher)@ == old(hasher)@ + entry_bytes(*entry),
{
    let head = concat3(
        entry.path.as_str(),
        "\n",
        write_mode_line(entry.mode).as_str(),
    );
    hasher.feed(head.as_str().as_bytes());
    match &entry.kind {
        TreeKind::File(bytes) => {
            hasher.feed(bytes.as_slice());
        },
        TreeKind::Symlink(target) => {
            let link = concat2("->", target.as_str());
            hasher.feed(link.as_str().as_bytes());
        },
        TreeKind::Other => {},
    }
    hasher.feed("\n".as_bytes());
    assert(hasher@ =~= old(hasher)@ + entry_bytes(*entry));
}

/// The order in which the entries of a tree are listed does not matter to its
/// digest. (A tree has one entry for a path.)
pub proof fn lemma_listing_order(a: Vec<TreeEntry>, b: Vec<TreeEntry>)
    requires
        a@.to_multiset() == b@.to_multiset(),
        entry_paths(a@).no_duplicates(),
        entry_paths(b@).no_duplicates(),
    ensures
        source_bytes(SourceContent::Tree(a)) == source_bytes(SourceContent::Tree(b)),
{
    let p = entry_paths(a@);
    let q = entry_paths(b@);
    let le = path_le();
    let x = path_order(a@);
    let y = path_order(b@);
    let path = |e: TreeEntry| e.path@;
    lemma_path_order();
    lemma_map_multiset(a@, b@, path);
    assert(a@.map_values(path) =~= p);
    assert(b@.map_values(path) =~= q);
    lemma_positions(p, le);
    lemma_positions(q, le);
    p.lemma_sort_by_ensures(le);
    q.lemma_sort_by_ensures(le);
    vstd::seq_lib::lemma_sorted_unique(p.sort_by(le), q.sort_by(le), le);
    vstd::seq_lib::to_multiset_len(p);
    vstd::seq_lib::to_multiset_len(q);
    assert forall|i: int| 0 <= i < x.len() implies a@[#[trigger] x[i]] == b@[y[i]] by {
        assert(p.sort_by(le)[i] == p[x[i]]);
        assert(q.sort_by(le)[i] == q[y[i]]);
        lemma_same_entry(a@, b@, x[i], y[i]);
    }
    lemma_listing_same(a@, x, b@, y);
}

proof fn lemma_same_entry(a: Seq<TreeEntry>, b: Seq<TreeEntry>, i: int, j: int)
    requires
        a.to_multiset() == b.to_multiset(),
        entry_paths(b).no_duplicates(),
        0 <= i < a.len(),
        0 <= j < b.len(),
        a[i].path@ == b[j].path@,
    ensures
        a[i] == b[j],
{
    broadcast use vstd::seq_lib::group_to_multiset_ensures;

    let q = entry_paths(b);
    assert(a.contains(a[i]));
    assert(a.to_multiset().count(a[i]) > 0);
    assert(b.contains(a[i]));
    let k = choose|k: int| 0 <= k < b.len() && b[k] == a[i];
    assert(q[k] == q[j]);
}

proof fn lemma_listing_same(
    a: Seq<TreeEntry>,
    x: Seq<int>,
    b: Seq<TreeEntry>,
    y: Seq<int>,
)
    requires
        x.len() == y.len(),
        forall|i: int| 0 <= i < x.len() ==> a[#[trigger] x[i]] == b[y[i]],
    ensures
        listing_bytes(a, x) == listing_bytes(b, y),
    decreases x.len(),
{
    if x.len() > 0 {
        let n = x.len() - 1;
        assert forall|i: int| 0 <= i < n implies a[#[trigger] x.drop_last()[i]]
            == b[y.drop_last()[i]] by {
            assert(x.drop_last()[i] == x[i]);
        }
        lemma_listing_same(a, x.drop_last(), b, y.drop_last());
        assert(a[x[n]] == b[y[n]]);
    }
}

/// The line of a mode ends at its first line break, so that what follows it
/// cannot make up for another mode.
pub proof fn lemma_mode_line_cut(mode1: u32, rest1: Seq<u8>, mode2: u32, rest2: Seq<u8>)
    requires
        encode_utf8(mode_line(mode1)) + rest1 == encode_utf8(mode_line(mode2)) + rest2,
    ensures
        mode1 % 4096 == mode2 % 4096,
        rest1 == rest2,
{
    reveal_strlit("mode:");
    reveal_strlit("\n");
    let d1 = in_base((mode1 % 4096) as nat, 8, false);
    let d2 = in_base((mode2 % 4096) as nat, 8, false);
    let l1 = mode_line(mode1);
    let l2 = mode_line(mode2);
    lemma_in_base_digits((mode1 % 4096) as nat, 8, false);
    lemma_in_base_digits((mode2 % 4096) as nat, 8, false);
    assert forall|i: int| 0 <= i < d1.len() implies l1[5 + i] == #[trigger] d1[i] by {}
    assert forall|i: int| 0 <= i < d2.len() implies l2[5 + i] == #[trigger] d2[i] by {}
    assert(l1[5 + d1.len() as int] == '\n');
    assert(l2[5 + d2.len() as int] == '\n');
    assert(is_ascii_chars(l1));
    assert(is_ascii_chars(l2));
    is_ascii_chars_encode_utf8(l1);
    is_ascii_chars_encode_utf8(l2);
    let e1 = encode_utf8(l1);
    let e2 = encode_utf8(l2);
    let t1 = e1 + rest1;
    let t2 = e2 + rest2;
    if d1.len() < d2.len() {
        let k = 5 + d1.len();
        assert(t1[k as int] == e1[k as int] && t2[k as int] == e2[k as int]);
        assert(l2[k as int] == d2[d1.len() as int]);
        assert(false);
    }
    if d2.len() < d1.len() {
        let k = 5 + d2.len();
        assert(t1[k as int] == e1[k as int] && t2[k as int] == e2[k as int]);
        assert(l1[k as int] == d1[d2.len() as int]);
        assert(false);
    }
    assert forall|i: int| 0 <= i < d1.len() implies d1[i] == d2[i] by {
        assert(t1[5 + i] == e1[5 + i] && t2[5 + i] == e2[5 + i]);
        assert(l1[5 + i] as u8 == l2[5 + i] as u8);
    }
    assert(d1 =~= d2);
    lemma_in_base_injective((mode1 % 4096) as nat, (mode2 % 4096) as nat, 8, false);
    assert(t1.skip(e1.len() as int) =~= rest1);
    assert(t2.skip(e1.len() as int) =~= rest2);
}

/// A changed mode of one entry of a tree changes what the digest of the tree is
/// made from, and so do the changed bytes of a file and the changed target of a
/// link, whatever else is in the tree.
pub proof fn lemma_tree_change(a: Vec<TreeEntry>, b: Vec<TreeEntry>, k: int)
    requires
        a@.len() == b@.len(),
        0 <= k < a@.len(),
        forall|i: int| 0 <= i < a@.len() && i != k ==> #[trigger] a@[i] == b@[i],
        a@[k].path@ == b@[k].path@,
        a@[k].mode % 4096 != b@[k].mode % 4096 || content_bytes(a@[k].kind) != content_bytes(
            b@[k].kind,
        ),
    ensures
        source_bytes(SourceContent::Tree(a)) != source_bytes(SourceContent::Tree(b)),
{
    let order = path_order(a@);
    assert(entry_paths(a@) =~= entry_paths(b@));
    lemma_path_order();
    lemma_positions(entry_paths(a@), path_le());
    lemma_entry_change(a@[k], b@[k]);
    assert(order.contains(k));
    let m = order.index_of(k);
    lemma_listing_change(a@, b@, order, m);
}

proof fn lemma_entry_change(e: TreeEntry, f: TreeEntry)
    requires
        e.path@ == f.path@,
        e.mode % 4096 != f.mode % 4096 || content_bytes(e.kind) != content_bytes(f.kind),
    ensures
        entry_bytes(e) != entry_bytes(f),
{
    let head = encode_utf8(e.path@ + "\n"@);
    let end = encode_utf8("\n"@);
    let c1 = content_bytes(e.kind);
    let c2 = content_bytes(f.kind);
    assert(e.path@ + "\n"@ + mode_line(e.mode) == (e.path@ + "\n"@) + mode_line(e.mode));
    lemma_encode_concat(e.path@ + "\n"@, mode_line(e.mode));
    lemma_encode_concat(e.path@ + "\n"@, mode_line(f.mode));
    if entry_bytes(e) == entry_bytes(f) {
        let t1 = encode_utf8(mode_line(e.mode)) + (c1 + end);
        let t2 = encode_utf8(mode_line(f.mode)) + (c2 + end);
        assert(entry_bytes(e).skip(head.len() as int) =~= t1);
        assert(entry_bytes(f).skip(head.len() as int) =~= t2);
        lemma_mode_line_cut(e.mode, c1 + end, f.mode, c2 + end);
        assert((c1 + end).len() == (c2 + end).len());
        assert((c1 + end).take(c1.len() as int) =~= c1);
        assert((c2 + end).take(c1.len() as int) =~= c2);
    }
}

/// Listings that differ in one entry differ.
pub proof fn lemma_listing_change(a: Seq<TreeEntry>, b: Seq<TreeEntry>, order: Seq<int>, m: int)
    requires
        a.len() == b.len(),
        0 <= m < order.len(),
        order.no_duplicates(),
        forall|i: int| 0 <= i < order.len() ==> 0 <= #[trigger] order[i] < a.len(),
        forall|i: int| 0 <= i < a.len() && i != order[m] ==> #[trigger] a[i] == b[i],
        entry_bytes(a[order[m]]) != entry_bytes(b[order[m]]),
    ensures
        listing_bytes(a, order) != listing_bytes(b, order),
    decreases order.len(),
{
    let n = order.len() - 1;
    let rest = order.drop_last();
    let p = listing_bytes(a, rest);
    let q = listing_bytes(b, rest);
    let x = entry_bytes(a[order[n]]);
    let y = entry_bytes(b[order[n]]);
    if m == n {
        assert forall|i: int| 0 <= i < rest.len() implies a[#[trigger] rest[i]] == b[rest[i]] by {
            assert(rest[i] == order[i]);
        }
        lemma_listing_same(a, rest, b, rest);
        if p + x == q + y {
            assert((p + x).skip(p.len() as int) =~= x);
            assert((q + y).skip(p.len() as int) =~= y);
        }
    } else {
        assert forall|i: int| 0 <= i < rest.len() implies 0 <= #[trigger] rest[i] < a.len() by {
            assert(rest[i] == order[i]);
        }
        assert(rest[m] == order[m]);
        assert(order[n] != order[m]);
        lemma_listing_change(a, b, rest, m);
        if p + x == q + y {
            assert(x == y);
            assert((p + x).len() == p.len() + x.len());
            assert((q + y).len() == q.len() + x.len());
            assert((p + x).take(p.len() as int) =~= p);
            assert((q + y).take(p.len() as int) =~= q);
        }
    }
}

/// A changed mode changes what the digest of a file is made from, and so does
/// changed content.
pub proof fn lemma_file_change(
    name: Vec<u8>,
    mode1: u32,
    bytes1: Vec<u8>,
    mode2: u32,
    bytes2: Vec<u8>,
)
    requires
        mode1 % 4096 != mode2 % 4096 || bytes1@ != bytes2@,
    ensures
        source_bytes(SourceContent::File { name, mode: mode1, bytes: bytes1 }) != source_bytes(
            SourceContent::File { name, mode: mode2, bytes: bytes2 },
        ),
{
    let head = encode_utf8("file:"@) + name@ + encode_utf8("\n"@);
    let t1 = source_bytes(SourceContent::File { name, mode: mode1, bytes: bytes1 });
    let t2 = source_bytes(SourceContent::File { name, mode: mode2, bytes: bytes2 });
    lemma_encode_concat("\n"@, mode_line(mode1));
    lemma_encode_concat("\n"@, mode_line(mode2));
    if t1 == t2 {
        let r1 = encode_utf8(mode_line(mode1)) + bytes1@;
        let r2 = encode_utf8(mode_line(mode2)) + bytes2@;
        assert(t1.skip(head.len() as int) =~= r1);
        assert(t2.skip(head.len() as int) =~= r2);
        lemma_mode_line_cut(mode1, bytes1@, mode2, bytes2@);
    }
}

/// The directory of the step cache, below the root of the layout.
pub const CACHE_DIR: &'static str = "umf-engine-cache";

/// Where the entry of a step lies: in a file of its own, named by its key.
pub open spec fn entry_path(layout_root: Seq<char>, key: Seq<char>) -> Seq<char> {
    join_path(join_path(layout_root, CACHE_DIR@), key + ".json"@)
}

/// Where the entry of a step lies.
pub fn cache_entry_path(layout_root: &str, key: &str) -> (r: String)
    ensures
        r@ == entry_path(layout_root@, key@),
{
    let dir = joined_path(layout_root, CACHE_DIR);
    let name = concat2(key, ".json");
    joined_path(dir.as_str(), name.as_str())
}

} // verus!
