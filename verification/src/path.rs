//! Unix paths as text.
//!
//! A path is the text of its segments with `/` between them. A doubled slash, a
//! slash at the end and a `.` behind a slash name nothing: two paths are the
//! same where their components are. Only `below` goes by the text alone.
use vstd::prelude::*;
use crate::text::{
    chars_of, lemma_split_nonempty, lemma_texts_push, same, split, split_on, strip_prefix, text_of,
    texts, trim_start_char,
};

verus! {

/// Does the path start at the root?
pub open spec fn is_absolute(s: Seq<char>) -> bool {
    s.len() > 0 && s[0] == '/'
}

/// The path `rel` seen from `base`: `rel` itself where it is absolute, else
/// `rel` below `base`.
pub open spec fn join_path(base: Seq<char>, rel: Seq<char>) -> Seq<char> {
    if is_absolute(rel) {
        rel
    } else if base.len() == 0 || base.last() == '/' {
        base + rel
    } else {
        base + seq!['/'] + rel
    }
}

/// Does the segment name something: neither nothing nor the current directory?
pub open spec fn is_name(segment: Seq<char>) -> bool {
    segment.len() > 0 && segment != seq!['.']
}

/// Is the segment the step to the parent directory?
pub open spec fn is_parent_step(segment: Seq<char>) -> bool {
    segment == seq!['.', '.']
}

/// The segments of the path that name something or step up.
pub open spec fn names(s: Seq<char>) -> Seq<Seq<char>> {
    split(s, '/').filter(|p: Seq<char>| is_name(p))
}

/// Does a segment of the path step up to the parent directory?
pub open spec fn steps_up(s: Seq<char>) -> bool {
    exists|i: int| 0 <= i < split(s, '/').len() && is_parent_step(#[trigger] split(s, '/')[i])
}

/// The last name of the path, unless the path ends by stepping up.
pub open spec fn file_name(s: Seq<char>) -> Option<Seq<char>> {
    if names(s).len() > 0 && !is_parent_step(names(s).last()) {
        Some(names(s).last())
    } else {
        None
    }
}

/// The position behind the last slash; zero where there is none.
pub open spec fn after_last_slash(s: Seq<char>) -> int
    decreases s.len(),
{
    if s.len() == 0 {
        0
    } else if s.last() == '/' {
        s.len() as int
    } else {
        after_last_slash(s.drop_last())
    }
}

/// Does the path end in what names nothing: a slash, or a `.` behind a slash?
/// The slash of the root counts for something.
pub open spec fn has_idle_end(s: Seq<char>) -> bool {
    s.len() > 1 && (s.last() == '/' || (s.last() == '.' && s[s.len() - 2] == '/'))
}

/// The path without what names nothing at its end.
pub open spec fn tidy_end(s: Seq<char>) -> Seq<char>
    decreases s.len(),
{
    if has_idle_end(s) {
        tidy_end(s.drop_last())
    } else {
        s
    }
}

/// The path one component up; the empty path and the root have none.
pub open spec fn parent(s: Seq<char>) -> Option<Seq<char>> {
    let t = tidy_end(s);
    if t.len() == 0 || t == seq!['/'] {
        None
    } else {
        Some(tidy_end(t.take(after_last_slash(t))))
    }
}

/// The components of the path: the root or the `.` that it starts with, and its
/// names.
pub open spec fn components(s: Seq<char>) -> Seq<Seq<char>> {
    if is_absolute(s) {
        seq![seq!['/']] + names(s)
    } else if split(s, '/')[0] == seq!['.'] {
        seq![seq!['.']] + names(s)
    } else {
        names(s)
    }
}

/// Do the texts write the same path?
pub open spec fn same_path(a: Seq<char>, b: Seq<char>) -> bool {
    components(a) == components(b)
}

/// `base` with a slash at its end.
pub open spec fn with_slash(base: Seq<char>) -> Seq<char> {
    if base.len() > 0 && base.last() == '/' {
        base
    } else {
        base.push('/')
    }
}

/// What of the text of `path` lies below that of `root`.
pub open spec fn below(path: Seq<char>, root: Seq<char>) -> Option<Seq<char>> {
    if path == root {
        Some(Seq::empty())
    } else if with_slash(root).is_prefix_of(path) {
        Some(path.skip(with_slash(root).len() as int))
    } else {
        None
    }
}

/// Is `path` the directory `root` or below it?
pub open spec fn is_within(path: Seq<char>, root: Seq<char>) -> bool {
    components(root).is_prefix_of(components(path))
}

/// The position behind the last slash is inside the text, and what precedes
/// it, where it is not zero, is a slash.
pub proof fn lemma_after_last_slash(s: Seq<char>)
    ensures
        0 <= after_last_slash(s) <= s.len(),
        after_last_slash(s) > 0 ==> s[after_last_slash(s) - 1] == '/',
        forall|j: int| after_last_slash(s) <= j < s.len() ==> s[j] != '/',
    decreases s.len(),
{
    if s.len() > 0 && s.last() != '/' {
        lemma_after_last_slash(s.drop_last());
        let i = after_last_slash(s.drop_last());
        if i > 0 {
            assert(s.drop_last()[i - 1] == s[i - 1]);
        }
        assert forall|j: int| i <= j < s.len() implies s[j] != '/' by {
            if j < s.len() - 1 {
                assert(s.drop_last()[j] == s[j]);
            }
        }
    }
}

/// The tidy end of a path is a prefix of it, and has nothing more to tidy.
pub proof fn lemma_tidy_end(s: Seq<char>)
    ensures
        tidy_end(s).is_prefix_of(s),
        !has_idle_end(tidy_end(s)),
        s.len() > 0 ==> tidy_end(s).len() > 0,
    decreases s.len(),
{
    if has_idle_end(s) {
        lemma_tidy_end(s.drop_last());
        assert(tidy_end(s) =~= s.subrange(0, tidy_end(s).len() as int));
    } else {
        assert(s =~= s.subrange(0, s.len() as int));
    }
}

/// A path is longer than the one above it.
pub proof fn lemma_parent_shorter(s: Seq<char>)
    ensures
        parent(s) is Some ==> parent(s)->0.len() < s.len(),
{
    let t = tidy_end(s);
    lemma_tidy_end(s);
    if t.len() > 0 && t != seq!['/'] {
        lemma_after_last_slash(t);
        let i = after_last_slash(t);
        if i == t.len() {
            assert(t.last() == '/');
            assert(t.len() == 1);
            assert(t =~= seq!['/']);
        }
        lemma_tidy_end(t.take(i));
    }
}

/// The path above a name below a tidy path is that path, and the name is at a
/// tidy end.
pub proof fn lemma_parent_of_name(base: Seq<char>, name: Seq<char>)
    requires
        !has_idle_end(base),
        is_name(name),
        !name.contains('/'),
    ensures
        parent(join_path(base, name)) == Some(base),
        !has_idle_end(join_path(base, name)),
        join_path(base, name).len() > base.len(),
{
    let s = join_path(base, name);
    assert forall|i: int| 0 <= i < name.len() implies name[i] != '/' by {
        assert(name.contains(name[i]));
    }
    let n = name.len();
    assert(s.last() == name[n - 1]);
    assert(s.skip(s.len() - n) =~= name);
    if n > 1 {
        assert(s[s.len() - 2] == name[n - 2]);
    } else if name[0] == '.' {
        assert(name =~= seq!['.']);
    }
    assert(!has_idle_end(s));
    lemma_after_last_slash(s);
    let i = after_last_slash(s);
    let k = s.len() - n;
    if i > k {
        assert(s[i - 1] == name[i - 1 - k]);
    }
    if k > 0 {
        assert(s[k - 1] == '/');
    }
    assert(i == k);
    assert(s[k as int] == name[0]);
    assert(s != seq!['/']);
    let up = s.take(i);
    if base.len() == 0 {
        assert(up =~= base);
    } else if base.last() == '/' {
        assert(up =~= base);
    } else {
        assert(up =~= base.push('/'));
        assert(up.drop_last() =~= base);
        assert(has_idle_end(up));
        assert(tidy_end(up) == tidy_end(base));
    }
    assert(tidy_end(base) == base);
    assert(tidy_end(s) == s);
}

/// A name is the one name of the path that it makes by itself.
pub proof fn lemma_single_name(name: Seq<char>)
    requires
        is_name(name),
        !name.contains('/'),
    ensures
        names(name) == seq![name],
{
    lemma_split_single(name);
    reveal_with_fuel(Seq::filter, 2);
    let one = seq![name];
    assert(one.drop_last() =~= Seq::empty());
    assert(names(name) =~= one);
}

/// A text without a slash is one segment.
proof fn lemma_split_single(s: Seq<char>)
    requires
        !s.contains('/'),
    ensures
        split(s, '/') == seq![s],
    decreases s.len(),
{
    if s.len() == 0 {
        assert(s =~= Seq::empty());
        assert(split(s, '/') =~= seq![s]);
    } else {
        assert(s.contains(s.last()));
        assert forall|c: char| s.drop_last().contains(c) implies s.contains(c) by {
            let i = s.drop_last().index_of(c);
            assert(s.drop_last()[i] == c);
            assert(s[i] == c);
        }
        lemma_split_single(s.drop_last());
        assert(s.drop_last().push(s.last()) =~= s);
        assert(split(s, '/') =~= seq![s]);
    }
}

/// What follows a slash adds its names to the components.
pub proof fn lemma_components_concat(a: Seq<char>, b: Seq<char>)
    requires
        a.len() > 0,
    ensures
        components(a + seq!['/'] + b) == components(a) + names(b),
{
    let s = a + seq!['/'] + b;
    let keep = |p: Seq<char>| is_name(p);
    lemma_split_concat(a, b);
    lemma_split_nonempty(a, '/');
    Seq::filter_distributes_over_add(split(a, '/'), split(b, '/'), keep);
    assert(s[0] == a[0]);
    assert(split(s, '/')[0] == split(a, '/')[0]);
    assert(components(s) =~= components(a) + names(b));
}

/// A relative path below a path adds its names to the components.
pub proof fn lemma_components_join(base: Seq<char>, rel: Seq<char>)
    requires
        base.len() > 0,
        !is_absolute(rel),
    ensures
        components(join_path(base, rel)) == components(base) + names(rel),
        is_within(join_path(base, rel), base),
{
    let s = join_path(base, rel);
    if base.last() != '/' {
        lemma_components_concat(base, rel);
    } else {
        let a = base.drop_last();
        assert(base =~= a + seq!['/'] + Seq::<char>::empty());
        assert(s =~= a + seq!['/'] + rel);
        assert(names(Seq::empty()) =~= Seq::empty()) by {
            let one = seq![Seq::<char>::empty()];
            assert(split(Seq::<char>::empty(), '/') =~= one);
            reveal_with_fuel(Seq::filter, 2);
            assert(one.drop_last() =~= Seq::empty());
            assert(!is_name(one.last()));
        }
        if a.len() > 0 {
            lemma_components_concat(a, Seq::empty());
            lemma_components_concat(a, rel);
            assert(components(a) + names(Seq::empty()) =~= components(a));
        } else {
            let keep = |p: Seq<char>| is_name(p);
            lemma_split_concat(a, rel);
            lemma_split_concat(a, Seq::empty());
            assert(a =~= Seq::empty());
            Seq::filter_distributes_over_add(split(a, '/'), split(rel, '/'), keep);
            Seq::filter_distributes_over_add(split(a, '/'), split(a, '/'), keep);
            assert(components(s) =~= components(base) + names(rel));
        }
    }
    let all = components(s);
    assert(components(base) =~= all.subrange(0, components(base).len() as int));
}

/// Splitting at every slash splits at a given one.
pub proof fn lemma_split_concat(a: Seq<char>, b: Seq<char>)
    ensures
        split(a + seq!['/'] + b, '/') == split(a, '/') + split(b, '/'),
    decreases b.len(),
{
    let s = a + seq!['/'] + b;
    if b.len() == 0 {
        assert(s.drop_last() =~= a);
        assert(s.last() == '/');
        assert(b =~= Seq::empty());
        assert(split(s, '/') =~= split(a, '/') + split(b, '/'));
    } else {
        lemma_split_concat(a, b.drop_last());
        lemma_split_nonempty(b.drop_last(), '/');
        let x = split(a, '/');
        let y = split(b.drop_last(), '/');
        assert(s.drop_last() =~= a + seq!['/'] + b.drop_last());
        assert(s.last() == b.last());
        assert((x + y).last() == y.last());
        assert((x + y).drop_last() =~= x + y.drop_last());
        assert(split(s, '/') =~= x + split(b, '/'));
    }
}

/// A path without steps up below a path without steps up has none.
pub proof fn lemma_steps_up_concat(a: Seq<char>, b: Seq<char>)
    ensures
        steps_up(a + seq!['/'] + b) == (steps_up(a) || steps_up(b)),
{
    lemma_split_concat(a, b);
    let p = split(a, '/');
    let q = split(b, '/');
    let all = split(a + seq!['/'] + b, '/');
    if steps_up(a) {
        let i = choose|i: int| 0 <= i < p.len() && is_parent_step(#[trigger] p[i]);
        assert(is_parent_step(all[i]));
    }
    if steps_up(b) {
        let i = choose|i: int| 0 <= i < q.len() && is_parent_step(#[trigger] q[i]);
        assert(is_parent_step(all[p.len() + i]));
    }
    if steps_up(a + seq!['/'] + b) {
        let i = choose|i: int| 0 <= i < all.len() && is_parent_step(#[trigger] all[i]);
        if i < p.len() {
            assert(is_parent_step(p[i]));
        } else {
            assert(is_parent_step(q[i - p.len()]));
        }
    }
}

/// Slashes at the start of a path do not matter to its steps up.
pub proof fn lemma_steps_up_trim(s: Seq<char>)
    ensures
        steps_up(trim_start_char(s, '/')) == steps_up(s),
        !is_absolute(trim_start_char(s, '/')),
    decreases s.len(),
{
    if s.len() > 0 && s[0] == '/' {
        lemma_steps_up_trim(s.drop_first());
        lemma_steps_up_concat(Seq::empty(), s.drop_first());
        assert(Seq::<char>::empty() + seq!['/'] + s.drop_first() =~= s);
        assert(!steps_up(Seq::empty())) by {
            assert(split(Seq::<char>::empty(), '/') =~= seq![Seq::<char>::empty()]);
        }
    }
}

/// What is put below a root without stepping up stays below the root, and steps
/// up only where the root itself does.
pub proof fn lemma_join_contained(root: Seq<char>, rel: Seq<char>)
    requires
        !steps_up(rel),
    ensures
        is_within(join_path(root, trim_start_char(rel, '/')), root),
        steps_up(join_path(root, trim_start_char(rel, '/'))) == steps_up(root),
{
    let t = trim_start_char(rel, '/');
    let s = join_path(root, t);
    let none = Seq::<char>::empty();
    lemma_steps_up_trim(rel);
    assert(split(none, '/') =~= seq![none]);
    if root.len() == 0 {
        assert(root =~= none);
        assert(s =~= t);
        reveal_with_fuel(Seq::filter, 2);
        assert(seq![none].drop_last() =~= Seq::empty());
        assert(!is_name(seq![none].last()));
        assert(components(root) =~= Seq::empty());
        assert(components(root) =~= components(s).subrange(0, 0));
        assert(!steps_up(root));
    } else {
        lemma_components_join(root, t);
        if root.last() == '/' {
            let a = root.drop_last();
            assert(root =~= a + seq!['/'] + none);
            assert(s =~= a + seq!['/'] + t);
            lemma_steps_up_concat(a, none);
            lemma_steps_up_concat(a, t);
            assert(!steps_up(none));
        } else {
            lemma_steps_up_concat(root, t);
        }
    }
}

/// The path `rel` seen from `base`.
pub fn joined_path(base: &str, rel: &str) -> (r: String)
    ensures
        r@ == join_path(base@, rel@),
{
    let v = chars_of(rel);
    if v.len() > 0 && v[0] == '/' {
        return String::from_str(rel);
    }
    let b = chars_of(base);
    let mut r = String::from_str(base);
    if b.len() > 0 && b[b.len() - 1] != '/' {
        r.push('/');
        assert(r@ =~= base@ + seq!['/']);
    }
    r.append(rel);
    r
}

/// Does a segment of the path step up?
pub fn has_parent_step(s: &str) -> (r: bool)
    ensures
        r == steps_up(s@),
{
    let parts = split_on(s, '/');
    let ghost all = split(s@, '/');
    let mut i: usize = 0;
    while i < parts.len()
        invariant
            i <= parts@.len(),
            texts(parts@) == all,
            all == split(s@, '/'),
            forall|j: int| 0 <= j < i ==> !is_parent_step(#[trigger] all[j]),
        decreases parts.len() - i,
    {
        proof {
            reveal_strlit("..");
            assert(".."@ =~= seq!['.', '.']);
            assert(all[i as int] == parts@[i as int]@);
        }
        if same(parts[i].as_str(), "..") {
            return true;
        }
        i += 1;
    }
    false
}

/// The segments of the path that name something or step up.
pub fn names_of(s: &str) -> (r: Vec<String>)
    ensures
        texts(r@) == names(s@),
{
    let parts = split_on(s, '/');
    let ghost all = split(s@, '/');
    let ghost keep = |p: Seq<char>| is_name(p);
    let mut out: Vec<String> = Vec::new();
    let mut i: usize = 0;
    proof {
        assert(all.take(0) =~= Seq::empty());
        reveal(Seq::filter);
        assert(texts(out@) =~= all.take(0).filter(keep));
    }
    while i < parts.len()
        invariant
            i <= parts@.len(),
            texts(parts@) == all,
            keep == (|p: Seq<char>| is_name(p)),
            texts(out@) == all.take(i as int).filter(keep),
        decreases parts.len() - i,
    {
        proof {
            reveal_strlit(".");
            assert("."@ =~= seq!['.']);
            assert(all[i as int] == parts@[i as int]@);
            assert(all.take(i as int + 1).drop_last() =~= all.take(i as int));
            assert(all.take(i as int + 1).last() == all[i as int]);
            reveal(Seq::filter);
        }
        let named = !parts[i].as_str().is_empty() && !same(parts[i].as_str(), ".");
        if named {
            proof {
                broadcast use lemma_texts_push;

                assert(parts@[i as int]@.len() > 0);
            }
            out.push(parts[i].clone());
        }
        i += 1;
    }
    assert(all.take(i as int) =~= all);
    out
}

/// The last name of the path, unless the path ends by stepping up.
pub fn file_name_of(s: &str) -> (r: Option<String>)
    ensures
        match r {
            Some(x) => file_name(s@) == Some(x@),
            None => file_name(s@) is None,
        },
{
    let parts = names_of(s);
    let n: usize = parts.len();
    if n == 0 {
        return None;
    }
    proof {
        reveal_strlit("..");
        assert(".."@ =~= seq!['.', '.']);
        assert(names(s@).last() == parts@[n - 1]@);
    }
    if same(parts[n - 1].as_str(), "..") {
        None
    } else {
        Some(parts[n - 1].clone())
    }
}

/// The length of the first `n` characters without what names nothing at their
/// end.
fn tidy_len(v: &Vec<char>, n: usize) -> (r: usize)
    requires
        n <= v@.len(),
    ensures
        r <= n,
        v@.take(r as int) == tidy_end(v@.take(n as int)),
{
    let mut i: usize = n;
    while i > 1 && (v[i - 1] == '/' || (v[i - 1] == '.' && v[i - 2] == '/'))
        invariant
            i <= n <= v@.len(),
            tidy_end(v@.take(i as int)) == tidy_end(v@.take(n as int)),
        decreases i,
    {
        assert(v@.take(i as int).drop_last() =~= v@.take(i as int - 1));
        i -= 1;
    }
    i
}

/// The path one component up.
pub fn parent_of(s: &str) -> (r: Option<String>)
    ensures
        match r {
            Some(x) => parent(s@) == Some(x@),
            None => parent(s@) is None,
        },
{
    let v = chars_of(s);
    assert(v@.take(v@.len() as int) =~= s@);
    let n = tidy_len(&v, v.len());
    let ghost t = tidy_end(s@);
    if n == 0 {
        return None;
    }
    if n == 1 && v[0] == '/' {
        assert(t =~= seq!['/']);
        return None;
    }
    let mut i: usize = n;
    while i > 0 && v[i - 1] != '/'
        invariant
            i <= n <= v@.len(),
            t == v@.take(n as int),
            after_last_slash(t) == after_last_slash(v@.take(i as int)),
        decreases i,
    {
        assert(v@.take(i as int).drop_last() =~= v@.take(i as int - 1));
        i -= 1;
    }
    assert(i == after_last_slash(t)) by {
        if i > 0 {
            assert(v@.take(i as int).last() == '/');
        }
    }
    assert(v@.take(i as int) =~= t.take(i as int));
    let k = tidy_len(&v, i);
    assert(t != seq!['/']) by {
        assert(t.len() == n);
        assert(t[0] == v@[0]);
    }
    assert(v@.subrange(0, k as int) =~= v@.take(k as int));
    Some(text_of(&v, 0, k))
}

/// The components of the path.
fn components_of(s: &str) -> (r: Vec<String>)
    ensures
        texts(r@) == components(s@),
{
    let v = chars_of(s);
    let rest = names_of(s);
    let parts = split_on(s, '/');
    let mut out: Vec<String> = Vec::new();
    proof {
        reveal_strlit("/");
        reveal_strlit(".");
        assert("/"@ =~= seq!['/']);
        assert("."@ =~= seq!['.']);
        lemma_split_nonempty(s@, '/');
        assert(split(s@, '/')[0] == parts@[0]@);
    }
    if v.len() > 0 && v[0] == '/' {
        out.push(String::from_str("/"));
    } else if same(parts[0].as_str(), ".") {
        out.push(String::from_str("."));
    }
    let ghost start = texts(out@);
    let mut i: usize = 0;
    assert(texts(out@) =~= start + names(s@).take(0));
    while i < rest.len()
        invariant
            i <= rest@.len(),
            texts(rest@) == names(s@),
            texts(out@) == start + names(s@).take(i as int),
        decreases rest.len() - i,
    {
        proof {
            lemma_texts_push(out@, rest@[i as int]);
            assert(names(s@)[i as int] == rest@[i as int]@);
            assert(names(s@).take(i as int + 1) =~= names(s@).take(i as int).push(
                names(s@)[i as int],
            ));
        }
        out.push(rest[i].clone());
        i += 1;
    }
    assert(names(s@).take(i as int) =~= names(s@));
    assert(texts(out@) =~= components(s@));
    out
}

/// Do the texts write the same path?
pub fn is_same_path(a: &str, b: &str) -> (r: bool)
    ensures
        r == same_path(a@, b@),
{
    let x = components_of(a);
    let y = components_of(b);
    if x.len() != y.len() {
        return false;
    }
    let r = starts_with(&x, &y);
    proof {
        if r {
            assert(components(a@) =~= components(b@));
        }
    }
    r
}

/// Does the list `x` start with the list `y`?
fn starts_with(x: &Vec<String>, y: &Vec<String>) -> (r: bool)
    ensures
        r == texts(y@).is_prefix_of(texts(x@)),
{
    if x.len() < y.len() {
        return false;
    }
    let ghost p = texts(x@);
    let ghost q = texts(y@);
    let mut i: usize = 0;
    while i < y.len()
        invariant
            i <= y@.len() <= x@.len(),
            p == texts(x@),
            q == texts(y@),
            forall|j: int| 0 <= j < i ==> p[j] == q[j],
        decreases y.len() - i,
    {
        assert(p[i as int] == x@[i as int]@ && q[i as int] == y@[i as int]@);
        if x[i] != y[i] {
            proof {
                if q.is_prefix_of(p) {
                    assert(q == p.subrange(0, q.len() as int));
                    assert(q[i as int] == p[i as int]);
                }
            }
            return false;
        }
        i += 1;
    }
    assert(q =~= p.subrange(0, q.len() as int));
    true
}

/// What of the text of `path` lies below that of `root`.
pub fn part_below(path: &str, root: &str) -> (r: Option<String>)
    ensures
        match r {
            Some(x) => below(path@, root@) == Some(x@),
            None => below(path@, root@) is None,
        },
{
    if same(path, root) {
        return Some(String::new());
    }
    let v = chars_of(root);
    let mut base = String::from_str(root);
    if !(v.len() > 0 && v[v.len() - 1] == '/') {
        base.push('/');
    }
    strip_prefix(path, base.as_str())
}

/// Is `path` the directory `root` or below it?
pub fn path_is_within(path: &str, root: &str) -> (r: bool)
    ensures
        r == is_within(path@, root@),
{
    let x = components_of(path);
    let y = components_of(root);
    starts_with(&x, &y)
}

} // verus!
