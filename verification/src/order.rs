//! The order of texts and of paths, and sorting by it.
//!
//! Texts are ordered character by character. Paths are ordered segment by
//! segment: `a/b` comes before `a-b`, although `/` is the larger character.
use vstd::multiset::*;
use vstd::prelude::*;
use vstd::relations::*;
use vstd::seq_lib::*;
use crate::text::{chars_of, lemma_split_join, lemma_texts_push, split, split_on, texts};

verus! {

/// Is `a` before `b` because of what stands at position `k`, the first at
/// which they differ?
pub open spec fn lex_lt_at<A>(a: Seq<A>, b: Seq<A>, lt: spec_fn(A, A) -> bool, k: int) -> bool {
    &&& 0 <= k <= a.len()
    &&& k < b.len()
    &&& forall|i: int| 0 <= i < k ==> a[i] == b[i]
    &&& k == a.len() || lt(a[k], b[k])
}

/// Lexicographic order: `a` is a proper prefix of `b`, or has the lesser item
/// where they first differ.
pub open spec fn lex_lt<A>(a: Seq<A>, b: Seq<A>, lt: spec_fn(A, A) -> bool) -> bool {
    exists|k: int| lex_lt_at(a, b, lt, k)
}

/// A strict total order.
pub open spec fn strict_order<A>(lt: spec_fn(A, A) -> bool) -> bool {
    &&& forall|x: A| !#[trigger] lt(x, x)
    &&& forall|x: A, y: A, z: A| #[trigger] lt(x, y) && #[trigger] lt(y, z) ==> lt(x, z)
    &&& forall|x: A, y: A| x != y ==> #[trigger] lt(x, y) || #[trigger] lt(y, x)
}

/// The order of characters: that of their code points.
pub open spec fn char_lt() -> spec_fn(char, char) -> bool {
    |x: char, y: char| x < y
}

/// Is the text `a` before the text `b`?
pub open spec fn text_lt(a: Seq<char>, b: Seq<char>) -> bool {
    lex_lt(a, b, char_lt())
}

/// The order of texts, as a relation.
pub open spec fn text_lt_fn() -> spec_fn(Seq<char>, Seq<char>) -> bool {
    |x: Seq<char>, y: Seq<char>| text_lt(x, y)
}

/// Is the path `a` before the path `b`?
pub open spec fn path_lt(a: Seq<char>, b: Seq<char>) -> bool {
    lex_lt(split(a, '/'), split(b, '/'), text_lt_fn())
}

/// Equal or before, in the order of texts.
pub open spec fn text_le() -> spec_fn(Seq<char>, Seq<char>) -> bool {
    |x: Seq<char>, y: Seq<char>| x == y || text_lt(x, y)
}

/// Equal or before, in the order of paths.
pub open spec fn path_le() -> spec_fn(Seq<char>, Seq<char>) -> bool {
    |x: Seq<char>, y: Seq<char>| x == y || path_lt(x, y)
}

proof fn lemma_lex_irreflexive<A>(a: Seq<A>, lt: spec_fn(A, A) -> bool)
    requires
        strict_order(lt),
    ensures
        !lex_lt(a, a, lt),
{
}

proof fn lemma_lex_transitive<A>(a: Seq<A>, b: Seq<A>, c: Seq<A>, lt: spec_fn(A, A) -> bool)
    requires
        strict_order(lt),
        lex_lt(a, b, lt),
        lex_lt(b, c, lt),
    ensures
        lex_lt(a, c, lt),
{
    let j = choose|k: int| lex_lt_at(a, b, lt, k);
    let k = choose|k: int| lex_lt_at(b, c, lt, k);
    let m = if j < k {
        j
    } else {
        k
    };
    if j == k && j < a.len() {
        assert(lt(a[j], b[j]) && lt(b[j], c[j]));
    }
    assert(lex_lt_at(a, c, lt, m));
}

proof fn lemma_lex_connected<A>(a: Seq<A>, b: Seq<A>, lt: spec_fn(A, A) -> bool, from: int)
    requires
        strict_order(lt),
        a != b,
        0 <= from <= a.len(),
        from <= b.len(),
        forall|i: int| 0 <= i < from ==> a[i] == b[i],
    ensures
        lex_lt(a, b, lt) || lex_lt(b, a, lt),
    decreases a.len() - from,
{
    if from == a.len() && from == b.len() {
        assert(a =~= b);
    } else if from == a.len() {
        assert(lex_lt_at(a, b, lt, from));
    } else if from == b.len() {
        assert(lex_lt_at(b, a, lt, from));
    } else if a[from] == b[from] {
        lemma_lex_connected(a, b, lt, from + 1);
    } else if lt(a[from], b[from]) {
        assert(lex_lt_at(a, b, lt, from));
    } else {
        assert(lt(b[from], a[from]));
        assert(lex_lt_at(b, a, lt, from));
    }
}

/// The order of texts is a strict total order.
pub proof fn lemma_text_order()
    ensures
        strict_order(text_lt_fn()),
        total_ordering(text_le()),
{
    let lt = text_lt_fn();
    assert(strict_order(char_lt()));
    assert forall|x: Seq<char>| !#[trigger] lt(x, x) by {
        lemma_lex_irreflexive(x, char_lt());
    }
    assert forall|x: Seq<char>, y: Seq<char>, z: Seq<char>| #[trigger]
        lt(x, y) && #[trigger] lt(y, z) implies lt(x, z) by {
        lemma_lex_transitive(x, y, z, char_lt());
    }
    assert forall|x: Seq<char>, y: Seq<char>| x != y implies #[trigger] lt(x, y) || #[trigger] lt(
        y,
        x,
    ) by {
        lemma_lex_connected(x, y, char_lt(), 0);
    }
    let le = text_le();
    assert forall|x: Seq<char>, y: Seq<char>| #[trigger] le(x, y) && #[trigger] le(y, x) implies x
        == y by {
        if x != y {
            assert(lt(x, y) && lt(y, x));
            assert(lt(x, x));
        }
    }
    assert forall|x: Seq<char>, y: Seq<char>, z: Seq<char>| #[trigger]
        le(x, y) && #[trigger] le(y, z) implies le(x, z) by {
        if x != y && y != z {
            assert(lt(x, y) && lt(y, z));
        }
    }
    assert forall|x: Seq<char>, y: Seq<char>| #[trigger] le(x, y) || #[trigger] le(y, x) by {
        if x != y {
            assert(lt(x, y) || lt(y, x));
        }
    }
}

/// The order of paths is a total order.
pub proof fn lemma_path_order()
    ensures
        total_ordering(path_le()),
{
    lemma_text_order();
    let le = path_le();
    assert forall|x: Seq<char>, y: Seq<char>| #[trigger] le(x, y) && #[trigger] le(y, x) implies x
        == y by {
        if x != y {
            let a = split(x, '/');
            let b = split(y, '/');
            lemma_lex_transitive(a, b, a, text_lt_fn());
            lemma_lex_irreflexive(a, text_lt_fn());
        }
    }
    assert forall|x: Seq<char>, y: Seq<char>, z: Seq<char>| #[trigger]
        le(x, y) && #[trigger] le(y, z) implies le(x, z) by {
        if x != y && y != z {
            lemma_lex_transitive(split(x, '/'), split(y, '/'), split(z, '/'), text_lt_fn());
        }
    }
    assert forall|x: Seq<char>, y: Seq<char>| #[trigger] le(x, y) || #[trigger] le(y, x) by {
        if x != y {
            lemma_split_join(x, '/');
            lemma_split_join(y, '/');
            lemma_lex_connected(split(x, '/'), split(y, '/'), text_lt_fn(), 0);
        }
    }
}

/// Is `a` before `b` in the order of texts?
pub fn text_before(a: &str, b: &str) -> (r: bool)
    ensures
        r == text_lt(a@, b@),
{
    let x = chars_of(a);
    let y = chars_of(b);
    let mut i: usize = 0;
    while i < x.len() && i < y.len() && x[i] == y[i]
        invariant
            i <= x@.len(),
            i <= y@.len(),
            forall|j: int| 0 <= j < i ==> x@[j] == y@[j],
        decreases x.len() - i,
    {
        i += 1;
    }
    let r = i < y.len() && (i == x.len() || x[i] < y[i]);
    proof {
        if r {
            assert(lex_lt_at(x@, y@, char_lt(), i as int));
        } else if text_lt(x@, y@) {
            let k = choose|k: int| lex_lt_at(x@, y@, char_lt(), k);
            assert(k == i);
        }
    }
    r
}

/// Is `a` before `b` in the order of paths?
pub fn path_before(a: &str, b: &str) -> (r: bool)
    ensures
        r == path_lt(a@, b@),
{
    let x = split_on(a, '/');
    let y = split_on(b, '/');
    let ghost p = texts(x@);
    let ghost q = texts(y@);
    let mut i: usize = 0;
    while i < x.len() && i < y.len() && x[i] == y[i]
        invariant
            i <= x@.len(),
            i <= y@.len(),
            p == texts(x@),
            q == texts(y@),
            forall|j: int| 0 <= j < i ==> p[j] == q[j],
        decreases x.len() - i,
    {
        assert(p[i as int] == q[i as int]);
        i += 1;
    }
    let r = i < y.len() && (i == x.len() || text_before(x[i].as_str(), y[i].as_str()));
    proof {
        lemma_text_order();
        if r {
            assert(lex_lt_at(p, q, text_lt_fn(), i as int));
        } else if path_lt(a@, b@) {
            let k = choose|k: int| lex_lt_at(p, q, text_lt_fn(), k);
            if k < i {
                assert(!text_lt_fn()(p[k], p[k]));
            } else if i < k {
                assert(p[i as int] == q[i as int]);
                assert(x@[i as int]@ == y@[i as int]@);
            }
            assert(k == i);
        }
    }
    r
}

/// The order of paths or that of texts.
pub open spec fn order_le(by_path: bool) -> spec_fn(Seq<char>, Seq<char>) -> bool {
    if by_path {
        path_le()
    } else {
        text_le()
    }
}

/// The positions in a list of `n` items.
pub open spec fn all_positions(n: nat) -> Seq<int> {
    Seq::new(n, |i: int| i)
}

/// Is the item at `i` not behind that at `j`? Equal items keep the order in which
/// they stand.
pub open spec fn not_behind(
    items: Seq<Seq<char>>,
    le: spec_fn(Seq<char>, Seq<char>) -> bool,
) -> spec_fn(int, int) -> bool {
    |i: int, j: int|
        if items[i] == items[j] {
            i <= j
        } else {
            le(items[i], items[j])
        }
}

/// The positions of the items in their order, those of equal items in the order
/// in which they stand.
pub open spec fn positions_by(
    items: Seq<Seq<char>>,
    le: spec_fn(Seq<char>, Seq<char>) -> bool,
) -> Seq<int> {
    all_positions(items.len()).sort_by(not_behind(items, le))
}

proof fn lemma_not_behind(items: Seq<Seq<char>>, le: spec_fn(Seq<char>, Seq<char>) -> bool)
    requires
        total_ordering(le),
    ensures
        total_ordering(not_behind(items, le)),
{
    let r = not_behind(items, le);
    assert forall|i: int, j: int| #[trigger] r(i, j) && #[trigger] r(j, i) implies i == j by {
        if items[i] != items[j] {
            assert(le(items[i], items[j]) && le(items[j], items[i]));
        }
    }
    assert forall|i: int, j: int, k: int| #[trigger] r(i, j) && #[trigger] r(j, k) implies r(
        i,
        k,
    ) by {
        if items[i] != items[j] && items[j] != items[k] {
            assert(le(items[i], items[j]) && le(items[j], items[k]));
            assert(le(items[i], items[k]));
        }
    }
    assert forall|i: int, j: int| #[trigger] r(i, j) || #[trigger] r(j, i) by {
        if items[i] != items[j] {
            assert(le(items[i], items[j]) || le(items[j], items[i]));
        }
    }
}

/// What is equal as a collection stays so where every item is replaced in the
/// same way.
pub proof fn lemma_map_multiset<A, T>(a: Seq<A>, b: Seq<A>, f: spec_fn(A) -> T)
    requires
        a.to_multiset() == b.to_multiset(),
    ensures
        a.map_values(f).to_multiset() == b.map_values(f).to_multiset(),
    decreases a.len(),
{
    broadcast use group_to_multiset_ensures;

    to_multiset_len(a);
    to_multiset_len(b);
    let p = a.map_values(f);
    let q = b.map_values(f);
    if a.len() > 0 {
        let e = a.last();
        assert(a.contains(e));
        assert(a.to_multiset().count(e) > 0);
        assert(b.contains(e));
        let k = choose|k: int| 0 <= k < b.len() && b[k] == e;
        let a2 = a.remove(a.len() - 1);
        let b2 = b.remove(k);
        assert(a2.to_multiset() =~= b2.to_multiset());
        lemma_map_multiset(a2, b2, f);
        assert(a2.map_values(f) =~= p.remove(a.len() - 1));
        assert(b2.map_values(f) =~= q.remove(k));
        assert(p.remove(a.len() - 1).to_multiset() == p.to_multiset().remove(f(e)));
        assert(q.remove(k).to_multiset() == q.to_multiset().remove(f(e)));
        assert(p.contains(p[a.len() - 1]));
        assert(q.contains(q[k]));
        assert(p.to_multiset() =~= p.to_multiset().remove(f(e)).insert(f(e)));
        assert(q.to_multiset() =~= q.to_multiset().remove(f(e)).insert(f(e)));
    } else {
        assert(p =~= q);
    }
}

/// Each position occurs once among the positions in order, and the items at
/// them are the items in order.
pub proof fn lemma_positions(items: Seq<Seq<char>>, le: spec_fn(Seq<char>, Seq<char>) -> bool)
    requires
        total_ordering(le),
    ensures
        positions_by(items, le).len() == items.len(),
        positions_by(items, le).to_multiset() == all_positions(items.len()).to_multiset(),
        positions_by(items, le).no_duplicates(),
        forall|k: int|
            0 <= k < items.len() ==> 0 <= #[trigger] positions_by(items, le)[k] < items.len(),
        forall|i: int| 0 <= i < items.len() ==> #[trigger] positions_by(items, le).contains(i),
        positions_by(items, le).map_values(|i: int| items[i]) == items.sort_by(le),
{
    broadcast use group_to_multiset_ensures;

    let all = all_positions(items.len());
    let r = not_behind(items, le);
    let p = positions_by(items, le);
    lemma_not_behind(items, le);
    all.lemma_sort_by_ensures(r);
    to_multiset_len(all);
    to_multiset_len(p);
    assert forall|k: int| 0 <= k < items.len() implies 0 <= #[trigger] p[k] < items.len() by {
        assert(p.contains(p[k]));
        assert(p.to_multiset().count(p[k]) > 0);
        assert(all.contains(p[k]));
    }
    assert forall|i: int| 0 <= i < items.len() implies #[trigger] p.contains(i) by {
        assert(all[i] == i);
        assert(all.contains(i));
        assert(all.to_multiset().count(i) > 0);
    }
    all.lemma_multiset_has_no_duplicates();
    assert(p.to_multiset().dom() =~= all.to_multiset().dom());
    p.lemma_multiset_has_no_duplicates_conv();
    let at = |i: int| items[i];
    lemma_map_multiset(p, all, at);
    assert(all.map_values(at) =~= items);
    let sorted = p.map_values(at);
    assert forall|i: int, j: int| 0 <= i < j < sorted.len() implies #[trigger] le(
        sorted[i],
        sorted[j],
    ) by {
        assert(r(p[i], p[j]));
        if items[p[i]] == items[p[j]] {
            assert(le(sorted[i], sorted[j]));
        }
    }
    items.lemma_sort_by_ensures(le);
    lemma_sorted_unique(sorted, items.sort_by(le), le);
}

/// Positions, as integers.
pub open spec fn ints(v: Seq<usize>) -> Seq<int> {
    v.map_values(|i: usize| i as int)
}

/// Is the text at `i` not behind that at `j`?
fn in_order(v: &Vec<String>, i: usize, j: usize, by_path: bool) -> (r: bool)
    requires
        i < v@.len(),
        j < v@.len(),
    ensures
        r == not_behind(texts(v@), order_le(by_path))(i as int, j as int),
{
    assert(texts(v@)[i as int] == v@[i as int]@);
    assert(texts(v@)[j as int] == v@[j as int]@);
    if v[i] == v[j] {
        i <= j
    } else if by_path {
        path_before(v[i].as_str(), v[j].as_str())
    } else {
        text_before(v[i].as_str(), v[j].as_str())
    }
}

/// Merges two lists of positions, each in order.
fn merge(v: &Vec<String>, a: &Vec<usize>, b: &Vec<usize>, by_path: bool) -> (r: Vec<usize>)
    requires
        forall|k: int| 0 <= k < a@.len() ==> #[trigger] a@[k] < v@.len(),
        forall|k: int| 0 <= k < b@.len() ==> #[trigger] b@[k] < v@.len(),
        sorted_by(ints(a@), not_behind(texts(v@), order_le(by_path))),
        sorted_by(ints(b@), not_behind(texts(v@), order_le(by_path))),
    ensures
        forall|k: int| 0 <= k < r@.len() ==> #[trigger] r@[k] < v@.len(),
        sorted_by(ints(r@), not_behind(texts(v@), order_le(by_path))),
        ints(r@).to_multiset() == ints(a@).to_multiset().add(ints(b@).to_multiset()),
{
    let ghost le = not_behind(texts(v@), order_le(by_path));
    let ghost x = ints(a@);
    let ghost y = ints(b@);
    let mut out: Vec<usize> = Vec::new();
    let mut i: usize = 0;
    let mut j: usize = 0;
    proof {
        lemma_text_order();
        lemma_path_order();
        lemma_not_behind(texts(v@), order_le(by_path));
        assert(ints(out@) =~= Seq::empty());
        assert(x.take(0) =~= Seq::empty());
        assert(y.take(0) =~= Seq::empty());
        to_multiset_len(ints(out@));
        assert(ints(out@).to_multiset().len() == 0);
        assert(x.take(0).to_multiset().add(y.take(0).to_multiset()) =~= ints(out@).to_multiset());
    }
    while i < a.len() || j < b.len()
        invariant
            i <= a@.len(),
            j <= b@.len(),
            forall|k: int| 0 <= k < a@.len() ==> #[trigger] a@[k] < v@.len(),
            forall|k: int| 0 <= k < b@.len() ==> #[trigger] b@[k] < v@.len(),
            forall|k: int| 0 <= k < out@.len() ==> #[trigger] out@[k] < v@.len(),
            x == ints(a@),
            y == ints(b@),
            le == not_behind(texts(v@), order_le(by_path)),
            total_ordering(le),
            sorted_by(x, le),
            sorted_by(y, le),
            sorted_by(ints(out@), le),
            forall|m: int, k: int|
                #![trigger ints(out@)[m], x[k]]
                0 <= m < out@.len() && i <= k < x.len() ==> le(ints(out@)[m], x[k]),
            forall|m: int, k: int|
                #![trigger ints(out@)[m], y[k]]
                0 <= m < out@.len() && j <= k < y.len() ==> le(ints(out@)[m], y[k]),
            ints(out@).to_multiset() == x.take(i as int).to_multiset().add(
                y.take(j as int).to_multiset(),
            ),
        decreases a.len() - i + b.len() - j,
    {
        let left = j >= b.len() || (i < a.len() && in_order(v, a[i], b[j], by_path));
        let ghost before = ints(out@);
        let next: usize = if left {
            a[i]
        } else {
            b[j]
        };
        let ghost item = next as int;
        proof {
            to_multiset_build(before, item);
            if left {
                assert(item == x[i as int]);
                assert(x.take(i as int + 1) =~= x.take(i as int).push(item));
                to_multiset_build(x.take(i as int), item);
                assert(x.take(i as int).to_multiset().insert(item).add(
                    y.take(j as int).to_multiset(),
                ) =~= before.to_multiset().insert(item));
                assert forall|k: int| i < k < x.len() implies le(item, #[trigger] x[k]) by {
                    assert(le(x[i as int], x[k]));
                }
                assert forall|k: int| j <= k < y.len() implies le(item, #[trigger] y[k]) by {
                    assert(y[j as int] == b@[j as int] as int);
                    assert(le(item, y[j as int]));
                    if j < k {
                        assert(le(y[j as int], y[k]));
                    }
                }
            } else {
                assert(item == y[j as int]);
                assert(y.take(j as int + 1) =~= y.take(j as int).push(item));
                to_multiset_build(y.take(j as int), item);
                assert(x.take(i as int).to_multiset().add(
                    y.take(j as int).to_multiset().insert(item),
                ) =~= before.to_multiset().insert(item));
                assert forall|k: int| j < k < y.len() implies le(item, #[trigger] y[k]) by {
                    assert(le(y[j as int], y[k]));
                }
                assert forall|k: int| i <= k < x.len() implies le(item, #[trigger] x[k]) by {
                    assert(x[i as int] == a@[i as int] as int);
                    assert(le(item, x[i as int]) || le(x[i as int], item));
                    if i < k {
                        assert(le(x[i as int], x[k]));
                    }
                }
            }
            let after = before.push(item);
            assert forall|p: int, q: int| 0 <= p < q < after.len() implies #[trigger] le(
                after[p],
                after[q],
            ) by {
                if q < before.len() {
                    assert(le(before[p], before[q]));
                } else if left {
                    assert(le(before[p], x[i as int]));
                } else {
                    assert(le(before[p], y[j as int]));
                }
            }
        }
        out.push(next);
        proof {
            let after = ints(out@);
            assert(after =~= before.push(item));
            assert forall|m: int, k: int|
                #![trigger after[m], x[k]]
                0 <= m < after.len() && (if left {
                    i + 1
                } else {
                    i as int
                }) <= k < x.len() implies le(after[m], x[k]) by {
                if m < before.len() {
                    assert(after[m] == before[m]);
                }
            }
            assert forall|m: int, k: int|
                #![trigger after[m], y[k]]
                0 <= m < after.len() && (if left {
                    j as int
                } else {
                    j + 1
                }) <= k < y.len() implies le(after[m], y[k]) by {
                if m < before.len() {
                    assert(after[m] == before[m]);
                }
            }
        }
        if left {
            i += 1;
        } else {
            j += 1;
        }
    }
    assert(x.take(i as int) =~= x);
    assert(y.take(j as int) =~= y);
    out
}

/// The positions from `from` to before `to`, in order.
fn sort_range(v: &Vec<String>, from: usize, to: usize, by_path: bool) -> (r: Vec<usize>)
    requires
        from <= to <= v@.len(),
    ensures
        forall|k: int| 0 <= k < r@.len() ==> #[trigger] r@[k] < v@.len(),
        sorted_by(ints(r@), not_behind(texts(v@), order_le(by_path))),
        ints(r@).to_multiset() == all_positions(v@.len()).subrange(
            from as int,
            to as int,
        ).to_multiset(),
    decreases to - from,
{
    let ghost all = all_positions(v@.len());
    if to - from < 2 {
        let mut r: Vec<usize> = Vec::new();
        if from < to {
            r.push(from);
        }
        assert(ints(r@) =~= all.subrange(from as int, to as int));
        r
    } else {
        let mid: usize = from + (to - from) / 2;
        let a = sort_range(v, from, mid, by_path);
        let b = sort_range(v, mid, to, by_path);
        proof {
            let p = all.subrange(from as int, mid as int);
            let q = all.subrange(mid as int, to as int);
            assert(p + q =~= all.subrange(from as int, to as int));
            lemma_multiset_commutative(p, q);
        }
        merge(v, &a, &b, by_path)
    }
}

fn sort_positions(v: &Vec<String>, by_path: bool) -> (r: Vec<usize>)
    ensures
        ints(r@) == positions_by(texts(v@), order_le(by_path)),
{
    let out = sort_range(v, 0, v.len(), by_path);
    proof {
        let all = all_positions(v@.len());
        let le = not_behind(texts(v@), order_le(by_path));
        assert(all.subrange(0, v@.len() as int) =~= all);
        assert(all_positions(texts(v@).len()) == all);
        lemma_text_order();
        lemma_path_order();
        lemma_not_behind(texts(v@), order_le(by_path));
        all.lemma_sort_by_ensures(le);
        lemma_sorted_unique(ints(out@), all.sort_by(le), le);
    }
    out
}

fn sort_by_order(v: Vec<String>, by_path: bool) -> (r: Vec<String>)
    ensures
        texts(r@) == texts(v@).sort_by(order_le(by_path)),
{
    let at = sort_positions(&v, by_path);
    let ghost all = texts(v@);
    let ghost p = positions_by(all, order_le(by_path));
    proof {
        lemma_text_order();
        lemma_path_order();
        lemma_positions(all, order_le(by_path));
    }
    let ghost sorted = p.map_values(|i: int| all[i]);
    let mut out: Vec<String> = Vec::new();
    let mut k: usize = 0;
    assert(texts(out@) =~= sorted.take(0));
    while k < at.len()
        invariant
            k <= at@.len(),
            all == texts(v@),
            ints(at@) == p,
            p.len() == all.len(),
            forall|m: int| 0 <= m < p.len() ==> 0 <= #[trigger] p[m] < all.len(),
            sorted == p.map_values(|i: int| all[i]),
            texts(out@) == sorted.take(k as int),
        decreases at.len() - k,
    {
        assert(p[k as int] == at@[k as int] as int);
        proof {
            lemma_texts_push(out@, v@[at@[k as int] as int]);
            assert(sorted.take(k as int + 1) =~= sorted.take(k as int).push(sorted[k as int]));
        }
        out.push(v[at[k]].clone());
        k += 1;
    }
    assert(sorted.take(k as int) =~= sorted);
    out
}

/// The positions of the paths in their order, those of equal paths in the order
/// in which they stand.
pub fn path_positions(v: &Vec<String>) -> (r: Vec<usize>)
    ensures
        ints(r@) == positions_by(texts(v@), path_le()),
{
    sort_positions(v, true)
}

/// The texts in order.
pub fn sort_texts(v: Vec<String>) -> (r: Vec<String>)
    ensures
        texts(r@) == texts(v@).sort_by(text_le()),
{
    sort_by_order(v, false)
}

/// The paths in order.
pub fn sort_paths(v: Vec<String>) -> (r: Vec<String>)
    ensures
        texts(r@) == texts(v@).sort_by(path_le()),
{
    sort_by_order(v, true)
}

} // verus!
