//! What the proofs of the laws have in common.
use vstd::prelude::*;
use crate::number::{all_digits, decimal, decimal_value, digit_char};
use crate::order::{lemma_text_order, text_le};
use crate::text::{
    contains_text, is_space, join, lemma_split_nonempty, occurs_at, split, split_spaces, terminated,
    trim, trim_end, trim_start, words,
};
use crate::text_map::keys_in_order;

verus! {

/// What occurs in a part of a text occurs in the text.
pub proof fn lemma_occurs(before: Seq<char>, t: Seq<char>, after: Seq<char>)
    ensures
        contains_text(before + t + after, t),
{
    let s = before + t + after;
    assert(s.subrange(before.len() as int, (before.len() + t.len()) as int) =~= t);
    assert(occurs_at(s, t, before.len() as int));
}

/// What occurs in a part of a text occurs in the text.
pub proof fn lemma_occurs_within(before: Seq<char>, s: Seq<char>, after: Seq<char>, t: Seq<char>)
    requires
        contains_text(s, t),
    ensures
        contains_text(before + s + after, t),
{
    let i = choose|i: int| #[trigger] occurs_at(s, t, i);
    let all = before + s + after;
    let k = before.len() + i;
    assert(all.subrange(k, k + t.len()) =~= s.subrange(i, i + t.len()));
    assert(occurs_at(all, t, k));
}

/// Splitting at every separator splits at a given one.
pub proof fn lemma_split_at(a: Seq<char>, b: Seq<char>, c: char)
    ensures
        split(a + seq![c] + b, c) == split(a, c) + split(b, c),
    decreases b.len(),
{
    let s = a + seq![c] + b;
    if b.len() == 0 {
        assert(s.drop_last() =~= a);
        assert(s.last() == c);
        assert(b =~= Seq::empty());
        assert(split(s, c) =~= split(a, c) + split(b, c));
    } else {
        lemma_split_at(a, b.drop_last(), c);
        lemma_split_nonempty(b.drop_last(), c);
        let x = split(a, c);
        let y = split(b.drop_last(), c);
        assert(s.drop_last() =~= a + seq![c] + b.drop_last());
        assert(s.last() == b.last());
        assert((x + y).last() == y.last());
        assert((x + y).drop_last() =~= x + y.drop_last());
        assert(split(s, c) =~= x + split(b, c));
    }
}

/// A text without the separator is one part.
pub proof fn lemma_split_whole(s: Seq<char>, c: char)
    requires
        !s.contains(c),
    ensures
        split(s, c) == seq![s],
    decreases s.len(),
{
    if s.len() == 0 {
        assert(s =~= Seq::empty());
        assert(split(s, c) =~= seq![s]);
    } else {
        assert(s.contains(s.last()));
        assert forall|d: char| s.drop_last().contains(d) implies s.contains(d) by {
            let i = s.drop_last().index_of(d);
            assert(s.drop_last()[i] == d);
            assert(s[i] == d);
        }
        lemma_split_whole(s.drop_last(), c);
        assert(s.drop_last().push(s.last()) =~= s);
        assert(split(s, c) =~= seq![s]);
    }
}

/// Parts without the separator are the parts of what they are joined to.
pub proof fn lemma_join_split(parts: Seq<Seq<char>>, c: char)
    requires
        parts.len() > 0,
        forall|i: int| 0 <= i < parts.len() ==> !(#[trigger] parts[i]).contains(c),
    ensures
        split(join(parts, seq![c]), c) == parts,
    decreases parts.len(),
{
    if parts.len() == 1 {
        lemma_split_whole(parts[0], c);
        assert(seq![parts[0]] =~= parts);
    } else {
        let front = parts.drop_last();
        assert forall|i: int| 0 <= i < front.len() implies !(#[trigger] front[i]).contains(c) by {
            assert(front[i] == parts[i]);
        }
        lemma_join_split(front, c);
        lemma_split_at(join(front, seq![c]), parts.last(), c);
        lemma_split_whole(parts[parts.len() - 1], c);
        assert(front + seq![parts.last()] =~= parts);
    }
}

/// What a separator follows can be told from what both make together.
pub proof fn lemma_cut<A>(a: Seq<A>, x: Seq<A>, b: Seq<A>, y: Seq<A>, c: A)
    requires
        !a.contains(c),
        !b.contains(c),
        a + seq![c] + x == b + seq![c] + y,
    ensures
        a == b,
        x == y,
{
    let s = a + seq![c] + x;
    let t = b + seq![c] + y;
    if a.len() < b.len() {
        assert(s[a.len() as int] == c);
        assert(t[a.len() as int] == b[a.len() as int]);
        assert(b.contains(b[a.len() as int]));
    } else if b.len() < a.len() {
        assert(t[b.len() as int] == c);
        assert(s[b.len() as int] == a[b.len() as int]);
        assert(a.contains(a[b.len() as int]));
    }
    assert(a =~= s.take(a.len() as int));
    assert(b =~= t.take(a.len() as int));
    assert(x =~= s.skip(a.len() as int + 1));
    assert(y =~= t.skip(a.len() as int + 1));
}

/// What precedes is the same, so what follows is.
pub proof fn lemma_same_tail<A>(p: Seq<A>, x: Seq<A>, y: Seq<A>)
    requires
        p + x == p + y,
    ensures
        x == y,
{
    assert(x =~= (p + x).skip(p.len() as int));
    assert(y =~= (p + y).skip(p.len() as int));
}

/// The first of the items stands first.
pub proof fn lemma_terminated_first(items: Seq<Seq<char>>, end: Seq<char>)
    requires
        items.len() > 0,
    ensures
        terminated(items, end) == items[0] + end + terminated(items.skip(1), end),
    decreases items.len(),
{
    if items.len() == 1 {
        assert(items.skip(1) =~= Seq::empty());
        assert(items.drop_last() =~= Seq::empty());
        assert(terminated(items.drop_last(), end) =~= Seq::empty());
        assert(terminated(items, end) =~= items[0] + end + terminated(items.skip(1), end));
    } else {
        lemma_terminated_first(items.drop_last(), end);
        assert(items.drop_last().skip(1) =~= items.skip(1).drop_last());
        assert(items.skip(1).last() == items.last());
        assert(terminated(items, end) =~= items[0] + end + terminated(items.skip(1), end));
    }
}

/// Every item occurs in what the items make together, with its end.
pub proof fn lemma_terminated_occurs(items: Seq<Seq<char>>, end: Seq<char>, i: int)
    requires
        0 <= i < items.len(),
    ensures
        contains_text(terminated(items, end), items[i] + end),
    decreases items.len(),
{
    let front = items.drop_last();
    let none = Seq::<char>::empty();
    let before = terminated(front, end);
    let all = terminated(items, end);
    let own = items[i] + end;
    if i == items.len() - 1 {
        assert(all =~= before + own + none);
        lemma_occurs(before, own, none);
    } else {
        let last = items.last() + end;
        assert(all =~= none + before + last);
        assert(front[i] == items[i]);
        lemma_terminated_occurs(front, end, i);
        lemma_occurs_within(none, before, last, own);
    }
}

/// The keys in order are the keys.
pub proof fn lemma_keys_listed<V>(m: Map<Seq<char>, V>)
    requires
        m.dom().finite(),
    ensures
        forall|k: Seq<char>| #[trigger] keys_in_order(m).contains(k) == m.dom().contains(k),
        keys_in_order(m).len() == m.dom().len(),
{
    broadcast use vstd::seq_lib::group_to_multiset_ensures;

    let listed = m.dom().to_seq();
    m.dom().lemma_to_seq_to_set_id();
    lemma_text_order();
    listed.lemma_sort_by_ensures(text_le());
    let sorted = keys_in_order(m);
    assert forall|k: Seq<char>| #[trigger] sorted.contains(k) == m.dom().contains(k) by {
        assert(sorted.contains(k) == (sorted.to_multiset().count(k) > 0));
        assert(listed.contains(k) == (listed.to_multiset().count(k) > 0));
        assert(listed.contains(k) == listed.to_set().contains(k));
    }
    vstd::seq_lib::to_multiset_len(sorted);
    vstd::seq_lib::to_multiset_len(listed);
    lemma_listing_len(m.dom());
}

proof fn lemma_listing_len(s: Set<Seq<char>>)
    requires
        s.finite(),
    ensures
        s.to_seq().len() == s.len(),
    decreases s.len(),
{
    if s.len() > 0 {
        let x = s.choose();
        lemma_listing_len(s.remove(x));
    }
}

/// Are all characters blanks, tabs or line ends?
pub open spec fn is_blank(s: Seq<char>) -> bool {
    forall|i: int|
        0 <= i < s.len() ==> (#[trigger] s[i] == ' ' || s[i] == '\t' || s[i] == '\n' || s[i] == '\r')
}

proof fn lemma_trim_front(a: Seq<char>, m: Seq<char>)
    requires
        is_blank(a),
        m.len() > 0,
        !is_space(m[0]),
    ensures
        trim_start(a + m) == m,
    decreases a.len(),
{
    let s = a + m;
    if a.len() == 0 {
        assert(s =~= m);
    } else {
        assert(s[0] == a[0]);
        assert(s.skip(1) =~= a.skip(1) + m);
        lemma_trim_front(a.skip(1), m);
    }
}

proof fn lemma_trim_back(m: Seq<char>, b: Seq<char>)
    requires
        is_blank(b),
        m.len() > 0,
        !is_space(m.last()),
    ensures
        trim_end(m + b) == m,
    decreases b.len(),
{
    let s = m + b;
    if b.len() == 0 {
        assert(s =~= m);
    } else {
        assert(s.last() == b.last());
        assert(b.last() == b[b.len() - 1]);
        assert(s.drop_last() =~= m + b.drop_last());
        lemma_trim_back(m, b.drop_last());
    }
}

/// Trimming takes off the blanks at both ends, and nothing else.
pub proof fn lemma_trim(a: Seq<char>, m: Seq<char>, b: Seq<char>)
    requires
        is_blank(a),
        is_blank(b),
        m.len() > 0,
        !is_space(m[0]),
        !is_space(m.last()),
    ensures
        trim(a + m + b) == m,
{
    assert(a + m + b =~= a + (m + b));
    assert((m + b)[0] == m[0]);
    lemma_trim_front(a, m + b);
    lemma_trim_back(m, b);
}

proof fn lemma_spaces_nonempty(s: Seq<char>)
    ensures
        split_spaces(s).len() > 0,
    decreases s.len(),
{
    if s.len() > 0 {
        lemma_spaces_nonempty(s.drop_last());
    }
}

proof fn lemma_spaces_at(a: Seq<char>, c: char, b: Seq<char>)
    requires
        is_space(c),
    ensures
        split_spaces(a + seq![c] + b) == split_spaces(a) + split_spaces(b),
    decreases b.len(),
{
    let s = a + seq![c] + b;
    if b.len() == 0 {
        assert(s.drop_last() =~= a);
        assert(s.last() == c);
        assert(b =~= Seq::empty());
        assert(split_spaces(s) =~= split_spaces(a) + split_spaces(b));
    } else {
        lemma_spaces_at(a, c, b.drop_last());
        lemma_spaces_nonempty(b.drop_last());
        let x = split_spaces(a);
        let y = split_spaces(b.drop_last());
        assert(s.drop_last() =~= a + seq![c] + b.drop_last());
        assert(s.last() == b.last());
        assert((x + y).last() == y.last());
        assert((x + y).drop_last() =~= x + y.drop_last());
        assert(split_spaces(s) =~= x + split_spaces(b));
    }
}

proof fn lemma_spaces_none(s: Seq<char>)
    requires
        forall|i: int| 0 <= i < s.len() ==> !is_space(#[trigger] s[i]),
    ensures
        split_spaces(s) == seq![s],
    decreases s.len(),
{
    if s.len() == 0 {
        assert(s =~= Seq::empty());
        assert(split_spaces(s) =~= seq![s]);
    } else {
        let t = s.drop_last();
        assert forall|i: int| 0 <= i < t.len() implies !is_space(#[trigger] t[i]) by {
            assert(t[i] == s[i]);
        }
        lemma_spaces_none(t);
        assert(!is_space(s[s.len() - 1]));
        assert(t.push(s.last()) =~= s);
        assert(split_spaces(s) =~= seq![s]);
    }
}

/// A blank parts words.
pub proof fn lemma_words_at(a: Seq<char>, c: char, b: Seq<char>)
    requires
        is_space(c),
    ensures
        words(a + seq![c] + b) == words(a) + words(b),
{
    let keep = |w: Seq<char>| w.len() > 0;
    lemma_spaces_at(a, c, b);
    Seq::filter_distributes_over_add(split_spaces(a), split_spaces(b), keep);
}

/// What holds no blank is one word.
pub proof fn lemma_word(w: Seq<char>)
    requires
        w.len() > 0,
        forall|i: int| 0 <= i < w.len() ==> !is_space(#[trigger] w[i]),
    ensures
        words(w) == seq![w],
{
    lemma_spaces_none(w);
    reveal_with_fuel(Seq::filter, 2);
    let one = seq![w];
    assert(one.drop_last() =~= Seq::empty());
    assert(words(w) =~= one);
}

/// Blanks alone make no word.
pub proof fn lemma_no_word()
    ensures
        words(Seq::empty()) == Seq::<Seq<char>>::empty(),
{
    let none = Seq::<char>::empty();
    assert(split_spaces(none) =~= seq![none]);
    reveal_with_fuel(Seq::filter, 2);
    assert(seq![none].drop_last() =~= Seq::empty());
    assert(words(none) =~= Seq::empty());
}

/// Leading blanks do not matter to the words.
pub proof fn lemma_words_behind(a: Seq<char>, s: Seq<char>)
    requires
        is_blank(a),
    ensures
        words(a + s) == words(s),
    decreases a.len(),
{
    if a.len() == 0 {
        assert(a + s =~= s);
    } else {
        let none = Seq::<char>::empty();
        assert(a[0] == ' ' || a[0] == '\t' || a[0] == '\n' || a[0] == '\r');
        assert(a + s =~= none + seq![a[0]] + (a.skip(1) + s));
        lemma_words_at(none, a[0], a.skip(1) + s);
        lemma_no_word();
        lemma_words_behind(a.skip(1), s);
        assert(Seq::<Seq<char>>::empty() + words(s) =~= words(s));
    }
}

/// A number written in decimal is read back, and is written in decimal digits.
pub proof fn lemma_decimal(n: nat)
    ensures
        all_digits(decimal(n)),
        decimal_value(decimal(n)) == n,
        forall|i: int| 0 <= i < decimal(n).len() ==> '0' <= #[trigger] decimal(n)[i] <= '9',
    decreases n,
{
    let s = decimal(n);
    if n < 10 {
        assert(s =~= seq![digit_char(n, false)]);
        assert(s.drop_last() =~= Seq::empty());
        assert(decimal_value(s.drop_last()) == 0);
    } else {
        let t = decimal(n / 10);
        lemma_decimal(n / 10);
        assert(s == t.push(digit_char(n % 10, false)));
        assert(s.drop_last() =~= t);
        assert forall|i: int| 0 <= i < s.len() implies '0' <= #[trigger] s[i] <= '9' by {
            if i < t.len() {
                assert(s[i] == t[i]);
            }
        }
    }
}

} // verus!
