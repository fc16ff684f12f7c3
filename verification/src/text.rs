//! Text as sequences of characters.
//!
//! A `str` is modelled by its characters (`s@`). The functions here are the
//! searches, splits and trims that the rest of the library needs, each stated
//! over that model.
use vstd::prelude::*;

verus! {

/// `String::push`: appends one character.
pub assume_specification[ String::push ](s: &mut String, c: char)
    ensures
        final(s)@ == old(s)@.push(c),
;

/// A text in quotes, with escapes, as `{:?}` writes it.
pub uninterp spec fn quoted(text: Seq<char>) -> Seq<char>;

/// `format!` with `{:?}` on a `str`: the text in quotes, with escapes. What comes
/// out depends on the text alone.
#[verifier::external_body]
pub(crate) fn debug_text(s: &str) -> (r: String)
    ensures
        r@ == quoted(s@),
{
    format!("{s:?}")
}

/// The views of a sequence of strings.
pub open spec fn texts(v: Seq<String>) -> Seq<Seq<char>> {
    Seq::new(v.len(), |i: int| v[i]@)
}

/// Appending a string appends its view.
pub broadcast proof fn lemma_texts_push(v: Seq<String>, s: String)
    ensures
        #[trigger] texts(v.push(s)) == texts(v).push(s@),
{
    assert(texts(v.push(s)) =~= texts(v).push(s@));
}

/// Is `c` whitespace (the Unicode `White_Space` property)?
pub open spec fn is_space(c: char) -> bool {
    ||| '\u{9}' <= c <= '\u{d}'
    ||| c == ' '
    ||| c == '\u{85}'
    ||| c == '\u{a0}'
    ||| c == '\u{1680}'
    ||| '\u{2000}' <= c <= '\u{200a}'
    ||| c == '\u{2028}'
    ||| c == '\u{2029}'
    ||| c == '\u{202f}'
    ||| c == '\u{205f}'
    ||| c == '\u{3000}'
}

/// Does `t` occur in `s`?
pub open spec fn contains_text(s: Seq<char>, t: Seq<char>) -> bool {
    exists|i: int| #[trigger] occurs_at(s, t, i)
}

/// Does `t` occur in `s` at position `i`?
pub open spec fn occurs_at(s: Seq<char>, t: Seq<char>, i: int) -> bool {
    0 <= i && i + t.len() <= s.len() && s.subrange(i, i + t.len()) == t
}

/// The parts of `s` between occurrences of `c`; a text without `c` is one part.
pub open spec fn split(s: Seq<char>, c: char) -> Seq<Seq<char>>
    decreases s.len(),
{
    if s.len() == 0 {
        seq![s]
    } else {
        let before = split(s.drop_last(), c);
        if s.last() == c {
            before.push(Seq::empty())
        } else {
            before.drop_last().push(before.last().push(s.last()))
        }
    }
}

/// The parts one after another, with `sep` between neighbours.
pub open spec fn join(parts: Seq<Seq<char>>, sep: Seq<char>) -> Seq<char>
    decreases parts.len(),
{
    if parts.len() == 0 {
        Seq::empty()
    } else if parts.len() == 1 {
        parts[0]
    } else {
        join(parts.drop_last(), sep) + sep + parts.last()
    }
}

/// `s` without a carriage return at its end.
pub open spec fn without_carriage_return(s: Seq<char>) -> Seq<char> {
    if s.len() > 0 && s.last() == '\r' {
        s.drop_last()
    } else {
        s
    }
}

/// The lines of `s`: what stands between line feeds, each without a carriage
/// return at its end. Nothing after the last line feed is no line.
pub open spec fn lines(s: Seq<char>) -> Seq<Seq<char>> {
    let parts = split(s, '\n');
    let whole = if parts.last().len() == 0 {
        parts.drop_last()
    } else {
        parts
    };
    whole.map_values(|l: Seq<char>| without_carriage_return(l))
}

/// `s` without the occurrences of `c` that it starts with.
pub open spec fn trim_start_char(s: Seq<char>, c: char) -> Seq<char>
    decreases s.len(),
{
    if s.len() > 0 && s[0] == c {
        trim_start_char(s.skip(1), c)
    } else {
        s
    }
}

/// `s` without the occurrences of `c` that it ends with.
pub open spec fn trim_end_char(s: Seq<char>, c: char) -> Seq<char>
    decreases s.len(),
{
    if s.len() > 0 && s.last() == c {
        trim_end_char(s.drop_last(), c)
    } else {
        s
    }
}

/// `s` without the whitespace that it starts with.
pub open spec fn trim_start(s: Seq<char>) -> Seq<char>
    decreases s.len(),
{
    if s.len() > 0 && is_space(s[0]) {
        trim_start(s.skip(1))
    } else {
        s
    }
}

/// `s` without the whitespace that it ends with.
pub open spec fn trim_end(s: Seq<char>) -> Seq<char>
    decreases s.len(),
{
    if s.len() > 0 && is_space(s.last()) {
        trim_end(s.drop_last())
    } else {
        s
    }
}

/// `s` without whitespace at either end.
pub open spec fn trim(s: Seq<char>) -> Seq<char> {
    trim_end(trim_start(s))
}

/// `s` with every `c` replaced by `with`.
pub open spec fn replace_char(s: Seq<char>, c: char, with: Seq<char>) -> Seq<char>
    decreases s.len(),
{
    if s.len() == 0 {
        s
    } else {
        replace_char(s.drop_last(), c, with) + if s.last() == c {
            with
        } else {
            seq![s.last()]
        }
    }
}

/// The parts of `s` between single whitespace characters.
pub open spec fn split_spaces(s: Seq<char>) -> Seq<Seq<char>>
    decreases s.len(),
{
    if s.len() == 0 {
        seq![s]
    } else {
        let before = split_spaces(s.drop_last());
        if is_space(s.last()) {
            before.push(Seq::empty())
        } else {
            before.drop_last().push(before.last().push(s.last()))
        }
    }
}

/// The words of `s`: what stands between whitespace.
pub open spec fn words(s: Seq<char>) -> Seq<Seq<char>> {
    split_spaces(s).filter(|w: Seq<char>| w.len() > 0)
}

/// Splitting gives at least one part.
pub proof fn lemma_split_nonempty(s: Seq<char>, c: char)
    ensures
        split(s, c).len() > 0,
    decreases s.len(),
{
    if s.len() > 0 {
        lemma_split_nonempty(s.drop_last(), c);
    }
}

/// No part of a split holds the separator.
pub proof fn lemma_split_parts(s: Seq<char>, c: char)
    ensures
        forall|i: int| 0 <= i < split(s, c).len() ==> !(#[trigger] split(s, c)[i]).contains(c),
    decreases s.len(),
{
    if s.len() > 0 {
        let before = split(s.drop_last(), c);
        lemma_split_parts(s.drop_last(), c);
        lemma_split_nonempty(s.drop_last(), c);
        assert forall|i: int| 0 <= i < split(s, c).len() implies !(#[trigger] split(
            s,
            c,
        )[i]).contains(c) by {
            if s.last() != c && i == before.len() - 1 {
                assert(!before[i].contains(c));
                let p = before.last().push(s.last());
                assert(split(s, c)[i] == p);
                if p.contains(c) {
                    let k = p.index_of(c);
                    assert(p[k] == c);
                    assert(k < before.last().len());
                    assert(before.last()[k] == c);
                }
            } else if i < before.len() {
                assert(split(s, c)[i] == before[i]);
            }
        }
    }
}

/// Joining the parts of a split with the separator gives the text back.
pub proof fn lemma_split_join(s: Seq<char>, c: char)
    ensures
        join(split(s, c), seq![c]) == s,
    decreases s.len(),
{
    if s.len() > 0 {
        let before = split(s.drop_last(), c);
        lemma_split_join(s.drop_last(), c);
        lemma_split_nonempty(s.drop_last(), c);
        let after = split(s, c);
        if s.last() == c {
            assert(after.drop_last() =~= before);
            assert(join(after, seq![c]) == join(before, seq![c]) + seq![c] + Seq::empty());
            assert(s =~= s.drop_last() + seq![c] + Seq::empty());
        } else {
            assert(after.drop_last() =~= before.drop_last());
            if before.len() > 1 {
                let head = join(before.drop_last(), seq![c]) + seq![c];
                assert(s.drop_last() == head + before.last());
                assert(s =~= s.drop_last().push(s.last()));
                assert(head + before.last().push(s.last()) =~= (head + before.last()).push(
                    s.last(),
                ));
            } else {
                assert(after[0] =~= s);
            }
        }
    }
}

/// The characters of `s`.
pub fn chars_of(s: &str) -> (r: Vec<char>)
    ensures
        r@ == s@,
{
    let mut out: Vec<char> = Vec::new();
    for c in it: s.chars()
        invariant
            it.seq() == s@,
            out@ == s@.take(it.index() as int),
    {
        assert(s@.take(it.index() as int + 1) =~= s@.take(it.index() as int).push(c));
        out.push(c);
    }
    assert(s@.take(s@.len() as int) =~= s@);
    out
}

/// The text made of the characters `v[from..to]`.
pub fn text_of(v: &Vec<char>, from: usize, to: usize) -> (r: String)
    requires
        from <= to <= v@.len(),
    ensures
        r@ == v@.subrange(from as int, to as int),
{
    let mut out = String::new();
    let mut i: usize = from;
    while i < to
        invariant
            from <= i <= to <= v@.len(),
            out@ == v@.subrange(from as int, i as int),
        decreases to - i,
    {
        assert(v@.subrange(from as int, i as int + 1) =~= v@.subrange(from as int, i as int).push(
            v@[i as int],
        ));
        out.push(v[i]);
        i += 1;
    }
    out
}

/// Do the two texts hold the same characters?
pub fn same(a: &str, b: &str) -> (r: bool)
    ensures
        r == (a@ == b@),
{
    let x = chars_of(a);
    let y = chars_of(b);
    if x.len() != y.len() {
        return false;
    }
    let mut i: usize = 0;
    while i < x.len()
        invariant
            i <= x.len(),
            x@ == a@,
            y@ == b@,
            x@.len() == y@.len(),
            forall|j: int| 0 <= j < i ==> x@[j] == y@[j],
        decreases x.len() - i,
    {
        if x[i] != y[i] {
            assert(a@[i as int] != b@[i as int]);
            return false;
        }
        i += 1;
    }
    assert(a@ =~= b@);
    true
}

/// Is `c` whitespace?
pub fn is_whitespace(c: char) -> (r: bool)
    ensures
        r == is_space(c),
{
    ('\u{9}' <= c && c <= '\u{d}') || c == ' ' || c == '\u{85}' || c == '\u{a0}' || c == '\u{1680}'
        || ('\u{2000}' <= c && c <= '\u{200a}') || c == '\u{2028}' || c == '\u{2029}' || c
        == '\u{202f}' || c == '\u{205f}' || c == '\u{3000}'
}

/// Do the characters `v[at..]` start with `t`?
fn matches_at(v: &Vec<char>, t: &Vec<char>, at: usize) -> (r: bool)
    requires
        at <= v@.len(),
    ensures
        r == occurs_at(v@, t@, at as int),
{
    if t.len() > v.len() - at {
        return false;
    }
    let mut i: usize = 0;
    while i < t.len()
        invariant
            i <= t@.len(),
            at + t@.len() <= v.len(),
            forall|j: int| 0 <= j < i ==> v@[at + j] == t@[j],
        decreases t.len() - i,
    {
        if v[at + i] != t[i] {
            assert(v@.subrange(at as int, at + t@.len())[i as int] != t@[i as int]);
            return false;
        }
        i += 1;
    }
    assert(v@.subrange(at as int, at + t@.len()) =~= t@);
    true
}

/// Does `s` start with `p`?
pub fn starts_with(s: &str, p: &str) -> (r: bool)
    ensures
        r == p@.is_prefix_of(s@),
{
    matches_at(&chars_of(s), &chars_of(p), 0)
}

/// What follows `p` in `s`, where `s` starts with `p`.
pub fn strip_prefix(s: &str, p: &str) -> (r: Option<String>)
    ensures
        match r {
            Some(x) => p@.is_prefix_of(s@) && x@ == s@.skip(p@.len() as int),
            None => !p@.is_prefix_of(s@),
        },
{
    let v = chars_of(s);
    let t = chars_of(p);
    if matches_at(&v, &t, 0) {
        Some(text_of(&v, t.len(), v.len()))
    } else {
        None
    }
}

/// What precedes `p` in `s`, where `s` ends with `p`.
pub fn strip_suffix(s: &str, p: &str) -> (r: Option<String>)
    ensures
        match r {
            Some(x) => p@.is_suffix_of(s@) && x@ == s@.take(s@.len() - p@.len()),
            None => !p@.is_suffix_of(s@),
        },
{
    let v = chars_of(s);
    let t = chars_of(p);
    if t.len() > v.len() {
        return None;
    }
    if matches_at(&v, &t, v.len() - t.len()) {
        Some(text_of(&v, 0, v.len() - t.len()))
    } else {
        None
    }
}

/// The first position at which `t` occurs in `v`, from `from` on.
fn find_from(v: &Vec<char>, t: &Vec<char>, from: usize) -> (r: Option<usize>)
    requires
        from <= v@.len(),
    ensures
        match r {
            Some(i) => from <= i <= v@.len() && occurs_at(v@, t@, i as int) && forall|j: int|
                from <= j < i ==> !occurs_at(v@, t@, j),
            None => forall|j: int| from <= j ==> !occurs_at(v@, t@, j),
        },
{
    let mut i: usize = from;
    loop
        invariant
            from <= i <= v@.len(),
            forall|j: int| from <= j < i ==> !occurs_at(v@, t@, j),
        decreases v.len() - i,
    {
        if matches_at(v, t, i) {
            return Some(i);
        }
        if i == v.len() {
            return None;
        }
        i += 1;
    }
}

/// Does `t` occur in `s`?
pub fn contains(s: &str, t: &str) -> (r: bool)
    ensures
        r == contains_text(s@, t@),
{
    match find_from(&chars_of(s), &chars_of(t), 0) {
        Some(i) => {
            assert(occurs_at(s@, t@, i as int));
            true
        },
        None => false,
    }
}

/// What precedes and what follows the first occurrence of `t` in `s`.
pub open spec fn split_once_spec(s: Seq<char>, t: Seq<char>) -> Option<(Seq<char>, Seq<char>)> {
    if contains_text(s, t) {
        let i = first_occurrence(s, t);
        Some((s.take(i), s.skip(i + t.len())))
    } else {
        None
    }
}

/// The first position at which `t` occurs in `s`.
pub open spec fn first_occurrence(s: Seq<char>, t: Seq<char>) -> int {
    choose|i: int| #[trigger] occurs_at(s, t, i) && forall|j: int| 0 <= j < i ==> !occurs_at(s, t, j)
}

/// What precedes and what follows the first occurrence of `t` in `s`.
pub fn split_once(s: &str, t: &str) -> (r: Option<(String, String)>)
    ensures
        match r {
            Some(x) => split_once_spec(s@, t@) == Some((x.0@, x.1@)),
            None => split_once_spec(s@, t@) is None,
        },
{
    let v = chars_of(s);
    let w = chars_of(t);
    match find_from(&v, &w, 0) {
        Some(i) => {
            proof {
                assert(occurs_at(s@, t@, i as int));
                let k = first_occurrence(s@, t@);
                assert(occurs_at(s@, t@, k) && forall|j: int|
                    0 <= j < k ==> !occurs_at(s@, t@, j));
                assert(k == i);
            }
            let n = v.len();
            assert(s@.take(i as int) =~= s@.subrange(0, i as int));
            assert(i + w.len() <= n);
            Some((text_of(&v, 0, i), text_of(&v, i + w.len(), n)))
        },
        None => None,
    }
}

/// `s` without the occurrences of `c` at its start.
pub fn trim_start_matches(s: &str, c: char) -> (r: String)
    ensures
        r@ == trim_start_char(s@, c),
{
    let v = chars_of(s);
    let mut i: usize = 0;
    assert(v@.skip(0) =~= v@);
    while i < v.len() && v[i] == c
        invariant
            i <= v@.len(),
            v@ == s@,
            trim_start_char(v@.skip(i as int), c) == trim_start_char(s@, c),
        decreases v.len() - i,
    {
        assert(v@.skip(i as int).skip(1) =~= v@.skip(i as int + 1));
        i += 1;
    }
    assert(v@.skip(i as int) =~= v@.subrange(i as int, v@.len() as int));
    text_of(&v, i, v.len())
}

/// `s` without the occurrences of `c` at its end.
pub fn trim_end_matches(s: &str, c: char) -> (r: String)
    ensures
        r@ == trim_end_char(s@, c),
{
    let v = chars_of(s);
    let mut i: usize = v.len();
    assert(v@.take(i as int) =~= v@);
    while i > 0 && v[i - 1] == c
        invariant
            i <= v@.len(),
            v@ == s@,
            trim_end_char(v@.take(i as int), c) == trim_end_char(s@, c),
        decreases i,
    {
        assert(v@.take(i as int).drop_last() =~= v@.take(i as int - 1));
        i -= 1;
    }
    assert(v@.take(i as int) =~= v@.subrange(0, i as int));
    text_of(&v, 0, i)
}

/// `s` without whitespace at either end.
pub fn trimmed(s: &str) -> (r: String)
    ensures
        r@ == trim(s@),
{
    let v = chars_of(s);
    let mut i: usize = 0;
    assert(v@.skip(0) =~= v@);
    while i < v.len() && is_whitespace(v[i])
        invariant
            i <= v@.len(),
            v@ == s@,
            trim_start(v@.skip(i as int)) == trim_start(s@),
        decreases v.len() - i,
    {
        assert(v@.skip(i as int).skip(1) =~= v@.skip(i as int + 1));
        i += 1;
    }
    let mut j: usize = v.len();
    assert(v@.skip(i as int) =~= v@.subrange(i as int, j as int));
    while j > i && is_whitespace(v[j - 1])
        invariant
            i <= j <= v@.len(),
            v@ == s@,
            trim_end(v@.subrange(i as int, j as int)) == trim(s@),
        decreases j,
    {
        assert(v@.subrange(i as int, j as int).drop_last() =~= v@.subrange(i as int, j as int - 1));
        j -= 1;
    }
    text_of(&v, i, j)
}

/// The parts of `s` between occurrences of `c`.
pub fn split_on(s: &str, c: char) -> (r: Vec<String>)
    ensures
        texts(r@) == split(s@, c),
        r@.len() > 0,
{
    let v = chars_of(s);
    let mut out: Vec<String> = Vec::new();
    let mut start: usize = 0;
    let mut i: usize = 0;
    proof {
        assert(v@.take(0) =~= Seq::<char>::empty());
        assert(v@.subrange(0, 0) =~= Seq::<char>::empty());
        assert(texts(out@).push(v@.subrange(0, 0)) =~= seq![Seq::<char>::empty()]);
    }
    while i < v.len()
        invariant
            start <= i <= v@.len(),
            v@ == s@,
            split(v@.take(i as int), c) == texts(out@).push(
                v@.subrange(start as int, i as int),
            ),
        decreases v.len() - i,
    {
        proof {
            assert(v@.take(i as int + 1).drop_last() =~= v@.take(i as int));
            assert(v@.take(i as int + 1).last() == v@[i as int]);
        }
        if v[i] == c {
            let part = text_of(&v, start, i);
            proof {
                broadcast use lemma_texts_push;

                assert(v@.subrange(i as int + 1, i as int + 1) =~= Seq::<char>::empty());
            }
            out.push(part);
            start = i + 1;
        } else {
            proof {
                let before = texts(out@).push(v@.subrange(start as int, i as int));
                assert(before.drop_last() =~= texts(out@));
                assert(v@.subrange(start as int, i as int + 1) =~= v@.subrange(
                    start as int,
                    i as int,
                ).push(v@[i as int]));
            }
        }
        i += 1;
    }
    let part = text_of(&v, start, i);
    proof {
        broadcast use lemma_texts_push;

        assert(v@.take(i as int) =~= s@);
    }
    out.push(part);
    out
}

/// The parts one after another, with `sep` between neighbours.
pub fn joined(parts: &Vec<String>, sep: &str) -> (r: String)
    ensures
        r@ == join(texts(parts@), sep@),
{
    let mut out = String::new();
    let mut i: usize = 0;
    while i < parts.len()
        invariant
            i <= parts@.len(),
            out@ == join(texts(parts@).take(i as int), sep@),
        decreases parts.len() - i,
    {
        let ghost all = texts(parts@);
        proof {
            assert(all.take(i as int + 1).drop_last() =~= all.take(i as int));
        }
        if i > 0 {
            out.append(sep);
        }
        out.append(parts[i].as_str());
        proof {
            if i == 0 {
                assert(out@ =~= all[0]);
            }
        }
        i += 1;
    }
    assert(texts(parts@).take(i as int) =~= texts(parts@));
    out
}

/// The lines of `s`.
pub fn lines_of(s: &str) -> (r: Vec<String>)
    ensures
        texts(r@) == lines(s@),
{
    let mut parts = split_on(s, '\n');
    let ghost all = split(s@, '\n');
    let last = parts.len() - 1;
    assert(all.last() == parts@[last as int]@);
    if parts[last].as_str().is_empty() {
        let _ = parts.pop();
        assert(texts(parts@) =~= all.drop_last());
    }
    let ghost whole = texts(parts@);
    let mut out: Vec<String> = Vec::new();
    let mut i: usize = 0;
    while i < parts.len()
        invariant
            i <= parts@.len(),
            texts(parts@) == whole,
            texts(out@) == whole.take(i as int).map_values(
                |l: Seq<char>| without_carriage_return(l),
            ),
        decreases parts.len() - i,
    {
        let line = chars_of(parts[i].as_str());
        let n = line.len();
        assert(line@ == whole[i as int]);
        let kept = if n > 0 && line[n - 1] == '\r' {
            text_of(&line, 0, n - 1)
        } else {
            text_of(&line, 0, n)
        };
        proof {
            broadcast use lemma_texts_push;

            assert(kept@ =~= without_carriage_return(whole[i as int]));
            assert(whole.take(i as int + 1).map_values(
                |l: Seq<char>| without_carriage_return(l),
            ) =~= whole.take(i as int).map_values(|l: Seq<char>| without_carriage_return(l)).push(
                kept@,
            ));
        }
        out.push(kept);
        i += 1;
    }
    assert(whole.take(i as int) =~= whole);
    out
}

/// `s` with every `c` replaced by `with`.
pub fn replaced(s: &str, c: char, with: &str) -> (r: String)
    ensures
        r@ == replace_char(s@, c, with@),
{
    let v = chars_of(s);
    let mut out = String::new();
    let mut i: usize = 0;
    assert(v@.take(0) =~= Seq::<char>::empty());
    while i < v.len()
        invariant
            i <= v@.len(),
            v@ == s@,
            out@ == replace_char(v@.take(i as int), c, with@),
        decreases v.len() - i,
    {
        proof {
            assert(v@.take(i as int + 1).drop_last() =~= v@.take(i as int));
            assert(v@.take(i as int + 1).last() == v@[i as int]);
            assert(out@.push(v@[i as int]) =~= out@ + seq![v@[i as int]]);
        }
        if v[i] == c {
            out.append(with);
        } else {
            out.push(v[i]);
        }
        i += 1;
    }
    assert(v@.take(i as int) =~= s@);
    out
}

/// The words of `s`.
pub fn words_of(s: &str) -> (r: Vec<String>)
    ensures
        texts(r@) == words(s@),
{
    let v = chars_of(s);
    let ghost keep = |w: Seq<char>| w.len() > 0;
    let mut out: Vec<String> = Vec::new();
    let ghost mut done: Seq<Seq<char>> = Seq::empty();
    let mut start: usize = 0;
    let mut i: usize = 0;
    proof {
        reveal(Seq::filter);
        assert(v@.take(0) =~= Seq::<char>::empty());
        assert(v@.subrange(0, 0) =~= Seq::<char>::empty());
        assert(done.push(v@.subrange(0, 0)) =~= seq![Seq::<char>::empty()]);
        assert(texts(out@) =~= done.filter(keep));
    }
    while i < v.len()
        invariant
            start <= i <= v@.len(),
            v@ == s@,
            keep == (|w: Seq<char>| w.len() > 0),
            split_spaces(v@.take(i as int)) == done.push(v@.subrange(start as int, i as int)),
            texts(out@) == done.filter(keep),
        decreases v.len() - i,
    {
        proof {
            assert(v@.take(i as int + 1).drop_last() =~= v@.take(i as int));
            assert(v@.take(i as int + 1).last() == v@[i as int]);
        }
        if is_whitespace(v[i]) {
            let part = text_of(&v, start, i);
            proof {
                broadcast use lemma_texts_push;

                reveal(Seq::filter);
                assert(done.push(part@).drop_last() =~= done);
                assert(v@.subrange(i as int + 1, i as int + 1) =~= Seq::<char>::empty());
                done = done.push(part@);
            }
            if !part.as_str().is_empty() {
                out.push(part);
            }
            start = i + 1;
        } else {
            proof {
                assert(done.push(v@.subrange(start as int, i as int)).drop_last() =~= done);
                assert(v@.subrange(start as int, i as int + 1) =~= v@.subrange(
                    start as int,
                    i as int,
                ).push(v@[i as int]));
            }
        }
        i += 1;
    }
    let part = text_of(&v, start, i);
    proof {
        broadcast use lemma_texts_push;

        reveal(Seq::filter);
        assert(done.push(part@).drop_last() =~= done);
        assert(v@.take(i as int) =~= v@);
    }
    if !part.as_str().is_empty() {
        out.push(part);
    }
    out
}

/// The two texts one after the other.
pub fn concat2(a: &str, b: &str) -> (r: String)
    ensures
        r@ == a@ + b@,
{
    let mut r = String::from_str(a);
    r.append(b);
    r
}

/// The three texts one after another.
pub fn concat3(a: &str, b: &str, c: &str) -> (r: String)
    ensures
        r@ == a@ + b@ + c@,
{
    let mut r = concat2(a, b);
    r.append(c);
    r
}

/// The four texts one after another.
pub fn concat4(a: &str, b: &str, c: &str, d: &str) -> (r: String)
    ensures
        r@ == a@ + b@ + c@ + d@,
{
    let mut r = concat3(a, b, c);
    r.append(d);
    r
}

/// The five texts one after another.
pub fn concat5(a: &str, b: &str, c: &str, d: &str, e: &str) -> (r: String)
    ensures
        r@ == a@ + b@ + c@ + d@ + e@,
{
    let mut r = concat4(a, b, c, d);
    r.append(e);
    r
}

/// The items one after another, each with `end` behind it.
pub open spec fn terminated(items: Seq<Seq<char>>, end: Seq<char>) -> Seq<char>
    decreases items.len(),
{
    if items.len() == 0 {
        Seq::empty()
    } else {
        terminated(items.drop_last(), end) + items.last() + end
    }
}

/// Items in which the end mark does not occur can be told from what they make
/// together.
pub proof fn lemma_terminated_injective(a: Seq<Seq<char>>, b: Seq<Seq<char>>, end: char)
    requires
        forall|i: int| 0 <= i < a.len() ==> !(#[trigger] a[i]).contains(end),
        forall|i: int| 0 <= i < b.len() ==> !(#[trigger] b[i]).contains(end),
        terminated(a, seq![end]) == terminated(b, seq![end]),
    ensures
        a == b,
    decreases a.len(),
{
    let x = terminated(a, seq![end]);
    if a.len() == 0 || b.len() == 0 {
        assert(a =~= b);
    } else {
        let p = terminated(a.drop_last(), seq![end]);
        let q = terminated(b.drop_last(), seq![end]);
        lemma_ends_with_mark(a.drop_last(), end);
        lemma_ends_with_mark(b.drop_last(), end);
        assert(x == p + a.last() + seq![end]);
        assert(x == q + b.last() + seq![end]);
        assert(x.len() == p.len() + a.last().len() + 1);
        assert(x.len() == q.len() + b.last().len() + 1);
        if p.len() < q.len() {
            assert(x[q.len() - 1] == q[q.len() - 1]);
            assert(x[q.len() - 1] == a.last()[q.len() - 1 - p.len()]);
            assert(a.last().contains(end));
        } else if q.len() < p.len() {
            assert(x[p.len() - 1] == p[p.len() - 1]);
            assert(x[p.len() - 1] == b.last()[p.len() - 1 - q.len()]);
            assert(b.last().contains(end));
        }
        assert(x.take(p.len() as int) =~= p);
        assert(x.take(p.len() as int) =~= q);
        assert(x.subrange(p.len() as int, x.len() - 1) =~= a.last());
        assert(x.subrange(p.len() as int, x.len() - 1) =~= b.last());
        lemma_terminated_injective(a.drop_last(), b.drop_last(), end);
        assert(a =~= a.drop_last().push(a.last()));
        assert(b =~= b.drop_last().push(b.last()));
    }
}

proof fn lemma_ends_with_mark(items: Seq<Seq<char>>, end: char)
    ensures
        items.len() > 0 ==> terminated(items, seq![end]).len() > 0 && terminated(
            items,
            seq![end],
        ).last() == end,
        items.len() == 0 ==> terminated(items, seq![end]).len() == 0,
{
}

/// The items of two lists stand one after another.
pub proof fn lemma_terminated_concat(a: Seq<Seq<char>>, b: Seq<Seq<char>>, end: Seq<char>)
    ensures
        terminated(a + b, end) == terminated(a, end) + terminated(b, end),
    decreases b.len(),
{
    if b.len() == 0 {
        assert(a + b =~= a);
        assert(terminated(a, end) + terminated(b, end) =~= terminated(a, end));
    } else {
        lemma_terminated_concat(a, b.drop_last(), end);
        assert((a + b).drop_last() =~= a + b.drop_last());
        assert(terminated(a + b, end) =~= terminated(a, end) + terminated(b, end));
    }
}

} // verus!
