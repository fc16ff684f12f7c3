//! Texts and numbers: what is cut apart is put together again, what is written is
//! read back, and what is put in order is in order.
use vstd::prelude::*;
use crate::laws::aid::{
    is_blank, lemma_decimal, lemma_join_split, lemma_split_at, lemma_split_whole, lemma_trim,
    lemma_word, lemma_words_at,
};
use crate::number::{decimal, read_signed, read_unsigned, write_decimal};
use crate::order::{
    lemma_path_order, lemma_text_order, lex_lt_at, char_lt, path_before, path_le, sort_paths,
    sort_texts, text_before, text_le, text_lt,
};
use crate::text::{
    contains, contains_text, is_space, is_whitespace, joined, lemma_split_join, lemma_split_parts,
    lines, lines_of, occurs_at, replace_char, replaced, split, split_on, split_once, strip_prefix,
    strip_suffix, texts, trim_end_char, trim_end_matches, trim_start_char, trim_start_matches,
    trimmed, words_of,
};

verus! {

/// A number below ten is one digit; a larger one is written as its tenth, and then
/// its last digit.
pub proof fn lemma_digits(n: u128, d: u128, r: String, tenth: String)
    requires
        call_ensures(write_decimal, (n,), r),
        call_ensures(write_decimal, ((n / 10) as u128,), tenth),
        d == n % 10,
    ensures
        n < 10 ==> r@.len() == 1 && r@[0] as int == '0' as int + n,
        n >= 10 ==> r@.len() == tenth@.len() + 1 && r@.drop_last() == tenth@ && r@.last() as int
            == '0' as int + d,
{
    if n >= 10 {
        assert(decimal(n as nat).drop_last() =~= decimal((n / 10) as nat));
    }
}

/// A number that is written is read back, with a sign too.
pub proof fn lemma_read_back(
    n: u64,
    max: u64,
    r: String,
    s: &str,
    x: Option<u64>,
    t: &str,
    min: i64,
    top: i64,
    y: Option<i64>,
    z: Option<i64>,
)
    requires
        call_ensures(write_decimal, (n as u128,), r),
        s@ == r@,
        call_ensures(read_unsigned, (s, max), x),
        t@ == seq!['-'] + r@,
        min <= 0 <= top,
        call_ensures(read_signed, (s, min, top), y),
        call_ensures(read_signed, (t, min, top), z),
    ensures
        n <= max ==> x == Some(n),
        n > max ==> x is None,
        n <= top ==> (y matches Some(v) && v == n),
        n > top ==> y is None,
        min <= -(n as int) ==> (z matches Some(v) && v == -(n as int)),
        min > -(n as int) ==> z is None,
{
    lemma_decimal(n as nat);
    assert(decimal(n as nat)[0] >= '0');
    assert('+' < '0' && '-' < '0');
    assert(t@.skip(1) =~= r@);
    assert(t@[0] == '-');
}

/// What holds a character that is no digit, behind a sign, is no number.
pub proof fn lemma_no_number(s: &str, max: u64, r: Option<u64>, i: int)
    requires
        call_ensures(read_unsigned, (s, max), r),
        s@.len() == 0 || (0 <= i < s@.len() && !('0' <= s@[i] <= '9') && (i > 0 || s@[0] != '+')),
    ensures
        r is None,
{
    if s@.len() > 0 {
        let digits = if s@[0] == '+' {
            s@.skip(1)
        } else {
            s@
        };
        if s@[0] == '+' {
            assert(digits[i - 1] == s@[i]);
        } else {
            assert(digits[i] == s@[i]);
        }
        assert(!crate::number::all_digits(digits));
    }
}

/// Spaces, tabs and line ends are blank; letters, digits and the marks of paths are
/// not.
pub proof fn lemma_blanks(c: char, r: bool)
    requires
        call_ensures(is_whitespace, (c,), r),
    ensures
        c == ' ' || c == '\t' || c == '\n' || c == '\r' ==> r,
        '!' <= c <= '~' ==> !r,
{
}

/// Blanks are taken from both ends, and nothing else.
pub proof fn lemma_blanks_taken(a: Seq<char>, m: Seq<char>, b: Seq<char>, s: &str, r: String)
    requires
        call_ensures(trimmed, (s,), r),
        s@ == a + m + b,
        is_blank(a),
        is_blank(b),
        m.len() > 0,
        '!' <= m[0] <= '~',
        '!' <= m.last() <= '~',
    ensures
        r@ == m,
{
    lemma_trim(a, m, b);
}

/// A text is cut at every mark and nowhere else: put together with the mark it is
/// the text again.
pub proof fn lemma_cut_and_joined(
    s: &str,
    c: char,
    mark: &str,
    parts: Vec<String>,
    r: String,
    i: int,
)
    requires
        call_ensures(split_on, (s, c), parts),
        mark@ == seq![c],
        call_ensures(joined, (&parts, mark), r),
    ensures
        r@ == s@,
        0 <= i < parts@.len() ==> !parts@[i]@.contains(c),
{
    lemma_split_join(s@, c);
    lemma_split_parts(s@, c);
    if 0 <= i < parts@.len() {
        assert(texts(parts@)[i] == parts@[i]@);
        assert(!split(s@, c)[i].contains(c));
    }
}

/// Parts without the mark are found again in what they are joined to.
pub proof fn lemma_joined_and_cut(
    parts: &Vec<String>,
    c: char,
    mark: &str,
    r: String,
    s: &str,
    q: Vec<String>,
)
    requires
        call_ensures(joined, (parts, mark), r),
        mark@ == seq![c],
        s@ == r@,
        call_ensures(split_on, (s, c), q),
        parts@.len() > 0,
        forall|i: int| 0 <= i < parts@.len() ==> !(#[trigger] parts@[i])@.contains(c),
    ensures
        texts(q@) == texts(parts@),
{
    let p = texts(parts@);
    assert forall|i: int| 0 <= i < p.len() implies !(#[trigger] p[i]).contains(c) by {
        assert(p[i] == parts@[i]@);
    }
    lemma_join_split(p, c);
}

/// A line that ends is one line; what stands behind it is the lines behind it.
#[verifier::rlimit(40)]
pub proof fn lemma_first_line(first: Seq<char>, rest: &str, s: &str, r: Vec<String>, q: Vec<String>)
    requires
        call_ensures(lines_of, (s,), r),
        call_ensures(lines_of, (rest,), q),
        !first.contains('\n'),
        first.len() > 0 ==> first.last() != '\r',
        s@ == first + seq!['\n'] + rest@ || s@ == first + seq!['\r', '\n'] + rest@,
    ensures
        texts(r@) == seq![first] + texts(q@),
{
    let ended = if s@ == first + seq!['\n'] + rest@ {
        first
    } else {
        first.push('\r')
    };
    assert(s@ =~= ended + seq!['\n'] + rest@);
    assert(!ended.contains('\n')) by {
        if ended.contains('\n') {
            let k = ended.index_of('\n');
            assert(ended[k] == '\n');
            assert(k < first.len());
            assert(first[k] == '\n');
        }
    }
    lemma_split_at(ended, rest@, '\n');
    lemma_split_whole(ended, '\n');
    crate::text::lemma_split_nonempty(rest@, '\n');
    let parts = split(s@, '\n');
    let tail = split(rest@, '\n');
    assert(parts == seq![ended] + tail);
    assert(parts.last() == tail.last());
    if tail.last().len() == 0 {
        assert(parts.drop_last() =~= seq![ended] + tail.drop_last());
    }
    assert(ended.len() > first.len() ==> ended.drop_last() =~= first);
    assert(crate::text::without_carriage_return(ended) == first);
    assert(lines(s@) =~= seq![first] + lines(rest@));
}

/// A text without a line end is one line, and nothing is none.
pub proof fn lemma_one_line_only(s: &str, r: Vec<String>)
    requires
        call_ensures(lines_of, (s,), r),
        !s@.contains('\n'),
        s@.len() > 0 ==> s@.last() != '\r',
    ensures
        s@.len() == 0 ==> r@.len() == 0,
        s@.len() > 0 ==> r@.len() == 1 && r@[0]@ == s@,
{
    lemma_split_whole(s@, '\n');
    assert(texts(r@).len() == r@.len());
    assert(split(s@, '\n').last() == s@);
    if s@.len() > 0 {
        assert(texts(r@)[0] == r@[0]@);
    }
}

/// A word is one word, and blanks part the words around them.
pub proof fn lemma_words_parted(
    a: Seq<char>,
    c: char,
    b: &str,
    s: &str,
    r: Vec<String>,
    q: Vec<String>,
)
    requires
        call_ensures(words_of, (s,), r),
        call_ensures(words_of, (b,), q),
        s@ == a + seq![c] + b@,
        c == ' ' || c == '\t' || c == '\n' || c == '\r',
        a.len() > 0,
        forall|i: int| 0 <= i < a.len() ==> '!' <= #[trigger] a[i] <= '~',
    ensures
        texts(r@) == seq![a] + texts(q@),
{
    lemma_words_at(a, c, b@);
    assert forall|i: int| 0 <= i < a.len() implies !is_space(#[trigger] a[i]) by {}
    lemma_word(a);
}

proof fn lemma_replace_concat(a: Seq<char>, b: Seq<char>, c: char, with: Seq<char>)
    ensures
        replace_char(a + b, c, with) == replace_char(a, c, with) + replace_char(b, c, with),
    decreases b.len(),
{
    if b.len() == 0 {
        assert(a + b =~= a);
        assert(replace_char(a, c, with) + replace_char(b, c, with) =~= replace_char(a, c, with));
    } else {
        lemma_replace_concat(a, b.drop_last(), c, with);
        assert((a + b).drop_last() =~= a + b.drop_last());
        let x = if b.last() == c {
            with
        } else {
            seq![b.last()]
        };
        assert(replace_char(a, c, with) + replace_char(b.drop_last(), c, with) + x =~= replace_char(
            a,
            c,
            with,
        ) + (replace_char(b.drop_last(), c, with) + x));
    }
}

proof fn lemma_replace_nothing(s: Seq<char>, c: char, with: Seq<char>)
    requires
        !s.contains(c),
    ensures
        replace_char(s, c, with) == s,
    decreases s.len(),
{
    if s.len() > 0 {
        assert(s[s.len() - 1] != c);
        assert(!s.drop_last().contains(c)) by {
            if s.drop_last().contains(c) {
                let k = s.drop_last().index_of(c);
                assert(s[k] == c);
            }
        }
        lemma_replace_nothing(s.drop_last(), c, with);
        assert(s.drop_last() + seq![s.last()] =~= s);
    }
}

/// A character is replaced wherever it stands, and everything else is kept.
pub proof fn lemma_replaced(
    a: Seq<char>,
    c: char,
    b: &str,
    with: &str,
    s: &str,
    r: String,
    q: String,
)
    requires
        call_ensures(replaced, (s, c, with), r),
        call_ensures(replaced, (b, c, with), q),
        s@ == a + seq![c] + b@,
        !a.contains(c),
    ensures
        r@ == a + with@ + q@,
        !b@.contains(c) ==> q@ == b@,
{
    lemma_replace_concat(a + seq![c], b@, c, with@);
    lemma_replace_concat(a, seq![c], c, with@);
    lemma_replace_nothing(a, c, with@);
    reveal_with_fuel(replace_char, 2);
    assert(seq![c].drop_last() =~= Seq::empty());
    assert(replace_char(seq![c], c, with@) =~= with@);
    if !b@.contains(c) {
        lemma_replace_nothing(b@, c, with@);
    }
}

/// A text holds another exactly where it is that other with something before and
/// behind.
pub proof fn lemma_holds(s: &str, t: &str, r: bool)
    requires
        call_ensures(contains, (s, t), r),
    ensures
        r <==> exists|a: Seq<char>, b: Seq<char>| s@ == #[trigger] (a + t@ + b),
{
    if r {
        let i = choose|i: int| #[trigger] occurs_at(s@, t@, i);
        let a = s@.take(i);
        let b = s@.skip(i + t@.len());
        assert(s@.subrange(i, i + t@.len()) == t@);
        assert(s@ =~= a + t@ + b) by {
            assert forall|k: int| 0 <= k < s@.len() implies s@[k] == (a + t@ + b)[k] by {
                if i <= k < i + t@.len() {
                    assert(s@.subrange(i, i + t@.len())[k - i] == s@[k]);
                }
            }
        }
    }
    if exists|a: Seq<char>, b: Seq<char>| s@ == #[trigger] (a + t@ + b) {
        let (a, b) = choose|a: Seq<char>, b: Seq<char>| s@ == #[trigger] (a + t@ + b);
        crate::laws::aid::lemma_occurs(a, t@, b);
    }
}

proof fn lemma_first_mark(a: Seq<char>, c: char, b: Seq<char>)
    requires
        !a.contains(c),
    ensures
        contains_text(a + seq![c] + b, seq![c]),
        crate::text::first_occurrence(a + seq![c] + b, seq![c]) == a.len(),
{
    let s = a + seq![c] + b;
    let t = seq![c];
    let n = a.len() as int;
    assert(s.subrange(n, n + 1) =~= t);
    assert(occurs_at(s, t, n));
    assert forall|j: int| 0 <= j < n implies !occurs_at(s, t, j) by {
        if occurs_at(s, t, j) {
            assert(s.subrange(j, j + 1)[0] == c);
            assert(a[j] == c);
        }
    }
    let i = crate::text::first_occurrence(s, t);
    assert(occurs_at(s, t, i) && forall|j: int| 0 <= j < i ==> !occurs_at(s, t, j));
}

proof fn lemma_no_mark(a: Seq<char>, c: char)
    requires
        !a.contains(c),
    ensures
        !contains_text(a, seq![c]),
{
    if contains_text(a, seq![c]) {
        let i = choose|i: int| #[trigger] occurs_at(a, seq![c], i);
        assert(a.subrange(i, i + 1)[0] == c);
        assert(a[i] == c);
    }
}

/// A text is cut in two at the first mark, and not where there is none.
pub proof fn lemma_cut_once(
    a: Seq<char>,
    c: char,
    b: Seq<char>,
    s: &str,
    whole: &str,
    t: &str,
    r: Option<(String, String)>,
    q: Option<(String, String)>,
)
    requires
        call_ensures(split_once, (s, t), r),
        call_ensures(split_once, (whole, t), q),
        t@ == seq![c],
        !a.contains(c),
        s@ == a + seq![c] + b,
        whole@ == a,
    ensures
        r matches Some(x) && x.0@ == a && x.1@ == b,
        q is None,
{
    lemma_first_mark(a, c, b);
    lemma_no_mark(a, c);
    let n = a.len() as int;
    assert(s@.take(n) =~= a);
    assert(s@.skip(n + 1) =~= b);
}

/// A prefix and a suffix are taken off where the text has them.
pub proof fn lemma_ends_taken(
    p: &str,
    rest: Seq<char>,
    s: &str,
    t: &str,
    r: Option<String>,
    q: Option<String>,
)
    requires
        s@ == p@ + rest,
        t@ == rest + p@,
        call_ensures(strip_prefix, (s, p), r),
        call_ensures(strip_suffix, (t, p), q),
    ensures
        r matches Some(x) && x@ == rest,
        q matches Some(x) && x@ == rest,
{
    assert(p@.is_prefix_of(s@));
    assert(s@.skip(p@.len() as int) =~= rest);
    assert(p@.is_suffix_of(t@));
    assert(t@.take(t@.len() - p@.len()) =~= rest);
}

proof fn lemma_marks_taken_start(n: nat, c: char, m: Seq<char>)
    requires
        m.len() > 0 ==> m[0] != c,
    ensures
        trim_start_char(Seq::new(n, |i: int| c) + m, c) == m,
    decreases n,
{
    let a = Seq::new(n, |i: int| c);
    if n == 0 {
        assert(a + m =~= m);
    } else {
        let fewer = Seq::new((n - 1) as nat, |i: int| c);
        assert((a + m).skip(1) =~= fewer + m);
        lemma_marks_taken_start((n - 1) as nat, c, m);
        assert((a + m)[0] == c);
    }
}

proof fn lemma_marks_taken_end(n: nat, c: char, m: Seq<char>)
    requires
        m.len() > 0 ==> m.last() != c,
    ensures
        trim_end_char(m + Seq::new(n, |i: int| c), c) == m,
    decreases n,
{
    let a = Seq::new(n, |i: int| c);
    if n == 0 {
        assert(m + a =~= m);
    } else {
        let fewer = Seq::new((n - 1) as nat, |i: int| c);
        assert((m + a).drop_last() =~= m + fewer);
        lemma_marks_taken_end((n - 1) as nat, c, m);
        assert((m + a).last() == c);
    }
}

/// All marks at one end are taken off, and nothing else.
pub proof fn lemma_marks_taken(
    n: nat,
    c: char,
    m: Seq<char>,
    s: &str,
    t: &str,
    r: String,
    q: String,
)
    requires
        call_ensures(trim_start_matches, (s, c), r),
        call_ensures(trim_end_matches, (t, c), q),
        s@ == Seq::new(n, |i: int| c) + m,
        t@ == m + Seq::new(n, |i: int| c),
    ensures
        (m.len() > 0 ==> m[0] != c) ==> r@ == m,
        (m.len() > 0 ==> m.last() != c) ==> q@ == m,
{
    if m.len() > 0 ==> m[0] != c {
        lemma_marks_taken_start(n, c, m);
    }
    if m.len() > 0 ==> m.last() != c {
        lemma_marks_taken_end(n, c, m);
    }
}

/// Of two texts the one comes first whose character is smaller where they differ
/// first; a text comes before one that goes on behind it. No text comes before
/// itself.
pub proof fn lemma_text_order_by_character(
    p: Seq<char>,
    x: Seq<char>,
    y: Seq<char>,
    a: &str,
    b: &str,
    r: bool,
    back: bool,
)
    requires
        call_ensures(text_before, (a, b), r),
        call_ensures(text_before, (b, a), back),
        a@ == p + x,
        b@ == p + y,
    ensures
        x.len() == 0 && y.len() == 0 ==> !r,
        x.len() == 0 && y.len() > 0 ==> r && !back,
        x.len() > 0 && y.len() > 0 && x[0] < y[0] ==> r && !back,
{
    lemma_text_order();
    let n = p.len() as int;
    let lt = crate::order::text_lt_fn();
    assert(lt(a@, b@) == text_lt(a@, b@));
    assert(lt(b@, a@) == text_lt(b@, a@));
    assert(!lt(a@, a@));
    if x.len() == 0 && y.len() == 0 {
        assert(a@ =~= b@);
    }
    if (x.len() == 0 && y.len() > 0) || (x.len() > 0 && y.len() > 0 && x[0] < y[0]) {
        if x.len() > 0 {
            assert(a@[n] == x[0]);
        }
        assert(b@[n] == y[0]);
        assert(lex_lt_at(a@, b@, char_lt(), n));
        assert(lt(a@, b@) && lt(b@, a@) ==> lt(a@, a@));
    }
}

/// Texts that are sorted are the same texts, and none stands behind one that comes
/// after it.
pub proof fn lemma_sorted(
    v: Vec<String>,
    r: Vec<String>,
    i: int,
    j: int,
    a: &str,
    b: &str,
    before: bool,
)
    requires
        call_ensures(sort_texts, (v,), r),
        0 <= i < j < r@.len(),
        a@ == r@[i]@,
        b@ == r@[j]@,
        call_ensures(text_before, (b, a), before),
    ensures
        texts(r@).to_multiset() == texts(v@).to_multiset(),
        r@.len() == v@.len(),
        !before,
{
    lemma_text_order();
    let items = texts(v@);
    items.lemma_sort_by_ensures(text_le());
    items.to_multiset_ensures();
    texts(r@).to_multiset_ensures();
    let s = texts(r@);
    assert(s[i] == a@ && s[j] == b@);
    assert(text_le()(s[i], s[j]));
    let lt = crate::order::text_lt_fn();
    assert(lt(a@, b@) == text_lt(a@, b@));
    assert(lt(b@, a@) == text_lt(b@, a@));
    assert(!lt(a@, a@));
    assert(lt(a@, b@) && lt(b@, a@) ==> lt(a@, a@));
}

/// Of paths in order, none stands behind one that comes after it.
pub proof fn lemma_in_path_order(items: Seq<Seq<char>>, i: int, j: int)
    requires
        0 <= i <= j < items.sort_by(path_le()).len(),
    ensures
        !crate::order::path_lt(items.sort_by(path_le())[j], items.sort_by(path_le())[i]),
{
    lemma_path_order();
    items.lemma_sort_by_ensures(path_le());
    let s = items.sort_by(path_le());
    lemma_path_irreflexive(s[i]);
    if i < j {
        assert(path_le()(s[i], s[j]));
        if crate::order::path_lt(s[j], s[i]) {
            assert(path_le()(s[j], s[i]));
            assert(s[i] == s[j]);
        }
    }
}

/// Paths that are sorted are the same paths, and none stands behind one that comes
/// after it by its names.
pub proof fn lemma_paths_sorted(
    v: Vec<String>,
    r: Vec<String>,
    i: int,
    j: int,
    a: &str,
    b: &str,
    before: bool,
)
    requires
        call_ensures(sort_paths, (v,), r),
        0 <= i < j < r@.len(),
        a@ == r@[i]@,
        b@ == r@[j]@,
        call_ensures(path_before, (b, a), before),
    ensures
        texts(r@).to_multiset() == texts(v@).to_multiset(),
        r@.len() == v@.len(),
        !before,
{
    lemma_path_order();
    let items = texts(v@);
    items.lemma_sort_by_ensures(path_le());
    items.to_multiset_ensures();
    texts(r@).to_multiset_ensures();
    let s = texts(r@);
    assert(s[i] == a@ && s[j] == b@);
    assert(path_le()(s[i], s[j]));
    if before {
        assert(path_le()(b@, a@));
        assert(a@ == b@);
        lemma_path_irreflexive(a@);
    }
}

/// No path comes before itself.
pub proof fn lemma_path_irreflexive(a: Seq<char>)
    ensures
        !crate::order::path_lt(a, a),
{
    lemma_text_order();
    let lt = crate::order::text_lt_fn();
    let parts = split(a, '/');
    if crate::order::path_lt(a, a) {
        let k = choose|k: int| lex_lt_at(parts, parts, lt, k);
        assert(lt(parts[k], parts[k]));
    }
}

/// A directory comes before what is in it, and what is in it before the names that
/// come after it.
pub proof fn lemma_path_order_by_names(
    a: Seq<char>,
    x: Seq<char>,
    y: Seq<char>,
    p: &str,
    q: &str,
    r: bool,
)
    requires
        call_ensures(path_before, (p, q), r),
        !x.contains('/'),
        !y.contains('/'),
        q@ == a + seq!['/'] + y,
    ensures
        p@ == a ==> r,
        p@ == a + seq!['/'] + x && text_lt(x, y) ==> r,
{
    lemma_split_at(a, y, '/');
    lemma_split_whole(y, '/');
    lemma_split_at(a, x, '/');
    lemma_split_whole(x, '/');
    let lt = crate::order::text_lt_fn();
    let n = split(a, '/').len() as int;
    if p@ == a {
        assert(lex_lt_at(split(p@, '/'), split(q@, '/'), lt, n));
    }
    if p@ == a + seq!['/'] + x && text_lt(x, y) {
        assert(lt(split(p@, '/')[n], split(q@, '/')[n]));
        assert(lex_lt_at(split(p@, '/'), split(q@, '/'), lt, n));
    }
}

} // verus!
