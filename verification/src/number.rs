//! Numbers as text: digits in a base, padding, and parsing.
use vstd::prelude::*;
use crate::text::chars_of;

verus! {

/// The character of a digit below sixteen; letters are upper case or lower case.
pub open spec fn digit_char(d: nat, upper: bool) -> char {
    if d < 10 {
        (48 + d) as char
    } else if upper {
        (55 + d) as char
    } else {
        (87 + d) as char
    }
}

/// `n` written in `base`, without leading zeros.
pub open spec fn in_base(n: nat, base: nat, upper: bool) -> Seq<char>
    decreases n,
{
    if n < base || base < 2 {
        seq![digit_char(n, upper)]
    } else {
        proof {
            assert(n / base < n) by (nonlinear_arith)
                requires
                    n >= base,
                    base >= 2,
            ;
        }
        in_base(n / base, base, upper).push(digit_char(n % base, upper))
    }
}

/// `n` in decimal.
pub open spec fn decimal(n: nat) -> Seq<char> {
    in_base(n, 10, false)
}

/// `s` with as many `fill` before it as make it `width` long.
pub open spec fn pad_left(s: Seq<char>, width: nat, fill: char) -> Seq<char> {
    if s.len() >= width {
        s
    } else {
        Seq::new((width - s.len()) as nat, |i: int| fill) + s
    }
}

/// `s` with as many spaces after it as make it `width` long.
pub open spec fn pad_right(s: Seq<char>, width: nat) -> Seq<char> {
    if s.len() >= width {
        s
    } else {
        s + Seq::new((width - s.len()) as nat, |i: int| ' ')
    }
}

/// Is `c` an ASCII decimal digit?
pub open spec fn is_digit(c: char) -> bool {
    '0' <= c <= '9'
}

/// Does `s` consist of decimal digits, at least one?
pub open spec fn all_digits(s: Seq<char>) -> bool {
    s.len() > 0 && forall|i: int| 0 <= i < s.len() ==> is_digit(#[trigger] s[i])
}

/// The number that the decimal digits `s` write.
pub open spec fn decimal_value(s: Seq<char>) -> nat
    decreases s.len(),
{
    if s.len() == 0 {
        0
    } else {
        decimal_value(s.drop_last()) * 10 + (s.last() as nat - 48) as nat
    }
}

/// What an unsigned integer no greater than `max` is parsed from `s`: decimal
/// digits after an optional plus sign.
pub open spec fn parse_unsigned(s: Seq<char>, max: nat) -> Option<nat> {
    let digits = if s.len() > 0 && s[0] == '+' {
        s.skip(1)
    } else {
        s
    };
    if all_digits(digits) && decimal_value(digits) <= max {
        Some(decimal_value(digits))
    } else {
        None
    }
}

/// What a signed integer from `min` to `max` is parsed from `s`: decimal digits
/// after an optional sign.
pub open spec fn parse_signed(s: Seq<char>, min: int, max: int) -> Option<int> {
    if s.len() > 0 && s[0] == '-' {
        let digits = s.skip(1);
        if all_digits(digits) && -decimal_value(digits) >= min {
            Some(-decimal_value(digits))
        } else {
            None
        }
    } else {
        match parse_unsigned(s, max as nat) {
            Some(n) => Some(n as int),
            None => None,
        }
    }
}

fn digit(d: u128, upper: bool) -> (c: char)
    requires
        d < 16,
    ensures
        c == digit_char(d as nat, upper),
{
    let b = d as u8;
    if b < 10 {
        (48 + b) as char
    } else if upper {
        (55 + b) as char
    } else {
        (87 + b) as char
    }
}

/// `n` written in `base`.
pub fn write_in_base(n: u128, base: u128, upper: bool) -> (r: String)
    requires
        2 <= base <= 16,
    ensures
        r@ == in_base(n as nat, base as nat, upper),
    decreases n,
{
    if n < base {
        let mut r = String::new();
        r.push(digit(n, upper));
        assert(r@ =~= seq![digit_char(n as nat, upper)]);
        r
    } else {
        assert(n / base < n) by (nonlinear_arith)
            requires
                n >= base,
                base >= 2,
        ;
        let mut r = write_in_base(n / base, base, upper);
        assert(n % base < base) by (nonlinear_arith)
            requires
                base >= 2,
        ;
        r.push(digit(n % base, upper));
        r
    }
}

/// `n` in decimal.
pub fn write_decimal(n: u128) -> (r: String)
    ensures
        r@ == decimal(n as nat),
{
    write_in_base(n, 10, false)
}

/// `s` with as many `fill` before it as make it `width` long.
pub fn padded_left(s: &str, width: usize, fill: char) -> (r: String)
    ensures
        r@ == pad_left(s@, width as nat, fill),
{
    let n: usize = chars_of(s).len();
    let mut r = String::new();
    if n < width {
        let mut i: usize = n;
        while i < width
            invariant
                n <= i <= width,
                r@ == Seq::new((i - n) as nat, |j: int| fill),
            decreases width - i,
        {
            assert(Seq::new((i + 1 - n) as nat, |j: int| fill) =~= Seq::new(
                (i - n) as nat,
                |j: int| fill,
            ).push(fill));
            r.push(fill);
            i += 1;
        }
    }
    r.append(s);
    proof {
        if n >= width {
            assert(r@ =~= s@);
        }
    }
    r
}

/// `s` with as many spaces after it as make it `width` long.
pub fn padded_right(s: &str, width: usize) -> (r: String)
    ensures
        r@ == pad_right(s@, width as nat),
{
    let n: usize = chars_of(s).len();
    let mut r = String::from_str(s);
    if n < width {
        let mut i: usize = n;
        assert(r@ =~= s@ + Seq::new(0, |j: int| ' '));
        while i < width
            invariant
                n <= i <= width,
                r@ == s@ + Seq::new((i - n) as nat, |j: int| ' '),
            decreases width - i,
        {
            assert(Seq::new((i + 1 - n) as nat, |j: int| ' ') =~= Seq::new(
                (i - n) as nat,
                |j: int| ' ',
            ).push(' '));
            r.push(' ');
            i += 1;
        }
    }
    r
}

proof fn lemma_value_grows(s: Seq<char>, k: int)
    requires
        0 <= k <= s.len(),
        forall|i: int| 0 <= i < s.len() ==> is_digit(#[trigger] s[i]),
    ensures
        decimal_value(s.take(k)) <= decimal_value(s),
    decreases s.len() - k,
{
    if k < s.len() {
        assert(s.take(k + 1).drop_last() =~= s.take(k));
        assert(is_digit(s[k]));
        lemma_value_grows(s, k + 1);
    } else {
        assert(s.take(k) =~= s);
    }
}

/// The number that the digits `v[from..]` write, where it is no greater than
/// `max`.
fn digits_value(v: &Vec<char>, from: usize, max: u64) -> (r: Option<u64>)
    requires
        from <= v@.len(),
    ensures
        match r {
            Some(n) => all_digits(v@.skip(from as int)) && n == decimal_value(v@.skip(from as int))
                && n <= max,
            None => !(all_digits(v@.skip(from as int)) && decimal_value(v@.skip(from as int))
                <= max),
        },
{
    let ghost d = v@.skip(from as int);
    if from == v.len() {
        return None;
    }
    let mut total: u64 = 0;
    let mut i: usize = from;
    assert(d.take(0) =~= Seq::empty());
    while i < v.len()
        invariant
            from <= i <= v@.len(),
            d == v@.skip(from as int),
            total == decimal_value(d.take(i - from)),
            total <= max,
            forall|j: int| 0 <= j < i - from ==> is_digit(#[trigger] d[j]),
        decreases v.len() - i,
    {
        let c = v[i];
        assert(d[i - from] == c);
        assert(d.take(i - from + 1).drop_last() =~= d.take(i - from));
        if !('0' <= c && c <= '9') {
            assert(!is_digit(d[i - from]));
            return None;
        }
        let x: u64 = (c as u32 - 48) as u64;
        let next: u128 = total as u128 * 10 + x as u128;
        assert(next == decimal_value(d.take(i - from + 1)));
        if next > max as u128 {
            proof {
                if all_digits(d) {
                    lemma_value_grows(d, i - from + 1);
                }
            }
            return None;
        }
        total = next as u64;
        i += 1;
    }
    assert(d.take(i - from) =~= d);
    Some(total)
}

/// Parses an unsigned integer no greater than `max`.
pub fn read_unsigned(s: &str, max: u64) -> (r: Option<u64>)
    ensures
        match r {
            Some(n) => parse_unsigned(s@, max as nat) == Some(n as nat),
            None => parse_unsigned(s@, max as nat) is None,
        },
{
    let v = chars_of(s);
    let from: usize = if v.len() > 0 && v[0] == '+' {
        1
    } else {
        0
    };
    assert(v@.skip(0) =~= v@);
    digits_value(&v, from, max)
}

/// Parses a signed integer from `min` to `max`.
pub fn read_signed(s: &str, min: i64, max: i64) -> (r: Option<i64>)
    requires
        min <= 0 <= max,
    ensures
        match r {
            Some(n) => parse_signed(s@, min as int, max as int) == Some(n as int),
            None => parse_signed(s@, min as int, max as int) is None,
        },
{
    let v = chars_of(s);
    if v.len() > 0 && v[0] == '-' {
        let floor: i128 = -(min as i128);
        match digits_value(&v, 1, floor as u64) {
            Some(n) => Some((-(n as i128)) as i64),
            None => None,
        }
    } else {
        match read_unsigned(s, max as u64) {
            Some(n) => Some(n as i64),
            None => None,
        }
    }
}

/// Numbers written alike are equal.
pub proof fn lemma_in_base_injective(n: nat, m: nat, base: nat, upper: bool)
    requires
        2 <= base <= 16,
        in_base(n, base, upper) == in_base(m, base, upper),
    ensures
        n == m,
    decreases n,
{
    let a = in_base(n, base, upper);
    let b = in_base(m, base, upper);
    lemma_in_base_nonempty(n, base, upper);
    lemma_in_base_nonempty(m, base, upper);
    assert(a.last() == b.last());
    if n < base && m < base {
        assert(a[0] == b[0]);
    } else if n < base {
        lemma_in_base_nonempty(m / base, base, upper);
        assert(b.len() >= 2);
    } else if m < base {
        lemma_in_base_nonempty(n / base, base, upper);
        assert(a.len() >= 2);
    } else {
        assert(n / base < n && n % base < base) by (nonlinear_arith)
            requires
                n >= base,
                base >= 2,
        ;
        assert(m % base < base) by (nonlinear_arith)
            requires
                base >= 2,
        ;
        assert(a.drop_last() =~= in_base(n / base, base, upper));
        assert(b.drop_last() =~= in_base(m / base, base, upper));
        lemma_in_base_injective(n / base, m / base, base, upper);
        assert(n % base == m % base);
        assert(n == base * (n / base) + n % base) by (nonlinear_arith)
            requires
                base >= 2,
        ;
        assert(m == base * (m / base) + m % base) by (nonlinear_arith)
            requires
                base >= 2,
        ;
    }
}

/// A number in a base up to ten is written with decimal digits.
pub proof fn lemma_in_base_digits(n: nat, base: nat, upper: bool)
    requires
        2 <= base <= 10,
    ensures
        in_base(n, base, upper).len() >= 1,
        forall|i: int|
            0 <= i < in_base(n, base, upper).len() ==> '0' <= #[trigger] in_base(
                n,
                base,
                upper,
            )[i] <= '9',
    decreases n,
{
    if n >= base {
        assert(n / base < n && n % base < base) by (nonlinear_arith)
            requires
                n >= base,
                base >= 2,
        ;
        lemma_in_base_digits(n / base, base, upper);
    }
}

proof fn lemma_in_base_nonempty(n: nat, base: nat, upper: bool)
    ensures
        in_base(n, base, upper).len() >= 1,
{
}

} // verus!
