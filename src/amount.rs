//! Amounts of money, held as a signed number of cents, and how they are read
//! from the decimal text of the bank's files.
use vstd::prelude::*;
use crate::label::is_ascii_digit;
use vstd::string::StringExecFns;

verus! {

/// A decimal separator: the point, or the comma of some locales.
pub open spec fn is_decimal_separator(c: char) -> bool {
    c == '.' || c == ','
}

/// Every character of `s` is an ASCII digit.
pub open spec fn all_digits(s: Seq<char>) -> bool {
    forall|i: int| 0 <= i < s.len() ==> is_ascii_digit(#[trigger] s[i])
}

/// The value of a digit character.
pub open spec fn digit_value(c: char) -> int {
    c as int - '0' as int
}

/// The number that a string of digits writes in base ten (0 for no digits).
pub open spec fn digits_value(s: Seq<char>) -> int
    decreases s.len(),
{
    if s.len() == 0 {
        0
    } else {
        digits_value(s.drop_last()) * 10 + digit_value(s.last())
    }
}

/// How many digits `s` starts with.
pub open spec fn leading_digit_count(s: Seq<char>) -> int
    decreases s.len(),
{
    if s.len() == 0 || !is_ascii_digit(s[0]) {
        0
    } else {
        1 + leading_digit_count(s.subrange(1, s.len() as int))
    }
}

/// The cents that the digits after a separator write: the first is tenths,
/// the second hundredths, none is zero cents.
pub open spec fn cents_of_fraction(f: Seq<char>) -> int {
    if f.len() == 0 {
        0
    } else if f.len() == 1 {
        digit_value(f[0]) * 10
    } else {
        digit_value(f[0]) * 10 + digit_value(f[1])
    }
}

/// The number of cents that an unsigned amount writes: digits, then
/// optionally a separator and more digits, with at least one digit in all;
/// the digits after the hundredths must be zeros, since an amount is a whole
/// number of cents.
pub open spec fn magnitude_of(b: Seq<char>) -> Option<int> {
    let p = leading_digit_count(b);
    let units = digits_value(b.subrange(0, p));
    let frac = b.subrange(p + 1, b.len() as int);
    if p == b.len() {
        if p == 0 {
            None
        } else {
            Some(units * 100)
        }
    } else if is_decimal_separator(b[p]) && all_digits(frac) && (p > 0 || frac.len() > 0) && (
    forall|k: int| 2 <= k < frac.len() ==> frac[k] == '0') {
        Some(units * 100 + cents_of_fraction(frac))
    } else {
        None
    }
}

/// The number of cents that an amount writes: an unsigned amount, after an
/// optional sign `-` or `+`.
pub open spec fn cents_of(s: Seq<char>) -> Option<int> {
    let negative = s.len() > 0 && s[0] == '-';
    let signed = s.len() > 0 && (s[0] == '-' || s[0] == '+');
    let body = if signed {
        s.subrange(1, s.len() as int)
    } else {
        s
    };
    signed_by(magnitude_of(body), negative)
}

/// A magnitude with a sign put on it.
pub open spec fn signed_by(m: Option<int>, negative: bool) -> Option<int> {
    match m {
        Some(v) => Some(
            if negative {
                -v
            } else {
                v
            },
        ),
        None => None,
    }
}

/// An amount of cents that an `i64` holds with its opposite.
pub open spec fn fits_amount(v: int) -> bool {
    -(i64::MAX as int) <= v <= i64::MAX as int
}

/// The number of cents that a text writes, where an `i64` holds it.
pub open spec fn amount_value(s: Seq<char>) -> Option<int> {
    match cents_of(s) {
        Some(c) => if fits_amount(c) {
            Some(c)
        } else {
            None
        },
        None => None,
    }
}

proof fn lemma_leading_props(b: Seq<char>)
    ensures
        0 <= leading_digit_count(b) <= b.len(),
        forall|j: int| 0 <= j < leading_digit_count(b) ==> is_ascii_digit(#[trigger] b[j]),
        leading_digit_count(b) < b.len() ==> !is_ascii_digit(b[leading_digit_count(b)]),
    decreases b.len(),
{
    if b.len() > 0 && is_ascii_digit(b[0]) {
        let t = b.subrange(1, b.len() as int);
        lemma_leading_props(t);
        assert forall|j: int| 0 <= j < leading_digit_count(b) implies is_ascii_digit(
            #[trigger] b[j],
        ) by {
            if j > 0 {
                assert(b[j] == t[j - 1]);
            }
        }
        if leading_digit_count(b) < b.len() {
            assert(b[leading_digit_count(b)] == t[leading_digit_count(t)]);
        }
    }
}

proof fn lemma_leading_count(b: Seq<char>, k: int)
    requires
        0 <= k <= b.len(),
        forall|j: int| 0 <= j < k ==> is_ascii_digit(#[trigger] b[j]),
    ensures
        k <= leading_digit_count(b),
        k == b.len() || !is_ascii_digit(b[k]) ==> leading_digit_count(b) == k,
{
    lemma_leading_props(b);
    if leading_digit_count(b) < k {
        assert(is_ascii_digit(b[leading_digit_count(b)]));
    }
}

proof fn lemma_digits_value_step(s: Seq<char>, i: int)
    requires
        0 <= i < s.len(),
    ensures
        digits_value(s.subrange(0, i + 1)) == digits_value(s.subrange(0, i)) * 10 + digit_value(
            s[i],
        ),
{
    assert(s.subrange(0, i + 1).drop_last() =~= s.subrange(0, i));
}

proof fn lemma_digits_value_monotone(s: Seq<char>, i: int, j: int)
    requires
        0 <= i <= j <= s.len(),
        all_digits(s),
    ensures
        0 <= digits_value(s.subrange(0, i)) <= digits_value(s.subrange(0, j)),
    decreases j - i,
{
    if i < j {
        lemma_digits_value_monotone(s, i, j - 1);
        lemma_digits_value_step(s, j - 1);
        assert(is_ascii_digit(s[j - 1]));
    } else {
        lemma_digits_value_nonneg(s.subrange(0, i));
    }
}

proof fn lemma_digits_value_nonneg(s: Seq<char>)
    requires
        all_digits(s),
    ensures
        digits_value(s) >= 0,
    decreases s.len(),
{
    if s.len() > 0 {
        assert(is_ascii_digit(s[s.len() - 1]));
        lemma_digits_value_nonneg(s.drop_last());
    }
}

/// Reads an amount of money as a number of cents; `None` where the text writes
/// no amount, or one that an `i64` cannot hold.
pub fn parse_amount(text: &str) -> (r: Option<i64>)
    ensures
        match r {
            Some(v) => amount_value(text@) == Some(v as int),
            None => amount_value(text@) is None,
        },
{
    let n = text.unicode_len();
    let ghost s = text@;
    let mut start: usize = 0;
    let mut negative = false;
    if n > 0 {
        let c0 = text.get_char(0);
        if c0 == '-' || c0 == '+' {
            start = 1;
            negative = c0 == '-';
        }
    }
    let ghost body = s.subrange(start as int, n as int);
    proof {
        if start == 0 {
            assert(body =~= s);
        }
    }
    let mut acc: u128 = 0;
    let mut i: usize = start;
    while i < n && is_digit_char(text.get_char(i))
        invariant
            s == text@,
            n == s.len(),
            start <= i <= n,
            body == s.subrange(start as int, n as int),
            forall|j: int| 0 <= j < i - start ==> is_ascii_digit(#[trigger] body[j]),
            acc == digits_value(body.subrange(0, i - start)),
            acc <= (i64::MAX as u128) * 10 + 9,
            cents_of(s) == signed_by(magnitude_of(body), negative),
        decreases n - i,
    {
        let c = text.get_char(i);
        proof {
            assert(body[i - start] == s[i as int]);
            lemma_digits_value_step(body, i - start);
        }
        if acc > i64::MAX as u128 {
            proof {
                lemma_bail(body, i - start);
            }
            return None;
        }
        acc = acc * 10 + (c as u32 - '0' as u32) as u128;
        i = i + 1;
    }
    let p = i - start;
    proof {
        if i < n {
            assert(body[p as int] == s[i as int]);
        }
        lemma_leading_count(body, p as int);
    }
    if acc > i64::MAX as u128 {
        proof {
            lemma_bail(body, p as int);
        }
        return None;
    }
    let mut cents: u128 = acc * 100;
    if i < n {
        let sep = text.get_char(i);
        if sep != '.' && sep != ',' {
            return None;
        }
        let ghost frac = body.subrange(p + 1, body.len() as int);
        proof {
            assert(frac =~= s.subrange(i + 1, n as int));
            assert(body[p as int] == sep);
        }
        let m = n - i - 1;
        if p == 0 && m == 0 {
            return None;
        }
        if m >= 1 {
            let d1 = text.get_char(i + 1);
            if !is_digit_char(d1) {
                proof {
                    assert(frac[0] == d1);
                }
                return None;
            }
            proof {
                assert(frac[0] == d1);
            }
            cents = cents + (d1 as u32 - '0' as u32) as u128 * 10;
        }
        if m >= 2 {
            let d2 = text.get_char(i + 2);
            if !is_digit_char(d2) {
                proof {
                    assert(frac[1] == d2);
                }
                return None;
            }
            proof {
                assert(frac[1] == d2);
            }
            cents = cents + (d2 as u32 - '0' as u32) as u128;
        }
        let mut k: usize = if m > 2 {
            i + 3
        } else {
            n
        };
        while k < n
            invariant
                m == n - i - 1,
                m > 2 ==> i + 3 <= k <= n,
                m <= 2 ==> k == n,
                frac == s.subrange(i + 1, n as int),
                s == text@,
                n == s.len(),
                i < n,
                forall|q: int| 2 <= q < k - i - 1 ==> #[trigger] frac[q] == '0',
                frac == body.subrange(p + 1, body.len() as int),
                leading_digit_count(body) == p,
                p < body.len(),
                is_decimal_separator(body[p as int]),
                cents_of(s) == signed_by(magnitude_of(body), negative),
            decreases n - k,
        {
            let c = text.get_char(k);
            proof {
                assert(frac[k - i - 1] == c);
            }
            if c != '0' {
                return None;
            }
            k = k + 1;
        }
        proof {
            assert forall|q: int| 0 <= q < frac.len() implies is_ascii_digit(#[trigger] frac[q]) by {
                if q >= 2 {
                    assert(frac[q] == '0');
                }
            }
            assert(body.subrange(0, p as int) =~= body.subrange(0, leading_digit_count(body)));
        }
    } else {
        if p == 0 {
            return None;
        }
        proof {
            assert(body =~= body.subrange(0, p as int));
        }
    }
    if cents > i64::MAX as u128 {
        return None;
    }
    let v = cents as i64;
    if negative {
        Some(-v)
    } else {
        Some(v)
    }
}

/// Whether `c` is an ASCII digit.
fn is_digit_char(c: char) -> (r: bool)
    ensures
        r == is_ascii_digit(c),
{
    '0' <= c && c <= '9'
}

/// Where the digits read so far already make more than `i64::MAX` cents'
/// worth of units, the amount does not fit.
proof fn lemma_bail(body: Seq<char>, k: int)
    requires
        0 <= k <= body.len(),
        forall|j: int| 0 <= j < k ==> is_ascii_digit(#[trigger] body[j]),
        digits_value(body.subrange(0, k)) > i64::MAX as int,
    ensures
        match magnitude_of(body) {
            Some(m) => m > i64::MAX as int,
            None => true,
        },
{
    lemma_leading_count(body, k);
    lemma_leading_props(body);
    let p = leading_digit_count(body);
    let prefix = body.subrange(0, p);
    assert(all_digits(prefix));
    lemma_digits_value_monotone(prefix, k, p);
    assert(prefix.subrange(0, k) =~= body.subrange(0, k));
    assert(prefix.subrange(0, p) =~= prefix);
    let frac = body.subrange(p + 1, body.len() as int);
    if all_digits(frac) && frac.len() > 0 {
        assert(is_ascii_digit(frac[0]));
        if frac.len() > 1 {
            assert(is_ascii_digit(frac[1]));
        }
    }
}

/// The character of a digit from 0 to 9.
pub open spec fn digit_char(d: int) -> char {
    if d == 0 {
        '0'
    } else if d == 1 {
        '1'
    } else if d == 2 {
        '2'
    } else if d == 3 {
        '3'
    } else if d == 4 {
        '4'
    } else if d == 5 {
        '5'
    } else if d == 6 {
        '6'
    } else if d == 7 {
        '7'
    } else if d == 8 {
        '8'
    } else {
        '9'
    }
}

/// A natural number written in base ten, without leading zeros.
pub open spec fn decimal_text(n: nat) -> Seq<char>
    decreases n,
{
    if n < 10 {
        seq![digit_char(n as int)]
    } else {
        decimal_text(n / 10).push(digit_char((n % 10) as int))
    }
}

/// The cents of an amount as the shortest decimal fraction: nothing for none,
/// a point and the tenths where the hundredths are zero, a point and two
/// digits otherwise.
pub open spec fn fraction_text(cents: int) -> Seq<char> {
    if cents == 0 {
        Seq::<char>::empty()
    } else if cents % 10 == 0 {
        seq!['.', digit_char(cents / 10)]
    } else {
        seq!['.', digit_char(cents / 10), digit_char(cents % 10)]
    }
}

/// The text of an amount of cents as the shortest decimal: a minus sign where
/// it is negative, the units, and the cents where there are some, without a
/// trailing zero.
pub open spec fn amount_text(c: int) -> Seq<char> {
    let m = if c < 0 {
        -c
    } else {
        c
    };
    let sign = if c < 0 {
        seq!['-']
    } else {
        Seq::<char>::empty()
    };
    sign + decimal_text((m / 100) as nat) + fraction_text(m % 100)
}

/// The text of a digit from 0 to 9.
fn digit_str(d: u64) -> (r: &'static str)
    requires
        d < 10,
    ensures
        r@ == seq![digit_char(d as int)],
{
    let r = if d == 0 {
        "0"
    } else if d == 1 {
        "1"
    } else if d == 2 {
        "2"
    } else if d == 3 {
        "3"
    } else if d == 4 {
        "4"
    } else if d == 5 {
        "5"
    } else if d == 6 {
        "6"
    } else if d == 7 {
        "7"
    } else if d == 8 {
        "8"
    } else {
        "9"
    };
    proof {
        reveal_strlit("0");
        reveal_strlit("1");
        reveal_strlit("2");
        reveal_strlit("3");
        reveal_strlit("4");
        reveal_strlit("5");
        reveal_strlit("6");
        reveal_strlit("7");
        reveal_strlit("8");
        reveal_strlit("9");
        assert(r@ =~= seq![digit_char(d as int)]);
    }
    r
}

/// Appends `n` written in base ten.
fn push_decimal(s: &mut String, n: u64)
    ensures
        final(s)@ == old(s)@ + decimal_text(n as nat),
    decreases n,
{
    if n >= 10 {
        push_decimal(s, n / 10);
    }
    s.append(digit_str(n % 10));
    proof {
        if n >= 10 {
            assert(final(s)@ =~= old(s)@ + decimal_text(n as nat));
        } else {
            assert(final(s)@ =~= old(s)@ + decimal_text(n as nat));
        }
    }
}

/// The text of an amount of cents as the shortest decimal: `-1234.05`,
/// `-1.6`, `7737`.
pub fn format_amount(c: i64) -> (r: String)
    ensures
        r@ == amount_text(c as int),
{
    let m: u64 = if c < 0 {
        (-(c + 1)) as u64 + 1
    } else {
        c as u64
    };
    let mut s = String::new();
    if c < 0 {
        s.append("-");
    }
    push_decimal(&mut s, m / 100);
    let r = m % 100;
    if r != 0 {
        s.append(".");
        s.append(digit_str(r / 10));
        if r % 10 != 0 {
            s.append(digit_str(r % 10));
        }
    }
    proof {
        reveal_strlit("-");
        reveal_strlit(".");
        assert(s@ =~= amount_text(c as int));
    }
    s
}

proof fn lemma_digit_char(d: int)
    requires
        0 <= d < 10,
    ensures
        is_ascii_digit(digit_char(d)),
        digit_value(digit_char(d)) == d,
{
}

proof fn lemma_decimal_text(n: nat)
    ensures
        decimal_text(n).len() >= 1,
        all_digits(decimal_text(n)),
        digits_value(decimal_text(n)) == n,
    decreases n,
{
    if n < 10 {
        lemma_digit_char(n as int);
        let t = seq![digit_char(n as int)];
        assert(t.drop_last() =~= Seq::<char>::empty());
        assert(digits_value(Seq::<char>::empty()) == 0);
        assert(digits_value(t) == digits_value(t.drop_last()) * 10 + digit_value(t.last()));
    } else {
        lemma_decimal_text(n / 10);
        lemma_digit_char((n % 10) as int);
        let t = decimal_text(n / 10);
        let ch = digit_char((n % 10) as int);
        assert(t.push(ch).drop_last() =~= t);
        assert(t.push(ch).last() == ch);
        assert(digits_value(t.push(ch)) == digits_value(t) * 10 + digit_value(ch));
        assert(forall|j: int| 0 <= j < t.len() ==> t.push(ch)[j] == t[j]);
    }
}

/// Reading the text of an amount gives the amount back.
pub proof fn lemma_amount_text_round_trip(c: int)
    requires
        fits_amount(c),
    ensures
        cents_of(amount_text(c)) == Some(c),
        amount_value(amount_text(c)) == Some(c),
{
    let m = if c < 0 {
        -c
    } else {
        c
    };
    let u = decimal_text((m / 100) as nat);
    lemma_decimal_text((m / 100) as nat);
    lemma_digit_char(m % 100 / 10);
    lemma_digit_char(m % 10);
    let r = m % 100;
    let tail = fraction_text(r);
    let body = u + tail;
    let t = amount_text(c);
    if c < 0 {
        assert(t =~= seq!['-'] + body);
        assert(t.subrange(1, t.len() as int) =~= body);
    } else {
        assert(t =~= body);
        assert(body[0] == u[0]);
        assert(is_ascii_digit(u[0]));
    }
    assert forall|j: int| 0 <= j < u.len() implies is_ascii_digit(#[trigger] body[j]) by {
        assert(body[j] == u[j]);
    }
    if r != 0 {
        assert(body[u.len() as int] == '.');
    }
    lemma_leading_count(body, u.len() as int);
    assert(body.subrange(0, u.len() as int) =~= u);
    if r == 0 {
        assert(body =~= u);
    } else {
        let frac = body.subrange(u.len() as int + 1, body.len() as int);
        if r % 10 == 0 {
            assert(frac =~= seq![digit_char(r / 10)]);
        } else {
            assert(frac =~= seq![digit_char(r / 10), digit_char(r % 10)]);
        }
        assert(cents_of_fraction(frac) == r);
    }
    assert(magnitude_of(body) == Some(m));
}

} // verus!
