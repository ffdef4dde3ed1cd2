//! Prices as exact fixed-point cents: parsing decimal quote text and
//! formatting records with two decimal places of precision.

use vstd::prelude::*;
use vstd::string::StrSliceExecFns;
use vstd::string::StringExecFns;
use vstd::arithmetic::div_mod::lemma_div_is_strictly_smaller;
use vstd::arithmetic::div_mod::lemma_fundamental_div_mod;
use crate::error::PriceError;

verus! {

/// A quoted price in United States dollars, held exactly as a whole
/// number of cents.
#[derive(Debug, Clone, Copy, PartialEq, Eq, Structural)]
pub struct Price {
    pub cents: u64,
}

/// Whether `c` is a decimal digit.
pub open spec fn is_digit(c: char) -> bool {
    48 <= c as int && c as int <= 57
}

/// The numeric value of a digit character.
pub open spec fn digit_val(c: char) -> int {
    c as int - 48
}

/// The digit character for a value between 0 and 9.
pub open spec fn digit_char(d: int) -> char {
    if d == 0 {
        '0'
    } else if d == 1 {
        '1'
    } else if d == 2 {
        '2'
    } else if d == 3 {
        '3'
    } else if d == 4 {
        '4'
    } else if d == 5 {
        '5'
    } else if d == 6 {
        '6'
    } else if d == 7 {
        '7'
    } else if d == 8 {
        '8'
    } else {
        '9'
    }
}

/// Whether every character of `s` is a decimal digit.
pub open spec fn all_digits(s: Seq<char>) -> bool {
    forall|j: int| 0 <= j < s.len() ==> is_digit(#[trigger] s[j])
}

/// The number denoted by a sequence of digit characters, read in base ten.
pub open spec fn digits_val(s: Seq<char>) -> int
    decreases s.len(),
{
    if s.len() == 0 {
        0
    } else {
        digits_val(s.drop_last()) * 10 + digit_val(s.last())
    }
}

/// The index of the first `'.'` in `s`, or `s.len()` if there is none.
pub open spec fn dot_index(s: Seq<char>) -> int
    decreases s.len(),
{
    if s.len() == 0 {
        0
    } else if s[0] == '.' {
        0
    } else {
        1 + dot_index(s.subrange(1, s.len() as int))
    }
}

/// Whether `s` is decimal price text: one or more digits, optionally
/// followed by a dot and one or more further digits.
pub open spec fn valid_price_text(s: Seq<char>) -> bool {
    let k = dot_index(s);
    if k == s.len() {
        s.len() >= 1 && all_digits(s)
    } else {
        &&& 1 <= k
        &&& k + 1 < s.len()
        &&& all_digits(s.subrange(0, k))
        &&& all_digits(s.subrange(k + 1, s.len() as int))
    }
}

/// The cents denoted by a non-empty fractional part: its first two digits,
/// rounded half-up, which only the third fractional digit decides.
pub open spec fn frac_cents(f: Seq<char>) -> int {
    digit_val(f[0]) * 10 + (if f.len() >= 2 {
        digit_val(f[1])
    } else {
        0
    }) + (if f.len() >= 3 && digit_val(f[2]) >= 5 {
        1int
    } else {
        0int
    })
}

/// The value in cents denoted by valid price text.
pub open spec fn price_cents_of(s: Seq<char>) -> int {
    let k = dot_index(s);
    if k == s.len() {
        digits_val(s) * 100
    } else {
        digits_val(s.subrange(0, k)) * 100 + frac_cents(s.subrange(k + 1, s.len() as int))
    }
}

/// The decimal digit characters of `n`, most significant first.
pub open spec fn dec_digits(n: nat) -> Seq<char>
    decreases n,
{
    if n < 10 {
        seq![digit_char(n as int)]
    } else {
        dec_digits(n / 10).push(digit_char((n % 10) as int))
    }
}

/// The canonical text of a price: the dollars, a dot, and exactly two
/// digits of cents.
pub open spec fn price_text_of(cents: nat) -> Seq<char> {
    dec_digits(cents / 100) + seq![
        '.',
        digit_char(((cents % 100) / 10) as int),
        digit_char(((cents % 100) % 10) as int),
    ]
}

/// Whether `s` has the shape of formatted price text: one or more digits,
/// then a dot, then exactly two digits.
pub open spec fn is_price_text(s: Seq<char>) -> bool {
    &&& s.len() >= 4
    &&& all_digits(s.subrange(0, s.len() - 3))
    &&& s[s.len() - 3] == '.'
    &&& is_digit(s[s.len() - 2])
    &&& is_digit(s[s.len() - 1])
}

/// The digit character of a value between 0 and 9 is a digit, and carries
/// that value.
pub proof fn lemma_digit_char_val(d: int)
    requires
        0 <= d <= 9,
    ensures
        is_digit(digit_char(d)),
        digit_val(digit_char(d)) == d,
{
}

/// `dot_index` always lands between 0 and the length.
pub proof fn lemma_dot_index_bounds(s: Seq<char>)
    ensures
        0 <= dot_index(s) <= s.len(),
    decreases s.len(),
{
    if s.len() == 0 {
    } else if s[0] == '.' {
    } else {
        lemma_dot_index_bounds(s.subrange(1, s.len() as int));
    }
}

/// If no dot occurs before `i`, the first dot is at `i` or later.
pub proof fn lemma_dot_index_no_dot(s: Seq<char>, i: int)
    requires
        0 <= i <= s.len(),
        forall|j: int| 0 <= j < i ==> #[trigger] s[j] != '.',
    ensures
        dot_index(s) >= i,
    decreases i,
{
    if i == 0 {
        lemma_dot_index_bounds(s);
    } else {
        let t = s.subrange(1, s.len() as int);
        assert(forall|j: int| 0 <= j < i - 1 ==> #[trigger] t[j] != '.');
        lemma_dot_index_no_dot(t, i - 1);
    }
}

/// If the first dot of `s` stands at `k`, `dot_index` says so.
pub proof fn lemma_dot_index_at(s: Seq<char>, k: int)
    requires
        0 <= k < s.len(),
        forall|j: int| 0 <= j < k ==> #[trigger] s[j] != '.',
        s[k] == '.',
    ensures
        dot_index(s) == k,
    decreases k,
{
    if k == 0 {
    } else {
        let t = s.subrange(1, s.len() as int);
        assert(forall|j: int| 0 <= j < k - 1 ==> #[trigger] t[j] != '.');
        assert(t[k - 1] == '.');
        lemma_dot_index_at(t, k - 1);
    }
}

/// If `s` holds no dot at all, `dot_index` is the length.
pub proof fn lemma_dot_index_none(s: Seq<char>)
    requires
        forall|j: int| 0 <= j < s.len() ==> #[trigger] s[j] != '.',
    ensures
        dot_index(s) == s.len(),
{
    lemma_dot_index_no_dot(s, s.len() as int);
    lemma_dot_index_bounds(s);
}

/// A string of digits denotes a nonnegative number.
pub proof fn lemma_digits_val_nonneg(s: Seq<char>)
    requires
        all_digits(s),
    ensures
        digits_val(s) >= 0,
    decreases s.len(),
{
    if s.len() == 0 {
    } else {
        assert(all_digits(s.drop_last()));
        lemma_digits_val_nonneg(s.drop_last());
    }
}

/// Among prefixes of a digit string, a longer prefix denotes at least as
/// large a number.
pub proof fn lemma_digits_val_prefix(s: Seq<char>, a: int, b: int)
    requires
        0 <= a <= b <= s.len(),
        forall|j: int| 0 <= j < b ==> is_digit(#[trigger] s[j]),
    ensures
        0 <= digits_val(s.subrange(0, a)) <= digits_val(s.subrange(0, b)),
    decreases b - a,
{
    assert(all_digits(s.subrange(0, a)));
    lemma_digits_val_nonneg(s.subrange(0, a));
    if a == b {
    } else {
        lemma_digits_val_prefix(s, a, b - 1);
        let p = s.subrange(0, b);
        assert(p.drop_last() =~= s.subrange(0, b - 1));
        assert(all_digits(s.subrange(0, b - 1)));
        lemma_digits_val_nonneg(s.subrange(0, b - 1));
        assert(digits_val(p) == digits_val(s.subrange(0, b - 1)) * 10 + digit_val(s[b - 1]));
    }
}

/// `dec_digits` yields at least one character, all of them digits.
pub proof fn lemma_dec_digits_basics(n: nat)
    ensures
        dec_digits(n).len() >= 1,
        all_digits(dec_digits(n)),
    decreases n,
{
    if n < 10 {
        lemma_digit_char_val(n as int);
    } else {
        lemma_dec_digits_basics(n / 10);
        lemma_digit_char_val((n % 10) as int);
    }
}

/// Reading back the decimal digits of `n` gives `n`.
pub proof fn lemma_digits_val_dec_digits(n: nat)
    ensures
        digits_val(dec_digits(n)) == n,
    decreases n,
{
    if n < 10 {
        lemma_digit_char_val(n as int);
        assert(dec_digits(n).drop_last() =~= Seq::<char>::empty());
        assert(digits_val(Seq::<char>::empty()) == 0);
        assert(dec_digits(n).last() == digit_char(n as int));
    } else {
        lemma_digits_val_dec_digits(n / 10);
        lemma_digit_char_val((n % 10) as int);
        let w = dec_digits(n);
        assert(w.drop_last() =~= dec_digits(n / 10));
        lemma_fundamental_div_mod(n as int, 10);
    }
}

/// A prefix of digits that already denotes more than `u64::MAX` rules out
/// a representable valid price.
proof fn lemma_prefix_overflow(s: Seq<char>, i: int)
    requires
        0 <= i < s.len(),
        forall|j: int| 0 <= j <= i ==> is_digit(#[trigger] s[j]),
        digits_val(s.subrange(0, i + 1)) > u64::MAX,
    ensures
        !(valid_price_text(s) && price_cents_of(s) <= u64::MAX),
{
    if valid_price_text(s) {
        let k = dot_index(s);
        lemma_dot_index_bounds(s);
        assert(forall|j: int| 0 <= j < i + 1 ==> #[trigger] s[j] != '.');
        lemma_dot_index_no_dot(s, i + 1);
        if k == s.len() {
            lemma_digits_val_prefix(s, i + 1, s.len() as int);
            assert(s.subrange(0, s.len() as int) =~= s);
            assert(digits_val(s) > u64::MAX);
            assert(digits_val(s) * 100 >= digits_val(s)) by (nonlinear_arith)
                requires
                    digits_val(s) >= 0,
            ;
        } else {
            assert(forall|j: int| 0 <= j < k ==> is_digit(#[trigger] s[j])) by {
                assert(forall|j: int|
                    0 <= j < k ==> is_digit(#[trigger] s.subrange(0, k)[j]));
                assert(forall|j: int| 0 <= j < k ==> s.subrange(0, k)[j] == s[j]);
            }
            lemma_digits_val_prefix(s, i + 1, k);
            assert(s.subrange(0, k).subrange(0, k) =~= s.subrange(0, k));
            let v = digits_val(s.subrange(0, k));
            assert(v > u64::MAX);
            assert(v * 100 >= v) by (nonlinear_arith)
                requires
                    v >= 0,
            ;
            let f = s.subrange(k + 1, s.len() as int);
            assert(is_digit(f[0]));
            assert(frac_cents(f) >= 0);
        }
    }
}

/// The one-character text of a digit value.
pub(crate) fn digit_str(d: u8) -> (r: &'static str)
    requires
        d < 10,
    ensures
        r@ == seq![digit_char(d as int)],
{
    proof {
        reveal_strlit("0");
        reveal_strlit("1");
        reveal_strlit("2");
        reveal_strlit("3");
        reveal_strlit("4");
        reveal_strlit("5");
        reveal_strlit("6");
        reveal_strlit("7");
        reveal_strlit("8");
        reveal_strlit("9");
    }
    if d == 0 {
        "0"
    } else if d == 1 {
        "1"
    } else if d == 2 {
        "2"
    } else if d == 3 {
        "3"
    } else if d == 4 {
        "4"
    } else if d == 5 {
        "5"
    } else if d == 6 {
        "6"
    } else if d == 7 {
        "7"
    } else if d == 8 {
        "8"
    } else {
        "9"
    }
}

/// Parse decimal price text (for example `"5123.45"` or `"43250.7"`) into
/// a price in cents, rounding half-up beyond two fractional digits.
///
/// Succeeds exactly on valid price text whose cents fit in a `u64`; every
/// rejection is a `ParseError`.
pub fn parse_price(s: &str) -> (r: Result<Price, PriceError>)
    ensures
        r is Ok <==> valid_price_text(s@) && price_cents_of(s@) <= u64::MAX,
        r matches Ok(p) ==> p.cents == price_cents_of(s@),
        r matches Err(e) ==> e is ParseError,
{
    let n: usize = s.unicode_len();
    if n == 0 {
        return Err(PriceError::ParseError("empty price text".to_owned()));
    }
    let mut i: usize = 0;
    let mut acc: u64 = 0;
    let mut dot: bool = false;
    while i < n
        invariant_except_break
            !dot,
        invariant
            i <= n,
            n == s@.len(),
            forall|j: int| 0 <= j < i ==> is_digit(#[trigger] s@[j]),
            acc == digits_val(s@.subrange(0, i as int)),
        ensures
            i <= n,
            n == s@.len(),
            forall|j: int| 0 <= j < i ==> is_digit(#[trigger] s@[j]),
            acc == digits_val(s@.subrange(0, i as int)),
            dot ==> i < n && s@[i as int] == '.',
            !dot ==> i == n,
        decreases n - i,
    {
        let c = s.get_char(i);
        if c == '.' {
            dot = true;
            break ;
        }
        let b: u32 = c as u32;
        if b < 48 || b > 57 {
            proof {
                let k = dot_index(s@);
                lemma_dot_index_bounds(s@);
                assert(forall|j: int| 0 <= j < i + 1 ==> #[trigger] s@[j] != '.');
                lemma_dot_index_no_dot(s@, i as int + 1);
                if k < s@.len() {
                    assert(!is_digit(s@.subrange(0, k)[i as int]));
                }
            }
            return Err(PriceError::ParseError("unexpected character in price text".to_owned()));
        }
        let d: u64 = (b - 48) as u64;
        proof {
            assert(s@.subrange(0, i as int + 1).drop_last() =~= s@.subrange(0, i as int));
            assert(s@.subrange(0, i as int + 1).last() == s@[i as int]);
        }
        let acc10: u64 = match acc.checked_mul(10) {
            Some(v) => v,
            None => {
                proof {
                    lemma_prefix_overflow(s@, i as int);
                }
                return Err(PriceError::ParseError("price out of range".to_owned()));
            },
        };
        let acc2: u64 = match acc10.checked_add(d) {
            Some(v) => v,
            None => {
                proof {
                    lemma_prefix_overflow(s@, i as int);
                }
                return Err(PriceError::ParseError("price out of range".to_owned()));
            },
        };
        acc = acc2;
        i = i + 1;
    }
    if !dot {
        proof {
            assert(forall|j: int| 0 <= j < s@.len() ==> #[trigger] s@[j] != '.');
            lemma_dot_index_none(s@);
            assert(s@.subrange(0, n as int) =~= s@);
        }
        match acc.checked_mul(100) {
            Some(total) => {
                return Ok(Price { cents: total });
            },
            None => {
                return Err(PriceError::ParseError("price out of range".to_owned()));
            },
        }
    }
    // the dot stands at position i
    proof {
        assert(forall|j: int| 0 <= j < i ==> #[trigger] s@[j] != '.');
        lemma_dot_index_at(s@, i as int);
    }
    if i == 0 {
        return Err(PriceError::ParseError("price text starts with a dot".to_owned()));
    }
    if i + 1 == n {
        return Err(PriceError::ParseError("price text ends with a dot".to_owned()));
    }
    let mut j2: usize = i + 1;
    let mut d1: u64 = 0;
    let mut d2: u64 = 0;
    let mut up: u64 = 0;
    while j2 < n
        invariant
            i + 1 <= j2 <= n,
            n == s@.len(),
            i as int + 1 < n,
            1 <= i < n,
            s@[i as int] == '.',
            dot_index(s@) == i,
            forall|j: int| 0 <= j < i ==> is_digit(#[trigger] s@[j]),
            acc == digits_val(s@.subrange(0, i as int)),
            forall|t: int| i + 1 <= t < j2 ==> is_digit(#[trigger] s@[t]),
            d1 <= 9 && d2 <= 9 && up <= 1,
            d1 as int == (if j2 > i + 1 {
                digit_val(s@[i as int + 1])
            } else {
                0
            }),
            d2 as int == (if j2 > i + 2 {
                digit_val(s@[i as int + 2])
            } else {
                0
            }),
            up as int == (if j2 > i + 3 && digit_val(s@[i as int + 3]) >= 5 {
                1int
            } else {
                0int
            }),
        decreases n - j2,
    {
        let c = s.get_char(j2);
        let b: u32 = c as u32;
        if b < 48 || b > 57 {
            proof {
                let f = s@.subrange(i as int + 1, n as int);
                assert(f[j2 - i - 1] == s@[j2 as int]);
                assert(!all_digits(f));
            }
            return Err(PriceError::ParseError("unexpected character in price text".to_owned()));
        }
        let d: u64 = (b - 48) as u64;
        if j2 == i + 1 {
            d1 = d;
        } else if j2 == i + 2 {
            d2 = d;
        } else if j2 == i + 3 {
            if d >= 5 {
                up = 1;
            }
        }
        j2 = j2 + 1;
    }
    proof {
        let f = s@.subrange(i as int + 1, n as int);
        assert(all_digits(f)) by {
            assert(forall|t: int| 0 <= t < f.len() ==> f[t] == s@[t + i + 1]);
        }
        assert(f[0] == s@[i as int + 1]);
        assert(f.len() >= 2 ==> f[1] == s@[i as int + 2]);
        assert(f.len() >= 3 ==> f[2] == s@[i as int + 3]);
        assert(valid_price_text(s@));
        assert(frac_cents(f) == d1 * 10 + d2 + up);
        lemma_digits_val_nonneg(s@.subrange(0, i as int));
    }
    let frac: u64 = d1 * 10 + d2 + up;
    let dollars100: u64 = match acc.checked_mul(100) {
        Some(v) => v,
        None => {
            return Err(PriceError::ParseError("price out of range".to_owned()));
        },
    };
    match dollars100.checked_add(frac) {
        Some(total) => Ok(Price { cents: total }),
        None => Err(PriceError::ParseError("price out of range".to_owned())),
    }
}

/// The digit characters of `v`, last pushed first.
spec fn chars_rev(v: Seq<u8>) -> Seq<char>
    decreases v.len(),
{
    if v.len() == 0 {
        Seq::empty()
    } else {
        seq![digit_char(v.last() as int)] + chars_rev(v.drop_last())
    }
}

/// Format a price as text with the dollars, a dot, and exactly two digits
/// of cents, for example `"43250.70"`.
pub fn format_price(p: Price) -> (r: String)
    ensures
        r@ == price_text_of(p.cents as nat),
{
    let dollars: u64 = p.cents / 100;
    let rem: u64 = p.cents % 100;
    let mut rev: Vec<u8> = Vec::new();
    let mut m: u64 = dollars;
    rev.push((m % 10) as u8);
    proof {
        assert(rev@.drop_last() =~= Seq::<u8>::empty());
        assert(chars_rev(Seq::<u8>::empty()) =~= Seq::<char>::empty());
        assert(rev@.last() as int == (dollars as int) % 10);
        assert(chars_rev(rev@) =~= seq![digit_char((dollars as int) % 10)]);
        if dollars < 10 {
            assert((dollars as int) % 10 == dollars as int);
            assert(dec_digits(dollars as nat) == seq![digit_char(dollars as int)]);
            assert(Seq::<char>::empty() + chars_rev(rev@) =~= dec_digits(dollars as nat));
        } else {
            assert(dec_digits(dollars as nat) == dec_digits((dollars as nat) / 10).push(
                digit_char(((dollars as nat) % 10) as int),
            ));
            assert(dec_digits((dollars as nat) / 10) + chars_rev(rev@) =~= dec_digits(
                (dollars as nat) / 10,
            ).push(digit_char(((dollars as nat) % 10) as int)));
        }
    }
    m = m / 10;
    while m != 0
        invariant
            forall|q: int| 0 <= q < rev@.len() ==> #[trigger] rev@[q] < 10,
            rev@.len() >= 1,
            (if m > 0 {
                dec_digits(m as nat)
            } else {
                Seq::<char>::empty()
            }) + chars_rev(rev@) == dec_digits(dollars as nat),
        decreases m,
    {
        let ghost old_rev = rev@;
        let ghost old_m = m;
        rev.push((m % 10) as u8);
        proof {
            assert(rev@.drop_last() =~= old_rev);
            assert(chars_rev(rev@) == seq![digit_char((old_m as int) % 10)] + chars_rev(old_rev));
            if old_m < 10 {
                assert(dec_digits(old_m as nat) =~= seq![digit_char((old_m as int) % 10)]);
                assert(chars_rev(rev@) =~= dec_digits(old_m as nat) + chars_rev(old_rev));
                assert(Seq::<char>::empty() + chars_rev(rev@) =~= chars_rev(rev@));
            } else {
                assert(dec_digits(old_m as nat) == dec_digits((old_m as nat) / 10).push(
                    digit_char(((old_m as nat) % 10) as int),
                ));
                assert(dec_digits((old_m as nat) / 10) + chars_rev(rev@) =~= (dec_digits(
                    old_m as nat,
                ) + chars_rev(old_rev)));
                assert(dec_digits((old_m as nat) / 10) + chars_rev(rev@) == dec_digits(
                    dollars as nat,
                ));
            }
            lemma_div_is_strictly_smaller(old_m as int, 10);
        }
        m = m / 10;
    }
    let mut out: String = String::new();
    let mut t: usize = rev.len();
    proof {
        assert(rev@.subrange(0, t as int) =~= rev@);
    }
    while t > 0
        invariant
            t <= rev@.len(),
            forall|q: int| 0 <= q < rev@.len() ==> #[trigger] rev@[q] < 10,
            out@ + chars_rev(rev@.subrange(0, t as int)) == dec_digits(dollars as nat),
        decreases t,
    {
        t = t - 1;
        let ghost old_out = out@;
        out.append(digit_str(rev[t]));
        proof {
            let pre = rev@.subrange(0, t as int + 1);
            assert(pre.drop_last() =~= rev@.subrange(0, t as int));
            assert(pre.last() == rev@[t as int]);
            assert(chars_rev(pre) == seq![digit_char(rev@[t as int] as int)] + chars_rev(
                rev@.subrange(0, t as int),
            ));
            assert(out@ + chars_rev(rev@.subrange(0, t as int)) =~= old_out + chars_rev(pre));
        }
    }
    proof {
        assert(rev@.subrange(0, 0) =~= Seq::<u8>::empty());
        assert(out@ + chars_rev(rev@.subrange(0, 0)) =~= out@);
        reveal_strlit(".");
    }
    let ghost whole = out@;
    out.append(".");
    let tens: u8 = (rem / 10) as u8;
    let units: u8 = (rem % 10) as u8;
    out.append(digit_str(tens));
    out.append(digit_str(units));
    proof {
        assert(out@ =~= price_text_of(p.cents as nat));
    }
    out
}

/// Law: formatted price text always shows exactly two decimal digits
/// after the dot.
pub proof fn lemma_price_text_shape(cents: u64)
    ensures
        is_price_text(price_text_of(cents as nat)),
{
    let s = price_text_of(cents as nat);
    let dd = dec_digits((cents as nat) / 100);
    lemma_dec_digits_basics((cents as nat) / 100);
    lemma_digit_char_val((((cents as nat) % 100) / 10) as int);
    lemma_digit_char_val((((cents as nat) % 100) % 10) as int);
    assert(s.subrange(0, s.len() - 3) =~= dd);
}

/// Law: a price round-trips through its text: the formatted text is valid
/// price text and parses back to the same cents.
pub proof fn lemma_price_round_trip(cents: u64)
    ensures
        valid_price_text(price_text_of(cents as nat)),
        price_cents_of(price_text_of(cents as nat)) == cents as int,
{
    let s = price_text_of(cents as nat);
    let dd = dec_digits((cents as nat) / 100);
    let k = dd.len() as int;
    lemma_dec_digits_basics((cents as nat) / 100);
    lemma_digits_val_dec_digits((cents as nat) / 100);
    let tens = (((cents as nat) % 100) / 10) as int;
    let units = (((cents as nat) % 100) % 10) as int;
    lemma_digit_char_val(tens);
    lemma_digit_char_val(units);
    assert(forall|j: int| 0 <= j < k ==> #[trigger] s[j] != '.');
    lemma_dot_index_at(s, k);
    assert(s.subrange(0, k) =~= dd);
    let f = s.subrange(k + 1, s.len() as int);
    assert(f =~= seq![digit_char(tens), digit_char(units)]);
    assert(frac_cents(f) == tens * 10 + units);
    lemma_fundamental_div_mod(cents as int, 100);
    lemma_fundamental_div_mod((cents as int) % 100, 10);
}

} // verus!
