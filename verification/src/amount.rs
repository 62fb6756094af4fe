//! Exact decimal amounts at a fixed scale of four fractional digits.
//!
//! An [`Amount`] is a signed decimal magnitude stored as an integer
//! count of ten-thousandths.  Its mathematical view is that integer, so
//! all arithmetic contracts are stated over `int` with no rounding.
//! Parsing and formatting use a canonical decimal text form: an
//! optional minus sign, an integer part, and a fractional part of at
//! most four digits with no trailing zeros.

use vstd::prelude::*;
use vstd::string::StrSliceExecFns;
use vstd::string::StringExecFns;

verus! {

/// True when `v` is representable by the underlying 64-bit integer.
pub open spec fn fits_i64(v: int) -> bool {
    i64::MIN <= v <= i64::MAX
}

/// The decimal digit characters, the only characters with a digit value.
pub open spec fn is_digit_char(c: char) -> bool {
    ||| c == '0'
    ||| c == '1'
    ||| c == '2'
    ||| c == '3'
    ||| c == '4'
    ||| c == '5'
    ||| c == '6'
    ||| c == '7'
    ||| c == '8'
    ||| c == '9'
}

/// Numeric value of a decimal digit character.
pub open spec fn digit_val(c: char) -> int {
    if c == '0' {
        0
    } else if c == '1' {
        1
    } else if c == '2' {
        2
    } else if c == '3' {
        3
    } else if c == '4' {
        4
    } else if c == '5' {
        5
    } else if c == '6' {
        6
    } else if c == '7' {
        7
    } else if c == '8' {
        8
    } else {
        9
    }
}

/// The decimal digit character for a value in `0 ..= 9`.
pub open spec fn digit_char(d: int) -> char {
    if d == 0 {
        '0'
    } else if d == 1 {
        '1'
    } else if d == 2 {
        '2'
    } else if d == 3 {
        '3'
    } else if d == 4 {
        '4'
    } else if d == 5 {
        '5'
    } else if d == 6 {
        '6'
    } else if d == 7 {
        '7'
    } else if d == 8 {
        '8'
    } else {
        '9'
    }
}

/// Every character of `s` is a decimal digit.
pub open spec fn all_digits(s: Seq<char>) -> bool {
    forall|i: int| 0 <= i < s.len() ==> is_digit_char(#[trigger] s[i])
}

/// Value of a digit string read most-significant first.
pub open spec fn digits_val(s: Seq<char>) -> int
    decreases s.len(),
{
    if s.len() == 0 {
        0
    } else {
        digits_val(s.drop_last()) * 10 + digit_val(s.last())
    }
}

/// Ten to the power `n`.
pub open spec fn pow10(n: nat) -> int
    decreases n,
{
    if n == 0 {
        1
    } else {
        10 * pow10((n - 1) as nat)
    }
}

/// Position `i` splits `s` into an integer digit part, a dot, and a
/// fractional digit part of at most four digits, with at least one
/// digit overall.
pub open spec fn dot_splits(s: Seq<char>, i: int) -> bool {
    &&& 0 <= i < s.len()
    &&& s[i] == '.'
    &&& all_digits(s.take(i))
    &&& all_digits(s.skip(i + 1))
    &&& s.len() - i - 1 <= 4
    &&& s.len() > 1
}

/// Grammar of an unsigned amount: digits, optionally with one dot and
/// at most four fractional digits, and at least one digit in total.
pub open spec fn valid_unsigned(s: Seq<char>) -> bool {
    ||| (s.len() > 0 && all_digits(s))
    ||| exists|i: int| dot_splits(s, i)
}

/// Value, in ten-thousandths, of an unsigned amount text.
pub open spec fn unsigned_val(s: Seq<char>) -> int
    recommends
        valid_unsigned(s),
{
    if all_digits(s) {
        digits_val(s) * 10000
    } else {
        let i = choose|i: int| dot_splits(s, i);
        digits_val(s.take(i)) * 10000 + digits_val(s.skip(i + 1)) * pow10(
            (4 - (s.len() - i - 1)) as nat,
        )
    }
}

/// Grammar of an amount text: an optional leading minus sign before an
/// unsigned amount.
pub open spec fn valid_amount_text(s: Seq<char>) -> bool {
    if s.len() > 0 && s[0] == '-' {
        valid_unsigned(s.skip(1))
    } else {
        valid_unsigned(s)
    }
}

/// Signed value, in ten-thousandths, of an amount text.
pub open spec fn amount_value(s: Seq<char>) -> int
    recommends
        valid_amount_text(s),
{
    if s.len() > 0 && s[0] == '-' {
        -unsigned_val(s.skip(1))
    } else {
        unsigned_val(s)
    }
}

/// Decimal digit string of a non-negative value, most-significant
/// first, with no leading zeros except for the value zero itself.
pub open spec fn dec_digits(n: int) -> Seq<char>
    recommends
        n >= 0,
    decreases n,
{
    if n < 10 {
        seq![digit_char(n)]
    } else {
        dec_digits(n / 10).push(digit_char(n % 10))
    }
}

/// Exactly `w` digit characters for `f`, zero-padded at the front.
pub open spec fn padded_digits(f: int, w: nat) -> Seq<char>
    decreases w,
{
    if w == 0 {
        Seq::empty()
    } else {
        padded_digits(f / 10, (w - 1) as nat).push(digit_char(f % 10))
    }
}

/// `w`-wide digit string of `f` with trailing zeros removed.
pub open spec fn trimmed_frac(f: int, w: nat) -> Seq<char>
    decreases w,
{
    if w > 0 && f % 10 == 0 {
        trimmed_frac(f / 10, (w - 1) as nat)
    } else {
        padded_digits(f, w)
    }
}

/// Canonical text of a non-negative amount value in ten-thousandths.
pub open spec fn unsigned_amount_text(m: int) -> Seq<char>
    recommends
        m >= 0,
{
    if m % 10000 == 0 {
        dec_digits(m / 10000)
    } else {
        dec_digits(m / 10000) + seq!['.'] + trimmed_frac(m % 10000, 4)
    }
}

/// Canonical text of an amount value in ten-thousandths: the integer
/// part, and the fractional digits only when they are not all zero,
/// with no trailing zeros.
pub open spec fn amount_text(v: int) -> Seq<char> {
    if v < 0 {
        seq!['-'] + unsigned_amount_text(-v)
    } else {
        unsigned_amount_text(v)
    }
}

/// Error returned when an amount text does not match the grammar or
/// does not fit the fixed-point range.
#[derive(Clone, Copy, Debug, PartialEq, Eq, Structural)]
pub struct InvalidAmount;

/// An exact decimal amount with four fractional digits, stored as a
/// signed count of ten-thousandths.
#[derive(Clone, Copy, Debug, PartialEq, Eq, Structural)]
pub struct Amount {
    raw: i64,
}

impl View for Amount {
    type V = int;

    closed spec fn view(&self) -> int {
        self.raw as int
    }
}

impl Amount {
    /// The zero amount.
    pub fn zero() -> (a: Amount)
        ensures
            a@ == 0,
    {
        Amount { raw: 0 }
    }

    /// The amount with the given whole-unit value.
    pub fn const_from_int(i: i64) -> (a: Amount)
        requires
            -922_337_203_685_477 <= i <= 922_337_203_685_477,
        ensures
            a@ == i * 10000,
    {
        Amount { raw: i * 10000 }
    }

    /// The underlying count of ten-thousandths.
    pub(crate) fn raw(&self) -> (r: i64)
        ensures
            r as int == self@,
    {
        self.raw
    }

    /// Exact sum; the caller must know it fits.
    pub(crate) fn add_exact(self, other: Amount) -> (r: Amount)
        requires
            fits_i64(self@ + other@),
        ensures
            r@ == self@ + other@,
    {
        Amount { raw: self.raw + other.raw }
    }

    /// Exact difference; the caller must know it fits.
    pub(crate) fn sub_exact(self, other: Amount) -> (r: Amount)
        requires
            fits_i64(self@ - other@),
        ensures
            r@ == self@ - other@,
    {
        Amount { raw: self.raw - other.raw }
    }

    /// Exact sum, or `None` when the sum leaves the representable
    /// range.
    pub fn checked_add(self, other: Amount) -> (r: Option<Amount>)
        ensures
            match r {
                Some(a) => fits_i64(self@ + other@) && a@ == self@ + other@,
                None => !fits_i64(self@ + other@),
            },
    {
        match self.raw.checked_add(other.raw) {
            Some(v) => Some(Amount { raw: v }),
            None => None,
        }
    }

    /// Exact difference, or `None` when it leaves the representable
    /// range.
    pub fn checked_sub(self, other: Amount) -> (r: Option<Amount>)
        ensures
            match r {
                Some(a) => fits_i64(self@ - other@) && a@ == self@ - other@,
                None => !fits_i64(self@ - other@),
            },
    {
        match self.raw.checked_sub(other.raw) {
            Some(v) => Some(Amount { raw: v }),
            None => None,
        }
    }

    /// Whether this amount is strictly positive.
    pub fn is_positive(&self) -> (r: bool)
        ensures
            r == (self@ > 0),
    {
        self.raw > 0
    }

    /// Whether `self >= other`.
    pub fn ge(&self, other: &Amount) -> (r: bool)
        ensures
            r == (self@ >= other@),
    {
        self.raw >= other.raw
    }
}

impl Default for Amount {
    /// The zero amount.
    fn default() -> (a: Amount)
        ensures
            a@ == 0,
    {
        Amount { raw: 0 }
    }
}

/// The single-character string for a decimal digit value.
fn digit_str(d: u64) -> (r: &'static str)
    requires
        d < 10,
    ensures
        r@ =~= seq![digit_char(d as int)],
{
    proof {
        reveal_strlit("0");
        reveal_strlit("1");
        reveal_strlit("2");
        reveal_strlit("3");
        reveal_strlit("4");
        reveal_strlit("5");
        reveal_strlit("6");
        reveal_strlit("7");
        reveal_strlit("8");
        reveal_strlit("9");
    }
    if d == 0 {
        "0"
    } else if d == 1 {
        "1"
    } else if d == 2 {
        "2"
    } else if d == 3 {
        "3"
    } else if d == 4 {
        "4"
    } else if d == 5 {
        "5"
    } else if d == 6 {
        "6"
    } else if d == 7 {
        "7"
    } else if d == 8 {
        "8"
    } else {
        "9"
    }
}

/// Appends the decimal digits of `n`, most-significant first.
pub(crate) fn push_dec_digits(s: &mut String, n: u64)
    ensures
        final(s)@ == old(s)@ + dec_digits(n as int),
    decreases n,
{
    if n >= 10 {
        push_dec_digits(s, n / 10);
    }
    s.append(digit_str(n % 10));
    proof {
        if n < 10 {
            assert(old(s)@ + dec_digits(n as int) =~= old(s)@ + seq![digit_char(n as int)]);
        } else {
            assert((old(s)@ + dec_digits(n as int / 10)) + seq![digit_char(n as int % 10)] =~= old(
                s,
            )@ + dec_digits(n as int));
        }
    }
}

/// Appends exactly `w` digits of `f`, zero-padded at the front.
fn push_padded(s: &mut String, f: u64, w: u64)
    ensures
        final(s)@ == old(s)@ + padded_digits(f as int, w as nat),
    decreases w,
{
    if w > 0 {
        push_padded(s, f / 10, w - 1);
        s.append(digit_str(f % 10));
        proof {
            assert((old(s)@ + padded_digits(f as int / 10, (w - 1) as nat)) + seq![
                digit_char(f as int % 10),
            ] =~= old(s)@ + padded_digits(f as int, w as nat));
        }
    } else {
        proof {
            assert(old(s)@ + padded_digits(f as int, 0) =~= old(s)@);
        }
    }
}

/// Appends the `w`-wide digits of `f` with trailing zeros removed.
fn push_trimmed(s: &mut String, f: u64, w: u64)
    ensures
        final(s)@ == old(s)@ + trimmed_frac(f as int, w as nat),
    decreases w,
{
    if w > 0 && f % 10 == 0 {
        push_trimmed(s, f / 10, w - 1);
    } else {
        push_padded(s, f, w);
    }
}

impl Amount {
    /// The canonical decimal text of this amount: optional minus sign,
    /// integer part, and fractional digits only when some are nonzero,
    /// with no trailing zeros.
    pub fn to_text(&self) -> (r: String)
        ensures
            r@ == amount_text(self@),
    {
        let mut s = String::new();
        let mag: u64;
        if self.raw < 0 {
            proof {
                reveal_strlit("-");
            }
            s.append("-");
            mag = (-(self.raw as i128)) as u64;
        } else {
            mag = self.raw as u64;
        }
        let ip: u64 = mag / 10000;
        let fp: u64 = mag % 10000;
        let ghost head = s@;
        push_dec_digits(&mut s, ip);
        if fp != 0 {
            proof {
                reveal_strlit(".");
            }
            s.append(".");
            push_trimmed(&mut s, fp, 4);
            proof {
                assert(s@ =~= head + unsigned_amount_text(mag as int));
            }
        } else {
            proof {
                assert(s@ =~= head + unsigned_amount_text(mag as int));
            }
        }
        proof {
            if self.raw < 0 {
                assert(s@ =~= seq!['-'] + unsigned_amount_text(-self@));
            }
        }
        s
    }
}

proof fn lemma_digits_val_nonneg(s: Seq<char>)
    requires
        all_digits(s),
    ensures
        digits_val(s) >= 0,
    decreases s.len(),
{
    if s.len() > 0 {
        assert(all_digits(s.drop_last())) by {
            assert(forall|i: int|
                0 <= i < s.len() - 1 ==> s.drop_last()[i] == s[i] && is_digit_char(#[trigger] s[i]));
        }
        lemma_digits_val_nonneg(s.drop_last());
    }
}

proof fn lemma_all_digits_take(s: Seq<char>, k: int)
    requires
        all_digits(s),
        0 <= k <= s.len(),
    ensures
        all_digits(s.take(k)),
{
    assert forall|i: int| 0 <= i < k implies is_digit_char(#[trigger] s.take(k)[i]) by {
        assert(s.take(k)[i] == s[i]);
    }
}

proof fn lemma_digits_val_prefix(s: Seq<char>, k: int)
    requires
        all_digits(s),
        0 <= k <= s.len(),
    ensures
        digits_val(s) >= digits_val(s.take(k)),
    decreases s.len() - k,
{
    if k < s.len() {
        assert(s.take(k + 1).drop_last() =~= s.take(k));
        assert(s.take(k + 1).last() == s[k]);
        lemma_all_digits_take(s, k);
        lemma_digits_val_nonneg(s.take(k));
        assert(digits_val(s.take(k + 1)) == digits_val(s.take(k)) * 10 + digit_val(s[k]));
        lemma_digits_val_prefix(s, k + 1);
    } else {
        assert(s.take(k) =~= s);
    }
}

proof fn lemma_pow10_pos(n: nat)
    ensures
        pow10(n) >= 1,
    decreases n,
{
    if n > 0 {
        lemma_pow10_pos((n - 1) as nat);
    }
}

proof fn lemma_digits_val_bound(s: Seq<char>)
    requires
        all_digits(s),
    ensures
        digits_val(s) < pow10(s.len()),
    decreases s.len(),
{
    if s.len() > 0 {
        assert(all_digits(s.drop_last())) by {
            assert(forall|i: int|
                0 <= i < s.len() - 1 ==> s.drop_last()[i] == s[i] && is_digit_char(#[trigger] s[i]));
        }
        lemma_digits_val_bound(s.drop_last());
        assert(digit_val(s.last()) <= 9);
        assert(pow10(s.len()) == 10 * pow10((s.len() - 1) as nat));
    }
}

proof fn lemma_dot_splits_unique(u: Seq<char>, i: int, j: int)
    requires
        dot_splits(u, i),
        dot_splits(u, j),
    ensures
        i == j,
{
    if i < j {
        assert(u.take(j)[i] == u[i]);
        assert(is_digit_char(u[i]));
    }
    if j < i {
        assert(u.take(i)[j] == u[j]);
        assert(is_digit_char(u[j]));
    }
}

/// Whether `c` is a decimal digit character.
fn is_digit(c: char) -> (r: bool)
    ensures
        r == is_digit_char(c),
{
    c == '0' || c == '1' || c == '2' || c == '3' || c == '4' || c == '5' || c == '6' || c == '7'
        || c == '8' || c == '9'
}

/// The numeric value of a decimal digit character.
fn digit_value(c: char) -> (d: u64)
    requires
        is_digit_char(c),
    ensures
        d as int == digit_val(c),
        d < 10,
{
    if c == '0' {
        0
    } else if c == '1' {
        1
    } else if c == '2' {
        2
    } else if c == '3' {
        3
    } else if c == '4' {
        4
    } else if c == '5' {
        5
    } else if c == '6' {
        6
    } else if c == '7' {
        7
    } else if c == '8' {
        8
    } else {
        9
    }
}



proof fn lemma_pow10_le(a: nat, b: nat)
    requires
        a <= b,
    ensures
        pow10(a) <= pow10(b),
    decreases b,
{
    if a < b {
        lemma_pow10_le(a, (b - 1) as nat);
        lemma_pow10_pos((b - 1) as nat);
    }
}

/// Ties the scanned flags to the text grammar: `valid` as computed by
/// the scan holds exactly of texts the grammar accepts, and on valid
/// texts pins the dot position and the value decomposition.
proof fn lemma_parse_grammar(t: Seq<char>, start: int, dot: int, alldig: bool, valid: bool)
    requires
        0 <= start <= 1,
        start <= t.len(),
        start == 1 <==> (t.len() > 0 && t[0] == '-'),
        dot == t.len() ==> forall|m: int| start <= m < t.len() ==> t[m] != '.',
        dot < t.len() ==> start <= dot && t[dot] == '.' && (forall|m: int|
            start <= m < dot ==> t[m] != '.'),
        dot <= t.len(),
        alldig <==> (forall|m: int|
            start <= m < t.len() && m != dot ==> is_digit_char(#[trigger] t[m])),
        valid == if t.len() - start == 0 {
            false
        } else if dot == t.len() {
            alldig
        } else {
            alldig && t.len() - dot - 1 <= 4 && t.len() - start > 1
        },
    ensures
        valid == valid_amount_text(t),
        valid ==> ({
            let u = t.skip(start);
            &&& valid_unsigned(u)
            &&& amount_value(t) == if start == 1 {
                -unsigned_val(u)
            } else {
                unsigned_val(u)
            }
            &&& (dot < t.len() ==> !all_digits(u) && dot_splits(u, dot - start) && unsigned_val(u)
                == digits_val(u.take(dot - start)) * 10000 + digits_val(u.skip(dot - start + 1))
                * pow10((4 - (t.len() - dot - 1)) as nat))
            &&& (dot == t.len() ==> all_digits(u) && unsigned_val(u) == digits_val(u) * 10000)
        }),
{
    let u = t.skip(start);
    assert(t.skip(0) =~= t);
    assert(u.len() == t.len() - start);
    assert(forall|i: int| 0 <= i < u.len() ==> u[i] == t[#[trigger] (i + start)]);
    if valid {
        if dot == t.len() {
            assert(all_digits(u)) by {
                assert forall|i: int| 0 <= i < u.len() implies is_digit_char(#[trigger] u[i]) by {
                    assert(u[i] == t[i + start]);
                }
            }
            assert(valid_unsigned(u));
        } else {
            let d = dot - start;
            assert(all_digits(u.take(d))) by {
                assert forall|i: int| 0 <= i < d implies is_digit_char(
                    #[trigger] u.take(d)[i],
                ) by {
                    assert(u.take(d)[i] == t[i + start]);
                }
            }
            assert(all_digits(u.skip(d + 1))) by {
                assert forall|i: int| 0 <= i < u.len() - d - 1 implies is_digit_char(
                    #[trigger] u.skip(d + 1)[i],
                ) by {
                    assert(u.skip(d + 1)[i] == t[i + dot + 1]);
                }
            }
            assert(u[d] == '.');
            assert(dot_splits(u, d));
            assert(valid_unsigned(u));
            assert(!all_digits(u));
            let ci = choose|i: int| dot_splits(u, i);
            assert(dot_splits(u, ci));
            lemma_dot_splits_unique(u, ci, d);
        }
        assert(valid_amount_text(t));
    } else {
        if t.len() - start == 0 {
            assert(!valid_unsigned(u));
        } else if dot == t.len() {
            let m = choose|m: int|
                start <= m < t.len() && m != dot && !is_digit_char(#[trigger] t[m]);
            assert(u[m - start] == t[m]);
            assert(!all_digits(u));
            assert(forall|i: int| 0 <= i < u.len() ==> #[trigger] u[i] != '.');
            assert(!valid_unsigned(u)) by {
                if exists|i: int| dot_splits(u, i) {
                    let i = choose|i: int| dot_splits(u, i);
                    assert(u[i] == '.');
                }
            }
        } else {
            let d = dot - start;
            assert(u[d] == '.');
            assert(!all_digits(u));
            assert(!valid_unsigned(u)) by {
                if exists|i: int| dot_splits(u, i) {
                    let i = choose|i: int| dot_splits(u, i);
                    if i < d {
                        assert(u.skip(i + 1)[d - i - 1] == u[d]);
                        assert(is_digit_char(u[d]));
                    } else if i > d {
                        assert(u.take(i)[d] == u[d]);
                        assert(is_digit_char(u[d]));
                    } else {
                        assert(u.len() - d - 1 <= 4 && u.len() > 1);
                        assert(alldig) by {
                            assert forall|m: int|
                                start <= m < t.len() && m != dot implies is_digit_char(
                                #[trigger] t[m],
                            ) by {
                                if m < dot {
                                    assert(u.take(d)[m - start] == t[m]);
                                } else {
                                    assert(u.skip(d + 1)[m - dot - 1] == t[m]);
                                }
                            }
                        }
                    }
                }
            }
        }
        assert(!valid_amount_text(t));
    }
}

impl Amount {
    /// Parses the canonical decimal text form: an optional minus sign,
    /// then digits with at most one dot and at most four fractional
    /// digits, with at least one digit.  Fails with [`InvalidAmount`]
    /// on any other text, and on a value outside the fixed-point
    /// range.
    #[verifier::loop_isolation(false)]
    #[verifier::rlimit(30)]
    pub fn from_str(s: &str) -> (r: Result<Amount, InvalidAmount>)
        ensures
            match r {
                Ok(a) => valid_amount_text(s@) && fits_i64(amount_value(s@)) && a@ == amount_value(
                    s@,
                ),
                Err(_) => !valid_amount_text(s@) || !fits_i64(amount_value(s@)),
            },
    {
        let n = s.unicode_len();
        let neg = n > 0 && s.get_char(0) == '-';
        let start: usize = if neg {
            1
        } else {
            0
        };
        let ghost u = s@.skip(start as int);
        // Find the first dot, if any; `dot == n` means none.
        let mut dot: usize = n;
        let mut j: usize = start;
        while j < n
            invariant
                start <= j <= n,
                dot <= n,
                dot == n ==> forall|m: int| start <= m < j ==> s@[m] != '.',
                dot < n ==> start <= dot < j && s@[dot as int] == '.' && (forall|m: int|
                    start <= m < dot ==> s@[m] != '.'),
            decreases n - j,
        {
            if dot == n && s.get_char(j) == '.' {
                dot = j;
            }
            j = j + 1;
        }
        // Check that everything else is a digit.
        let mut alldig = true;
        let mut p: usize = start;
        while p < n
            invariant
                start <= p <= n,
                alldig <==> (forall|m: int|
                    start <= m < p && m != dot as int ==> is_digit_char(#[trigger] s@[m])),
            decreases n - p,
        {
            if p != dot && !is_digit(s.get_char(p)) {
                alldig = false;
            }
            p = p + 1;
        }
        let valid: bool = if n - start == 0 {
            false
        } else if dot == n {
            alldig
        } else {
            alldig && n - dot - 1 <= 4 && n - start > 1
        };
        proof {
            lemma_parse_grammar(s@, start as int, dot as int, alldig, valid);
        }
        if !valid {
            return Err(InvalidAmount);
        }
        // Value of the integer digits.
        let intend: usize = if dot < n {
            dot
        } else {
            n
        };
        let ghost ipart = s@.subrange(start as int, intend as int);
        proof {
            if dot < n {
                assert(ipart =~= u.take(dot - start as int));
                lemma_digits_val_nonneg(u.skip(dot - start as int + 1));
                lemma_pow10_pos((4 - (s@.len() - dot - 1)) as nat);
                assert(digits_val(u.skip(dot - start as int + 1)) * pow10(
                    (4 - (s@.len() - dot - 1)) as nat,
                ) >= 0) by (nonlinear_arith)
                    requires
                        digits_val(u.skip(dot - start as int + 1)) >= 0,
                        pow10((4 - (s@.len() - dot - 1)) as nat) >= 1,
                ;
                assert(unsigned_val(u) >= digits_val(ipart) * 10000);
            } else {
                assert(ipart =~= u);
                assert(unsigned_val(u) >= digits_val(ipart) * 10000);
            }
        }
        let mut acc: u64 = 0;
        let mut q: usize = start;
        while q < intend
            invariant
                start <= q <= intend,
                acc as int == digits_val(s@.subrange(start as int, q as int)),
            decreases intend - q,
        {
            let c = s.get_char(q);
            proof {
                assert(s@[q as int] == ipart[q - start as int]);
            }
            let d = digit_value(c);
            let bumped = match acc.checked_mul(10) {
                Some(x) => x.checked_add(d),
                None => None,
            };
            match bumped {
                Some(y) => {
                    proof {
                        assert(s@.subrange(start as int, q as int + 1).drop_last() =~= s@.subrange(
                            start as int,
                            q as int,
                        ));
                        assert(s@.subrange(start as int, q as int + 1).last() == s@[q as int]);
                    }
                    acc = y;
                },
                None => {
                    proof {
                        lemma_parse_overflow(s@, u, ipart, start as int, q as int, intend as int, acc as int, d as int);
                    }
                    return Err(InvalidAmount);
                },
            }
            q = q + 1;
        }
        proof {
            assert(acc as int == digits_val(ipart));
        }
        // Value of the fractional digits, scaled to ten-thousandths.
        proof {
            assert(pow10(0) == 1);
            assert(pow10(1) == 10);
            assert(pow10(2) == 100);
            assert(pow10(3) == 1000);
            assert(pow10(4) == 10000);
        }
        let mut fr: u64 = 0;
        if dot < n {
            let ghost fpart = u.skip(dot - start as int + 1);
            proof {
                assert(fpart =~= s@.subrange(dot as int + 1, n as int));
            }
            let mut w: usize = dot + 1;
            while w < n
                invariant
                    dot < w <= n,
                    fr as int == digits_val(s@.subrange(dot as int + 1, w as int)),
                    (fr as int) < pow10((w - dot - 1) as nat),
                decreases n - w,
            {
                let c = s.get_char(w);
                proof {
                    assert(s@[w as int] == fpart[w - dot - 1]);
                    assert(s@.subrange(dot as int + 1, w as int + 1).drop_last() =~= s@.subrange(
                        dot as int + 1,
                        w as int,
                    ));
                    assert(s@.subrange(dot as int + 1, w as int + 1).last() == s@[w as int]);
                    assert(all_digits(s@.subrange(dot as int + 1, w as int + 1))) by {
                        assert forall|i: int| 0 <= i < w - dot implies is_digit_char(
                            #[trigger] s@.subrange(dot as int + 1, w as int + 1)[i],
                        ) by {
                            assert(s@.subrange(dot as int + 1, w as int + 1)[i] == s@[i + dot + 1]);
                            assert(fpart[i] == s@[i + dot + 1]);
                        }
                    }
                    lemma_digits_val_bound(s@.subrange(dot as int + 1, w as int + 1));
                    lemma_pow10_le((w - dot - 1) as nat, 3);
                }
                let d = digit_value(c);
                fr = fr * 10 + d;
                w = w + 1;
            }
            // Scale to four fractional digits.
            let fl: usize = n - dot - 1;
            let scale: u64 = if fl == 0 {
                10000
            } else if fl == 1 {
                1000
            } else if fl == 2 {
                100
            } else if fl == 3 {
                10
            } else {
                1
            };
            proof {
                assert(fr as int == digits_val(fpart));
                assert(scale as int == pow10((4 - fl) as nat));
                lemma_frac_scaled(fpart, fl as int, fr as int, scale as int);
            }
            fr = fr * scale;
            proof {
                assert(unsigned_val(u) == acc as int * 10000 + fr as int);
            }
        } else {
            proof {
                assert(unsigned_val(u) == acc as int * 10000 + fr as int);
            }
        }
        assert(unsigned_val(u) == acc as int * 10000 + fr as int);
        // Combine, watching the fixed-point range.
        let mag: u64 = match acc.checked_mul(10000) {
            Some(x) => match x.checked_add(fr) {
                Some(y) => y,
                None => {
                    return Err(InvalidAmount);
                },
            },
            None => {
                proof {
                    assert(acc as int * 10000 + fr as int > u64::MAX);
                }
                return Err(InvalidAmount);
            },
        };
        assert(mag as int == unsigned_val(u));
        if neg {
            if mag > 9223372036854775808u64 {
                return Err(InvalidAmount);
            }
            let raw: i64 = (-(mag as i128)) as i64;
            assert(raw as int == -(mag as int));
            Ok(Amount { raw })
        } else {
            if mag > 9223372036854775807u64 {
                return Err(InvalidAmount);
            }
            Ok(Amount { raw: mag as i64 })
        }
    }
}

proof fn lemma_frac_scaled(fpart: Seq<char>, fl: int, fr: int, scale: int)
    requires
        all_digits(fpart),
        fpart.len() == fl,
        0 <= fl <= 4,
        fr == digits_val(fpart),
        scale == pow10((4 - fl) as nat),
    ensures
        0 <= fr * scale < 10000,
        fr * scale == digits_val(fpart) * pow10((4 - fl) as nat),
{
    lemma_digits_val_bound(fpart);
    lemma_digits_val_nonneg(fpart);
    lemma_pow10_pos((4 - fl) as nat);
    assert(pow10(0) == 1);
    assert(pow10(1) == 10);
    assert(pow10(2) == 100);
    assert(pow10(3) == 1000);
    assert(pow10(4) == 10000);
    if fl == 0 {
        assert(pow10(fpart.len()) * pow10((4 - fl) as nat) == 10000);
    } else if fl == 1 {
        assert(pow10(fpart.len()) * pow10((4 - fl) as nat) == 10000);
    } else if fl == 2 {
        assert(pow10(fpart.len()) * pow10((4 - fl) as nat) == 10000);
    } else if fl == 3 {
        assert(pow10(fpart.len()) * pow10((4 - fl) as nat) == 10000);
    } else {
        assert(pow10(fpart.len()) * pow10((4 - fl) as nat) == 10000);
    }
    assert(fr * scale < pow10(fpart.len()) * scale) by (nonlinear_arith)
        requires
            fr < pow10(fpart.len()),
            scale >= 1,
    ;
    assert(fr * scale >= 0) by (nonlinear_arith)
        requires
            fr >= 0,
            scale >= 1,
    ;
}

/// When the integer digits scanned so far already exceed the 64-bit
/// range, the value of the whole text is out of the fixed-point range.
proof fn lemma_parse_overflow(
    t: Seq<char>,
    u: Seq<char>,
    ipart: Seq<char>,
    start: int,
    q: int,
    intend: int,
    acc: int,
    d: int,
)
    requires
        0 <= start <= q < intend <= t.len(),
        ipart == t.subrange(start, intend),
        all_digits(ipart),
        acc == digits_val(t.subrange(start, q)),
        d == digit_val(t[q]),
        d >= 0,
        acc * 10 + d > u64::MAX,
        unsigned_val(u) >= digits_val(ipart) * 10000,
        amount_value(t) == -unsigned_val(u) || amount_value(t) == unsigned_val(u),
    ensures
        !fits_i64(amount_value(t)),
{
    assert(t.subrange(start, q + 1).drop_last() =~= t.subrange(start, q));
    assert(t.subrange(start, q + 1).last() == t[q]);
    assert(digits_val(t.subrange(start, q + 1)) == acc * 10 + d);
    assert(t.subrange(start, q + 1) =~= ipart.take(q + 1 - start));
    lemma_digits_val_prefix(ipart, q + 1 - start);
    assert(digits_val(ipart) > u64::MAX);
    assert(digits_val(ipart) * 10000 > u64::MAX * 10000) by (nonlinear_arith)
        requires
            digits_val(ipart) > u64::MAX,
    ;
}

} // verus!
