use crate::digits::digit_char;
use crate::digits::dec_str;
use crate::digits::lemma_pow10_adds;
use crate::digits::lemma_pow10_pos;
use crate::digits::lemma_pow10_mono;
use crate::digits::padded_str;
use crate::digits::padded_u64;
use crate::digits::pow10;
use crate::digits::pow10_u64;
use crate::digits::u64_to_string;
use vstd::prelude::*;

verus! {

/// The largest number of fractional digits an amount may carry.
pub const MAX_SCALE: u32 = 19;

/// A non-negative decimal amount, exact: the represented value is
/// `mantissa / 10^scale`. Amounts keep the scale they were written with, so
/// formatting after parsing reproduces the fractional width of the input.
#[derive(Clone, Copy, Debug, PartialEq, Eq, Structural)]
pub struct Decimal {
    pub mantissa: u64,
    pub scale: u32,
}

impl Decimal {
    /// Well-formed amounts keep their mantissa under `10^MAX_SCALE`, so that
    /// every amount is an exact multiple of `10^-MAX_SCALE` and sums of two
    /// amounts can be computed without loss.
    pub open spec fn wf(self) -> bool {
        self.scale <= MAX_SCALE && self.mantissa < pow10(MAX_SCALE as nat)
    }

    /// The amount's value in units of `10^-MAX_SCALE` (a common scale for all
    /// well-formed amounts, so values of different scales compare exactly).
    pub open spec fn val(self) -> int {
        self.mantissa * pow10((MAX_SCALE - self.scale) as nat)
    }
}

pub open spec fn is_digit(c: char) -> bool {
    '0' as int <= c as int && c as int <= '9' as int
}

/// The numeric value of a single digit character.
pub open spec fn char_digit(c: char) -> nat {
    (c as int - '0' as int) as nat
}

pub open spec fn all_digits(s: Seq<char>) -> bool {
    forall|i: int| 0 <= i < s.len() ==> is_digit(s[i])
}

/// The index of the first `'.'` in `s`, or `s.len()` if there is none.
pub open spec fn dot_index(s: Seq<char>) -> int
    decreases s.len(),
{
    if s.len() == 0 {
        0
    } else if s[0] == '.' {
        0
    } else {
        1 + dot_index(s.skip(1))
    }
}

/// The digits before the first `'.'` (the whole string if there is no dot).
pub open spec fn int_part(s: Seq<char>) -> Seq<char> {
    s.subrange(0, dot_index(s))
}

/// The digits after the first `'.'` (empty if there is no dot).
pub open spec fn frac_part(s: Seq<char>) -> Seq<char> {
    if dot_index(s) == s.len() {
        Seq::empty()
    } else {
        s.subrange(dot_index(s) + 1, s.len() as int)
    }
}

/// A non-negative decimal number: one or more digits, optionally followed by
/// a `'.'` and one or more digits.
pub open spec fn is_decimal_string(s: Seq<char>) -> bool {
    &&& int_part(s).len() >= 1
    &&& all_digits(int_part(s))
    &&& (dot_index(s) == s.len() || (frac_part(s).len() >= 1 && all_digits(frac_part(s))))
}

/// The value of a digit string read in base ten.
pub open spec fn digits_val(s: Seq<char>) -> nat
    decreases s.len(),
{
    if s.len() == 0 {
        0
    } else {
        digits_val(s.drop_last()) * 10 + char_digit(s.last())
    }
}

/// The mantissa a decimal string denotes: all its digits, dot removed,
/// read as one base-ten number.
pub open spec fn mantissa_of(s: Seq<char>) -> nat {
    digits_val(int_part(s) + frac_part(s))
}

/// A decimal string the library accepts: grammatically a non-negative
/// decimal, with at most `MAX_SCALE` fractional digits and a mantissa under
/// `10^MAX_SCALE`.
pub open spec fn dec_ok(s: Seq<char>) -> bool {
    &&& is_decimal_string(s)
    &&& frac_part(s).len() <= MAX_SCALE
    &&& mantissa_of(s) < pow10(MAX_SCALE as nat)
}

/// What parsing a decimal string yields.
pub open spec fn spec_parse_decimal(s: Seq<char>) -> Option<Decimal> {
    if dec_ok(s) {
        Some(
            Decimal {
                mantissa: mantissa_of(s) as u64,
                scale: frac_part(s).len() as u32,
            },
        )
    } else {
        None
    }
}

pub proof fn lemma_dot_index_first(s: Seq<char>)
    ensures
        0 <= dot_index(s) <= s.len(),
        dot_index(s) < s.len() ==> s[dot_index(s)] == '.',
        forall|j: int| 0 <= j < dot_index(s) ==> s[j] != '.',
    decreases s.len(),
{
    if s.len() == 0 {
    } else if s[0] == '.' {
    } else {
        lemma_dot_index_first(s.skip(1));
        assert forall|j: int| 0 <= j < dot_index(s) implies s[j] != '.' by {
            if j > 0 {
                assert(s.skip(1)[j - 1] != '.');
            }
        }
    }
}

/// Reading a concatenation of digit strings: the left part is shifted by the
/// length of the right part.
#[verifier::rlimit(100)]
#[verifier::spinoff_prover]
pub proof fn lemma_digits_val_concat(a: Seq<char>, b: Seq<char>)
    ensures
        digits_val(a + b) == digits_val(a) * pow10(b.len()) + digits_val(b),
    decreases b.len(),
{
    if b.len() == 0 {
        assert(a + b =~= a);
        assert(digits_val(b) == 0);
        assert(pow10(0) == 1);
        assert(digits_val(a) * 1 == digits_val(a));
    } else {
        lemma_digits_val_concat(a, b.drop_last());
        assert((a + b).drop_last() =~= a + b.drop_last());
        assert((a + b).last() == b.last());
        let va = digits_val(a);
        let p = pow10((b.len() - 1) as nat);
        assert(digits_val(a + b) == (va * p + digits_val(b.drop_last())) * 10 + char_digit(
            b.last(),
        ));
        assert((va * p + digits_val(b.drop_last())) * 10 == va * (p * 10) + digits_val(
            b.drop_last(),
        ) * 10) by (nonlinear_arith);
        lemma_pow10_adds((b.len() - 1) as nat, 1);
        assert(pow10(0) == 1);
        assert(pow10(1) == 10 * pow10(0));
        assert(pow10(b.len()) == p * 10);
        assert(digits_val(b) == digits_val(b.drop_last()) * 10 + char_digit(b.last()));
        assert(digits_val(a + b) == va * (p * 10) + digits_val(b.drop_last()) * 10 + char_digit(
            b.last(),
        ));
        assert(va * pow10(b.len()) == va * (p * 10));
        assert(digits_val(a + b) == va * pow10(b.len()) + digits_val(b));
    }
}

/// A digit string is worth at least as much as any of its prefixes.
pub proof fn lemma_digits_val_prefix_le(a: Seq<char>, b: Seq<char>)
    ensures
        digits_val(a) <= digits_val(a + b),
{
    lemma_digits_val_concat(a, b);
    lemma_pow10_pos(b.len());
    let va = digits_val(a);
    let p = pow10(b.len());
    assert(va * p >= va * 1) by (nonlinear_arith)
        requires
            p >= 1,
            va >= 0,
    ;
}

/// Appending one digit multiplies the value by ten and adds the digit.
pub proof fn lemma_digits_val_push(s: Seq<char>, c: char)
    ensures
        digits_val(s.push(c)) == digits_val(s) * 10 + char_digit(c),
{
    assert(s.push(c).drop_last() =~= s);
    assert(s.push(c).last() == c);
}

/// Parses a non-negative decimal amount string. Returns `None` exactly when
/// the string is not of the form `digits[.digits]`, carries more than
/// `MAX_SCALE` fractional digits, or denotes a mantissa of `10^MAX_SCALE` or
/// more.
pub fn parse_decimal(s: &str) -> (r: Option<Decimal>)
    ensures
        r == spec_parse_decimal(s@),
        r is Some ==> r->Some_0.wf(),
{
    let n = s.unicode_len();
    proof {
        lemma_dot_index_first(s@);
    }
    if n == 0 {
        return None;
    }
    // Structure scan: every character a digit, save at most one interior dot.
    let mut i: usize = 0;
    let mut dot: usize = n;
    while i < n
        invariant
            n == s@.len(),
            0 <= i <= n,
            dot == n || (1 <= dot < i && dot < n - 1),
            dot < n ==> s@[dot as int] == '.',
            forall|j: int| 0 <= j < i && j != dot ==> is_digit(s@[j]) && s@[j] != '.',
        decreases n - i,
    {
        let c = s.get_char(i);
        let cv = c as u32;
        proof {
            lemma_dot_index_first(s@);
        }
        if c == '.' {
            if dot < n {
                // a second dot lands in the fractional part
                proof {
                    assert(dot_index(s@) == dot as int);
                    assert(frac_part(s@)[i - dot - 1] == '.');
                }
                return None;
            }
            if i == 0 {
                // empty integer part
                proof {
                    assert(dot_index(s@) == 0);
                }
                return None;
            }
            if i == n - 1 {
                // empty fractional part
                proof {
                    assert(dot_index(s@) == i as int);
                    assert(frac_part(s@).len() == 0);
                }
                return None;
            }
            dot = i;
        } else if cv < 48 || cv > 57 {
            // neither digit nor dot: some part is not all digits
            proof {
                assert('0' as int == 48 && '9' as int == 57);
                assert(!is_digit(s@[i as int]));
                let d = dot_index(s@);
                if d == s@.len() {
                    assert(int_part(s@)[i as int] == s@[i as int]);
                } else if i < d {
                    assert(int_part(s@)[i as int] == s@[i as int]);
                } else {
                    assert(i != d);
                    assert(frac_part(s@)[i - d - 1] == s@[i as int]);
                }
            }
            return None;
        }
        i = i + 1;
    }
    proof {
        assert('0' as int == 48 && '9' as int == 57);
        if dot == n {
            assert(dot_index(s@) == s@.len());
            assert(int_part(s@) =~= s@);
        } else {
            assert(dot_index(s@) == dot as int);
        }
        assert(is_decimal_string(s@));
    }
    let scale: usize = if dot < n {
        n - dot - 1
    } else {
        0
    };
    if scale > 19 {
        proof {
            assert(frac_part(s@).len() > MAX_SCALE);
        }
        return None;
    }
    // Mantissa accumulation over the digits, dot skipped.
    let p19: u64 = pow10_u64(19);
    let bound: u128 = p19 as u128;
    proof {
        reveal_with_fuel(pow10, 20);
        assert(bound == 10000000000000000000);
    }
    let mut m: u128 = 0;
    let mut k: usize = 0;
    let ghost mut digs: Seq<char> = Seq::empty();
    proof {
        assert(digs =~= s@.subrange(0, 0));
    }
    while k < n
        invariant
            n == s@.len(),
            0 <= k <= n,
            dot == n || (1 <= dot < n - 1 && s@[dot as int] == '.'),
            dot == n ==> dot_index(s@) == s@.len(),
            dot < n ==> dot_index(s@) == dot as int,
            is_decimal_string(s@),
            forall|j: int| 0 <= j < n && j != dot ==> is_digit(s@[j]),
            bound == pow10(MAX_SCALE as nat),
            bound == 10000000000000000000,
            k <= dot ==> digs == s@.subrange(0, k as int),
            k > dot ==> digs == s@.subrange(0, dot as int) + s@.subrange(dot + 1, k as int),
            m == digits_val(digs),
            m < bound,
        decreases n - k,
    {
        if k != dot {
            let c = s.get_char(k);
            let cv = c as u32;
            proof {
                assert('0' as int == 48);
                assert(is_digit(s@[k as int]));
            }
            let d: u32 = cv - 48;
            let m2: u128 = m * 10 + (d as u128);
            proof {
                lemma_digits_val_push(digs, c);
                assert(char_digit(c) == d);
            }
            if m2 >= bound {
                proof {
                    let full = int_part(s@) + frac_part(s@);
                    let digs2 = digs.push(c);
                    if dot == n {
                        assert(digs2 =~= s@.subrange(0, k + 1));
                        assert(full =~= digs2 + s@.subrange(k + 1, n as int));
                        lemma_digits_val_prefix_le(digs2, s@.subrange(k + 1, n as int));
                    } else if k < dot {
                        assert(digs2 =~= s@.subrange(0, k + 1));
                        assert(full =~= digs2 + (s@.subrange(k + 1, dot as int) + s@.subrange(
                            dot + 1,
                            n as int,
                        )));
                        lemma_digits_val_prefix_le(
                            digs2,
                            s@.subrange(k + 1, dot as int) + s@.subrange(dot + 1, n as int),
                        );
                    } else {
                        assert(digs2 =~= s@.subrange(0, dot as int) + s@.subrange(
                            dot + 1,
                            k + 1,
                        ));
                        assert(full =~= digs2 + s@.subrange(k + 1, n as int));
                        lemma_digits_val_prefix_le(digs2, s@.subrange(k + 1, n as int));
                    }
                    assert(mantissa_of(s@) >= m2);
                }
                return None;
            }
            m = m2;
            proof {
                digs = digs.push(c);
                if k < dot {
                    assert(digs =~= s@.subrange(0, k + 1));
                } else {
                    assert(digs =~= s@.subrange(0, dot as int) + s@.subrange(dot + 1, k + 1));
                }
            }
        } else {
            proof {
                assert(digs =~= s@.subrange(0, dot as int) + s@.subrange(dot + 1, dot + 1));
            }
        }
        k = k + 1;
    }
    proof {
        let full = int_part(s@) + frac_part(s@);
        if dot == n {
            assert(frac_part(s@) =~= Seq::<char>::empty());
            assert(digs =~= full);
        } else {
            assert(digs =~= full);
            assert(frac_part(s@).len() == n - dot - 1);
        }
        assert(m == mantissa_of(s@));
    }
    Some(
        Decimal {
            mantissa: m as u64,
            scale: scale as u32,
        },
    )
}

/// What adding two amounts yields: both are brought to the wider scale; the
/// sum is rejected only when its mantissa would leave the representable range.
pub open spec fn spec_add(a: Decimal, b: Decimal) -> Option<Decimal> {
    let sc = if a.scale >= b.scale {
        a.scale
    } else {
        b.scale
    };
    let ma = a.mantissa * pow10((sc - a.scale) as nat);
    let mb = b.mantissa * pow10((sc - b.scale) as nat);
    if ma + mb < pow10(MAX_SCALE as nat) {
        Some(
            Decimal {
                mantissa: (ma + mb) as u64,
                scale: sc,
            },
        )
    } else {
        None
    }
}

/// Bringing a well-formed amount to a wider scale keeps its value.
proof fn lemma_val_align(d: Decimal, sc: u32)
    requires
        d.wf(),
        d.scale <= sc <= MAX_SCALE,
    ensures
        (d.mantissa * pow10((sc - d.scale) as nat)) * pow10((MAX_SCALE - sc) as nat) == d.val(),
{
    let k1 = (sc - d.scale) as nat;
    let k2 = (MAX_SCALE - sc) as nat;
    lemma_pow10_adds(k1, k2);
    let m = d.mantissa as nat;
    assert((m * pow10(k1)) * pow10(k2) == m * (pow10(k1) * pow10(k2))) by (nonlinear_arith);
}

impl Decimal {
    /// Exact decimal addition. Returns `None` only when the sum's mantissa,
    /// at the wider of the two scales, would reach `10^MAX_SCALE`.
    pub fn add_exact(self, other: Decimal) -> (r: Option<Decimal>)
        requires
            self.wf(),
            other.wf(),
        ensures
            r == spec_add(self, other),
            r is Some ==> r->Some_0.wf(),
            r is Some ==> r->Some_0.val() == self.val() + other.val(),
    {
        let sc: u32 = if self.scale >= other.scale {
            self.scale
        } else {
            other.scale
        };
        proof {
            reveal_with_fuel(pow10, 20);
            assert(pow10(MAX_SCALE as nat) == 10000000000000000000);
            lemma_pow10_mono((sc - self.scale) as nat, MAX_SCALE as nat);
            lemma_pow10_mono((sc - other.scale) as nat, MAX_SCALE as nat);
            assert((self.mantissa as int) * pow10((sc - self.scale) as nat) < pow10(
                MAX_SCALE as nat,
            ) * pow10(MAX_SCALE as nat)) by (nonlinear_arith)
                requires
                    (self.mantissa as int) < pow10(MAX_SCALE as nat),
                    pow10((sc - self.scale) as nat) <= pow10(MAX_SCALE as nat),
                    pow10((sc - self.scale) as nat) >= 0,
                    pow10(MAX_SCALE as nat) > 0,
            ;
            assert((other.mantissa as int) * pow10((sc - other.scale) as nat) < pow10(
                MAX_SCALE as nat,
            ) * pow10(MAX_SCALE as nat)) by (nonlinear_arith)
                requires
                    (other.mantissa as int) < pow10(MAX_SCALE as nat),
                    pow10((sc - other.scale) as nat) <= pow10(MAX_SCALE as nat),
                    pow10((sc - other.scale) as nat) >= 0,
                    pow10(MAX_SCALE as nat) > 0,
            ;
        }
        let ma: u128 = (self.mantissa as u128) * (pow10_u64(sc - self.scale) as u128);
        let mb: u128 = (other.mantissa as u128) * (pow10_u64(sc - other.scale) as u128);
        let p19: u128 = pow10_u64(19) as u128;
        let sum: u128 = ma + mb;
        if sum < p19 {
            let r = Decimal {
                mantissa: sum as u64,
                scale: sc,
            };
            proof {
                lemma_val_align(self, sc);
                lemma_val_align(other, sc);
                assert((ma + mb) * pow10((MAX_SCALE - sc) as nat) == ma * pow10(
                    (MAX_SCALE - sc) as nat,
                ) + mb * pow10((MAX_SCALE - sc) as nat)) by (nonlinear_arith);
            }
            Some(r)
        } else {
            None
        }
    }

    /// The canonical rendering of an amount: the integer digits, then, for a
    /// positive scale, a dot and exactly `scale` fractional digits.
    pub open spec fn spec_format(self) -> Seq<char> {
        if self.scale == 0 {
            dec_str(self.mantissa as nat)
        } else {
            dec_str((self.mantissa as nat) / pow10(self.scale as nat)) + seq!['.'] + padded_str(
                self.mantissa as nat,
                self.scale as nat,
            )
        }
    }

    /// Renders the amount as a decimal string.
    #[verifier::spinoff_prover]
    pub fn format(self) -> (r: String)
        requires
            self.wf(),
        ensures
            r@ == self.spec_format(),
    {
        if self.scale == 0 {
            u64_to_string(self.mantissa)
        } else {
            let p = pow10_u64(self.scale);
            proof {
                lemma_pow10_pos(self.scale as nat);
            }
            let mut r = u64_to_string(self.mantissa / p);
            r.append(".");
            let frac = padded_u64(self.mantissa, self.scale as u64);
            r.append(frac.as_str());
            proof {
                reveal_strlit(".");
                assert(r@ =~= self.spec_format());
            }
            r
        }
    }
}

proof fn lemma_digit_char_props(d: nat)
    requires
        d < 10,
    ensures
        is_digit(digit_char(d)),
        char_digit(digit_char(d)) == d,
        digit_char(d) != '.',
{
    assert('0' as int == 48 && '9' as int == 57 && '.' as int == 46);
}

pub proof fn lemma_dec_str_props(n: nat)
    ensures
        dec_str(n).len() >= 1,
        all_digits(dec_str(n)),
        forall|j: int| 0 <= j < dec_str(n).len() ==> dec_str(n)[j] != '.',
        digits_val(dec_str(n)) == n,
    decreases n,
{
    if n < 10 {
        lemma_digit_char_props(n);
        assert(dec_str(n) == seq![digit_char(n)]);
        assert(dec_str(n).last() == digit_char(n));
        assert(dec_str(n).drop_last() =~= Seq::<char>::empty());
        assert(digits_val(Seq::<char>::empty()) == 0);
        assert(digits_val(dec_str(n)) == 0 * 10 + char_digit(digit_char(n)));
    } else {
        lemma_dec_str_props(n / 10);
        lemma_digit_char_props(n % 10);
        let s = dec_str(n);
        assert(s == dec_str(n / 10) + seq![digit_char(n % 10)]);
        assert(s.drop_last() =~= dec_str(n / 10));
        assert(s.last() == digit_char(n % 10));
        assert(digits_val(s) == (n / 10) * 10 + n % 10);
        assert forall|j: int| 0 <= j < s.len() implies is_digit(s[j]) && s[j] != '.' by {
            if j < s.len() - 1 {
                assert(s[j] == dec_str(n / 10)[j]);
            }
        }
    }
}

pub proof fn lemma_padded_str_props(n: nat, w: nat)
    ensures
        padded_str(n, w).len() == w,
        all_digits(padded_str(n, w)),
        forall|j: int| 0 <= j < w ==> padded_str(n, w)[j] != '.',
        digits_val(padded_str(n, w)) == n % pow10(w),
    decreases w,
{
    lemma_pow10_pos(w);
    if w == 0 {
        assert(n % 1 == 0) by (nonlinear_arith);
    } else {
        lemma_padded_str_props(n / 10, (w - 1) as nat);
        lemma_digit_char_props(n % 10);
        let s = padded_str(n, w);
        let p = pow10((w - 1) as nat);
        lemma_pow10_pos((w - 1) as nat);
        assert(s.drop_last() =~= padded_str(n / 10, (w - 1) as nat));
        assert(s.last() == digit_char(n % 10));
        assert(digits_val(s) == ((n / 10) % p) * 10 + n % 10);
        let q = ((n / 10) / p);
        vstd::arithmetic::div_mod::lemma_fundamental_div_mod(n as int / 10, p as int);
        assert(n as int / 10 == q * p + ((n / 10) % p));
        vstd::arithmetic::div_mod::lemma_fundamental_div_mod(n as int, 10);
        assert(n as int == (n as int / 10) * 10 + (n as int) % 10);
        assert((q * p + ((n / 10) % p) as int) * 10 == q * (p * 10) + (((n / 10) % p) as int)
            * 10) by (nonlinear_arith);
        assert(((n / 10) % p) * 10 + n % 10 < p * 10) by (nonlinear_arith)
            requires
                (n / 10) % p < p,
                n % 10 < 10,
                p >= 1,
        ;
        vstd::arithmetic::div_mod::lemma_fundamental_div_mod_converse(
            n as int,
            (p * 10) as int,
            q as int,
            (((n / 10) % p) * 10 + n % 10) as int,
        );
        assert(pow10(w) == 10 * p);
        assert(n % (10 * p) == n % (p * 10));
        assert forall|j: int| 0 <= j < s.len() implies is_digit(s[j]) && s[j] != '.' by {
            if j < s.len() - 1 {
                assert(s[j] == padded_str(n / 10, (w - 1) as nat)[j]);
            }
        }
    }
}

proof fn lemma_dot_index_unique(s: Seq<char>, k: int)
    requires
        0 <= k < s.len(),
        s[k] == '.',
        forall|j: int| 0 <= j < k ==> s[j] != '.',
    ensures
        dot_index(s) == k,
{
    lemma_dot_index_first(s);
    if dot_index(s) < k {
        assert(s[dot_index(s)] == '.');
    }
}

/// A character a decimal rendering may contain.
pub open spec fn digit_or_dot(c: char) -> bool {
    is_digit(c) || c == '.'
}

/// A well-formed amount renders to at least one character, all of them
/// digits or a dot.
pub proof fn lemma_format_chars(d: Decimal)
    requires
        d.wf(),
    ensures
        d.spec_format().len() >= 1,
        forall|k: int| 0 <= k < d.spec_format().len() ==> digit_or_dot(#[trigger] d.spec_format()[k]),
{
    let m = d.mantissa as nat;
    if d.scale == 0 {
        lemma_dec_str_props(m);
    } else {
        let p = pow10(d.scale as nat);
        lemma_pow10_pos(d.scale as nat);
        let ip = dec_str(m / p);
        let fp = padded_str(m, d.scale as nat);
        lemma_dec_str_props(m / p);
        lemma_padded_str_props(m, d.scale as nat);
        assert forall|k: int| 0 <= k < d.spec_format().len() implies digit_or_dot(
            #[trigger] d.spec_format()[k],
        ) by {
            if k < ip.len() {
                assert(d.spec_format()[k] == ip[k]);
            } else if k == ip.len() {
                assert(d.spec_format()[k] == '.');
            } else {
                assert(d.spec_format()[k] == fp[k - ip.len() - 1]);
            }
        }
    }
}

/// The sum of two amounts is exact: no truncation, whatever the two scales.
/// Whenever the sum is representable, its value is the sum of the values.
pub proof fn lemma_add_exact_value(a: Decimal, b: Decimal)
    requires
        a.wf(),
        b.wf(),
        spec_add(a, b) is Some,
    ensures
        spec_add(a, b)->Some_0.wf(),
        spec_add(a, b)->Some_0.val() == a.val() + b.val(),
{
    let sc = if a.scale >= b.scale {
        a.scale
    } else {
        b.scale
    };
    let ma = a.mantissa * pow10((sc - a.scale) as nat);
    let mb = b.mantissa * pow10((sc - b.scale) as nat);
    lemma_val_align(a, sc);
    lemma_val_align(b, sc);
    assert((ma + mb) * pow10((MAX_SCALE - sc) as nat) == ma * pow10((MAX_SCALE - sc) as nat) + mb
        * pow10((MAX_SCALE - sc) as nat)) by (nonlinear_arith);
    reveal_with_fuel(pow10, 20);
    assert(pow10(MAX_SCALE as nat) == 10000000000000000000);
    assert(spec_add(a, b)->Some_0.mantissa == ma + mb);
    assert(spec_add(a, b)->Some_0.scale == sc);
}

/// Round trip: parsing the rendering of a well-formed amount gives the same
/// amount back — same mantissa and same scale.
pub proof fn lemma_format_parse_round_trip(d: Decimal)
    requires
        d.wf(),
    ensures
        spec_parse_decimal(d.spec_format()) == Some(d),
{
    let s = d.spec_format();
    let m = d.mantissa as nat;
    if d.scale == 0 {
        lemma_dec_str_props(m);
        lemma_dot_index_first(s);
        if dot_index(s) < s.len() {
            assert(s[dot_index(s)] == '.');
        }
        assert(dot_index(s) == s.len());
        assert(int_part(s) =~= s);
        assert(frac_part(s) =~= Seq::<char>::empty());
        assert(int_part(s) + frac_part(s) =~= s);
        assert(mantissa_of(s) == m);
        assert(dec_ok(s));
    } else {
        let w = d.scale as nat;
        let p = pow10(w);
        lemma_pow10_pos(w);
        let ip = dec_str(m / p);
        let fp = padded_str(m, w);
        lemma_dec_str_props(m / p);
        lemma_padded_str_props(m, w);
        let k = ip.len() as int;
        assert(s[k] == '.');
        assert forall|j: int| 0 <= j < k implies s[j] != '.' by {
            assert(s[j] == ip[j]);
        }
        lemma_dot_index_unique(s, k);
        assert(int_part(s) =~= ip);
        assert(frac_part(s) =~= fp);
        assert(int_part(s) + frac_part(s) =~= ip + fp);
        lemma_digits_val_concat(ip, fp);
        assert(digits_val(ip + fp) == (m / p) * pow10(fp.len()) + (m % p));
        vstd::arithmetic::div_mod::lemma_fundamental_div_mod(m as int, p as int);
        assert((m / p) * p == p * (m / p)) by (nonlinear_arith);
        assert(mantissa_of(s) == m);
        lemma_pow10_mono(w, MAX_SCALE as nat);
        assert(dec_ok(s));
        assert(frac_part(s).len() == d.scale);
    }
}

} // verus!
