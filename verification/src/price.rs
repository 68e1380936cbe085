//! Decimal prices with a total order suitable for a sorted map key.
//!
//! A price is held as a signed count of units of `10^-18`, so that ordering,
//! subtraction and midpoint arithmetic are plain integer operations. Parsing
//! accepts an optional sign, an integer part and a fractional part of at most
//! eighteen digits; the integer part must stay below `10^12`.

use vstd::prelude::*;

verus! {

/// `10^n`.
pub open spec fn pow10(n: nat) -> int {
    vstd::arithmetic::power::pow(10, n)
}

/// Units per whole: one price unit is `10^-18`.
pub const PRICE_SCALE: i128 = 1_000_000_000_000_000_000;

/// Strict bound on the units of any parsed price: `10^30`.
pub const PRICE_UNIT_BOUND: i128 = 1_000_000_000_000_000_000_000_000_000_000;

/// Strict bound on the integer part of a parsed price: `10^12`.
pub const PRICE_INT_BOUND: u128 = 1_000_000_000_000;

pub open spec fn is_digit(c: char) -> bool {
    48 <= c as int <= 57
}

pub open spec fn digit_val(c: char) -> int {
    c as int - 48
}

pub open spec fn all_digits(s: Seq<char>) -> bool {
    forall|i: int| 0 <= i < s.len() ==> is_digit(#[trigger] s[i])
}

/// The value of a string of decimal digits, most significant first.
pub open spec fn digits_val(s: Seq<char>) -> int
    decreases s.len(),
{
    if s.len() == 0 {
        0
    } else {
        digits_val(s.drop_last()) * 10 + digit_val(s.last())
    }
}

/// Index of the first `'.'` in `s`, or `s.len()` if there is none.
pub open spec fn first_dot(s: Seq<char>) -> int
    decreases s.len(),
{
    if s.len() == 0 {
        0
    } else if s[0] == '.' {
        0
    } else {
        1 + first_dot(s.drop_first())
    }
}

/// Sign carried by a leading `'-'` or `'+'`, and the remaining characters.
pub open spec fn sign_split(s: Seq<char>) -> (int, Seq<char>) {
    if s.len() > 0 && s[0] == '-' {
        (-1, s.drop_first())
    } else if s.len() > 0 && s[0] == '+' {
        (1, s.drop_first())
    } else {
        (1, s)
    }
}

/// Contribution of fractional digits `f`, scaled to units of `10^-18`.
pub open spec fn frac_scaled(f: Seq<char>) -> int {
    digits_val(f) * pow10((18 - f.len()) as nat)
}

/// The number of `10^-18` units denoted by a decimal string, or `None` if the
/// string is not a decimal of the accepted shape and range.
pub open spec fn price_units_of(s: Seq<char>) -> Option<int> {
    let (sign, t) = sign_split(s);
    let d = first_dot(t);
    if d == t.len() {
        if t.len() > 0 && all_digits(t) && digits_val(t) < pow10(12) {
            Some(sign * digits_val(t) * pow10(18))
        } else {
            None
        }
    } else {
        let ip = t.take(d);
        let fp = t.skip(d + 1);
        if ip.len() + fp.len() > 0 && all_digits(ip) && all_digits(fp) && fp.len() <= 18
            && digits_val(ip) < pow10(12) {
            Some(sign * (digits_val(ip) * pow10(18) + frac_scaled(fp)))
        } else {
            None
        }
    }
}

pub proof fn lemma_pow10_vals()
    ensures
        pow10(0) == 1,
        pow10(4) == 10_000,
        pow10(12) == PRICE_INT_BOUND,
        pow10(18) == PRICE_SCALE,
        pow10(30) == PRICE_UNIT_BOUND,
{
    reveal_with_fuel(vstd::arithmetic::power::pow, 32);
}

pub proof fn lemma_digits_val_bounds(s: Seq<char>)
    requires
        all_digits(s),
    ensures
        0 <= digits_val(s) < pow10(s.len()),
    decreases s.len(),
{
    broadcast use vstd::arithmetic::power::lemma_pow_positive;

    if s.len() == 0 {
        assert(pow10(0) == 1) by {
            vstd::arithmetic::power::lemma_pow0(10);
        }
    } else {
        assert(all_digits(s.drop_last())) by {
            assert(forall|i: int|
                0 <= i < s.len() - 1 ==> s.drop_last()[i] == #[trigger] s[i]);
        }
        lemma_digits_val_bounds(s.drop_last());
        assert(pow10(s.len() as nat) == 10 * pow10((s.len() - 1) as nat)) by {
            vstd::arithmetic::power::lemma_pow1(10);
            vstd::arithmetic::power::lemma_pow_adds(10, 1, (s.len() - 1) as nat);
        }
        assert(digits_val(s.drop_last()) * 10 + digit_val(s.last()) < pow10(s.len() as nat))
            by (nonlinear_arith)
            requires
                0 <= digits_val(s.drop_last()) < pow10((s.len() - 1) as nat),
                digit_val(s.last()) <= 9,
                pow10(s.len() as nat) == 10 * pow10((s.len() - 1) as nat),
        {}
    }
}

/// Appending a digit does not decrease the value of a digit string.
pub proof fn lemma_digits_val_prefix(s: Seq<char>, i: int)
    requires
        0 <= i < s.len(),
        all_digits(s.take(i + 1)),
    ensures
        digits_val(s.take(i)) <= digits_val(s.take(i + 1)),
{
    assert(s.take(i + 1).drop_last() =~= s.take(i));
    assert(all_digits(s.take(i)));
    lemma_digits_val_bounds(s.take(i));
    assert(digits_val(s.take(i + 1)) == digits_val(s.take(i)) * 10 + digit_val(s.take(i + 1).last()));
}

proof fn lemma_first_dot_at(s: Seq<char>, k: int)
    requires
        0 <= k <= s.len(),
        forall|j: int| 0 <= j < k ==> s[j] != '.',
        k < s.len() ==> s[k] == '.',
    ensures
        first_dot(s) == k,
    decreases s.len(),
{
    if s.len() == 0 {
    } else if s[0] == '.' {
    } else {
        assert(forall|j: int| 0 <= j < k - 1 ==> s.drop_first()[j] == #[trigger] s[j + 1]);
        lemma_first_dot_at(s.drop_first(), k - 1);
    }
}

/// A decimal price, stored as a signed count of `10^-18` units.
#[derive(Debug, Clone, Copy, PartialEq, Eq, Structural)]
pub struct Price {
    pub units: i128,
}

impl View for Price {
    type V = int;

    open spec fn view(&self) -> int {
        self.units as int
    }
}

impl DeepView for Price {
    type V = int;

    open spec fn deep_view(&self) -> int {
        self.view()
    }
}

impl Price {
    /// All prices that arise from parsing or book operations stay in range.
    pub open spec fn inv(self) -> bool {
        -PRICE_UNIT_BOUND < self.units < PRICE_UNIT_BOUND
    }

    /// The raw count of `10^-18` units.
    pub fn units(&self) -> (r: i128)
        ensures
            r as int == self@,
    {
        self.units
    }

    /// Parse a decimal string: optional sign, integer digits, and an
    /// optional fractional part. The integer part must stay below `10^12`
    /// and the fraction within eighteen digits — the range the fixed-point
    /// representation holds exactly; a decimal outside it does not parse,
    /// and a book diff carrying one is skipped.
    #[verifier::loop_isolation(false)]
    #[verifier::rlimit(60)]
    pub fn parse(s: &str) -> (r: Option<Price>)
        ensures
            match r {
                Some(p) => p.inv() && price_units_of(s@) == Some(p@),
                None => price_units_of(s@) is None,
            },
    {
        proof {
            lemma_pow10_vals();
        }
        let n = s.unicode_len();
        let mut start: usize = 0;
        let mut neg = false;
        if n > 0 {
            let c0 = s.get_char(0);
            if c0 == '-' {
                neg = true;
                start = 1;
            } else if c0 == '+' {
                start = 1;
            }
        }
        let t = s.substring_char(start, n);
        let ghost tv = t@;
        proof {
            let (sg, tt) = sign_split(s@);
            assert(tt =~= tv);
            assert(sg == if neg { -1int } else { 1int });
        }
        let m = n - start;
        assert(m == tv.len());

        // Locate the first dot.
        let mut dot: usize = m;
        let mut i: usize = 0;
        while i < m
            invariant
                0 <= i <= m,
                dot <= m,
                m == tv.len(),
                t@ == tv,
                dot == m ==> forall|j: int| 0 <= j < i ==> tv[j] != '.',
                dot < m ==> dot < i && tv[dot as int] == '.' && forall|j: int|
                    0 <= j < dot ==> tv[j] != '.',
            decreases m - i,
        {
            if t.get_char(i) == '.' && dot == m {
                dot = i;
            }
            i = i + 1;
        }
        proof {
            lemma_first_dot_at(tv, dot as int);
        }

        // Integer digits.
        let mut acc: u128 = 0;
        let mut i: usize = 0;
        while i < dot
            invariant
                0 <= i <= dot <= m,
                m == tv.len(),
                t@ == tv,
                all_digits(tv.take(i as int)),
                acc == digits_val(tv.take(i as int)),
                acc < PRICE_INT_BOUND,
                pow10(12) == PRICE_INT_BOUND,
            decreases dot - i,
        {
            let c = t.get_char(i);
            let b = c as u32;
            if b < 48 || b > 57 {
                proof {
                    assert(!is_digit(tv[i as int]));
                    assert(!all_digits(tv.take(dot as int))) by {
                        assert(tv.take(dot as int)[i as int] == tv[i as int]);
                    }
                    if dot == m {
                        assert(!all_digits(tv));
                    }
                }
                return None;
            }
            proof {
                assert(digit_val(tv[i as int]) == b - 48);
            }
            acc = acc * 10 + (b - 48) as u128;
            proof {
                assert(tv.take(i + 1).drop_last() =~= tv.take(i as int));
                assert(tv.take(i + 1).last() == tv[i as int]);
                assert(all_digits(tv.take(i + 1)));
                assert(acc == digits_val(tv.take(i + 1)));
            }
            if acc >= PRICE_INT_BOUND {
                proof {
                    assert(tv.take(m as int) =~= tv);
                    if all_digits(tv.take(dot as int)) {
                        lemma_monotone_digits(tv, i + 1, dot as int);
                        assert(digits_val(tv.take(dot as int)) >= PRICE_INT_BOUND);
                    }
                }
                return None;
            }
            i = i + 1;
        }

        // Fractional digits.
        let mut facc: u128 = 0;
        let mut fcount: usize = 0;
        if dot < m {
            let mut i: usize = dot + 1;
            while i < m
                invariant
                    dot < m,
                    dot + 1 <= i <= m,
                    m == tv.len(),
                    t@ == tv,
                    fcount == i - dot - 1,
                    fcount <= 18,
                    all_digits(tv.skip(dot + 1).take(fcount as int)),
                    facc == digits_val(tv.skip(dot + 1).take(fcount as int)),
                    facc < pow10(fcount as nat),
                decreases m - i,
            {
                if fcount == 18 {
                    proof {
                        assert(tv.skip(dot + 1).len() > 18);
                    }
                    return None;
                }
                let c = t.get_char(i);
                let b = c as u32;
                if b < 48 || b > 57 {
                    proof {
                        assert(!is_digit(tv[i as int]));
                        assert(!all_digits(tv.skip(dot + 1))) by {
                            assert(tv.skip(dot + 1)[i - dot - 1] == tv[i as int]);
                        }
                    }
                    return None;
                }
                proof {
                    assert(digit_val(tv[i as int]) == b - 48);
                    let fpre = tv.skip(dot + 1);
                    assert(fpre.take(fcount + 1).drop_last() =~= fpre.take(fcount as int));
                    assert(fpre.take(fcount + 1).last() == tv[i as int]);
                    assert(all_digits(fpre.take(fcount + 1)));
                    assert(pow10((fcount + 1) as nat) == 10 * pow10(fcount as nat)) by {
                        vstd::arithmetic::power::lemma_pow1(10);
                        vstd::arithmetic::power::lemma_pow_adds(10, 1, fcount as nat);
                    }
                    assert(facc * 10 + digit_val(tv[i as int]) < pow10((fcount + 1) as nat))
                        by (nonlinear_arith)
                        requires
                            0 <= facc < pow10(fcount as nat),
                            digit_val(tv[i as int]) <= 9,
                            pow10((fcount + 1) as nat) == 10 * pow10(fcount as nat),
                    {}
                    assert(pow10(19) > pow10(18)) by {
                        vstd::arithmetic::power::lemma_pow_strictly_increases(10, 18, 19);
                    }
                    assert(pow10((fcount + 1) as nat) <= pow10(19)) by {
                        if fcount + 1 < 19 {
                            vstd::arithmetic::power::lemma_pow_strictly_increases(
                                10,
                                (fcount + 1) as nat,
                                19,
                            );
                        }
                    }
                    assert(pow10(19) == 10 * pow10(18)) by {
                        vstd::arithmetic::power::lemma_pow1(10);
                        vstd::arithmetic::power::lemma_pow_adds(10, 1, 18);
                    }
                }
                facc = facc * 10 + (b - 48) as u128;
                fcount = fcount + 1;
                i = i + 1;
            }
            proof {
                assert(tv.skip(dot + 1).take(fcount as int) =~= tv.skip(dot + 1));
            }
        }

        // Assemble the unit count.
        if dot == m {
            if m == 0 {
                return None;
            }
            proof {
                assert(tv.take(m as int) =~= tv);
            }
            let units_mag = acc as i128 * PRICE_SCALE;
            proof {
                assert(acc as i128 * PRICE_SCALE < PRICE_UNIT_BOUND) by (nonlinear_arith)
                    requires
                        0 <= acc < PRICE_INT_BOUND,
                        PRICE_INT_BOUND == 1_000_000_000_000u128,
                        PRICE_SCALE == 1_000_000_000_000_000_000i128,
                        PRICE_UNIT_BOUND == 1_000_000_000_000_000_000_000_000_000_000i128,
                {}
            }
            let units = if neg {
                -units_mag
            } else {
                units_mag
            };
            Some(Price { units })
        } else {
            if dot == 0 && fcount == 0 {
                proof {
                    assert(tv.take(first_dot(tv)).len() + tv.skip(first_dot(tv) + 1).len() == 0);
                }
                return None;
            }
            proof {
                assert(pow10(fcount as nat) <= pow10(18)) by {
                    if fcount < 18 {
                        vstd::arithmetic::power::lemma_pow_strictly_increases(
                            10,
                            fcount as nat,
                            18,
                        );
                    }
                }
            }
            let pow_rest = pow10_exec(18 - fcount as u32);
            proof {
                assert(pow10((18 - fcount) as nat) * pow10(fcount as nat) == pow10(18)) by {
                    vstd::arithmetic::power::lemma_pow_adds(
                        10,
                        (18 - fcount) as nat,
                        fcount as nat,
                    );
                }
                assert(facc as int * pow_rest < PRICE_SCALE && facc as int * pow_rest >= 0)
                    by (nonlinear_arith)
                    requires
                        0 <= facc < pow10(fcount as nat),
                        pow_rest == pow10((18 - fcount) as nat),
                        pow_rest >= 1,
                        pow10((18 - fcount) as nat) * pow10(fcount as nat) == pow10(18),
                        PRICE_SCALE == pow10(18),
                {}
            }
            let frac_units = facc as i128 * pow_rest;
            proof {
                assert(frac_units == frac_scaled(tv.skip(dot + 1)));
                assert(acc as i128 * PRICE_SCALE <= (PRICE_INT_BOUND - 1) as i128 * PRICE_SCALE)
                    by (nonlinear_arith)
                    requires
                        0 <= acc <= PRICE_INT_BOUND - 1,
                        PRICE_SCALE == 1_000_000_000_000_000_000i128,
                {}
            }
            let units_mag = acc as i128 * PRICE_SCALE + frac_units;
            let units = if neg {
                -units_mag
            } else {
                units_mag
            };
            Some(Price { units })
        }
    }

    /// Whether `self` is strictly below `other`.
    pub fn lt(&self, other: &Price) -> (r: bool)
        ensures
            r == (self@ < other@),
    {
        self.units < other.units
    }

    /// Render the price as a decimal string with trailing zeros stripped.
    pub fn to_decimal_string(&self) -> (r: String)
        requires
            self.inv(),
        ensures
            r@ == price_chars(self@),
    {
        format_units(self.units)
    }
}

/// Bound within which unit arithmetic on prices stays exact: `10^31`.
pub const PRICE_OPS_BOUND: i128 = 10_000_000_000_000_000_000_000_000_000_000;

/// Bound for intermediate decimal arithmetic, wide enough for a spread
/// scaled by `2 * 10^6`: `4 * 10^37`.
pub const DEC_OP_BOUND: i128 = 40_000_000_000_000_000_000_000_000_000_000_000_000;

/// The decimal digit character for `d`.
pub open spec fn digit_char(d: nat) -> char {
    ((48 + d) as u8) as char
}

/// The decimal digits of `n`, most significant first.
pub open spec fn dec_chars(n: nat) -> Seq<char>
    decreases n,
{
    if n < 10 {
        seq![digit_char(n)]
    } else {
        dec_chars(n / 10).push(digit_char(n % 10))
    }
}

pub open spec fn zero_chars(k: nat) -> Seq<char> {
    Seq::new(k, |i: int| '0')
}

/// Strip trailing zeros from a fraction of `k` digits with value `f`.
pub open spec fn reduce_frac(f: nat, k: nat) -> (nat, nat)
    decreases k,
{
    if k == 0 || f % 10 != 0 {
        (f, k)
    } else {
        reduce_frac(f / 10, (k - 1) as nat)
    }
}

/// The canonical decimal rendering of `v` units of `10^-18`: sign, integer
/// part, and — when not zero — the fractional digits with trailing zeros
/// stripped.
pub open spec fn price_chars(v: int) -> Seq<char> {
    let a = if v < 0 {
        -v
    } else {
        v
    };
    let ip = a / pow10(18);
    let fp = a % pow10(18);
    let body = if fp == 0 {
        dec_chars(ip as nat)
    } else {
        let (m, k) = reduce_frac(fp as nat, 18);
        dec_chars(ip as nat) + seq!['.'] + zero_chars((k - dec_chars(m).len()) as nat)
            + dec_chars(m)
    };
    if v < 0 {
        seq!['-'] + body
    } else {
        body
    }
}

/// The rendering of `v` units of `10^-4` with exactly four fractional digits.
pub open spec fn fixed4_chars(v: int) -> Seq<char> {
    let a = if v < 0 {
        -v
    } else {
        v
    };
    let ip = a / 10000;
    let fp = a % 10000;
    let body = dec_chars(ip as nat) + seq!['.'] + zero_chars(
        (4 - dec_chars(fp as nat).len()) as nat,
    ) + dec_chars(fp as nat);
    if v < 0 {
        seq!['-'] + body
    } else {
        body
    }
}

/// `n / d` rounded half away from zero.
pub open spec fn round_div_spec(n: int, d: int) -> int {
    let na = if n < 0 {
        -n
    } else {
        n
    };
    let da = if d < 0 {
        -d
    } else {
        d
    };
    let q = (2 * na + da) / (2 * da);
    if (n < 0) != (d < 0) {
        -q
    } else {
        q
    }
}

/// A nonzero digit string never has more digits than any power of ten above
/// its value.
pub proof fn lemma_dec_chars_len(n: nat, k: nat)
    requires
        1 <= k,
        n < pow10(k),
    ensures
        1 <= dec_chars(n).len() <= k,
    decreases n,
{
    if n < 10 {
    } else {
        assert(pow10(k) == pow10((k - 1) as nat) * 10) by {
            vstd::arithmetic::power::lemma_pow1(10);
            vstd::arithmetic::power::lemma_pow_adds(10, (k - 1) as nat, 1);
        }
        assert(k >= 2) by {
            if k == 1 {
                assert(pow10(1) == 10) by {
                    lemma_pow10_vals();
                    vstd::arithmetic::power::lemma_pow1(10);
                }
            }
        }
        assert(n as int / 10 < pow10((k - 1) as nat)) by {
            vstd::arithmetic::div_mod::lemma_multiply_divide_lt(
                n as int,
                pow10((k - 1) as nat),
                10,
            );
        }
        assert(n / 10 < n) by {
            vstd::arithmetic::div_mod::lemma_div_decreases(n as int, 10);
        }
        lemma_dec_chars_len(n / 10, (k - 1) as nat);
    }
}

fn digit_str(d: u8) -> (r: &'static str)
    requires
        d < 10,
    ensures
        r@ =~= seq![digit_char(d as nat)],
{
    proof {
        reveal_strlit("0");
        reveal_strlit("1");
        reveal_strlit("2");
        reveal_strlit("3");
        reveal_strlit("4");
        reveal_strlit("5");
        reveal_strlit("6");
        reveal_strlit("7");
        reveal_strlit("8");
        reveal_strlit("9");
    }
    match d {
        0 => "0",
        1 => "1",
        2 => "2",
        3 => "3",
        4 => "4",
        5 => "5",
        6 => "6",
        7 => "7",
        8 => "8",
        _ => "9",
    }
}

/// Append the decimal digits of `n` to `out`.
fn push_dec(out: &mut String, n: u128)
    ensures
        final(out)@ == old(out)@ + dec_chars(n as nat),
    decreases n,
{
    if n >= 10 {
        proof {
            vstd::arithmetic::div_mod::lemma_div_decreases(n as int, 10);
        }
        push_dec(out, n / 10);
    }
    let ghost mid = out@;
    let d = (n % 10) as u8;
    out.append(digit_str(d));
    proof {
        if n >= 10 {
            assert(out@ =~= old(out)@ + dec_chars(n as nat));
        } else {
            assert(out@ =~= old(out)@ + dec_chars(n as nat));
        }
    }
}

/// Render a signed count of `10^-18` units as a decimal string.
#[verifier::loop_isolation(false)]
pub fn format_units(u: i128) -> (r: String)
    requires
        -DEC_OP_BOUND <= u <= DEC_OP_BOUND,
    ensures
        r@ == price_chars(u as int),
{
    proof {
        lemma_pow10_vals();
    }
    let mut out = String::new();
    if u < 0 {
        out.append("-");
        proof {
            reveal_strlit("-");
        }
    }
    let a: u128 = if u < 0 {
        (-u) as u128
    } else {
        u as u128
    };
    let scale = PRICE_SCALE as u128;
    let ip = a / scale;
    let fp = a % scale;
    let ghost sign_part = out@;
    push_dec(&mut out, ip);
    if fp != 0 {
        out.append(".");
        proof {
            reveal_strlit(".");
        }
        let ghost pre = out@;
        let mut mm: u128 = fp;
        let mut k: u32 = 18;
        while mm % 10 == 0 && k > 1
            invariant
                1 <= k <= 18,
                1 <= mm,
                (mm as int) < pow10(k as nat),
                reduce_frac(fp as nat, 18) == reduce_frac(mm as nat, k as nat),
            decreases k,
        {
            proof {
                assert(pow10(k as nat) == pow10((k - 1) as nat) * 10) by {
                    vstd::arithmetic::power::lemma_pow1(10);
                    vstd::arithmetic::power::lemma_pow_adds(10, (k - 1) as nat, 1);
                }
                assert(mm as int / 10 < pow10((k - 1) as nat)) by {
                    vstd::arithmetic::div_mod::lemma_multiply_divide_lt(
                        mm as int,
                        pow10((k - 1) as nat),
                        10,
                    );
                }
            }
            mm = mm / 10;
            k = k - 1;
        }
        proof {
            assert(mm % 10 != 0) by {
                if k == 1 {
                    assert(pow10(1) == 10) by {
                        vstd::arithmetic::power::lemma_pow1(10);
                    }
                }
            }
            assert(reduce_frac(mm as nat, k as nat) == (mm as nat, k as nat));
        }
        let mut temp = String::new();
        push_dec(&mut temp, mm);
        let dl = temp.as_str().unicode_len();
        proof {
            lemma_dec_chars_len(mm as nat, k as nat);
        }
        let mut z: u32 = k - dl as u32;
        let ghost zk = k - dl as u32;
        while z > 0
            invariant
                0 <= z <= zk,
                out@ == pre + zero_chars((zk - z) as nat),
            decreases z,
        {
            out.append("0");
            proof {
                reveal_strlit("0");
                assert(pre + zero_chars((zk - z) as nat) + "0"@ =~= pre + zero_chars(
                    (zk - z + 1) as nat,
                ));
            }
            z = z - 1;
        }
        out.append(temp.as_str());
        proof {
            assert(out@ =~= price_chars(u as int));
        }
    } else {
        proof {
            assert(out@ =~= price_chars(u as int));
        }
    }
    out
}

/// Render a signed count of `10^-4` units with exactly four fractional
/// digits.
#[verifier::loop_isolation(false)]
pub fn format_fixed4(v: i128) -> (r: String)
    requires
        -DEC_OP_BOUND <= v <= DEC_OP_BOUND,
    ensures
        r@ == fixed4_chars(v as int),
{
    proof {
        lemma_pow10_vals();
    }
    let mut out = String::new();
    if v < 0 {
        out.append("-");
        proof {
            reveal_strlit("-");
        }
    }
    let a: u128 = if v < 0 {
        (-v) as u128
    } else {
        v as u128
    };
    let ip = a / 10000;
    let fp = a % 10000;
    push_dec(&mut out, ip);
    out.append(".");
    proof {
        reveal_strlit(".");
    }
    let ghost pre = out@;
    let mut temp = String::new();
    push_dec(&mut temp, fp);
    let dl = temp.as_str().unicode_len();
    proof {
        assert(pow10(4) == 10000);
        lemma_dec_chars_len(fp as nat, 4);
    }
    let mut z: u32 = 4 - dl as u32;
    let ghost zk = 4 - dl as u32;
    while z > 0
        invariant
            0 <= z <= zk,
            out@ == pre + zero_chars((zk - z) as nat),
        decreases z,
    {
        out.append("0");
        proof {
            reveal_strlit("0");
            assert(pre + zero_chars((zk - z) as nat) + "0"@ =~= pre + zero_chars(
                (zk - z + 1) as nat,
            ));
        }
        z = z - 1;
    }
    out.append(temp.as_str());
    proof {
        assert(out@ =~= fixed4_chars(v as int));
    }
    out
}

/// `n / d` rounded half away from zero, for in-range operands.
pub fn round_div(n: i128, d: i128) -> (r: i128)
    requires
        d != 0,
        -DEC_OP_BOUND <= n <= DEC_OP_BOUND,
        -DEC_OP_BOUND <= d <= DEC_OP_BOUND,
    ensures
        r == round_div_spec(n as int, d as int),
        -DEC_OP_BOUND <= r <= DEC_OP_BOUND,
{
    let na: u128 = if n < 0 {
        (-n) as u128
    } else {
        n as u128
    };
    let da: u128 = if d < 0 {
        (-d) as u128
    } else {
        d as u128
    };
    let qu = (2 * na + da) / (2 * da);
    proof {
        let x = (2 * na + da) as int;
        let dd = (2 * da) as int;
        vstd::arithmetic::div_mod::lemma_fundamental_div_mod(x, dd);
        vstd::arithmetic::div_mod::lemma_mod_bound(x, dd);
        assert(qu as int <= na as int) by (nonlinear_arith)
            requires
                x == dd * (qu as int) + x % dd,
                0 <= x % dd < dd,
                dd == 2 * (da as int),
                da >= 1,
                x == 2 * (na as int) + (da as int),
                na >= 0,
        {}
    }
    let q = qu as i128;
    if (n < 0) != (d < 0) {
        -q
    } else {
        q
    }
}

/// Whatever parses stays strictly inside the unit bound.
pub proof fn lemma_price_units_bound(s: Seq<char>)
    ensures
        match price_units_of(s) {
            Some(v) => -PRICE_UNIT_BOUND < v < PRICE_UNIT_BOUND,
            None => true,
        },
{
    lemma_pow10_vals();
    let (sign, t) = sign_split(s);
    let d = first_dot(t);
    if d == t.len() {
        if t.len() > 0 && all_digits(t) && digits_val(t) < pow10(12) {
            lemma_digits_val_bounds(t);
            assert(0 <= digits_val(t) * pow10(18) < PRICE_UNIT_BOUND) by (nonlinear_arith)
                requires
                    0 <= digits_val(t) < pow10(12),
                    pow10(18) == PRICE_SCALE,
                    PRICE_SCALE == 1_000_000_000_000_000_000i128,
                    pow10(12) == PRICE_INT_BOUND,
                    PRICE_INT_BOUND == 1_000_000_000_000u128,
                    PRICE_UNIT_BOUND == 1_000_000_000_000_000_000_000_000_000_000i128,
            {}
            let m = digits_val(t) * pow10(18);
            assert(sign == 1 || sign == -1);
            assert(sign * m == m || sign * m == -m) by (nonlinear_arith)
                requires
                    sign == 1 || sign == -1,
            {}
        }
    } else {
        let ip = t.take(d);
        let fp = t.skip(d + 1);
        if ip.len() + fp.len() > 0 && all_digits(ip) && all_digits(fp) && fp.len() <= 18
            && digits_val(ip) < pow10(12) {
            lemma_digits_val_bounds(ip);
            lemma_digits_val_bounds(fp);
            assert(pow10(fp.len()) * pow10((18 - fp.len()) as nat) == pow10(18)) by {
                vstd::arithmetic::power::lemma_pow_adds(
                    10,
                    fp.len(),
                    (18 - fp.len()) as nat,
                );
            }
            assert(pow10((18 - fp.len()) as nat) >= 1) by {
                vstd::arithmetic::power::lemma_pow_positive(10, (18 - fp.len()) as nat);
            }
            assert(0 <= frac_scaled(fp) < PRICE_SCALE) by (nonlinear_arith)
                requires
                    frac_scaled(fp) == digits_val(fp) * pow10((18 - fp.len()) as nat),
                    0 <= digits_val(fp) < pow10(fp.len()),
                    pow10((18 - fp.len()) as nat) >= 1,
                    pow10(fp.len()) * pow10((18 - fp.len()) as nat) == pow10(18),
                    pow10(18) == PRICE_SCALE,
            {}
            assert(0 <= digits_val(ip) * pow10(18) <= (PRICE_INT_BOUND - 1) as int
                * PRICE_SCALE) by (nonlinear_arith)
                requires
                    0 <= digits_val(ip) < pow10(12),
                    pow10(18) == PRICE_SCALE,
                    PRICE_SCALE == 1_000_000_000_000_000_000i128,
                    pow10(12) == PRICE_INT_BOUND,
                    PRICE_INT_BOUND == 1_000_000_000_000u128,
            {}
            let m = digits_val(ip) * pow10(18) + frac_scaled(fp);
            assert(0 <= m < PRICE_UNIT_BOUND);
            assert(sign == 1 || sign == -1);
            assert(sign * m == m || sign * m == -m) by (nonlinear_arith)
                requires
                    sign == 1 || sign == -1,
            {}
        }
    }
}

/// Helper for ruling out an in-range integer part once a prefix already
/// reaches the bound.
pub proof fn lemma_monotone_digits(s: Seq<char>, i: int, j: int)
    requires
        0 <= i <= j <= s.len(),
        all_digits(s.take(j)),
    ensures
        digits_val(s.take(i)) <= digits_val(s.take(j)),
    decreases j - i,
{
    if i < j {
        assert(all_digits(s.take(i + 1))) by {
            assert(forall|k: int| 0 <= k < i + 1 ==> s.take(i + 1)[k] == #[trigger] s.take(j)[k]);
        }
        lemma_digits_val_prefix(s, i);
        lemma_monotone_digits(s, i + 1, j);
    }
}

/// `10^k` as a machine integer, for exponents up to thirty.
#[verifier::loop_isolation(false)]
pub fn pow10_exec(k: u32) -> (r: i128)
    requires
        k <= 30,
    ensures
        r == pow10(k as nat),
        1 <= r <= PRICE_UNIT_BOUND,
{
    proof {
        lemma_pow10_vals();
    }
    let mut r: i128 = 1;
    let mut j: u32 = 0;
    while j < k
        invariant
            0 <= j <= k <= 30,
            r == pow10(j as nat),
            1 <= r <= PRICE_UNIT_BOUND,
        decreases k - j,
    {
        proof {
            assert(pow10((j + 1) as nat) == 10 * pow10(j as nat)) by {
                vstd::arithmetic::power::lemma_pow1(10);
                vstd::arithmetic::power::lemma_pow_adds(10, 1, j as nat);
            }
            assert(pow10((j + 1) as nat) <= pow10(30)) by {
                if j + 1 < 30 {
                    vstd::arithmetic::power::lemma_pow_strictly_increases(
                        10,
                        (j + 1) as nat,
                        30,
                    );
                }
            }
        }
        r = r * 10;
        j = j + 1;
    }
    r
}

} // verus!
