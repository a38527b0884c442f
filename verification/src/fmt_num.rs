//! Writing integers in decimal or scientific notation, whichever is shorter.
use vstd::prelude::*;
use vstd::arithmetic::div_mod::{lemma_fundamental_div_mod, lemma_fundamental_div_mod_converse};

verus! {

/// `String::push` appends one character.
pub assume_specification[ String::push ](s: &mut String, ch: char)
    ensures
        final(s)@ == old(s)@.push(ch),
;

/// Ten to the power `k`.
pub open spec fn pow10(k: nat) -> nat
    decreases k,
{
    if k == 0 {
        1
    } else {
        10 * pow10((k - 1) as nat)
    }
}

/// The character of a decimal digit.
pub open spec fn digit_char(d: int) -> char {
    if d == 0 { '0' }
    else if d == 1 { '1' }
    else if d == 2 { '2' }
    else if d == 3 { '3' }
    else if d == 4 { '4' }
    else if d == 5 { '5' }
    else if d == 6 { '6' }
    else if d == 7 { '7' }
    else if d == 8 { '8' }
    else { '9' }
}

/// The decimal digits of a natural number, most significant first, without leading zeros.
pub open spec fn decimal(n: nat) -> Seq<char>
    decreases n,
{
    if n < 10 {
        seq![digit_char(n as int)]
    } else {
        decimal(n / 10).push(digit_char((n % 10) as int))
    }
}

/// How an integer is written by `{}`: an optional minus sign, then its decimal digits.
pub open spec fn int_text(a: int) -> Seq<char> {
    if a < 0 {
        seq!['-'] + decimal((-a) as nat)
    } else {
        decimal(a as nat)
    }
}

/// The number of decimal digits of `n`.
pub open spec fn num_digits(n: nat) -> nat
    decreases n,
{
    if n < 10 {
        1
    } else {
        1 + num_digits(n / 10)
    }
}

/// The smallest `k` such that `10^k >= n`, that is the ceiling of the decimal logarithm.
pub open spec fn ceil_log10(n: nat) -> nat
    decreases n,
{
    if n <= 1 {
        0
    } else {
        1 + ceil_log10(((n + 9) / 10) as nat)
    }
}

/// The number of digits after the point needed so that a number of magnitude `n`
/// still shows the changes of a step `step` in scientific notation.
pub open spec fn science_precision(n: nat, step: int) -> nat {
    let k1: int = if step >= 1 { ceil_log10(step as nat) as int } else { 0 };
    let k = ceil_log10(n) as int - k1;
    if n == 0 || k < 0 {
        0
    } else {
        k as nat
    }
}

/// The `p + 1` significant digits of `n` (which has `d` digits), rounded half to even,
/// paired with the decimal exponent of the rounded value.
pub open spec fn science_digits(n: nat, p: nat) -> (Seq<char>, nat) {
    let d = num_digits(n);
    if p + 1 >= d {
        (decimal(n) + Seq::new((p + 1 - d) as nat, |i: int| '0'), (d - 1) as nat)
    } else {
        let div = pow10((d - p - 1) as nat);
        let q = n / div;
        let r = n % div;
        let up = 2 * r > div || (2 * r == div && q % 2 == 1);
        let q2: nat = if up { (q + 1) as nat } else { q };
        if q2 == pow10(p + 1) {
            (decimal(pow10(p)), d as nat)
        } else {
            (decimal(q2), (d - 1) as nat)
        }
    }
}

/// Mantissa digits with a point after the first digit (none when there is a single digit).
pub open spec fn point_after_first(digits: Seq<char>) -> Seq<char> {
    if digits.len() <= 1 {
        digits
    } else {
        seq![digits[0], '.'] + digits.subrange(1, digits.len() as int)
    }
}

/// How `{:.p$e}` writes the integer `a`: the magnitude with `p` digits after the point,
/// rounded half to even, followed by `e` and the decimal exponent.
pub open spec fn science_text(a: int, p: nat) -> Seq<char> {
    let n: nat = if a < 0 { (-a) as nat } else { a as nat };
    let sign: Seq<char> = if a < 0 { seq!['-'] } else { seq![] };
    if n == 0 {
        sign + point_after_first(seq!['0'] + Seq::new(p, |i: int| '0')) + seq!['e', '0']
    } else {
        let (m, e) = science_digits(n, p);
        sign + point_after_first(m) + seq!['e'] + decimal(e)
    }
}

/// How a tick value is written: in decimal, unless it is zero or has more than five digits,
/// a step is given, and scientific notation at the precision that the step needs is shorter.
pub open spec fn interval_text(a: int, step: Option<i128>) -> Seq<char> {
    let n: nat = if a < 0 { (-a) as nat } else { a as nat };
    let norm = int_text(a);
    if n == 0 || n >= 100000 {
        match step {
            Some(s) => {
                let sci = science_text(a, science_precision(n, s as int));
                if sci.len() < norm.len() { sci } else { norm }
            },
            None => norm,
        }
    } else {
        norm
    }
}

// ---------------------------------------------------------------------------
// Lemmas

pub proof fn lemma_pow10_pos(k: nat)
    ensures
        pow10(k) >= 1,
    decreases k,
{
    if k > 0 {
        lemma_pow10_pos((k - 1) as nat);
    }
}

pub proof fn lemma_pow10_monotone(a: nat, b: nat)
    requires
        a <= b,
    ensures
        pow10(a) <= pow10(b),
    decreases b,
{
    if a < b {
        lemma_pow10_monotone(a, (b - 1) as nat);
        lemma_pow10_pos((b - 1) as nat);
    }
}

pub proof fn lemma_decimal_len(n: nat)
    ensures
        decimal(n).len() == num_digits(n),
    decreases n,
{
    if n >= 10 {
        lemma_decimal_len(n / 10);
    }
}

/// A number with `d` digits lies in `[10^(d-1), 10^d)` (or is zero).
pub proof fn lemma_num_digits_bounds(n: nat)
    ensures
        num_digits(n) >= 1,
        n < pow10(num_digits(n)),
        n >= 1 ==> pow10((num_digits(n) - 1) as nat) <= n,
    decreases n,
{
    if n >= 10 {
        lemma_num_digits_bounds(n / 10);
        let k = num_digits(n / 10);
        assert(pow10(k + 1) == 10 * pow10(k));
        assert(n < pow10(k + 1)) by {
            assert(n / 10 < pow10(k));
            assert(n / 10 + 1 <= pow10(k));
            assert(n < 10 * (n / 10 + 1));
            assert(10 * (n / 10 + 1) <= 10 * pow10(k)) by (nonlinear_arith)
                requires n / 10 + 1 <= pow10(k);
        }
        if k >= 1 {
            assert(pow10(k) == 10 * pow10((k - 1) as nat));
            assert(pow10(k) <= n) by {
                assert(pow10((k - 1) as nat) <= n / 10);
                assert(10 * pow10((k - 1) as nat) <= 10 * (n / 10)) by (nonlinear_arith)
                    requires pow10((k - 1) as nat) <= n / 10;
            }
        }
    } else {
        assert(pow10(1) == 10 * pow10(0));
    }
}

/// Fewer than `10^k` means at most `k` digits.
pub proof fn lemma_num_digits_le(n: nat, k: nat)
    requires
        k >= 1,
        n < pow10(k),
    ensures
        num_digits(n) <= k,
    decreases k,
{
    if n >= 10 {
        assert(pow10(k) == 10 * pow10((k - 1) as nat));
        if k == 1 {
            assert(pow10(0) == 1);
        } else {
            assert(n / 10 < pow10((k - 1) as nat));
            lemma_num_digits_le(n / 10, (k - 1) as nat);
        }
    }
}


pub proof fn lemma_pow10_values()
    ensures
        pow10(38) == 100000000000000000000000000000000000000nat,
        pow10(39) == 1000000000000000000000000000000000000000nat,
        pow10(5) == 100000,
{
    reveal_with_fuel(pow10, 40);
}

/// `10^ceil_log10(n)` is the least power of ten at or above `n`.
pub proof fn lemma_ceil_log10_le(n: nat, k: nat)
    requires
        n <= pow10(k),
    ensures
        ceil_log10(n) <= k,
    decreases k,
{
    if n > 1 {
        if k == 0 {
            assert(pow10(0) == 1);
        } else {
            assert(pow10(k) == 10 * pow10((k - 1) as nat));
            assert((n + 9) / 10 <= pow10((k - 1) as nat));
            lemma_ceil_log10_le(((n + 9) / 10) as nat, (k - 1) as nat);
        }
    }
}

// ---------------------------------------------------------------------------
// Executable code

fn digit(d: u128) -> (c: char)
    requires
        d < 10,
    ensures
        c == digit_char(d as int),
{
    if d == 0 { '0' }
    else if d == 1 { '1' }
    else if d == 2 { '2' }
    else if d == 3 { '3' }
    else if d == 4 { '4' }
    else if d == 5 { '5' }
    else if d == 6 { '6' }
    else if d == 7 { '7' }
    else if d == 8 { '8' }
    else { '9' }
}

/// The decimal digits of `n`.
pub fn decimal_chars(n: u128) -> (v: Vec<char>)
    ensures
        v@ == decimal(n as nat),
    decreases n,
{
    if n < 10 {
        let mut v = Vec::new();
        v.push(digit(n));
        v
    } else {
        let mut v = decimal_chars(n / 10);
        v.push(digit(n % 10));
        v
    }
}

/// Append every character of `v` to `s`.
pub fn push_chars(s: &mut String, v: &Vec<char>)
    ensures
        final(s)@ == old(s)@ + v@,
{
    let mut i: usize = 0;
    while i < v.len()
        invariant
            i <= v.len(),
            s@ == old(s)@ + v@.subrange(0, i as int),
        decreases v.len() - i,
    {
        s.push(v[i]);
        i = i + 1;
        proof {
            assert(v@.subrange(0, i as int) == v@.subrange(0, i - 1).push(v@[i - 1]));
        }
    }
    proof {
        assert(v@.subrange(0, v@.len() as int) == v@);
    }
}

/// A string holding exactly the characters of `v`.
pub fn chars_to_string(v: &Vec<char>) -> (s: String)
    ensures
        s@ == v@,
{
    let mut s = String::new();
    push_chars(&mut s, v);
    proof {
        assert(Seq::<char>::empty() + v@ == v@);
    }
    s
}

/// The magnitude of `a`.
pub fn magnitude(a: i128) -> (n: u128)
    ensures
        n as int == if a < 0 { -a } else { a as int },
        n <= 0x8000_0000_0000_0000_0000_0000_0000_0000u128,
{
    if a < 0 {
        ((-(a + 1)) as u128) + 1
    } else {
        a as u128
    }
}

fn num_digits_exec(n: u128) -> (d: u32)
    ensures
        d == num_digits(n as nat),
    decreases n,
{
    if n < 10 {
        1
    } else {
        let k = num_digits_exec(n / 10);
        proof {
            lemma_num_digits_bounds((n / 10) as nat);
            lemma_pow10_values();
            lemma_num_digits_le((n / 10) as nat, 39);
        }
        1 + k
    }
}

fn ceil_log10_exec(n: u128) -> (k: u32)
    requires
        n <= 0x8000_0000_0000_0000_0000_0000_0000_0000u128,
    ensures
        k == ceil_log10(n as nat),
        k <= 39,
    decreases n,
{
    proof {
        lemma_pow10_values();
        lemma_ceil_log10_le(n as nat, 39);
    }
    if n <= 1 {
        0
    } else {
        let k = ceil_log10_exec((n + 9) / 10);
        1 + k
    }
}

fn pow10_exec(k: u32) -> (r: u128)
    requires
        k <= 38,
    ensures
        r == pow10(k as nat),
{
    let mut r: u128 = 1;
    let mut i: u32 = 0;
    while i < k
        invariant
            i <= k <= 38,
            r == pow10(i as nat),
        decreases k - i,
    {
        proof {
            lemma_pow10_values();
            lemma_pow10_monotone((i + 1) as nat, 38);
        }
        r = r * 10;
        i = i + 1;
    }
    r
}

fn push_zeros(v: &mut Vec<char>, k: u32)
    ensures
        final(v)@ == old(v)@ + Seq::new(k as nat, |i: int| '0'),
{
    let mut i: u32 = 0;
    while i < k
        invariant
            i <= k,
            v@ == old(v)@ + Seq::new(i as nat, |j: int| '0'),
        decreases k - i,
    {
        v.push('0');
        i = i + 1;
        proof {
            assert(Seq::new(i as nat, |j: int| '0') == Seq::new((i - 1) as nat, |j: int| '0').push('0'));
        }
    }
}

fn science_digits_exec(n: u128, p: u32) -> (r: (Vec<char>, u32))
    requires
        1 <= n <= 0x8000_0000_0000_0000_0000_0000_0000_0000u128,
        p <= 40,
    ensures
        r.0@ == science_digits(n as nat, p as nat).0,
        r.1 == science_digits(n as nat, p as nat).1,
{
    proof {
        lemma_pow10_values();
        lemma_num_digits_le(n as nat, 39);
        lemma_num_digits_bounds(n as nat);
    }
    let d = num_digits_exec(n);
    if p + 1 >= d {
        let mut v = decimal_chars(n);
        push_zeros(&mut v, p + 1 - d);
        (v, d - 1)
    } else {
        let div = pow10_exec(d - p - 1);
        proof {
            lemma_pow10_pos((d - p - 1) as nat);
            lemma_pow10_monotone((d - p - 1) as nat, 38);
        }
        let q = n / div;
        let r = n % div;
        let up = 2 * r > div || (2 * r == div && q % 2 == 1);
        proof {
            assert(q < pow10((p + 1) as nat)) by {
                vstd::arithmetic::div_mod::lemma_fundamental_div_mod(n as int, div as int);
                assert(pow10(d as nat) == pow10((p + 1) as nat) * pow10((d - p - 1) as nat)) by {
                    lemma_pow10_mul((p + 1) as nat, (d - p - 1) as nat);
                }
                assert(q * div <= n) by (nonlinear_arith)
                    requires n == div * q + r, r >= 0, div >= 1;
                assert(q < pow10((p + 1) as nat)) by (nonlinear_arith)
                    requires q * div <= n, n < pow10((p + 1) as nat) * div, div >= 1;
            }
        }
        let q2 = if up { q + 1 } else { q };
        let top = pow10_exec(p + 1);
        if q2 == top {
            (decimal_chars(pow10_exec(p)), d)
        } else {
            (decimal_chars(q2), d - 1)
        }
    }
}

pub proof fn lemma_pow10_mul(a: nat, b: nat)
    ensures
        pow10(a + b) == pow10(a) * pow10(b),
    decreases b,
{
    if b > 0 {
        let b1 = (b - 1) as nat;
        lemma_pow10_mul(a, b1);
        let x = pow10(a);
        let y = pow10(b1);
        assert(a + b == (a + b1) + 1);
        assert(pow10(a + b) == 10 * pow10(a + b1));
        assert(pow10(b) == 10 * y);
        assert(x * (10 * y) == 10 * (x * y)) by (nonlinear_arith);
    } else {
        assert(a + b == a);
        assert(pow10(0) == 1);
        assert(pow10(a) * 1 == pow10(a));
    }
}

fn point_after_first_exec(digits: &Vec<char>, out: &mut Vec<char>)
    ensures
        final(out)@ == old(out)@ + point_after_first(digits@),
{
    if digits.len() <= 1 {
        let mut i: usize = 0;
        while i < digits.len()
            invariant
                i <= digits.len() <= 1,
                out@ == old(out)@ + digits@.subrange(0, i as int),
            decreases digits.len() - i,
        {
            out.push(digits[i]);
            i = i + 1;
            proof {
                assert(digits@.subrange(0, i as int) == digits@.subrange(0, i - 1).push(digits@[i - 1]));
            }
        }
        proof {
            assert(digits@.subrange(0, digits@.len() as int) == digits@);
        }
    } else {
        out.push(digits[0]);
        out.push('.');
        let ghost start = out@;
        let mut i: usize = 1;
        while i < digits.len()
            invariant
                1 <= i <= digits.len(),
                out@ == start + digits@.subrange(1, i as int),
            decreases digits.len() - i,
        {
            out.push(digits[i]);
            i = i + 1;
            proof {
                assert(digits@.subrange(1, i as int) == digits@.subrange(1, i - 1).push(digits@[i - 1]));
            }
        }
        proof {
            assert(start == old(out)@ + seq![digits@[0], '.']);
        }
    }
}

/// `{:.p$e}` applied to an integer, as characters.
pub fn science_chars(a: i128, p: u32) -> (v: Vec<char>)
    requires
        p <= 40,
    ensures
        v@ == science_text(a as int, p as nat),
{
    let n = magnitude(a);
    let mut v: Vec<char> = Vec::new();
    if a < 0 {
        v.push('-');
    }
    if n == 0 {
        let mut m: Vec<char> = Vec::new();
        m.push('0');
        push_zeros(&mut m, p);
        point_after_first_exec(&m, &mut v);
        v.push('e');
        v.push('0');
        proof {
            assert(m@ == seq!['0'] + Seq::new(p as nat, |i: int| '0'));
        }
    } else {
        let (m, e) = science_digits_exec(n, p);
        point_after_first_exec(&m, &mut v);
        v.push('e');
        let ed = decimal_chars(e as u128);
        let ghost before = v@;
        let mut i: usize = 0;
        while i < ed.len()
            invariant
                i <= ed.len(),
                v@ == before + ed@.subrange(0, i as int),
            decreases ed.len() - i,
        {
            v.push(ed[i]);
            i = i + 1;
            proof {
                assert(ed@.subrange(0, i as int) == ed@.subrange(0, i - 1).push(ed@[i - 1]));
            }
        }
        proof {
            assert(ed@.subrange(0, ed@.len() as int) == ed@);
        }
    }
    v
}

/// `{}` applied to an integer, as characters.
pub fn int_chars(a: i128) -> (v: Vec<char>)
    ensures
        v@ == int_text(a as int),
{
    let n = magnitude(a);
    let d = decimal_chars(n);
    if a < 0 {
        let mut v: Vec<char> = Vec::new();
        v.push('-');
        let mut i: usize = 0;
        while i < d.len()
            invariant
                i <= d.len(),
                v@ == seq!['-'] + d@.subrange(0, i as int),
            decreases d.len() - i,
        {
            v.push(d[i]);
            i = i + 1;
            proof {
                assert(d@.subrange(0, i as int) == d@.subrange(0, i - 1).push(d@[i - 1]));
            }
        }
        proof {
            assert(d@.subrange(0, d@.len() as int) == d@);
        }
        v
    } else {
        d
    }
}

/// Write an integer the way `{}` does.
pub fn int_to_string(a: i128) -> (s: String)
    ensures
        s@ == int_text(a as int),
{
    chars_to_string(&int_chars(a))
}

///
/// Format an int. Formats using either decimal or scientific notation, whichever is shorter.
///
/// If it is written in scientific notation, it will do so at the precision specified.
///
/// If the step size is not specified, the number is written in decimal.
///
pub fn write_interval_i128(a: i128, step: Option<i128>) -> (s: String)
    requires
        step == Some(0i128) ==> -100000 < a < 100000,
    ensures
        s@ == interval_text(a as int, step),
{
    let n = magnitude(a);
    let norm = int_chars(a);
    if n == 0 || n >= 100000 {
        match step {
            Some(st) => {
                let k1: u32 = if st >= 1 { ceil_log10_exec(st as u128) } else { 0 };
                let k = ceil_log10_exec(n);
                let p: u32 = if n == 0 || k < k1 { 0 } else { k - k1 };
                let sci = science_chars(a, p);
                if sci.len() < norm.len() {
                    chars_to_string(&sci)
                } else {
                    chars_to_string(&norm)
                }
            },
            None => chars_to_string(&norm),
        }
    } else {
        chars_to_string(&norm)
    }
}

} // verus!
