//! Font sizes as signed decimals, held in thousandths of a point; finer
//! digits are rounded half up.

use vstd::prelude::*;

verus! {

/// Thousandths in one point.
pub const MILLIS_PER_POINT: u64 = 1000;

/// The step of one increment or decrement: half a point.
pub const STEP_MILLIS: u64 = 500;

/// Most digits accepted before the decimal point.
pub const MAX_WHOLE_DIGITS: usize = 9;

/// The largest size held, in thousandths of a point.
pub const MAX_MILLIS: i64 = 1_000_000_000_000;

pub open spec fn is_digit(c: char) -> bool {
    '0' as u32 <= c as u32 && c as u32 <= '9' as u32
}

pub open spec fn digit_value(c: char) -> nat {
    (c as u32 - '0' as u32) as nat
}

pub open spec fn digit_char(d: nat) -> char
    recommends
        d < 10,
{
    (d + '0' as u32) as char
}

pub open spec fn all_digits(s: Seq<char>) -> bool {
    forall|i: int| 0 <= i < s.len() ==> is_digit(#[trigger] s[i])
}

/// The number that a run of decimal digits spells.
pub open spec fn digits_value(s: Seq<char>) -> nat
    decreases s.len(),
{
    if s.len() == 0 {
        0
    } else {
        digits_value(s.drop_last()) * 10 + digit_value(s.last())
    }
}

/// The position of the first `'.'` in `s`, or its length if there is none.
pub open spec fn dot_pos(s: Seq<char>) -> nat
    decreases s.len(),
{
    if s.len() == 0 || s[0] == '.' {
        0
    } else {
        1 + dot_pos(s.drop_first())
    }
}

/// The digits before the decimal point.
pub open spec fn whole_part(s: Seq<char>) -> Seq<char> {
    s.take(dot_pos(s) as int)
}

/// The digits after the decimal point (empty where there is no point).
pub open spec fn fraction_part(s: Seq<char>) -> Seq<char> {
    if dot_pos(s) < s.len() {
        s.skip(dot_pos(s) as int + 1)
    } else {
        Seq::<char>::empty()
    }
}

/// A number in decimal notation: digits, optionally a point and more digits,
/// at least one digit in all (`12`, `12.5`, `12.`, `.5`).
pub open spec fn is_number_text(s: Seq<char>) -> bool {
    all_digits(whole_part(s)) && all_digits(fraction_part(s)) && whole_part(s).len()
        + fraction_part(s).len() > 0
}

/// The length of a leading sign: one for `+` or `-`, else none.
pub open spec fn sign_len(s: Seq<char>) -> int {
    if s.len() > 0 && (s[0] == '+' || s[0] == '-') {
        1
    } else {
        0
    }
}

/// `s` without its leading sign.
pub open spec fn unsigned_part(s: Seq<char>) -> Seq<char> {
    s.skip(sign_len(s))
}

/// `a` is the lowercase ASCII letter `l` in either case.
pub open spec fn same_letter(a: char, l: char) -> bool {
    a == l || (a as u32) + 32 == (l as u32)
}

/// `s` spells the lowercase word `w`, letters in either case.
pub open spec fn spells(s: Seq<char>, w: Seq<char>) -> bool {
    s.len() == w.len() && forall|i: int| 0 <= i < s.len() ==> same_letter(#[trigger] s[i], w[i])
}

/// `inf`, `infinity` or `nan`, in any case.
pub open spec fn is_special(s: Seq<char>) -> bool {
    spells(s, seq!['i', 'n', 'f']) || spells(s, seq!['i', 'n', 'f', 'i', 'n', 'i', 't', 'y'])
        || spells(s, seq!['n', 'a', 'n'])
}

/// The position of the first `e` or `E` in `s`, or its length.
pub open spec fn exp_pos(s: Seq<char>) -> nat
    decreases s.len(),
{
    if s.len() == 0 || s[0] == 'e' || s[0] == 'E' {
        0
    } else {
        1 + exp_pos(s.drop_first())
    }
}

/// An exponent: an optional sign, then one digit or more.
pub open spec fn is_exponent_text(x: Seq<char>) -> bool {
    unsigned_part(x).len() > 0 && all_digits(unsigned_part(x))
}

/// A number as a floating point parse reads it: an optional sign, then
/// `inf`, `infinity` or `nan` in any case, or a decimal number with an
/// optional exponent (`12`, `-3`, `+12.5`, `.5`, `1e1`, `2.5E-3`).
pub open spec fn is_float_text(s: Seq<char>) -> bool {
    let b = unsigned_part(s);
    is_special(b) || (is_number_text(b.take(exp_pos(b) as int)) && (exp_pos(b) < b.len()
        ==> is_exponent_text(b.skip(exp_pos(b) as int + 1))))
}

pub open spec fn pow10(n: nat) -> nat
    decreases n,
{
    if n == 0 {
        1
    } else {
        10 * pow10((n - 1) as nat)
    }
}

/// The fraction in thousandths: its first three digits, rounded half up
/// at the fourth.
pub open spec fn frac_millis(f: Seq<char>) -> nat {
    if f.len() <= 3 {
        digits_value(f) * pow10((3 - f.len()) as nat)
    } else {
        digits_value(f.take(3)) + if digit_value(f[3]) >= 5 {
            1nat
        } else {
            0nat
        }
    }
}

/// The magnitude, in thousandths of a point, that an unsigned decimal
/// spells; none where it is no decimal or has more than nine digits before
/// the point.
pub open spec fn magnitude_of(s: Seq<char>) -> Option<nat> {
    if is_number_text(s) && whole_part(s).len() <= MAX_WHOLE_DIGITS {
        Some(digits_value(whole_part(s)) * 1000 + frac_millis(fraction_part(s)))
    } else {
        None
    }
}

/// The size, in thousandths of a point, that a text spells: an optional
/// sign, then a decimal; none for another form.
pub open spec fn size_millis_of(s: Seq<char>) -> Option<int> {
    match magnitude_of(unsigned_part(s)) {
        Some(v) => Some(
            if s.len() > 0 && s[0] == '-' {
                -v
            } else {
                v as int
            },
        ),
        None => None,
    }
}

/// The decimal digits of `n`, without leading zeros (`"0"` for zero).
pub open spec fn digits_of(n: nat) -> Seq<char>
    decreases n,
{
    if n < 10 {
        seq![digit_char(n)]
    } else {
        digits_of(n / 10).push(digit_char(n % 10))
    }
}

/// A size written as a number: the whole points, then a point and the
/// fraction without trailing zeros, if there is a fraction (`14`, `12.5`,
/// `11.25`).
pub open spec fn magnitude_text(m: nat) -> Seq<char> {
    let whole = digits_of(m / 1000);
    let f = m % 1000;
    if f == 0 {
        whole
    } else if f % 100 == 0 {
        whole + seq!['.', digit_char(f / 100)]
    } else if f % 10 == 0 {
        whole + seq!['.', digit_char(f / 100), digit_char((f / 10) % 10)]
    } else {
        whole + seq!['.', digit_char(f / 100), digit_char((f / 10) % 10), digit_char(f % 10)]
    }
}

/// A size written as a number, with a minus sign when it is negative.
pub open spec fn size_text(m: int) -> Seq<char> {
    if m < 0 {
        seq!['-'] + magnitude_text((-m) as nat)
    } else {
        magnitude_text(m as nat)
    }
}

/// A font size, exact to a thousandth of a point.
#[derive(Clone, Copy, Debug, PartialEq, Eq, Structural)]
pub struct FontSize {
    pub millis: i64,
}

impl FontSize {
    /// The size that `text` spells, if any: an optional sign, then a
    /// decimal, rounded to thousandths.
    pub fn parse(text: &[char]) -> (r: Option<FontSize>)
        ensures
            r is Some <==> size_millis_of(text@) is Some,
            r matches Some(s) ==> s.millis == size_millis_of(text@)->0 && -MAX_MILLIS <= s.millis
                <= MAX_MILLIS,
    {
        let k: usize = if text.len() > 0 && (text[0] == '+' || text[0] == '-') { 1 } else { 0 };
        let negative = text.len() > 0 && text[0] == '-';
        let b = crate::text::slice_chars(text, k, text.len());
        assert(b@ =~= unsigned_part(text@));
        match parse_magnitude(b.as_slice()) {
            Some(v) => {
                let m = v as i64;
                Some(FontSize { millis: if negative { -m } else { m } })
            },
            None => None,
        }
    }

    /// The size written as a number, as the configuration file holds it.
    pub fn text(&self) -> (r: Vec<char>)
        ensures
            r@ == size_text(self.millis as int),
    {
        let mut r: Vec<char> = Vec::new();
        let m: u64 = if self.millis < 0 {
            r.push('-');
            ((-(self.millis + 1)) as u64) + 1
        } else {
            self.millis as u64
        };
        let ghost head = r@;
        push_digits(m / 1000, &mut r);
        let f = m % 1000;
        if f != 0 {
            r.push('.');
            r.push(digit(f / 100));
            if f % 100 != 0 {
                r.push(digit((f / 10) % 10));
                if f % 10 != 0 {
                    r.push(digit(f % 10));
                }
            }
        }
        assert(r@ =~= head + magnitude_text(m as nat));
        r
    }

    /// Half a point more.
    pub fn step_up(&self) -> (r: FontSize)
        requires
            self.millis <= MAX_MILLIS,
        ensures
            r.millis == self.millis + STEP_MILLIS,
    {
        FontSize { millis: self.millis + STEP_MILLIS as i64 }
    }

    /// Half a point less.
    pub fn step_down(&self) -> (r: FontSize)
        requires
            self.millis >= -MAX_MILLIS,
        ensures
            r.millis == self.millis - STEP_MILLIS,
    {
        FontSize { millis: self.millis - STEP_MILLIS as i64 }
    }
}

/// Whether `text` is a number in decimal notation.
pub fn is_number(text: &[char]) -> (r: bool)
    ensures
        r == is_number_text(text@),
{
    let n = text.len();
    let mut k: usize = 0;
    assert(text@.skip(0) =~= text@);
    while k < n && text[k] != '.'
        invariant
            k <= n == text@.len(),
            dot_pos(text@) == k + dot_pos(text@.skip(k as int)),
        decreases n - k,
    {
        assert(text@.skip(k as int).drop_first() =~= text@.skip(k + 1));
        k = k + 1;
    }
    assert(dot_pos(text@) == k) by {
        if k < n {
            assert(text@.skip(k as int)[0] == '.');
        }
    }
    let ghost w = whole_part(text@);
    let ghost f = fraction_part(text@);
    assert(w =~= text@.take(k as int));
    let mut i: usize = 0;
    while i < n
        invariant
            i <= n == text@.len(),
            k <= n,
            w == text@.take(k as int),
            f == fraction_part(text@),
            w == whole_part(text@),
            k < n ==> f == text@.skip(k + 1),
            forall|j: int| 0 <= j < i && j != k ==> is_digit(#[trigger] text@[j]),
        decreases n - i,
    {
        if i != k {
            let cu = text[i] as u32;
            if !(48 <= cu && cu <= 57) {
                if i < k {
                    assert(!is_digit(w[i as int]));
                    assert(!all_digits(w));
                } else {
                    assert(!is_digit(f[i - k - 1]));
                    assert(!all_digits(f));
                }
                return false;
            }
        }
        i = i + 1;
    }
    assert(all_digits(w));
    assert(all_digits(f)) by {
        if k < n {
            assert forall|j: int| 0 <= j < f.len() implies is_digit(#[trigger] f[j]) by {
                assert(f[j] == text@[j + k + 1]);
            }
        }
    }
    n > 1 || (n == 1 && k == 1)
}

/// Whether `s` spells the lowercase word `w`, letters in either case.
fn spells_exec(s: &[char], w: &[char]) -> (r: bool)
    ensures
        r == spells(s@, w@),
{
    if s.len() != w.len() {
        return false;
    }
    let mut i: usize = 0;
    while i < s.len()
        invariant
            i <= s@.len() == w@.len(),
            forall|j: int| 0 <= j < i ==> same_letter(#[trigger] s@[j], w@[j]),
        decreases s.len() - i,
    {
        let a = s[i];
        let l = w[i];
        if !(a == l || ((l as u32) >= 32 && (a as u32) == (l as u32) - 32)) {
            assert(!same_letter(s@[i as int], w@[i as int]));
            return false;
        }
        i = i + 1;
    }
    true
}

/// Whether `x` is an exponent: an optional sign, then digits.
fn is_exponent(x: &[char]) -> (r: bool)
    ensures
        r == is_exponent_text(x@),
{
    let k: usize = if x.len() > 0 && (x[0] == '+' || x[0] == '-') { 1 } else { 0 };
    let d = crate::text::slice_chars(x, k, x.len());
    assert(d@ =~= unsigned_part(x@));
    if d.len() == 0 {
        return false;
    }
    let mut i: usize = 0;
    while i < d.len()
        invariant
            i <= d@.len(),
            d@ == unsigned_part(x@),
            forall|j: int| 0 <= j < i ==> is_digit(#[trigger] d@[j]),
        decreases d.len() - i,
    {
        let cu = d[i] as u32;
        if !(48 <= cu && cu <= 57) {
            assert(!is_digit(d@[i as int]));
            assert(!all_digits(unsigned_part(x@)));
            return false;
        }
        i = i + 1;
    }
    true
}

/// Whether `text` is a number as a floating point parse reads it.
pub fn is_float(text: &[char]) -> (r: bool)
    ensures
        r == is_float_text(text@),
{
    let k: usize = if text.len() > 0 && (text[0] == '+' || text[0] == '-') { 1 } else { 0 };
    let b = crate::text::slice_chars(text, k, text.len());
    assert(b@ =~= unsigned_part(text@));
    if spells_exec(b.as_slice(), &['i', 'n', 'f']) || spells_exec(
        b.as_slice(),
        &['i', 'n', 'f', 'i', 'n', 'i', 't', 'y'],
    ) || spells_exec(b.as_slice(), &['n', 'a', 'n']) {
        return true;
    }
    let n = b.len();
    let mut e: usize = 0;
    assert(b@.skip(0) =~= b@);
    while e < n && b[e] != 'e' && b[e] != 'E'
        invariant
            e <= n == b@.len(),
            exp_pos(b@) == e + exp_pos(b@.skip(e as int)),
        decreases n - e,
    {
        assert(b@.skip(e as int).drop_first() =~= b@.skip(e + 1));
        e = e + 1;
    }
    assert(exp_pos(b@) == e) by {
        if e < n {
            assert(b@.skip(e as int)[0] == b@[e as int]);
        }
    }
    let mantissa = crate::text::slice_chars(b.as_slice(), 0, e);
    assert(mantissa@ =~= b@.take(e as int));
    if !is_number(mantissa.as_slice()) {
        return false;
    }
    if e < n {
        let x = crate::text::slice_chars(b.as_slice(), e + 1, n);
        assert(x@ =~= b@.skip(e + 1));
        is_exponent(x.as_slice())
    } else {
        true
    }
}

/// The character of a decimal digit.
fn digit(d: u64) -> (c: char)
    requires
        d < 10,
    ensures
        c == digit_char(d as nat),
{
    ((d as u8) + 48) as char
}

/// The magnitude, in thousandths of a point, that an unsigned decimal spells.
fn parse_magnitude(b: &[char]) -> (r: Option<u64>)
    ensures
        r is Some <==> magnitude_of(b@) is Some,
        r matches Some(v) ==> v == magnitude_of(b@)->0 && v <= MAX_MILLIS,
{
    let n = b.len();
    let mut k: usize = 0;
    assert(b@.skip(0) =~= b@);
    while k < n && b[k] != '.'
        invariant
            k <= n == b@.len(),
            dot_pos(b@) == k + dot_pos(b@.skip(k as int)),
            forall|j: int| 0 <= j < k ==> b@[j] != '.',
        decreases n - k,
    {
        assert(b@.skip(k as int).drop_first() =~= b@.skip(k + 1));
        k = k + 1;
    }
    assert(dot_pos(b@) == k) by {
        if k < n {
            assert(b@.skip(k as int)[0] == '.');
        }
    }
    let ghost w = whole_part(b@);
    let ghost f = fraction_part(b@);
    assert(w =~= b@.take(k as int));
    let mut whole: u64 = 0;
    let mut i: usize = 0;
    while i < k
        invariant
            i <= k <= n == b@.len(),
            w == b@.take(k as int),
            w == whole_part(b@),
            all_digits(w.take(i as int)),
            i <= MAX_WHOLE_DIGITS ==> whole == digits_value(w.take(i as int)),
            whole < pow10(i as nat),
            i <= MAX_WHOLE_DIGITS,
        decreases k - i,
    {
        if i >= MAX_WHOLE_DIGITS {
            assert(w.len() > MAX_WHOLE_DIGITS);
            assert(whole_part(b@).len() > MAX_WHOLE_DIGITS);
            assert(magnitude_of(b@) is None);
            return None;
        }
        let c = b[i];
        assert(w[i as int] == c);
        let cu = c as u32;
        if !(48 <= cu && cu <= 57) {
            assert(!is_digit(w[i as int]));
            assert(!all_digits(w));
            assert(!is_number_text(b@));
            return None;
        }
        assert(w.take(i + 1).drop_last() =~= w.take(i as int));
        proof {
            lemma_pow10_mono(i as nat, 8);
            assert(pow10(8) == 100_000_000) by {
                reveal_with_fuel(pow10, 9);
            }
        }
        whole = whole * 10 + (cu as u64 - 48);
        i = i + 1;
        assert(all_digits(w.take(i as int)));
    }
    assert(w.take(k as int) =~= w);
    let mut frac: u64 = 0;
    let mut round = false;
    let mut j: usize = 0;
    let flen: usize = if k < n { n - k - 1 } else { 0 };
    assert(f.len() == flen);
    while j < flen
        invariant
            flen == f.len(),
            f == fraction_part(b@),
            w == whole_part(b@),
            all_digits(w),
            k < n ==> f == b@.skip(k + 1),
            j <= flen,
            all_digits(f.take(j as int)),
            j <= 3 ==> frac == digits_value(f.take(j as int)) && frac < pow10(j as nat),
            j > 3 ==> frac == digits_value(f.take(3)) && frac < 1000 && round == (digit_value(f[3]) >= 5),
            n == b@.len(),
            flen > 0 ==> k < n && k + 1 + flen == n,
        decreases flen - j,
    {
        let c = b[k + 1 + j];
        assert(c == f[j as int]);
        let cu = c as u32;
        if !(48 <= cu && cu <= 57) {
            assert(!is_digit(f[j as int]));
            assert(!all_digits(f));
            assert(!all_digits(fraction_part(b@)));
            assert(!is_number_text(b@));
            return None;
        }
        assert(f.take(j + 1).drop_last() =~= f.take(j as int));
        if j < 3 {
            proof {
                lemma_pow10_mono(j as nat, 2);
                assert(pow10(2) == 100) by {
                    reveal_with_fuel(pow10, 3);
                }
                assert(pow10(3) == 1000) by {
                    reveal_with_fuel(pow10, 4);
                }
            }
            frac = frac * 10 + (cu as u64 - 48);
        } else if j == 3 {
            round = cu >= 53;
            assert(f.take(3) =~= f.take(j as int));
        }
        j = j + 1;
        assert(all_digits(f.take(j as int)));
    }
    assert(f.take(flen as int) =~= f);
    if k + flen == 0 {
        return None;
    }
    assert(pow10(9) == 1_000_000_000) by {
        reveal_with_fuel(pow10, 10);
    }
    proof {
        lemma_pow10_mono(k as nat, 9);
    }
    if flen > 3 {
        return Some(whole * 1000 + frac + if round { 1 } else { 0 });
    }
    let scale: u64 = if flen == 0 { 1000 } else if flen == 1 { 100 } else if flen == 2 { 10 } else { 1 };
    assert(pow10((3 - flen) as nat) == scale) by {
        reveal_with_fuel(pow10, 4);
    }
    assert(pow10(9) == 1_000_000_000) by {
        reveal_with_fuel(pow10, 10);
    }
    assert(pow10(3) == 1000) by {
        reveal_with_fuel(pow10, 4);
    }
    proof {
        lemma_pow10_mono(flen as nat, 3);
    }
    assert(frac * scale < 1000) by (nonlinear_arith)
        requires frac < pow10(flen as nat), pow10((3 - flen) as nat) == scale, flen <= 3, scale * pow10(flen as nat) == 1000;
    Some(whole * 1000 + frac * scale)
}

/// Appends the decimal digits of `n` to `out`.
fn push_digits(n: u64, out: &mut Vec<char>)
    ensures
        final(out)@ == old(out)@ + digits_of(n as nat),
    decreases n,
{
    if n < 10 {
        out.push(digit(n));
        assert(final(out)@ =~= old(out)@ + digits_of(n as nat));
    } else {
        push_digits(n / 10, out);
        out.push(digit(n % 10));
        assert(final(out)@ =~= old(out)@ + digits_of(n as nat));
    }
}

proof fn lemma_pow10_mono(a: nat, b: nat)
    requires
        a <= b,
    ensures
        pow10(a) <= pow10(b),
    decreases b,
{
    if a < b {
        lemma_pow10_mono(a, (b - 1) as nat);
    }
}

} // verus!
