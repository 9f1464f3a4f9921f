//! Exact amounts: a rational number with a signed numerator and a positive
//! denominator, and the decimal grammar that amounts are written in.
use vstd::prelude::*;
use crate::text::{find, find_char};

verus! {

/// Largest number of digits that a written amount may hold. Amounts are exact, so
/// their digits must fit the numerator and denominator, and stay within the bound
/// under which unit conversions cannot overflow; a longer amount is refused with
/// `TooManyDigits`.
pub const MAX_DIGITS: usize = 30;

/// An amount `numer / denom`. Parsing yields `denom == 10^k`, where `k` is the
/// number of digits written after the decimal point.
#[derive(Clone, Copy, Debug, PartialEq, Eq, Structural)]
pub struct Amount {
    pub numer: i128,
    pub denom: u128,
}

/// Why a written amount was refused.
#[derive(Clone, Copy, Debug, PartialEq, Eq, Structural)]
pub enum ParseAmountError {
    /// Nothing was written.
    Empty,
    /// The text is not a decimal number with `.` as separator.
    Invalid,
    /// The number holds more digits than an amount can carry.
    TooManyDigits,
}

pub open spec fn pow10(k: nat) -> int
    decreases k,
{
    if k == 0 {
        1
    } else {
        10 * pow10((k - 1) as nat)
    }
}

/// Bound on both parts of an amount below which unit conversions cannot overflow.
pub open spec fn amount_limit() -> int {
    pow10(33)
}

impl Amount {
    /// The amount `n / 1`.
    pub fn whole(n: i64) -> (r: Amount)
        ensures
            r.numer == n,
            r.denom == 1,
    {
        Amount { numer: n as i128, denom: 1 }
    }

    /// The denominator is positive.
    pub open spec fn wf(self) -> bool {
        self.denom > 0
    }

    /// Both parts are small enough for any unit conversion.
    pub open spec fn in_range(self) -> bool {
        &&& self.wf()
        &&& -amount_limit() <= self.numer <= amount_limit()
        &&& self.denom <= amount_limit()
    }
}

pub open spec fn is_digit(c: char) -> bool {
    48 <= (c as u32) && (c as u32) <= 57
}

pub open spec fn digit_value(c: char) -> int {
    (c as u32) - 48
}

pub open spec fn all_digits(s: Seq<char>) -> bool {
    forall|i: int| 0 <= i < s.len() ==> is_digit(#[trigger] s[i])
}

/// The number that the decimal digits `s` spell.
pub open spec fn digits_value(s: Seq<char>) -> int
    decreases s.len(),
{
    if s.len() == 0 {
        0
    } else {
        10 * digits_value(s.drop_last()) + digit_value(s.last())
    }
}

/// Length of the optional leading sign.
pub open spec fn sign_len(t: Seq<char>) -> int {
    if t.len() > 0 && (t[0] == '+' || t[0] == '-') {
        1
    } else {
        0
    }
}

/// The digits before and after the decimal point, when `b` is digits with at
/// most one `.` among them.
pub open spec fn decimal_parts(b: Seq<char>) -> Option<(Seq<char>, Seq<char>)> {
    match find(b, '.') {
        None => if all_digits(b) {
            Some((b, Seq::empty()))
        } else {
            None
        },
        Some(p) => {
            let ip = b.subrange(0, p);
            let fp = b.subrange(p + 1, b.len() as int);
            if all_digits(ip) && all_digits(fp) {
                Some((ip, fp))
            } else {
                None
            }
        },
    }
}

/// What a written amount means: an optional sign, then decimal digits with at
/// most one `.`, at least one digit and at most `MAX_DIGITS` of them.
pub open spec fn parse_amount(t: Seq<char>) -> Result<Amount, ParseAmountError> {
    if t.len() == 0 {
        Err(ParseAmountError::Empty)
    } else {
        let body = t.subrange(sign_len(t), t.len() as int);
        match decimal_parts(body) {
            None => Err(ParseAmountError::Invalid),
            Some((ip, fp)) => if ip.len() + fp.len() == 0 {
                Err(ParseAmountError::Invalid)
            } else if ip.len() + fp.len() > MAX_DIGITS {
                Err(ParseAmountError::TooManyDigits)
            } else {
                let m = digits_value(ip + fp);
                Ok(
                    Amount {
                        numer: (if t[0] == '-' {
                            -m
                        } else {
                            m
                        }) as i128,
                        denom: pow10(fp.len()) as u128,
                    },
                )
            },
        }
    }
}

pub proof fn lemma_pow10_mono(a: nat, b: nat)
    requires
        a <= b,
    ensures
        1 <= pow10(a) <= pow10(b),
    decreases b,
{
    if b > 0 {
        if a == b {
            lemma_pow10_mono((a - 1) as nat, (b - 1) as nat);
        } else {
            lemma_pow10_mono(a, (b - 1) as nat);
        }
    }
}

pub proof fn lemma_digits_bound(s: Seq<char>)
    requires
        all_digits(s),
    ensures
        0 <= digits_value(s) < pow10(s.len()),
    decreases s.len(),
{
    if s.len() > 0 {
        let p = s.drop_last();
        assert(all_digits(p)) by {
            assert forall|i: int| 0 <= i < p.len() implies is_digit(#[trigger] p[i]) by {
                assert(p[i] == s[i]);
            }
        }
        lemma_digits_bound(p);
        assert(is_digit(s[s.len() - 1]));
    }
}

pub proof fn lemma_pow10_values()
    ensures
        pow10(29) == 100000000000000000000000000000int,
        pow10(30) == 1000000000000000000000000000000int,
        pow10(33) == 1000000000000000000000000000000000int,
{
    reveal_with_fuel(pow10, 34);
}

fn pow10_exec(k: usize) -> (r: u128)
    requires
        k <= MAX_DIGITS,
    ensures
        r == pow10(k as nat),
{
    let mut r: u128 = 1;
    let mut i: usize = 0;
    while i < k
        invariant
            i <= k <= MAX_DIGITS,
            r == pow10(i as nat),
        decreases k - i,
    {
        proof {
            lemma_pow10_mono(i as nat + 1, 30);
            lemma_pow10_values();
        }
        r = r * 10;
        i = i + 1;
    }
    r
}

fn all_digits_exec(s: &[char]) -> (r: bool)
    ensures
        r == all_digits(s@),
{
    let mut i: usize = 0;
    while i < s.len()
        invariant
            i <= s@.len(),
            forall|k: int| 0 <= k < i ==> is_digit(#[trigger] s@[k]),
        decreases s@.len() - i,
    {
        let c: u32 = s[i] as u32;
        if c < 48 || c > 57 {
            return false;
        }
        i = i + 1;
    }
    true
}

/// Continues the digits `prefix`, whose value is `acc`, with the digits `s`.
fn push_digits(acc: u128, Ghost(prefix): Ghost<Seq<char>>, s: &[char]) -> (r: u128)
    requires
        acc == digits_value(prefix),
        all_digits(prefix),
        all_digits(s@),
        prefix.len() + s@.len() <= MAX_DIGITS,
    ensures
        r == digits_value(prefix + s@),
{
    let mut r = acc;
    let mut i: usize = 0;
    while i < s.len()
        invariant
            i <= s@.len(),
            all_digits(prefix),
            all_digits(s@),
            prefix.len() + s@.len() <= MAX_DIGITS,
            r == digits_value(prefix + s@.subrange(0, i as int)),
        decreases s@.len() - i,
    {
        let ghost before = prefix + s@.subrange(0, i as int);
        let ghost after = prefix + s@.subrange(0, i + 1);
        proof {
            assert(after.drop_last() =~= before);
            assert(after.last() == s@[i as int]);
            assert(all_digits(before)) by {
                assert forall|k: int| 0 <= k < before.len() implies is_digit(#[trigger] before[k]) by {
                    if k < prefix.len() {
                        assert(before[k] == prefix[k]);
                    } else {
                        assert(before[k] == s@[k - prefix.len()]);
                    }
                }
            }
            lemma_digits_bound(before);
            lemma_pow10_mono(before.len(), 29);
            lemma_pow10_values();
            assert(is_digit(s@[i as int]));
        }
        let d: u32 = s[i] as u32 - 48;
        r = r * 10 + d as u128;
        i = i + 1;
    }
    assert(s@.subrange(0, s@.len() as int) =~= s@);
    r
}

/// Reads a written amount; see `parse_amount`.
pub fn parse_amount_chars(t: &[char]) -> (r: Result<Amount, ParseAmountError>)
    ensures
        r == parse_amount(t@),
        r matches Ok(a) ==> a.in_range(),
{
    if t.len() == 0 {
        return Err(ParseAmountError::Empty);
    }
    let negative = t[0] == '-';
    let sl: usize = if t[0] == '+' || t[0] == '-' {
        1
    } else {
        0
    };
    let body = &t[sl..t.len()];
    let (ip, fp) = match find_char(body, '.') {
        None => (body, &body[0..0]),
        Some(p) => (&body[0..p], &body[p + 1..body.len()]),
    };
    proof {
        if find(body@, '.') is None {
            assert(ip@ =~= body@);
            assert(fp@ =~= Seq::<char>::empty());
        }
    }
    if !all_digits_exec(ip) || !all_digits_exec(fp) {
        return Err(ParseAmountError::Invalid);
    }
    let n = ip.len() + fp.len();
    if n == 0 {
        return Err(ParseAmountError::Invalid);
    }
    if n > MAX_DIGITS {
        return Err(ParseAmountError::TooManyDigits);
    }
    let m1 = push_digits(0, Ghost(Seq::empty()), ip);
    assert(Seq::<char>::empty() + ip@ =~= ip@);
    let m = push_digits(m1, Ghost(ip@), fp);
    let denom = pow10_exec(fp.len());
    proof {
        let s = ip@ + fp@;
        assert(all_digits(s)) by {
            assert forall|k: int| 0 <= k < s.len() implies is_digit(#[trigger] s[k]) by {
                if k < ip@.len() {
                    assert(s[k] == ip@[k]);
                } else {
                    assert(s[k] == fp@[k - ip@.len()]);
                }
            }
        }
        lemma_digits_bound(s);
        lemma_pow10_mono(s.len(), 30);
        lemma_pow10_mono(30, 33);
        lemma_pow10_mono(fp@.len(), 30);
        lemma_pow10_values();
    }
    let numer: i128 = if negative {
        -(m as i128)
    } else {
        m as i128
    };
    Ok(Amount { numer, denom })
}

/// The digit character for `d`.
pub fn digit_char(d: u32) -> (c: char)
    requires
        d < 10,
    ensures
        is_digit(c),
        digit_value(c) == d,
{
    match d {
        0 => '0',
        1 => '1',
        2 => '2',
        3 => '3',
        4 => '4',
        5 => '5',
        6 => '6',
        7 => '7',
        8 => '8',
        _ => '9',
    }
}

/// The decimal digits of `n`, most significant first, without leading zeros.
pub fn digits_of(n: u128) -> (r: Vec<char>)
    ensures
        all_digits(r@),
        digits_value(r@) == n,
        1 <= r@.len(),
        n > 0 ==> digit_value(r@[0]) > 0,
        n == 0 ==> r@.len() == 1,
    decreases n,
{
    let c = digit_char((n % 10) as u32);
    if n < 10 {
        let r = vec![c];
        assert(r@.drop_last() =~= Seq::<char>::empty());
        assert(digits_value(r@) == 10 * digits_value(r@.drop_last()) + digit_value(r@.last()));
        r
    } else {
        let mut r = digits_of(n / 10);
        let ghost before = r@;
        r.push(c);
        assert(r@.drop_last() =~= before);
        assert(r@[0] == before[0]);
        assert(n == 10 * (n / 10) + n % 10);
        assert(all_digits(r@)) by {
            assert forall|i: int| 0 <= i < r@.len() implies is_digit(#[trigger] r@[i]) by {
                if i < before.len() {
                    assert(r@[i] == before[i]);
                }
            }
        }
        r
    }
}

/// What went wrong, in words.
pub open spec fn error_words(e: ParseAmountError) -> Seq<char> {
    match e {
        ParseAmountError::Empty => "cannot parse float from empty string"@,
        ParseAmountError::Invalid => "invalid float literal"@,
        ParseAmountError::TooManyDigits => "number has too many digits"@,
    }
}

/// What went wrong, in words.
pub fn error_text(e: ParseAmountError) -> (r: &'static str)
    ensures
        r@ == error_words(e),
{
    match e {
        ParseAmountError::Empty => "cannot parse float from empty string",
        ParseAmountError::Invalid => "invalid float literal",
        ParseAmountError::TooManyDigits => "number has too many digits",
    }
}

/// A character of a written amount: a digit, the decimal point or a sign.
pub open spec fn is_amount_char(c: char) -> bool {
    is_digit(c) || c == '.' || c == '+' || c == '-'
}

/// The amount has a decimal form of at most `MAX_DIGITS` digits: its denominator
/// is `10^k` with `k < MAX_DIGITS`, and its numerator is below `10^MAX_DIGITS` in size.
pub open spec fn has_decimal_form(a: Amount) -> bool {
    &&& exists|k: nat| k < MAX_DIGITS && a.denom == pow10(k)
    &&& -pow10(MAX_DIGITS as nat) < a.numer < pow10(MAX_DIGITS as nat)
}

proof fn lemma_digits_lower(s: Seq<char>)
    requires
        all_digits(s),
        s.len() >= 1,
        digit_value(s[0]) > 0,
    ensures
        digits_value(s) >= pow10((s.len() - 1) as nat),
    decreases s.len(),
{
    let p = s.drop_last();
    assert(is_digit(s.last()));
    let last = digit_value(s.last());
    assert(digits_value(s) == 10 * digits_value(p) + last);
    if s.len() > 1 {
        assert(all_digits(p)) by {
            assert forall|i: int| 0 <= i < p.len() implies is_digit(#[trigger] p[i]) by {
                assert(p[i] == s[i]);
            }
        }
        assert(p[0] == s[0]);
        lemma_digits_lower(p);
        let e = pow10((p.len() - 1) as nat);
        assert(pow10((s.len() - 1) as nat) == 10 * e);
        assert(digits_value(p) >= e);
        assert(last >= 0);
    } else {
        assert(is_digit(s[0]));
        assert(s.last() == s[0]);
        assert(p.len() == 0);
        assert(digits_value(p) == 0);
        assert(last >= 1);
    }
}

pub open spec fn zeros(n: nat) -> Seq<char> {
    Seq::new(n, |i: int| '0')
}

proof fn lemma_leading_zeros(n: nat, d: Seq<char>)
    ensures
        digits_value(zeros(n) + d) == digits_value(d),
    decreases d.len(), n,
{
    if d.len() > 0 {
        assert((zeros(n) + d).drop_last() =~= zeros(n) + d.drop_last());
        lemma_leading_zeros(n, d.drop_last());
    } else if n > 0 {
        assert(zeros(n) + d =~= zeros(n));
        assert(zeros(n).drop_last() =~= zeros((n - 1) as nat) + Seq::<char>::empty());
        lemma_leading_zeros((n - 1) as nat, Seq::<char>::empty());
    } else {
        assert(zeros(n) + d =~= Seq::<char>::empty());
    }
}

/// The `k` with `denom == 10^k`, if it is below `MAX_DIGITS`.
fn find_scale(denom: u128) -> (r: Option<usize>)
    ensures
        match r {
            Some(k) => k < MAX_DIGITS && denom == pow10(k as nat),
            None => forall|k: nat| k < MAX_DIGITS ==> denom != pow10(k),
        },
{
    let mut k: usize = 0;
    while k < MAX_DIGITS
        invariant
            k <= MAX_DIGITS,
            forall|j: nat| j < k ==> denom != pow10(j),
        decreases MAX_DIGITS - k,
    {
        if pow10_exec(k) == denom {
            return Some(k);
        }
        k = k + 1;
    }
    None
}

/// The text `sign`, digits `z` with a point before the last `k` of them, reads
/// back as the number those digits spell over `10^k`.
proof fn lemma_rendered_reads_back(t: Seq<char>, sign: Seq<char>, z: Seq<char>, p: int, k: nat, negative: bool)
    requires
        all_digits(z),
        1 <= z.len() <= MAX_DIGITS,
        k < MAX_DIGITS,
        p == z.len() - k,
        1 <= p,
        sign == (if negative { seq!['-'] } else { Seq::<char>::empty() }),
        t == sign + (if z.len() <= p { z } else { z.subrange(0, p) + seq!['.'] + z.subrange(p, z.len() as int) }),
    ensures
        forall|i: int| 0 <= i < t.len() ==> is_amount_char(#[trigger] t[i]),
        parse_amount(t) == Ok::<Amount, ParseAmountError>(Amount {
            numer: (if negative { -digits_value(z) } else { digits_value(z) }) as i128,
            denom: pow10(k) as u128,
        }),
{
    let width = z.len() as int;
    let body = if k == 0 {
        z
    } else {
        z.subrange(0, p) + seq!['.'] + z.subrange(p, width)
    };
    assert(t =~= sign + body);
    assert(is_digit(z[0]));
    assert(body[0] == z[0]);
    let sl = sign_len(t);
    assert(sl == sign.len());
    assert(t.subrange(sl, t.len() as int) =~= body);
    assert(t[0] == '-' <==> negative);
    if k == 0 {
        assert(!(exists|i: int| 0 <= i < body.len() && body[i] == '.')) by {
            assert forall|i: int| 0 <= i < body.len() implies body[i] != '.' by {
                assert(is_digit(body[i]));
            }
        }
        assert(decimal_parts(body) == Some((z, Seq::<char>::empty())));
        assert(z + Seq::<char>::empty() =~= z);
    } else {
        let w = choose|w: int| 0 <= w < body.len() && body[w] == '.' && forall|c: int| 0 <= c < w ==> body[c] != '.';
        assert(body[p] == '.');
        assert(w == p) by {
            if w < p {
                assert(body[w] == z[w]);
                assert(is_digit(z[w]));
            } else if w > p {
                assert(body[p] == '.');
            }
        }
        assert(find(body, '.') == Some(p));
        let ip = body.subrange(0, p);
        let fp = body.subrange(p + 1, body.len() as int);
        assert(ip =~= z.subrange(0, p));
        assert(fp =~= z.subrange(p, width));
        assert(ip + fp =~= z);
        assert(all_digits(ip)) by {
            assert forall|c: int| 0 <= c < ip.len() implies is_digit(#[trigger] ip[c]) by {
                assert(ip[c] == z[c]);
            }
        }
        assert(all_digits(fp)) by {
            assert forall|c: int| 0 <= c < fp.len() implies is_digit(#[trigger] fp[c]) by {
                assert(fp[c] == z[p + c]);
            }
        }
    }
    assert forall|c: int| 0 <= c < t.len() implies is_amount_char(#[trigger] t[c]) by {
        if c >= sign.len() {
            let b = c - sign.len();
            assert(t[c] == body[b]);
            if k == 0 {
                assert(is_digit(z[b]));
            } else if b < p {
                assert(body[b] == z[b]);
                assert(is_digit(z[b]));
            } else if b > p {
                assert(body[b] == z[b - 1]);
                assert(is_digit(z[b - 1]));
            }
        }
    }
}

/// `d` behind enough zeros to make `width` digits.
fn pad_digits(d: &Vec<char>, width: usize) -> (z: Vec<char>)
    requires
        d@.len() <= width,
    ensures
        z@ == zeros((width - d@.len()) as nat) + d@,
{
    let len_d = d.len();
    let mut z: Vec<char> = Vec::new();
    let mut i: usize = 0;
    while i < width - len_d
        invariant
            len_d == d@.len() <= width,
            i <= width - len_d,
            z@ == zeros(i as nat),
        decreases width - len_d - i,
    {
        z.push('0');
        assert(z@ =~= zeros(i as nat + 1));
        i = i + 1;
    }
    let ghost pad = z@;
    let mut j: usize = 0;
    while j < len_d
        invariant
            j <= len_d == d@.len(),
            pad == zeros((width - len_d) as nat),
            z@ == pad + d@.subrange(0, j as int),
        decreases len_d - j,
    {
        z.push(d[j]);
        assert(z@ =~= pad + d@.subrange(0, j + 1));
        j = j + 1;
    }
    assert(d@.subrange(0, len_d as int) =~= d@);
    z
}

/// A `-` when `negative`, then `z` with a point before its last `k` characters
/// when `k > 0`.
fn point_text(negative: bool, z: &Vec<char>, k: usize) -> (t: Vec<char>)
    requires
        k < z@.len(),
    ensures
        t@ == (if negative { seq!['-'] } else { Seq::<char>::empty() }) + (if k == 0 {
            z@
        } else {
            z@.subrange(0, z@.len() - k) + seq!['.'] + z@.subrange(z@.len() - k, z@.len() as int)
        }),
{
    let width = z.len();
    let p = width - k;
    let mut t: Vec<char> = Vec::new();
    if negative {
        t.push('-');
    }
    let ghost sign = t@;
    let mut q: usize = 0;
    while q < width
        invariant
            width == z@.len(),
            p == width - k,
            k < width,
            sign == (if negative { seq!['-'] } else { Seq::<char>::empty() }),
            q <= width,
            t@ == sign + (if q <= p { z@.subrange(0, q as int) } else { z@.subrange(0, p as int) + seq!['.'] + z@.subrange(p as int, q as int) }),
        decreases width - q,
    {
        if q == p && k > 0 {
            t.push('.');
        }
        t.push(z[q]);
        proof {
            if q < p {
                assert(t@ =~= sign + z@.subrange(0, q + 1));
            } else if q == p && k > 0 {
                assert(t@ =~= sign + (z@.subrange(0, p as int) + seq!['.'] + z@.subrange(p as int, q + 1)));
            } else {
                assert(z@.subrange(p as int, q + 1) =~= z@.subrange(p as int, q as int).push(z@[q as int]));
                assert(t@ =~= sign + (z@.subrange(0, p as int) + seq!['.'] + z@.subrange(p as int, q + 1)));
            }
        }
        q = q + 1;
    }
    assert(z@.subrange(0, width as int) =~= z@);
    t
}

/// The decimal text of an amount that has a decimal form: a `-` when negative,
/// then the digits with a point before the last `k` of them when the
/// denominator is `10^k` with `k > 0`.
pub fn render_amount(a: Amount) -> (r: Option<Vec<char>>)
    ensures
        r is Some <==> has_decimal_form(a),
        r matches Some(t) ==> (forall|i: int| 0 <= i < t@.len() ==> is_amount_char(#[trigger] t@[i]))
            && parse_amount(t@) == Ok::<Amount, ParseAmountError>(a),
{
    proof {
        lemma_pow10_values();
    }
    let k = match find_scale(a.denom) {
        Some(k) => k,
        None => return None,
    };
    let limit: i128 = 1000000000000000000000000000000;
    if a.numer <= -limit || a.numer >= limit {
        return None;
    }
    let negative = a.numer < 0;
    let m: u128 = if negative {
        (-a.numer) as u128
    } else {
        a.numer as u128
    };
    let d = digits_of(m);
    proof {
        if d@.len() > 30 {
            lemma_digits_lower(d@);
            lemma_pow10_mono(30, (d@.len() - 1) as nat);
        }
    }
    let len_d = d.len();
    let width: usize = if k + 1 > len_d {
        k + 1
    } else {
        len_d
    };
    let z = pad_digits(&d, width);
    proof {
        lemma_leading_zeros((width - len_d) as nat, d@);
        assert(all_digits(z@)) by {
            assert forall|q: int| 0 <= q < z@.len() implies is_digit(#[trigger] z@[q]) by {
                if q >= width - len_d {
                    assert(z@[q] == d@[q - (width - len_d)]);
                }
            }
        }
    }
    let t = point_text(negative, &z, k);
    let p = width - k;
    let ghost sign = if negative { seq!['-'] } else { Seq::<char>::empty() };
    proof {
        assert(z@.subrange(0, width as int) =~= z@);
        lemma_rendered_reads_back(t@, sign, z@, p as int, k as nat, negative);
    }
    Some(t)
}

} // verus!
