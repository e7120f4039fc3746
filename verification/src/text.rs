//! Decimal text: how numbers are written for the display and how typed
//! numeric text is read back.  A number is written with its full ten decimal
//! places, then trailing zeros are dropped, then a bare trailing point.

use crate::fixed::{in_range, Fixed, MAX_UNITS, SCALE};
use vstd::prelude::*;

verus! {

/// Whether `c` is a decimal digit character.
pub open spec fn is_digit(c: char) -> bool {
    48 <= c as u32 <= 57
}

/// The value of the digit character `c`.
pub open spec fn digit_val(c: char) -> int {
    c as u32 - '0' as u32
}

/// The digit character for `d`; intended for `0 <= d <= 9`.
pub open spec fn digit_char(d: int) -> char {
    if d == 0 {
        '0'
    } else if d == 1 {
        '1'
    } else if d == 2 {
        '2'
    } else if d == 3 {
        '3'
    } else if d == 4 {
        '4'
    } else if d == 5 {
        '5'
    } else if d == 6 {
        '6'
    } else if d == 7 {
        '7'
    } else if d == 8 {
        '8'
    } else {
        '9'
    }
}

/// Ten to the `k`.
pub open spec fn pow10(k: nat) -> int
    decreases k,
{
    if k == 0 {
        1
    } else {
        10 * pow10((k - 1) as nat)
    }
}

/// The decimal digits of `n`, most significant first, no leading zeros
/// (a single zero for zero itself).
pub open spec fn digits_of(n: nat) -> Seq<char>
    decreases n,
{
    if n < 10 {
        seq![digit_char(n as int)]
    } else {
        digits_of(n / 10).push(digit_char((n % 10) as int))
    }
}

/// The `k` decimal digits of `n`, zero-padded at the front; intended for
/// `n < pow10(k)`.
pub open spec fn padded_digits(n: nat, k: nat) -> Seq<char>
    decreases k,
{
    if k == 0 {
        Seq::empty()
    } else {
        padded_digits(n / 10, (k - 1) as nat).push(digit_char((n % 10) as int))
    }
}

/// `s` with its trailing `'0'` characters dropped.
pub open spec fn trim_zeros(s: Seq<char>) -> Seq<char>
    decreases s.len(),
{
    if s.len() > 0 && s.last() == '0' {
        trim_zeros(s.drop_last())
    } else {
        s
    }
}

/// The display text of a number of `n` units: the value written with ten
/// decimal places, trailing zeros dropped, then a bare trailing point
/// dropped; a leading minus sign for negative values.
pub open spec fn format_units(n: int) -> Seq<char> {
    let m = vstd::math::abs(n);
    let whole = digits_of(m / (SCALE as nat));
    let frac = trim_zeros(padded_digits(m % (SCALE as nat), 10));
    let body = if frac.len() == 0 {
        whole
    } else {
        whole + seq!['.'] + frac
    };
    if n < 0 {
        seq!['-'] + body
    } else {
        body
    }
}

/// Whether every character of `s` is a decimal digit.
pub open spec fn all_digits(s: Seq<char>) -> bool {
    forall|i: int| 0 <= i < s.len() ==> is_digit(#[trigger] s[i])
}

/// The number a digit string spells, most significant digit first.
pub open spec fn digits_val(s: Seq<char>) -> int
    decreases s.len(),
{
    if s.len() == 0 {
        0
    } else {
        10 * digits_val(s.drop_last()) + digit_val(s.last())
    }
}

/// Index of the first `'.'` in `t`, or `t.len()` when there is none.
pub open spec fn point_pos(t: Seq<char>) -> int
    decreases t.len(),
{
    if t.len() == 0 {
        0
    } else if t[0] == '.' {
        0
    } else {
        1 + point_pos(t.drop_first())
    }
}

/// Well-formed unsigned numeric text: at least one digit, and besides
/// digits at most a single decimal point.
pub open spec fn body_well_formed(t: Seq<char>) -> bool {
    &&& t.len() >= 1
    &&& forall|i: int| 0 <= i < t.len() ==> is_digit(#[trigger] t[i]) || t[i] == '.'
    &&& exists|i: int| 0 <= i < t.len() && is_digit(#[trigger] t[i])
    &&& forall|i: int, j: int|
        0 <= i < t.len() && 0 <= j < t.len() && #[trigger] t[i] == '.' && #[trigger] t[j] == '.'
            ==> i == j
}

/// The fraction digits of `t`: what follows its decimal point.
pub open spec fn frac_part(t: Seq<char>) -> Seq<char> {
    if point_pos(t) < t.len() {
        t.subrange(point_pos(t) + 1, t.len() as int)
    } else {
        Seq::empty()
    }
}

/// The first ten fraction digits, zero-padded to ten.
pub open spec fn frac_window(fs: Seq<char>) -> Seq<char> {
    if fs.len() >= 10 {
        fs.subrange(0, 10)
    } else {
        fs + padded_digits(0, (10 - fs.len()) as nat)
    }
}

/// Fraction digits scaled to units: the first ten digits, plus one unit
/// when the eleventh digit rounds the value up (ties away from zero).
pub open spec fn frac_units(fs: Seq<char>) -> int {
    digits_val(frac_window(fs)) + if fs.len() > 10 && digit_val(fs[10]) >= 5 {
        1int
    } else {
        0int
    }
}

/// The units spelled by well-formed unsigned numeric text: the whole part
/// scaled, plus the fraction rounded to ten decimal places.
pub open spec fn body_units(t: Seq<char>) -> int {
    digits_val(t.subrange(0, point_pos(t))) * (SCALE as int) + frac_units(frac_part(t))
}

/// The value, in units, that numeric text parses to: `None` when the text
/// is malformed or the value falls outside the representable range.
pub open spec fn parse_units(s: Seq<char>) -> Option<int> {
    if s.len() >= 1 && s[0] == '-' {
        match parse_unsigned(s.subrange(1, s.len() as int)) {
            Some(v) => Some(-v),
            None => None,
        }
    } else {
        parse_unsigned(s)
    }
}

/// The value of unsigned numeric text, when well formed and in range.
pub open spec fn parse_unsigned(t: Seq<char>) -> Option<int> {
    if body_well_formed(t) && body_units(t) <= MAX_UNITS as int {
        Some(body_units(t))
    } else {
        None
    }
}

/// What an input buffer yields: text of exactly `"."` counts as zero.
pub open spec fn input_units(s: Seq<char>) -> Option<int> {
    if s =~= seq!['.'] {
        Some(0int)
    } else {
        parse_units(s)
    }
}

/// A digit string spells a nonnegative number.
pub proof fn lemma_digits_val_nonneg(s: Seq<char>)
    requires
        all_digits(s),
    ensures
        digits_val(s) >= 0,
    decreases s.len(),
{
    if s.len() > 0 {
        assert(all_digits(s.drop_last()));
        lemma_digits_val_nonneg(s.drop_last());
    }
}

/// Extending a digit string at the end cannot lower its value.
pub proof fn lemma_digits_val_prefix(s: Seq<char>, k: int)
    requires
        all_digits(s),
        0 <= k <= s.len(),
    ensures
        digits_val(s.subrange(0, k)) <= digits_val(s),
    decreases s.len() - k,
{
    if k < s.len() {
        assert(s.subrange(0, k + 1).drop_last() =~= s.subrange(0, k));
        assert(all_digits(s.subrange(0, k)));
        lemma_digits_val_nonneg(s.subrange(0, k));
        assert(is_digit(s[k]));
        assert(digits_val(s.subrange(0, k + 1)) == 10 * digits_val(s.subrange(0, k)) + digit_val(
            s[k],
        ));
        lemma_digits_val_prefix(s, k + 1);
    } else {
        assert(s.subrange(0, k) =~= s);
    }
}

/// Ten to the `k` does not shrink as `k` grows.
pub proof fn lemma_pow10_mono(a: nat, b: nat)
    requires
        a <= b,
    ensures
        pow10(a) <= pow10(b),
    decreases b,
{
    if a < b {
        lemma_pow10_mono(a, (b - 1) as nat);
        assert(pow10((b - 1) as nat) >= 1) by {
            lemma_pow10_mono(0, (b - 1) as nat);
        }
    }
}

/// Where the first point of `t` sits, told from the characters themselves.
pub proof fn lemma_point_pos_is(t: Seq<char>, p: int)
    requires
        0 <= p <= t.len(),
        forall|j: int| 0 <= j < p ==> t[j] != '.',
        p < t.len() ==> t[p] == '.',
    ensures
        point_pos(t) == p,
    decreases t.len(),
{
    if t.len() == 0 {
    } else if t[0] == '.' {
        assert(p == 0);
    } else {
        assert(p >= 1);
        assert(forall|j: int| 0 <= j < p - 1 ==> t.drop_first()[j] == t[j + 1]);
        lemma_point_pos_is(t.drop_first(), p - 1);
    }
}

/// Zero-padded digit strings hold digit characters only.
pub proof fn lemma_padded_all_digits(n: nat, k: nat)
    ensures
        all_digits(padded_digits(n, k)),
        padded_digits(n, k).len() == k,
    decreases k,
{
    if k > 0 {
        lemma_padded_all_digits(n / 10, (k - 1) as nat);
    }
}

/// The zero-padded digits of zero are all `'0'`.
pub proof fn lemma_padded_zero(k: nat)
    ensures
        padded_digits(0, k).len() == k,
        forall|i: int| 0 <= i < k ==> padded_digits(0, k)[i] == '0',
    decreases k,
{
    if k > 0 {
        lemma_padded_zero((k - 1) as nat);
    }
}

/// The plain digits of a number are digit characters, at least one, and
/// never start with `'0'` unless the number is zero.
pub proof fn lemma_digits_of_wf(n: nat)
    ensures
        all_digits(digits_of(n)),
        digits_of(n).len() >= 1,
    decreases n,
{
    if n >= 10 {
        lemma_digits_of_wf(n / 10);
    }
}

/// The digit character for `d`.
fn char_digit(c: char) -> (d: u8)
    requires
        is_digit(c),
    ensures
        d as int == digit_val(c),
        d <= 9,
{
    ((c as u32) - 48) as u8
}

/// Where the first point of `t` sits: within bounds, nothing before it
/// is a point, and it is one itself when it lies inside.
pub proof fn lemma_point_pos_props(t: Seq<char>)
    ensures
        0 <= point_pos(t) <= t.len(),
        forall|j: int| 0 <= j < point_pos(t) ==> t[j] != '.',
        point_pos(t) < t.len() ==> t[point_pos(t)] == '.',
    decreases t.len(),
{
    if t.len() > 0 && t[0] != '.' {
        lemma_point_pos_props(t.drop_first());
        assert forall|j: int| 0 <= j < point_pos(t) implies t[j] != '.' by {
            if j >= 1 {
                assert(t.drop_first()[j - 1] == t[j]);
            }
        }
        if point_pos(t) < t.len() {
            assert(t.drop_first()[point_pos(t) - 1] == t[point_pos(t)]);
        }
    }
}

/// Facts the first scan of the text establishes: with digits everywhere
/// but at most one point, and a digit somewhere, the body is well formed
/// and its point sits where the scan saw it.
proof fn lemma_scan_shape(s: Seq<char>, start: int, dot: int)
    requires
        0 <= start <= s.len(),
        dot == s.len() || (start <= dot < s.len() && s[dot] == '.'),
        forall|j: int| start <= j < s.len() && j != dot ==> is_digit(#[trigger] s[j]),
        exists|j: int| start <= j < s.len() && is_digit(#[trigger] s[j]),
    ensures
        body_well_formed(s.subrange(start, s.len() as int)),
        point_pos(s.subrange(start, s.len() as int)) == (if dot == s.len() {
            s.len() as int
        } else {
            dot
        }) - start,
{
    let t = s.subrange(start, s.len() as int);
    assert(forall|k: int| 0 <= k < t.len() ==> #[trigger] t[k] == s[start + k]);
    assert('.' as u32 == 46);
    let jw = choose|j: int| start <= j < s.len() && is_digit(#[trigger] s[j]);
    assert(is_digit(t[jw - start]));
    assert(forall|k: int| 0 <= k < t.len() ==> is_digit(#[trigger] t[k]) || t[k] == '.');
    assert(forall|k: int| 0 <= k < t.len() && #[trigger] t[k] == '.' ==> start + k == dot);
    if dot == s.len() {
        lemma_point_pos_is(t, t.len() as int);
    } else {
        lemma_point_pos_is(t, dot - start);
    }
}

/// Signed text parses as its unsigned body does, negated under a leading
/// minus sign.
proof fn lemma_parse_signed(s: Seq<char>, start: int, neg: bool)
    requires
        neg <==> (s.len() >= 1 && s[0] == '-'),
        start == if neg {
            1int
        } else {
            0int
        },
    ensures
        parse_units(s) == (match parse_unsigned(s.subrange(start, s.len() as int)) {
            Some(v) => Some(
                if neg {
                    -v
                } else {
                    v
                },
            ),
            None => None::<int>,
        }),
{
    if !neg {
        assert(s.subrange(0, s.len() as int) =~= s);
    }
}

/// Reads numeric text: an optional minus sign, then digits with at most
/// one decimal point among them; the value is rounded to ten decimal
/// places.  `None` when the text is malformed or out of range.
#[verifier::rlimit(50)]
pub fn parse_text(s: &str) -> (r: Option<Fixed>)
    ensures
        r is Some <==> parse_units(s@) is Some,
        r matches Some(v) ==> Some(v@) == parse_units(s@),
{
    let n = s.unicode_len();
    let neg = n >= 1 && s.get_char(0) == '-';
    let start: usize = if neg {
        1
    } else {
        0
    };
    let ghost t = s@.subrange(start as int, n as int);
    proof {
        lemma_parse_signed(s@, start as int, neg);
    }
    // First pass: the shape of the text.
    let mut i = start;
    let mut dot: usize = n;
    let mut saw_digit = false;
    while i < n
        invariant
            start <= i <= n,
            start <= 1,
            n == s@.len(),
            neg <==> (s@.len() >= 1 && s@[0] == '-'),
            start == if neg {
                1int
            } else {
                0int
            },
            t == s@.subrange(start as int, n as int),
            dot == n || (start <= dot && dot < i && s@[dot as int] == '.'),
            forall|j: int| start <= j < i && j != dot ==> is_digit(#[trigger] s@[j]),
            saw_digit <==> exists|j: int| start <= j < i && is_digit(#[trigger] s@[j]),
        decreases n - i,
    {
        let c = s.get_char(i);
        let cc = c as u32;
        if c == '.' {
            if dot < n {
                proof {
                    assert(t[dot - start] == '.' && t[i - start] == '.');
                    assert(!body_well_formed(t));
                    lemma_parse_signed(s@, start as int, neg);
                }
                return None;
            }
            dot = i;
        } else if 48 <= cc && cc <= 57 {
            saw_digit = true;
        } else {
            proof {
                assert(t[i - start] == s@[i as int]);
                assert('.' as u32 == 46);
                assert(!body_well_formed(t));
                lemma_parse_signed(s@, start as int, neg);
            }
            return None;
        }
        i += 1;
    }
    if !saw_digit {
        proof {
            assert(forall|k: int| 0 <= k < t.len() ==> #[trigger] t[k] == s@[start + k]);
            assert(forall|k: int| 0 <= k < t.len() ==> !is_digit(#[trigger] t[k]));
            assert(!body_well_formed(t));
            lemma_parse_signed(s@, start as int, neg);
        }
        return None;
    }
    proof {
        lemma_scan_shape(s@, start as int, dot as int);
    }
    let ghost ip = t.subrange(0, point_pos(t));
    let ghost fs = frac_part(t);
    proof {
        assert(forall|k: int| 0 <= k < t.len() ==> #[trigger] t[k] == s@[start + k]);
        assert(all_digits(ip));
        assert(all_digits(fs));
        if fs.len() < 10 {
            lemma_padded_all_digits(0, (10 - fs.len()) as nat);
            lemma_padded_zero((10 - fs.len()) as nat);
        }
        assert(all_digits(frac_window(fs)));
        assert(frac_window(fs).len() == 10);
        lemma_digits_val_nonneg(frac_window(fs));
        assert(frac_units(fs) >= 0);
    }
    // Second pass: the whole part.
    let end_ip = dot;
    let mut acc: u128 = 0;
    let mut w = start;
    while w < end_ip
        invariant
            start <= w <= end_ip,
            end_ip == dot,
            dot <= n,
            n == s@.len(),
            start <= 1,
            neg <==> (s@.len() >= 1 && s@[0] == '-'),
            start == if neg {
                1int
            } else {
                0int
            },
            t == s@.subrange(start as int, n as int),
            ip == t.subrange(0, point_pos(t)),
            point_pos(t) == end_ip - start,
            all_digits(ip),
            frac_units(fs) >= 0,
            body_well_formed(t),
            fs == frac_part(t),
            forall|j: int| start <= j < end_ip ==> is_digit(#[trigger] s@[j]),
            acc == digits_val(ip.subrange(0, w - start)),
            acc <= 1_000_000_000,
        decreases end_ip - w,
    {
        let c = s.get_char(w);
        let d = char_digit(c);
        proof {
            assert(ip[w - start] == s@[w as int]);
            assert(ip.subrange(0, w - start + 1).drop_last() =~= ip.subrange(0, w - start));
        }
        acc = acc * 10 + d as u128;
        if acc > 1_000_000_000u128 {
            proof {
                lemma_digits_val_prefix(ip, w + 1 - start);
                assert(digits_val(ip) > 1_000_000_000);
                assert(body_units(t) > MAX_UNITS as int);
                lemma_parse_signed(s@, start as int, neg);
            }
            return None;
        }
        w += 1;
    }
    proof {
        assert(ip.subrange(0, end_ip - start) =~= ip);
        assert(acc == digits_val(ip));
    }
    // Third pass: the first ten fraction digits, then the rounding digit.
    let frac_avail: usize = if dot < n {
        n - dot - 1
    } else {
        0
    };
    proof {
        assert(fs.len() == frac_avail);
        assert(forall|j: int| 0 <= j < fs.len() ==> #[trigger] fs[j] == s@[dot + 1 + j]);
        reveal_with_fuel(pow10, 12);
    }
    let mut facc: u128 = 0;
    let mut k: usize = 0;
    while k < 10
        invariant
            k <= 10,
            dot <= n,
            n == s@.len(),
            frac_avail == fs.len(),
            dot < n ==> frac_avail == n - dot - 1,
            dot == n ==> frac_avail == 0,
            forall|j: int| 0 <= j < fs.len() ==> #[trigger] fs[j] == s@[dot + 1 + j],
            all_digits(fs),
            all_digits(frac_window(fs)),
            frac_window(fs).len() == 10,
            fs.len() < 10 ==> (forall|j: int|
                0 <= j < 10 - fs.len() ==> #[trigger] padded_digits(0, (10 - fs.len()) as nat)[j]
                    == '0'),
            facc == digits_val(frac_window(fs).subrange(0, k as int)),
            facc < pow10(k as nat),
            pow10(10) == 10_000_000_000,
        decreases 10 - k,
    {
        let d: u8;
        if k < frac_avail {
            proof {
                assert(is_digit(fs[k as int]));
                assert(fs[k as int] == s@[dot + 1 + k]);
            }
            let c = s.get_char(dot + 1 + k);
            d = char_digit(c);
        } else {
            d = 0;
        }
        proof {
            assert(frac_window(fs)[k as int] == (if k < fs.len() {
                fs[k as int]
            } else {
                padded_digits(0, (10 - fs.len()) as nat)[k - fs.len()]
            }));
            assert(digit_val(frac_window(fs)[k as int]) == d as int);
            assert(frac_window(fs).subrange(0, k + 1).drop_last() =~= frac_window(fs).subrange(
                0,
                k as int,
            ));
            assert(pow10((k + 1) as nat) == 10 * pow10(k as nat));
            lemma_pow10_mono(k as nat, 9);
            assert(pow10(9) == 1_000_000_000);
        }
        facc = facc * 10 + d as u128;
        k += 1;
    }
    proof {
        assert(frac_window(fs).subrange(0, 10) =~= frac_window(fs));
        assert(facc == digits_val(frac_window(fs)));
    }
    proof {
        if frac_avail > 10 {
            assert(is_digit(fs[10]));
            assert(fs[10] == s@[dot + 1 + 10]);
        }
    }
    let round_up = frac_avail > 10 && {
        let c = s.get_char(dot + 11);
        char_digit(c) >= 5
    };
    proof {
        assert(facc + (if round_up {
            1int
        } else {
            0int
        }) == frac_units(fs));
    }
    let total = acc * (SCALE as u128) + facc + if round_up {
        1
    } else {
        0
    };
    proof {
        assert(total == body_units(t));
    }
    if total > MAX_UNITS as u128 {
        proof {
            lemma_parse_signed(s@, start as int, neg);
        }
        return None;
    }
    let units: i128 = if neg {
        -(total as i128)
    } else {
        total as i128
    };
    proof {
        lemma_parse_signed(s@, start as int, neg);
        assert(parse_units(s@) == Some(units as int));
    }
    Some(Fixed::from_units(units))
}

/// Relies on `String::push`: appends the one character at the end.
#[verifier::external_body]
pub(crate) fn push_char(s: &mut String, c: char)
    ensures
        final(s)@ == old(s)@.push(c),
{
    s.push(c)
}

/// The digit character for `d`.
pub(crate) fn digit_char_exec(d: u8) -> (c: char)
    requires
        d <= 9,
    ensures
        c == digit_char(d as int),
{
    match d {
        0 => '0',
        1 => '1',
        2 => '2',
        3 => '3',
        4 => '4',
        5 => '5',
        6 => '6',
        7 => '7',
        8 => '8',
        _ => '9',
    }
}

/// Writes the decimal digits of `n` at the end of `out`.
fn push_digits(out: &mut String, n: u128)
    ensures
        final(out)@ == old(out)@ + digits_of(n as nat),
    decreases n,
{
    if n < 10 {
        push_char(out, digit_char_exec(n as u8));
        proof {
            assert(final(out)@ =~= old(out)@ + digits_of(n as nat));
        }
    } else {
        push_digits(out, n / 10);
        push_char(out, digit_char_exec((n % 10) as u8));
        proof {
            assert(final(out)@ =~= old(out)@ + digits_of(n as nat));
        }
    }
}

/// The `k` zero-padded decimal digits of `n`.
fn padded_digits_exec(n: u128, k: u8) -> (v: Vec<char>)
    ensures
        v@ == padded_digits(n as nat, k as nat),
    decreases k,
{
    if k == 0 {
        let v: Vec<char> = Vec::new();
        proof {
            assert(v@ =~= padded_digits(n as nat, k as nat));
        }
        v
    } else {
        let mut v = padded_digits_exec(n / 10, k - 1);
        v.push(digit_char_exec((n % 10) as u8));
        proof {
            assert(v@ =~= padded_digits(n as nat, k as nat));
        }
        v
    }
}

/// The display text of the number `v`.
pub fn text_of(v: Fixed) -> (s: String)
    ensures
        s@ == format_units(v@),
{
    proof {
        use_type_invariant(&v);
    }
    let u = v.units();
    let mut s = String::new();
    let m: u128 = if u < 0 {
        push_char(&mut s, '-');
        (-u) as u128
    } else {
        u as u128
    };
    let ghost sign = s@;
    let whole = m / (SCALE as u128);
    let fp = m % (SCALE as u128);
    push_digits(&mut s, whole);
    let mut frac = padded_digits_exec(fp, 10);
    while frac.len() > 0 && frac[frac.len() - 1] == '0'
        invariant
            trim_zeros(frac@) == trim_zeros(padded_digits(fp as nat, 10)),
        decreases frac.len(),
    {
        let ghost before = frac@;
        frac.pop();
        proof {
            assert(frac@ =~= before.drop_last());
        }
    }
    proof {
        assert(trim_zeros(frac@) =~= frac@);
    }
    if frac.len() > 0 {
        push_char(&mut s, '.');
        let ghost head = s@;
        let mut i: usize = 0;
        while i < frac.len()
            invariant
                i <= frac.len(),
                s@ == head + frac@.subrange(0, i as int),
            decreases frac.len() - i,
        {
            push_char(&mut s, frac[i]);
            proof {
                assert(head + frac@.subrange(0, i as int) + seq![frac@[i as int]] =~= head
                    + frac@.subrange(0, i + 1));
            }
            i += 1;
        }
        proof {
            assert(frac@.subrange(0, frac@.len() as int) =~= frac@);
            assert(s@ =~= sign + digits_of(whole as nat) + seq!['.'] + trim_zeros(
                padded_digits(fp as nat, 10),
            ));
            assert(s@ =~= format_units(v@));
        }
    } else {
        proof {
            assert(s@ =~= format_units(v@));
        }
    }
    s
}

/// Trimming zeros keeps a prefix: what stays is unchanged, what goes was
/// all `'0'`, and what stays never ends in `'0'`.
pub proof fn lemma_trim_prefix(s: Seq<char>)
    ensures
        trim_zeros(s).len() <= s.len(),
        trim_zeros(s) =~= s.subrange(0, trim_zeros(s).len() as int),
        forall|i: int| trim_zeros(s).len() <= i < s.len() ==> s[i] == '0',
        trim_zeros(s).len() > 0 ==> trim_zeros(s).last() != '0',
    decreases s.len(),
{
    if s.len() > 0 && s.last() == '0' {
        lemma_trim_prefix(s.drop_last());
        assert(s.drop_last().subrange(0, trim_zeros(s).len() as int) =~= s.subrange(
            0,
            trim_zeros(s).len() as int,
        ));
        assert forall|i: int| trim_zeros(s).len() <= i < s.len() implies s[i] == '0' by {
            if i < s.len() - 1 {
                assert(s.drop_last()[i] == s[i]);
            }
        }
    }
}

/// Reading back the digits of `n` gives `n`.
pub proof fn lemma_digits_val_of(n: nat)
    ensures
        digits_val(digits_of(n)) == n,
    decreases n,
{
    if n < 10 {
        assert(digits_of(n) == seq![digit_char(n as int)]);
        assert(digits_of(n).drop_last() =~= Seq::<char>::empty());
        assert(digits_val(Seq::<char>::empty()) == 0);
        assert(digits_of(n).last() == digit_char(n as int));
        assert(digit_val(digit_char(n as int)) == n);
    } else {
        lemma_digits_val_of(n / 10);
        assert(digits_of(n).drop_last() =~= digits_of(n / 10));
        assert(digit_val(digit_char((n % 10) as int)) == n % 10);
    }
}

/// Reading back the `k` zero-padded digits of `n` gives `n`.
pub proof fn lemma_padded_val(n: nat, k: nat)
    requires
        n < pow10(k),
    ensures
        digits_val(padded_digits(n, k)) == n,
    decreases k,
{
    if k > 0 {
        assert(n == 10 * (n / 10) + n % 10);
        assert(n / 10 < pow10((k - 1) as nat));
        lemma_padded_val(n / 10, (k - 1) as nat);
        lemma_padded_all_digits(n / 10, (k - 1) as nat);
        assert(padded_digits(n, k).drop_last() =~= padded_digits(n / 10, (k - 1) as nat));
        assert(digit_val(digit_char((n % 10) as int)) == n % 10);
    }
}

/// The display text of any representable value reads back as exactly that
/// value: formatting loses nothing.
pub proof fn lemma_parse_format(n: int)
    requires
        in_range(n),
    ensures
        parse_units(format_units(n)) == Some(n),
{
    reveal_with_fuel(pow10, 12);
    let m = vstd::math::abs(n);
    let whole = m / (SCALE as nat);
    let fp = m % (SCALE as nat);
    let w = digits_of(whole);
    let pd = padded_digits(fp, 10);
    let f = trim_zeros(pd);
    vstd::arithmetic::div_mod::lemma_fundamental_div_mod(m as int, SCALE as int);
    assert(whole * (SCALE as int) + fp == m);
    lemma_digits_of_wf(whole);
    lemma_digits_val_of(whole);
    lemma_padded_all_digits(fp, 10);
    lemma_trim_prefix(pd);
    assert(pow10(10) == SCALE as int);
    assert(fp < pow10(10));
    lemma_padded_val(fp, 10);
    lemma_padded_zero(10);
    let body = if f.len() == 0 {
        w
    } else {
        w + seq!['.'] + f
    };
    assert('.' as u32 == 46 && '-' as u32 == 45);
    if f.len() == 0 {
        assert(forall|i: int| 0 <= i < pd.len() ==> pd[i] == '0');
        assert(pd =~= padded_digits(0, 10));
        lemma_padded_val(0, 10);
        assert(fp == 0);
        assert(all_digits(body));
        lemma_point_pos_is(body, body.len() as int);
        assert(body.subrange(0, body.len() as int) =~= body);
        assert(frac_part(body) =~= Seq::<char>::empty());
        assert(frac_window(Seq::<char>::empty()) =~= padded_digits(0, 10));
        assert(frac_units(frac_part(body)) == 0);
        assert(body_units(body) == whole * (SCALE as int));
        assert(whole * (SCALE as int) + fp == m);
    } else {
        assert(body[w.len() as int] == '.');
        assert(forall|j: int| 0 <= j < w.len() ==> body[j] == w[j]);
        assert(forall|j: int|
            w.len() < j < body.len() ==> #[trigger] body[j] == f[j - w.len() - 1]);
        assert(all_digits(f));
        lemma_point_pos_is(body, w.len() as int);
        assert(body.subrange(0, w.len() as int) =~= w);
        assert(frac_part(body) =~= f);
        assert(f.len() <= 10);
        if f.len() >= 10 {
            assert(f =~= pd);
            assert(frac_window(f) =~= pd);
        } else {
            lemma_padded_zero((10 - f.len()) as nat);
            assert(frac_window(f) =~= pd);
        }
        assert(frac_units(frac_part(body)) == fp);
        assert(body_units(body) == whole * (SCALE as int) + fp);
        assert(whole * (SCALE as int) + fp == m);
    }
    assert(body_well_formed(body));
    assert(body_units(body) == m);
    assert(m <= MAX_UNITS as int);
    assert(parse_unsigned(body) == Some(m as int));
    if n < 0 {
        let s = seq!['-'] + body;
        assert(format_units(n) == s);
        assert(s[0] == '-');
        assert(s.subrange(1, s.len() as int) =~= body);
        assert(parse_units(s) == Some(-(m as int)));
    } else {
        assert(format_units(n) == body);
        assert(is_digit(body[0]));
        assert(body[0] != '-');
        assert(parse_units(body) == Some(m as int));
    }
}

/// The display text of a representable value is never empty, never ends
/// in a point, and ends in `'0'` only when it shows no fraction at all.
pub proof fn lemma_format_trimmed(n: int)
    ensures
        format_units(n).len() >= 1,
        format_units(n).last() != '.',
        (exists|i: int|
            0 <= i < format_units(n).len() && format_units(n)[i] == '.') ==> format_units(
            n,
        ).last() != '0',
{
    let m = vstd::math::abs(n);
    let whole = m / (SCALE as nat);
    let fp = m % (SCALE as nat);
    let w = digits_of(whole);
    let pd = padded_digits(fp, 10);
    let f = trim_zeros(pd);
    lemma_digits_of_wf(whole);
    lemma_padded_all_digits(fp, 10);
    lemma_trim_prefix(pd);
    assert('.' as u32 == 46 && '-' as u32 == 45 && '0' as u32 == 48);
    if f.len() == 0 {
        let body = w;
        assert(format_units(n) == if n < 0 {
            seq!['-'] + body
        } else {
            body
        });
        assert(format_units(n).last() == w.last());
        assert(is_digit(w.last()));
        assert(forall|i: int|
            0 <= i < format_units(n).len() ==> #[trigger] format_units(n)[i] != '.');
    } else {
        let body = w + seq!['.'] + f;
        assert(format_units(n).last() == f.last());
        assert(is_digit(f.last()));
        assert(f.last() != '0');
    }
}

} // verus!
