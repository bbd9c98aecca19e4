//! Primitive tokens of the durable store's text encoding: fixed-width
//! decimal numbers, length-prefixed strings, and literal field tags, each
//! with an encoder, a parser, and a proof that the parser undoes the
//! encoder.

use vstd::prelude::*;

verus! {

/// Width of every fixed-width decimal number: enough digits for any
/// unsigned 64-bit value.
pub open spec fn num_width() -> nat {
    20
}

/// The character for one decimal digit.
pub open spec fn digit_char(d: int) -> char {
    if d == 0 {
        '0'
    } else if d == 1 {
        '1'
    } else if d == 2 {
        '2'
    } else if d == 3 {
        '3'
    } else if d == 4 {
        '4'
    } else if d == 5 {
        '5'
    } else if d == 6 {
        '6'
    } else if d == 7 {
        '7'
    } else if d == 8 {
        '8'
    } else {
        '9'
    }
}

/// The value of one decimal digit character; ten marks a non-digit.
pub open spec fn digit_val(c: char) -> int {
    if c == '0' {
        0
    } else if c == '1' {
        1
    } else if c == '2' {
        2
    } else if c == '3' {
        3
    } else if c == '4' {
        4
    } else if c == '5' {
        5
    } else if c == '6' {
        6
    } else if c == '7' {
        7
    } else if c == '8' {
        8
    } else if c == '9' {
        9
    } else {
        10
    }
}

pub open spec fn is_digit(c: char) -> bool {
    digit_val(c) < 10
}

pub open spec fn pow10(w: nat) -> int
    decreases w,
{
    if w == 0 {
        1
    } else {
        10 * pow10((w - 1) as nat)
    }
}

/// `n` written as exactly `w` decimal digits, most significant first.
pub open spec fn enc_digits(n: int, w: nat) -> Seq<char>
    decreases w,
{
    if w == 0 {
        Seq::empty()
    } else {
        enc_digits(n / 10, (w - 1) as nat).push(digit_char(n % 10))
    }
}

/// The value of a digit string, most significant first.
pub open spec fn dec_digits(s: Seq<char>) -> int
    decreases s.len(),
{
    if s.len() == 0 {
        0
    } else {
        dec_digits(s.drop_last()) * 10 + digit_val(s.last())
    }
}

pub open spec fn all_digits(s: Seq<char>) -> bool {
    forall|i: int| 0 <= i < s.len() ==> is_digit(#[trigger] s[i])
}

pub proof fn lemma_pow10_pos(w: nat)
    ensures
        pow10(w) >= 1,
    decreases w,
{
    if w > 0 {
        lemma_pow10_pos((w - 1) as nat);
    }
}

/// Every unsigned 64-bit value fits in `num_width` digits.
pub proof fn lemma_pow10_num_width()
    ensures
        pow10(num_width()) > u64::MAX,
{
    reveal_with_fuel(pow10, 21);
    assert(pow10(20) == 100_000_000_000_000_000_000);
}

/// Writing a value in `w` digits and reading the digits back yields the
/// value, as long as it fits.
pub proof fn lemma_enc_digits_props(n: int, w: nat)
    requires
        0 <= n < pow10(w),
    ensures
        enc_digits(n, w).len() == w,
        all_digits(enc_digits(n, w)),
        dec_digits(enc_digits(n, w)) == n,
    decreases w,
{
    if w == 0 {
    } else {
        lemma_pow10_pos((w - 1) as nat);
        assert(0 <= n / 10 < pow10((w - 1) as nat)) by (nonlinear_arith)
            requires
                0 <= n < 10 * pow10((w - 1) as nat),
                pow10((w - 1) as nat) >= 1,
        ;
        lemma_enc_digits_props(n / 10, (w - 1) as nat);
        let e = enc_digits(n, w);
        let e0 = enc_digits(n / 10, (w - 1) as nat);
        assert(e == e0.push(digit_char(n % 10)));
        assert(e.drop_last() =~= e0);
        assert(digit_val(digit_char(n % 10)) == n % 10);
        assert(dec_digits(e) == dec_digits(e0) * 10 + n % 10);
        assert((n / 10) * 10 + n % 10 == n) by (nonlinear_arith)
            requires
                n >= 0,
        ;
        assert forall|i: int| 0 <= i < e.len() implies is_digit(#[trigger] e[i]) by {
            if i < e.len() - 1 {
                assert(e[i] == e0[i]);
            } else {
                assert(e[i] == digit_char(n % 10));
            }
        }
    }
}

/// An unsigned number token: exactly `num_width` digits.
pub open spec fn enc_u64(n: int) -> Seq<char> {
    enc_digits(n, num_width())
}

/// Greedily reads `w` digits starting at `i`.
pub open spec fn parse_digits(s: Seq<char>, i: int, w: nat) -> Option<(int, int)> {
    if 0 <= i && i + w <= s.len() && all_digits(s.subrange(i, i + w)) {
        Some((dec_digits(s.subrange(i, i + w)), i + w))
    } else {
        None
    }
}

/// Reads an unsigned number token, refusing values beyond 64 bits.
pub open spec fn parse_u64(s: Seq<char>, i: int) -> Option<(int, int)> {
    match parse_digits(s, i, num_width()) {
        Some((n, j)) => if n <= u64::MAX {
            Some((n, j))
        } else {
            None
        },
        None => None,
    }
}

/// A signed number token: an explicit sign, then the magnitude.
pub open spec fn enc_i64(v: int) -> Seq<char> {
    if v >= 0 {
        seq!['+'] + enc_digits(v, num_width())
    } else {
        seq!['-'] + enc_digits(-v, num_width())
    }
}

/// Reads a signed number token, refusing values outside 64 bits.
pub open spec fn parse_i64(s: Seq<char>, i: int) -> Option<(int, int)> {
    if 0 <= i < s.len() && (s[i] == '+' || s[i] == '-') {
        match parse_digits(s, i + 1, num_width()) {
            Some((m, j)) => if s[i] == '+' {
                if m <= i64::MAX {
                    Some((m, j))
                } else {
                    None
                }
            } else {
                if m <= -(i64::MIN as int) {
                    Some((-m, j))
                } else {
                    None
                }
            },
            None => None,
        }
    } else {
        None
    }
}

/// A string token: its length, then its characters verbatim.
pub open spec fn enc_str(t: Seq<char>) -> Seq<char> {
    enc_u64(t.len() as int) + t
}

/// Reads a string token.
pub open spec fn parse_str(s: Seq<char>, i: int) -> Option<(Seq<char>, int)> {
    match parse_u64(s, i) {
        Some((n, j)) => if j + n <= s.len() {
            Some((s.subrange(j, j + n), j + n))
        } else {
            None
        },
        None => None,
    }
}

/// Reads a fixed literal (a field tag), which must appear verbatim.
pub open spec fn parse_lit(s: Seq<char>, i: int, tag: Seq<char>) -> Option<int> {
    if 0 <= i && i + tag.len() <= s.len() && s.subrange(i, i + tag.len()) == tag {
        Some(i + tag.len())
    } else {
        None
    }
}

/// Reading an unsigned token back from where it was written.
pub proof fn lemma_parse_u64_rt(prefix: Seq<char>, n: int, suffix: Seq<char>)
    requires
        0 <= n <= u64::MAX,
    ensures
        parse_u64(prefix + enc_u64(n) + suffix, prefix.len() as int) == Some(
            (n, (prefix.len() + num_width()) as int),
        ),
        enc_u64(n).len() == num_width(),
{
    lemma_pow10_num_width();
    lemma_enc_digits_props(n, num_width());
    let s = prefix + enc_u64(n) + suffix;
    let i = prefix.len() as int;
    assert(s.subrange(i, i + num_width()) =~= enc_u64(n));
}

/// Reading a signed token back from where it was written.
pub proof fn lemma_parse_i64_rt(prefix: Seq<char>, v: int, suffix: Seq<char>)
    requires
        i64::MIN <= v <= i64::MAX,
    ensures
        parse_i64(prefix + enc_i64(v) + suffix, prefix.len() as int) == Some(
            (v, (prefix.len() + 1 + num_width()) as int),
        ),
        enc_i64(v).len() == 1 + num_width(),
{
    lemma_pow10_num_width();
    let s = prefix + enc_i64(v) + suffix;
    let i = prefix.len() as int;
    if v >= 0 {
        lemma_enc_digits_props(v, num_width());
        assert(s[i] == '+');
        assert(s.subrange(i + 1, i + 1 + num_width()) =~= enc_digits(v, num_width()));
    } else {
        lemma_enc_digits_props(-v, num_width());
        assert(s[i] == '-');
        assert(s.subrange(i + 1, i + 1 + num_width()) =~= enc_digits(-v, num_width()));
    }
}

/// Reading a string token back from where it was written.
pub proof fn lemma_parse_str_rt(prefix: Seq<char>, t: Seq<char>, suffix: Seq<char>)
    requires
        t.len() <= u64::MAX,
    ensures
        parse_str(prefix + enc_str(t) + suffix, prefix.len() as int) == Some(
            (t, (prefix.len() + enc_str(t).len()) as int),
        ),
        enc_str(t).len() == num_width() + t.len(),
{
    let s = prefix + enc_str(t) + suffix;
    let i = prefix.len() as int;
    assert(prefix + enc_str(t) + suffix =~= prefix + enc_u64(t.len() as int) + (t + suffix));
    lemma_parse_u64_rt(prefix, t.len() as int, t + suffix);
    let j = i + num_width();
    assert(s.subrange(j, j + t.len()) =~= t);
}

/// Reading a literal back from where it was written.
pub proof fn lemma_parse_lit_rt(prefix: Seq<char>, tag: Seq<char>, suffix: Seq<char>)
    ensures
        parse_lit(prefix + tag + suffix, prefix.len() as int, tag) == Some(
            (prefix.len() + tag.len()) as int,
        ),
{
    let s = prefix + tag + suffix;
    let i = prefix.len() as int;
    assert(s.subrange(i, i + tag.len()) =~= tag);
}

/// The executable character for one decimal digit.
fn digit_char_exec(d: u8) -> (c: char)
    requires
        d < 10,
    ensures
        c == digit_char(d as int),
{
    match d {
        0 => '0',
        1 => '1',
        2 => '2',
        3 => '3',
        4 => '4',
        5 => '5',
        6 => '6',
        7 => '7',
        8 => '8',
        _ => '9',
    }
}

/// The executable value of one decimal digit character; ten marks a
/// non-digit.
fn digit_val_exec(c: char) -> (d: u8)
    ensures
        d as int == digit_val(c),
{
    match c {
        '0' => 0,
        '1' => 1,
        '2' => 2,
        '3' => 3,
        '4' => 4,
        '5' => 5,
        '6' => 6,
        '7' => 7,
        '8' => 8,
        '9' => 9,
        _ => 10,
    }
}

/// Appends `n` as exactly `w` decimal digits.
pub(crate) fn emit_digits(out: &mut String, n: u64, w: usize)
    ensures
        final(out)@ == old(out)@ + enc_digits(n as int, w as nat),
    decreases w,
{
    if w > 0 {
        emit_digits(out, n / 10, w - 1);
        let ghost mid = out@;
        let c = digit_char_exec((n % 10) as u8);
        out.push(c);
        proof {
            assert(out@ =~= old(out)@ + enc_digits(n as int, w as nat));
        }
    } else {
        proof {
            assert(out@ =~= old(out)@ + enc_digits(n as int, 0));
        }
    }
}

/// Appends an unsigned number token.
pub(crate) fn emit_u64(out: &mut String, n: u64)
    ensures
        final(out)@ == old(out)@ + enc_u64(n as int),
{
    emit_digits(out, n, 20);
}

/// Appends a signed number token.
pub(crate) fn emit_i64(out: &mut String, v: i64)
    ensures
        final(out)@ == old(out)@ + enc_i64(v as int),
{
    if v >= 0 {
        out.push('+');
        emit_digits(out, v as u64, 20);
        proof {
            assert(out@ =~= old(out)@ + enc_i64(v as int));
        }
    } else {
        out.push('-');
        let m: u64 = if v == i64::MIN {
            9223372036854775808u64
        } else {
            (-v) as u64
        };
        emit_digits(out, m, 20);
        proof {
            assert(m as int == -(v as int));
            assert(out@ =~= old(out)@ + enc_i64(v as int));
        }
    }
}

/// Appends a string token.
pub(crate) fn emit_str(out: &mut String, t: &str)
    ensures
        final(out)@ == old(out)@ + enc_str(t@),
{
    let l = t.unicode_len();
    emit_u64(out, l as u64);
    out.append(t);
    proof {
        assert(out@ =~= old(out)@ + enc_str(t@));
    }
}

/// Reads exactly `w` digits starting at `i`.
pub(crate) fn p_digits(s: &str, i: usize, w: usize) -> (r: Option<(u128, usize)>)
    requires
        w <= 20,
    ensures
        (match r {
            Some((v, j)) => parse_digits(s@, i as int, w as nat) == Some((v as int, j as int))
                && j as int == i + w,
            None => parse_digits(s@, i as int, w as nat) is None,
        }),
{
    let n = s.unicode_len();
    if i > n || w > n - i {
        return None;
    }
    let mut acc: u128 = 0;
    let mut k: usize = 0;
    proof {
        assert(s@.subrange(i as int, i as int) =~= Seq::<char>::empty());
    }
    while k < w
        invariant
            0 <= k <= w,
            w <= 20,
            i + w <= s@.len(),
            s@.len() <= usize::MAX,
            all_digits(s@.subrange(i as int, i + k)),
            acc as int == dec_digits(s@.subrange(i as int, i + k)),
            acc < pow10(k as nat),
        decreases w - k,
    {
        let c = s.get_char(i + k);
        let d = digit_val_exec(c);
        if d >= 10 {
            proof {
                assert(s@.subrange(i as int, i + w)[k as int] == s@[i + k]);
                assert(!is_digit(s@[i + k]));
            }
            return None;
        }
        proof {
            lemma_pow10_u128(k as nat);
            assert(acc * 10 + 10 <= pow10(k as nat) * 10) by (nonlinear_arith)
                requires
                    acc < pow10(k as nat),
                    acc >= 0,
            ;
            assert(s@.subrange(i as int, i + k + 1).drop_last() =~= s@.subrange(
                i as int,
                i + k,
            ));
            assert(s@.subrange(i as int, i + k + 1).last() == s@[i + k]);
        }
        acc = acc * 10 + d as u128;
        k = k + 1;
    }
    Some((acc, i + w))
}

/// The accumulator in digit parsing stays far below the 128-bit limit.
pub proof fn lemma_pow10_u128(k: nat)
    requires
        k < 20,
    ensures
        pow10(k) * 10 <= pow10(20),
        pow10(20) < u128::MAX,
{
    assert(pow10(k) * 10 == pow10((k + 1) as nat));
    lemma_pow10_mono((k + 1) as nat, 20);
    reveal_with_fuel(pow10, 21);
    assert(pow10(20) == 100_000_000_000_000_000_000);
}

/// Larger widths never shrink the bound.
pub proof fn lemma_pow10_mono(a: nat, b: nat)
    requires
        a <= b,
    ensures
        pow10(a) <= pow10(b),
    decreases b,
{
    if a < b {
        lemma_pow10_mono(a, (b - 1) as nat);
        lemma_pow10_pos((b - 1) as nat);
    }
}

/// Reads an unsigned number token.
pub(crate) fn p_u64(s: &str, i: usize) -> (r: Option<(u64, usize)>)
    ensures
        (match r {
            Some((v, j)) => parse_u64(s@, i as int) == Some((v as int, j as int)),
            None => parse_u64(s@, i as int) is None,
        }),
{
    match p_digits(s, i, 20) {
        Some((v, j)) => {
            if v <= u64::MAX as u128 {
                Some((v as u64, j))
            } else {
                None
            }
        },
        None => None,
    }
}

/// Reads a signed number token.
pub(crate) fn p_i64(s: &str, i: usize) -> (r: Option<(i64, usize)>)
    ensures
        (match r {
            Some((v, j)) => parse_i64(s@, i as int) == Some((v as int, j as int)),
            None => parse_i64(s@, i as int) is None,
        }),
{
    if i >= s.unicode_len() {
        return None;
    }
    let c = s.get_char(i);
    if c != '+' && c != '-' {
        return None;
    }
    match p_digits(s, i + 1, 20) {
        Some((m, j)) => {
            if c == '+' {
                if m <= i64::MAX as u128 {
                    Some((m as i64, j))
                } else {
                    None
                }
            } else {
                if m < 9223372036854775808u128 {
                    Some((-(m as i64), j))
                } else if m == 9223372036854775808u128 {
                    Some((i64::MIN, j))
                } else {
                    None
                }
            }
        },
        None => None,
    }
}

/// Reads a string token.
pub(crate) fn p_str(s: &str, i: usize) -> (r: Option<(String, usize)>)
    ensures
        (match r {
            Some((t, j)) => parse_str(s@, i as int) == Some((t@, j as int)),
            None => parse_str(s@, i as int) is None,
        }),
{
    match p_u64(s, i) {
        Some((n, j)) => {
            let len = s.unicode_len();
            if n > (len - j) as u64 {
                None
            } else {
                let t = s.substring_char(j, j + n as usize);
                Some((String::from_str(t), j + n as usize))
            }
        },
        None => None,
    }
}

/// Reads a fixed literal (a field tag), which must appear verbatim.
pub(crate) fn p_lit(s: &str, i: usize, tag: &str) -> (r: Option<usize>)
    ensures
        (match r {
            Some(j) => parse_lit(s@, i as int, tag@) == Some(j as int),
            None => parse_lit(s@, i as int, tag@) is None,
        }),
{
    let tl = tag.unicode_len();
    let n = s.unicode_len();
    if i > n || tl > n - i {
        return None;
    }
    let mut k: usize = 0;
    while k < tl
        invariant
            0 <= k <= tl,
            tl == tag@.len(),
            i + tl <= s@.len(),
            s@.len() <= usize::MAX,
            forall|m: int| 0 <= m < k ==> s@[i + m] == tag@[m],
        decreases tl - k,
    {
        if s.get_char(i + k) != tag.get_char(k) {
            proof {
                assert(s@.subrange(i as int, i + tl)[k as int] == s@[i + k]);
            }
            return None;
        }
        k = k + 1;
    }
    proof {
        assert(s@.subrange(i as int, i + tl) =~= tag@);
    }
    Some(i + tl)
}

} // verus!
