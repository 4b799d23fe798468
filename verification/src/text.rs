//! Character-level helpers on option text: equality and decimal numbers.

use vstd::prelude::*;

verus! {

/// Decides whether two string slices hold the same characters.
pub fn text_eq(a: &str, b: &str) -> (same: bool)
    ensures
        same == (a@ == b@),
{
    let la = a.unicode_len();
    let lb = b.unicode_len();
    if la != lb {
        return false;
    }
    let mut i: usize = 0;
    while i < la
        invariant
            la == a@.len(),
            lb == b@.len(),
            la == lb,
            i <= la,
            forall|j: int| 0 <= j < i ==> a@[j] == b@[j],
        decreases la - i,
    {
        if a.get_char(i) != b.get_char(i) {
            return false;
        }
        i = i + 1;
    }
    assert(a@ =~= b@);
    true
}

} // verus!

verus! {

/// A decimal digit `0`-`9`.
pub open spec fn is_digit(c: char) -> bool {
    '0' <= c && c <= '9'
}

/// The value of a decimal digit.
pub open spec fn digit_value(c: char) -> nat {
    (c as int - '0' as int) as nat
}

/// Every character of `s` is a decimal digit.
pub open spec fn all_digits(s: Seq<char>) -> bool {
    forall|i: int| 0 <= i < s.len() ==> is_digit(#[trigger] s[i])
}

/// The number that a string of decimal digits denotes.
pub open spec fn decimal_value(s: Seq<char>) -> nat
    decreases s.len(),
{
    if s.len() == 0 {
        0
    } else {
        decimal_value(s.drop_last()) * 10 + digit_value(s.last())
    }
}

/// Integer text of an option value that denotes a value no greater than `max`: at
/// least one digit and nothing but digits (leading zeros allowed), no sign. Of the
/// text that std's `FromStr` for `u8`, `u16` and `u32` accepts, this is the part
/// without a leading `+`, `max` being the type's largest value.
pub open spec fn unsigned_text(s: Seq<char>, max: nat) -> bool {
    s.len() > 0 && all_digits(s) && decimal_value(s) <= max
}

/// Taking a prefix never makes the denoted number larger.
pub proof fn lemma_decimal_prefix_le(s: Seq<char>, i: int)
    requires
        0 <= i <= s.len(),
    ensures
        decimal_value(s.take(i)) <= decimal_value(s),
    decreases s.len() - i,
{
    if i < s.len() {
        lemma_decimal_prefix_le(s, i + 1);
        assert(s.take(i + 1).drop_last() =~= s.take(i));
    } else {
        assert(s.take(i) =~= s);
    }
}

/// Decimal notation is positional: writing a digit `d` after the text multiplies its
/// number by ten and adds the digit's value, `0` included.
pub proof fn lemma_decimal_append_digit(s: Seq<char>, d: char)
    requires
        '0' <= d <= '9',
    ensures
        decimal_value(s.push(d)) == 10 * decimal_value(s) + (d as int - '0' as int),
{
    assert(s.push(d).drop_last() =~= s);
}

/// The number of a text made of two parts: the first part's number shifted by one
/// decimal place per character of the second, plus the second's number.
pub proof fn lemma_decimal_concat(a: Seq<char>, b: Seq<char>)
    ensures
        decimal_value(a + b) == decimal_value(a) * vstd::arithmetic::power::pow(10, b.len())
            + decimal_value(b),
    decreases b.len(),
{
    reveal(vstd::arithmetic::power::pow);
    if b.len() == 0 {
        assert(a + b =~= a);
    } else {
        let b1 = b.drop_last();
        lemma_decimal_concat(a, b1);
        assert((a + b).drop_last() =~= a + b1);
        assert((a + b).last() == b.last());
        let p = vstd::arithmetic::power::pow(10, b1.len());
        assert(vstd::arithmetic::power::pow(10, b.len()) == 10 * p);
        let va = decimal_value(a);
        let vb1 = decimal_value(b1);
        let dl = digit_value(b.last());
        assert(decimal_value(a + b) == decimal_value(a + b1) * 10 + dl);
        assert(decimal_value(b) == vb1 * 10 + dl);
        assert((va * p + vb1) * 10 == va * (10 * p) + vb1 * 10) by (nonlinear_arith);
    }
}

/// Leading zeros do not change the number a text denotes.
pub proof fn lemma_decimal_leading_zero(s: Seq<char>)
    ensures
        decimal_value(seq!['0'] + s) == decimal_value(s),
{
    lemma_decimal_concat(seq!['0'], s);
    reveal_with_fuel(decimal_value, 2);
    assert(seq!['0'].drop_last() =~= Seq::<char>::empty());
    let z = decimal_value(seq!['0']);
    assert(z == 0);
    let p = vstd::arithmetic::power::pow(10, s.len());
    assert(z * p == 0) by (nonlinear_arith)
        requires
            z == 0,
    ;
}

/// Reads the unsigned decimal number in `s`, refusing text that is not one or whose
/// value exceeds `max`.
pub fn parse_unsigned(s: &str, max: u32) -> (r: Option<u32>)
    ensures
        r == (if unsigned_text(s@, max as nat) {
            Some(decimal_value(s@) as u32)
        } else {
            None::<u32>
        }),
{
    let len = s.unicode_len();
    if len == 0 {
        return None;
    }
    let mut acc: u64 = 0;
    let mut i: usize = 0;
    while i < len
        invariant
            len == s@.len(),
            i <= len,
            all_digits(s@.take(i as int)),
            acc == decimal_value(s@.take(i as int)),
            acc <= max,
        decreases len - i,
    {
        let c = s.get_char(i);
        if !('0' <= c && c <= '9') {
            assert(!is_digit(s@[i as int]));
            return None;
        }
        let dv = (c as u32) - ('0' as u32);
        assert(s@.take(i + 1).drop_last() =~= s@.take(i as int));
        let next: u64 = acc * 10 + dv as u64;
        assert(next == decimal_value(s@.take(i + 1)));
        if next > max as u64 {
            proof {
                lemma_decimal_prefix_le(s@, i + 1);
                assert(s@.take(len as int) =~= s@);
            }
            // whether or not the rest is digits, the text is refused
            return None;
        }
        acc = next;
        i = i + 1;
        assert(all_digits(s@.take(i as int))) by {
            assert forall|j: int| 0 <= j < i implies is_digit(#[trigger] s@.take(i as int)[j]) by {
                if j < i - 1 {
                    assert(s@.take(i as int)[j] == s@.take(i - 1)[j]);
                }
            }
        }
    }
    assert(s@.take(len as int) =~= s@);
    Some(acc as u32)
}

} // verus!

verus! {

/// Digits with at most one decimal point and at least one digit: `12`, `12.`,
/// `.5`, `1.25`.
pub open spec fn mantissa_text(m: Seq<char>) -> bool {
    &&& forall|i: int| 0 <= i < m.len() ==> is_digit(#[trigger] m[i]) || m[i] == '.'
    &&& forall|i: int, j: int| 0 <= i < j < m.len() ==> !(#[trigger] m[i] == '.' && #[trigger] m[j] == '.')
    &&& exists|i: int| 0 <= i < m.len() && is_digit(#[trigger] m[i])
}

/// A sign, `+` or `-`.
pub open spec fn is_sign(c: char) -> bool {
    c == '+' || c == '-'
}

/// The text after an optional leading sign.
pub open spec fn unsigned_part(s: Seq<char>) -> Seq<char> {
    if s.len() > 0 && is_sign(s[0]) {
        s.skip(1)
    } else {
        s
    }
}

/// `s` spells `word` (given in lower-case letters) in any mix of cases.
pub open spec fn eq_ignoring_case(s: Seq<char>, word: Seq<char>) -> bool {
    s.len() == word.len() && forall|i: int|
        0 <= i < s.len() ==> #[trigger] s[i] == word[i] || (s[i] as int) + 32 == word[i] as int
}

/// The exponent mark, `e` or `E`.
pub open spec fn is_exponent_mark(c: char) -> bool {
    c == 'e' || c == 'E'
}

/// The digits of an exponent: an optional sign, then at least one digit.
pub open spec fn exponent_text(x: Seq<char>) -> bool {
    unsigned_part(x).len() > 0 && all_digits(unsigned_part(x))
}

/// Floating-point text as std's `FromStr` for `f64` documents it: an optional sign,
/// then `inf`, `infinity` or `nan` in any case, or a mantissa followed by an
/// optional exponent (`e` or `E`, an optional sign and digits).
pub open spec fn float_text(s: Seq<char>) -> bool {
    let b = unsigned_part(s);
    ||| eq_ignoring_case(b, "inf"@)
    ||| eq_ignoring_case(b, "infinity"@)
    ||| eq_ignoring_case(b, "nan"@)
    ||| mantissa_text(b)
    ||| exists|k: int|
        0 <= k < b.len() && is_exponent_mark(#[trigger] b[k]) && mantissa_text(b.take(k))
            && exponent_text(b.skip(k + 1))
}

/// Decides whether the characters of `s` from `from` on spell `word` (a literal in
/// lower-case letters) in any mix of cases.
fn eq_ignoring_case_from(s: &str, from: usize, word: &str) -> (ok: bool)
    requires
        from <= s@.len(),
    ensures
        ok == eq_ignoring_case(s@.subrange(from as int, s@.len() as int), word@),
{
    let ghost t = s@.subrange(from as int, s@.len() as int);
    let len = s.unicode_len();
    let wl = word.unicode_len();
    if len - from != wl {
        return false;
    }
    let mut i: usize = 0;
    while i < wl
        invariant
            len == s@.len(),
            wl == word@.len(),
            len - from == wl,
            from <= len,
            t == s@.subrange(from as int, len as int),
            i <= wl,
            forall|j: int| 0 <= j < i ==> #[trigger] t[j] == word@[j] || (t[j] as int) + 32 == word@[j] as int,
        decreases wl - i,
    {
        let c = s.get_char(from + i);
        let w = word.get_char(i);
        assert(c == t[i as int]);
        if !(c == w || (c as u32) + 32 == (w as u32)) {
            return false;
        }
        i = i + 1;
    }
    true
}

/// Decides `exponent_text` on the characters of `s` in `from..to`.
fn is_exponent(s: &str, from: usize, to: usize) -> (ok: bool)
    requires
        from <= to <= s@.len(),
    ensures
        ok == exponent_text(s@.subrange(from as int, to as int)),
{
    let ghost x = s@.subrange(from as int, to as int);
    if from == to {
        return false;
    }
    let c = s.get_char(from);
    assert(c == x[0]);
    if c == '+' || c == '-' {
        assert(x.skip(1) =~= s@.subrange(from + 1, to as int));
        from + 1 < to && is_digit_run(s, from + 1, to)
    } else {
        is_digit_run(s, from, to)
    }
}

/// Decides `mantissa_text` on the characters of `s` in `from..to`.
fn is_mantissa(s: &str, from: usize, to: usize) -> (ok: bool)
    requires
        from <= to <= s@.len(),
    ensures
        ok == mantissa_text(s@.subrange(from as int, to as int)),
{
    let ghost m = s@.subrange(from as int, to as int);
    let mut i: usize = from;
    let mut dot: Option<usize> = None;
    let mut digit: Option<usize> = None;
    while i < to
        invariant
            from <= i <= to <= s@.len(),
            m == s@.subrange(from as int, to as int),
            forall|j: int| 0 <= j < i - from ==> is_digit(#[trigger] m[j]) || m[j] == '.',
            match dot {
                None => forall|j: int| 0 <= j < i - from ==> #[trigger] m[j] != '.',
                Some(p) => from <= p < i && m[p - from] == '.' && forall|j: int|
                    0 <= j < i - from && j != p - from ==> #[trigger] m[j] != '.',
            },
            match digit {
                None => forall|j: int| 0 <= j < i - from ==> !is_digit(#[trigger] m[j]),
                Some(p) => from <= p < i && is_digit(m[p - from]),
            },
        decreases to - i,
    {
        let c = s.get_char(i);
        assert(c == m[i - from]);
        if c == '.' {
            if let Some(p) = dot {
                assert(!(m[p - from] == '.' && m[i - from] == '.') ==> false);
                return false;
            }
            dot = Some(i);
        } else if '0' <= c && c <= '9' {
            digit = Some(i);
        } else {
            assert(!(is_digit(m[i - from]) || m[i - from] == '.'));
            return false;
        }
        i = i + 1;
    }
    match digit {
        None => {
            assert(!exists|j: int| 0 <= j < m.len() && is_digit(#[trigger] m[j]));
            false
        },
        Some(p) => {
            assert(is_digit(m[p - from]));
            true
        },
    }
}

/// Decides whether `s` is text that std's `f64` parsing accepts (see `float_text`).
pub fn is_float_text(s: &str) -> (ok: bool)
    ensures
        ok == float_text(s@),
{
    let len = s.unicode_len();
    let start: usize = if len > 0 && (s.get_char(0) == '+' || s.get_char(0) == '-') {
        1
    } else {
        0
    };
    let ghost b = unsigned_part(s@);
    assert(b =~= s@.subrange(start as int, len as int));
    if eq_ignoring_case_from(s, start, "inf") || eq_ignoring_case_from(s, start, "infinity")
        || eq_ignoring_case_from(s, start, "nan") {
        return true;
    }
    let mut e: usize = start;
    while e < len
        invariant
            len == s@.len(),
            start <= e <= len,
            forall|j: int| start <= j < e ==> !is_exponent_mark(#[trigger] s@[j]),
        ensures
            start <= e <= len,
            forall|j: int| start <= j < e ==> !is_exponent_mark(#[trigger] s@[j]),
            e < len ==> is_exponent_mark(s@[e as int]),
        decreases len - e,
    {
        let c = s.get_char(e);
        if c == 'e' || c == 'E' {
            break;
        }
        e = e + 1;
    }
    if e == len {
        return is_mantissa(s, start, len);
    }
    let ghost p = e - start;
    // `b` holds an exponent mark, so it is no mantissa on its own
    assert(!mantissa_text(b)) by {
        assert(b[p] == s@[e as int]);
        assert(!(is_digit(b[p]) || b[p] == '.'));
    }
    assert(s@.subrange(start as int, e as int) =~= b.take(p));
    assert(s@.subrange(e + 1, len as int) =~= b.skip(p + 1));
    let ok = is_mantissa(s, start, e) && is_exponent(s, e + 1, len);
    if ok {
        assert(b[p] == s@[e as int]);
        assert(is_exponent_mark(b[p]));
        assert(mantissa_text(b.take(p)) && exponent_text(b.skip(p + 1)));
    }
    assert forall|k: int|
        0 <= k < b.len() && #[trigger] is_exponent_mark(b[k]) && mantissa_text(b.take(k))
            && exponent_text(b.skip(k + 1)) implies ok by {
        assert(b[k] == s@[start + k]);
        if k > p {
            let t = b.take(k);
            assert(t[p] == s@[e as int]);
            assert(!(is_digit(t[p]) || t[p] == '.'));
        }
    }
    ok
}

/// Decides whether the characters of `s` in `from..to` are all decimal digits.
fn is_digit_run(s: &str, from: usize, to: usize) -> (ok: bool)
    requires
        from <= to <= s@.len(),
    ensures
        ok == all_digits(s@.subrange(from as int, to as int)),
{
    let mut i: usize = from;
    while i < to
        invariant
            from <= i <= to <= s@.len(),
            forall|j: int| from <= j < i ==> is_digit(#[trigger] s@[j]),
        decreases to - i,
    {
        let c = s.get_char(i);
        if !('0' <= c && c <= '9') {
            assert(!is_digit(s@.subrange(from as int, to as int)[i - from]));
            return false;
        }
        i = i + 1;
    }
    assert forall|j: int| 0 <= j < to - from implies is_digit(
        #[trigger] s@.subrange(from as int, to as int)[j],
    ) by {
        assert(s@.subrange(from as int, to as int)[j] == s@[from + j]);
    }
    true
}

} // verus!
