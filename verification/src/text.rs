//! Character and decimal-number primitives shared by the JSON codec and
//! the renderers.

use vstd::prelude::*;

verus! {

/// Relies on std's `String::push`: appends exactly one character.
pub assume_specification[ String::push ](s: &mut String, c: char)
    ensures
        final(s)@ == old(s)@ + seq![c],
;

/// Whether `c` is a decimal digit.
pub open spec fn is_digit(c: char) -> bool {
    48 <= (c as u32) && (c as u32) <= 57
}

/// The numeric value of a decimal digit.
pub open spec fn digit_val(c: char) -> int {
    (c as u32) - 48
}

/// The character for a decimal digit value.
pub open spec fn digit_char(d: int) -> char {
    if d == 0 { '0' }
    else if d == 1 { '1' }
    else if d == 2 { '2' }
    else if d == 3 { '3' }
    else if d == 4 { '4' }
    else if d == 5 { '5' }
    else if d == 6 { '6' }
    else if d == 7 { '7' }
    else if d == 8 { '8' }
    else { '9' }
}

/// The character for a lower-case hexadecimal digit value.
pub open spec fn hex_char(d: int) -> char {
    if d < 10 { digit_char(d) }
    else if d == 10 { 'a' }
    else if d == 11 { 'b' }
    else if d == 12 { 'c' }
    else if d == 13 { 'd' }
    else if d == 14 { 'e' }
    else { 'f' }
}

/// Whether `c` is a hexadecimal digit, upper or lower case.
pub open spec fn is_hex_digit(c: char) -> bool {
    is_digit(c) || (97 <= (c as u32) && (c as u32) <= 102) || (65 <= (c as u32) && (c as u32)
        <= 70)
}

/// The numeric value of a hexadecimal digit.
pub open spec fn hex_val(c: char) -> int {
    if is_digit(c) {
        digit_val(c)
    } else if 97 <= (c as u32) && (c as u32) <= 102 {
        (c as u32) - 87
    } else {
        (c as u32) - 55
    }
}

/// The decimal digits of a non-negative integer, most significant first.
pub open spec fn spec_dec_nat(n: int) -> Seq<char>
    decreases n,
{
    if n < 10 {
        seq![digit_char(n)]
    } else {
        spec_dec_nat(n / 10) + seq![digit_char(n % 10)]
    }
}

/// The canonical decimal text of an integer: a minus sign for negative
/// values, then the digits without leading zeros.
pub open spec fn spec_dec_int(n: int) -> Seq<char> {
    if n < 0 {
        seq!['-'] + spec_dec_nat(-n)
    } else {
        spec_dec_nat(n)
    }
}

/// Exec mirror of [`digit_char`].
pub fn digit_char_exec(d: u64) -> (c: char)
    requires
        d < 10,
    ensures
        c == digit_char(d as int),
{
    if d == 0 { '0' }
    else if d == 1 { '1' }
    else if d == 2 { '2' }
    else if d == 3 { '3' }
    else if d == 4 { '4' }
    else if d == 5 { '5' }
    else if d == 6 { '6' }
    else if d == 7 { '7' }
    else if d == 8 { '8' }
    else { '9' }
}

/// Exec mirror of [`hex_char`].
pub fn hex_char_exec(d: u32) -> (c: char)
    requires
        d < 16,
    ensures
        c == hex_char(d as int),
{
    if d < 10 {
        digit_char_exec(d as u64)
    } else if d == 10 { 'a' }
    else if d == 11 { 'b' }
    else if d == 12 { 'c' }
    else if d == 13 { 'd' }
    else if d == 14 { 'e' }
    else { 'f' }
}

/// Appends the decimal digits of `n` to `out`.
pub fn push_dec_u64(out: &mut String, n: u64)
    ensures
        final(out)@ == old(out)@ + spec_dec_nat(n as int),
    decreases n,
{
    if n >= 10 {
        push_dec_u64(out, n / 10);
        let c = digit_char_exec(n % 10);
        out.push(c);
        assert(final(out)@ =~= old(out)@ + spec_dec_nat(n as int));
    } else {
        let c = digit_char_exec(n);
        out.push(c);
        assert(final(out)@ =~= old(out)@ + spec_dec_nat(n as int));
    }
}

/// Appends the decimal digits of a wide counter to `out`.
pub fn push_dec_u128(out: &mut String, n: u128)
    ensures
        final(out)@ == old(out)@ + spec_dec_nat(n as int),
    decreases n,
{
    if n >= 10 {
        push_dec_u128(out, n / 10);
        let c = digit_char_exec((n % 10) as u64);
        out.push(c);
        assert(final(out)@ =~= old(out)@ + spec_dec_nat(n as int));
    } else {
        let c = digit_char_exec(n as u64);
        out.push(c);
        assert(final(out)@ =~= old(out)@ + spec_dec_nat(n as int));
    }
}

/// Appends the canonical decimal text of `n` to `out`.
pub fn push_dec_i64(out: &mut String, n: i64)
    ensures
        final(out)@ == old(out)@ + spec_dec_int(n as int),
{
    if n < 0 {
        out.push('-');
        let mag: u64 = (-(n as i128)) as u64;
        assert(mag as int == -(n as int));
        push_dec_u64(out, mag);
        assert(final(out)@ =~= old(out)@ + spec_dec_int(n as int));
    } else {
        push_dec_u64(out, n as u64);
    }
}

/// The first position at or after `i` whose character is not a decimal
/// digit (or the end of `s`).
pub open spec fn digit_run_end(s: Seq<char>, i: int) -> int
    decreases s.len() - i,
{
    if 0 <= i < s.len() && is_digit(s[i]) {
        digit_run_end(s, i + 1)
    } else {
        i
    }
}

/// The value of the decimal digits `s[i..j)`, most significant first.
pub open spec fn digits_value(s: Seq<char>, i: int, j: int) -> int
    decreases j - i,
{
    if j <= i {
        0
    } else {
        digits_value(s, i, j - 1) * 10 + digit_val(s[j - 1])
    }
}

/// An integer at position `i` of `s`: an optional minus sign and a run
/// of digits without a redundant leading zero, not continued by a
/// fraction or exponent, whose value fits an `i64`.
pub open spec fn spec_parse_int(s: Seq<char>, i: int) -> Option<(i64, int)> {
    let neg = 0 <= i < s.len() && s[i] == '-';
    let d0 = if neg { i + 1 } else { i };
    let j = digit_run_end(s, d0);
    if j == d0 {
        None
    } else if s[d0] == '0' && j > d0 + 1 {
        None
    } else if j < s.len() && (s[j] == '.' || s[j] == 'e' || s[j] == 'E') {
        None
    } else {
        let v = digits_value(s, d0, j);
        if neg {
            if -v >= i64::MIN { Some(((-v) as i64, j)) } else { None }
        } else {
            if v <= i64::MAX { Some((v as i64, j)) } else { None }
        }
    }
}

/// The run end lies between `i` and the length of `s`, everything in
/// the run is a digit, and the run is maximal.
pub proof fn lemma_digit_run_end(s: Seq<char>, i: int)
    requires
        0 <= i <= s.len(),
    ensures
        i <= digit_run_end(s, i) <= s.len(),
        forall|k: int| i <= k < digit_run_end(s, i) ==> is_digit(#[trigger] s[k]),
        digit_run_end(s, i) < s.len() ==> !is_digit(s[digit_run_end(s, i)]),
    decreases s.len() - i,
{
    if i < s.len() && is_digit(s[i]) {
        lemma_digit_run_end(s, i + 1);
    }
}

/// Digit runs are non-negative in value, and extending a run on the
/// right can only grow the value.
pub proof fn lemma_digits_value_bounds(s: Seq<char>, i: int, j: int)
    requires
        i <= j,
        forall|k: int| i <= k < j ==> is_digit(#[trigger] s[k]),
    ensures
        digits_value(s, i, j) >= 0,
        forall|k: int| i <= k <= j ==> #[trigger] digits_value(s, i, k) <= digits_value(s, i, j),
    decreases j - i,
{
    if j > i {
        lemma_digits_value_bounds(s, i, j - 1);
        assert(digits_value(s, i, j) == digits_value(s, i, j - 1) * 10 + digit_val(s[j - 1]));
        assert(digits_value(s, i, j - 1) * 10 >= digits_value(s, i, j - 1)) by (nonlinear_arith)
            requires
                digits_value(s, i, j - 1) >= 0,
        ;
    }
}

/// Exec mirror of [`spec_parse_int`], scanning at character position `i`.
pub fn parse_int_exec(s: &str, n: usize, i: usize) -> (r: Option<(i64, usize)>)
    requires
        n == s@.len(),
        i <= n,
    ensures
        match spec_parse_int(s@, i as int) {
            Option::None => r is None,
            Option::Some((v, j)) => r == Some((v, j as usize)) && i as int <= j <= n,
        },
{
    proof {
        lemma_digit_run_end(s@, i as int);
    }
    let mut pos: usize = i;
    let mut neg: bool = false;
    if pos < n {
        let c = s.get_char(pos);
        if c == '-' {
            neg = true;
            pos = pos + 1;
        }
    }
    let d0: usize = pos;
    proof {
        lemma_digit_run_end(s@, d0 as int);
    }
    let ghost jj: int = digit_run_end(s@, d0 as int);
    // 2^63 = 9223372036854775808: the one magnitude above i64::MAX that
    // still fits a negative i64.
    let mut acc: u128 = 0;
    let mut over: bool = false;
    loop
        invariant
            d0 <= pos <= n,
            n == s@.len(),
            jj == digit_run_end(s@, d0 as int),
            jj == digit_run_end(s@, pos as int),
            forall|k: int| d0 <= k < pos ==> is_digit(#[trigger] s@[k]),
            !over ==> acc == digits_value(s@, d0 as int, pos as int) && acc
                <= 9223372036854775808u128,
            over ==> digits_value(s@, d0 as int, pos as int) > 9223372036854775808,
        ensures
            d0 <= pos <= n,
            pos as int == jj,
            forall|k: int| d0 <= k < pos ==> is_digit(#[trigger] s@[k]),
            !over ==> acc == digits_value(s@, d0 as int, pos as int) && acc
                <= 9223372036854775808u128,
            over ==> digits_value(s@, d0 as int, pos as int) > 9223372036854775808,
        decreases n - pos,
    {
        if pos >= n {
            break;
        }
        let c = s.get_char(pos);
        if (c as u32) < 48 || (c as u32) > 57 {
            break;
        }
        let d: u128 = ((c as u32) - 48) as u128;
        proof {
            lemma_digits_value_bounds(s@, d0 as int, pos as int + 1);
        }
        if !over {
            let next = acc * 10 + d;
            if next > 9223372036854775808u128 {
                over = true;
            } else {
                acc = next;
            }
        } else {
            proof {
                assert(digits_value(s@, d0 as int, pos as int) * 10 + digit_val(s@[pos as int])
                    > 9223372036854775808) by (nonlinear_arith)
                    requires
                        digits_value(s@, d0 as int, pos as int) > 9223372036854775808,
                        digit_val(s@[pos as int]) >= 0,
                ;
            }
        }
        pos = pos + 1;
    }
    proof {
        assert(pos as int == jj);
    }
    if pos == d0 {
        return None;
    }
    let first = s.get_char(d0);
    if first == '0' && pos > d0 + 1 {
        return None;
    }
    if pos < n {
        let c = s.get_char(pos);
        if c == '.' || c == 'e' || c == 'E' {
            return None;
        }
    }
    if neg {
        if over {
            return None;
        }
        if acc == 9223372036854775808u128 {
            Some((i64::MIN, pos))
        } else {
            let v: i64 = -(acc as i64);
            Some((v, pos))
        }
    } else {
        if over || acc > i64::MAX as u128 {
            proof {
                if !over {
                    assert(digits_value(s@, d0 as int, pos as int) > i64::MAX);
                }
            }
            return None;
        }
        Some((acc as i64, pos))
    }
}

/// Every character of a decimal rendering is a digit, and the first is
/// not `'0'` unless the number is below ten.
pub proof fn lemma_dec_nat_digits(n: int)
    requires
        0 <= n,
    ensures
        spec_dec_nat(n).len() >= 1,
        forall|k: int| 0 <= k < spec_dec_nat(n).len() ==> is_digit(#[trigger] spec_dec_nat(n)[k]),
        n >= 10 ==> spec_dec_nat(n).len() >= 2,
        digit_val(spec_dec_nat(n)[0]) != 0 || spec_dec_nat(n).len() == 1,
    decreases n,
{
    if n >= 10 {
        lemma_dec_nat_digits(n / 10);
    }
}

/// Addition on byte counters that sticks at the largest representable
/// value instead of wrapping.
pub open spec fn sat_add_i64(a: int, b: int) -> int {
    if a + b <= i64::MAX {
        a + b
    } else {
        i64::MAX as int
    }
}

/// Whether `needle` occurs as a contiguous run inside `hay`.
pub open spec fn contains_seq(hay: Seq<char>, needle: Seq<char>) -> bool {
    exists|k: int|
        0 <= k && k + needle.len() <= hay.len() && #[trigger] hay.subrange(k, k + needle.len())
            == needle
}

/// Whether `hay` contains `needle`, by naive scan.
pub fn str_contains(hay: &str, needle: &str) -> (r: bool)
    ensures
        r == contains_seq(hay@, needle@),
{
    let nh = hay.unicode_len();
    let nn = needle.unicode_len();
    if nn > nh {
        proof {
            assert(!contains_seq(hay@, needle@));
        }
        return false;
    }
    if nn == 0 {
        proof {
            assert(hay@.subrange(0, 0 + needle@.len() as int) =~= needle@);
        }
        return true;
    }
    let mut k: usize = 0;
    while k <= nh - nn
        invariant
            nn <= nh,
            nh == hay@.len(),
            nn == needle@.len(),
            k <= nh - nn + 1,
            forall|q: int|
                0 <= q < k ==> #[trigger] hay@.subrange(q, q + needle@.len() as int) != needle@,
            nn >= 1,
        decreases nh - nn - k + 1,
    {
        let mut j: usize = 0;
        let mut hit: bool = true;
        while j < nn
            invariant_except_break
                hit,
            invariant
                nn <= nh,
                nh == hay@.len(),
                nn == needle@.len(),
                k + nn <= nh,
                j <= nn,
                forall|q: int| 0 <= q < j ==> hay@[k + q] == needle@[q],
            ensures
                hit ==> j == nn && forall|q: int| 0 <= q < nn ==> hay@[k + q] == needle@[q],
                !hit ==> hay@.subrange(k as int, k as int + needle@.len() as int) != needle@,
            decreases nn - j,
        {
            if hay.get_char(k + j) != needle.get_char(j) {
                hit = false;
                proof {
                    assert(hay@.subrange(k as int, k as int + needle@.len() as int)[j as int]
                        != needle@[j as int]);
                }
                break ;
            }
            j = j + 1;
        }
        if hit {
            proof {
                assert(hay@.subrange(k as int, k as int + needle@.len() as int) =~= needle@);
            }
            return true;
        }
        proof {
            assert(hay@.subrange(k as int, k as int + needle@.len() as int) != needle@);
        }
        k = k + 1;
    }
    proof {
        assert forall|q: int| 0 <= q && q + needle@.len() <= hay@.len() implies #[trigger] hay@.subrange(
            q,
            q + needle@.len() as int,
        ) != needle@ by {
            assert(q < k);
        }
    }
    false
}



} // verus!
