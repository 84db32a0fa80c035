//! A JSON codec for the ndt7 wire measurement format.
//!
//! The wire frames are JSON objects with optional, independently
//! omittable fields. Serialization is canonical: no whitespace, fields
//! in declaration order, absent fields omitted entirely. Parsing
//! accepts whitespace, any field order, and unknown fields of any
//! shape, which are skipped.

use vstd::prelude::*;
use vstd::string::StrSliceExecFns;

use crate::messages::AppInfo;
use crate::messages::ConnectionInfo;
use crate::messages::Measurement;
use crate::messages::Origin;
use crate::messages::TCPInfo;
use crate::messages::TestKind;
use crate::messages::spec_default_measurement;
use crate::messages::spec_default_tcp_info;
use crate::text::digit_char;
use crate::text::digit_val;
use crate::text::hex_char;
use crate::text::is_digit;
use crate::text::spec_parse_int;
use crate::text::parse_int_exec;

verus! {

/// Whether `c` is JSON insignificant whitespace.
pub open spec fn is_ws(c: char) -> bool {
    c == ' ' || c == '\t' || c == '\n' || c == '\r'
}

/// The first position at or after `i` whose character is not
/// whitespace (or the end of `s`).
pub open spec fn skip_ws(s: Seq<char>, i: int) -> int
    decreases s.len() - i,
{
    if 0 <= i < s.len() && is_ws(s[i]) {
        skip_ws(s, i + 1)
    } else {
        i
    }
}

/// The whitespace skip stays within bounds and stops on the first
/// non-whitespace character.
pub proof fn lemma_skip_ws(s: Seq<char>, i: int)
    requires
        0 <= i <= s.len(),
    ensures
        i <= skip_ws(s, i) <= s.len(),
        skip_ws(s, i) < s.len() ==> !is_ws(s[skip_ws(s, i)]),
    decreases s.len() - i,
{
    if i < s.len() && is_ws(s[i]) {
        lemma_skip_ws(s, i + 1);
    }
}

/// Exec mirror of [`skip_ws`].
pub fn skip_ws_exec(s: &str, n: usize, i: usize) -> (r: usize)
    requires
        n == s@.len(),
        i <= n,
    ensures
        r == skip_ws(s@, i as int),
        i <= r <= n,
    decreases n - i,
{
    proof {
        lemma_skip_ws(s@, i as int);
    }
    if i < n {
        let c = s.get_char(i);
        if c == ' ' || c == '\t' || c == '\n' || c == '\r' {
            return skip_ws_exec(s, n, i + 1);
        }
    }
    i
}

/// The value of four hexadecimal digits at `i`.
pub open spec fn hex4(s: Seq<char>, i: int) -> int {
    crate::text::hex_val(s[i]) * 4096 + crate::text::hex_val(s[i + 1]) * 256
        + crate::text::hex_val(s[i + 2]) * 16 + crate::text::hex_val(s[i + 3])
}

/// Whether four hexadecimal digits stand at `i`.
pub open spec fn hex4_at(s: Seq<char>, i: int) -> bool {
    &&& crate::text::is_hex_digit(s[i])
    &&& crate::text::is_hex_digit(s[i + 1])
    &&& crate::text::is_hex_digit(s[i + 2])
    &&& crate::text::is_hex_digit(s[i + 3])
}

/// The character with a given Unicode scalar value.
pub open spec fn char_from_code(v: int) -> char {
    v as char
}

/// Relies on std's `char::from_u32`: a value converts exactly when it
/// is a Unicode scalar value (not a surrogate, at most 0x10FFFF), and
/// the conversion preserves the code.
#[verifier::external_body]
fn char_from_u32(v: u32) -> (r: Option<char>)
    ensures
        r is Some <==> (v < 0xD800 || (0xE000 <= v && v <= 0x10FFFF)),
        r matches Some(c) ==> (c as u32) == v,
{
    char::from_u32(v)
}

/// Every character is the one its own code denotes.
pub proof fn lemma_char_from_code(c: char)
    ensures
        char_from_code((c as u32) as int) == c,
{
    let d = char_from_code((c as u32) as int);
    assert((d as u32) == (c as u32));
}

/// The escape of one character inside a JSON string literal.
pub open spec fn esc_char(c: char) -> Seq<char> {
    if c == '"' {
        seq!['\\', '"']
    } else if c == '\\' {
        seq!['\\', '\\']
    } else if c == '\u{8}' {
        seq!['\\', 'b']
    } else if c == '\u{c}' {
        seq!['\\', 'f']
    } else if c == '\n' {
        seq!['\\', 'n']
    } else if c == '\r' {
        seq!['\\', 'r']
    } else if c == '\t' {
        seq!['\\', 't']
    } else if (c as u32) < 32 {
        seq!['\\', 'u', '0', '0', hex_char(((c as u32) / 16) as int), hex_char(
            ((c as u32) % 16) as int,
        )]
    } else {
        seq![c]
    }
}

/// The body of the JSON string literal for `s`: every character escaped.
pub open spec fn spec_escape(s: Seq<char>) -> Seq<char>
    decreases s.len(),
{
    if s.len() == 0 {
        Seq::empty()
    } else {
        esc_char(s[0]) + spec_escape(s.drop_first())
    }
}

/// The JSON string literal for `s`, quotes included.
pub open spec fn ser_string(s: Seq<char>) -> Seq<char> {
    seq!['"'] + spec_escape(s) + seq!['"']
}

/// Appends the escaped characters of `s[from..]` to `out`.
fn push_escaped_from(out: &mut String, s: &str, n: usize, from: usize)
    requires
        n == s@.len(),
        from <= n,
    ensures
        final(out)@ == old(out)@ + spec_escape(s@.subrange(from as int, n as int)),
    decreases n - from,
{
    if from >= n {
        assert(final(out)@ =~= old(out)@ + spec_escape(s@.subrange(from as int, n as int)));
        return ;
    }
    let c = s.get_char(from);
    if c == '"' {
        out.push('\\');
        out.push('"');
    } else if c == '\\' {
        out.push('\\');
        out.push('\\');
    } else if c == '\u{8}' {
        out.push('\\');
        out.push('b');
    } else if c == '\u{c}' {
        out.push('\\');
        out.push('f');
    } else if c == '\n' {
        out.push('\\');
        out.push('n');
    } else if c == '\r' {
        out.push('\\');
        out.push('r');
    } else if (c as u32) == 9 {
        out.push('\\');
        out.push('t');
    } else if (c as u32) < 32 {
        out.push('\\');
        out.push('u');
        out.push('0');
        out.push('0');
        let h1 = crate::text::hex_char_exec((c as u32) / 16);
        out.push(h1);
        let h2 = crate::text::hex_char_exec((c as u32) % 16);
        out.push(h2);
    } else {
        out.push(c);
    }
    assert(out@ =~= old(out)@ + esc_char(s@[from as int]));
    push_escaped_from(out, s, n, from + 1);
    proof {
        assert(s@.subrange(from as int, n as int).drop_first() =~= s@.subrange(
            from as int + 1,
            n as int,
        ));
        assert(s@.subrange(from as int, n as int)[0] == s@[from as int]);
        assert(final(out)@ =~= old(out)@ + spec_escape(s@.subrange(from as int, n as int)));
    }
}

/// Appends the JSON string literal for `s` to `out`.
pub fn push_json_string(out: &mut String, s: &str)
    ensures
        final(out)@ == old(out)@ + ser_string(s@),
{
    out.push('"');
    let n = s.unicode_len();
    push_escaped_from(out, s, n, 0);
    out.push('"');
    proof {
        assert(s@.subrange(0, s@.len() as int) =~= s@);
        assert(final(out)@ =~= old(out)@ + ser_string(s@));
    }
}

/// A JSON string literal continued at `i` (after the opening quote),
/// with `acc` the characters decoded so far: the decoded value and the
/// position after the closing quote.
pub open spec fn spec_parse_string_rest(s: Seq<char>, i: int, acc: Seq<char>) -> Option<
    (Seq<char>, int),
>
    decreases s.len() - i,
{
    if i < 0 || i >= s.len() {
        None
    } else if s[i] == '"' {
        Some((acc, i + 1))
    } else if s[i] == '\\' {
        if i + 1 >= s.len() {
            None
        } else {
            let e = s[i + 1];
            if e == '"' {
                spec_parse_string_rest(s, i + 2, acc + seq!['"'])
            } else if e == '\\' {
                spec_parse_string_rest(s, i + 2, acc + seq!['\\'])
            } else if e == '/' {
                spec_parse_string_rest(s, i + 2, acc + seq!['/'])
            } else if e == 'b' {
                spec_parse_string_rest(s, i + 2, acc + seq!['\u{8}'])
            } else if e == 'f' {
                spec_parse_string_rest(s, i + 2, acc + seq!['\u{c}'])
            } else if e == 'n' {
                spec_parse_string_rest(s, i + 2, acc + seq!['\n'])
            } else if e == 'r' {
                spec_parse_string_rest(s, i + 2, acc + seq!['\r'])
            } else if e == 't' {
                spec_parse_string_rest(s, i + 2, acc + seq!['\t'])
            } else if e == 'u' {
                if i + 6 <= s.len() && hex4_at(s, i + 2) {
                    let v = hex4(s, i + 2);
                    if v < 0xD800 || v > 0xDFFF {
                        spec_parse_string_rest(s, i + 6, acc + seq![char_from_code(v)])
                    } else if v < 0xDC00 {
                        // a high surrogate must pair with a low one
                        if i + 12 <= s.len() && s[i + 6] == '\\' && s[i + 7] == 'u' && hex4_at(
                            s,
                            i + 8,
                        ) {
                            let w = hex4(s, i + 8);
                            if 0xDC00 <= w <= 0xDFFF {
                                let code = 0x10000 + (v - 0xD800) * 0x400 + (w - 0xDC00);
                                spec_parse_string_rest(s, i + 12, acc + seq![char_from_code(code)])
                            } else {
                                None
                            }
                        } else {
                            None
                        }
                    } else {
                        None
                    }
                } else {
                    None
                }
            } else {
                None
            }
        }
    } else if (s[i] as u32) < 32 {
        None
    } else {
        spec_parse_string_rest(s, i + 1, acc + seq![s[i]])
    }
}

/// A JSON string literal at `i`: the decoded value and the position
/// after the closing quote.
pub open spec fn spec_parse_string(s: Seq<char>, i: int) -> Option<(Seq<char>, int)> {
    if 0 <= i < s.len() && s[i] == '"' {
        spec_parse_string_rest(s, i + 1, Seq::empty())
    } else {
        None
    }
}

/// Exec mirror of [`spec_parse_string_rest`].
fn parse_string_rest(s: &str, n: usize, i: usize, acc: String) -> (r: Option<(String, usize)>)
    requires
        n == s@.len(),
        i <= n,
    ensures
        match spec_parse_string_rest(s@, i as int, acc@) {
            Option::None => r is None,
            Option::Some((t, j)) => r is Some && r.unwrap().0@ == t && r.unwrap().1 == j && j
                <= n,
        },
    decreases n - i,
{
    proof {
        lemma_parse_string_rest_bounds(s@, i as int, acc@);
    }
    if i >= n {
        return None;
    }
    let c = s.get_char(i);
    if c == '"' {
        return Some((acc, i + 1));
    }
    if c == '\\' {
        if i + 1 >= n {
            return None;
        }
        let e = s.get_char(i + 1);
        let mut acc2 = acc;
        if e == '"' {
            acc2.push('"');
            return parse_string_rest(s, n, i + 2, acc2);
        } else if e == '\\' {
            acc2.push('\\');
            return parse_string_rest(s, n, i + 2, acc2);
        } else if e == '/' {
            acc2.push('/');
            return parse_string_rest(s, n, i + 2, acc2);
        } else if e == 'b' {
            acc2.push('\u{8}');
            return parse_string_rest(s, n, i + 2, acc2);
        } else if e == 'f' {
            acc2.push('\u{c}');
            return parse_string_rest(s, n, i + 2, acc2);
        } else if e == 'n' {
            acc2.push('\n');
            return parse_string_rest(s, n, i + 2, acc2);
        } else if e == 'r' {
            acc2.push('\r');
            return parse_string_rest(s, n, i + 2, acc2);
        } else if e == 't' {
            acc2.push('\t');
            return parse_string_rest(s, n, i + 2, acc2);
        } else if e == 'u' {
            if n - i >= 6 {
                match read_hex4(s, n, i + 2) {
                    Option::Some(v) => {
                        if v < 0xD800 || v > 0xDFFF {
                            match char_from_u32(v) {
                                Option::Some(c2) => {
                                    proof {
                                        lemma_char_from_code(c2);
                                    }
                                    acc2.push(c2);
                                    return parse_string_rest(s, n, i + 6, acc2);
                                },
                                Option::None => {
                                    // a basic-plane value outside the
                                    // surrogate range always converts
                                    proof {
                                        assert(false);
                                    }
                                    return None;
                                },
                            }
                        } else if v < 0xDC00 {
                            if n - i >= 12 && s.get_char(i + 6) == '\\' && s.get_char(i + 7)
                                == 'u' {
                                match read_hex4(s, n, i + 8) {
                                    Option::Some(w) => {
                                        if 0xDC00 <= w && w <= 0xDFFF {
                                            let code: u32 = 0x10000 + (v - 0xD800) * 0x400 + (w
                                                - 0xDC00);
                                            match char_from_u32(code) {
                                                Option::Some(c2) => {
                                                    proof {
                                                        lemma_char_from_code(c2);
                                                    }
                                                    acc2.push(c2);
                                                    return parse_string_rest(s, n, i + 12, acc2);
                                                },
                                                Option::None => {
                                                    // a paired value is a
                                                    // supplementary scalar
                                                    proof {
                                                        assert(false);
                                                    }
                                                    return None;
                                                },
                                            }
                                        } else {
                                            return None;
                                        }
                                    },
                                    Option::None => {
                                        return None;
                                    },
                                }
                            } else {
                                return None;
                            }
                        } else {
                            return None;
                        }
                    },
                    Option::None => {
                        return None;
                    },
                }
            } else {
                return None;
            }
        } else {
            return None;
        }
    }
    if (c as u32) < 32 {
        return None;
    }
    let mut acc2 = acc;
    acc2.push(c);
    parse_string_rest(s, n, i + 1, acc2)
}

/// A successful string parse always lands within bounds.
pub proof fn lemma_parse_string_rest_bounds(s: Seq<char>, i: int, acc: Seq<char>)
    ensures
        match spec_parse_string_rest(s, i, acc) {
            Option::None => true,
            Option::Some((t, j)) => i < j <= s.len(),
        },
    decreases s.len() - i,
{
    if 0 <= i < s.len() {
        if s[i] == '"' {
        } else if s[i] == '\\' {
            if i + 1 < s.len() {
                let e = s[i + 1];
                if e == '"' || e == '\\' || e == '/' || e == 'b' || e == 'f' || e == 'n' || e == 'r'
                    || e == 't' {
                    lemma_parse_string_rest_bounds(s, i + 2, acc + seq!['"']);
                    lemma_parse_string_rest_bounds(s, i + 2, acc + seq!['\\']);
                    lemma_parse_string_rest_bounds(s, i + 2, acc + seq!['/']);
                    lemma_parse_string_rest_bounds(s, i + 2, acc + seq!['\u{8}']);
                    lemma_parse_string_rest_bounds(s, i + 2, acc + seq!['\u{c}']);
                    lemma_parse_string_rest_bounds(s, i + 2, acc + seq!['\n']);
                    lemma_parse_string_rest_bounds(s, i + 2, acc + seq!['\r']);
                    lemma_parse_string_rest_bounds(s, i + 2, acc + seq!['\t']);
                } else if e == 'u' {
                    if i + 6 <= s.len() && hex4_at(s, i + 2) {
                        let v = hex4(s, i + 2);
                        if v < 0xD800 || v > 0xDFFF {
                            lemma_parse_string_rest_bounds(s, i + 6, acc + seq![char_from_code(v)]);
                        } else if v < 0xDC00 {
                            if i + 12 <= s.len() && s[i + 6] == '\\' && s[i + 7] == 'u' && hex4_at(
                                s,
                                i + 8,
                            ) {
                                let w = hex4(s, i + 8);
                                if 0xDC00 <= w <= 0xDFFF {
                                    let code = 0x10000 + (v - 0xD800) * 0x400 + (w - 0xDC00);
                                    lemma_parse_string_rest_bounds(
                                        s,
                                        i + 12,
                                        acc + seq![char_from_code(code)],
                                    );
                                }
                            }
                        }
                    }
                }
            }
        } else if (s[i] as u32) >= 32 {
            lemma_parse_string_rest_bounds(s, i + 1, acc + seq![s[i]]);
        }
    }
}

/// The value of four hexadecimal digits at `i`, if they are ones.
fn read_hex4(s: &str, n: usize, i: usize) -> (r: Option<u32>)
    requires
        n == s@.len(),
        i + 4 <= n,
    ensures
        r is Some <==> hex4_at(s@, i as int),
        r matches Some(v) ==> v == hex4(s@, i as int) && v < 0x10000,
{
    let h1 = hex_digit_val(s.get_char(i));
    let h2 = hex_digit_val(s.get_char(i + 1));
    let h3 = hex_digit_val(s.get_char(i + 2));
    let h4 = hex_digit_val(s.get_char(i + 3));
    match (h1, h2, h3, h4) {
        (Some(a), Some(b), Some(c), Some(d)) => Some(a * 4096 + b * 256 + c * 16 + d),
        _ => None,
    }
}

/// The value of a hexadecimal digit character, if it is one.
fn hex_digit_val(c: char) -> (r: Option<u32>)
    ensures
        r is Some <==> crate::text::is_hex_digit(c),
        r is Some ==> r.unwrap() == crate::text::hex_val(c) && r.unwrap() < 16,
{
    let v = c as u32;
    if 48 <= v && v <= 57 {
        Some(v - 48)
    } else if 97 <= v && v <= 102 {
        Some(v - 87)
    } else if 65 <= v && v <= 70 {
        Some(v - 55)
    } else {
        None
    }
}

/// Exec mirror of [`spec_parse_string`].
pub fn parse_json_string(s: &str, n: usize, i: usize) -> (r: Option<(String, usize)>)
    requires
        n == s@.len(),
        i <= n,
    ensures
        match spec_parse_string(s@, i as int) {
            Option::None => r is None,
            Option::Some((t, j)) => r is Some && r.unwrap().0@ == t && r.unwrap().1 == j && j
                <= n,
        },
{
    if i < n {
        let c = s.get_char(i);
        if c == '"' {
            return parse_string_rest(s, n, i + 1, String::new());
        }
    }
    None
}

/// Whether `c` can appear in a JSON number.
pub open spec fn is_num_char(c: char) -> bool {
    is_digit(c) || c == '-' || c == '+' || c == '.' || c == 'e' || c == 'E'
}

/// The first position at or after `i` whose character cannot appear in
/// a JSON number (or the end of `s`).
pub open spec fn num_run_end(s: Seq<char>, i: int) -> int
    decreases s.len() - i,
{
    if 0 <= i < s.len() && is_num_char(s[i]) {
        num_run_end(s, i + 1)
    } else {
        i
    }
}

/// The number run end lies between `i` and the length of `s`, and the
/// run is maximal.
pub proof fn lemma_num_run_end(s: Seq<char>, i: int)
    requires
        0 <= i <= s.len(),
    ensures
        i <= num_run_end(s, i) <= s.len(),
        num_run_end(s, i) < s.len() ==> !is_num_char(s[num_run_end(s, i)]),
    decreases s.len() - i,
{
    if i < s.len() && is_num_char(s[i]) {
        lemma_num_run_end(s, i + 1);
    }
}

/// A scalar JSON value at `i` (string, number, `true`, `false` or
/// `null`): the position just after it.
pub open spec fn spec_skip_scalar(s: Seq<char>, i: int) -> Option<int> {
    if i < 0 || i >= s.len() {
        None
    } else if s[i] == '"' {
        match spec_parse_string(s, i) {
            Option::None => None,
            Option::Some((t, j)) => Some(j),
        }
    } else if s[i] == 't' {
        if i + 4 <= s.len() && s[i + 1] == 'r' && s[i + 2] == 'u' && s[i + 3] == 'e' {
            Some(i + 4)
        } else {
            None
        }
    } else if s[i] == 'f' {
        if i + 5 <= s.len() && s[i + 1] == 'a' && s[i + 2] == 'l' && s[i + 3] == 's' && s[i + 4]
            == 'e' {
            Some(i + 5)
        } else {
            None
        }
    } else if s[i] == 'n' {
        if i + 4 <= s.len() && s[i + 1] == 'u' && s[i + 2] == 'l' && s[i + 3] == 'l' {
            Some(i + 4)
        } else {
            None
        }
    } else if s[i] == '-' || is_digit(s[i]) {
        Some(num_run_end(s, i + 1))
    } else {
        None
    }
}

/// A successful scalar skip always moves forward and stays in bounds.
pub proof fn lemma_skip_scalar_bounds(s: Seq<char>, i: int)
    ensures
        match spec_skip_scalar(s, i) {
            Option::None => true,
            Option::Some(j) => i < j <= s.len(),
        },
{
    if 0 <= i < s.len() {
        if s[i] == '"' {
            if 0 <= i < s.len() && s[i] == '"' {
                lemma_parse_string_rest_bounds(s, i + 1, Seq::empty());
            }
        } else if s[i] == '-' || is_digit(s[i]) {
            lemma_num_run_end(s, i + 1);
        }
    }
}

/// The members of an unknown object continued at `i`: key, colon,
/// value, then a comma or the closing brace. `first` says whether an
/// immediate closing brace (empty object) is allowed.
pub open spec fn spec_skip_object_members(s: Seq<char>, i: int, first: bool) -> Option<int>
    decreases s.len() - i, 1int,
{
    if i < 0 || i >= s.len() {
        None
    } else if first && s[i] == '}' {
        Some(i + 1)
    } else {
        match spec_parse_string(s, i) {
            Option::None => None,
            Option::Some((k, i2)) => {
                let i3 = skip_ws(s, i2);
                if i3 < s.len() && s[i3] == ':' {
                    let i4 = skip_ws(s, i3 + 1);
                    let stepped: Option<int> = if i < i4 && i4 <= s.len() {
                        spec_skip_value(s, i4)
                    } else {
                        None
                    };
                    match stepped {
                        Option::None => None,
                        Option::Some(j) => {
                            let j2 = skip_ws(s, j);
                            if j2 < s.len() && s[j2] == '}' {
                                Some(j2 + 1)
                            } else if j2 < s.len() && s[j2] == ',' {
                                let nx = skip_ws(s, j2 + 1);
                                if i < nx && nx <= s.len() {
                                    spec_skip_object_members(s, nx, false)
                                } else {
                                    None
                                }
                            } else {
                                None
                            }
                        },
                    }
                } else {
                    None
                }
            },
        }
    }
}

/// The elements of an unknown array continued at `i`: values separated
/// by commas, then the closing bracket.
pub open spec fn spec_skip_array_items(s: Seq<char>, i: int, first: bool) -> Option<int>
    decreases s.len() - i, 1int,
{
    if i < 0 || i >= s.len() {
        None
    } else if first && s[i] == ']' {
        Some(i + 1)
    } else {
        match spec_skip_value(s, i) {
            Option::None => None,
            Option::Some(j) => {
                let j2 = skip_ws(s, j);
                if j2 < s.len() && s[j2] == ']' {
                    Some(j2 + 1)
                } else if j2 < s.len() && s[j2] == ',' {
                    let nx = skip_ws(s, j2 + 1);
                    if i < nx && nx <= s.len() {
                        spec_skip_array_items(s, nx, false)
                    } else {
                        None
                    }
                } else {
                    None
                }
            },
        }
    }
}

/// An unknown JSON value at `i`: a scalar, or an arbitrarily nested
/// object or array. The position just after it.
pub open spec fn spec_skip_value(s: Seq<char>, i: int) -> Option<int>
    decreases s.len() - i, 0int,
{
    if i < 0 || i >= s.len() {
        None
    } else if s[i] == '{' {
        let nx = skip_ws(s, i + 1);
        if i < nx && nx <= s.len() {
            spec_skip_object_members(s, nx, true)
        } else {
            None
        }
    } else if s[i] == '[' {
        let nx = skip_ws(s, i + 1);
        if i < nx && nx <= s.len() {
            spec_skip_array_items(s, nx, true)
        } else {
            None
        }
    } else {
        spec_skip_scalar(s, i)
    }
}

/// A successful object-members skip always moves forward and stays
/// in bounds.
pub proof fn lemma_skip_object_members_bounds(s: Seq<char>, i: int, first: bool)
    ensures
        match spec_skip_object_members(s, i, first) {
            Option::None => true,
            Option::Some(j) => i < j <= s.len(),
        },
    decreases s.len() - i, 1int,
{
    if 0 <= i < s.len() && !(first && s[i] == '}') {
        if 0 <= i < s.len() && s[i] == '"' {
            lemma_parse_string_rest_bounds(s, i + 1, Seq::empty());
        }
        match spec_parse_string(s, i) {
            Option::None => {},
            Option::Some((k, i2)) => {
                lemma_skip_ws(s, i2);
                let i3 = skip_ws(s, i2);
                if i3 < s.len() && s[i3] == ':' {
                    lemma_skip_ws(s, i3 + 1);
                    let i4 = skip_ws(s, i3 + 1);
                    if i < i4 && i4 <= s.len() {
                        lemma_skip_value_bounds(s, i4);
                        match spec_skip_value(s, i4) {
                            Option::None => {},
                            Option::Some(j) => {
                                lemma_skip_ws(s, j);
                                let j2 = skip_ws(s, j);
                                if j2 < s.len() && s[j2] == ',' {
                                    lemma_skip_ws(s, j2 + 1);
                                    let nx = skip_ws(s, j2 + 1);
                                    if i < nx && nx <= s.len() {
                                        lemma_skip_object_members_bounds(s, nx, false);
                                    }
                                }
                            },
                        }
                    }
                }
            },
        }
    }
}

/// A successful array-items skip always moves forward and stays in
/// bounds.
pub proof fn lemma_skip_array_items_bounds(s: Seq<char>, i: int, first: bool)
    ensures
        match spec_skip_array_items(s, i, first) {
            Option::None => true,
            Option::Some(j) => i < j <= s.len(),
        },
    decreases s.len() - i, 1int,
{
    if 0 <= i < s.len() && !(first && s[i] == ']') {
        lemma_skip_value_bounds(s, i);
        match spec_skip_value(s, i) {
            Option::None => {},
            Option::Some(j) => {
                lemma_skip_ws(s, j);
                let j2 = skip_ws(s, j);
                if j2 < s.len() && s[j2] == ',' {
                    lemma_skip_ws(s, j2 + 1);
                    let nx = skip_ws(s, j2 + 1);
                    if i < nx && nx <= s.len() {
                        lemma_skip_array_items_bounds(s, nx, false);
                    }
                }
            },
        }
    }
}

/// A successful value skip always moves forward and stays in bounds.
pub proof fn lemma_skip_value_bounds(s: Seq<char>, i: int)
    ensures
        match spec_skip_value(s, i) {
            Option::None => true,
            Option::Some(j) => i < j <= s.len(),
        },
    decreases s.len() - i, 0int,
{
    if 0 <= i < s.len() {
        if s[i] == '{' {
            lemma_skip_ws(s, i + 1);
            let nx = skip_ws(s, i + 1);
            if i < nx && nx <= s.len() {
                lemma_skip_object_members_bounds(s, nx, true);
            }
        } else if s[i] == '[' {
            lemma_skip_ws(s, i + 1);
            let nx = skip_ws(s, i + 1);
            if i < nx && nx <= s.len() {
                lemma_skip_array_items_bounds(s, nx, true);
            }
        } else {
            lemma_skip_scalar_bounds(s, i);
        }
    }
}

/// Exec mirror of [`spec_skip_scalar`].
fn skip_scalar_exec(s: &str, n: usize, i: usize) -> (r: Option<usize>)
    requires
        n == s@.len(),
        i <= n,
    ensures
        match spec_skip_scalar(s@, i as int) {
            Option::None => r is None,
            Option::Some(j) => r == Some(j as usize) && i < j <= n,
        },
{
    proof {
        lemma_skip_scalar_bounds(s@, i as int);
    }
    if i >= n {
        return None;
    }
    let c = s.get_char(i);
    if c == '"' {
        match parse_json_string(s, n, i) {
            Option::Some((t, j)) => Some(j),
            Option::None => None,
        }
    } else if c == 't' {
        if n - i >= 4 && s.get_char(i + 1) == 'r' && s.get_char(i + 2) == 'u' && s.get_char(i + 3)
            == 'e' {
            Some(i + 4)
        } else {
            None
        }
    } else if c == 'f' {
        if n - i >= 5 && s.get_char(i + 1) == 'a' && s.get_char(i + 2) == 'l' && s.get_char(i + 3)
            == 's' && s.get_char(i + 4) == 'e' {
            Some(i + 5)
        } else {
            None
        }
    } else if c == 'n' {
        if n - i >= 4 && s.get_char(i + 1) == 'u' && s.get_char(i + 2) == 'l' && s.get_char(i + 3)
            == 'l' {
            Some(i + 4)
        } else {
            None
        }
    } else if c == '-' || ((c as u32) >= 48 && (c as u32) <= 57) {
        let mut pos: usize = i + 1;
        proof {
            lemma_num_run_end(s@, i as int + 1);
        }
        let ghost jj: int = num_run_end(s@, i as int + 1);
        loop
            invariant
                i + 1 <= pos <= n,
                n == s@.len(),
                jj == num_run_end(s@, pos as int),
            ensures
                pos as int == jj,
            decreases n - pos,
        {
            if pos >= n {
                break;
            }
            let c2 = s.get_char(pos);
            let v = c2 as u32;
            let numeric = (v >= 48 && v <= 57) || c2 == '-' || c2 == '+' || c2 == '.' || c2 == 'e'
                || c2 == 'E';
            if !numeric {
                break;
            }
            pos = pos + 1;
        }
        Some(pos)
    } else {
        None
    }
}

/// Exec mirror of [`spec_skip_object_members`].
fn skip_object_members_exec(s: &str, n: usize, i: usize, first: bool) -> (r: Option<usize>)
    requires
        n == s@.len(),
        i <= n,
    ensures
        match spec_skip_object_members(s@, i as int, first) {
            Option::None => r is None,
            Option::Some(j) => r == Some(j as usize) && i < j <= n,
        },
    decreases n - i, 1int,
{
    proof {
        lemma_skip_object_members_bounds(s@, i as int, first);
    }
    if i >= n {
        return None;
    }
    if first {
        let c = s.get_char(i);
        if c == '}' {
            return Some(i + 1);
        }
    }
    match parse_json_string(s, n, i) {
        Option::None => None,
        Option::Some((k, i2)) => {
            let i3 = skip_ws_exec(s, n, i2);
            if i3 < n && s.get_char(i3) == ':' {
                let i4 = skip_ws_exec(s, n, i3 + 1);
                let stepped: Option<usize> = if i < i4 && i4 <= n {
                    skip_value_exec(s, n, i4)
                } else {
                    None
                };
                match stepped {
                    Option::None => None,
                    Option::Some(j) => {
                        let j2 = skip_ws_exec(s, n, j);
                        if j2 < n && s.get_char(j2) == '}' {
                            Some(j2 + 1)
                        } else if j2 < n && s.get_char(j2) == ',' {
                            let nx = skip_ws_exec(s, n, j2 + 1);
                            if i < nx && nx <= n {
                                skip_object_members_exec(s, n, nx, false)
                            } else {
                                None
                            }
                        } else {
                            None
                        }
                    },
                }
            } else {
                None
            }
        },
    }
}

/// Exec mirror of [`spec_skip_array_items`].
fn skip_array_items_exec(s: &str, n: usize, i: usize, first: bool) -> (r: Option<usize>)
    requires
        n == s@.len(),
        i <= n,
    ensures
        match spec_skip_array_items(s@, i as int, first) {
            Option::None => r is None,
            Option::Some(j) => r == Some(j as usize) && i < j <= n,
        },
    decreases n - i, 1int,
{
    proof {
        lemma_skip_array_items_bounds(s@, i as int, first);
    }
    if i >= n {
        return None;
    }
    if first {
        let c = s.get_char(i);
        if c == ']' {
            return Some(i + 1);
        }
    }
    match skip_value_exec(s, n, i) {
        Option::None => None,
        Option::Some(j) => {
            let j2 = skip_ws_exec(s, n, j);
            if j2 < n && s.get_char(j2) == ']' {
                Some(j2 + 1)
            } else if j2 < n && s.get_char(j2) == ',' {
                let nx = skip_ws_exec(s, n, j2 + 1);
                if i < nx && nx <= n {
                    skip_array_items_exec(s, n, nx, false)
                } else {
                    None
                }
            } else {
                None
            }
        },
    }
}

/// Exec mirror of [`spec_skip_value`].
pub fn skip_value_exec(s: &str, n: usize, i: usize) -> (r: Option<usize>)
    requires
        n == s@.len(),
        i <= n,
    ensures
        match spec_skip_value(s@, i as int) {
            Option::None => r is None,
            Option::Some(j) => r == Some(j as usize) && i < j <= n,
        },
    decreases n - i, 0int,
{
    if i >= n {
        return None;
    }
    let c = s.get_char(i);
    if c == '{' {
        let nx = skip_ws_exec(s, n, i + 1);
        if i < nx && nx <= n {
            skip_object_members_exec(s, n, nx, true)
        } else {
            None
        }
    } else if c == '[' {
        let nx = skip_ws_exec(s, n, i + 1);
        if i < nx && nx <= n {
            skip_array_items_exec(s, n, nx, true)
        } else {
            None
        }
    } else {
        skip_scalar_exec(s, n, i)
    }
}

/// Character-for-character equality of two string slices.
pub fn str_eqx(a: &str, b: &str) -> (r: bool)
    ensures
        r == (a@ == b@),
{
    let na = a.unicode_len();
    let nb = b.unicode_len();
    if na != nb {
        proof {
            assert(a@.len() != b@.len());
        }
        return false;
    }
    let mut i: usize = 0;
    while i < na
        invariant
            na == a@.len(),
            na == b@.len(),
            i <= na,
            forall|k: int| 0 <= k < i ==> a@[k] == b@[k],
        decreases na - i,
    {
        let ca = a.get_char(i);
        let cb = b.get_char(i);
        if ca != cb {
            return false;
        }
        i = i + 1;
    }
    proof {
        assert(a@ =~= b@);
    }
    true
}

/// Builds an [`AppInfo`] once both required counters were seen.
pub open spec fn app_info_finish(et: Option<i64>, nb: Option<i64>, j: int) -> Option<
    (AppInfo, int),
> {
    match (et, nb) {
        (Option::Some(e), Option::Some(b)) => Some((AppInfo { elapsed_time: e, num_bytes: b }, j)),
        _ => None,
    }
}

/// One member value of an `AppInfo` object, at `i` with key `k`.
pub open spec fn app_member_value(s: Seq<char>, i: int, k: Seq<char>, et: Option<i64>, nb: Option<
    i64,
>) -> Option<(Option<i64>, Option<i64>, int)> {
    if k == "ElapsedTime"@ {
        match spec_parse_int(s, i) {
            Option::None => None,
            Option::Some((v, j)) => Some((Some(v), nb, j)),
        }
    } else if k == "NumBytes"@ {
        match spec_parse_int(s, i) {
            Option::None => None,
            Option::Some((v, j)) => Some((et, Some(v), j)),
        }
    } else {
        match spec_skip_value(s, i) {
            Option::None => None,
            Option::Some(j) => Some((et, nb, j)),
        }
    }
}

/// The members of an `AppInfo` object continued at `i`.
pub open spec fn spec_parse_app_info_members(
    s: Seq<char>,
    i: int,
    et: Option<i64>,
    nb: Option<i64>,
    first: bool,
) -> Option<(AppInfo, int)>
    decreases s.len() - i,
{
    if i < 0 || i >= s.len() {
        None
    } else if first && s[i] == '}' {
        app_info_finish(et, nb, i + 1)
    } else {
        match spec_parse_string(s, i) {
            Option::None => None,
            Option::Some((k, i2)) => {
                let i3 = skip_ws(s, i2);
                if i3 < s.len() && s[i3] == ':' {
                    let i4 = skip_ws(s, i3 + 1);
                    match app_member_value(s, i4, k, et, nb) {
                        Option::None => None,
                        Option::Some((et2, nb2, j)) => {
                            let j2 = skip_ws(s, j);
                            if j2 < s.len() && s[j2] == '}' {
                                app_info_finish(et2, nb2, j2 + 1)
                            } else if j2 < s.len() && s[j2] == ',' {
                                let nx = skip_ws(s, j2 + 1);
                                if i < nx && nx <= s.len() {
                                    spec_parse_app_info_members(s, nx, et2, nb2, false)
                                } else {
                                    None
                                }
                            } else {
                                None
                            }
                        },
                    }
                } else {
                    None
                }
            },
        }
    }
}

/// An `AppInfo` object at `i`: the record and the position after the
/// closing brace.
pub open spec fn spec_parse_app_info(s: Seq<char>, i: int) -> Option<(AppInfo, int)> {
    if 0 <= i < s.len() && s[i] == '{' {
        spec_parse_app_info_members(s, skip_ws(s, i + 1), None, None, true)
    } else {
        None
    }
}

/// Exec mirror of [`spec_parse_app_info_members`].
fn parse_app_info_members(s: &str, n: usize, i: usize, et: Option<i64>, nb: Option<i64>, first: bool)
    -> (r: Option<(AppInfo, usize)>)
    requires
        n == s@.len(),
        i <= n,
    ensures
        match spec_parse_app_info_members(s@, i as int, et, nb, first) {
            Option::None => r is None,
            Option::Some((v, j)) => r is Some && r.unwrap().0 == v && r.unwrap().1 == j && j
                <= n,
        },
    decreases n - i,
{
    proof {
        lemma_skip_ws(s@, i as int);
    }
    if i >= n {
        return None;
    }
    if first && s.get_char(i) == '}' {
        return match (et, nb) {
            (Some(e), Some(b)) => Some((AppInfo { elapsed_time: e, num_bytes: b }, i + 1)),
            _ => None,
        };
    }
    match parse_json_string(s, n, i) {
        Option::None => None,
        Option::Some((k, i2)) => {
            let i3 = skip_ws_exec(s, n, i2);
            if i3 < n && s.get_char(i3) == ':' {
                let i4 = skip_ws_exec(s, n, i3 + 1);
                let stepped: Option<(Option<i64>, Option<i64>, usize)> = if str_eqx(
                    k.as_str(),
                    "ElapsedTime",
                ) {
                    match parse_int_exec(s, n, i4) {
                        Option::None => None,
                        Option::Some((v, j)) => Some((Some(v), nb, j)),
                    }
                } else if str_eqx(k.as_str(), "NumBytes") {
                    match parse_int_exec(s, n, i4) {
                        Option::None => None,
                        Option::Some((v, j)) => Some((et, Some(v), j)),
                    }
                } else {
                    match skip_value_exec(s, n, i4) {
                        Option::None => None,
                        Option::Some(j) => Some((et, nb, j)),
                    }
                };
                match stepped {
                    Option::None => None,
                    Option::Some((et2, nb2, j)) => {
                        let j2 = skip_ws_exec(s, n, j);
                        if j2 < n && s.get_char(j2) == '}' {
                            match (et2, nb2) {
                                (Some(e), Some(b)) => Some(
                                    (AppInfo { elapsed_time: e, num_bytes: b }, j2 + 1),
                                ),
                                _ => None,
                            }
                        } else if j2 < n && s.get_char(j2) == ',' {
                            let nx = skip_ws_exec(s, n, j2 + 1);
                            if i < nx && nx <= n {
                                parse_app_info_members(s, n, nx, et2, nb2, false)
                            } else {
                                None
                            }
                        } else {
                            None
                        }
                    },
                }
            } else {
                None
            }
        },
    }
}

/// Exec mirror of [`spec_parse_app_info`].
pub fn parse_app_info(s: &str, n: usize, i: usize) -> (r: Option<(AppInfo, usize)>)
    requires
        n == s@.len(),
        i <= n,
    ensures
        match spec_parse_app_info(s@, i as int) {
            Option::None => r is None,
            Option::Some((v, j)) => r is Some && r.unwrap().0 == v && r.unwrap().1 == j && j
                <= n,
        },
{
    if i < n && s.get_char(i) == '{' {
        proof {
            lemma_skip_ws(s@, i as int + 1);
        }
        let nx = skip_ws_exec(s, n, i + 1);
        parse_app_info_members(s, n, nx, None, None, true)
    } else {
        None
    }
}

/// Builds a [`ConnectionInfo`] once both required addresses were seen.
pub open spec fn conn_info_finish(
    client: Option<Seq<char>>,
    server: Option<Seq<char>>,
    uuid: Option<Seq<char>>,
    start_time: Option<Seq<char>>,
    j: int,
) -> Option<(SpecConnInfo, int)> {
    match (client, server) {
        (Option::Some(c), Option::Some(sv)) => Some(
            (SpecConnInfo { client: c, server: sv, uuid, start_time }, j),
        ),
        _ => None,
    }
}

/// The abstract value of a parsed connection record: its strings as
/// character sequences.
pub struct SpecConnInfo {
    /// Client address.
    pub client: Seq<char>,
    /// Server address.
    pub server: Seq<char>,
    /// Test identifier, if present.
    pub uuid: Option<Seq<char>>,
    /// Start time, if present.
    pub start_time: Option<Seq<char>>,
}

/// Whether the exec connection record carries exactly the abstract one.
pub open spec fn conn_info_matches(c: ConnectionInfo, v: SpecConnInfo) -> bool {
    &&& c.client@ == v.client
    &&& c.server@ == v.server
    &&& match (c.uuid, v.uuid) {
        (Option::None, Option::None) => true,
        (Option::Some(x), Option::Some(y)) => x@ == y,
        _ => false,
    }
    &&& match (c.start_time, v.start_time) {
        (Option::None, Option::None) => true,
        (Option::Some(x), Option::Some(y)) => x@ == y,
        _ => false,
    }
}

/// One member value of a `ConnectionInfo` object, at `i` with key `k`.
pub open spec fn conn_member_value(
    s: Seq<char>,
    i: int,
    k: Seq<char>,
    client: Option<Seq<char>>,
    server: Option<Seq<char>>,
    uuid: Option<Seq<char>>,
    start_time: Option<Seq<char>>,
) -> Option<(Option<Seq<char>>, Option<Seq<char>>, Option<Seq<char>>, Option<Seq<char>>, int)> {
    if k == "Client"@ {
        match spec_parse_string(s, i) {
            Option::None => None,
            Option::Some((v, j)) => Some((Some(v), server, uuid, start_time, j)),
        }
    } else if k == "Server"@ {
        match spec_parse_string(s, i) {
            Option::None => None,
            Option::Some((v, j)) => Some((client, Some(v), uuid, start_time, j)),
        }
    } else if k == "UUID"@ {
        match spec_parse_string(s, i) {
            Option::None => None,
            Option::Some((v, j)) => Some((client, server, Some(v), start_time, j)),
        }
    } else if k == "StartTime"@ {
        match spec_parse_string(s, i) {
            Option::None => None,
            Option::Some((v, j)) => Some((client, server, uuid, Some(v), j)),
        }
    } else {
        match spec_skip_value(s, i) {
            Option::None => None,
            Option::Some(j) => Some((client, server, uuid, start_time, j)),
        }
    }
}

/// The members of a `ConnectionInfo` object continued at `i`.
pub open spec fn spec_parse_conn_info_members(
    s: Seq<char>,
    i: int,
    client: Option<Seq<char>>,
    server: Option<Seq<char>>,
    uuid: Option<Seq<char>>,
    start_time: Option<Seq<char>>,
    first: bool,
) -> Option<(SpecConnInfo, int)>
    decreases s.len() - i,
{
    if i < 0 || i >= s.len() {
        None
    } else if first && s[i] == '}' {
        conn_info_finish(client, server, uuid, start_time, i + 1)
    } else {
        match spec_parse_string(s, i) {
            Option::None => None,
            Option::Some((k, i2)) => {
                let i3 = skip_ws(s, i2);
                if i3 < s.len() && s[i3] == ':' {
                    let i4 = skip_ws(s, i3 + 1);
                    match conn_member_value(s, i4, k, client, server, uuid, start_time) {
                        Option::None => None,
                        Option::Some((c2, s2, u2, t2, j)) => {
                            let j2 = skip_ws(s, j);
                            if j2 < s.len() && s[j2] == '}' {
                                conn_info_finish(c2, s2, u2, t2, j2 + 1)
                            } else if j2 < s.len() && s[j2] == ',' {
                                let nx = skip_ws(s, j2 + 1);
                                if i < nx && nx <= s.len() {
                                    spec_parse_conn_info_members(s, nx, c2, s2, u2, t2, false)
                                } else {
                                    None
                                }
                            } else {
                                None
                            }
                        },
                    }
                } else {
                    None
                }
            },
        }
    }
}

/// A `ConnectionInfo` object at `i`.
pub open spec fn spec_parse_conn_info(s: Seq<char>, i: int) -> Option<(SpecConnInfo, int)> {
    if 0 <= i < s.len() && s[i] == '{' {
        spec_parse_conn_info_members(s, skip_ws(s, i + 1), None, None, None, None, true)
    } else {
        None
    }
}

/// Exec mirror of [`spec_parse_conn_info_members`].
#[verifier::rlimit(100)]
fn parse_conn_info_members(
    s: &str,
    n: usize,
    i: usize,
    client: Option<String>,
    server: Option<String>,
    uuid: Option<String>,
    start_time: Option<String>,
    first: bool,
) -> (r: Option<(ConnectionInfo, usize)>)
    requires
        n == s@.len(),
        i <= n,
    ensures
        match spec_parse_conn_info_members(
            s@,
            i as int,
            match client {
                Option::None => None,
                Option::Some(x) => Some(x@),
            },
            match server {
                Option::None => None,
                Option::Some(x) => Some(x@),
            },
            match uuid {
                Option::None => None,
                Option::Some(x) => Some(x@),
            },
            match start_time {
                Option::None => None,
                Option::Some(x) => Some(x@),
            },
            first,
        ) {
            Option::None => r is None,
            Option::Some((v, j)) => r is Some && conn_info_matches(r.unwrap().0, v)
                && r.unwrap().1 == j && j <= n,
        },
    decreases n - i,
{
    if i >= n {
        return None;
    }
    if first && s.get_char(i) == '}' {
        return match (client, server) {
            (Some(c), Some(sv)) => Some(
                (ConnectionInfo { client: c, server: sv, uuid, start_time }, i + 1),
            ),
            _ => None,
        };
    }
    match parse_json_string(s, n, i) {
        Option::None => None,
        Option::Some((k, i2)) => {
            let i3 = skip_ws_exec(s, n, i2);
            if i3 < n && s.get_char(i3) == ':' {
                let i4 = skip_ws_exec(s, n, i3 + 1);
                let stepped: Option<
                    (Option<String>, Option<String>, Option<String>, Option<String>, usize),
                > = if str_eqx(k.as_str(), "Client") {
                    match parse_json_string(s, n, i4) {
                        Option::None => None,
                        Option::Some((v, j)) => Some((Some(v), server, uuid, start_time, j)),
                    }
                } else if str_eqx(k.as_str(), "Server") {
                    match parse_json_string(s, n, i4) {
                        Option::None => None,
                        Option::Some((v, j)) => Some((client, Some(v), uuid, start_time, j)),
                    }
                } else if str_eqx(k.as_str(), "UUID") {
                    match parse_json_string(s, n, i4) {
                        Option::None => None,
                        Option::Some((v, j)) => Some((client, server, Some(v), start_time, j)),
                    }
                } else if str_eqx(k.as_str(), "StartTime") {
                    match parse_json_string(s, n, i4) {
                        Option::None => None,
                        Option::Some((v, j)) => Some((client, server, uuid, Some(v), j)),
                    }
                } else {
                    match skip_value_exec(s, n, i4) {
                        Option::None => None,
                        Option::Some(j) => Some((client, server, uuid, start_time, j)),
                    }
                };
                match stepped {
                    Option::None => None,
                    Option::Some((c2, s2, u2, t2, j)) => {
                        let j2 = skip_ws_exec(s, n, j);
                        if j2 < n && s.get_char(j2) == '}' {
                            match (c2, s2) {
                                (Some(c), Some(sv)) => Some(
                                    (
                                        ConnectionInfo {
                                            client: c,
                                            server: sv,
                                            uuid: u2,
                                            start_time: t2,
                                        },
                                        j2 + 1,
                                    ),
                                ),
                                _ => None,
                            }
                        } else if j2 < n && s.get_char(j2) == ',' {
                            let nx = skip_ws_exec(s, n, j2 + 1);
                            if i < nx && nx <= n {
                                parse_conn_info_members(s, n, nx, c2, s2, u2, t2, false)
                            } else {
                                None
                            }
                        } else {
                            None
                        }
                    },
                }
            } else {
                None
            }
        },
    }
}

/// Exec mirror of [`spec_parse_conn_info`].
pub fn parse_conn_info(s: &str, n: usize, i: usize) -> (r: Option<(ConnectionInfo, usize)>)
    requires
        n == s@.len(),
        i <= n,
    ensures
        match spec_parse_conn_info(s@, i as int) {
            Option::None => r is None,
            Option::Some((v, j)) => r is Some && conn_info_matches(r.unwrap().0, v)
                && r.unwrap().1 == j && j <= n,
        },
{
    if i < n && s.get_char(i) == '{' {
        let nx = skip_ws_exec(s, n, i + 1);
        parse_conn_info_members(s, n, nx, None, None, None, None, true)
    } else {
        None
    }
}

/// One member value of a `TCPInfo` object, at `i` with key `k`.
pub open spec fn tcp_member_value(s: Seq<char>, i: int, k: Seq<char>, acc: TCPInfo) -> Option<
    (TCPInfo, int),
> {
    if k == "BusyTime"@ {
        match spec_parse_int(s, i) {
            Option::None => None,
            Option::Some((v, j)) => Some((TCPInfo { busy_time: Some(v), ..acc }, j)),
        }
    } else if k == "BytesAcked"@ {
        match spec_parse_int(s, i) {
            Option::None => None,
            Option::Some((v, j)) => Some((TCPInfo { bytes_acked: Some(v), ..acc }, j)),
        }
    } else if k == "BytesReceived"@ {
        match spec_parse_int(s, i) {
            Option::None => None,
            Option::Some((v, j)) => Some((TCPInfo { bytes_received: Some(v), ..acc }, j)),
        }
    } else if k == "BytesSent"@ {
        match spec_parse_int(s, i) {
            Option::None => None,
            Option::Some((v, j)) => Some((TCPInfo { bytes_sent: Some(v), ..acc }, j)),
        }
    } else if k == "BytesRetrans"@ {
        match spec_parse_int(s, i) {
            Option::None => None,
            Option::Some((v, j)) => Some((TCPInfo { bytes_retrans: Some(v), ..acc }, j)),
        }
    } else if k == "ElapsedTime"@ {
        match spec_parse_int(s, i) {
            Option::None => None,
            Option::Some((v, j)) => Some((TCPInfo { elapsed_time: Some(v), ..acc }, j)),
        }
    } else if k == "MinRTT"@ {
        match spec_parse_int(s, i) {
            Option::None => None,
            Option::Some((v, j)) => Some((TCPInfo { min_rtt: Some(v), ..acc }, j)),
        }
    } else if k == "RTT"@ {
        match spec_parse_int(s, i) {
            Option::None => None,
            Option::Some((v, j)) => Some((TCPInfo { rtt: Some(v), ..acc }, j)),
        }
    } else if k == "RTTVar"@ {
        match spec_parse_int(s, i) {
            Option::None => None,
            Option::Some((v, j)) => Some((TCPInfo { rtt_var: Some(v), ..acc }, j)),
        }
    } else if k == "RWndLimited"@ {
        match spec_parse_int(s, i) {
            Option::None => None,
            Option::Some((v, j)) => Some((TCPInfo { rwnd_limited: Some(v), ..acc }, j)),
        }
    } else if k == "SndBufLimited"@ {
        match spec_parse_int(s, i) {
            Option::None => None,
            Option::Some((v, j)) => Some((TCPInfo { snd_buf_limited: Some(v), ..acc }, j)),
        }
    } else {
        match spec_skip_value(s, i) {
            Option::None => None,
            Option::Some(j) => Some((acc, j)),
        }
    }
}

/// The members of a `TCPInfo` object continued at `i`.
pub open spec fn spec_parse_tcp_info_members(s: Seq<char>, i: int, acc: TCPInfo, first: bool)
    -> Option<(TCPInfo, int)>
    decreases s.len() - i,
{
    if i < 0 || i >= s.len() {
        None
    } else if first && s[i] == '}' {
        Some((acc, i + 1))
    } else {
        match spec_parse_string(s, i) {
            Option::None => None,
            Option::Some((k, i2)) => {
                let i3 = skip_ws(s, i2);
                if i3 < s.len() && s[i3] == ':' {
                    let i4 = skip_ws(s, i3 + 1);
                    match tcp_member_value(s, i4, k, acc) {
                        Option::None => None,
                        Option::Some((acc2, j)) => {
                            let j2 = skip_ws(s, j);
                            if j2 < s.len() && s[j2] == '}' {
                                Some((acc2, j2 + 1))
                            } else if j2 < s.len() && s[j2] == ',' {
                                let nx = skip_ws(s, j2 + 1);
                                if i < nx && nx <= s.len() {
                                    spec_parse_tcp_info_members(s, nx, acc2, false)
                                } else {
                                    None
                                }
                            } else {
                                None
                            }
                        },
                    }
                } else {
                    None
                }
            },
        }
    }
}

/// A `TCPInfo` object at `i`.
pub open spec fn spec_parse_tcp_info(s: Seq<char>, i: int) -> Option<(TCPInfo, int)> {
    if 0 <= i < s.len() && s[i] == '{' {
        spec_parse_tcp_info_members(s, skip_ws(s, i + 1), spec_default_tcp_info(), true)
    } else {
        None
    }
}

/// Exec mirror of [`spec_parse_tcp_info_members`].
fn parse_tcp_info_members(s: &str, n: usize, i: usize, acc: TCPInfo, first: bool) -> (r: Option<
    (TCPInfo, usize),
>)
    requires
        n == s@.len(),
        i <= n,
    ensures
        match spec_parse_tcp_info_members(s@, i as int, acc, first) {
            Option::None => r is None,
            Option::Some((v, j)) => r is Some && r.unwrap().0 == v && r.unwrap().1 == j && j
                <= n,
        },
    decreases n - i,
{
    if i >= n {
        return None;
    }
    if first && s.get_char(i) == '}' {
        return Some((acc, i + 1));
    }
    match parse_json_string(s, n, i) {
        Option::None => None,
        Option::Some((k, i2)) => {
            let i3 = skip_ws_exec(s, n, i2);
            if i3 < n && s.get_char(i3) == ':' {
                let i4 = skip_ws_exec(s, n, i3 + 1);
                let stepped: Option<(TCPInfo, usize)> = if str_eqx(k.as_str(), "BusyTime") {
                    match parse_int_exec(s, n, i4) {
                        Option::None => None,
                        Option::Some((v, j)) => Some((TCPInfo { busy_time: Some(v), ..acc }, j)),
                    }
                } else if str_eqx(k.as_str(), "BytesAcked") {
                    match parse_int_exec(s, n, i4) {
                        Option::None => None,
                        Option::Some((v, j)) => Some((TCPInfo { bytes_acked: Some(v), ..acc }, j)),
                    }
                } else if str_eqx(k.as_str(), "BytesReceived") {
                    match parse_int_exec(s, n, i4) {
                        Option::None => None,
                        Option::Some((v, j)) => Some(
                            (TCPInfo { bytes_received: Some(v), ..acc }, j),
                        ),
                    }
                } else if str_eqx(k.as_str(), "BytesSent") {
                    match parse_int_exec(s, n, i4) {
                        Option::None => None,
                        Option::Some((v, j)) => Some((TCPInfo { bytes_sent: Some(v), ..acc }, j)),
                    }
                } else if str_eqx(k.as_str(), "BytesRetrans") {
                    match parse_int_exec(s, n, i4) {
                        Option::None => None,
                        Option::Some((v, j)) => Some((TCPInfo { bytes_retrans: Some(v), ..acc }, j)),
                    }
                } else if str_eqx(k.as_str(), "ElapsedTime") {
                    match parse_int_exec(s, n, i4) {
                        Option::None => None,
                        Option::Some((v, j)) => Some((TCPInfo { elapsed_time: Some(v), ..acc }, j)),
                    }
                } else if str_eqx(k.as_str(), "MinRTT") {
                    match parse_int_exec(s, n, i4) {
                        Option::None => None,
                        Option::Some((v, j)) => Some((TCPInfo { min_rtt: Some(v), ..acc }, j)),
                    }
                } else if str_eqx(k.as_str(), "RTT") {
                    match parse_int_exec(s, n, i4) {
                        Option::None => None,
                        Option::Some((v, j)) => Some((TCPInfo { rtt: Some(v), ..acc }, j)),
                    }
                } else if str_eqx(k.as_str(), "RTTVar") {
                    match parse_int_exec(s, n, i4) {
                        Option::None => None,
                        Option::Some((v, j)) => Some((TCPInfo { rtt_var: Some(v), ..acc }, j)),
                    }
                } else if str_eqx(k.as_str(), "RWndLimited") {
                    match parse_int_exec(s, n, i4) {
                        Option::None => None,
                        Option::Some((v, j)) => Some((TCPInfo { rwnd_limited: Some(v), ..acc }, j)),
                    }
                } else if str_eqx(k.as_str(), "SndBufLimited") {
                    match parse_int_exec(s, n, i4) {
                        Option::None => None,
                        Option::Some((v, j)) => Some(
                            (TCPInfo { snd_buf_limited: Some(v), ..acc }, j),
                        ),
                    }
                } else {
                    match skip_value_exec(s, n, i4) {
                        Option::None => None,
                        Option::Some(j) => Some((acc, j)),
                    }
                };
                match stepped {
                    Option::None => None,
                    Option::Some((acc2, j)) => {
                        let j2 = skip_ws_exec(s, n, j);
                        if j2 < n && s.get_char(j2) == '}' {
                            Some((acc2, j2 + 1))
                        } else if j2 < n && s.get_char(j2) == ',' {
                            let nx = skip_ws_exec(s, n, j2 + 1);
                            if i < nx && nx <= n {
                                parse_tcp_info_members(s, n, nx, acc2, false)
                            } else {
                                None
                            }
                        } else {
                            None
                        }
                    },
                }
            } else {
                None
            }
        },
    }
}

/// Exec mirror of [`spec_parse_tcp_info`].
pub fn parse_tcp_info(s: &str, n: usize, i: usize) -> (r: Option<(TCPInfo, usize)>)
    requires
        n == s@.len(),
        i <= n,
    ensures
        match spec_parse_tcp_info(s@, i as int) {
            Option::None => r is None,
            Option::Some((v, j)) => r is Some && r.unwrap().0 == v && r.unwrap().1 == j && j
                <= n,
        },
{
    if i < n && s.get_char(i) == '{' {
        let nx = skip_ws_exec(s, n, i + 1);
        let d = TCPInfo {
            busy_time: None,
            bytes_acked: None,
            bytes_received: None,
            bytes_sent: None,
            bytes_retrans: None,
            elapsed_time: None,
            min_rtt: None,
            rtt: None,
            rtt_var: None,
            rwnd_limited: None,
            snd_buf_limited: None,
        };
        parse_tcp_info_members(s, n, nx, d, true)
    } else {
        None
    }
}

/// The abstract value of a parsed measurement: its strings as
/// character sequences.
#[verifier::ext_equal]
pub struct SpecMeasurement {
    /// Application counters.
    pub app_info: Option<AppInfo>,
    /// Connection record.
    pub connection_info: Option<SpecConnInfo>,
    /// Producing side.
    pub origin: Option<Origin>,
    /// Subtest.
    pub test: Option<TestKind>,
    /// Kernel metrics.
    pub tcp_info: Option<TCPInfo>,
}

/// The abstraction of an exec connection record.
pub open spec fn abs_conn_info(c: ConnectionInfo) -> SpecConnInfo {
    SpecConnInfo {
        client: c.client@,
        server: c.server@,
        uuid: match c.uuid {
            Option::None => None,
            Option::Some(x) => Some(x@),
        },
        start_time: match c.start_time {
            Option::None => None,
            Option::Some(x) => Some(x@),
        },
    }
}

/// The abstraction of an exec measurement.
pub open spec fn abs_measurement(m: Measurement) -> SpecMeasurement {
    SpecMeasurement {
        app_info: m.app_info,
        connection_info: match m.connection_info {
            Option::None => None,
            Option::Some(c) => Some(abs_conn_info(c)),
        },
        origin: m.origin,
        test: m.test,
        tcp_info: m.tcp_info,
    }
}

/// Whether the exec measurement carries exactly the abstract one.
pub open spec fn measurement_matches(m: Measurement, v: SpecMeasurement) -> bool {
    abs_measurement(m) == v
}

/// The abstract measurement with no fields set.
pub open spec fn spec_empty_measurement() -> SpecMeasurement {
    SpecMeasurement { app_info: None, connection_info: None, origin: None, test: None, tcp_info: None }
}

/// One member value of a measurement object, at `i` with key `k`.
pub open spec fn meas_member_value(s: Seq<char>, i: int, k: Seq<char>, acc: SpecMeasurement)
    -> Option<(SpecMeasurement, int)> {
    if k == "AppInfo"@ {
        match spec_parse_app_info(s, i) {
            Option::None => None,
            Option::Some((v, j)) => Some((SpecMeasurement { app_info: Some(v), ..acc }, j)),
        }
    } else if k == "ConnectionInfo"@ {
        match spec_parse_conn_info(s, i) {
            Option::None => None,
            Option::Some((v, j)) => Some((SpecMeasurement { connection_info: Some(v), ..acc }, j)),
        }
    } else if k == "Origin"@ {
        match spec_parse_string(s, i) {
            Option::None => None,
            Option::Some((v, j)) => if v == "client"@ {
                Some((SpecMeasurement { origin: Some(Origin::Client), ..acc }, j))
            } else if v == "server"@ {
                Some((SpecMeasurement { origin: Some(Origin::Server), ..acc }, j))
            } else {
                None
            },
        }
    } else if k == "Test"@ {
        match spec_parse_string(s, i) {
            Option::None => None,
            Option::Some((v, j)) => if v == "download"@ {
                Some((SpecMeasurement { test: Some(TestKind::Download), ..acc }, j))
            } else if v == "upload"@ {
                Some((SpecMeasurement { test: Some(TestKind::Upload), ..acc }, j))
            } else {
                None
            },
        }
    } else if k == "TCPInfo"@ {
        match spec_parse_tcp_info(s, i) {
            Option::None => None,
            Option::Some((v, j)) => Some((SpecMeasurement { tcp_info: Some(v), ..acc }, j)),
        }
    } else {
        match spec_skip_value(s, i) {
            Option::None => None,
            Option::Some(j) => Some((acc, j)),
        }
    }
}

/// The members of a measurement object continued at `i`.
pub open spec fn spec_parse_measurement_members(
    s: Seq<char>,
    i: int,
    acc: SpecMeasurement,
    first: bool,
) -> Option<(SpecMeasurement, int)>
    decreases s.len() - i,
{
    if i < 0 || i >= s.len() {
        None
    } else if first && s[i] == '}' {
        Some((acc, i + 1))
    } else {
        match spec_parse_string(s, i) {
            Option::None => None,
            Option::Some((k, i2)) => {
                let i3 = skip_ws(s, i2);
                if i3 < s.len() && s[i3] == ':' {
                    let i4 = skip_ws(s, i3 + 1);
                    match meas_member_value(s, i4, k, acc) {
                        Option::None => None,
                        Option::Some((acc2, j)) => {
                            let j2 = skip_ws(s, j);
                            if j2 < s.len() && s[j2] == '}' {
                                Some((acc2, j2 + 1))
                            } else if j2 < s.len() && s[j2] == ',' {
                                let nx = skip_ws(s, j2 + 1);
                                if i < nx && nx <= s.len() {
                                    spec_parse_measurement_members(s, nx, acc2, false)
                                } else {
                                    None
                                }
                            } else {
                                None
                            }
                        },
                    }
                } else {
                    None
                }
            },
        }
    }
}

/// A whole measurement text: optional surrounding whitespace, one
/// object, nothing after it.
pub open spec fn spec_parse_measurement_text(s: Seq<char>) -> Option<SpecMeasurement> {
    let i = skip_ws(s, 0);
    if i < s.len() && s[i] == '{' {
        match spec_parse_measurement_members(s, skip_ws(s, i + 1), spec_empty_measurement(), true) {
            Option::None => None,
            Option::Some((m, j)) => if skip_ws(s, j) == s.len() {
                Some(m)
            } else {
                None
            },
        }
    } else {
        None
    }
}

/// Exec mirror of [`spec_parse_measurement_members`].
fn parse_measurement_members(s: &str, n: usize, i: usize, acc: Measurement, first: bool) -> (r:
    Option<(Measurement, usize)>)
    requires
        n == s@.len(),
        i <= n,
    ensures
        match spec_parse_measurement_members(s@, i as int, abs_measurement(acc), first) {
            Option::None => r is None,
            Option::Some((v, j)) => r is Some && measurement_matches(r.unwrap().0, v)
                && r.unwrap().1 == j && j <= n,
        },
    decreases n - i,
{
    if i >= n {
        return None;
    }
    if first && s.get_char(i) == '}' {
        return Some((acc, i + 1));
    }
    match parse_json_string(s, n, i) {
        Option::None => None,
        Option::Some((k, i2)) => {
            let i3 = skip_ws_exec(s, n, i2);
            if i3 < n && s.get_char(i3) == ':' {
                let i4 = skip_ws_exec(s, n, i3 + 1);
                let ghost acc0 = abs_measurement(acc);
                let stepped: Option<(Measurement, usize)> = if str_eqx(k.as_str(), "AppInfo") {
                    match parse_app_info(s, n, i4) {
                        Option::None => None,
                        Option::Some((v, j)) => Some((Measurement { app_info: Some(v), ..acc }, j)),
                    }
                } else if str_eqx(k.as_str(), "ConnectionInfo") {
                    match parse_conn_info(s, n, i4) {
                        Option::None => None,
                        Option::Some((v, j)) => Some(
                            (Measurement { connection_info: Some(v), ..acc }, j),
                        ),
                    }
                } else if str_eqx(k.as_str(), "Origin") {
                    match parse_json_string(s, n, i4) {
                        Option::None => None,
                        Option::Some((v, j)) => if str_eqx(v.as_str(), "client") {
                            Some((Measurement { origin: Some(Origin::Client), ..acc }, j))
                        } else if str_eqx(v.as_str(), "server") {
                            Some((Measurement { origin: Some(Origin::Server), ..acc }, j))
                        } else {
                            None
                        },
                    }
                } else if str_eqx(k.as_str(), "Test") {
                    match parse_json_string(s, n, i4) {
                        Option::None => None,
                        Option::Some((v, j)) => if str_eqx(v.as_str(), "download") {
                            Some((Measurement { test: Some(TestKind::Download), ..acc }, j))
                        } else if str_eqx(v.as_str(), "upload") {
                            Some((Measurement { test: Some(TestKind::Upload), ..acc }, j))
                        } else {
                            None
                        },
                    }
                } else if str_eqx(k.as_str(), "TCPInfo") {
                    match parse_tcp_info(s, n, i4) {
                        Option::None => None,
                        Option::Some((v, j)) => Some((Measurement { tcp_info: Some(v), ..acc }, j)),
                    }
                } else {
                    match skip_value_exec(s, n, i4) {
                        Option::None => None,
                        Option::Some(j) => Some((acc, j)),
                    }
                };
                match stepped {
                    Option::None => {
                        assert(meas_member_value(s@, i4 as int, k@, acc0) is None);
                        None
                    },
                    Option::Some((acc2, j)) => {
                        proof {
                            assert(match meas_member_value(s@, i4 as int, k@, acc0) {
                                Option::None => false,
                                Option::Some((v2, j2)) => abs_measurement(acc2) =~= v2 && j2
                                    == j as int,
                            });
                        }
                        let j2 = skip_ws_exec(s, n, j);
                        if j2 < n && s.get_char(j2) == '}' {
                            Some((acc2, j2 + 1))
                        } else if j2 < n && s.get_char(j2) == ',' {
                            let nx = skip_ws_exec(s, n, j2 + 1);
                            if i < nx && nx <= n {
                                parse_measurement_members(s, n, nx, acc2, false)
                            } else {
                                None
                            }
                        } else {
                            None
                        }
                    },
                }
            } else {
                None
            }
        },
    }
}

/// Exec mirror of [`spec_parse_measurement_text`]: parses one whole
/// measurement frame.
pub fn measurement_from_json(s: &str) -> (r: Option<Measurement>)
    ensures
        match spec_parse_measurement_text(s@) {
            Option::None => r is None,
            Option::Some(v) => r is Some && measurement_matches(r.unwrap(), v),
        },
{
    let n = s.unicode_len();
    let i = skip_ws_exec(s, n, 0);
    if i < n && s.get_char(i) == '{' {
        let nx = skip_ws_exec(s, n, i + 1);
        let empty = Measurement {
            app_info: None,
            connection_info: None,
            origin: None,
            test: None,
            tcp_info: None,
        };
        assert(abs_measurement(empty) =~= spec_empty_measurement());
        match parse_measurement_members(s, n, nx, empty, true) {
            Option::None => None,
            Option::Some((m, j)) => {
                let e = skip_ws_exec(s, n, j);
                if e == n {
                    Some(m)
                } else {
                    None
                }
            },
        }
    } else {
        None
    }
}

/// The comma-joined concatenation of `fields`.
pub open spec fn joined(fields: Seq<Seq<char>>) -> Seq<char>
    decreases fields.len(),
{
    if fields.len() == 0 {
        Seq::empty()
    } else if fields.len() == 1 {
        fields[0]
    } else {
        fields[0] + seq![','] + joined(fields.drop_first())
    }
}

/// A JSON object built from already serialized members.
pub open spec fn obj(fields: Seq<Seq<char>>) -> Seq<char> {
    seq!['{'] + joined(fields) + seq!['}']
}

/// One serialized object member.
pub open spec fn entry(k: Seq<char>, v: Seq<char>) -> Seq<char> {
    ser_string(k) + seq![':'] + v
}

/// Appending a field to a non-empty list appends a comma and the field
/// to the joined text.
pub proof fn lemma_joined_push(fields: Seq<Seq<char>>, f: Seq<char>)
    ensures
        joined(fields.push(f)) == if fields.len() == 0 {
            f
        } else {
            joined(fields) + seq![','] + f
        },
    decreases fields.len(),
{
    let fs = fields.push(f);
    if fields.len() == 0 {
        assert(fs.len() == 1);
        assert(joined(fs) == fs[0]);
        assert(fs[0] == f);
    } else {
        assert(fs.drop_first() =~= fields.drop_first().push(f));
        lemma_joined_push(fields.drop_first(), f);
        if fields.len() == 1 {
            assert(joined(fs) == fs[0] + seq![','] + joined(fs.drop_first()));
            assert(joined(fields) == fields[0]);
            assert(joined(fs) =~= joined(fields) + seq![','] + f);
        } else {
            assert(joined(fs) == fs[0] + seq![','] + joined(fs.drop_first()));
            assert(joined(fields) == fields[0] + seq![','] + joined(fields.drop_first()));
            assert(joined(fs) =~= joined(fields) + seq![','] + f);
        }
    }
}

/// The view of each entry string.
pub open spec fn entry_views(entries: Seq<String>) -> Seq<Seq<char>> {
    entries.map_values(|e: String| e@)
}

/// Appends a JSON object holding the given serialized members to `out`.
pub(crate) fn push_obj(out: &mut String, entries: Vec<String>)
    ensures
        final(out)@ == old(out)@ + obj(entry_views(entries@)),
{
    out.push('{');
    let m = entries.len();
    let mut idx: usize = 0;
    while idx < m
        invariant
            m == entries@.len(),
            idx <= m,
            out@ == old(out)@ + seq!['{'] + joined(entry_views(entries@.subrange(0, idx as int))),
        decreases m - idx,
    {
        if idx > 0 {
            out.push(',');
        }
        let e: &String = &entries[idx];
        out.append(e.as_str());
        proof {
            let prev = entry_views(entries@.subrange(0, idx as int));
            let now = entry_views(entries@.subrange(0, idx as int + 1));
            assert(entries@.subrange(0, idx as int + 1) =~= entries@.subrange(0, idx as int).push(
                entries@[idx as int],
            ));
            assert(now =~= prev.push(entries@[idx as int]@));
            lemma_joined_push(prev, entries@[idx as int]@);
            assert(prev.len() == idx);
            assert(out@ =~= old(out)@ + seq!['{'] + joined(now));
        }
        idx = idx + 1;
    }
    out.push('}');
    proof {
        assert(entries@.subrange(0, m as int) =~= entries@);
        assert(final(out)@ =~= old(out)@ + obj(entry_views(entries@)));
    }
}

/// The serialized form of application counters.
pub open spec fn ser_app_info(a: AppInfo) -> Seq<char> {
    obj(
        seq![
            entry("ElapsedTime"@, crate::text::spec_dec_int(a.elapsed_time as int)),
            entry("NumBytes"@, crate::text::spec_dec_int(a.num_bytes as int)),
        ],
    )
}

/// The serialized members of a connection record.
pub open spec fn conn_info_fields(c: SpecConnInfo) -> Seq<Seq<char>> {
    seq![entry("Client"@, ser_string(c.client)), entry("Server"@, ser_string(c.server))] + (
    match c.uuid {
        Option::None => Seq::empty(),
        Option::Some(u) => seq![entry("UUID"@, ser_string(u))],
    }) + (match c.start_time {
        Option::None => Seq::empty(),
        Option::Some(t) => seq![entry("StartTime"@, ser_string(t))],
    })
}

/// The serialized form of a connection record.
pub open spec fn ser_conn_info(c: SpecConnInfo) -> Seq<char> {
    obj(conn_info_fields(c))
}

/// A member for an optional kernel counter: absent fields are omitted.
pub open spec fn opt_entry(v: Option<i64>, k: Seq<char>) -> Seq<Seq<char>> {
    match v {
        Option::None => Seq::empty(),
        Option::Some(x) => seq![entry(k, crate::text::spec_dec_int(x as int))],
    }
}

/// The serialized members of a kernel-metrics record.
pub open spec fn tcp_info_fields(t: TCPInfo) -> Seq<Seq<char>> {
    opt_entry(t.busy_time, "BusyTime"@) + opt_entry(t.bytes_acked, "BytesAcked"@) + opt_entry(
        t.bytes_received,
        "BytesReceived"@,
    ) + opt_entry(t.bytes_sent, "BytesSent"@) + opt_entry(t.bytes_retrans, "BytesRetrans"@)
        + opt_entry(t.elapsed_time, "ElapsedTime"@) + opt_entry(t.min_rtt, "MinRTT"@) + opt_entry(
        t.rtt,
        "RTT"@,
    ) + opt_entry(t.rtt_var, "RTTVar"@) + opt_entry(t.rwnd_limited, "RWndLimited"@) + opt_entry(
        t.snd_buf_limited,
        "SndBufLimited"@,
    )
}

/// The serialized form of a kernel-metrics record.
pub open spec fn ser_tcp_info(t: TCPInfo) -> Seq<char> {
    obj(tcp_info_fields(t))
}

/// The wire name of a producing side.
pub open spec fn origin_name(o: Origin) -> Seq<char> {
    match o {
        Origin::Client => "client"@,
        Origin::Server => "server"@,
    }
}

/// The wire name of a subtest.
pub open spec fn test_name(t: TestKind) -> Seq<char> {
    match t {
        TestKind::Download => "download"@,
        TestKind::Upload => "upload"@,
    }
}

/// The serialized members of a measurement, in declaration order,
/// absent fields omitted.
pub open spec fn measurement_fields(m: SpecMeasurement) -> Seq<Seq<char>> {
    (match m.app_info {
        Option::None => Seq::empty(),
        Option::Some(a) => seq![entry("AppInfo"@, ser_app_info(a))],
    }) + (match m.connection_info {
        Option::None => Seq::empty(),
        Option::Some(c) => seq![entry("ConnectionInfo"@, ser_conn_info(c))],
    }) + (match m.origin {
        Option::None => Seq::empty(),
        Option::Some(o) => seq![entry("Origin"@, ser_string(origin_name(o)))],
    }) + (match m.test {
        Option::None => Seq::empty(),
        Option::Some(t) => seq![entry("Test"@, ser_string(test_name(t)))],
    }) + (match m.tcp_info {
        Option::None => Seq::empty(),
        Option::Some(t) => seq![entry("TCPInfo"@, ser_tcp_info(t))],
    })
}

/// The canonical serialized form of a measurement.
pub open spec fn ser_measurement(m: SpecMeasurement) -> Seq<char> {
    obj(measurement_fields(m))
}

/// A measurement with no fields set serializes to the empty structure.
pub proof fn lemma_empty_measurement_serializes_empty()
    ensures
        ser_measurement(spec_empty_measurement()) == "{}"@,
{
    reveal_strlit("{}");
    assert(measurement_fields(spec_empty_measurement()) =~= Seq::<Seq<char>>::empty());
    assert(ser_measurement(spec_empty_measurement()) =~= "{}"@);
}

/// Builds one serialized member from a key and its serialized value.
pub(crate) fn make_entry(k: &str, v: String) -> (r: String)
    ensures
        r@ == entry(k@, v@),
{
    let mut e = String::new();
    push_json_string(&mut e, k);
    e.push(':');
    e.append(v.as_str());
    proof {
        assert(e@ =~= entry(k@, v@));
    }
    e
}

/// Builds one serialized member whose value is a decimal integer.
pub(crate) fn make_int_entry(k: &str, v: i64) -> (r: String)
    ensures
        r@ == entry(k@, crate::text::spec_dec_int(v as int)),
{
    let mut e = String::new();
    push_json_string(&mut e, k);
    e.push(':');
    crate::text::push_dec_i64(&mut e, v);
    proof {
        assert(e@ =~= entry(k@, crate::text::spec_dec_int(v as int)));
    }
    e
}

/// Builds one serialized member whose value is a string literal.
pub(crate) fn make_string_entry(k: &str, v: &str) -> (r: String)
    ensures
        r@ == entry(k@, ser_string(v@)),
{
    let mut e = String::new();
    push_json_string(&mut e, k);
    e.push(':');
    push_json_string(&mut e, v);
    proof {
        assert(e@ =~= entry(k@, ser_string(v@)));
    }
    e
}

/// Appends the serialized form of application counters to `out`.
fn push_app_info(out: &mut String, a: &AppInfo)
    ensures
        final(out)@ == old(out)@ + ser_app_info(*a),
{
    let mut entries: Vec<String> = Vec::new();
    entries.push(make_int_entry("ElapsedTime", a.elapsed_time));
    entries.push(make_int_entry("NumBytes", a.num_bytes));
    proof {
        assert(entry_views(entries@) =~= seq![
            entry("ElapsedTime"@, crate::text::spec_dec_int(a.elapsed_time as int)),
            entry("NumBytes"@, crate::text::spec_dec_int(a.num_bytes as int)),
        ]);
    }
    push_obj(out, entries);
}

/// Appends the serialized form of a connection record to `out`.
fn push_conn_info(out: &mut String, c: &ConnectionInfo)
    ensures
        final(out)@ == old(out)@ + ser_conn_info(abs_conn_info(*c)),
{
    let ghost v = abs_conn_info(*c);
    let mut entries: Vec<String> = Vec::new();
    entries.push(make_string_entry("Client", c.client.as_str()));
    entries.push(make_string_entry("Server", c.server.as_str()));
    match &c.uuid {
        Option::Some(u) => {
            entries.push(make_string_entry("UUID", u.as_str()));
        },
        Option::None => {},
    }
    match &c.start_time {
        Option::Some(t) => {
            entries.push(make_string_entry("StartTime", t.as_str()));
        },
        Option::None => {},
    }
    proof {
        assert(entry_views(entries@) =~= conn_info_fields(v));
    }
    push_obj(out, entries);
}

/// Appends one optional counter member: nothing when it is absent.
fn push_opt_int_entry(entries: &mut Vec<String>, v: Option<i64>, k: &str)
    ensures
        entry_views(final(entries)@) == entry_views(old(entries)@) + opt_entry(v, k@),
{
    match v {
        Option::Some(x) => {
            entries.push(make_int_entry(k, x));
            assert(entry_views(entries@) =~= entry_views(old(entries)@) + opt_entry(v, k@));
        },
        Option::None => {
            assert(entry_views(entries@) =~= entry_views(old(entries)@) + opt_entry(v, k@));
        },
    }
}

/// Appends the serialized form of a kernel-metrics record to `out`.
fn push_tcp_info(out: &mut String, t: &TCPInfo)
    ensures
        final(out)@ == old(out)@ + ser_tcp_info(*t),
{
    let mut entries: Vec<String> = Vec::new();
    push_opt_int_entry(&mut entries, t.busy_time, "BusyTime");
    push_opt_int_entry(&mut entries, t.bytes_acked, "BytesAcked");
    push_opt_int_entry(&mut entries, t.bytes_received, "BytesReceived");
    push_opt_int_entry(&mut entries, t.bytes_sent, "BytesSent");
    push_opt_int_entry(&mut entries, t.bytes_retrans, "BytesRetrans");
    push_opt_int_entry(&mut entries, t.elapsed_time, "ElapsedTime");
    push_opt_int_entry(&mut entries, t.min_rtt, "MinRTT");
    push_opt_int_entry(&mut entries, t.rtt, "RTT");
    push_opt_int_entry(&mut entries, t.rtt_var, "RTTVar");
    push_opt_int_entry(&mut entries, t.rwnd_limited, "RWndLimited");
    push_opt_int_entry(&mut entries, t.snd_buf_limited, "SndBufLimited");
    proof {
        assert(entry_views(entries@) =~= tcp_info_fields(*t));
    }
    push_obj(out, entries);
}

/// The canonical JSON text of a measurement, matching the wire format:
/// no whitespace, fields in declaration order, absent fields omitted.
pub fn measurement_to_json(m: &Measurement) -> (r: String)
    ensures
        r@ == ser_measurement(abs_measurement(*m)),
{
    let ghost v = abs_measurement(*m);
    let mut entries: Vec<String> = Vec::new();
    match &m.app_info {
        Option::Some(a) => {
            let mut e = String::new();
            push_app_info(&mut e, a);
            entries.push(make_entry("AppInfo", e));
        },
        Option::None => {},
    }
    match &m.connection_info {
        Option::Some(c) => {
            let mut e = String::new();
            push_conn_info(&mut e, c);
            entries.push(make_entry("ConnectionInfo", e));
        },
        Option::None => {},
    }
    match &m.origin {
        Option::Some(o) => {
            match o {
                Origin::Client => entries.push(make_string_entry("Origin", "client")),
                Origin::Server => entries.push(make_string_entry("Origin", "server")),
            }
        },
        Option::None => {},
    }
    match &m.test {
        Option::Some(t) => {
            match t {
                TestKind::Download => entries.push(make_string_entry("Test", "download")),
                TestKind::Upload => entries.push(make_string_entry("Test", "upload")),
            }
        },
        Option::None => {},
    }
    match &m.tcp_info {
        Option::Some(t) => {
            let mut e = String::new();
            push_tcp_info(&mut e, t);
            entries.push(make_entry("TCPInfo", e));
        },
        Option::None => {},
    }
    proof {
        assert(entry_views(entries@) =~= measurement_fields(v));
    }
    let mut out = String::new();
    push_obj(&mut out, entries);
    proof {
        assert(out@ =~= ser_measurement(v));
    }
    out
}

} // verus!
