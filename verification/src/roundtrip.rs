//! The round-trip law of the wire codec: parsing a canonically
//! serialized measurement gives the measurement back, field for field.
//!
//! The law is proved bottom-up: first that an embedded decimal or
//! string literal parses back to its value, then that each record
//! type's member list does, then the whole frame.

use vstd::prelude::*;

use crate::text::digit_char;
use crate::text::digit_run_end;
use crate::text::digit_val;
use crate::text::digits_value;
use crate::text::is_digit;
use crate::text::lemma_dec_nat_digits;
use crate::text::spec_dec_int;
use crate::text::spec_dec_nat;
use crate::text::spec_parse_int;
use crate::json::entry;
use crate::json::joined;
use crate::json::opt_entry;
use crate::json::ser_string;
use crate::json::ser_tcp_info;
use crate::json::skip_ws;
use crate::json::spec_parse_string;
use crate::json::tcp_info_fields;
use crate::json::tcp_member_value;
use crate::json::spec_parse_tcp_info_members;
use crate::messages::TCPInfo;

verus! {

broadcast use vstd::string::group_string_axioms;

/// Characters of an embedded piece, read back through the carrier.
pub proof fn lemma_embed(s: Seq<char>, i: int, t: Seq<char>)
    requires
        0 <= i,
        i + t.len() <= s.len(),
        s.subrange(i, i + t.len() as int) == t,
    ensures
        forall|k: int| 0 <= k < t.len() ==> #[trigger] s[i + k] == t[k],
{
    assert forall|k: int| 0 <= k < t.len() implies #[trigger] s[i + k] == t[k] by {
        assert(s.subrange(i, i + t.len() as int)[k] == s[i + k]);
    }
}

/// A sub-piece of an embedded piece is itself embedded.
pub proof fn lemma_embed_sub(s: Seq<char>, i: int, t: Seq<char>, a: int, b: int)
    requires
        0 <= i,
        i + t.len() <= s.len(),
        s.subrange(i, i + t.len() as int) == t,
        0 <= a <= b <= t.len(),
    ensures
        s.subrange(i + a, i + b) == t.subrange(a, b),
{
    lemma_embed(s, i, t);
    assert(s.subrange(i + a, i + b) =~= t.subrange(a, b));
}

/// Decimal digit characters carry their value.
pub proof fn lemma_digit_char_val(d: int)
    requires
        0 <= d < 10,
    ensures
        is_digit(digit_char(d)),
        digit_val(digit_char(d)) == d,
{
}

/// An embedded decimal rendering has the rendered value.
pub proof fn lemma_digits_value_of_dec(s: Seq<char>, i: int, n: int)
    requires
        0 <= n,
        0 <= i,
        i + spec_dec_nat(n).len() <= s.len(),
        s.subrange(i, i + spec_dec_nat(n).len() as int) == spec_dec_nat(n),
    ensures
        digits_value(s, i, i + spec_dec_nat(n).len() as int) == n,
        forall|k: int|
            i <= k < i + spec_dec_nat(n).len() ==> is_digit(#[trigger] s[k]),
    decreases n,
{
    let t = spec_dec_nat(n);
    lemma_dec_nat_digits(n);
    lemma_embed(s, i, t);
    assert forall|k: int| i <= k < i + t.len() implies is_digit(#[trigger] s[k]) by {
        assert(s[i + (k - i)] == t[k - i]);
    }
    if n < 10 {
        lemma_digit_char_val(n);
        assert(s[i + 0] == t[0]);
        assert(digits_value(s, i, i) == 0);
        assert(digits_value(s, i, i + 1) == digits_value(s, i, i) * 10 + digit_val(s[i]));
    } else {
        let tp = spec_dec_nat(n / 10);
        assert(t == tp + seq![digit_char(n % 10)]);
        lemma_embed_sub(s, i, t, 0, tp.len() as int);
        assert(t.subrange(0, tp.len() as int) =~= tp);
        lemma_digits_value_of_dec(s, i, n / 10);
        let j = i + t.len() as int;
        assert(s[i + (t.len() - 1)] == t[t.len() - 1]);
        assert(t[t.len() - 1] == digit_char(n % 10));
        lemma_digit_char_val(n % 10);
        assert(digits_value(s, i, j) == digits_value(s, i, j - 1) * 10 + digit_val(s[j - 1]));
        assert(n == (n / 10) * 10 + n % 10);
    }
}

/// The digit run that starts a maximal embedded digit range ends
/// exactly at its end.
pub proof fn lemma_digit_run_exact(s: Seq<char>, i: int, j: int)
    requires
        0 <= i <= j <= s.len(),
        forall|k: int| i <= k < j ==> is_digit(#[trigger] s[k]),
        j == s.len() || !is_digit(s[j]),
    ensures
        digit_run_end(s, i) == j,
    decreases j - i,
{
    if i < j {
        lemma_digit_run_exact(s, i + 1, j);
    }
}

/// An embedded canonical integer, not continued by a digit, fraction
/// or exponent, parses back to its value.
pub proof fn lemma_parse_int_of_dec(s: Seq<char>, i: int, n: int)
    requires
        i64::MIN <= n <= i64::MAX,
        0 <= i,
        i + spec_dec_int(n).len() <= s.len(),
        s.subrange(i, i + spec_dec_int(n).len() as int) == spec_dec_int(n),
        ({
            let after = i + spec_dec_int(n).len() as int;
            after == s.len() || (!is_digit(s[after]) && s[after] != '.' && s[after] != 'e'
                && s[after] != 'E')
        }),
    ensures
        spec_parse_int(s, i) == Some((n as i64, i + spec_dec_int(n).len() as int)),
{
    let t = spec_dec_int(n);
    let after = i + t.len() as int;
    lemma_embed(s, i, t);
    if n < 0 {
        let m = -n;
        let tm = spec_dec_nat(m);
        assert(t == seq!['-'] + tm);
        assert(s[i + 0] == t[0]);
        assert(s[i] == '-');
        lemma_embed_sub(s, i, t, 1, t.len() as int);
        assert(t.subrange(1, t.len() as int) =~= tm);
        lemma_digits_value_of_dec(s, i + 1, m);
        lemma_dec_nat_digits(m);
        lemma_digit_run_exact(s, i + 1, after);
        assert(digit_run_end(s, i + 1) == after);
        assert(digits_value(s, i + 1, after) == m);
        // no redundant leading zero
        assert(s[i + 1] == tm[0]);
        if tm.len() > 1 {
            assert(digit_val(tm[0]) != 0);
            assert(s[i + 1] != '0') by {
                if s[i + 1] == '0' {
                    assert(digit_val(tm[0]) == 0);
                }
            }
        }
        assert(spec_parse_int(s, i) == Some((n as i64, after)));
    } else {
        let tm = spec_dec_nat(n);
        assert(t == tm);
        lemma_digits_value_of_dec(s, i, n);
        lemma_dec_nat_digits(n);
        lemma_digit_run_exact(s, i, after);
        // the run is non-empty, so the position does not read as a
        // minus sign
        assert(s[i + 0] == tm[0]);
        assert(is_digit(s[i]));
        assert(s[i] != '-') by {
            if s[i] == '-' {
                assert(('-' as u32) == 45);
            }
        }
        if tm.len() > 1 {
            assert(digit_val(tm[0]) != 0);
            assert(s[i] != '0') by {
                if s[i] == '0' {
                    assert(digit_val(tm[0]) == 0);
                }
            }
        }
        assert(spec_parse_int(s, i) == Some((n as i64, after)));
    }
}

/// Hexadecimal digit characters carry their value.
pub proof fn lemma_hex_char_val(d: int)
    requires
        0 <= d < 16,
    ensures
        crate::text::is_hex_digit(crate::text::hex_char(d)),
        crate::text::hex_val(crate::text::hex_char(d)) == d,
{
}

/// An embedded escaped string body followed by its closing quote
/// parses back to the decoded characters.
pub proof fn lemma_parse_rest_of_escape(s: Seq<char>, i: int, x: Seq<char>, acc: Seq<char>)
    requires
        0 <= i,
        i + crate::json::spec_escape(x).len() + 1 <= s.len(),
        s.subrange(i, i + crate::json::spec_escape(x).len() + 1) == crate::json::spec_escape(x)
            + seq!['"'],
    ensures
        crate::json::spec_parse_string_rest(s, i, acc) == Some(
            (acc + x, i + crate::json::spec_escape(x).len() + 1),
        ),
    decreases x.len(),
{
    let t = crate::json::spec_escape(x) + seq!['"'];
    lemma_embed(s, i, t);
    if x.len() == 0 {
        assert(crate::json::spec_escape(x) =~= Seq::<char>::empty());
        assert(s[i + 0] == t[0]);
        assert(s[i] == '"');
        assert(acc + x =~= acc);
    } else {
        let c = x[0];
        let e = crate::json::esc_char(c);
        let xr = x.drop_first();
        let rest = crate::json::spec_escape(xr);
        assert(crate::json::spec_escape(x) == e + rest);
        assert(t =~= e + (rest + seq!['"']));
        lemma_embed_sub(s, i, t, e.len() as int, t.len() as int);
        assert(t.subrange(e.len() as int, t.len() as int) =~= rest + seq!['"']);
        let i2 = i + e.len() as int;
        assert(s[i + 0] == t[0]);
        assert(acc + x =~= (acc + seq![c]) + xr);
        if c == '"' || c == '\\' || c == '\u{8}' || c == '\u{c}' || c == '\n' || c == '\r' || c
            == '\t' {
            assert(s[i] == '\\');
            assert(s[i + 1] == t[1]);
            lemma_parse_rest_of_escape(s, i2, xr, acc + seq![c]);
        } else if (c as u32) < 32 {
            let v = (c as u32) as int;
            assert(s[i] == '\\');
            assert(s[i + 1] == t[1]);
            assert(s[i + 2] == t[2]);
            assert(s[i + 3] == t[3]);
            assert(s[i + 4] == t[4]);
            assert(s[i + 5] == t[5]);
            assert(s[i + 4] == crate::text::hex_char(v / 16));
            assert(s[i + 5] == crate::text::hex_char(v % 16));
            lemma_hex_char_val(v / 16);
            lemma_hex_char_val(v % 16);
            assert(crate::text::hex_val('0') == 0);
            assert(crate::text::is_hex_digit('0'));
            assert(crate::json::hex4_at(s, i + 2));
            assert(crate::json::hex4(s, i + 2) == v);
            crate::json::lemma_char_from_code(c);
            assert(crate::json::char_from_code(v) == c);
            lemma_parse_rest_of_escape(s, i2, xr, acc + seq![c]);
        } else {
            assert(e == seq![c]);
            assert(s[i] == c);
            assert((c as u32) >= 32);
            lemma_parse_rest_of_escape(s, i2, xr, acc + seq![c]);
        }
    }
}

/// An embedded serialized string literal parses back to its value.
pub proof fn lemma_parse_string_of_ser(s: Seq<char>, i: int, x: Seq<char>)
    requires
        0 <= i,
        i + crate::json::ser_string(x).len() <= s.len(),
        s.subrange(i, i + crate::json::ser_string(x).len() as int) == crate::json::ser_string(x),
    ensures
        crate::json::spec_parse_string(s, i) == Some(
            (x, i + crate::json::ser_string(x).len() as int),
        ),
{
    let t = crate::json::ser_string(x);
    lemma_embed(s, i, t);
    assert(s[i + 0] == t[0]);
    assert(s[i] == '"');
    lemma_embed_sub(s, i, t, 1, t.len() as int);
    assert(t.subrange(1, t.len() as int) =~= crate::json::spec_escape(x) + seq!['"']);
    lemma_parse_rest_of_escape(s, i + 1, x, Seq::empty());
    assert(Seq::empty() + x =~= x);
}

/// The wire key of the `k`-th kernel counter.
pub open spec fn tcp_key(k: int) -> Seq<char> {
    if k == 0 { "BusyTime"@ }
    else if k == 1 { "BytesAcked"@ }
    else if k == 2 { "BytesReceived"@ }
    else if k == 3 { "BytesSent"@ }
    else if k == 4 { "BytesRetrans"@ }
    else if k == 5 { "ElapsedTime"@ }
    else if k == 6 { "MinRTT"@ }
    else if k == 7 { "RTT"@ }
    else if k == 8 { "RTTVar"@ }
    else if k == 9 { "RWndLimited"@ }
    else { "SndBufLimited"@ }
}

/// The `k`-th kernel counter of a record.
pub open spec fn tcp_field(t: TCPInfo, k: int) -> Option<i64> {
    if k == 0 { t.busy_time }
    else if k == 1 { t.bytes_acked }
    else if k == 2 { t.bytes_received }
    else if k == 3 { t.bytes_sent }
    else if k == 4 { t.bytes_retrans }
    else if k == 5 { t.elapsed_time }
    else if k == 6 { t.min_rtt }
    else if k == 7 { t.rtt }
    else if k == 8 { t.rtt_var }
    else if k == 9 { t.rwnd_limited }
    else { t.snd_buf_limited }
}

/// The record with its `k`-th counter set.
pub open spec fn tcp_set(t: TCPInfo, k: int, v: i64) -> TCPInfo {
    if k == 0 { TCPInfo { busy_time: Some(v), ..t } }
    else if k == 1 { TCPInfo { bytes_acked: Some(v), ..t } }
    else if k == 2 { TCPInfo { bytes_received: Some(v), ..t } }
    else if k == 3 { TCPInfo { bytes_sent: Some(v), ..t } }
    else if k == 4 { TCPInfo { bytes_retrans: Some(v), ..t } }
    else if k == 5 { TCPInfo { elapsed_time: Some(v), ..t } }
    else if k == 6 { TCPInfo { min_rtt: Some(v), ..t } }
    else if k == 7 { TCPInfo { rtt: Some(v), ..t } }
    else if k == 8 { TCPInfo { rtt_var: Some(v), ..t } }
    else if k == 9 { TCPInfo { rwnd_limited: Some(v), ..t } }
    else { TCPInfo { snd_buf_limited: Some(v), ..t } }
}

/// The record with counters at or after `k` cleared.
pub open spec fn tcp_mask(t: TCPInfo, k: int) -> TCPInfo {
    TCPInfo {
        busy_time: if k > 0 { t.busy_time } else { None },
        bytes_acked: if k > 1 { t.bytes_acked } else { None },
        bytes_received: if k > 2 { t.bytes_received } else { None },
        bytes_sent: if k > 3 { t.bytes_sent } else { None },
        bytes_retrans: if k > 4 { t.bytes_retrans } else { None },
        elapsed_time: if k > 5 { t.elapsed_time } else { None },
        min_rtt: if k > 6 { t.min_rtt } else { None },
        rtt: if k > 7 { t.rtt } else { None },
        rtt_var: if k > 8 { t.rtt_var } else { None },
        rwnd_limited: if k > 9 { t.rwnd_limited } else { None },
        snd_buf_limited: if k > 10 { t.snd_buf_limited } else { None },
    }
}

/// The serialized members from the `k`-th counter on.
pub open spec fn tcp_fields_from(t: TCPInfo, k: int) -> Seq<Seq<char>>
    decreases 11 - k,
{
    if k >= 11 || k < 0 {
        Seq::empty()
    } else {
        opt_entry(tcp_field(t, k), tcp_key(k)) + tcp_fields_from(t, k + 1)
    }
}

/// Concatenation of member lists is associative.
proof fn lemma_concat_assoc(a: Seq<Seq<char>>, b: Seq<Seq<char>>, c: Seq<Seq<char>>)
    ensures
        (a + b) + c == a + (b + c),
{
    assert((a + b) + c =~= a + (b + c));
}

/// The chained suffixes cover exactly the serialized member list.
pub proof fn lemma_tcp_fields_from_zero(t: TCPInfo)
    ensures
        tcp_fields_from(t, 0) == tcp_info_fields(t),
{
    let g0 = opt_entry(t.busy_time, "BusyTime"@);
    let g1 = opt_entry(t.bytes_acked, "BytesAcked"@);
    let g2 = opt_entry(t.bytes_received, "BytesReceived"@);
    let g3 = opt_entry(t.bytes_sent, "BytesSent"@);
    let g4 = opt_entry(t.bytes_retrans, "BytesRetrans"@);
    let g5 = opt_entry(t.elapsed_time, "ElapsedTime"@);
    let g6 = opt_entry(t.min_rtt, "MinRTT"@);
    let g7 = opt_entry(t.rtt, "RTT"@);
    let g8 = opt_entry(t.rtt_var, "RTTVar"@);
    let g9 = opt_entry(t.rwnd_limited, "RWndLimited"@);
    let g10 = opt_entry(t.snd_buf_limited, "SndBufLimited"@);
    // the suffix chain, right-bracketed
    let r10 = g10;
    let r9 = g9 + r10;
    let r8 = g8 + r9;
    let r7 = g7 + r8;
    let r6 = g6 + r7;
    let r5 = g5 + r6;
    let r4 = g4 + r5;
    let r3 = g3 + r4;
    let r2 = g2 + r3;
    let r1 = g1 + r2;
    let r0 = g0 + r1;
    assert(tcp_fields_from(t, 11) =~= Seq::<Seq<char>>::empty());
    assert(tcp_fields_from(t, 10) =~= r10);
    assert(tcp_fields_from(t, 9) == r9);
    assert(tcp_fields_from(t, 8) == r8);
    assert(tcp_fields_from(t, 7) == r7);
    assert(tcp_fields_from(t, 6) == r6);
    assert(tcp_fields_from(t, 5) == r5);
    assert(tcp_fields_from(t, 4) == r4);
    assert(tcp_fields_from(t, 3) == r3);
    assert(tcp_fields_from(t, 2) == r2);
    assert(tcp_fields_from(t, 1) == r1);
    assert(tcp_fields_from(t, 0) == r0);
    // the flat list, left-bracketed as written, re-bracketed stepwise
    let l1 = g0 + g1;
    let l2 = l1 + g2;
    let l3 = l2 + g3;
    let l4 = l3 + g4;
    let l5 = l4 + g5;
    let l6 = l5 + g6;
    let l7 = l6 + g7;
    let l8 = l7 + g8;
    let l9 = l8 + g9;
    let l10 = l9 + g10;
    assert(tcp_info_fields(t) == l10);
    lemma_concat_assoc(l8, g9, r10);
    lemma_concat_assoc(l7, g8, r9);
    lemma_concat_assoc(l6, g7, r8);
    lemma_concat_assoc(l5, g6, r7);
    lemma_concat_assoc(l4, g5, r6);
    lemma_concat_assoc(l3, g4, r5);
    lemma_concat_assoc(l2, g3, r4);
    lemma_concat_assoc(l1, g2, r3);
    lemma_concat_assoc(g0, g1, r2);
    assert(l10 == l9 + r10);
    assert(l9 + r10 == l8 + r9);
    assert(l8 + r9 == l7 + r8);
    assert(l7 + r8 == l6 + r7);
    assert(l6 + r7 == l5 + r6);
    assert(l5 + r6 == l4 + r5);
    assert(l4 + r5 == l3 + r4);
    assert(l3 + r4 == l2 + r3);
    assert(l2 + r3 == l1 + r2);
    assert(l1 + r2 == g0 + r1);
    assert(tcp_info_fields(t) == r0);
}

/// The dispatch on a kernel-counter key picks exactly that counter.
proof fn lemma_tcp_dispatch(s: Seq<char>, i: int, k: int, acc: TCPInfo, v: i64, j: int)
    requires
        0 <= k < 11,
        spec_parse_int(s, i) == Some((v, j)),
    ensures
        tcp_member_value(s, i, tcp_key(k), acc) == Some((tcp_set(acc, k, v), j)),
{
    reveal_strlit("BusyTime");
    reveal_strlit("BytesAcked");
    reveal_strlit("BytesReceived");
    reveal_strlit("BytesSent");
    reveal_strlit("BytesRetrans");
    reveal_strlit("ElapsedTime");
    reveal_strlit("MinRTT");
    reveal_strlit("RTT");
    reveal_strlit("RTTVar");
    reveal_strlit("RWndLimited");
    reveal_strlit("SndBufLimited");
    assert(("BusyTime"@).len() == 8);
    assert(("BytesAcked"@).len() == 10);
    assert(("BytesReceived"@).len() == 13);
    assert(("BytesSent"@).len() == 9);
    assert(("BytesRetrans"@).len() == 12);
    assert(("ElapsedTime"@).len() == 11);
    assert(("MinRTT"@).len() == 6);
    assert(("RTT"@).len() == 3);
    assert(("RTTVar"@).len() == 6);
    assert(("RWndLimited"@).len() == 11);
    assert(("SndBufLimited"@).len() == 13);
    if k == 8 {
        assert(("RTTVar"@)[0] == 'R');
        assert(("MinRTT"@)[0] == 'M');
        assert(("RTTVar"@) != ("MinRTT"@));
    }
    if k == 9 {
        assert(("RWndLimited"@)[0] == 'R');
        assert(("ElapsedTime"@)[0] == 'E');
        assert(("RWndLimited"@) != ("ElapsedTime"@));
    }
    if k == 10 {
        assert(("SndBufLimited"@)[0] == 'S');
        assert(("BytesReceived"@)[0] == 'B');
        assert(("SndBufLimited"@) != ("BytesReceived"@));
    }
    if k == 0 {
        assert(tcp_member_value(s, i, tcp_key(k), acc) == Some((tcp_set(acc, k, v), j)));
    } else if k == 1 {
        assert(tcp_member_value(s, i, tcp_key(k), acc) == Some((tcp_set(acc, k, v), j)));
    } else if k == 2 {
        assert(tcp_member_value(s, i, tcp_key(k), acc) == Some((tcp_set(acc, k, v), j)));
    } else if k == 3 {
        assert(tcp_member_value(s, i, tcp_key(k), acc) == Some((tcp_set(acc, k, v), j)));
    } else if k == 4 {
        assert(tcp_member_value(s, i, tcp_key(k), acc) == Some((tcp_set(acc, k, v), j)));
    } else if k == 5 {
        assert(tcp_member_value(s, i, tcp_key(k), acc) == Some((tcp_set(acc, k, v), j)));
    } else if k == 6 {
        assert(tcp_member_value(s, i, tcp_key(k), acc) == Some((tcp_set(acc, k, v), j)));
    } else if k == 7 {
        assert(tcp_member_value(s, i, tcp_key(k), acc) == Some((tcp_set(acc, k, v), j)));
    } else if k == 8 {
        assert(tcp_member_value(s, i, tcp_key(k), acc) == Some((tcp_set(acc, k, v), j)));
    } else if k == 9 {
        assert(tcp_member_value(s, i, tcp_key(k), acc) == Some((tcp_set(acc, k, v), j)));
    } else {
        assert(tcp_member_value(s, i, tcp_key(k), acc) == Some((tcp_set(acc, k, v), j)));
    }
}

/// An embedded serialized kernel-metrics member list parses back to
/// the record, walking the remaining counters from `k` on.
#[verifier::spinoff_prover]
proof fn lemma_tcp_members_from(s: Seq<char>, i: int, t: TCPInfo, k: int, first: bool)
    requires
        0 <= k <= 11,
        0 <= i,
        i + joined(tcp_fields_from(t, k)).len() + 1 <= s.len(),
        s.subrange(i, i + joined(tcp_fields_from(t, k)).len() + 1) == joined(
            tcp_fields_from(t, k),
        ) + seq!['}'],
        tcp_fields_from(t, k).len() == 0 ==> first,
    ensures
        spec_parse_tcp_info_members(s, i, tcp_mask(t, k), first) == Some(
            (t, i + joined(tcp_fields_from(t, k)).len() + 1),
        ),
    decreases 11 - k,
{
    let fs = tcp_fields_from(t, k);
    let body = joined(fs);
    let tt = body + seq!['}'];
    lemma_embed(s, i, tt);
    if k == 11 {
        assert(fs =~= Seq::<Seq<char>>::empty());
        assert(body =~= Seq::<char>::empty());
        assert(s[i + 0] == tt[0]);
        assert(s[i] == '}');
        assert(tcp_mask(t, 11) == t);
    } else {
        match tcp_field(t, k) {
            Option::None => {
                assert(opt_entry(tcp_field(t, k), tcp_key(k)) =~= Seq::<Seq<char>>::empty());
                assert(fs =~= tcp_fields_from(t, k + 1));
                assert(fs == tcp_fields_from(t, k + 1));
                assert(tcp_mask(t, k) == tcp_mask(t, k + 1));
                lemma_tcp_members_from(s, i, t, k + 1, first);
            },
            Option::Some(v) => {
                let key = tcp_key(k);
                let valtext = spec_dec_int(v as int);
                let e = entry(key, valtext);
                let rest = tcp_fields_from(t, k + 1);
                assert(opt_entry(tcp_field(t, k), tcp_key(k)) =~= seq![e]);
                assert(fs =~= seq![e] + rest);
                assert(fs.len() >= 1);
                assert(fs[0] == e);
                assert(fs.drop_first() =~= rest);
                // the body starts with this entry
                let tail: Seq<char> = if rest.len() == 0 {
                    seq!['}']
                } else {
                    seq![','] + joined(rest) + seq!['}']
                };
                assert(tt =~= e + tail);
                // key
                lemma_key_positions(s, i, key, valtext, tail);
                let i_k = i + ser_string(key).len() as int;
                let i4 = i_k + 1;
                let j_v = i4 + valtext.len() as int;
                // value: the character after it is a comma or brace
                assert(s[i + (e.len() as int)] == tt[e.len() as int]);
                assert(tt[e.len() as int] == tail[0]);
                assert(tail[0] == ',' || tail[0] == '}');
                lemma_dec_value_at(s, i4, v as int, j_v);
                lemma_tcp_dispatch(s, i4, k, tcp_mask(t, k), v, j_v);
                assert(tcp_set(tcp_mask(t, k), k, v) == tcp_mask(t, k + 1));
                // after the value: comma or closing brace
                assert(skip_ws(s, j_v) == j_v);
                if rest.len() == 0 {
                    assert(s[j_v] == '}');
                    assert(tcp_mask(t, k + 1) == t) by {
                        lemma_tcp_tail_none(t, k + 1);
                    }
                    assert(spec_parse_tcp_info_members(s, i, tcp_mask(t, k), first) == Some(
                        (t, j_v + 1),
                    ));
                    assert(j_v + 1 == i + body.len() + 1);
                } else {
                    assert(s[j_v] == ',');
                    let nx = j_v + 1;
                    // the next entry begins with a quote, so no
                    // whitespace is skipped
                    assert(joined(rest).len() >= rest[0].len());
                    assert(tt =~= e + seq![','] + (joined(rest) + seq!['}']));
                    lemma_embed_sub(s, i, tt, e.len() as int + 1, tt.len() as int);
                    assert(tt.subrange(e.len() as int + 1, tt.len() as int) =~= joined(rest)
                        + seq!['}']);
                    lemma_joined_head_quote(rest, t, k + 1);
                    assert(s[nx + 0] == (joined(rest) + seq!['}'])[0]);
                    assert(s[nx] == '"');
                    assert(skip_ws(s, nx) == nx);
                    lemma_tcp_members_from(s, nx, t, k + 1, false);
                }
            },
        }
    }
}

/// Every serialized member list either is empty or starts with the
/// opening quote of a key.
proof fn lemma_joined_head_quote(rest: Seq<Seq<char>>, t: TCPInfo, k: int)
    requires
        0 <= k <= 11,
        rest == tcp_fields_from(t, k),
        rest.len() > 0,
    ensures
        joined(rest).len() >= 1,
        joined(rest)[0] == '"',
    decreases 11 - k,
{
    if k < 11 {
        match tcp_field(t, k) {
            Option::None => {
                assert(opt_entry(tcp_field(t, k), tcp_key(k)) =~= Seq::<Seq<char>>::empty());
                assert(rest =~= tcp_fields_from(t, k + 1));
                lemma_joined_head_quote(tcp_fields_from(t, k + 1), t, k + 1);
                assert(joined(rest) == joined(tcp_fields_from(t, k + 1)));
            },
            Option::Some(v) => {
                let e = entry(tcp_key(k), spec_dec_int(v as int));
                assert(rest[0] == e);
                assert(e[0] == '"');
                if rest.len() == 1 {
                    assert(joined(rest) == e);
                } else {
                    assert(joined(rest) == e + seq![','] + joined(rest.drop_first()));
                    assert(joined(rest)[0] == e[0]);
                }
            },
        }
    }
}

/// A record whose serialized suffix is empty has no counters from `k`
/// on, so the mask at `k` is the record itself.
proof fn lemma_tcp_tail_none(t: TCPInfo, k: int)
    requires
        0 <= k <= 11,
        tcp_fields_from(t, k).len() == 0,
    ensures
        tcp_mask(t, k) == t,
    decreases 11 - k,
{
    if k < 11 {
        assert(opt_entry(tcp_field(t, k), tcp_key(k)).len() == 0);
        assert(tcp_field(t, k) is None);
        lemma_tcp_tail_none(t, k + 1);
    }
}

/// The positions of the key, the colon and the value of an embedded
/// member entry: the key parses back and nothing around it is
/// whitespace.
proof fn lemma_key_positions(s: Seq<char>, i: int, key: Seq<char>, valtext: Seq<char>, tail: Seq<char>)
    requires
        0 <= i,
        i + entry(key, valtext).len() + tail.len() <= s.len(),
        s.subrange(i, i + entry(key, valtext).len() + tail.len()) == entry(key, valtext) + tail,
    ensures
        spec_parse_string(s, i) == Some((key, i + ser_string(key).len() as int)),
        s[i + ser_string(key).len() as int] == ':',
        skip_ws(s, i + ser_string(key).len() as int) == i + ser_string(key).len() as int,
        s.subrange(
            i + ser_string(key).len() as int + 1,
            i + ser_string(key).len() as int + 1 + valtext.len() as int,
        ) == valtext,
{
    let e = entry(key, valtext);
    let tt = e + tail;
    lemma_embed(s, i, tt);
    lemma_embed_sub(s, i, tt, 0, ser_string(key).len() as int);
    assert(tt.subrange(0, ser_string(key).len() as int) =~= ser_string(key));
    lemma_parse_string_of_ser(s, i, key);
    let i_k = i + ser_string(key).len() as int;
    assert(s[i + (i_k - i)] == tt[i_k - i]);
    assert(tt[i_k - i] == ':');
    lemma_embed_sub(s, i, tt, i_k - i + 1, i_k - i + 1 + valtext.len() as int);
    assert(tt.subrange(i_k - i + 1, i_k - i + 1 + valtext.len() as int) =~= valtext);
}

/// An embedded decimal value whose following character closes or
/// continues the object parses back to its value, with no whitespace
/// skipped before it.
proof fn lemma_dec_value_at(s: Seq<char>, i4: int, n: int, j: int)
    requires
        i64::MIN <= n <= i64::MAX,
        0 <= i4,
        j == i4 + spec_dec_int(n).len() as int,
        j < s.len(),
        s.subrange(i4, j) == spec_dec_int(n),
        s[j] == ',' || s[j] == '}',
    ensures
        skip_ws(s, i4) == i4,
        spec_parse_int(s, i4) == Some((n as i64, j)),
        skip_ws(s, j) == j,
{
    let t = spec_dec_int(n);
    lemma_embed(s, i4, t);
    assert(s[i4 + 0] == t[0]);
    if n < 0 {
        assert(t[0] == '-');
    } else {
        lemma_dec_nat_digits(n);
        assert(t[0] == spec_dec_nat(n)[0]);
    }
    assert(!crate::json::is_ws(s[i4]));
    assert(!is_digit(s[j]) && s[j] != '.' && s[j] != 'e' && s[j] != 'E');
    lemma_parse_int_of_dec(s, i4, n);
    assert(!crate::json::is_ws(s[j]));
}

/// An embedded serialized kernel-metrics record parses back to its
/// value.
#[verifier::spinoff_prover]
pub proof fn lemma_parse_tcp_info_of_ser(s: Seq<char>, i: int, t: TCPInfo)
    requires
        0 <= i,
        i + ser_tcp_info(t).len() <= s.len(),
        s.subrange(i, i + ser_tcp_info(t).len() as int) == ser_tcp_info(t),
    ensures
        crate::json::spec_parse_tcp_info(s, i) == Some(
            (t, i + ser_tcp_info(t).len() as int),
        ),
{
    let tt = ser_tcp_info(t);
    lemma_embed(s, i, tt);
    lemma_tcp_fields_from_zero(t);
    assert(s[i + 0] == tt[0]);
    assert(s[i] == '{');
    lemma_embed_sub(s, i, tt, 1, tt.len() as int);
    assert(tt.subrange(1, tt.len() as int) =~= joined(tcp_fields_from(t, 0)) + seq!['}']);
    if tcp_fields_from(t, 0).len() > 0 {
        lemma_joined_head_quote(tcp_fields_from(t, 0), t, 0);
        assert(s[i + 1] == tt[1]);
        assert(s[i + 1] == '"');
        assert(skip_ws(s, i + 1) == i + 1);
    } else {
        assert(joined(tcp_fields_from(t, 0)) =~= Seq::<char>::empty());
        assert(s[i + 1] == tt[1]);
        assert(s[i + 1] == '}');
        assert(skip_ws(s, i + 1) == i + 1);
    }
    assert(tcp_mask(t, 0) == crate::messages::spec_default_tcp_info());
    lemma_tcp_members_from(s, i + 1, t, 0, true);
}

/// An embedded serialized string value parses back with no whitespace
/// skipped around it.
proof fn lemma_string_value_at(s: Seq<char>, i4: int, x: Seq<char>, j: int)
    requires
        0 <= i4,
        j == i4 + ser_string(x).len() as int,
        j <= s.len(),
        s.subrange(i4, j) == ser_string(x),
    ensures
        skip_ws(s, i4) == i4,
        spec_parse_string(s, i4) == Some((x, j)),
{
    let t = ser_string(x);
    lemma_embed(s, i4, t);
    assert(s[i4 + 0] == t[0]);
    assert(s[i4] == '"');
    assert(!crate::json::is_ws(s[i4]));
    lemma_parse_string_of_ser(s, i4, x);
}

/// A joined member list whose entries all open with a quote opens with
/// a quote.
proof fn lemma_joined_head(fields: Seq<Seq<char>>)
    requires
        fields.len() > 0,
        forall|j: int|
            0 <= j < fields.len() ==> (#[trigger] fields[j]).len() >= 1 && fields[j][0] == '"',
    ensures
        joined(fields).len() >= 1,
        joined(fields)[0] == '"',
{
    if fields.len() == 1 {
        assert(joined(fields) == fields[0]);
    } else {
        assert(joined(fields) == fields[0] + seq![','] + joined(fields.drop_first()));
        assert(joined(fields)[0] == fields[0][0]);
    }
}

/// The second application-counters member and the closing brace parse
/// back and finish the record.
#[verifier::rlimit(100)]
#[verifier::spinoff_prover]
proof fn lemma_app_second_member(s: Seq<char>, i2: int, a: crate::messages::AppInfo)
    requires
        0 <= i2,
        ({
            let e2 = entry("NumBytes"@, spec_dec_int(a.num_bytes as int));
            i2 + e2.len() + 1 <= s.len() && s.subrange(i2, i2 + e2.len() + 1) == e2 + seq!['}']
        }),
    ensures
        ({
            let e2 = entry("NumBytes"@, spec_dec_int(a.num_bytes as int));
            crate::json::spec_parse_app_info_members(s, i2, Some(a.elapsed_time), None, false)
                == Some((a, i2 + e2.len() + 1))
        }),
{
    reveal_strlit("ElapsedTime");
    reveal_strlit("NumBytes");
    assert(("ElapsedTime"@).len() == 11);
    assert(("NumBytes"@).len() == 8);
    let e2 = entry("NumBytes"@, spec_dec_int(a.num_bytes as int));
    let tt = e2 + seq!['}'];
    lemma_embed(s, i2, tt);
    lemma_key_positions(s, i2, "NumBytes"@, spec_dec_int(a.num_bytes as int), seq!['}']);
    let ik2 = i2 + ser_string("NumBytes"@).len() as int;
    let iv2 = ik2 + 1;
    let j2 = iv2 + spec_dec_int(a.num_bytes as int).len() as int;
    assert(s[i2 + (e2.len() as int)] == tt[e2.len() as int]);
    assert(s[j2] == '}');
    lemma_dec_value_at(s, iv2, a.num_bytes as int, j2);
}

/// An embedded serialized application-counters record parses back to
/// its value.
#[verifier::rlimit(100)]
#[verifier::spinoff_prover]
pub proof fn lemma_parse_app_info_of_ser(s: Seq<char>, i: int, a: crate::messages::AppInfo)
    requires
        0 <= i,
        i + crate::json::ser_app_info(a).len() <= s.len(),
        s.subrange(i, i + crate::json::ser_app_info(a).len() as int) == crate::json::ser_app_info(
            a,
        ),
    ensures
        crate::json::spec_parse_app_info(s, i) == Some(
            (a, i + crate::json::ser_app_info(a).len() as int),
        ),
{
    reveal_strlit("ElapsedTime");
    reveal_strlit("NumBytes");
    let e1 = entry("ElapsedTime"@, spec_dec_int(a.elapsed_time as int));
    let e2 = entry("NumBytes"@, spec_dec_int(a.num_bytes as int));
    let fields = seq![e1, e2];
    let body = joined(fields);
    let tt = crate::json::ser_app_info(a);
    assert(fields.drop_first() =~= seq![e2]);
    assert(joined(seq![e2]) == e2);
    assert(body == e1 + seq![','] + joined(fields.drop_first()));
    assert(tt == seq!['{'] + body + seq!['}']);
    lemma_embed(s, i, tt);
    assert(s[i + 0] == tt[0]);
    assert(s[i] == '{');
    // first member
    let i1 = i + 1;
    assert(tt =~= seq!['{'] + (e1 + (seq![','] + (e2 + seq!['}']))));
    lemma_embed_sub(s, i, tt, 1, tt.len() as int);
    assert(tt.subrange(1, tt.len() as int) =~= e1 + (seq![','] + (e2 + seq!['}'])));
    lemma_key_positions(s, i1, "ElapsedTime"@, spec_dec_int(a.elapsed_time as int), seq![','] + (
    e2 + seq!['}']));
    let ik1 = i1 + ser_string("ElapsedTime"@).len() as int;
    let iv1 = ik1 + 1;
    let j1 = iv1 + spec_dec_int(a.elapsed_time as int).len() as int;
    assert(s[i1 + (e1.len() as int)] == (e1 + (seq![','] + (e2 + seq!['}'])))[e1.len() as int]);
    assert(s[j1] == ',');
    lemma_dec_value_at(s, iv1, a.elapsed_time as int, j1);
    assert(s[i1] == '"');
    assert(skip_ws(s, i1) == i1);
    // second member
    let i2 = j1 + 1;
    lemma_embed_sub(s, i1, e1 + (seq![','] + (e2 + seq!['}'])), e1.len() as int + 1, e1.len()
        as int + 1 + e2.len() as int + 1);
    assert((e1 + (seq![','] + (e2 + seq!['}']))).subrange(
        e1.len() as int + 1,
        e1.len() as int + 1 + e2.len() as int + 1,
    ) =~= e2 + seq!['}']);
    lemma_app_second_member(s, i2, a);
    let j2 = i2 + e2.len() as int;
    assert(s[i2] == '"');
    assert(skip_ws(s, i2) == i2);
    // walk the members
    assert(crate::json::spec_parse_app_info_members(s, i1, None, None, true) == Some(
        (a, j2 + 1),
    ));
    assert(j2 + 1 == i + tt.len() as int);
}

/// The wire key of the `k`-th connection member.
pub open spec fn conn_key(k: int) -> Seq<char> {
    if k == 0 { "Client"@ }
    else if k == 1 { "Server"@ }
    else if k == 2 { "UUID"@ }
    else { "StartTime"@ }
}

/// The serialized members of a connection record from the `k`-th on.
pub open spec fn conn_fields_from(c: crate::json::SpecConnInfo, k: int) -> Seq<Seq<char>> {
    (if k <= 0 { seq![entry("Client"@, ser_string(c.client))] } else { Seq::empty() }) + (
    if k <= 1 { seq![entry("Server"@, ser_string(c.server))] } else { Seq::empty() }) + (
    if k <= 2 {
        match c.uuid {
            Option::Some(u) => seq![entry("UUID"@, ser_string(u))],
            Option::None => Seq::empty(),
        }
    } else { Seq::empty() }) + (if k <= 3 {
        match c.start_time {
            Option::Some(x) => seq![entry("StartTime"@, ser_string(x))],
            Option::None => Seq::empty(),
        }
    } else { Seq::empty() })
}

/// Every connection member opens with a quote.
proof fn lemma_conn_fields_quote(c: crate::json::SpecConnInfo, k: int)
    ensures
        forall|j: int|
            0 <= j < conn_fields_from(c, k).len() ==> (#[trigger] conn_fields_from(c, k)[j]).len()
                >= 1 && conn_fields_from(c, k)[j][0] == '"',
{
}

/// The serialized member suffixes cover the whole connection list.
proof fn lemma_conn_fields_from_zero(c: crate::json::SpecConnInfo)
    ensures
        conn_fields_from(c, 0) == crate::json::conn_info_fields(c),
{
    assert(conn_fields_from(c, 0) =~= crate::json::conn_info_fields(c));
}

/// The accumulated options at stage `k`.
pub open spec fn conn_acc(c: crate::json::SpecConnInfo, k: int) -> (
    Option<Seq<char>>,
    Option<Seq<char>>,
    Option<Seq<char>>,
    Option<Seq<char>>,
) {
    (
        if k > 0 { Some(c.client) } else { None },
        if k > 1 { Some(c.server) } else { None },
        if k > 2 { c.uuid } else { None },
        if k > 3 { c.start_time } else { None },
    )
}

/// The string carried by the `k`-th connection member, when present.
pub open spec fn conn_val(c: crate::json::SpecConnInfo, k: int) -> Seq<char> {
    if k == 0 {
        c.client
    } else if k == 1 {
        c.server
    } else if k == 2 {
        c.uuid.unwrap()
    } else {
        c.start_time.unwrap()
    }
}

/// The dispatch on a connection key picks exactly that member.
proof fn lemma_conn_value_step(
    s: Seq<char>,
    i4: int,
    c: crate::json::SpecConnInfo,
    k: int,
    j_v: int,
)
    requires
        0 <= k <= 3,
        k == 2 ==> c.uuid is Some,
        k == 3 ==> c.start_time is Some,
        spec_parse_string(s, i4) == Some((conn_val(c, k), j_v)),
    ensures
        ({
            let acc = conn_acc(c, k);
            let acc2 = conn_acc(c, k + 1);
            crate::json::conn_member_value(s, i4, conn_key(k), acc.0, acc.1, acc.2, acc.3)
                == Some((acc2.0, acc2.1, acc2.2, acc2.3, j_v))
        }),
{
    reveal_strlit("Client");
    reveal_strlit("Server");
    reveal_strlit("UUID");
    reveal_strlit("StartTime");
    assert(("Client"@).len() == 6);
    assert(("Server"@).len() == 6);
    assert(("UUID"@).len() == 4);
    assert(("StartTime"@).len() == 9);
    assert(("Client"@)[0] == 'C');
    assert(("Server"@)[0] == 'S');
}

/// An embedded serialized connection member list parses back to the
/// record, walking the remaining members from `k` on.
#[verifier::rlimit(100)]
#[verifier::spinoff_prover]
proof fn lemma_conn_members_from(
    s: Seq<char>,
    i: int,
    c: crate::json::SpecConnInfo,
    k: int,
    first: bool,
)
    requires
        0 <= k <= 4,
        0 <= i,
        i + joined(conn_fields_from(c, k)).len() + 1 <= s.len(),
        s.subrange(i, i + joined(conn_fields_from(c, k)).len() + 1) == joined(
            conn_fields_from(c, k),
        ) + seq!['}'],
        conn_fields_from(c, k).len() == 0 ==> first && k >= 2,
    ensures
        ({
            let acc = conn_acc(c, k);
            crate::json::spec_parse_conn_info_members(
                s,
                i,
                acc.0,
                acc.1,
                acc.2,
                acc.3,
                first,
            ) == Some(
                (
                    crate::json::SpecConnInfo {
                        client: c.client,
                        server: c.server,
                        uuid: c.uuid,
                        start_time: c.start_time,
                    },
                    i + joined(conn_fields_from(c, k)).len() + 1,
                ),
            )
        }),
    decreases 4 - k,
{
    let fs = conn_fields_from(c, k);
    let body = joined(fs);
    let tt = body + seq!['}'];
    lemma_embed(s, i, tt);
    let acc = conn_acc(c, k);
    if fs.len() == 0 {
        assert(body =~= Seq::<char>::empty());
        assert(s[i + 0] == tt[0]);
        assert(s[i] == '}');
        assert(c.uuid is None || k > 2);
        assert(c.start_time is None || k > 3);
    } else if k == 2 && c.uuid is None {
        assert(conn_fields_from(c, 2) =~= conn_fields_from(c, 3));
        assert(conn_fields_from(c, 2) == conn_fields_from(c, 3));
        assert(conn_acc(c, 2) == conn_acc(c, 3));
        lemma_conn_members_from(s, i, c, 3, first);
    } else if k == 3 && c.start_time is None {
        assert(conn_fields_from(c, 3) =~= conn_fields_from(c, 4));
        assert(conn_fields_from(c, 3) == conn_fields_from(c, 4));
        assert(conn_acc(c, 3) == conn_acc(c, 4));
        lemma_conn_members_from(s, i, c, 4, first);
    } else {
        // the current member is present
        let key = conn_key(k);
        let val = conn_val(c, k);
        let e = entry(key, ser_string(val));
        let rest = conn_fields_from(c, k + 1);
        assert(fs =~= seq![e] + rest);
        assert(fs.len() >= 1);
        assert(fs[0] == e);
        assert(fs.drop_first() =~= rest);
        let tail: Seq<char> = if rest.len() == 0 {
            seq!['}']
        } else {
            seq![','] + joined(rest) + seq!['}']
        };
        assert(tt =~= e + tail);
        lemma_key_positions(s, i, key, ser_string(val), tail);
        let i_k = i + ser_string(key).len() as int;
        let i4 = i_k + 1;
        let j_v = i4 + ser_string(val).len() as int;
        assert(s[i + (e.len() as int)] == tt[e.len() as int]);
        assert(tt[e.len() as int] == tail[0]);
        assert(tail[0] == ',' || tail[0] == '}');
        lemma_string_value_at(s, i4, val, j_v);
        assert(!crate::json::is_ws(s[j_v]));
        assert(skip_ws(s, j_v) == j_v);
        // the dispatch picks this member
        assert(k <= 3) by {
            if k == 4 {
                assert(conn_fields_from(c, 4) =~= Seq::<Seq<char>>::empty());
            }
        }
        let acc2 = conn_acc(c, k + 1);
        lemma_conn_value_step(s, i4, c, k, j_v);
        if rest.len() == 0 {
            assert(s[j_v] == '}');
            assert(c.uuid is None || k >= 2);
            assert(c.start_time is None || k >= 3);
            assert(acc2.0 == Some(c.client) && acc2.1 == Some(c.server));
            assert(acc2.2 == c.uuid) by {
                if k < 2 {
                    assert(rest.len() == 0);
                    assert(c.uuid is None);
                }
            }
            assert(acc2.3 == c.start_time) by {
                if k < 3 {
                    assert(c.start_time is None);
                }
            }
        } else {
            assert(s[j_v] == ',');
            let nx = j_v + 1;
            assert(tt =~= e + seq![','] + (joined(rest) + seq!['}']));
            lemma_embed_sub(s, i, tt, e.len() as int + 1, tt.len() as int);
            assert(tt.subrange(e.len() as int + 1, tt.len() as int) =~= joined(rest)
                + seq!['}']);
            lemma_conn_fields_quote(c, k + 1);
            lemma_joined_head(rest);
            assert(s[nx + 0] == (joined(rest) + seq!['}'])[0]);
            assert(s[nx] == '"');
            assert(skip_ws(s, nx) == nx);
            lemma_conn_members_from(s, nx, c, k + 1, false);
        }
    }
}

/// An embedded serialized connection record parses back to its value.
#[verifier::spinoff_prover]
pub proof fn lemma_parse_conn_info_of_ser(s: Seq<char>, i: int, c: crate::json::SpecConnInfo)
    requires
        0 <= i,
        i + crate::json::ser_conn_info(c).len() <= s.len(),
        s.subrange(i, i + crate::json::ser_conn_info(c).len() as int)
            == crate::json::ser_conn_info(c),
    ensures
        crate::json::spec_parse_conn_info(s, i) == Some(
            (
                crate::json::SpecConnInfo {
                    client: c.client,
                    server: c.server,
                    uuid: c.uuid,
                    start_time: c.start_time,
                },
                i + crate::json::ser_conn_info(c).len() as int,
            ),
        ),
{
    let tt = crate::json::ser_conn_info(c);
    lemma_embed(s, i, tt);
    lemma_conn_fields_from_zero(c);
    assert(s[i + 0] == tt[0]);
    assert(s[i] == '{');
    lemma_embed_sub(s, i, tt, 1, tt.len() as int);
    assert(tt.subrange(1, tt.len() as int) =~= joined(conn_fields_from(c, 0)) + seq!['}']);
    assert(conn_fields_from(c, 0).len() > 0);
    lemma_conn_fields_quote(c, 0);
    lemma_joined_head(conn_fields_from(c, 0));
    assert(s[i + 1] == tt[1]);
    assert(s[i + 1] == '"');
    assert(skip_ws(s, i + 1) == i + 1);
    lemma_conn_members_from(s, i + 1, c, 0, true);
}

/// The wire key of the `k`-th measurement group.
pub open spec fn meas_key(k: int) -> Seq<char> {
    if k == 0 { "AppInfo"@ }
    else if k == 1 { "ConnectionInfo"@ }
    else if k == 2 { "Origin"@ }
    else if k == 3 { "Test"@ }
    else { "TCPInfo"@ }
}

/// The serialized value of the `k`-th measurement group, when present.
pub open spec fn meas_valtext(v: crate::json::SpecMeasurement, k: int) -> Seq<char> {
    if k == 0 {
        crate::json::ser_app_info(v.app_info.unwrap())
    } else if k == 1 {
        crate::json::ser_conn_info(v.connection_info.unwrap())
    } else if k == 2 {
        ser_string(crate::json::origin_name(v.origin.unwrap()))
    } else if k == 3 {
        ser_string(crate::json::test_name(v.test.unwrap()))
    } else {
        ser_tcp_info(v.tcp_info.unwrap())
    }
}

/// The serialized members of a measurement in the `k`-th group.
pub open spec fn meas_group(v: crate::json::SpecMeasurement, k: int) -> Seq<Seq<char>> {
    if k == 0 {
        match v.app_info {
            Option::Some(a) => seq![entry("AppInfo"@, crate::json::ser_app_info(a))],
            Option::None => Seq::empty(),
        }
    } else if k == 1 {
        match v.connection_info {
            Option::Some(c) => seq![entry("ConnectionInfo"@, crate::json::ser_conn_info(c))],
            Option::None => Seq::empty(),
        }
    } else if k == 2 {
        match v.origin {
            Option::Some(o) => seq![entry("Origin"@, ser_string(crate::json::origin_name(o)))],
            Option::None => Seq::empty(),
        }
    } else if k == 3 {
        match v.test {
            Option::Some(t) => seq![entry("Test"@, ser_string(crate::json::test_name(t)))],
            Option::None => Seq::empty(),
        }
    } else {
        match v.tcp_info {
            Option::Some(t) => seq![entry("TCPInfo"@, ser_tcp_info(t))],
            Option::None => Seq::empty(),
        }
    }
}

/// The serialized members of a measurement from the `k`-th group on.
pub open spec fn meas_fields_from(v: crate::json::SpecMeasurement, k: int) -> Seq<Seq<char>>
    decreases 5 - k,
{
    if k >= 5 || k < 0 {
        Seq::empty()
    } else {
        meas_group(v, k) + meas_fields_from(v, k + 1)
    }
}

/// The measurement with fields at or after the `k`-th group cleared.
pub open spec fn meas_mask(v: crate::json::SpecMeasurement, k: int) -> crate::json::SpecMeasurement {
    crate::json::SpecMeasurement {
        app_info: if k > 0 { v.app_info } else { None },
        connection_info: if k > 1 { v.connection_info } else { None },
        origin: if k > 2 { v.origin } else { None },
        test: if k > 3 { v.test } else { None },
        tcp_info: if k > 4 { v.tcp_info } else { None },
    }
}

/// The chained suffixes cover exactly the serialized member list.
proof fn lemma_meas_fields_from_zero(v: crate::json::SpecMeasurement)
    ensures
        meas_fields_from(v, 0) == crate::json::measurement_fields(v),
{
    let g0 = meas_group(v, 0);
    let g1 = meas_group(v, 1);
    let g2 = meas_group(v, 2);
    let g3 = meas_group(v, 3);
    let g4 = meas_group(v, 4);
    let r4 = g4;
    let r3 = g3 + r4;
    let r2 = g2 + r3;
    let r1 = g1 + r2;
    let r0 = g0 + r1;
    assert(meas_fields_from(v, 5) =~= Seq::<Seq<char>>::empty());
    assert(meas_fields_from(v, 4) =~= r4);
    assert(meas_fields_from(v, 3) == r3);
    assert(meas_fields_from(v, 2) == r2);
    assert(meas_fields_from(v, 1) == r1);
    assert(meas_fields_from(v, 0) == r0);
    let l1 = g0 + g1;
    let l2 = l1 + g2;
    let l3 = l2 + g3;
    let l4 = l3 + g4;
    assert(crate::json::measurement_fields(v) == l4);
    lemma_concat_assoc(l2, g3, r4);
    lemma_concat_assoc(l1, g2, r3);
    lemma_concat_assoc(g0, g1, r2);
    assert(l4 == l3 + r4);
    assert(l3 + r4 == l2 + r3);
    assert(l2 + r3 == l1 + r2);
    assert(l1 + r2 == g0 + r1);
    assert(crate::json::measurement_fields(v) == r0);
}

/// Every measurement member opens with a quote.
proof fn lemma_meas_fields_quote(v: crate::json::SpecMeasurement, k: int)
    ensures
        forall|j: int|
            0 <= j < meas_fields_from(v, k).len() ==> (#[trigger] meas_fields_from(v, k)[j]).len()
                >= 1 && meas_fields_from(v, k)[j][0] == '"',
    decreases 5 - k,
{
    if 0 <= k < 5 {
        lemma_meas_fields_quote(v, k + 1);
        let g = meas_group(v, k);
        let rest = meas_fields_from(v, k + 1);
        assert forall|j: int|
            0 <= j < meas_fields_from(v, k).len() implies (#[trigger] meas_fields_from(v, k)[j]).len()
            >= 1 && meas_fields_from(v, k)[j][0] == '"' by {
            if j < g.len() {
                assert(meas_fields_from(v, k)[j] == g[j]);
            } else {
                assert(meas_fields_from(v, k)[j] == rest[j - g.len()]);
            }
        }
    }
}

/// A measurement whose serialized suffix is empty has no fields from
/// the `k`-th group on.
proof fn lemma_meas_tail_none(v: crate::json::SpecMeasurement, k: int)
    requires
        0 <= k <= 5,
        meas_fields_from(v, k).len() == 0,
    ensures
        meas_mask(v, k) == v,
    decreases 5 - k,
{
    if k < 5 {
        assert(meas_group(v, k).len() == 0);
        lemma_meas_tail_none(v, k + 1);
    }
}

/// One embedded serialized measurement member value parses back and
/// sets exactly its group's field.
#[verifier::rlimit(100)]
#[verifier::spinoff_prover]
proof fn lemma_meas_value_step(s: Seq<char>, i4: int, v: crate::json::SpecMeasurement, k: int)
    requires
        0 <= k < 5,
        meas_group(v, k).len() != 0,
        0 <= i4,
        i4 + meas_valtext(v, k).len() <= s.len(),
        s.subrange(i4, i4 + meas_valtext(v, k).len() as int) == meas_valtext(v, k),
    ensures
        skip_ws(s, i4) == i4,
        crate::json::meas_member_value(s, i4, meas_key(k), meas_mask(v, k)) == Some(
            (meas_mask(v, k + 1), i4 + meas_valtext(v, k).len() as int),
        ),
{
    reveal_strlit("AppInfo");
    reveal_strlit("ConnectionInfo");
    reveal_strlit("Origin");
    reveal_strlit("Test");
    reveal_strlit("TCPInfo");
    reveal_strlit("client");
    reveal_strlit("server");
    reveal_strlit("download");
    reveal_strlit("upload");
    assert(("AppInfo"@).len() == 7);
    assert(("ConnectionInfo"@).len() == 14);
    assert(("Origin"@).len() == 6);
    assert(("Test"@).len() == 4);
    assert(("TCPInfo"@).len() == 7);
    assert(("AppInfo"@)[0] == 'A');
    assert(("TCPInfo"@)[0] == 'T');
    assert(("client"@).len() == 6);
    assert(("server"@).len() == 6);
    assert(("client"@)[0] == 'c');
    assert(("server"@)[0] == 's');
    assert(("download"@).len() == 8);
    assert(("upload"@).len() == 6);
    let key = meas_key(k);
    let valtext = meas_valtext(v, k);
    let j_v = i4 + valtext.len() as int;
    lemma_embed(s, i4, valtext);
    let acc = meas_mask(v, k);
    let acc2 = meas_mask(v, k + 1);
    if k == 0 {
        let a = v.app_info.unwrap();
        assert(valtext[0] == '{');
        assert(s[i4 + 0] == valtext[0]);
        assert(skip_ws(s, i4) == i4);
        lemma_parse_app_info_of_ser(s, i4, a);
        assert(crate::json::meas_member_value(s, i4, key, acc) == Some((acc2, j_v)));
    } else if k == 1 {
        let c = v.connection_info.unwrap();
        assert(valtext[0] == '{');
        assert(s[i4 + 0] == valtext[0]);
        assert(skip_ws(s, i4) == i4);
        lemma_parse_conn_info_of_ser(s, i4, c);
        assert(crate::json::SpecConnInfo {
            client: c.client,
            server: c.server,
            uuid: c.uuid,
            start_time: c.start_time,
        } == c);
        assert(crate::json::meas_member_value(s, i4, key, acc) == Some((acc2, j_v)));
    } else if k == 2 {
        let o = v.origin.unwrap();
        lemma_string_value_at(s, i4, crate::json::origin_name(o), j_v);
        assert(crate::json::meas_member_value(s, i4, key, acc) == Some((acc2, j_v)));
    } else if k == 3 {
        let t = v.test.unwrap();
        lemma_string_value_at(s, i4, crate::json::test_name(t), j_v);
        assert(crate::json::meas_member_value(s, i4, key, acc) == Some((acc2, j_v)));
    } else {
        let t = v.tcp_info.unwrap();
        assert(valtext[0] == '{');
        assert(s[i4 + 0] == valtext[0]);
        assert(skip_ws(s, i4) == i4);
        lemma_parse_tcp_info_of_ser(s, i4, t);
        assert(crate::json::meas_member_value(s, i4, key, acc) == Some((acc2, j_v)));
    }
}

/// An embedded serialized measurement member list parses back to the
/// measurement, walking the remaining groups from `k` on.
#[verifier::rlimit(100)]
#[verifier::spinoff_prover]
proof fn lemma_meas_members_from(
    s: Seq<char>,
    i: int,
    v: crate::json::SpecMeasurement,
    k: int,
    first: bool,
)
    requires
        0 <= k <= 5,
        0 <= i,
        i + joined(meas_fields_from(v, k)).len() + 1 <= s.len(),
        s.subrange(i, i + joined(meas_fields_from(v, k)).len() + 1) == joined(
            meas_fields_from(v, k),
        ) + seq!['}'],
        meas_fields_from(v, k).len() == 0 ==> first,
    ensures
        crate::json::spec_parse_measurement_members(s, i, meas_mask(v, k), first) == Some(
            (v, i + joined(meas_fields_from(v, k)).len() + 1),
        ),
    decreases 5 - k,
{
    let fs = meas_fields_from(v, k);
    let body = joined(fs);
    let tt = body + seq!['}'];
    lemma_embed(s, i, tt);
    if fs.len() == 0 {
        assert(body =~= Seq::<char>::empty());
        assert(s[i + 0] == tt[0]);
        assert(s[i] == '}');
        lemma_meas_tail_none(v, k);
    } else if k < 5 && meas_group(v, k).len() == 0 {
        assert(meas_fields_from(v, k) =~= meas_fields_from(v, k + 1));
        assert(meas_fields_from(v, k) == meas_fields_from(v, k + 1));
        assert(meas_mask(v, k) == meas_mask(v, k + 1));
        lemma_meas_members_from(s, i, v, k + 1, first);
    } else {
        let key = meas_key(k);
        let valtext = meas_valtext(v, k);
        let e = entry(key, valtext);
        let rest = meas_fields_from(v, k + 1);
        assert(meas_group(v, k) =~= seq![e]);
        assert(fs =~= seq![e] + rest);
        assert(fs.len() >= 1);
        assert(fs[0] == e);
        assert(fs.drop_first() =~= rest);
        let tail: Seq<char> = if rest.len() == 0 {
            seq!['}']
        } else {
            seq![','] + joined(rest) + seq!['}']
        };
        assert(tt =~= e + tail);
        lemma_key_positions(s, i, key, valtext, tail);
        let i_k = i + ser_string(key).len() as int;
        let i4 = i_k + 1;
        let j_v = i4 + valtext.len() as int;
        assert(s[i + (e.len() as int)] == tt[e.len() as int]);
        assert(tt[e.len() as int] == tail[0]);
        assert(tail[0] == ',' || tail[0] == '}');
        assert(s[j_v] == tail[0]);
        assert(!crate::json::is_ws(s[j_v]));
        assert(skip_ws(s, j_v) == j_v);
        // the value parses back and begins with a non-whitespace
        // character
        lemma_embed_sub(s, i, tt, i4 - i, j_v - i);
        assert(tt.subrange(i4 - i, j_v - i) =~= valtext);
        let acc = meas_mask(v, k);
        let acc2 = meas_mask(v, k + 1);
        lemma_meas_value_step(s, i4, v, k);
        assert(crate::json::meas_member_value(s, i4, key, acc) == Some((acc2, j_v)));
        if rest.len() == 0 {
            assert(s[j_v] == '}');
            assert(meas_fields_from(v, k + 1).len() == 0);
            lemma_meas_tail_none(v, k + 1);
            assert(crate::json::spec_parse_measurement_members(s, i, acc, first) == Some(
                (v, j_v + 1),
            ));
        } else {
            assert(s[j_v] == ',');
            let nx = j_v + 1;
            assert(tt =~= e + seq![','] + (joined(rest) + seq!['}']));
            lemma_embed_sub(s, i, tt, e.len() as int + 1, tt.len() as int);
            assert(tt.subrange(e.len() as int + 1, tt.len() as int) =~= joined(rest)
                + seq!['}']);
            lemma_meas_fields_quote(v, k + 1);
            lemma_joined_head(rest);
            assert(s[nx + 0] == (joined(rest) + seq!['}'])[0]);
            assert(s[nx] == '"');
            assert(skip_ws(s, nx) == nx);
            lemma_meas_members_from(s, nx, v, k + 1, false);
        }
    }
}

/// The round-trip law of the wire codec: a measurement serialized in
/// canonical form parses back to exactly the same measurement, field
/// for field.
#[verifier::rlimit(100)]
#[verifier::spinoff_prover]
pub proof fn lemma_measurement_round_trip(v: crate::json::SpecMeasurement)
    ensures
        crate::json::spec_parse_measurement_text(crate::json::ser_measurement(v)) == Some(v),
{
    let s = crate::json::ser_measurement(v);
    lemma_meas_fields_from_zero(v);
    let body = joined(meas_fields_from(v, 0));
    assert(s == seq!['{'] + body + seq!['}']);
    assert(s.subrange(0, s.len() as int) =~= s);
    lemma_embed(s, 0, s);
    assert(s[(0 + 0) as int] == s[0int]);
    assert(s[0] == '{');
    assert(!crate::json::is_ws(s[0]));
    assert(skip_ws(s, 0) == 0);
    lemma_embed_sub(s, 0, s, 1, s.len() as int);
    assert(s.subrange(1, s.len() as int) =~= body + seq!['}']);
    if meas_fields_from(v, 0).len() > 0 {
        lemma_meas_fields_quote(v, 0);
        lemma_joined_head(meas_fields_from(v, 0));
        assert(s[(0 + 1) as int] == s[1int]);
        assert(s[1] == (seq!['{'] + body + seq!['}'])[1]);
        assert(s[1] == '"');
        assert(skip_ws(s, 1) == 1);
    } else {
        assert(body =~= Seq::<char>::empty());
        assert(s[1] == (seq!['{'] + body + seq!['}'])[1]);
        assert(s[1] == '}');
        assert(skip_ws(s, 1) == 1);
    }
    assert(meas_mask(v, 0) == crate::json::spec_empty_measurement());
    lemma_meas_members_from(s, 1, v, 0, true);
    assert(1 + body.len() + 1 == s.len());
    assert(skip_ws(s, s.len() as int) == s.len());
}

} // verus!
