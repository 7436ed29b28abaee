use vstd::prelude::*;

use crate::json::{
    digit_val, digits_value, is_ws, key_count_from, key_first_from, parse_members_at,
    parse_na_at, parse_null_at, parse_number_at, parse_payload, parse_string_at, parse_value_at,
    pow10, scan_digits, scan_plain, skip_ws, JsonValView, MemberView,
};
use crate::num::{all_digits, is_digit, DecimalView};
use crate::text::{dec_digits, digit_char, match_at};

verus! {

/// A run of plain body characters ends exactly at the stop character.
proof fn lemma_scan_plain_is(q: Seq<char>, a: int, b: int)
    requires
        0 <= a <= b <= q.len(),
        forall|k: int| a <= k < b ==> #[trigger] q[k] != '"' && q[k] != '\\',
        b == q.len() || q[b] == '"' || q[b] == '\\',
    ensures
        scan_plain(q, a) == b,
    decreases b - a,
{
    if a < b {
        lemma_scan_plain_is(q, a + 1, b);
    }
}

/// A run of digits ends exactly at the first non-digit.
proof fn lemma_scan_digits_is(q: Seq<char>, a: int, b: int)
    requires
        0 <= a <= b <= q.len(),
        forall|k: int| a <= k < b ==> is_digit(#[trigger] q[k]),
        b == q.len() || !is_digit(q[b]),
    ensures
        scan_digits(q, a) == b,
    decreases b - a,
{
    if a < b {
        lemma_scan_digits_is(q, a + 1, b);
    }
}

/// Reading back the written digit gives the digit.
proof fn lemma_digit_char_val(d: int)
    requires
        0 <= d <= 9,
    ensures
        digit_val(digit_char(d)) == d,
        is_digit(digit_char(d)),
{
}

/// The written decimal digits of `n` are digits, start without a leading
/// zero unless `n` is zero, and read back as `n`.
proof fn lemma_dec_digits_props(n: int)
    requires
        n >= 0,
    ensures
        dec_digits(n).len() >= 1,
        all_digits(dec_digits(n)),
        n >= 1 ==> dec_digits(n)[0] != '0',
        n == 0 ==> dec_digits(n) =~= seq!['0'],
    decreases n,
{
    if n < 10 {
        lemma_digit_char_val(n);
        assert(dec_digits(n) =~= seq![digit_char(n)]);
    } else {
        lemma_dec_digits_props(n / 10);
        lemma_digit_char_val(n % 10);
        assert(dec_digits(n) =~= dec_digits(n / 10).push(digit_char(n % 10)));
        assert(dec_digits(n)[0] == dec_digits(n / 10)[0]);
        assert forall|i: int| 0 <= i < dec_digits(n).len() implies is_digit(
            #[trigger] dec_digits(n)[i],
        ) by {
            if i < dec_digits(n / 10).len() {
                assert(dec_digits(n)[i] == dec_digits(n / 10)[i]);
            }
        }
    }
}

/// `n` written in at most `k` digits when it is below ten to the `k`.
proof fn lemma_dec_digits_len(n: int, k: int)
    requires
        0 <= n,
        1 <= k,
        n < pow10(k),
    ensures
        dec_digits(n).len() <= k,
    decreases k,
{
    if n >= 10 {
        assert(pow10(k) == 10 * pow10(k - 1));
        assert(n / 10 < pow10(k - 1)) by (nonlinear_arith)
            requires
                n < 10 * pow10(k - 1),
                n >= 10,
        ;
        assert(k >= 2) by {
            if k == 1 {
                assert(pow10(1) == 10);
            }
        }
        lemma_dec_digits_len(n / 10, k - 1);
    }
}

/// A digit run placed in a larger text reads back as its value.
proof fn lemma_digits_value_matches(s: Seq<char>, i: int, j: int, n: int)
    requires
        0 <= i <= j <= s.len(),
        n >= 0,
        s.subrange(i, j) == dec_digits(n),
    ensures
        digits_value(s, i, j) == n,
    decreases n,
{
    lemma_dec_digits_props(n);
    if n < 10 {
        assert(j == i + 1);
        assert(s.subrange(i, j)[0] == s[i]);
        assert(s[i] == dec_digits(n)[0]);
        lemma_digit_char_val(n);
        assert(digits_value(s, i, i) == 0);
        assert(digits_value(s, i, j) == digits_value(s, i, i) * 10 + digit_val(s[i]));
    } else {
        assert(dec_digits(n) =~= dec_digits(n / 10).push(digit_char(n % 10)));
        assert(s.subrange(i, j - 1) =~= dec_digits(n / 10)) by {
            assert forall|k: int| 0 <= k < j - 1 - i implies #[trigger] s.subrange(i, j - 1)[k]
                == dec_digits(n / 10)[k] by {
                assert(s.subrange(i, j)[k] == dec_digits(n)[k]);
            }
            assert(s.subrange(i, j - 1).len() == dec_digits(n / 10).len());
        }
        lemma_digits_value_matches(s, i, j - 1, n / 10);
        assert(s.subrange(i, j)[j - 1 - i] == s[j - 1]);
        assert(s[j - 1] == dec_digits(n)[j - 1 - i]);
        lemma_digit_char_val(n % 10);
    }
}

/// The written form of a decimal number: its whole digits, then the
/// written fraction digits after a point where any exist.
pub open spec fn render_dec(d: DecimalView) -> Seq<char> {
    if d.frac.len() > 0 {
        dec_digits(d.int_part as int) + seq!['.'] + d.frac
    } else {
        dec_digits(d.int_part as int)
    }
}

/// A decimal that the protocol can carry back: fraction digits only, and a
/// whole part of at most eighteen digits.
pub open spec fn dec_renderable(d: DecimalView) -> bool {
    d.wf() && (d.int_part as int) < pow10(18)
}

/// A character of a rendered string body: a letter, digit, dash or
/// underscore.
pub open spec fn plain_char(c: char) -> bool {
    ('a' <= c && c <= 'z') || ('A' <= c && c <= 'Z') || ('0' <= c && c <= '9') || c == '-' || c
        == '_'
}

/// No two adjacent positions of `s` spell the pair `c1`, `c2`.
pub open spec fn no_pair(s: Seq<char>, c1: char, c2: char) -> bool {
    forall|i: int| 0 <= i < s.len() - 1 ==> !(s[i] == c1 && #[trigger] s[i + 1] == c2)
}

/// A string body the protocol can carry back: plain characters, never a
/// doubled underscore (which would spell the sentinel and split the line).
pub open spec fn benign_text(s: Seq<char>) -> bool {
    (forall|i: int| 0 <= i < s.len() ==> plain_char(#[trigger] s[i])) && no_pair(s, '_', '_')
}

/// A number at `i` written as `render_dec(d)` and ended by a terminator
/// that is neither digit nor point parses back to exactly `d`.
proof fn lemma_parse_number_is(q: Seq<char>, i: int, d: DecimalView)
    requires
        dec_renderable(d),
        0 <= i,
        i + render_dec(d).len() <= q.len(),
        q.subrange(i, i + render_dec(d).len()) == render_dec(d),
        i + render_dec(d).len() == q.len() || (!is_digit(q[i + render_dec(d).len()]) && q[i
            + render_dec(d).len()] != '.'),
    ensures
        parse_number_at(q, i) == Some((d, i + render_dec(d).len())),
{
    let n = d.int_part as int;
    let digits = dec_digits(n);
    let dlen = digits.len() as int;
    let rlen = render_dec(d).len() as int;
    lemma_dec_digits_props(n);
    lemma_dec_digits_len(n, 18);
    assert forall|k: int| i <= k < i + dlen implies is_digit(#[trigger] q[k]) by {
        assert(q.subrange(i, i + rlen)[k - i] == q[k]);
        assert(render_dec(d)[k - i] == digits[k - i]);
    }
    assert(q.subrange(i, i + rlen)[0] == q[i]);
    assert(q[i] == digits[0]);
    assert(is_digit(q[i]));
    if d.frac.len() > 0 {
        let flen = d.frac.len() as int;
        assert(q.subrange(i, i + rlen)[dlen] == q[i + dlen]);
        assert(render_dec(d)[dlen] == '.');
        assert(q[i + dlen] == '.');
        lemma_scan_digits_is(q, i, i + dlen);
        assert(scan_digits(q, i) == i + dlen);
        // no leading zero unless the whole part is the one digit zero
        if q[i] == '0' {
            assert(digits[0] == '0');
            assert(n == 0) by {
                if n >= 1 {
                    assert(digits[0] != '0');
                }
            }
            assert(dlen == 1);
        }
        assert forall|k: int| i + dlen + 1 <= k < i + rlen implies is_digit(#[trigger] q[k]) by {
            assert(q.subrange(i, i + rlen)[k - i] == q[k]);
            assert(render_dec(d)[k - i] == d.frac[k - i - dlen - 1]);
        }
        lemma_scan_digits_is(q, i + dlen + 1, i + rlen);
        assert forall|t: int| 0 <= t < flen implies #[trigger] q.subrange(
            i + dlen + 1,
            i + rlen,
        )[t] == d.frac[t] by {
            assert(q.subrange(i + dlen + 1, i + rlen)[t] == q[i + dlen + 1 + t]);
            assert(q.subrange(i, i + rlen)[dlen + 1 + t] == q[i + dlen + 1 + t]);
            assert(render_dec(d)[dlen + 1 + t] == d.frac[t]);
        }
        assert(q.subrange(i + dlen + 1, i + rlen) =~= d.frac);
        assert forall|t: int| 0 <= t < dlen implies #[trigger] q.subrange(i, i + dlen)[t]
            == digits[t] by {
            assert(q.subrange(i, i + dlen)[t] == q[i + t]);
            assert(q.subrange(i, i + rlen)[t] == q[i + t]);
            assert(render_dec(d)[t] == digits[t]);
        }
        assert(q.subrange(i, i + dlen) =~= digits);
        lemma_digits_value_matches(q, i, i + dlen, n);
        assert(parse_number_at(q, i) == Some((d, i + rlen)));
    } else {
        assert(rlen == dlen);
        assert(i + dlen == q.len() || (!is_digit(q[i + dlen]) && q[i + dlen] != '.'));
        lemma_scan_digits_is(q, i, i + dlen);
        if q[i] == '0' {
            assert(digits[0] == '0');
            assert(n == 0) by {
                if n >= 1 {
                    assert(digits[0] != '0');
                }
            }
            assert(dlen == 1);
        }
        assert(q.subrange(i, i + dlen) =~= digits) by {
            assert(q.subrange(i, i + rlen) == render_dec(d));
        }
        lemma_digits_value_matches(q, i, i + dlen, n);
        assert(parse_number_at(q, i) == Some((DecimalView { int_part: d.int_part, frac: Seq::<
            char,
        >::empty() }, i + rlen)));
        assert(d =~= (DecimalView { int_part: d.int_part, frac: Seq::<char>::empty() })) by {
            assert(d.frac =~= Seq::<char>::empty());
        }
    }
}

/// A quoted body at `i` whose characters are plain parses back to exactly
/// that body.
proof fn lemma_parse_string_is(q: Seq<char>, i: int, body: Seq<char>)
    requires
        0 <= i,
        i + body.len() + 2 <= q.len(),
        q[i] == '"',
        q.subrange(i + 1, i + 1 + body.len()) == body,
        q[i + 1 + body.len()] == '"',
        forall|k: int| 0 <= k < body.len() ==> #[trigger] body[k] != '"' && body[k] != '\\',
    ensures
        parse_string_at(q, i) == Some((body, i + body.len() + 2)),
{
    let blen = body.len() as int;
    assert forall|k: int| i + 1 <= k < i + 1 + blen implies #[trigger] q[k] != '"' && q[k]
        != '\\' by {
        assert(q.subrange(i + 1, i + 1 + blen)[k - i - 1] == q[k]);
        assert(body[k - i - 1] != '"' && body[k - i - 1] != '\\');
    }
    lemma_scan_plain_is(q, i + 1, i + 1 + blen);
    assert(q.subrange(i + 1, i + 1 + blen) =~= body);
}

/// The keyword at `i` parses as null.
proof fn lemma_parse_null_is(q: Seq<char>, i: int)
    requires
        0 <= i,
        i + 4 <= q.len(),
        q.subrange(i, i + 4) == "null"@,
    ensures
        parse_null_at(q, i) == Some(i + 4),
{
    reveal_strlit("null");
    assert(q.subrange(i, i + 4) =~= seq!['n', 'u', 'l', 'l']);
    assert(match_at(q, seq!['n', 'u', 'l', 'l'], i));
}

} // verus!

verus! {

/// The written form of a payload value.
pub open spec fn render_value(v: JsonValView) -> Seq<char> {
    match v {
        JsonValView::Str(s) => seq!['"'] + s + seq!['"'],
        JsonValView::Num(d) => render_dec(d),
        JsonValView::Null => "null"@,
        JsonValView::Other => Seq::<char>::empty(),
    }
}

/// A value the protocol can carry back.
pub open spec fn value_renderable(v: JsonValView) -> bool {
    match v {
        JsonValView::Str(s) => benign_text(s),
        JsonValView::Num(d) => dec_renderable(d),
        JsonValView::Null => true,
        JsonValView::Other => false,
    }
}

/// A value written at `i` and ended by a comma or closing brace parses
/// back to exactly that value.
proof fn lemma_parse_value_is(q: Seq<char>, i: int, v: JsonValView)
    requires
        value_renderable(v),
        0 <= i,
        i + render_value(v).len() < q.len(),
        q.subrange(i, i + render_value(v).len()) == render_value(v),
        q[i + render_value(v).len()] == ',' || q[i + render_value(v).len()] == '}',
    ensures
        parse_value_at(q, i) == Some((v, i + render_value(v).len())),
{
    let rv = render_value(v);
    let rvlen = rv.len() as int;
    match v {
        JsonValView::Str(s) => {
            let slen = s.len() as int;
            assert(rvlen == slen + 2);
            assert(q[i] == '"') by {
                assert(q.subrange(i, i + rvlen)[0] == rv[0]);
            }
            assert forall|t: int| 0 <= t < slen implies #[trigger] q.subrange(
                i + 1,
                i + 1 + slen,
            )[t] == s[t] by {
                assert(q.subrange(i + 1, i + 1 + slen)[t] == q[i + 1 + t]);
                assert(q.subrange(i, i + rvlen)[1 + t] == rv[1 + t]);
                assert(rv[1 + t] == s[t]);
            }
            assert(q.subrange(i + 1, i + 1 + slen) =~= s);
            assert(q[i + 1 + slen] == '"') by {
                assert(q.subrange(i, i + rvlen)[1 + slen] == rv[1 + slen]);
                assert(rv[1 + slen] == '"');
            }
            assert forall|k: int| 0 <= k < slen implies #[trigger] s[k] != '"' && s[k]
                != '\\' by {
                assert(plain_char(s[k]));
            }
            lemma_parse_string_is(q, i, s);
        },
        JsonValView::Num(d) => {
            lemma_dec_digits_props(d.int_part as int);
            assert(rvlen >= 1);
            assert(q[i] == rv[0]) by {
                assert(q.subrange(i, i + rvlen)[0] == rv[0]);
            }
            assert(rv[0] == dec_digits(d.int_part as int)[0]);
            assert(is_digit(q[i]));
            assert(q[i] != '"');
            lemma_parse_number_is(q, i, d);
        },
        JsonValView::Null => {
            reveal_strlit("null");
            assert(rvlen == 4);
            assert(q[i] == 'n') by {
                assert(q.subrange(i, i + rvlen)[0] == rv[0]);
            }
            assert(q[i] != '"');
            assert(!is_digit(q[i]) && q[i] != '-');
            assert(q.subrange(i, i + 4) == "null"@);
            lemma_parse_null_is(q, i);
            assert(parse_na_at(q, i) is None) by {
                if crate::text::match_at(q, seq!['N', 'A'], i) {
                    assert(q.subrange(i, i + 2)[0] == q[i]);
                }
            }
        },
        JsonValView::Other => {
            assert(false);
        },
    }
}

/// One written `"key":value` pair of a payload object.
pub open spec fn render_member(m: MemberView) -> Seq<char> {
    seq!['"'] + m.key + seq!['"', ':'] + render_value(m.val)
}

/// A member the protocol can carry back: a non-empty key without quote or
/// backslash, and a carriable value.
pub open spec fn member_renderable(m: MemberView) -> bool {
    m.key.len() >= 1 && (forall|k: int|
        0 <= k < m.key.len() ==> #[trigger] m.key[k] != '"' && m.key[k] != '\\' && !is_ws(
            m.key[k],
        )) && value_renderable(m.val)
}

/// The written members of an object from after its opening brace to its
/// closing brace: each pair, commas between pairs, the brace at the end.
pub open spec fn render_members_tail(ms: Seq<MemberView>) -> Seq<char>
    decreases ms.len(),
{
    if ms.len() == 0 {
        seq!['}']
    } else if ms.len() == 1 {
        render_member(ms[0]) + seq!['}']
    } else {
        render_member(ms[0]) + seq![','] + render_members_tail(ms.drop_first())
    }
}

/// A written member run parses back to exactly those members, ending just
/// after the closing brace.
#[verifier::rlimit(100)]
proof fn lemma_parse_members_is(q: Seq<char>, i: int, ms: Seq<MemberView>)
    requires
        ms.len() >= 1,
        forall|k: int| 0 <= k < ms.len() ==> member_renderable(#[trigger] ms[k]),
        0 <= i,
        i + render_members_tail(ms).len() <= q.len(),
        q.subrange(i, i + render_members_tail(ms).len() as int) == render_members_tail(ms),
    ensures
        parse_members_at(q, i) == Some((ms, i + render_members_tail(ms).len())),
    decreases ms.len(),
{
    let tail = render_members_tail(ms);
    let tlen = tail.len() as int;
    let m = ms[0];
    assert(member_renderable(m));
    let key = m.key;
    let klen = key.len() as int;
    let rv = render_value(m.val);
    let rvlen = rv.len() as int;
    let rm = render_member(m);
    let rmlen = rm.len() as int;
    assert(rmlen == klen + 3 + rvlen);
    assert(tlen == rmlen + 1 + (if ms.len() == 1 { 0int } else {
        render_members_tail(ms.drop_first()).len() as int
    }));

    // opening quote, key, closing quote, colon
    assert(q[i] == '"') by {
        assert(q.subrange(i, i + tlen)[0] == tail[0]);
        assert(tail[0] == rm[0]);
        assert(rm[0] == '"');
    }
    assert(!is_ws('"'));
    assert(skip_ws(q, i) == i);
    assert forall|t: int| 0 <= t < klen implies #[trigger] q.subrange(i + 1, i + 1 + klen)[t]
        == key[t] by {
        assert(q.subrange(i + 1, i + 1 + klen)[t] == q[i + 1 + t]);
        assert(q.subrange(i, i + tlen)[1 + t] == tail[1 + t]);
        assert(tail[1 + t] == rm[1 + t]);
        assert(rm[1 + t] == key[t]);
    }
    assert(q.subrange(i + 1, i + 1 + klen) =~= key);
    assert(q[i + 1 + klen] == '"') by {
        assert(q.subrange(i, i + tlen)[1 + klen] == tail[1 + klen]);
        assert(tail[1 + klen] == rm[1 + klen]);
        assert(rm[1 + klen] == '"');
    }
    lemma_parse_string_is(q, i, key);
    let j2 = i + klen + 2;
    assert(parse_string_at(q, i) == Some((key, j2)));
    assert(q[j2] == ':') by {
        assert(q.subrange(i, i + tlen)[klen + 2] == tail[klen + 2]);
        assert(tail[klen + 2] == rm[klen + 2]);
        assert(rm[klen + 2] == ':');
    }
    assert(!is_ws(':'));
    assert(skip_ws(q, j2) == j2);

    // the value, ended by a comma or the closing brace
    let iv = j2 + 1;
    assert forall|t: int| 0 <= t < rvlen implies #[trigger] q.subrange(iv, iv + rvlen)[t]
        == rv[t] by {
        assert(q.subrange(iv, iv + rvlen)[t] == q[iv + t]);
        assert(q.subrange(i, i + tlen)[klen + 3 + t] == tail[klen + 3 + t]);
        assert(tail[klen + 3 + t] == rm[klen + 3 + t]);
        assert(rm[klen + 3 + t] == rv[t]);
    }
    assert(q.subrange(iv, iv + rvlen) =~= rv);
    let it = iv + rvlen;
    assert(it == i + rmlen);
    if ms.len() == 1 {
        assert(q[it] == '}') by {
            assert(q.subrange(i, i + tlen)[rmlen] == tail[rmlen]);
            assert(tail[rmlen] == '}');
        }
    } else {
        assert(q[it] == ',') by {
            assert(q.subrange(i, i + tlen)[rmlen] == tail[rmlen]);
            assert(tail[rmlen] == ',');
        }
    }
    assert(q[iv] != ' ' && q[iv] != '\t' && q[iv] != '\n' && q[iv] != '\r') by {
        assert(q.subrange(iv, iv + rvlen)[0] == rv[0]);
        match m.val {
            JsonValView::Str(s) => {
                assert(rv[0] == '"');
            },
            JsonValView::Num(d) => {
                lemma_dec_digits_props(d.int_part as int);
                assert(rv[0] == dec_digits(d.int_part as int)[0]);
                assert(is_digit(q[iv]));
            },
            JsonValView::Null => {
                reveal_strlit("null");
                assert(rv[0] == 'n');
            },
            JsonValView::Other => {
                assert(false);
            },
        }
    }
    assert(skip_ws(q, iv) == iv);
    lemma_parse_value_is(q, iv, m.val);
    assert(parse_value_at(q, iv) == Some((m.val, it)));
    assert(!is_ws(',') && !is_ws('}'));
    assert(skip_ws(q, it) == it);

    if ms.len() == 1 {
        assert(q[it] == '}');
        assert(q[it] != ',');
        assert(parse_members_at(q, i) == Some((seq![m], it + 1)));
        assert(seq![m] =~= ms);
        assert(it + 1 == i + tlen);
    } else {
        let rest = ms.drop_first();
        let rtail = render_members_tail(rest);
        let rtlen = rtail.len() as int;
        assert(tlen == rmlen + 1 + rtlen);
        assert forall|t: int| 0 <= t < rtlen implies #[trigger] q.subrange(
            it + 1,
            it + 1 + rtlen,
        )[t] == rtail[t] by {
            assert(q.subrange(it + 1, it + 1 + rtlen)[t] == q[it + 1 + t]);
            assert(q.subrange(i, i + tlen)[rmlen + 1 + t] == tail[rmlen + 1 + t]);
            assert(tail[rmlen + 1 + t] == rtail[t]);
        }
        assert(q.subrange(it + 1, it + 1 + rtlen) =~= rtail);
        assert forall|k: int| 0 <= k < rest.len() implies member_renderable(
            #[trigger] rest[k],
        ) by {
            assert(rest[k] == ms[k + 1]);
        }
        lemma_parse_members_is(q, it + 1, rest);
        assert(parse_members_at(q, it + 1) == Some((rest, it + 1 + rtlen)));
        assert(parse_members_at(q, i) == Some((seq![m] + rest, it + 1 + rtlen)));
        assert(seq![m] + rest =~= ms);
        assert(it + 1 + rtlen == i + tlen);
    }
}

/// A whole written object parses back to exactly its members.
proof fn lemma_parse_payload_is(p: Seq<char>, ms: Seq<MemberView>)
    requires
        ms.len() >= 1,
        forall|k: int| 0 <= k < ms.len() ==> member_renderable(#[trigger] ms[k]),
        p == seq!['{'] + render_members_tail(ms),
    ensures
        parse_payload(p) == Some(ms),
{
    let tail = render_members_tail(ms);
    let tlen = tail.len() as int;
    assert(p.len() == 1 + tlen);
    assert(p[0] == (seq!['{'] + tail)[0]);
    assert(p[0] == '{');
    assert(render_members_tail(ms).len() >= 1);
    assert(!is_ws('{'));
    assert(skip_ws(p, 0) == 0);
    let m = ms[0];
    assert(member_renderable(m));
    assert(p[1] == '"') by {
        assert(p[1] == (seq!['{'] + tail)[1]);
        assert((seq!['{'] + tail)[1] == tail[0]);
        assert(tail[0] == render_member(m)[0]);
        assert(render_member(m)[0] == '"');
    }
    assert(!is_ws('"'));
    assert(skip_ws(p, 1) == 1);
    assert(p[1] != '}');
    assert(p.subrange(1, 1 + tlen) =~= tail);
    lemma_parse_members_is(p, 1, ms);
    assert(parse_members_at(p, 1) == Some((ms, 1 + tlen)));
    assert(skip_ws(p, 1 + tlen) == 1 + tlen);
    assert(parse_payload(p) == Some(ms));
}

} // verus!

verus! {

/// One member.
pub open spec fn mem(k: Seq<char>, v: JsonValView) -> MemberView {
    MemberView { key: k, val: v }
}

/// An optional number written as itself or as null.
pub open spec fn num_or_null(d: Option<DecimalView>) -> JsonValView {
    match d {
        Some(x) => JsonValView::Num(x),
        None => JsonValView::Null,
    }
}

/// An optional playlist counter written as a whole number or as null.
pub open spec fn idx_or_null(v: Option<u32>) -> JsonValView {
    match v {
        Some(x) => JsonValView::Num(DecimalView { int_part: x as u64, frac: Seq::<char>::empty() }),
        None => JsonValView::Null,
    }
}

/// The members of an event's canonical payload: the tag first, then the
/// tag's fields in the order the progress template prints them.
pub open spec fn members_of_event(e: crate::progress::ProgressView) -> Seq<MemberView> {
    match e {
        crate::progress::ProgressView::PreProcessing => seq![
            mem("type"@, JsonValView::Str("pre_processing"@)),
        ],
        crate::progress::ProgressView::PreDownload { video_id } => seq![
            mem("type"@, JsonValView::Str("pre_download"@)),
            mem("video_id"@, JsonValView::Str(video_id)),
        ],
        crate::progress::ProgressView::Downloading {
            eta,
            downloaded_bytes,
            total_bytes,
            total_bytes_estimate,
            elapsed,
            speed,
            playlist_count,
            playlist_index,
        } => seq![
            mem("type"@, JsonValView::Str("downloading"@)),
            mem("eta"@, num_or_null(eta)),
            mem("downloaded_bytes"@, JsonValView::Num(downloaded_bytes)),
            mem("total_bytes"@, num_or_null(total_bytes)),
            mem("total_bytes_estimate"@, num_or_null(total_bytes_estimate)),
            mem("elapsed"@, JsonValView::Num(elapsed)),
            mem("speed"@, num_or_null(speed)),
            mem("playlist_count"@, idx_or_null(playlist_count)),
            mem("playlist_index"@, idx_or_null(playlist_index)),
        ],
        crate::progress::ProgressView::EndOfVideo => seq![
            mem("type"@, JsonValView::Str("end_of_video"@)),
        ],
        crate::progress::ProgressView::EndOfPlaylist => seq![
            mem("type"@, JsonValView::Str("end_of_playlist"@)),
        ],
        crate::progress::ProgressView::PostProcessing { status } => seq![
            mem("type"@, JsonValView::Str("post_processing"@)),
            mem("status"@, JsonValView::Str(status)),
        ],
        crate::progress::ProgressView::Error { message } => seq![
            mem("type"@, JsonValView::Str("error"@)),
            mem("message"@, JsonValView::Str(message)),
        ],
    }
}

/// The canonical payload text of an event.
pub open spec fn render_payload(e: crate::progress::ProgressView) -> Seq<char> {
    seq!['{'] + render_members_tail(members_of_event(e))
}

/// The canonical sentinel-prefixed fragment of an event.
pub open spec fn render_fragment(e: crate::progress::ProgressView) -> Seq<char> {
    "__"@ + render_payload(e)
}

/// An optional number the protocol can carry back.
pub open spec fn opt_dec_renderable(d: Option<DecimalView>) -> bool {
    match d {
        Some(x) => dec_renderable(x),
        None => true,
    }
}

/// An optional playlist counter the protocol can carry back: at most the
/// largest signed 32-bit value.
pub open spec fn opt_idx_renderable(v: Option<u32>) -> bool {
    match v {
        Some(x) => x <= 0x7fffffff,
        None => true,
    }
}

/// An event whose canonical payload the parser reads back exactly: string
/// payloads benign, numbers within the written-number grammar, playlist
/// counters within the signed 32-bit range.
pub open spec fn event_renderable(e: crate::progress::ProgressView) -> bool {
    match e {
        crate::progress::ProgressView::PreProcessing => true,
        crate::progress::ProgressView::PreDownload { video_id } => benign_text(video_id),
        crate::progress::ProgressView::Downloading {
            eta,
            downloaded_bytes,
            total_bytes,
            total_bytes_estimate,
            elapsed,
            speed,
            playlist_count,
            playlist_index,
        } => dec_renderable(downloaded_bytes) && dec_renderable(elapsed) && opt_dec_renderable(eta)
            && opt_dec_renderable(total_bytes) && opt_dec_renderable(total_bytes_estimate)
            && opt_dec_renderable(speed) && opt_idx_renderable(playlist_count)
            && opt_idx_renderable(playlist_index),
        crate::progress::ProgressView::EndOfVideo => true,
        crate::progress::ProgressView::EndOfPlaylist => true,
        crate::progress::ProgressView::PostProcessing { status } => benign_text(status),
        crate::progress::ProgressView::Error { message } => benign_text(message),
    }
}

/// Assembling an event's canonical members gives back exactly the event.
#[verifier::rlimit(100)]
proof fn lemma_event_of_canonical_members(e: crate::progress::ProgressView)
    requires
        event_renderable(e),
    ensures
        crate::progress::event_of_members(members_of_event(e)) == Some(e),
{
    reveal_with_fuel(key_count_from, 12);
    reveal_with_fuel(key_first_from, 12);
    reveal_strlit("type");
    reveal_strlit("video_id");
    reveal_strlit("eta");
    reveal_strlit("downloaded_bytes");
    reveal_strlit("total_bytes");
    reveal_strlit("total_bytes_estimate");
    reveal_strlit("elapsed");
    reveal_strlit("speed");
    reveal_strlit("playlist_count");
    reveal_strlit("playlist_index");
    reveal_strlit("status");
    reveal_strlit("message");
    reveal_strlit("pre_processing");
    reveal_strlit("pre_download");
    reveal_strlit("downloading");
    reveal_strlit("end_of_video");
    reveal_strlit("end_of_playlist");
    reveal_strlit("post_processing");
    reveal_strlit("error");
    assert("type"@.len() == 4);
    assert("video_id"@.len() == 8);
    assert("status"@.len() == 6);
    assert("message"@.len() == 7);
    assert("pre_processing"@.len() == 14);
    assert("pre_download"@.len() == 12);
    assert("downloading"@.len() == 11);
    assert("end_of_video"@.len() == 12);
    assert("end_of_playlist"@.len() == 15);
    assert("post_processing"@.len() == 15);
    assert("error"@.len() == 5);
    let ms = members_of_event(e);
    match e {
        crate::progress::ProgressView::PreProcessing => {
            assert(key_count_from(ms, "type"@, 0) == 1);
            assert(crate::progress::req_string(ms, "type"@) == Some("pre_processing"@));
        },
        crate::progress::ProgressView::PreDownload { video_id } => {
            assert("video_id"@.len() == 8);
            assert(key_count_from(ms, "type"@, 0) == 1);
            assert(crate::progress::req_string(ms, "type"@) == Some("pre_download"@));
            assert("pre_download"@ != "pre_processing"@) by {
                assert("pre_download"@.len() == 12);
                assert("pre_processing"@.len() == 14);
            }
            assert(key_count_from(ms, "video_id"@, 0) == 1);
            assert(crate::progress::req_string(ms, "video_id"@) == Some(video_id));
        },
        crate::progress::ProgressView::EndOfVideo => {
            assert(key_count_from(ms, "type"@, 0) == 1);
            assert(crate::progress::req_string(ms, "type"@) == Some("end_of_video"@));
            assert("end_of_video"@ != "pre_processing"@) by {
                assert("end_of_video"@.len() == 12);
                assert("pre_processing"@.len() == 14);
            }
            assert("end_of_video"@ != "pre_download"@) by {
                assert("end_of_video"@[0] == 'e');
                assert("pre_download"@[0] == 'p');
            }
            assert("end_of_video"@ != "downloading"@);
        },
        crate::progress::ProgressView::EndOfPlaylist => {
            assert(key_count_from(ms, "type"@, 0) == 1);
            assert(crate::progress::req_string(ms, "type"@) == Some("end_of_playlist"@));
            assert("end_of_playlist"@ != "pre_processing"@) by {
                assert("end_of_playlist"@[0] == 'e');
                assert("pre_processing"@[0] == 'p');
            }
            assert("end_of_playlist"@ != "pre_download"@);
            assert("end_of_playlist"@ != "downloading"@);
            assert("end_of_playlist"@ != "end_of_video"@) by {
                assert("end_of_playlist"@.len() == 15);
                assert("end_of_video"@.len() == 12);
            }
        },
        crate::progress::ProgressView::PostProcessing { status } => {
            assert(key_count_from(ms, "type"@, 0) == 1);
            assert(crate::progress::req_string(ms, "type"@) == Some("post_processing"@));
            assert("post_processing"@ != "pre_processing"@) by {
                assert("post_processing"@[1] == 'o');
                assert("pre_processing"@[1] == 'r');
            }
            assert("post_processing"@ != "pre_download"@);
            assert("post_processing"@ != "downloading"@);
            assert("post_processing"@ != "end_of_video"@);
            assert("post_processing"@ != "end_of_video"@);
            assert("post_processing"@ != "end_of_playlist"@) by {
                assert("post_processing"@[0] == 'p');
                assert("end_of_playlist"@[0] == 'e');
            }
            assert(key_count_from(ms, "status"@, 0) == 1);
            assert(crate::progress::req_string(ms, "status"@) == Some(status));
        },
        crate::progress::ProgressView::Error { message } => {
            assert(key_count_from(ms, "type"@, 0) == 1);
            assert(crate::progress::req_string(ms, "type"@) == Some("error"@));
            assert("error"@ != "pre_processing"@);
            assert("error"@ != "pre_download"@);
            assert("error"@ != "downloading"@);
            assert("error"@ != "end_of_video"@);
            assert("error"@ != "end_of_playlist"@);
            assert("error"@ != "post_processing"@);
            assert(key_count_from(ms, "message"@, 0) == 1);
            assert(crate::progress::req_string(ms, "message"@) == Some(message));
        },
        crate::progress::ProgressView::Downloading {
            eta,
            downloaded_bytes,
            total_bytes,
            total_bytes_estimate,
            elapsed,
            speed,
            playlist_count,
            playlist_index,
        } => {
            lemma_downloading_members(e);
        },
    }
}

/// Assembling the canonical downloading members gives back the event.
#[verifier::rlimit(100)]
proof fn lemma_downloading_members(e: crate::progress::ProgressView)
    requires
        event_renderable(e),
        e is Downloading,
    ensures
        crate::progress::event_of_members(members_of_event(e)) == Some(e),
{
    reveal_with_fuel(key_count_from, 12);
    reveal_with_fuel(key_first_from, 12);
    reveal_strlit("type");
    reveal_strlit("eta");
    reveal_strlit("downloaded_bytes");
    reveal_strlit("total_bytes");
    reveal_strlit("total_bytes_estimate");
    reveal_strlit("elapsed");
    reveal_strlit("speed");
    reveal_strlit("playlist_count");
    reveal_strlit("playlist_index");
    reveal_strlit("pre_processing");
    reveal_strlit("pre_download");
    reveal_strlit("downloading");
    let ms = members_of_event(e);
    assert("type"@.len() == 4);
    assert("eta"@.len() == 3);
    assert("downloaded_bytes"@.len() == 16);
    assert("total_bytes"@.len() == 11);
    assert("total_bytes_estimate"@.len() == 20);
    assert("elapsed"@.len() == 7);
    assert("speed"@.len() == 5);
    assert("playlist_count"@.len() == 14);
    assert("playlist_index"@.len() == 14);
    assert("playlist_count"@ != "playlist_index"@) by {
        assert("playlist_count"@[9] == 'c');
        assert("playlist_index"@[9] == 'i');
    }
    assert(key_count_from(ms, "type"@, 0) == 1);
    assert(crate::progress::req_string(ms, "type"@) == Some("downloading"@));
    assert("downloading"@ != "pre_processing"@) by {
        assert("downloading"@.len() == 11);
        assert("pre_processing"@.len() == 14);
    }
    assert("downloading"@ != "pre_download"@) by {
        assert("pre_download"@.len() == 12);
    }
    assert(key_count_from(ms, "downloaded_bytes"@, 0) == 1);
    assert(key_count_from(ms, "elapsed"@, 0) == 1);
    assert(key_count_from(ms, "eta"@, 0) == 1);
    assert(key_count_from(ms, "total_bytes"@, 0) == 1);
    assert(key_count_from(ms, "total_bytes_estimate"@, 0) == 1);
    assert(key_count_from(ms, "speed"@, 0) == 1);
    assert(key_count_from(ms, "playlist_count"@, 0) == 1);
    assert(key_count_from(ms, "playlist_index"@, 0) == 1);
    match e {
        crate::progress::ProgressView::Downloading {
            eta,
            downloaded_bytes,
            total_bytes,
            total_bytes_estimate,
            elapsed,
            speed,
            playlist_count,
            playlist_index,
        } => {
            assert(crate::progress::req_num(ms, "downloaded_bytes"@) == Some(downloaded_bytes));
            assert(crate::progress::req_num(ms, "elapsed"@) == Some(elapsed));
            assert(crate::progress::opt_num(ms, "eta"@) == Some(eta));
            assert(crate::progress::opt_num(ms, "total_bytes"@) == Some(total_bytes));
            assert(crate::progress::opt_num(ms, "total_bytes_estimate"@) == Some(
                total_bytes_estimate,
            ));
            assert(crate::progress::opt_num(ms, "speed"@) == Some(speed));
            assert(crate::progress::opt_index(ms, "playlist_count"@) == Some(playlist_count));
            assert(crate::progress::opt_index(ms, "playlist_index"@) == Some(playlist_index));
        },
        _ => {},
    }
}

} // verus!

verus! {

/// A character the canonical payload may hold.
pub open spec fn payload_char(c: char) -> bool {
    plain_char(c) || c == '{' || c == '}' || c == '"' || c == ':' || c == ',' || c == '.' || c
        == '_'
}

/// Every character of `s` may stand in a payload.
pub open spec fn payload_chars(s: Seq<char>) -> bool {
    forall|i: int| 0 <= i < s.len() ==> payload_char(#[trigger] s[i])
}

} // verus!

verus! {

/// Everything the fragment plumbing needs of a payload text: characters
/// from the payload alphabet, and no doubled underscore (which would
/// spell the sentinel and split the line).
pub open spec fn carrier(s: Seq<char>) -> bool {
    payload_chars(s) && no_pair(s, '_', '_')
}

/// Carrier texts compose when the seam does not spell the sentinel.
proof fn lemma_carrier_concat(a: Seq<char>, b: Seq<char>)
    requires
        carrier(a),
        carrier(b),
        !(a.len() > 0 && b.len() > 0 && a.last() == '_' && b.first() == '_'),
    ensures
        carrier(a + b),
{
    let c = a + b;
    let alen = a.len() as int;
    assert forall|i: int| 0 <= i < c.len() implies payload_char(#[trigger] c[i]) by {
        if i < alen {
            assert(c[i] == a[i]);
        } else {
            assert(c[i] == b[i - alen]);
        }
    }
    assert forall|i: int| 0 <= i < c.len() - 1 implies !(c[i] == '_' && #[trigger] c[i + 1]
        == '_') by {
        if i + 1 < alen {
            assert(c[i] == a[i] && c[i + 1] == a[i + 1]);
            assert(!(a[i] == '_' && a[i + 1] == '_'));
        } else if i >= alen {
            let j = i - alen;
            assert(c[i] == b[j] && c[i + 1] == b[j + 1]);
            assert(!(b[j] == '_' && b[j + 1] == '_'));
        } else {
            assert(c[i] == a.last() && c[i + 1] == b.first());
        }
    }
}

/// A benign body is a carrier text.
proof fn lemma_carrier_benign(s: Seq<char>)
    requires
        benign_text(s),
    ensures
        carrier(s),
{
    assert forall|i: int| 0 <= i < s.len() implies payload_char(#[trigger] s[i]) by {
        assert(plain_char(s[i]));
    }
}

/// A run of digits is a carrier text without underscores.
proof fn lemma_carrier_digits(s: Seq<char>)
    requires
        all_digits(s),
    ensures
        carrier(s),
    forall|i: int| 0 <= i < s.len() ==> s[i] != '_',
{
    assert forall|i: int| 0 <= i < s.len() implies payload_char(#[trigger] s[i]) && s[i]
        != '_' by {
        assert(is_digit(s[i]));
    }
}

/// A written number is a carrier text that opens with a digit and closes
/// with a digit.
proof fn lemma_carrier_dec(d: DecimalView)
    requires
        d.wf(),
    ensures
        carrier(render_dec(d)),
        render_dec(d).len() >= 1,
        render_dec(d).first() != '_',
        render_dec(d).last() != '_',
{
    let n = d.int_part as int;
    lemma_dec_digits_props(n);
    lemma_carrier_digits(dec_digits(n));
    if d.frac.len() > 0 {
        lemma_carrier_digits(d.frac);
        let dot = seq!['.'];
        assert(carrier(dot)) by {
            assert(payload_char(dot[0]));
        }
        lemma_carrier_concat(dec_digits(n), dot);
        lemma_carrier_concat(dec_digits(n) + dot, d.frac);
        assert(render_dec(d) == dec_digits(n) + dot + d.frac);
        assert(render_dec(d).first() == dec_digits(n)[0]) by {
            assert((dec_digits(n) + dot + d.frac)[0] == dec_digits(n)[0]);
        }
        assert(render_dec(d).last() == d.frac.last());
        assert(is_digit(d.frac.last()));
    } else {
        assert(render_dec(d).first() == dec_digits(n)[0]);
        assert(is_digit(dec_digits(n)[0]));
        assert(is_digit(dec_digits(n).last()));
    }
}

/// A written value is a carrier text with safe edges.
proof fn lemma_carrier_value(v: JsonValView)
    requires
        value_renderable(v),
    ensures
        carrier(render_value(v)),
        render_value(v).len() >= 1,
        render_value(v).first() != '_',
        render_value(v).last() != '_',
{
    match v {
        JsonValView::Str(s) => {
            let quote = seq!['"'];
            assert(carrier(quote)) by {
                assert(payload_char(quote[0]));
            }
            lemma_carrier_benign(s);
            lemma_carrier_concat(quote, s);
            lemma_carrier_concat(quote + s, quote);
            assert(render_value(v) =~= quote + s + quote);
            assert(render_value(v).first() == '"');
            assert(render_value(v).last() == '"');
        },
        JsonValView::Num(d) => {
            lemma_carrier_dec(d);
        },
        JsonValView::Null => {
            reveal_strlit("null");
            assert("null"@.len() == 4);
            assert(carrier("null"@)) by {
                let s = "null"@;
                assert forall|i: int| 0 <= i < s.len() implies payload_char(#[trigger] s[i]) by {
                    assert(plain_char(s[i]));
                }
                assert forall|i: int| 0 <= i < s.len() - 1 implies !(s[i] == '_'
                    && #[trigger] s[i + 1] == '_') by {
                    assert(s[i] != '_');
                }
                assert forall|i: int| 0 <= i < s.len() - 1 implies !(s[i] == 'N'
                    && #[trigger] s[i + 1] == 'A') by {
                    assert(s[i] != 'N');
                }
            }
            assert(render_value(v).first() == 'n');
            assert(render_value(v).last() == 'l');
        },
        JsonValView::Other => {
            assert(false);
        },
    }
}

/// A written member is a carrier text from quote to value edge.
proof fn lemma_carrier_member(m: MemberView)
    requires
        member_renderable(m),
        carrier(m.key),
    ensures
        carrier(render_member(m)),
        render_member(m).len() >= 1,
        render_member(m).first() == '"',
        render_member(m).last() != '_',
{
    let quote = seq!['"'];
    let quote_colon = seq!['"', ':'];
    let rv = render_value(m.val);
    assert(carrier(quote)) by {
        assert(payload_char(quote[0]));
    }
    assert(carrier(quote_colon)) by {
        assert(payload_char(quote_colon[0]));
        assert(payload_char(quote_colon[1]));
        assert(quote_colon[0] != '_');
    }
    lemma_carrier_value(m.val);
    lemma_carrier_concat(quote, m.key);
    lemma_carrier_concat(quote + m.key, quote_colon);
    lemma_carrier_concat(quote + m.key + quote_colon, rv);
    assert(render_member(m) =~= quote + m.key + quote_colon + rv);
    assert(render_member(m).first() == '"');
    assert(render_member(m).last() == rv.last());
}

/// A written member run is a carrier text.
proof fn lemma_carrier_tail(ms: Seq<MemberView>)
    requires
        forall|k: int|
            0 <= k < ms.len() ==> member_renderable(#[trigger] ms[k]) && carrier(ms[k].key),
    ensures
        carrier(render_members_tail(ms)),
        render_members_tail(ms).len() >= 1,
        render_members_tail(ms).first() != '_',
        render_members_tail(ms).last() == '}',
    decreases ms.len(),
{
    let brace = seq!['}'];
    assert(carrier(brace)) by {
        assert(payload_char(brace[0]));
    }
    if ms.len() == 0 {
        assert(render_members_tail(ms) == brace);
    } else if ms.len() == 1 {
        lemma_carrier_member(ms[0]);
        lemma_carrier_concat(render_member(ms[0]), brace);
        assert(render_members_tail(ms) == render_member(ms[0]) + brace);
        assert(render_members_tail(ms).first() == render_member(ms[0]).first());
        assert(render_members_tail(ms).last() == '}');
    } else {
        let comma = seq![','];
        assert(carrier(comma)) by {
            assert(payload_char(comma[0]));
        }
        lemma_carrier_member(ms[0]);
        let rest = ms.drop_first();
        assert forall|k: int| 0 <= k < rest.len() implies member_renderable(#[trigger] rest[k])
            && carrier(rest[k].key) by {
            assert(rest[k] == ms[k + 1]);
        }
        lemma_carrier_tail(rest);
        lemma_carrier_concat(render_member(ms[0]), comma);
        lemma_carrier_concat(render_member(ms[0]) + comma, render_members_tail(rest));
        assert(render_members_tail(ms) == render_member(ms[0]) + comma + render_members_tail(
            rest,
        ));
        assert(render_members_tail(ms).first() == render_member(ms[0]).first()) by {
            assert((render_member(ms[0]) + comma + render_members_tail(rest))[0] == render_member(
                ms[0],
            )[0]);
        }
        assert(render_members_tail(ms).last() == '}');
    }
}

} // verus!

verus! {

/// A text without the adjacent pair holds no two-character pattern of it.
proof fn lemma_no_pair_not_contains(s: Seq<char>, c1: char, c2: char)
    requires
        no_pair(s, c1, c2),
    ensures
        !crate::text::contains_seq(s, seq![c1, c2]),
{
    let p = seq![c1, c2];
    assert forall|i: int| !crate::text::match_at(s, p, i) by {
        if crate::text::match_at(s, p, i) {
            assert(s.subrange(i, i + 2)[0] == s[i]);
            assert(s.subrange(i, i + 2)[1] == s[i + 1]);
            assert(s[i] == c1 && s[i + 1] == c2);
        }
    }
}

/// The fixed member keys of the protocol are benign body texts.
proof fn lemma_key_literals_benign()
    ensures
        benign_text("type"@),
        benign_text("video_id"@),
        benign_text("eta"@),
        benign_text("downloaded_bytes"@),
        benign_text("total_bytes"@),
        benign_text("total_bytes_estimate"@),
        benign_text("elapsed"@),
        benign_text("speed"@),
        benign_text("playlist_count"@),
        benign_text("playlist_index"@),
        benign_text("status"@),
        benign_text("message"@),
        benign_text("pre_processing"@),
        benign_text("pre_download"@),
        benign_text("downloading"@),
        benign_text("end_of_video"@),
        benign_text("end_of_playlist"@),
        benign_text("post_processing"@),
        benign_text("error"@),
        "type"@.len() >= 1,
        "video_id"@.len() >= 1,
        "eta"@.len() >= 1,
        "downloaded_bytes"@.len() >= 1,
        "total_bytes"@.len() >= 1,
        "total_bytes_estimate"@.len() >= 1,
        "elapsed"@.len() >= 1,
        "speed"@.len() >= 1,
        "playlist_count"@.len() >= 1,
        "playlist_index"@.len() >= 1,
        "status"@.len() >= 1,
        "message"@.len() >= 1,
{
    reveal_strlit("type");
    reveal_strlit("video_id");
    reveal_strlit("eta");
    reveal_strlit("downloaded_bytes");
    reveal_strlit("total_bytes");
    reveal_strlit("total_bytes_estimate");
    reveal_strlit("elapsed");
    reveal_strlit("speed");
    reveal_strlit("playlist_count");
    reveal_strlit("playlist_index");
    reveal_strlit("status");
    reveal_strlit("message");
    reveal_strlit("pre_processing");
    reveal_strlit("pre_download");
    reveal_strlit("downloading");
    reveal_strlit("end_of_video");
    reveal_strlit("end_of_playlist");
    reveal_strlit("post_processing");
    reveal_strlit("error");
}

/// A benign body text makes a sound key.
proof fn lemma_benign_key(k: Seq<char>)
    requires
        benign_text(k),
    ensures
        forall|i: int| 0 <= i < k.len() ==> #[trigger] k[i] != '"' && k[i] != '\\' && !is_ws(
            k[i],
        ),
        carrier(k),
{
    assert forall|i: int| 0 <= i < k.len() implies #[trigger] k[i] != '"' && k[i] != '\\'
        && !is_ws(k[i]) by {
        assert(plain_char(k[i]));
    }
    lemma_carrier_benign(k);
}

/// An event's canonical members are all renderable, with carrier keys.
proof fn lemma_members_renderable(e: crate::progress::ProgressView)
    requires
        event_renderable(e),
    ensures
        members_of_event(e).len() >= 1,
        forall|k: int|
            0 <= k < members_of_event(e).len() ==> member_renderable(
                #[trigger] members_of_event(e)[k],
            ) && carrier(members_of_event(e)[k].key),
{
    lemma_key_literals_benign();
    let ms = members_of_event(e);
    assert forall|k: int| 0 <= k < ms.len() implies member_renderable(#[trigger] ms[k]) && carrier(
        ms[k].key,
    ) by {
        lemma_benign_key(ms[k].key);
        match e {
            crate::progress::ProgressView::Downloading {
                eta,
                downloaded_bytes,
                total_bytes,
                total_bytes_estimate,
                elapsed,
                speed,
                playlist_count,
                playlist_index,
            } => {
                assert(value_renderable(ms[k].val)) by {
                    reveal_with_fuel(pow10, 20);
                    assert(pow10(18) == 1000000000000000000);
                }
            },
            _ => {
                assert(value_renderable(ms[k].val));
            },
        }
    }
}

/// The canonical payload of an event parses back to exactly the event's
/// members, and is a carrier text opening with a brace.
proof fn lemma_render_payload_props(e: crate::progress::ProgressView)
    requires
        event_renderable(e),
    ensures
        parse_payload(render_payload(e)) == Some(members_of_event(e)),
        carrier(render_payload(e)),
        render_payload(e).len() >= 1,
        render_payload(e).first() == '{',
{
    lemma_members_renderable(e);
    let ms = members_of_event(e);
    let p = render_payload(e);
    lemma_parse_payload_is(p, ms);
    lemma_carrier_tail(ms);
    let brace = seq!['{'];
    assert(carrier(brace)) by {
        assert(payload_char(brace[0]));
    }
    lemma_carrier_concat(brace, render_members_tail(ms));
    assert(p.first() == '{');
}

/// Round trip, object level: decoding the canonical payload of a
/// renderable event gives back exactly that event.
pub proof fn lemma_decode_canonical_payload(e: crate::progress::ProgressView)
    requires
        event_renderable(e),
    ensures
        crate::progress::decode_object(render_payload(e)) == Some(e),
{
    lemma_render_payload_props(e);
    lemma_event_of_canonical_members(e);
}

/// Round trip, fragment level: a renderable event written as one
/// canonical sentinel-prefixed fragment parses back to exactly that one
/// event, every present field preserved and every absent field read back
/// as absent.
#[verifier::rlimit(100)]
pub proof fn lemma_parse_render_fragment(e: crate::progress::ProgressView)
    requires
        event_renderable(e),
    ensures
        crate::progress::spec_parse_progress(render_fragment(e)) == Ok::<
            _,
            crate::progress::ProgressErrorView,
        >(seq![e]),
{
    reveal_strlit("__");
    assert("__"@ =~= seq!['_', '_']);
    let p = render_payload(e);
    let l = render_fragment(e);
    lemma_render_payload_props(e);
    lemma_decode_canonical_payload(e);

    // the payload holds no sentinel of its own
    lemma_no_pair_not_contains(p, '_', '_');
    assert(!crate::text::contains_seq(p, "__"@));

    // the whole line holds no newline, no carriage return, no space
    assert forall|i: int| 0 <= i < l.len() implies l[i] != '\n' && l[i] != '\r' && #[trigger] l[i]
        != ' ' by {
        if i < 2 {
            assert(l[i] == '_');
        } else {
            assert(l[i] == p[i - 2]);
            assert(payload_char(p[i - 2]));
        }
    }

    // every signal phrase holds a space, so none occurs in the line
    reveal_strlit("has already been downloaded");
    assert("has already been downloaded"@[3] == ' ');
    crate::text::lemma_no_char_no_match(l, "has already been downloaded"@, ' ', 3);
    reveal_strlit("entry does not pass filter (!playlist)");
    assert("entry does not pass filter (!playlist)"@[5] == ' ');
    crate::text::lemma_no_char_no_match(l, "entry does not pass filter (!playlist)"@, ' ', 5);
    reveal_strlit("Private video. Sign in if you've been granted access to this video");
    assert("Private video. Sign in if you've been granted access to this video"@[7] == ' ');
    crate::text::lemma_no_char_no_match(
        l,
        "Private video. Sign in if you've been granted access to this video"@,
        ' ',
        7,
    );
    reveal_strlit("Video unavailable. This video contains content");
    assert("Video unavailable. This video contains content"@[5] == ' ');
    crate::text::lemma_no_char_no_match(
        l,
        "Video unavailable. This video contains content"@,
        ' ',
        5,
    );
    reveal_strlit(
        "Video unavailable. This video is no longer available because the YouTube account associated with this video has been terminated.",
    );
    let long_phrase =
        "Video unavailable. This video is no longer available because the YouTube account associated with this video has been terminated."@;
    assert(long_phrase[5] == ' ');
    crate::text::lemma_no_char_no_match(l, long_phrase, ' ', 5);
    reveal_strlit("YouTube said: The playlist does not exist.");
    assert("YouTube said: The playlist does not exist."@[7] == ' ');
    crate::text::lemma_no_char_no_match(l, "YouTube said: The playlist does not exist."@, ' ', 7);

    // the line is not a tagged error line
    reveal_strlit("stderr:ERROR: ");
    assert(!crate::text::starts_with(l, "stderr:ERROR: "@)) by {
        if crate::text::starts_with(l, "stderr:ERROR: "@) {
            assert(l.subrange(0, 14)[0] == l[0]);
            assert(l[0] == 's');
            assert(l[0] == '_');
        }
    }

    crate::progress::lemma_single_object_fragment(l, p, e);
}

} // verus!
