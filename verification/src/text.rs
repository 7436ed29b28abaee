use vstd::prelude::*;

verus! {

/// True when pattern `p` occurs in `t` starting at position `i`.
pub open spec fn match_at(t: Seq<char>, p: Seq<char>, i: int) -> bool {
    0 <= i && i + p.len() <= t.len() && t.subrange(i, i + p.len()) == p
}

/// True when `p` occurs somewhere in `t`.
pub open spec fn contains_seq(t: Seq<char>, p: Seq<char>) -> bool {
    exists|i: int| match_at(t, p, i)
}

/// Position of the first occurrence of `p` in `t` at or after `from`.
pub open spec fn find_from(t: Seq<char>, p: Seq<char>, from: int) -> Option<int>
    decreases t.len() - from,
{
    if from < 0 || from + p.len() > t.len() {
        None
    } else if p.len() == 0 {
        Some(from)
    } else if match_at(t, p, from) {
        Some(from)
    } else {
        find_from(t, p, from + 1)
    }
}

/// `find_from` returns the first match position, and `None` exactly when
/// no position at or after `from` matches.
pub proof fn lemma_find_from(t: Seq<char>, p: Seq<char>, from: int)
    requires
        0 <= from,
    ensures
        match find_from(t, p, from) {
            Some(i) => from <= i && match_at(t, p, i) && (forall|j: int|
                from <= j < i ==> !match_at(t, p, j)),
            None => forall|j: int| from <= j ==> !match_at(t, p, j),
        },
    decreases t.len() - from,
{
    if from + p.len() > t.len() {
        assert forall|j: int| from <= j implies !match_at(t, p, j) by {}
    } else if p.len() == 0 {
        assert(t.subrange(from, from + p.len()) =~= p);
    } else if match_at(t, p, from) {
    } else {
        lemma_find_from(t, p, from + 1);
    }
}

/// A pattern that occurs nowhere at or after 0 occurs nowhere at all.
pub proof fn lemma_find_none_not_contains(t: Seq<char>, p: Seq<char>)
    ensures
        (find_from(t, p, 0) is None) <==> !contains_seq(t, p),
{
    lemma_find_from(t, p, 0);
    if find_from(t, p, 0) is Some {
        let i = find_from(t, p, 0)->Some_0;
        assert(contains_seq(t, p));
    } else {
        assert forall|i: int| !match_at(t, p, i) by {
            if i >= 0 {
                assert(!match_at(t, p, i));
            }
        }
    }
}

/// Compares `p` against `t` at position `i`, character by character.
pub fn match_at_exec(t: &str, p: &str, i: usize) -> (r: bool)
    requires
        i + p@.len() <= t@.len(),
    ensures
        r == match_at(t@, p@, i as int),
{
    let tlen = t.unicode_len();
    let plen = p.unicode_len();
    let mut j: usize = 0;
    while j < plen
        invariant
            0 <= j <= plen,
            tlen == t@.len(),
            plen == p@.len(),
            i + plen <= tlen,
            forall|k: int| 0 <= k < j ==> t@[i + k] == p@[k],
        decreases plen - j,
    {
        if t.get_char(i + j) != p.get_char(j) {
            assert(t@.subrange(i as int, i + p@.len()) != p@) by {
                assert(t@.subrange(i as int, i + p@.len())[j as int] != p@[j as int]);
            }
            return false;
        }
        j += 1;
    }
    assert(t@.subrange(i as int, i + p@.len()) =~= p@);
    true
}

/// First occurrence of `p` in `t` at or after `from`, as `find_from` gives it.
pub fn find_sub(t: &str, p: &str, from: usize) -> (r: Option<usize>)
    requires
        from <= t@.len(),
    ensures
        match r {
            Some(i) => find_from(t@, p@, from as int) == Some(i as int),
            None => find_from(t@, p@, from as int) is None,
        },
{
    let tlen = t.unicode_len();
    let plen = p.unicode_len();
    if plen > tlen {
        return None;
    }
    if plen == 0 {
        return Some(from);
    }
    if from > tlen - plen {
        return None;
    }
    let mut i: usize = from;
    while i <= tlen - plen
        invariant
            from <= i,
            tlen == t@.len(),
            plen == p@.len(),
            1 <= plen <= tlen,
            i <= tlen - plen + 1,
            find_from(t@, p@, from as int) == find_from(t@, p@, i as int),
        decreases tlen - i,
    {
        if match_at_exec(t, p, i) {
            return Some(i);
        }
        i += 1;
    }
    None
}

/// True when `p` occurs somewhere in `t`.
pub fn contains_sub(t: &str, p: &str) -> (r: bool)
    ensures
        r == contains_seq(t@, p@),
{
    proof {
        lemma_find_none_not_contains(t@, p@);
    }
    match find_sub(t, p, 0) {
        Some(_) => true,
        None => false,
    }
}

/// True when `t` begins with `p`.
pub open spec fn starts_with(t: Seq<char>, p: Seq<char>) -> bool {
    match_at(t, p, 0)
}

/// Checks whether `t` begins with `p`.
pub fn starts_with_exec(t: &str, p: &str) -> (r: bool)
    ensures
        r == starts_with(t@, p@),
{
    if p.unicode_len() > t.unicode_len() {
        return false;
    }
    match_at_exec(t, p, 0)
}

} // verus!

verus! {

/// The views of a sequence of owned strings.
pub open spec fn views_of(v: Seq<String>) -> Seq<Seq<char>> {
    v.map_values(|s: String| s@)
}

/// Pieces of `t` between non-overlapping leftmost occurrences of `p`,
/// as `str::split` yields them for a non-empty pattern.
pub open spec fn split_pat(t: Seq<char>, p: Seq<char>) -> Seq<Seq<char>>
    decreases t.len(),
    via split_pat_decreases
{
    if p.len() == 0 {
        seq![t]
    } else {
        match find_from(t, p, 0) {
            None => seq![t],
            Some(i) => seq![t.subrange(0, i)] + split_pat(
                t.subrange(i + p.len() as int, t.len() as int),
                p,
            ),
        }
    }
}

/// Splits `t` on every occurrence of `p`.
pub fn split_string(t: &str, p: &str) -> (r: Vec<String>)
    requires
        p@.len() >= 1,
    ensures
        views_of(r@) == split_pat(t@, p@),
{
    let plen = p.unicode_len();
    let mut out: Vec<String> = Vec::new();
    let mut rest: &str = t;
    proof {
        assert(views_of(out@) =~= Seq::<Seq<char>>::empty());
    }
    loop
        invariant
            plen == p@.len(),
            plen >= 1,
            views_of(out@) + split_pat(rest@, p@) =~= split_pat(t@, p@),
        decreases rest@.len(),
    {
        let rlen = rest.unicode_len();
        match find_sub(rest, p, 0) {
            None => {
                let ghost old_out = out@;
                out.push(rest.to_owned());
                proof {
                    assert(views_of(out@) =~= views_of(old_out).push(rest@));
                    assert(views_of(out@) + Seq::<Seq<char>>::empty() =~= split_pat(t@, p@));
                    assert(views_of(out@) =~= split_pat(t@, p@));
                }
                return out;
            },
            Some(i) => {
                proof {
                    lemma_find_from(rest@, p@, 0);
                }
                let ghost old_out = out@;
                let piece = rest.substring_char(0, i);
                out.push(piece.to_owned());
                rest = rest.substring_char(i + plen, rlen);
                proof {
                    assert(views_of(out@) =~= views_of(old_out).push(piece@));
                    assert(views_of(out@) + split_pat(rest@, p@) =~= split_pat(t@, p@));
                }
            },
        }
    }
}

#[via_fn]
proof fn split_pat_decreases(t: Seq<char>, p: Seq<char>) {
    lemma_find_from(t, p, 0);
}

/// A line with one trailing carriage return removed.
pub open spec fn strip_cr(l: Seq<char>) -> Seq<char> {
    if l.len() > 0 && l.last() == '\r' {
        l.drop_last()
    } else {
        l
    }
}

/// The lines of `t`, as `str::lines` yields them: terminated or separated by
/// a newline, each with one trailing carriage return removed.
pub open spec fn split_lines(t: Seq<char>) -> Seq<Seq<char>>
    decreases t.len(),
    via split_lines_decreases
{
    if t.len() == 0 {
        seq![]
    } else {
        match find_from(t, seq!['\n'], 0) {
            None => seq![strip_cr(t)],
            Some(i) => seq![strip_cr(t.subrange(0, i))] + split_lines(
                t.subrange(i + 1, t.len() as int),
            ),
        }
    }
}

#[via_fn]
proof fn split_lines_decreases(t: Seq<char>) {
    lemma_find_from(t, seq!['\n'], 0);
}

/// Splits `t` into its lines.
pub fn lines_of(t: &str) -> (r: Vec<String>)
    ensures
        views_of(r@) == split_lines(t@),
{
    let mut out: Vec<String> = Vec::new();
    let mut rest: &str = t;
    proof {
        reveal_strlit("\n");
        assert("\n"@ =~= seq!['\n']);
        assert(views_of(out@) =~= Seq::<Seq<char>>::empty());
    }
    loop
        invariant
            views_of(out@) + split_lines(rest@) =~= split_lines(t@),
        decreases rest@.len(),
    {
        proof {
            reveal_strlit("\n");
            assert("\n"@ =~= seq!['\n']);
        }
        let rlen = rest.unicode_len();
        if rlen == 0 {
            proof {
                assert(views_of(out@) =~= split_lines(t@));
            }
            return out;
        }
        match find_sub(rest, "\n", 0) {
            None => {
                let ghost old_out = out@;
                let stripped = strip_cr_exec(rest);
                out.push(stripped);
                proof {
                    assert(views_of(out@) =~= views_of(old_out).push(strip_cr(rest@)));
                    assert(views_of(out@) =~= split_lines(t@));
                }
                return out;
            },
            Some(i) => {
                proof {
                    lemma_find_from(rest@, "\n"@, 0);
                }
                let ghost old_out = out@;
                let piece = rest.substring_char(0, i);
                let stripped = strip_cr_exec(piece);
                out.push(stripped);
                rest = rest.substring_char(i + 1, rlen);
                proof {
                    assert(views_of(out@) =~= views_of(old_out).push(strip_cr(piece@)));
                    assert(views_of(out@) + split_lines(rest@) =~= split_lines(t@));
                }
            },
        }
    }
}

/// Removes one trailing carriage return.
pub fn strip_cr_exec(l: &str) -> (r: String)
    ensures
        r@ == strip_cr(l@),
{
    let n = l.unicode_len();
    if n > 0 && l.get_char(n - 1) == '\r' {
        let s = l.substring_char(0, n - 1);
        proof {
            assert(s@ =~= strip_cr(l@));
        }
        s.to_owned()
    } else {
        l.to_owned()
    }
}

} // verus!

verus! {

/// The character for one decimal digit.
pub open spec fn digit_char(d: int) -> char {
    if d == 0 {
        '0'
    } else if d == 1 {
        '1'
    } else if d == 2 {
        '2'
    } else if d == 3 {
        '3'
    } else if d == 4 {
        '4'
    } else if d == 5 {
        '5'
    } else if d == 6 {
        '6'
    } else if d == 7 {
        '7'
    } else if d == 8 {
        '8'
    } else {
        '9'
    }
}

/// The decimal digits of `n`, most significant first, without leading zeros.
pub open spec fn dec_digits(n: int) -> Seq<char>
    decreases n,
{
    if n < 10 {
        seq![digit_char(n)]
    } else {
        dec_digits(n / 10).push(digit_char(n % 10))
    }
}

/// The decimal digits of `n`, left-padded with a zero to width two.
pub open spec fn dec_digits_pad2(n: int) -> Seq<char> {
    if n < 10 {
        seq!['0', digit_char(n)]
    } else {
        dec_digits(n)
    }
}

/// One decimal digit as a string.
pub fn digit_str(d: u64) -> (r: &'static str)
    requires
        d < 10,
    ensures
        r@ == seq![digit_char(d as int)],
{
    proof {
        reveal_strlit("0");
        reveal_strlit("1");
        reveal_strlit("2");
        reveal_strlit("3");
        reveal_strlit("4");
        reveal_strlit("5");
        reveal_strlit("6");
        reveal_strlit("7");
        reveal_strlit("8");
        reveal_strlit("9");
    }
    let r: &'static str = match d {
        0 => "0",
        1 => "1",
        2 => "2",
        3 => "3",
        4 => "4",
        5 => "5",
        6 => "6",
        7 => "7",
        8 => "8",
        _ => "9",
    };
    proof {
        assert(r@ =~= seq![digit_char(d as int)]);
    }
    r
}

/// Writes `n` in decimal.
pub fn u64_string(n: u64) -> (r: String)
    ensures
        r@ == dec_digits(n as int),
    decreases n,
{
    if n < 10 {
        digit_str(n).to_owned()
    } else {
        let mut s = u64_string(n / 10);
        s.append(digit_str(n % 10));
        proof {
            assert(s@ =~= dec_digits(n as int));
        }
        s
    }
}

/// Writes `n` in decimal, left-padded with a zero to width two.
pub fn u64_string_pad2(n: u64) -> (r: String)
    ensures
        r@ == dec_digits_pad2(n as int),
{
    if n < 10 {
        let mut s = String::new();
        s.append("0");
        s.append(digit_str(n));
        proof {
            reveal_strlit("0");
            assert(s@ =~= dec_digits_pad2(n as int));
        }
        s
    } else {
        u64_string(n)
    }
}

} // verus!

verus! {

/// Compares two strings by characters.
pub fn str_eq(a: &str, b: &str) -> (r: bool)
    ensures
        r == (a@ == b@),
{
    let al = a.unicode_len();
    let bl = b.unicode_len();
    if al != bl {
        proof {
            assert(a@ != b@);
        }
        return false;
    }
    let m = match_at_exec(a, b, 0);
    proof {
        assert(a@.subrange(0, a@.len() as int) =~= a@);
        if m {
            assert(a@ == b@);
        } else {
            assert(a@ != b@);
        }
    }
    m
}

} // verus!

verus! {

/// A match at `i` with none earlier pins `find_from` down to `i`.
pub proof fn lemma_find_from_is(t: Seq<char>, p: Seq<char>, from: int, i: int)
    requires
        0 <= from <= i,
        p.len() >= 1,
        match_at(t, p, i),
        forall|j: int| from <= j < i ==> !match_at(t, p, j),
    ensures
        find_from(t, p, from) == Some(i),
    decreases i - from,
{
    if from < i {
        lemma_find_from_is(t, p, from + 1, i);
    }
}

/// A pattern holding a character that `t` lacks occurs nowhere in `t`.
pub proof fn lemma_no_char_no_match(t: Seq<char>, p: Seq<char>, c: char, k: int)
    requires
        0 <= k < p.len(),
        p[k] == c,
        forall|i: int| 0 <= i < t.len() ==> t[i] != c,
    ensures
        !contains_seq(t, p),
{
    assert forall|i: int| !match_at(t, p, i) by {
        if match_at(t, p, i) {
            assert(t.subrange(i, i + p.len() as int)[k] == p[k]);
            assert(t[i + k] == c);
        }
    }
}

} // verus!
