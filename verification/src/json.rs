use vstd::prelude::*;

use crate::num::{is_digit, Decimal, DecimalView};
use crate::text::{match_at, str_eq};

verus! {

/// JSON whitespace.
pub open spec fn is_ws(c: char) -> bool {
    c == ' ' || c == '\t' || c == '\n' || c == '\r'
}

/// First position at or after `i` that does not hold whitespace.
pub open spec fn skip_ws(s: Seq<char>, i: int) -> int
    decreases s.len() - i,
{
    if i < 0 || i >= s.len() {
        i
    } else if is_ws(s[i]) {
        skip_ws(s, i + 1)
    } else {
        i
    }
}

/// `skip_ws` stays within bounds and stops on the first non-blank.
pub proof fn lemma_skip_ws(s: Seq<char>, i: int)
    requires
        0 <= i <= s.len(),
    ensures
        i <= skip_ws(s, i) <= s.len(),
        skip_ws(s, i) < s.len() ==> !is_ws(s[skip_ws(s, i)]),
    decreases s.len() - i,
{
    if i < s.len() && is_ws(s[i]) {
        lemma_skip_ws(s, i + 1);
    }
}

/// First position at or after `i` that does not hold a decimal digit.
pub open spec fn scan_digits(s: Seq<char>, i: int) -> int
    decreases s.len() - i,
{
    if i < 0 || i >= s.len() {
        i
    } else if is_digit(s[i]) {
        scan_digits(s, i + 1)
    } else {
        i
    }
}

/// `scan_digits` stays within bounds, skips digits only, and stops on the
/// first non-digit.
pub proof fn lemma_scan_digits(s: Seq<char>, i: int)
    requires
        0 <= i <= s.len(),
    ensures
        i <= scan_digits(s, i) <= s.len(),
        scan_digits(s, i) < s.len() ==> !is_digit(s[scan_digits(s, i)]),
        forall|k: int| i <= k < scan_digits(s, i) ==> is_digit(#[trigger] s[k]),
    decreases s.len() - i,
{
    if i < s.len() && is_digit(s[i]) {
        lemma_scan_digits(s, i + 1);
    }
}

/// First position at or after `i` that ends a plain string body: a quote,
/// a backslash, or the end of the text.
pub open spec fn scan_plain(s: Seq<char>, i: int) -> int
    decreases s.len() - i,
{
    if i < 0 || i >= s.len() {
        i
    } else if s[i] == '"' || s[i] == '\\' {
        i
    } else {
        scan_plain(s, i + 1)
    }
}

/// `scan_plain` stays within bounds and stops on a quote or backslash.
pub proof fn lemma_scan_plain(s: Seq<char>, i: int)
    requires
        0 <= i <= s.len(),
    ensures
        i <= scan_plain(s, i) <= s.len(),
        scan_plain(s, i) < s.len() ==> (s[scan_plain(s, i)] == '"' || s[scan_plain(s, i)]
            == '\\'),
    decreases s.len() - i,
{
    if i < s.len() && !(s[i] == '"' || s[i] == '\\') {
        lemma_scan_plain(s, i + 1);
    }
}

/// A quoted string at `i`: its body runs to the next quote and carries no
/// escapes. Yields the body and the position after the closing quote.
pub open spec fn parse_string_at(s: Seq<char>, i: int) -> Option<(Seq<char>, int)> {
    if 0 <= i < s.len() && s[i] == '"' {
        let j = scan_plain(s, i + 1);
        if j < s.len() && s[j] == '"' {
            Some((s.subrange(i + 1, j), j + 1))
        } else {
            None
        }
    } else {
        None
    }
}

/// A successful string parse moves forward and stays within bounds.
pub proof fn lemma_parse_string_bounds(s: Seq<char>, i: int)
    requires
        0 <= i <= s.len(),
    ensures
        match parse_string_at(s, i) {
            Some((b, j)) => i + 2 <= j <= s.len(),
            None => true,
        },
{
    if 0 <= i < s.len() && s[i] == '"' {
        lemma_scan_plain(s, i + 1);
    }
}

/// The numeric value of one digit character.
pub open spec fn digit_val(c: char) -> int {
    c as u32 - '0' as u32
}

/// The value of the digit run `s[i..j)`.
pub open spec fn digits_value(s: Seq<char>, i: int, j: int) -> int
    decreases j - i,
{
    if i >= j {
        0
    } else {
        digits_value(s, i, j - 1) * 10 + digit_val(s[j - 1])
    }
}

/// Ten to the `n`.
pub open spec fn pow10(n: int) -> int
    decreases n,
{
    if n <= 0 {
        1
    } else {
        10 * pow10(n - 1)
    }
}

/// A number at `i`: a whole part without leading zeros and of at most 18
/// digits, then optionally a point and at least one fraction digit. Yields
/// the value and the position after its last digit.
pub open spec fn parse_number_at(s: Seq<char>, i: int) -> Option<(DecimalView, int)> {
    if 0 <= i < s.len() && is_digit(s[i]) {
        let j = scan_digits(s, i);
        if s[i] == '0' && j > i + 1 {
            None
        } else if j - i > 18 {
            None
        } else {
            let v = digits_value(s, i, j) as u64;
            if j < s.len() && s[j] == '.' {
                let k = scan_digits(s, j + 1);
                if k == j + 1 {
                    None
                } else {
                    Some((DecimalView { int_part: v, frac: s.subrange(j + 1, k) }, k))
                }
            } else {
                Some((DecimalView { int_part: v, frac: Seq::<char>::empty() }, j))
            }
        }
    } else {
        None
    }
}

/// A successful number parse moves forward, stays within bounds, and
/// yields a well-formed decimal.
pub proof fn lemma_parse_number_bounds(s: Seq<char>, i: int)
    requires
        0 <= i <= s.len(),
    ensures
        match parse_number_at(s, i) {
            Some((d, j)) => i + 1 <= j <= s.len() && d.wf(),
            None => true,
        },
{
    if 0 <= i < s.len() && is_digit(s[i]) {
        lemma_scan_digits(s, i);
        let j = scan_digits(s, i);
        if j < s.len() && s[j] == '.' {
            lemma_scan_digits(s, j + 1);
        }
    }
}

/// The keyword `null` at `i`. Yields the position after it.
pub open spec fn parse_null_at(s: Seq<char>, i: int) -> Option<int> {
    if match_at(s, seq!['n', 'u', 'l', 'l'], i) {
        Some(i + 4)
    } else {
        None
    }
}

/// The placeholder token `NA` at `i`, the upstream tool's stand-in for a
/// value it does not know. Yields the position after it.
pub open spec fn parse_na_at(s: Seq<char>, i: int) -> Option<int> {
    if match_at(s, seq!['N', 'A'], i) {
        Some(i + 2)
    } else {
        None
    }
}

/// A boolean keyword at `i`. Yields the position after it.
pub open spec fn parse_bool_at(s: Seq<char>, i: int) -> Option<int> {
    if match_at(s, seq!['t', 'r', 'u', 'e'], i) {
        Some(i + 4)
    } else if match_at(s, seq!['f', 'a', 'l', 's', 'e'], i) {
        Some(i + 5)
    } else {
        None
    }
}

/// The position of the closing quote of a string body starting at `i`,
/// where a backslash takes the following character into the body whatever
/// it is.
pub open spec fn scan_esc(s: Seq<char>, i: int) -> Option<int>
    decreases s.len() - i,
{
    if i < 0 || i >= s.len() {
        None
    } else if s[i] == '"' {
        Some(i)
    } else if s[i] == '\\' {
        if i + 2 <= s.len() {
            scan_esc(s, i + 2)
        } else {
            None
        }
    } else {
        scan_esc(s, i + 1)
    }
}

/// A found closing quote lies within bounds, after the start.
pub proof fn lemma_scan_esc_bounds(s: Seq<char>, i: int)
    requires
        0 <= i,
    ensures
        match scan_esc(s, i) {
            Some(j) => i <= j < s.len() && s[j] == '"',
            None => true,
        },
    decreases s.len() - i,
{
    if 0 <= i < s.len() && s[i] != '"' {
        if s[i] == '\\' {
            if i + 2 <= s.len() {
                lemma_scan_esc_bounds(s, i + 2);
            }
        } else {
            lemma_scan_esc_bounds(s, i + 1);
        }
    }
}

/// The position after a bracketed value that began `depth` levels up:
/// scans forward over string bodies (escape-aware) and counts bracket
/// nesting, caring not which bracket kind closes which. Yields the
/// position after the bracket that returns the nesting to zero.
pub open spec fn scan_container(s: Seq<char>, i: int, depth: int) -> Option<int>
    decreases s.len() - i,
    via scan_container_decreases
{
    if depth == 0 {
        Some(i)
    } else if i < 0 || i >= s.len() {
        None
    } else if s[i] == '{' || s[i] == '[' {
        scan_container(s, i + 1, depth + 1)
    } else if s[i] == '}' || s[i] == ']' {
        scan_container(s, i + 1, depth - 1)
    } else if s[i] == '"' {
        match scan_esc(s, i + 1) {
            Some(q) => scan_container(s, q + 1, depth),
            None => None,
        }
    } else {
        scan_container(s, i + 1, depth)
    }
}

#[via_fn]
proof fn scan_container_decreases(s: Seq<char>, i: int, depth: int) {
    if depth != 0 && 0 <= i < s.len() && s[i] == '"' {
        lemma_scan_esc_bounds(s, i + 1);
    }
}

/// A found container end lies within bounds, at or after the start.
pub proof fn lemma_scan_container_bounds(s: Seq<char>, i: int, depth: int)
    requires
        0 <= i <= s.len(),
    ensures
        match scan_container(s, i, depth) {
            Some(j) => i <= j <= s.len(),
            None => true,
        },
    decreases s.len() - i,
{
    if depth != 0 && 0 <= i < s.len() {
        if s[i] == '"' {
            lemma_scan_esc_bounds(s, i + 1);
            match scan_esc(s, i + 1) {
                Some(q) => {
                    lemma_scan_container_bounds(s, q + 1, depth);
                },
                None => {},
            }
        } else if s[i] == '{' || s[i] == '[' {
            lemma_scan_container_bounds(s, i + 1, depth + 1);
        } else if s[i] == '}' || s[i] == ']' {
            lemma_scan_container_bounds(s, i + 1, depth - 1);
        } else {
            lemma_scan_container_bounds(s, i + 1, depth);
        }
    }
}

/// The end of a JSON number token at `i`: an optional minus, a whole part
/// without leading zeros, an optional fraction of at least one digit, an
/// optional exponent of at least one digit.
pub open spec fn scan_number_token(s: Seq<char>, i: int) -> Option<int> {
    let a = if 0 <= i < s.len() && s[i] == '-' {
        i + 1
    } else {
        i
    };
    if 0 <= a < s.len() && is_digit(s[a]) {
        let j = scan_digits(s, a);
        if s[a] == '0' && j > a + 1 {
            None
        } else {
            let k = if j < s.len() && s[j] == '.' {
                scan_digits(s, j + 1)
            } else {
                j
            };
            if k == j + 1 && j < s.len() && s[j] == '.' {
                None
            } else {
                if k < s.len() && (s[k] == 'e' || s[k] == 'E') {
                    let b = if k + 1 < s.len() && (s[k + 1] == '+' || s[k + 1] == '-') {
                        k + 2
                    } else {
                        k + 1
                    };
                    let e = scan_digits(s, b);
                    if e == b {
                        None
                    } else {
                        Some(e)
                    }
                } else {
                    Some(k)
                }
            }
        }
    } else {
        None
    }
}

/// A found number token end lies within bounds, after the start.
pub proof fn lemma_scan_number_token_bounds(s: Seq<char>, i: int)
    requires
        0 <= i <= s.len(),
    ensures
        match scan_number_token(s, i) {
            Some(end) => i + 1 <= end <= s.len(),
            None => true,
        },
{
    let a = if 0 <= i < s.len() && s[i] == '-' {
        i + 1
    } else {
        i
    };
    if 0 <= a < s.len() && is_digit(s[a]) {
        lemma_scan_digits(s, a);
        let j = scan_digits(s, a);
        if j < s.len() && s[j] == '.' {
            lemma_scan_digits(s, j + 1);
        }
        let k = if j < s.len() && s[j] == '.' {
            scan_digits(s, j + 1)
        } else {
            j
        };
        if 0 <= k < s.len() && (s[k] == 'e' || s[k] == 'E') {
            let b = if k + 1 < s.len() && (s[k + 1] == '+' || s[k + 1] == '-') {
                k + 2
            } else {
                k + 1
            };
            if b <= s.len() {
                lemma_scan_digits(s, b);
            }
        }
    }
}

} // verus!

verus! {

/// Model of a payload value: a plain string, a non-negative decimal
/// number, an absent value (`null`, or the upstream placeholder token),
/// or some other value the protocol never puts in a field it reads (a
/// boolean, a signed or exponent-form number, a number too wide to carry,
/// a string with escapes, an array or a nested object).
pub enum JsonValView {
    Str(Seq<char>),
    Num(DecimalView),
    Null,
    Other,
}

/// A payload value as the parser yields it.
#[derive(Debug, Clone, PartialEq, Eq)]
pub enum JsonVal {
    Str(String),
    Num(Decimal),
    Null,
    Other,
}

impl View for JsonVal {
    type V = JsonValView;

    open spec fn view(&self) -> JsonValView {
        match self {
            JsonVal::Str(s) => JsonValView::Str(s@),
            JsonVal::Num(d) => JsonValView::Num(d@),
            JsonVal::Null => JsonValView::Null,
            JsonVal::Other => JsonValView::Other,
        }
    }
}

/// Model of one `"key": value` pair of a payload object.
pub struct MemberView {
    pub key: Seq<char>,
    pub val: JsonValView,
}

/// One `"key": value` pair of a payload object.
#[derive(Debug, Clone, PartialEq, Eq)]
pub struct Member {
    pub key: String,
    pub val: JsonVal,
}

impl View for Member {
    type V = MemberView;

    open spec fn view(&self) -> MemberView {
        MemberView { key: self.key@, val: self.val@ }
    }
}

/// The views of a sequence of members.
pub open spec fn members_view(ms: Seq<Member>) -> Seq<MemberView> {
    ms.map_values(|m: Member| m@)
}

/// A value at `i`: a plain string, a carriable number, `null` or the
/// placeholder token (both read as an absent value), or some other value
/// (an escaped string, a signed, exponent-form or over-wide number, a
/// boolean, a bracket-balanced array or nested object). Yields the value
/// and the position after it.
pub open spec fn parse_value_at(s: Seq<char>, i: int) -> Option<(JsonValView, int)> {
    if 0 <= i < s.len() && s[i] == '"' {
        match parse_string_at(s, i) {
            Some((b, j)) => Some((JsonValView::Str(b), j)),
            None => match scan_esc(s, i + 1) {
                Some(q) => Some((JsonValView::Other, q + 1)),
                None => None,
            },
        }
    } else if 0 <= i < s.len() && (is_digit(s[i]) || s[i] == '-') {
        match scan_number_token(s, i) {
            None => None,
            Some(end) => match parse_number_at(s, i) {
                Some((d, j)) => if j == end {
                    Some((JsonValView::Num(d), end))
                } else {
                    Some((JsonValView::Other, end))
                },
                None => Some((JsonValView::Other, end)),
            },
        }
    } else {
        match parse_null_at(s, i) {
            Some(j) => Some((JsonValView::Null, j)),
            None => match parse_na_at(s, i) {
                Some(j) => Some((JsonValView::Null, j)),
                None => match parse_bool_at(s, i) {
                    Some(j) => Some((JsonValView::Other, j)),
                    None => {
                        if 0 <= i < s.len() && (s[i] == '{' || s[i] == '[') {
                            match scan_container(s, i + 1, 1) {
                                Some(j) => Some((JsonValView::Other, j)),
                                None => None,
                            }
                        } else {
                            None
                        }
                    },
                },
            },
        }
    }
}

/// A successful value parse moves forward and stays within bounds.
pub proof fn lemma_parse_value_bounds(s: Seq<char>, i: int)
    requires
        0 <= i <= s.len(),
    ensures
        match parse_value_at(s, i) {
            Some((v, j)) => i + 1 <= j <= s.len(),
            None => true,
        },
{
    lemma_parse_string_bounds(s, i);
    lemma_parse_number_bounds(s, i);
    lemma_scan_number_token_bounds(s, i);
    if 0 <= i < s.len() && s[i] == '"' {
        lemma_scan_esc_bounds(s, i + 1);
    }
    if i < s.len() {
        lemma_scan_container_bounds(s, i + 1, 1);
    }
}

/// The members of an object body starting at `i` (just after `{` or a
/// comma): blanks, a key string, a colon, a value, then either a comma and
/// further members or the closing brace. Yields the members and the
/// position after the brace.
pub open spec fn parse_members_at(s: Seq<char>, i: int) -> Option<(Seq<MemberView>, int)>
    decreases s.len() - i,
    via parse_members_at_decreases
{
    if !(0 <= i <= s.len()) {
        None
    } else {
        let j = skip_ws(s, i);
        match parse_string_at(s, j) {
            None => None,
            Some((key, j2)) => {
                let j3 = skip_ws(s, j2);
                if !(j3 < s.len() && s[j3] == ':') {
                    None
                } else {
                    let j4 = skip_ws(s, j3 + 1);
                    match parse_value_at(s, j4) {
                        None => None,
                        Some((v, j5)) => {
                            let m = MemberView { key, val: v };
                            let j6 = skip_ws(s, j5);
                            if j6 < s.len() && s[j6] == ',' {
                                match parse_members_at(s, j6 + 1) {
                                    Some((rest, end)) => Some((seq![m] + rest, end)),
                                    None => None,
                                }
                            } else if j6 < s.len() && s[j6] == '}' {
                                Some((seq![m], j6 + 1))
                            } else {
                                None
                            }
                        },
                    }
                }
            },
        }
    }
}

#[via_fn]
proof fn parse_members_at_decreases(s: Seq<char>, i: int) {
    if 0 <= i <= s.len() {
        lemma_skip_ws(s, i);
        let j = skip_ws(s, i);
        lemma_parse_string_bounds(s, j);
        if parse_string_at(s, j) is Some {
            let j2 = parse_string_at(s, j)->Some_0.1;
            lemma_skip_ws(s, j2);
            let j3 = skip_ws(s, j2);
            if j3 < s.len() && s[j3] == ':' {
                lemma_skip_ws(s, j3 + 1);
                let j4 = skip_ws(s, j3 + 1);
                lemma_parse_value_bounds(s, j4);
                if parse_value_at(s, j4) is Some {
                    let j5 = parse_value_at(s, j4)->Some_0.1;
                    lemma_skip_ws(s, j5);
                }
            }
        }
    }
}

/// A whole payload object: optional blanks, `{`, members or nothing, `}`,
/// optional blanks to the end of the text. Yields the members.
pub open spec fn parse_payload(s: Seq<char>) -> Option<Seq<MemberView>> {
    let i = skip_ws(s, 0);
    if i < s.len() && s[i] == '{' {
        let j = skip_ws(s, i + 1);
        if j < s.len() && s[j] == '}' {
            if skip_ws(s, j + 1) == s.len() {
                Some(seq![])
            } else {
                None
            }
        } else {
            match parse_members_at(s, i + 1) {
                Some((ms, end)) => {
                    if skip_ws(s, end) == s.len() {
                        Some(ms)
                    } else {
                        None
                    }
                },
                None => None,
            }
        }
    } else {
        None
    }
}

} // verus!

verus! {

/// Whether `c` is JSON whitespace.
pub fn is_ws_exec(c: char) -> (r: bool)
    ensures
        r == is_ws(c),
{
    c == ' ' || c == '\t' || c == '\n' || c == '\r'
}

/// Whether `c` may stand in a plain string body.
pub fn is_plain_exec(c: char) -> (r: bool)
    ensures
        r == (c != '"' && c != '\\'),
{
    c != '"' && c != '\\'
}

/// Skips whitespace from `i`.
pub fn skip_ws_exec(s: &str, i: usize) -> (r: usize)
    requires
        i <= s@.len(),
    ensures
        r == skip_ws(s@, i as int),
        i <= r <= s@.len(),
{
    proof {
        lemma_skip_ws(s@, i as int);
    }
    let n = s.unicode_len();
    let mut k: usize = i;
    while k < n && is_ws_exec(s.get_char(k))
        invariant
            i <= k <= n,
            n == s@.len(),
            skip_ws(s@, i as int) == skip_ws(s@, k as int),
        decreases n - k,
    {
        k += 1;
    }
    proof {
        lemma_skip_ws(s@, k as int);
    }
    k
}

/// Whether `c` is a decimal digit.
pub fn is_digit_exec(c: char) -> (r: bool)
    ensures
        r == is_digit(c),
{
    '0' <= c && c <= '9'
}

/// Skips decimal digits from `i`.
pub fn scan_digits_exec(s: &str, i: usize) -> (r: usize)
    requires
        i <= s@.len(),
    ensures
        r == scan_digits(s@, i as int),
        i <= r <= s@.len(),
{
    proof {
        lemma_scan_digits(s@, i as int);
    }
    let n = s.unicode_len();
    let mut k: usize = i;
    while k < n && is_digit_exec(s.get_char(k))
        invariant
            i <= k <= n,
            n == s@.len(),
            scan_digits(s@, i as int) == scan_digits(s@, k as int),
        decreases n - k,
    {
        k += 1;
    }
    proof {
        lemma_scan_digits(s@, k as int);
    }
    k
}

/// Skips plain string-body characters from `i`.
pub fn scan_plain_exec(s: &str, i: usize) -> (r: usize)
    requires
        i <= s@.len(),
    ensures
        r == scan_plain(s@, i as int),
        i <= r <= s@.len(),
{
    proof {
        lemma_scan_plain(s@, i as int);
    }
    let n = s.unicode_len();
    let mut k: usize = i;
    while k < n && is_plain_exec(s.get_char(k))
        invariant
            i <= k <= n,
            n == s@.len(),
            scan_plain(s@, i as int) == scan_plain(s@, k as int),
        decreases n - k,
    {
        k += 1;
    }
    proof {
        lemma_scan_plain(s@, k as int);
    }
    k
}

/// Parses a quoted string at `i`.
pub fn parse_string_exec(s: &str, i: usize) -> (r: Option<(String, usize)>)
    requires
        i <= s@.len(),
    ensures
        match r {
            Some((b, j)) => parse_string_at(s@, i as int) == Some((b@, j as int)) && j <= s@.len(),
            None => parse_string_at(s@, i as int) is None,
        },
{
    let n = s.unicode_len();
    if i < n && s.get_char(i) == '"' {
        let j = scan_plain_exec(s, i + 1);
        if j < n && s.get_char(j) == '"' {
            let body = s.substring_char(i + 1, j);
            Some((body.to_owned(), j + 1))
        } else {
            None
        }
    } else {
        None
    }
}

/// The numeric value of one digit character.
pub fn digit_val_exec(c: char) -> (r: u64)
    requires
        is_digit(c),
    ensures
        r as int == digit_val(c),
        r <= 9,
{
    let v: u32 = c as u32;
    (v - 48) as u64
}

/// `pow10` is at least one.
pub proof fn lemma_pow10_pos(a: int)
    ensures
        pow10(a) >= 1,
    decreases (if a > 0 { a } else { 0 }),
{
    if a > 0 {
        lemma_pow10_pos(a - 1);
    }
}

/// `pow10` is monotone.
pub proof fn lemma_pow10_le(a: int, b: int)
    requires
        a <= b,
    ensures
        pow10(a) <= pow10(b),
        pow10(a) >= 1,
    decreases b - a,
{
    lemma_pow10_pos(a);
    if a < b {
        lemma_pow10_le(a, b - 1);
        lemma_pow10_pos(b - 1);
    }
}

/// Parses a number at `i`.
pub fn parse_number_exec(s: &str, i: usize) -> (r: Option<(Decimal, usize)>)
    requires
        i <= s@.len(),
    ensures
        match r {
            Some((d, j)) => parse_number_at(s@, i as int) == Some((d@, j as int)) && j <= s@.len(),
            None => parse_number_at(s@, i as int) is None,
        },
{
    let n = s.unicode_len();
    if !(i < n && is_digit_exec(s.get_char(i))) {
        return None;
    }
    let j = scan_digits_exec(s, i);
    proof {
        lemma_scan_digits(s@, i as int);
    }
    if s.get_char(i) == '0' && j > i + 1 {
        return None;
    }
    if j - i > 18 {
        return None;
    }
    // the digit run's value; with at most 18 digits it stays below 10^18
    let mut v: u64 = 0;
    let mut k: usize = i;
    while k < j
        invariant
            i <= k <= j,
            j <= s@.len(),
            j - i <= 18,
            forall|t: int| i <= t < j ==> is_digit(#[trigger] s@[t]),
            v as int == digits_value(s@, i as int, k as int),
            (v as int) < pow10(k - i),
        decreases j - k,
    {
        let d = digit_val_exec(s.get_char(k));
        proof {
            lemma_pow10_le(k - i + 1, 18);
            reveal_with_fuel(pow10, 20);
            assert(pow10(18) == 1000000000000000000);
            assert((v as int) * 10 + 9 < pow10(k - i + 1)) by (nonlinear_arith)
                requires
                    (v as int) < pow10(k - i),
                    pow10(k - i + 1) == 10 * pow10(k - i),
            ;
        }
        v = v * 10 + d;
        k += 1;
    }
    if j < n && s.get_char(j) == '.' {
        let k2 = scan_digits_exec(s, j + 1);
        if k2 == j + 1 {
            None
        } else {
            let frac = s.substring_char(j + 1, k2);
            let d = Decimal { int_part: v, frac: frac.to_owned() };
            proof {
                assert(d@ == parse_number_at(s@, i as int)->Some_0.0);
            }
            Some((d, k2))
        }
    } else {
        let d = Decimal::whole(v);
        proof {
            assert(d@ == parse_number_at(s@, i as int)->Some_0.0);
        }
        Some((d, j))
    }
}

/// Parses the keyword `null` at `i`.
pub fn parse_null_exec(s: &str, i: usize) -> (r: Option<usize>)
    requires
        i <= s@.len(),
    ensures
        match r {
            Some(j) => parse_null_at(s@, i as int) == Some(j as int) && j <= s@.len(),
            None => parse_null_at(s@, i as int) is None,
        },
{
    proof {
        reveal_strlit("null");
        assert("null"@ =~= seq!['n', 'u', 'l', 'l']);
    }
    let n = s.unicode_len();
    if n >= 4 && i <= n - 4 {
        if crate::text::match_at_exec(s, "null", i) {
            Some(i + 4)
        } else {
            None
        }
    } else {
        None
    }
}

/// Parses the placeholder token `NA` at `i`.
pub fn parse_na_exec(s: &str, i: usize) -> (r: Option<usize>)
    requires
        i <= s@.len(),
    ensures
        match r {
            Some(j) => parse_na_at(s@, i as int) == Some(j as int) && j <= s@.len(),
            None => parse_na_at(s@, i as int) is None,
        },
{
    proof {
        reveal_strlit("NA");
        assert("NA"@ =~= seq!['N', 'A']);
    }
    let n = s.unicode_len();
    if n >= 2 && i <= n - 2 {
        if crate::text::match_at_exec(s, "NA", i) {
            Some(i + 2)
        } else {
            None
        }
    } else {
        None
    }
}

/// Parses a boolean keyword at `i`.
pub fn parse_bool_exec(s: &str, i: usize) -> (r: Option<usize>)
    requires
        i <= s@.len(),
    ensures
        match r {
            Some(j) => parse_bool_at(s@, i as int) == Some(j as int) && j <= s@.len(),
            None => parse_bool_at(s@, i as int) is None,
        },
{
    proof {
        reveal_strlit("true");
        reveal_strlit("false");
        assert("true"@ =~= seq!['t', 'r', 'u', 'e']);
        assert("false"@ =~= seq!['f', 'a', 'l', 's', 'e']);
    }
    let n = s.unicode_len();
    if n >= 4 && i <= n - 4 && crate::text::match_at_exec(s, "true", i) {
        Some(i + 4)
    } else if n >= 5 && i <= n - 5 && crate::text::match_at_exec(s, "false", i) {
        Some(i + 5)
    } else {
        proof {
            if match_at(s@, seq!['t', 'r', 'u', 'e'], i as int) {
                assert(i + 4 <= s@.len());
            }
            if match_at(s@, seq!['f', 'a', 'l', 's', 'e'], i as int) {
                assert(i + 5 <= s@.len());
            }
        }
        None
    }
}

/// Finds the closing quote of an escape-bearing string body.
pub fn scan_esc_exec(s: &str, i: usize) -> (r: Option<usize>)
    requires
        i <= s@.len(),
    ensures
        match r {
            Some(j) => scan_esc(s@, i as int) == Some(j as int) && j < s@.len(),
            None => scan_esc(s@, i as int) is None,
        },
    decreases s@.len() - i,
{
    let n = s.unicode_len();
    if i >= n {
        return None;
    }
    let c = s.get_char(i);
    if c == '"' {
        Some(i)
    } else if c == '\\' {
        if n - i >= 2 {
            scan_esc_exec(s, i + 2)
        } else {
            None
        }
    } else {
        scan_esc_exec(s, i + 1)
    }
}

/// Finds the position after a bracketed value that began `depth` levels
/// up.
pub fn scan_container_exec(s: &str, i: usize, depth: usize) -> (r: Option<usize>)
    requires
        depth <= i,
        i <= s@.len(),
    ensures
        match r {
            Some(j) => scan_container(s@, i as int, depth as int) == Some(j as int) && j
                <= s@.len(),
            None => scan_container(s@, i as int, depth as int) is None,
        },
    decreases s@.len() - i,
{
    if depth == 0 {
        return Some(i);
    }
    let n = s.unicode_len();
    if i >= n {
        return None;
    }
    let c = s.get_char(i);
    if c == '{' || c == '[' {
        scan_container_exec(s, i + 1, depth + 1)
    } else if c == '}' || c == ']' {
        scan_container_exec(s, i + 1, depth - 1)
    } else if c == '"' {
        proof {
            lemma_scan_esc_bounds(s@, i + 1);
        }
        match scan_esc_exec(s, i + 1) {
            Some(q) => scan_container_exec(s, q + 1, depth),
            None => None,
        }
    } else {
        scan_container_exec(s, i + 1, depth)
    }
}

/// Finds the end of a JSON number token at `i`.
pub fn scan_number_token_exec(s: &str, i: usize) -> (r: Option<usize>)
    requires
        i <= s@.len(),
    ensures
        match r {
            Some(end) => scan_number_token(s@, i as int) == Some(end as int) && end <= s@.len(),
            None => scan_number_token(s@, i as int) is None,
        },
{
    let n = s.unicode_len();
    let a: usize = if i < n && s.get_char(i) == '-' {
        i + 1
    } else {
        i
    };
    if !(a < n && is_digit_exec(s.get_char(a))) {
        return None;
    }
    let j = scan_digits_exec(s, a);
    if s.get_char(a) == '0' && j > a + 1 {
        return None;
    }
    let has_frac = j < n && s.get_char(j) == '.';
    let k: usize = if has_frac {
        scan_digits_exec(s, j + 1)
    } else {
        j
    };
    if has_frac && k == j + 1 {
        return None;
    }
    if k < n {
        let ck = s.get_char(k);
        if ck == 'e' || ck == 'E' {
            let b: usize = if k + 1 < n {
                let cb = s.get_char(k + 1);
                if cb == '+' || cb == '-' {
                    k + 2
                } else {
                    k + 1
                }
            } else {
                k + 1
            };
            let e = scan_digits_exec(s, b);
            if e == b {
                return None;
            }
            return Some(e);
        }
    }
    Some(k)
}

/// Parses a value at `i`.
pub fn parse_value_exec(s: &str, i: usize) -> (r: Option<(JsonVal, usize)>)
    requires
        i <= s@.len(),
    ensures
        match r {
            Some((v, j)) => parse_value_at(s@, i as int) == Some((v@, j as int)) && j <= s@.len(),
            None => parse_value_at(s@, i as int) is None,
        },
{
    let n = s.unicode_len();
    if i < n && s.get_char(i) == '"' {
        match parse_string_exec(s, i) {
            Some((b, j)) => Some((JsonVal::Str(b), j)),
            None => {
                match scan_esc_exec(s, i + 1) {
                    Some(q) => Some((JsonVal::Other, q + 1)),
                    None => None,
                }
            },
        }
    } else if i < n && {
        let c = s.get_char(i);
        is_digit_exec(c) || c == '-'
    } {
        match scan_number_token_exec(s, i) {
            None => None,
            Some(end) => {
                match parse_number_exec(s, i) {
                    Some((d, j)) => {
                        if j == end {
                            Some((JsonVal::Num(d), end))
                        } else {
                            Some((JsonVal::Other, end))
                        }
                    },
                    None => Some((JsonVal::Other, end)),
                }
            },
        }
    } else {
        match parse_null_exec(s, i) {
            Some(j) => Some((JsonVal::Null, j)),
            None => {
                match parse_na_exec(s, i) {
                    Some(j) => Some((JsonVal::Null, j)),
                    None => {
                        match parse_bool_exec(s, i) {
                            Some(j) => Some((JsonVal::Other, j)),
                            None => {
                                if i < n && {
                                    let c = s.get_char(i);
                                    c == '{' || c == '['
                                } {
                                    match scan_container_exec(s, i + 1, 1) {
                                        Some(j) => Some((JsonVal::Other, j)),
                                        None => None,
                                    }
                                } else {
                                    None
                                }
                            },
                        }
                    },
                }
            },
        }
    }
}

/// Parses the members of an object body starting at `i`.
pub fn parse_members_exec(s: &str, i: usize) -> (r: Option<(Vec<Member>, usize)>)
    requires
        i <= s@.len(),
    ensures
        match r {
            Some((ms, end)) => parse_members_at(s@, i as int) == Some(
                (members_view(ms@), end as int),
            ) && end <= s@.len(),
            None => parse_members_at(s@, i as int) is None,
        },
    decreases s@.len() - i,
{
    let n = s.unicode_len();
    let j = skip_ws_exec(s, i);
    let (key, j2) = match parse_string_exec(s, j) {
        Some(kj) => kj,
        None => {
            return None;
        },
    };
    let j3 = skip_ws_exec(s, j2);
    if !(j3 < n && s.get_char(j3) == ':') {
        return None;
    }
    let j4 = skip_ws_exec(s, j3 + 1);
    let (v, j5) = match parse_value_exec(s, j4) {
        Some(vj) => vj,
        None => {
            return None;
        },
    };
    let m = Member { key, val: v };
    let j6 = skip_ws_exec(s, j5);
    if j6 < n && s.get_char(j6) == ',' {
        proof {
            lemma_parse_string_bounds(s@, j as int);
            lemma_parse_value_bounds(s@, j4 as int);
        }
        match parse_members_exec(s, j6 + 1) {
            Some((mut ms, end)) => {
                let ghost old_ms = ms@;
                ms.insert(0, m);
                proof {
                    assert(members_view(ms@) =~= seq![m@] + members_view(old_ms));
                }
                Some((ms, end))
            },
            None => None,
        }
    } else if j6 < n && s.get_char(j6) == '}' {
        let mut ms: Vec<Member> = Vec::new();
        ms.push(m);
        proof {
            assert(members_view(ms@) =~= seq![m@]);
        }
        Some((ms, j6 + 1))
    } else {
        None
    }
}

/// Parses a whole payload object.
pub fn parse_payload_exec(s: &str) -> (r: Option<Vec<Member>>)
    ensures
        match r {
            Some(ms) => parse_payload(s@) == Some(members_view(ms@)),
            None => parse_payload(s@) is None,
        },
{
    let n = s.unicode_len();
    let i = skip_ws_exec(s, 0);
    if i < n && s.get_char(i) == '{' {
        let j = skip_ws_exec(s, i + 1);
        if j < n && s.get_char(j) == '}' {
            if skip_ws_exec(s, j + 1) == n {
                let ms: Vec<Member> = Vec::new();
                proof {
                    assert(members_view(ms@) =~= Seq::<MemberView>::empty());
                }
                Some(ms)
            } else {
                None
            }
        } else {
            match parse_members_exec(s, i + 1) {
                Some((ms, end)) => {
                    if skip_ws_exec(s, end) == n {
                        Some(ms)
                    } else {
                        None
                    }
                },
                None => None,
            }
        }
    } else {
        None
    }
}

} // verus!

verus! {

/// How many members at or after `i` carry the key `k`.
pub open spec fn key_count_from(ms: Seq<MemberView>, k: Seq<char>, i: int) -> int
    decreases ms.len() - i,
{
    if i < 0 || i >= ms.len() {
        0
    } else {
        (if ms[i].key == k {
            1int
        } else {
            0int
        }) + key_count_from(ms, k, i + 1)
    }
}

/// The value of the first member at or after `i` that carries the key `k`,
/// or null where none does.
pub open spec fn key_first_from(ms: Seq<MemberView>, k: Seq<char>, i: int) -> JsonValView
    decreases ms.len() - i,
{
    if i < 0 || i >= ms.len() {
        JsonValView::Null
    } else if ms[i].key == k {
        ms[i].val
    } else {
        key_first_from(ms, k, i + 1)
    }
}

/// The key count is non-negative.
pub proof fn lemma_key_count_nonneg(ms: Seq<MemberView>, k: Seq<char>, i: int)
    ensures
        key_count_from(ms, k, i) >= 0,
    decreases ms.len() - i,
{
    if 0 <= i < ms.len() {
        lemma_key_count_nonneg(ms, k, i + 1);
    }
}

/// Counts the members keyed `k` and finds the first of them.
pub fn key_probe(ms: &Vec<Member>, k: &str) -> (r: (usize, Option<usize>))
    ensures
        r.0 as int == key_count_from(members_view(ms@), k@, 0),
        match r.1 {
            Some(fi) => fi < ms@.len() && members_view(ms@)[fi as int].val == key_first_from(
                members_view(ms@),
                k@,
                0,
            ) && key_count_from(members_view(ms@), k@, 0) > 0,
            None => key_count_from(members_view(ms@), k@, 0) == 0,
        },
{
    let ghost mv = members_view(ms@);
    let n = ms.len();
    let mut count: usize = 0;
    let mut first: Option<usize> = None;
    let mut i: usize = 0;
    proof {
        assert(mv.len() == ms@.len());
    }
    while i < n
        invariant
            0 <= i <= n,
            n == ms@.len(),
            mv == members_view(ms@),
            mv.len() == n,
            count <= i,
            key_count_from(mv, k@, 0) == count + key_count_from(mv, k@, i as int),
            match first {
                Some(fi) => fi < n && mv[fi as int].val == key_first_from(mv, k@, 0) && count > 0,
                None => count == 0 && key_first_from(mv, k@, 0) == key_first_from(
                    mv,
                    k@,
                    i as int,
                ),
            },
        decreases n - i,
    {
        proof {
            assert(mv[i as int] == ms@[i as int]@);
        }
        if str_eq(ms[i].key.as_str(), k) {
            count += 1;
            if first.is_none() {
                first = Some(i);
            }
        }
        i += 1;
    }
    proof {
        lemma_key_count_nonneg(mv, k@, 0);
    }
    (count, first)
}

} // verus!
