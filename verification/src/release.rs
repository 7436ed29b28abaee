use vstd::prelude::*;

use crate::text::{
    dec_digits, find_from, find_sub, lines_of, split_lines, starts_with, starts_with_exec,
    u64_string, views_of,
};

verus! {

/// The SHA-256 digest of a byte run.
pub uninterp spec fn sha256_of(data: Seq<u8>) -> Seq<u8>;

/// Relies on sha2::Sha256::digest: the 32-byte SHA-256 digest, a function
/// of the input bytes alone.
#[verifier::external_body]
fn sha256_digest(data: &[u8]) -> (r: Vec<u8>)
    ensures
        r@ == sha256_of(data@),
        r@.len() == 32,
{
    <sha2::Sha256 as sha2::Digest>::digest(data).to_vec()
}

/// The character of one hex digit, lower case.
pub open spec fn hex_digit_char(d: int) -> char {
    if d == 0 {
        '0'
    } else if d == 1 {
        '1'
    } else if d == 2 {
        '2'
    } else if d == 3 {
        '3'
    } else if d == 4 {
        '4'
    } else if d == 5 {
        '5'
    } else if d == 6 {
        '6'
    } else if d == 7 {
        '7'
    } else if d == 8 {
        '8'
    } else if d == 9 {
        '9'
    } else if d == 10 {
        'a'
    } else if d == 11 {
        'b'
    } else if d == 12 {
        'c'
    } else if d == 13 {
        'd'
    } else if d == 14 {
        'e'
    } else {
        'f'
    }
}

/// A byte run written in lower-case hex, two digits per byte, in order.
pub open spec fn hex_of(data: Seq<u8>) -> Seq<char> {
    Seq::new(
        data.len() * 2,
        |i: int|
            if i % 2 == 0 {
                hex_digit_char(data[i / 2] as int / 16)
            } else {
                hex_digit_char(data[i / 2] as int % 16)
            },
    )
}

/// Relies on hex::encode: two lower-case hex digits per byte, in input
/// order.
#[verifier::external_body]
fn hex_encode(data: &[u8]) -> (r: String)
    ensures
        r@ == hex_of(data@),
{
    hex::encode(data)
}

/// The lower-case hex SHA-256 checksum of a source archive, as a package
/// build file cites it.
pub fn source_hash_hex(data: &[u8]) -> (r: String)
    ensures
        r@ == hex_of(sha256_of(data@)),
        r@.len() == 64,
{
    let digest = sha256_digest(data);
    hex_encode(digest.as_slice())
}

/// One build-file line after a version bump: the version line, the
/// checksum line and, when a release number is given, the release line are
/// replaced; every other line stays.
pub open spec fn spec_rewrite_line(
    l: Seq<char>,
    version: Seq<char>,
    sha256: Seq<char>,
    rel: Option<u8>,
) -> Seq<char> {
    if starts_with(l, "pkgver="@) {
        "pkgver="@ + version
    } else if starts_with(l, "sha256sums="@) {
        "sha256sums=(\""@ + sha256 + "\")"@
    } else if starts_with(l, "pkgrel"@) {
        match rel {
            Some(r) => "pkgrel="@ + dec_digits(r as int),
            None => l,
        }
    } else {
        l
    }
}

/// The rewritten lines joined back, each closed with a newline.
pub open spec fn spec_rewrite_lines(
    ls: Seq<Seq<char>>,
    version: Seq<char>,
    sha256: Seq<char>,
    rel: Option<u8>,
) -> Seq<char>
    decreases ls.len(),
{
    if ls.len() == 0 {
        Seq::<char>::empty()
    } else {
        spec_rewrite_line(ls[0], version, sha256, rel) + seq!['\n'] + spec_rewrite_lines(
            ls.drop_first(),
            version,
            sha256,
            rel,
        )
    }
}

/// A package build file after a version bump.
pub open spec fn spec_update_pkgbuild(
    t: Seq<char>,
    version: Seq<char>,
    sha256: Seq<char>,
    rel: Option<u8>,
) -> Seq<char> {
    spec_rewrite_lines(split_lines(t), version, sha256, rel)
}

/// The rewritten lines of a prefix grow by one line at a time.
proof fn lemma_rewrite_lines_step(
    ls: Seq<Seq<char>>,
    version: Seq<char>,
    sha256: Seq<char>,
    rel: Option<u8>,
    i: int,
)
    requires
        0 <= i < ls.len(),
    ensures
        spec_rewrite_lines(ls.subrange(0, i + 1), version, sha256, rel) =~= spec_rewrite_lines(
            ls.subrange(0, i),
            version,
            sha256,
            rel,
        ) + spec_rewrite_line(ls[i], version, sha256, rel) + seq!['\n'],
    decreases ls.len(),
{
    lemma_rewrite_lines_snoc(ls.subrange(0, i + 1), version, sha256, rel);
    assert(ls.subrange(0, i + 1).drop_last() =~= ls.subrange(0, i));
    assert(ls.subrange(0, i + 1).last() == ls[i]);
}

/// The rewritten lines of a non-empty run split at the last line.
proof fn lemma_rewrite_lines_snoc(
    ls: Seq<Seq<char>>,
    version: Seq<char>,
    sha256: Seq<char>,
    rel: Option<u8>,
)
    requires
        ls.len() >= 1,
    ensures
        spec_rewrite_lines(ls, version, sha256, rel) =~= spec_rewrite_lines(
            ls.drop_last(),
            version,
            sha256,
            rel,
        ) + spec_rewrite_line(ls.last(), version, sha256, rel) + seq!['\n'],
    decreases ls.len(),
{
    if ls.len() == 1 {
        assert(ls.drop_first() =~= Seq::<Seq<char>>::empty());
        assert(ls.drop_last() =~= Seq::<Seq<char>>::empty());
    } else {
        lemma_rewrite_lines_snoc(ls.drop_first(), version, sha256, rel);
        assert(ls.drop_first().drop_last() =~= ls.drop_last().drop_first());
        assert(ls.drop_first().last() == ls.last());
        assert(spec_rewrite_lines(ls.drop_last(), version, sha256, rel) =~= spec_rewrite_line(
            ls.drop_last()[0],
            version,
            sha256,
            rel,
        ) + seq!['\n'] + spec_rewrite_lines(ls.drop_last().drop_first(), version, sha256, rel));
        assert(ls.drop_last()[0] == ls[0]);
    }
}

/// Rewrites one build-file line after a version bump.
fn rewrite_line(l: &str, version: &str, sha256: &str, rel: &Option<u8>) -> (r: String)
    ensures
        r@ == spec_rewrite_line(l@, version@, sha256@, *rel),
{
    if starts_with_exec(l, "pkgver=") {
        let mut s = "pkgver=".to_owned();
        s.append(version);
        s
    } else if starts_with_exec(l, "sha256sums=") {
        let mut s = "sha256sums=(\"".to_owned();
        s.append(sha256);
        s.append("\")");
        s
    } else if starts_with_exec(l, "pkgrel") {
        match rel {
            Some(r) => {
                let mut s = "pkgrel=".to_owned();
                s.append(u64_string(*r as u64).as_str());
                s
            },
            None => l.to_owned(),
        }
    } else {
        l.to_owned()
    }
}

/// Rewrites a package build file for a new version: the version line gets
/// the new version, the checksum line the new source checksum, and, when a
/// release number is given, the release line is reset to it.
pub fn update_pkgbuild(t: &str, version: &str, sha256: &str, rel: Option<u8>) -> (r: String)
    ensures
        r@ == spec_update_pkgbuild(t@, version@, sha256@, rel),
{
    let lines = lines_of(t);
    let ghost line_views = views_of(lines@);
    let mut out = String::new();
    let mut i: usize = 0;
    proof {
        assert(out@ =~= spec_rewrite_lines(line_views.subrange(0, 0), version@, sha256@, rel));
    }
    while i < lines.len()
        invariant
            0 <= i <= lines.len(),
            line_views == views_of(lines@),
            line_views.len() == lines@.len(),
            out@ =~= spec_rewrite_lines(line_views.subrange(0, i as int), version@, sha256@, rel),
        decreases lines.len() - i,
    {
        proof {
            assert(line_views[i as int] == lines@[i as int]@);
        }
        let piece = rewrite_line(lines[i].as_str(), version, sha256, &rel);
        out.append(piece.as_str());
        out.append("\n");
        proof {
            reveal_strlit("\n");
            assert("\n"@ =~= seq!['\n']);
            lemma_rewrite_lines_step(line_views, version@, sha256@, rel, i as int);
        }
        i += 1;
    }
    proof {
        assert(line_views.subrange(0, lines@.len() as int) =~= line_views);
    }
    out
}

/// The first line of `ls` at or after `i` that opens with `key`.
pub open spec fn first_line_with(ls: Seq<Seq<char>>, key: Seq<char>, i: int) -> Option<Seq<char>>
    decreases ls.len() - i,
{
    if i < 0 || i >= ls.len() {
        None
    } else if starts_with(ls[i], key) {
        Some(ls[i])
    } else {
        first_line_with(ls, key, i + 1)
    }
}

/// The value a build file gives under `key`: the text after the first
/// equals sign of the first line opening with `key`; nothing when no such
/// line exists or the line carries no equals sign.
pub open spec fn spec_pkgbuild_field(t: Seq<char>, key: Seq<char>) -> Option<Seq<char>> {
    match first_line_with(split_lines(t), key, 0) {
        None => None,
        Some(l) => match find_from(l, seq!['='], 0) {
            Some(p) => Some(l.subrange(p + 1, l.len() as int)),
            None => None,
        },
    }
}

/// Reads the value a build file gives under `key`.
pub fn pkgbuild_field(t: &str, key: &str) -> (r: Option<String>)
    ensures
        match r {
            Some(v) => spec_pkgbuild_field(t@, key@) == Some(v@),
            None => spec_pkgbuild_field(t@, key@) is None,
        },
{
    let lines = lines_of(t);
    let ghost line_views = views_of(lines@);
    let mut i: usize = 0;
    while i < lines.len()
        invariant
            0 <= i <= lines.len(),
            line_views == views_of(lines@),
            line_views.len() == lines@.len(),
            line_views == split_lines(t@),
            first_line_with(line_views, key@, 0) == first_line_with(line_views, key@, i as int),
        decreases lines.len() - i,
    {
        proof {
            assert(line_views[i as int] == lines@[i as int]@);
        }
        let line: &str = lines[i].as_str();
        if starts_with_exec(line, key) {
            proof {
                reveal_strlit("=");
                assert("="@ =~= seq!['=']);
            }
            match find_sub(line, "=", 0) {
                Some(p) => {
                    let n = line.unicode_len();
                    proof {
                        crate::text::lemma_find_from(line@, "="@, 0);
                    }
                    let v = line.substring_char(p + 1, n);
                    return Some(v.to_owned());
                },
                None => {
                    return None;
                },
            }
        }
        i += 1;
    }
    None
}

/// What a yes-or-no question's answer means: the empty answer or a plain
/// `y` agrees, a plain `n` declines, anything else is no answer. Case is
/// folded on the one letter.
pub enum ConfirmAnswer {
    Proceed,
    Abort,
    Invalid,
}

/// The meaning of one answer line, the trailing newline already part of
/// the read text.
pub open spec fn spec_classify_answer(s: Seq<char>) -> ConfirmAnswer {
    if s == "\n"@ || s == "y\n"@ || s == "Y\n"@ {
        ConfirmAnswer::Proceed
    } else if s == "n\n"@ || s == "N\n"@ {
        ConfirmAnswer::Abort
    } else {
        ConfirmAnswer::Invalid
    }
}

/// Classifies one answer line of a yes-or-no question.
pub fn classify_answer(s: &str) -> (r: ConfirmAnswer)
    ensures
        r == spec_classify_answer(s@),
{
    if crate::text::str_eq(s, "\n") || crate::text::str_eq(s, "y\n") || crate::text::str_eq(
        s,
        "Y\n",
    ) {
        ConfirmAnswer::Proceed
    } else if crate::text::str_eq(s, "n\n") || crate::text::str_eq(s, "N\n") {
        ConfirmAnswer::Abort
    } else {
        ConfirmAnswer::Invalid
    }
}

} // verus!
