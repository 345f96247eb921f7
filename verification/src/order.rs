//! The order in which versions are listed: tags that read as semantic versions
//! come last, newest first; all other tags come before them, in reverse
//! lexicographic order.

use std::cmp::Ordering;
use vstd::prelude::*;
use vstd::string::*;
use crate::text::{compare_text, text_order, lemma_lex_order_antisymmetric, bytes_of};

verus! {

/// Whether `semver::Version::parse` accepts the text.
pub uninterp spec fn semver_accepts(text: Seq<char>) -> bool;

/// How `semver::Version` orders the versions that two accepted texts parse to:
/// negative when the first is the older, zero when they are equal, positive
/// when the first is the newer.
pub uninterp spec fn semver_order(a: Seq<char>, b: Seq<char>) -> int;

/// The number that stands for an `Ordering`: -1, 0 or 1.
pub open spec fn sign_of(o: Ordering) -> int {
    match o {
        Ordering::Less => -1,
        Ordering::Equal => 0,
        Ordering::Greater => 1,
    }
}

/// Calls `semver::Version::parse` and reports whether it returned `Ok`. The
/// parser is a function of the text alone; nothing is claimed of which texts
/// it accepts.
#[verifier::external_body]
fn semver_parses(text: &str) -> (ok: bool)
    ensures
        ok == semver_accepts(text@),
{
    semver::Version::parse(text).is_ok()
}

/// Parses both texts with `semver::Version::parse` and compares the two
/// versions with `semver::Version`'s `Ord`. That order is total, so comparing
/// the other way round gives the reverse.
#[verifier::external_body]
fn semver_compare(a: &str, b: &str) -> (r: Ordering)
    requires
        semver_accepts(a@),
        semver_accepts(b@),
    ensures
        sign_of(r) == semver_order(a@, b@),
        sign_of(r) == -semver_order(b@, a@),
{
    match (semver::Version::parse(a), semver::Version::parse(b)) {
        (Ok(x), Ok(y)) => x.cmp(&y),
        _ => Ordering::Equal,
    }
}

/// Whether a character is a version prefix letter.
pub open spec fn is_prefix_letter(c: char) -> bool {
    c == 'v' || c == 'V'
}

/// Whether a character may stand in a dotted number.
pub open spec fn is_numeric_char(c: char) -> bool {
    ('0' <= c && c <= '9') || c == '.'
}

/// How many prefix letters the text starts with.
pub open spec fn leading_letters(s: Seq<char>) -> nat
    decreases s.len(),
{
    if s.len() > 0 && is_prefix_letter(s[0]) {
        1 + leading_letters(s.skip(1))
    } else {
        0
    }
}

/// How many digits and dots the text starts with.
pub open spec fn leading_numeric(s: Seq<char>) -> nat
    decreases s.len(),
{
    if s.len() > 0 && is_numeric_char(s[0]) {
        1 + leading_numeric(s.skip(1))
    } else {
        0
    }
}

/// The tag without its leading `v` and `V` letters.
pub open spec fn without_prefix(tag: Seq<char>) -> Seq<char> {
    tag.skip(leading_letters(tag) as int)
}

/// The longest prefix of the text made of digits and dots.
pub open spec fn numeric_prefix(s: Seq<char>) -> Seq<char> {
    s.take(leading_numeric(s) as int)
}

/// The number of dots in the text.
pub open spec fn dot_count(s: Seq<char>) -> nat
    decreases s.len(),
{
    if s.len() == 0 {
        0
    } else if s.last() == '.' {
        dot_count(s.drop_last()) + 1
    } else {
        dot_count(s.drop_last())
    }
}

/// Whether the text, cut at its dots, falls into parts none of which is empty.
pub open spec fn well_dotted(p: Seq<char>) -> bool {
    &&& p.len() > 0
    &&& p[0] != '.'
    &&& p.last() != '.'
    &&& forall|i: int| 0 <= i < p.len() - 1 ==> !(#[trigger] p[i] == '.' && p[i + 1] == '.')
}

/// A dotted number with fewer than three parts, filled up with zero parts.
pub open spec fn padded(p: Seq<char>) -> Seq<char> {
    if dot_count(p) == 0 {
        p + ".0.0"@
    } else if dot_count(p) == 1 {
        p + ".0"@
    } else {
        p
    }
}

/// The text of an optional string.
pub open spec fn text_of(t: Option<String>) -> Option<Seq<char>> {
    match t {
        Some(s) => Some(s@),
        None => None,
    }
}

/// The text under which a tag reads as a semantic version, given what the
/// parser says of its two readings: the tag without its prefix letters where
/// the parser accepts that (`trimmed_ok`), else its leading dotted number
/// filled up to three parts where that is well formed and the parser accepts
/// it (`padded_ok`).
pub open spec fn semver_text_with(tag: Seq<char>, trimmed_ok: bool, padded_ok: bool) -> Option<
    Seq<char>,
> {
    let t = without_prefix(tag);
    let p = numeric_prefix(t);
    if trimmed_ok {
        Some(t)
    } else if well_dotted(p) && padded_ok {
        Some(padded(p))
    } else {
        None
    }
}

/// The text under which a tag reads as a semantic version.
pub open spec fn semver_text(tag: Seq<char>) -> Option<Seq<char>> {
    semver_text_with(
        tag,
        semver_accepts(without_prefix(tag)),
        semver_accepts(padded(numeric_prefix(without_prefix(tag)))),
    )
}

/// The listing order of two tags, given the texts under which they read as
/// semantic versions and, where both do, how the first version compares to
/// the second (`versions`: negative for older, positive for newer): two
/// versions are listed newest first; a tag that is no version is listed
/// before one that is; two tags that are no versions are listed in reverse
/// order of their text. The result is negative when `a` is listed first.
pub open spec fn tag_order_with(
    a: Seq<char>,
    pa: Option<Seq<char>>,
    b: Seq<char>,
    pb: Option<Seq<char>>,
    versions: int,
) -> int {
    match (pa, pb) {
        (Some(_), Some(_)) => -versions,
        (Some(_), None) => 1,
        (None, Some(_)) => -1,
        (None, None) => text_order(b, a),
    }
}

/// How the versions of two tags compare, where both tags read as versions.
pub open spec fn versions_order(pa: Option<Seq<char>>, pb: Option<Seq<char>>) -> int {
    match (pa, pb) {
        (Some(x), Some(y)) => semver_order(x, y),
        _ => 0,
    }
}

/// The listing order of two tags: negative when `a` is listed first, zero when
/// neither precedes the other, positive when `b` is listed first.
pub open spec fn tag_order(a: Seq<char>, b: Seq<char>) -> int {
    tag_order_with(
        a,
        semver_text(a),
        b,
        semver_text(b),
        versions_order(semver_text(a), semver_text(b)),
    )
}

fn count_leading_letters(s: &str) -> (k: usize)
    ensures
        k == leading_letters(s@),
        k <= s@.len(),
{
    let n: usize = s.unicode_len();
    let mut i: usize = 0;
    proof {
        assert(s@.skip(0) =~= s@);
    }
    while i < n
        invariant
            n == s@.len(),
            i <= n,
            leading_letters(s@) == i + leading_letters(s@.skip(i as int)),
        decreases n - i,
    {
        let c: char = s.get_char(i);
        proof {
            assert(s@.skip(i as int).skip(1) =~= s@.skip(i as int + 1));
        }
        if c != 'v' && c != 'V' {
            return i;
        }
        i += 1;
    }
    i
}

fn count_leading_numeric(s: &str) -> (k: usize)
    ensures
        k == leading_numeric(s@),
        k <= s@.len(),
{
    let n: usize = s.unicode_len();
    let mut i: usize = 0;
    proof {
        assert(s@.skip(0) =~= s@);
    }
    while i < n
        invariant
            n == s@.len(),
            i <= n,
            leading_numeric(s@) == i + leading_numeric(s@.skip(i as int)),
        decreases n - i,
    {
        let c: char = s.get_char(i);
        proof {
            assert(s@.skip(i as int).skip(1) =~= s@.skip(i as int + 1));
        }
        if !(('0' <= c && c <= '9') || c == '.') {
            return i;
        }
        i += 1;
    }
    i
}

/// Counts the dots of a text whose dotted parts are all non-empty.
fn dotted_parts(p: &str) -> (r: Option<usize>)
    ensures
        r is Some <==> well_dotted(p@),
        r matches Some(d) ==> d == dot_count(p@),
{
    let n: usize = p.unicode_len();
    let mut dots: usize = 0;
    let mut after_dot: bool = true;
    let mut i: usize = 0;
    while i < n
        invariant
            n == p@.len(),
            i <= n,
            dots <= i,
            dots == dot_count(p@.take(i as int)),
            after_dot == (i == 0 || p@[i - 1] == '.'),
            i > 0 ==> p@[0] != '.',
            forall|j: int| 0 <= j < i - 1 ==> !(#[trigger] p@[j] == '.' && p@[j + 1] == '.'),
        decreases n - i,
    {
        let c: char = p.get_char(i);
        proof {
            assert(p@.take(i as int + 1).drop_last() =~= p@.take(i as int));
        }
        if c == '.' {
            if after_dot {
                return None;
            }
            dots += 1;
            after_dot = true;
        } else {
            after_dot = false;
        }
        i += 1;
    }
    proof {
        assert(p@.take(n as int) =~= p@);
    }
    if after_dot {
        None
    } else {
        Some(dots)
    }
}

/// The two readings of a tag that the parser is asked about: the tag without
/// its prefix letters, and its leading dotted number filled up to three
/// parts, where that number is well formed.
pub fn semver_candidates(tag: &str) -> (r: (String, Option<String>))
    ensures
        r.0@ == without_prefix(tag@),
        r.1 is Some <==> well_dotted(numeric_prefix(without_prefix(tag@))),
        r.1 matches Some(p) ==> p@ == padded(numeric_prefix(without_prefix(tag@))),
{
    let n: usize = tag.unicode_len();
    let lead: usize = count_leading_letters(tag);
    let trimmed: &str = tag.substring_char(lead, n);
    let k: usize = count_leading_numeric(trimmed);
    let prefix: &str = trimmed.substring_char(0, k);
    let coerced: Option<String> = match dotted_parts(prefix) {
        None => None,
        Some(dots) => {
            let mut text: String = String::from_str(prefix);
            if dots == 0 {
                text.append(".0.0");
            } else if dots == 1 {
                text.append(".0");
            }
            Some(text)
        },
    };
    (String::from_str(trimmed), coerced)
}

/// The text under which a tag reads as a semantic version, given what the
/// parser said of its two readings.
pub fn semver_like_text(tag: &str, trimmed_ok: bool, padded_ok: bool) -> (r: Option<String>)
    ensures
        text_of(r) == semver_text_with(tag@, trimmed_ok, padded_ok),
{
    let candidates = semver_candidates(tag);
    if trimmed_ok {
        Some(candidates.0)
    } else if padded_ok {
        candidates.1
    } else {
        None
    }
}

/// Finds the text under which a tag reads as a semantic version, if any.
pub fn parse_semver_like(tag: &str) -> (r: Option<String>)
    ensures
        text_of(r) == semver_text(tag@),
{
    let candidates = semver_candidates(tag);
    let trimmed_ok: bool = semver_parses(candidates.0.as_str());
    let padded_ok: bool = match &candidates.1 {
        Some(p) => !trimmed_ok && semver_parses(p.as_str()),
        None => false,
    };
    semver_like_text(tag, trimmed_ok, padded_ok)
}

/// The listing order of two tags, given the texts under which they read as
/// semantic versions and, where both do, how the first version compares to
/// the second.
pub fn order_parsed(
    a: &str,
    pa: &Option<String>,
    b: &str,
    pb: &Option<String>,
    versions: Ordering,
) -> (r: Ordering)
    ensures
        sign_of(r) == tag_order_with(a@, text_of(*pa), b@, text_of(*pb), sign_of(versions)),
{
    match (pa, pb) {
        (Some(_), Some(_)) => match versions {
            Ordering::Less => Ordering::Greater,
            Ordering::Equal => Ordering::Equal,
            Ordering::Greater => Ordering::Less,
        },
        (Some(_), None) => Ordering::Greater,
        (None, Some(_)) => Ordering::Less,
        (None, None) => {
            proof {
                lemma_lex_order_antisymmetric(bytes_of(b@), bytes_of(a@));
            }
            let c: i8 = compare_text(b, a);
            if c < 0 {
                Ordering::Less
            } else if c == 0 {
                Ordering::Equal
            } else {
                Ordering::Greater
            }
        },
    }
}

/// Compares two tags by the listing order.
pub fn compare_tags(a: &str, b: &str) -> (r: Ordering)
    ensures
        sign_of(r) == tag_order(a@, b@),
        sign_of(r) == -tag_order(b@, a@),
{
    let pa = parse_semver_like(a);
    let pb = parse_semver_like(b);
    let versions: Ordering = match (&pa, &pb) {
        (Some(va), Some(vb)) => semver_compare(va.as_str(), vb.as_str()),
        _ => Ordering::Equal,
    };
    proof {
        lemma_lex_order_antisymmetric(bytes_of(b@), bytes_of(a@));
    }
    order_parsed(a, &pa, b, &pb, versions)
}

/// Of two tags that read as semantic versions, the one with the greater
/// version is listed first.
pub proof fn lemma_newer_version_first(a: Seq<char>, b: Seq<char>)
    ensures
        semver_text(a) is Some && semver_text(b) is Some && semver_order(
            semver_text(a).unwrap(),
            semver_text(b).unwrap(),
        ) > 0 ==> tag_order(a, b) < 0,
{
}

/// A tag that does not read as a semantic version is listed before every tag
/// that does.
pub proof fn lemma_plain_tag_first(x: Seq<char>, y: Seq<char>)
    ensures
        semver_text(x) is None && semver_text(y) is Some ==> tag_order(x, y) < 0,
{
}

/// Two tags that do not read as semantic versions are listed in reverse
/// lexicographic order.
pub proof fn lemma_plain_tags_reversed(x: Seq<char>, y: Seq<char>)
    ensures
        semver_text(x) is None && semver_text(y) is None ==> {
            &&& tag_order(x, y) == text_order(y, x)
            &&& tag_order(x, y) == -text_order(x, y)
        },
{
    lemma_lex_order_antisymmetric(bytes_of(x), bytes_of(y));
}

} // verus!
