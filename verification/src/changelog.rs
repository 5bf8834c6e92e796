//! Reading the changelog: its header, its version sections and footnotes, and the reply of
//! the `/changelog` command.

use vstd::prelude::*;
use vstd::string::*;
use crate::discord::{limit_content_and_see_more, limited, ChangelogBuilder};
use crate::error::DoomError;
use crate::text::{
    char_index_of_byte, chars_of, copy_text, decimal, decimal_string, find_from, lines, lines_of,
    occurs_at, prefix_bytes, string_of_range, trim, trim_range, trim_start_char, trim_text, views,
    without_leading,
};

verus! {

/// Whether `pattern` compiles as a regular expression of the regex crate.
pub uninterp spec fn regex_compiles(pattern: Seq<char>) -> bool;

/// The text `text` with every match of `pattern` replaced by `replacement`, as the regex
/// crate's `replace_all` gives it.
pub uninterp spec fn regex_replaced(pattern: Seq<char>, text: Seq<char>, replacement: Seq<char>) -> Seq<char>;

/// The successive matches of `pattern` in `text`, as the regex crate's `captures_iter` gives
/// them: the byte offset where each match starts, and the text of its group `group`.
pub uninterp spec fn regex_captures(pattern: Seq<char>, text: Seq<char>, group: Seq<char>) -> Seq<(Option<usize>, Option<Seq<char>>)>;

/// The major, minor and patch numbers of `text` where semver's `Version::parse` reads it.
pub uninterp spec fn semver_core(text: Seq<char>) -> Option<(u64, u64, u64)>;

/// Whether semver's `VersionReq::parse` reads `req`.
pub uninterp spec fn semver_req_valid(req: Seq<char>) -> bool;

/// Whether the requirement `req` matches the version `version`, by semver's
/// `VersionReq::matches`.
pub uninterp spec fn semver_req_matches(req: Seq<char>, version: Seq<char>) -> bool;

/// `Regex::new(pattern)` and, where it compiles, `Regex::replace_all(text, replacement)`
/// of the regex crate: whether the pattern compiles, and the replaced text. Both are left to
/// the crate (`regex_compiles`, `regex_replaced`).
#[verifier::external_body]
fn regex_replace_all(pattern: &str, text: &str, replacement: &str) -> (r: Option<String>)
    ensures
        r is Some <==> regex_compiles(pattern@),
        r matches Some(s) ==> s@ == regex_replaced(pattern@, text@, replacement@),
{
    match regex::Regex::new(pattern) {
        Ok(re) => Some(re.replace_all(text, replacement).into_owned()),
        Err(_) => None,
    }
}

/// The views of captured matches.
pub open spec fn capture_views(v: Seq<(Option<usize>, Option<String>)>) -> Seq<(Option<usize>, Option<Seq<char>>)> {
    v.map_values(
        |c: (Option<usize>, Option<String>)|
            (
                c.0,
                match c.1 {
                    Some(s) => Some(s@),
                    None => None,
                },
            ),
    )
}

/// `Regex::new(pattern)` and, where it compiles, `Regex::captures_iter(text)` of the regex
/// crate: for each match, the start of the whole match (`Captures::get(0)`, `Match::start`)
/// and the text of group `group` (`Captures::name`). What matches is left to the crate
/// (`regex_captures`).
#[verifier::external_body]
fn regex_captures_named(pattern: &str, text: &str, group: &str) -> (r: Option<Vec<(Option<usize>, Option<String>)>>)
    ensures
        r is Some <==> regex_compiles(pattern@),
        r matches Some(v) ==> capture_views(v@) == regex_captures(pattern@, text@, group@),
{
    match regex::Regex::new(pattern) {
        Ok(re) => {
            let mut v = Vec::new();
            for c in re.captures_iter(text) {
                let start = match c.get(0) { Some(m) => Some(m.start()), None => None };
                let label = match c.name(group) { Some(m) => Some(m.as_str().to_string()), None => None };
                v.push((start, label));
            }
            Some(v)
        },
        Err(_) => None,
    }
}

/// semver's `Version::parse(text)`: the major, minor and patch numbers where it reads the
/// text (`semver_core`).
#[verifier::external_body]
fn version_core(text: &str) -> (r: Option<(u64, u64, u64)>)
    ensures
        r == semver_core(text@),
{
    match semver::Version::parse(text) {
        Ok(v) => Some((v.major, v.minor, v.patch)),
        Err(_) => None,
    }
}

/// semver's `VersionReq::parse(req)`: whether it reads the requirement (`semver_req_valid`).
#[verifier::external_body]
fn requirement_valid(req: &str) -> (r: bool)
    ensures
        r == semver_req_valid(req@),
{
    semver::VersionReq::parse(req).is_ok()
}

/// semver's `VersionReq::matches` of the requirement `req` and the version `version`, both
/// parsed first: `None` where either does not parse, else whether it matches
/// (`semver_req_matches`).
#[verifier::external_body]
fn requirement_matches(req: &str, version: &str) -> (r: Option<bool>)
    ensures
        r is Some <==> (semver_req_valid(req@) && semver_core(version@) is Some),
        r matches Some(b) ==> b == semver_req_matches(req@, version@),
{
    match (semver::VersionReq::parse(req), semver::Version::parse(version)) {
        (Ok(q), Ok(v)) => Some(q.matches(&v)),
        _ => None,
    }
}

/// How semver's `Version::cmp` orders the versions `a` and `b`, both parsed first: -1 where
/// `a` comes first, 0 where they are equal, 1 where `a` comes after `b`.
pub uninterp spec fn semver_order(a: Seq<char>, b: Seq<char>) -> int;

/// semver's `Version::parse` of both texts and, where both parse, `Version::cmp` of the
/// two: the order as -1, 0 or 1 (`semver_order`), `None` where either does not parse.
/// semver's `Ord` on `Version` is a total order (a lexicographic comparison of the fields),
/// so swapping the two versions negates the result, and where `b` is newer than `a`, it is
/// also newer than every parseable version that `a` is newer than.
#[verifier::external_body]
fn compare_versions(a: &str, b: &str) -> (r: Option<i8>)
    ensures
        r is Some <==> (semver_core(a@) is Some && semver_core(b@) is Some),
        r matches Some(c) ==> -1 <= c <= 1 && c == semver_order(a@, b@),
        r matches Some(c) ==> semver_order(b@, a@) == -c,
        r matches Some(c) ==> forall|x: Seq<char>|
            c == -1 && semver_core(x) is Some && #[trigger] semver_order(a@, x) == 1 ==> semver_order(b@, x) == 1,
{
    match (semver::Version::parse(a), semver::Version::parse(b)) {
        (Ok(x), Ok(y)) => Some(match x.cmp(&y) {
            std::cmp::Ordering::Less => -1,
            std::cmp::Ordering::Equal => 0,
            std::cmp::Ordering::Greater => 1,
        }),
        _ => None,
    }
}

/// What is wrong with a changelog.
#[derive(Debug, Clone, Copy, PartialEq, Eq)]
pub enum ChangelogError {
    /// No "## [" starts a version section.
    MissingVersionSection,
    /// The first version has no closing bracket.
    MissingVersionBracket,
    /// The first version has no footnote "[version]: ".
    MissingFootnote,
    /// One of the patterns does not compile.
    InvalidPattern,
    /// A version is not a semantic version.
    InvalidVersion,
    /// The version after the latest one has no minor number.
    VersionOverflow,
    /// A match does not start at a character.
    MisplacedMatch,
    /// The changelog has as many versions or footnote lines as a `usize` can count.
    TooLong,
    /// The embed was cut, and the link to the whole changelog does not fit beside it.
    NoRoomForLink,
}

/// Whether `i` is the first position where `needle` occurs in `hay`.
pub open spec fn first_at(hay: Seq<char>, needle: Seq<char>, i: int) -> bool {
    occurs_at(hay, needle, i) && forall|j: int| 0 <= j < i ==> !occurs_at(hay, needle, j)
}

/// The first position where `needle` occurs in `hay`, where it does.
pub open spec fn first_index(hay: Seq<char>, needle: Seq<char>) -> Option<int> {
    if exists|i: int| first_at(hay, needle, i) {
        Some(choose|i: int| first_at(hay, needle, i))
    } else {
        None
    }
}

proof fn lemma_first_index(hay: Seq<char>, needle: Seq<char>, r: Option<usize>)
    requires
        r matches Some(i) ==> occurs_at(hay, needle, i as int) && forall|j: int|
            0 <= j < i ==> !occurs_at(hay, needle, j),
        r is None ==> forall|j: int| 0 <= j ==> !occurs_at(hay, needle, j),
    ensures
        r matches Some(i) ==> first_index(hay, needle) == Some(i as int),
        r is None ==> first_index(hay, needle) is None,
{
    match r {
        Some(i) => {
            assert(first_at(hay, needle, i as int));
            let c = choose|c: int| first_at(hay, needle, c);
            if c < i {
                assert(!occurs_at(hay, needle, c));
            } else if c > i {
                assert(!occurs_at(hay, needle, i as int));
            }
        },
        None => {
            if exists|i: int| first_at(hay, needle, i) {
                let c = choose|c: int| first_at(hay, needle, c);
                assert(occurs_at(hay, needle, c));
            }
        },
    }
}

/// The parts of a changelog: the header before the first version section, the version
/// sections, and the footnotes from the first version's footnote on.
pub struct ChangelogParts {
    pub header: String,
    pub versions: String,
    pub footer: String,
}

/// How a changelog text splits into header, version sections and footnotes: the header
/// ends at the first "## [", the first version is the text between the first '[' and the
/// first ']' after that, and the footnotes start at the first "[<version>]: " after it.
pub open spec fn split_spec(t: Seq<char>) -> Result<(Seq<char>, Seq<char>, Seq<char>), ChangelogError> {
    match first_index(t, "## ["@) {
        None => Err(ChangelogError::MissingVersionSection),
        Some(h) => {
            let rest = t.subrange(h, t.len() as int);
            match (first_index(rest, "["@), first_index(rest, "]"@)) {
                (Some(open), Some(close)) => if open + 1 <= close {
                    let local = rest.subrange(open + 1, close);
                    match first_index(rest, "["@ + local + "]: "@) {
                        Some(f) => Ok(
                            (t.subrange(0, h), rest.subrange(0, f), rest.subrange(f, rest.len() as int)),
                        ),
                        None => Err(ChangelogError::MissingFootnote),
                    }
                } else {
                    Err(ChangelogError::MissingVersionBracket)
                },
                _ => Err(ChangelogError::MissingVersionBracket),
            }
        },
    }
}

fn find_first(hay: &Vec<char>, needle: &str) -> (r: Option<usize>)
    ensures
        r matches Some(i) ==> first_index(hay@, needle@) == Some(i as int),
        r is None ==> first_index(hay@, needle@) is None,
{
    let n = chars_of(needle);
    let r = find_from(hay, &n, 0);
    proof {
        lemma_first_index(hay@, needle@, r);
    }
    r
}

/// Splits a changelog into its header, its version sections and its footnotes.
pub fn split_changelog(text: &str) -> (r: Result<ChangelogParts, ChangelogError>)
    ensures
        match split_spec(text@) {
            Ok((h, v, f)) => r matches Ok(p) && p.header@ == h && p.versions@ == v && p.footer@ == f,
            Err(e) => r == Err::<ChangelogParts, ChangelogError>(e),
        },
{
    let t = chars_of(text);
    let h = match find_first(&t, "## [") {
        None => return Err(ChangelogError::MissingVersionSection),
        Some(h) => h,
    };
    let rest_text = string_of_range(&t, h, t.len());
    let rest = chars_of(rest_text.as_str());
    let open = find_first(&rest, "[");
    let close = find_first(&rest, "]");
    match (open, close) {
        (Some(open), Some(close)) => {
            if open >= close {
                return Err(ChangelogError::MissingVersionBracket);
            }
            let mut indicator = String::from_str("[");
            let local = string_of_range(&rest, open + 1, close);
            indicator.append(local.as_str());
            indicator.append("]: ");
            match find_first(&rest, indicator.as_str()) {
                None => Err(ChangelogError::MissingFootnote),
                Some(f) => {
                    let header = string_of_range(&t, 0, h);
                    let versions = string_of_range(&rest, 0, f);
                    let footer = string_of_range(&rest, f, rest.len());
                    Ok(ChangelogParts { header, versions, footer })
                },
            }
        },
        _ => Err(ChangelogError::MissingVersionBracket),
    }
}

/// The pattern that joins lines broken inside a paragraph of the header.
pub open spec fn joined_lines_pattern() -> Seq<char> {
    "(?<pre>\\S)\\r?\\n(?<post>\\S)"@
}

/// The pattern of a run of blank lines in the header.
pub open spec fn blank_run_pattern() -> Seq<char> {
    "\\r?\\n(?<newlines>(?:\\r?\\n)+)"@
}

/// The header as it is shown: trimmed, with each line break inside a paragraph made a
/// space and each run of line breaks shortened by one.
pub open spec fn header_spec(raw: Seq<char>) -> Option<Seq<char>> {
    if regex_compiles(joined_lines_pattern()) && regex_compiles(blank_run_pattern()) {
        Some(
            regex_replaced(
                blank_run_pattern(),
                regex_replaced(joined_lines_pattern(), trim_text(raw), "$pre $post"@),
                "$newlines"@,
            ),
        )
    } else {
        None
    }
}

/// The header of a changelog as it is shown.
pub fn format_header(raw: &str) -> (r: Result<String, ChangelogError>)
    ensures
        match header_spec(raw@) {
            Some(h) => r matches Ok(s) && s@ == h,
            None => r == Err::<String, ChangelogError>(ChangelogError::InvalidPattern),
        },
{
    let trimmed = trim(raw);
    let joined = match regex_replace_all("(?<pre>\\S)\\r?\\n(?<post>\\S)", trimmed.as_str(), "$pre $post") {
        Some(s) => s,
        None => return Err(ChangelogError::InvalidPattern),
    };
    match regex_replace_all("\\r?\\n(?<newlines>(?:\\r?\\n)+)", joined.as_str(), "$newlines") {
        Some(s) => Ok(s),
        None => Err(ChangelogError::InvalidPattern),
    }
}

/// The pattern of a version heading, whose group "version" is the version.
pub open spec fn version_heading_pattern() -> Seq<char> {
    "## \\[(?<version>[^]]+)]"@
}

/// A version section of a changelog, with the text of its version.
pub struct VersionSection {
    pub version: String,
    pub section: String,
}

/// The text of version `major.minor.0`.
pub open spec fn next_version_text(major: u64, minor: u64) -> Seq<char> {
    decimal(major as nat) + "."@ + decimal(minor as nat) + ".0"@
}

/// The version that a heading `label` gives, and the major and minor numbers that the next
/// "Unreleased" heading builds on: "Unreleased" is the minor release after `last` (0.1.0
/// where there is none), anything else a semantic version.
pub open spec fn heading_version(label: Seq<char>, last: Option<(u64, u64)>) -> Result<(Seq<char>, (u64, u64)), ChangelogError> {
    if label == "Unreleased"@ {
        match last {
            None => Ok(("0.1.0"@, (0, 1))),
            Some((major, minor)) => if minor == u64::MAX {
                Err(ChangelogError::VersionOverflow)
            } else {
                Ok((next_version_text(major, (minor + 1) as u64), (major, (minor + 1) as u64)))
            },
        }
    } else {
        match semver_core(label) {
            Some((major, minor, _)) => Ok((label, (major, minor))),
            None => Err(ChangelogError::InvalidVersion),
        }
    }
}

/// Where the section that starts at character `k` of `vs` ends: at the next "\n## [", or at
/// the end.
pub open spec fn section_end(vs: Seq<char>, k: int) -> int {
    if exists|i: int| k <= i && occurs_at(vs, "\n## ["@, i) {
        choose|i: int|
            k <= i && occurs_at(vs, "\n## ["@, i) && forall|j: int|
                k <= j < i ==> !occurs_at(vs, "\n## ["@, j)
    } else {
        vs.len() as int
    }
}

/// The version section that the match `cap` starts in `vs`, with its version, and the major
/// and minor numbers that the next "Unreleased" heading builds on, given those of the
/// version before (`last`).
#[verifier::opaque]
pub open spec fn section_at(
    vs: Seq<char>,
    cap: (Option<usize>, Option<Seq<char>>),
    last: Option<(u64, u64)>,
) -> Result<((Seq<char>, Seq<char>), (u64, u64)), ChangelogError> {
    match (cap.0, cap.1) {
        (Some(start), Some(label)) => if exists|k: int| 0 <= k <= vs.len() && prefix_bytes(vs, k) == start {
            let k = choose|k: int| 0 <= k <= vs.len() && prefix_bytes(vs, k) == start;
            match heading_version(label, last) {
                Ok((version, next)) => Ok(
                    ((version, trim_text(vs.subrange(k, section_end(vs, k)))), next),
                ),
                Err(e) => Err(e),
            }
        } else {
            Err(ChangelogError::MisplacedMatch)
        },
        _ => Err(ChangelogError::MisplacedMatch),
    }
}

proof fn lemma_first_occurrence(vs: Seq<char>, pat: Seq<char>, k: int, i0: int)
    requires
        k <= i0,
        occurs_at(vs, pat, i0),
    ensures
        exists|c: int| k <= c && occurs_at(vs, pat, c) && forall|j: int| k <= j < c ==> !occurs_at(vs, pat, j),
    decreases i0 - k,
{
    if exists|j: int| k <= j < i0 && occurs_at(vs, pat, j) {
        let j = choose|j: int| k <= j < i0 && occurs_at(vs, pat, j);
        lemma_first_occurrence(vs, pat, k, j);
    } else {
        assert(k <= i0 && occurs_at(vs, pat, i0) && forall|j: int| k <= j < i0 ==> !occurs_at(vs, pat, j));
    }
}

#[verifier::rlimit(60)]
proof fn lemma_section_end(vs: Seq<char>, k: int)
    requires
        0 <= k <= vs.len(),
    ensures
        k <= section_end(vs, k) <= vs.len(),
        forall|i: int| k <= i < section_end(vs, k) ==> !occurs_at(vs, "\n## ["@, i),
        section_end(vs, k) == vs.len() || occurs_at(vs, "\n## ["@, section_end(vs, k)),
{
    let pat = "\n## ["@;
    if exists|i: int| k <= i && occurs_at(vs, pat, i) {
        let i0 = choose|i: int| k <= i && occurs_at(vs, pat, i);
        lemma_first_occurrence(vs, pat, k, i0);
        let c = section_end(vs, k);
        assert(k <= c && occurs_at(vs, pat, c) && forall|j: int| k <= j < c ==> !occurs_at(vs, pat, j));
        assert(c + pat.len() <= vs.len());
    } else {
        assert forall|i: int| k <= i < vs.len() implies !occurs_at(vs, pat, i) by {
            if occurs_at(vs, pat, i) {
                assert(k <= i && occurs_at(vs, pat, i));
            }
        }
    }
}

/// A version section runs from its heading to the next "\n## [" or the end of the version
/// part: where the match `cap` gives a section, it is the trimmed text from the character at
/// the match's byte offset up to a point where "\n## [" starts, or the end, with no "\n## ["
/// starting in between; subheadings such as "### Added" and their lines stay inside it.
pub proof fn section_runs_to_next_version(
    vs: Seq<char>,
    cap: (Option<usize>, Option<Seq<char>>),
    last: Option<(u64, u64)>,
)
    requires
        section_at(vs, cap, last) is Ok,
    ensures
        exists|k: int, e: int|
            0 <= k <= e <= vs.len() && cap.0 == Some(prefix_bytes(vs, k) as usize) && (forall|i: int|
                k <= i < e ==> !occurs_at(vs, "\n## ["@, i)) && (e == vs.len() || occurs_at(
                vs,
                "\n## ["@,
                e,
            )) && section_at(vs, cap, last)->Ok_0.0.1 == trim_text(vs.subrange(k, e)),
{
    reveal(section_at);
    let start = cap.0->0;
    let k = choose|k: int| 0 <= k <= vs.len() && prefix_bytes(vs, k) == start;
    lemma_section_end(vs, k);
    let e = section_end(vs, k);
    assert(0 <= k <= e <= vs.len() && cap.0 == Some(prefix_bytes(vs, k) as usize));
}

/// The version sections of `vs` from the `i`-th last match on, oldest first, given the
/// major and minor numbers of the version before.
pub open spec fn sections_from(
    vs: Seq<char>,
    caps: Seq<(Option<usize>, Option<Seq<char>>)>,
    i: nat,
    last: Option<(u64, u64)>,
) -> Result<Seq<(Seq<char>, Seq<char>)>, ChangelogError>
    decreases caps.len() - i,
{
    if i >= caps.len() {
        Ok(Seq::empty())
    } else {
        match section_at(vs, caps[caps.len() - 1 - i], last) {
            Ok((entry, next)) => match sections_from(vs, caps, i + 1, Some(next)) {
                Ok(rest) => Ok(seq![entry] + rest),
                Err(e) => Err(e),
            },
            Err(e) => Err(e),
        }
    }
}

/// The version sections of `vs`, in the order the changelog is read backwards (oldest
/// first), each with the text of its version.
pub open spec fn sections_spec(vs: Seq<char>) -> Result<Seq<(Seq<char>, Seq<char>)>, ChangelogError> {
    if regex_compiles(version_heading_pattern()) {
        sections_from(vs, regex_captures(version_heading_pattern(), vs, "version"@), 0, None)
    } else {
        Err(ChangelogError::InvalidPattern)
    }
}

/// The views of version sections.
pub open spec fn section_views(v: Seq<VersionSection>) -> Seq<(Seq<char>, Seq<char>)> {
    v.map_values(|s: VersionSection| (s.version@, s.section@))
}

fn version_of_heading(label: &str, last: Option<(u64, u64)>) -> (r: Result<(String, (u64, u64)), ChangelogError>)
    ensures
        match heading_version(label@, last) {
            Ok((v, n)) => r matches Ok((s, m)) && s@ == v && m == n,
            Err(e) => r matches Err(f) && f == e,
        },
{
    if crate::text::text_eq(label, "Unreleased") {
        match last {
            None => Ok((String::from_str("0.1.0"), (0, 1))),
            Some((major, minor)) => {
                if minor == u64::MAX {
                    return Err(ChangelogError::VersionOverflow);
                }
                let mut s = decimal_string(major);
                s.append(".");
                let m = decimal_string(minor + 1);
                s.append(m.as_str());
                s.append(".0");
                Ok((s, (major, minor + 1)))
            },
        }
    } else {
        match version_core(label) {
            Some((major, minor, _)) => Ok((copy_text(label), (major, minor))),
            None => Err(ChangelogError::InvalidVersion),
        }
    }
}

fn end_of_section(vs: &Vec<char>, k: usize) -> (e: usize)
    requires
        k <= vs@.len(),
    ensures
        e as int == section_end(vs@, k as int),
        k <= e <= vs@.len(),
{
    let pattern = chars_of("\n## [");
    match find_from(vs, &pattern, k) {
        Some(i) => {
            proof {
                let c = choose|c: int|
                    k <= c && occurs_at(vs@, "\n## ["@, c) && forall|j: int|
                        k <= j < c ==> !occurs_at(vs@, "\n## ["@, j);
                if c < i {
                    assert(!occurs_at(vs@, "\n## ["@, c));
                } else if c > i {
                    assert(!occurs_at(vs@, "\n## ["@, i as int));
                }
            }
            i
        },
        None => {
            proof {
                if exists|i: int| k <= i && occurs_at(vs@, "\n## ["@, i) {
                    let c = choose|c: int| k <= c && occurs_at(vs@, "\n## ["@, c);
                    assert(!occurs_at(vs@, "\n## ["@, c));
                }
            }
            vs.len()
        },
    }
}

fn section_step(vs: &Vec<char>, cap: &(Option<usize>, Option<String>), last: Option<(u64, u64)>) -> (r: Result<(VersionSection, (u64, u64)), ChangelogError>)
    ensures
        match section_at(
            vs@,
            (
                cap.0,
                match cap.1 {
                    Some(s) => Some(s@),
                    None => None,
                },
            ),
            last,
        ) {
            Ok(((v, sec), n)) => r matches Ok((x, m)) && x.version@ == v && x.section@ == sec && m == n,
            Err(e) => r matches Err(f) && f == e,
        },
{
    reveal(section_at);
    let (start, label) = match (&cap.0, &cap.1) {
        (Some(start), Some(label)) => (*start, label),
        _ => {
            return Err(ChangelogError::MisplacedMatch);
        },
    };
    let k = match char_index_of_byte(vs, start) {
        Some(k) => k,
        None => {
            return Err(ChangelogError::MisplacedMatch);
        },
    };
    proof {
        let kk = choose|kk: int| 0 <= kk <= vs@.len() && prefix_bytes(vs@, kk) == start;
        crate::text::lemma_prefix_unique(vs@, kk, k as int);
    }
    let (version, next) = match version_of_heading(label.as_str(), last) {
        Ok(p) => p,
        Err(e) => {
            return Err(e);
        },
    };
    let e = end_of_section(vs, k);
    let section = trim_range(vs, k, e);
    Ok((VersionSection { version, section }, next))
}

/// The version sections of the version part of a changelog, oldest first, each with the
/// text of its version (an "Unreleased" section gets the minor release after the one before).
pub fn version_sections(versions: &str) -> (r: Result<Vec<VersionSection>, ChangelogError>)
    ensures
        match sections_spec(versions@) {
            Ok(s) => r matches Ok(v) && section_views(v@) == s,
            Err(e) => r matches Err(f) && f == e,
        },
{
    let caps = match regex_captures_named("## \\[(?<version>[^]]+)]", versions, "version") {
        Some(c) => c,
        None => return Err(ChangelogError::InvalidPattern),
    };
    let vs = chars_of(versions);
    let ghost cv = capture_views(caps@);
    let ghost whole = sections_from(vs@, cv, 0, None);
    let mut out: Vec<VersionSection> = Vec::new();
    let mut last: Option<(u64, u64)> = None;
    let mut i: usize = 0;
    let n = caps.len();
    proof {
        match whole {
            Ok(rest) => {
                assert(section_views(out@) + rest =~= rest);
            },
            Err(_) => {},
        }
    }
    while i < n
        invariant
            n == caps@.len(),
            i <= n,
            vs@ == versions@,
            cv == capture_views(caps@),
            whole == sections_spec(versions@),
            whole == match sections_from(vs@, cv, i as nat, last) {
                Ok(rest) => Ok(section_views(out@) + rest),
                Err(e) => Err(e),
            },
        decreases n - i,
    {
        let cap = &caps[n - 1 - i];
        let ghost c = cv[n - 1 - i];
        assert(c == (cap.0, match cap.1 { Some(s) => Some(s@), None => None }));
        let (entry, next) = match section_step(&vs, cap, last) {
            Ok(x) => x,
            Err(e) => {
                assert(cv[cv.len() - 1 - i] == c);
                assert(sections_from(vs@, cv, i as nat, last) == Err::<Seq<(Seq<char>, Seq<char>)>, ChangelogError>(e));
                return Err(e);
            },
        };
        let ghost before = out@;
        let ghost pair = (entry.version@, entry.section@);
        out.push(entry);
        assert(section_views(out@) =~= section_views(before).push(pair));
        proof {
            match sections_from(vs@, cv, (i + 1) as nat, Some(next)) {
                Ok(rest) => {
                    assert(section_views(out@) + rest =~= section_views(before) + (seq![pair] + rest));
                },
                Err(_) => {},
            }
        }
        last = Some(next);
        i = i + 1;
    }
    assert(section_views(out@) + Seq::<(Seq<char>, Seq<char>)>::empty() =~= section_views(out@));
    Ok(out)
}

/// Where the version `v` goes in `list` (newest first) from index `j` on: before the first
/// entry that is not newer than `v`, or at the end.
pub open spec fn position_from(list: Seq<(Seq<char>, Seq<char>)>, v: Seq<char>, j: int) -> int
    decreases list.len() - j,
{
    if j >= list.len() {
        list.len() as int
    } else if semver_order(list[j].0, v) != 1 {
        j
    } else {
        position_from(list, v, j + 1)
    }
}

/// `list` (newest first) with the entry `e` put in its place: an entry of an equal version
/// keeps its version text and takes the section of `e`; else `e` goes before the first
/// entry that is not newer.
pub open spec fn insert_newest(list: Seq<(Seq<char>, Seq<char>)>, e: (Seq<char>, Seq<char>)) -> Seq<(Seq<char>, Seq<char>)> {
    let j = position_from(list, e.0, 0);
    if j < list.len() && semver_order(list[j].0, e.0) == 0 {
        list.update(j, (list[j].0, e.1))
    } else {
        list.insert(j, e)
    }
}

/// The entries put one after another, in order, into a list that is kept newest first by
/// semver's order, a later entry replacing the section of an equal version.
pub open spec fn newest_first_spec(entries: Seq<(Seq<char>, Seq<char>)>) -> Seq<(Seq<char>, Seq<char>)>
    decreases entries.len(),
{
    if entries.len() == 0 {
        Seq::empty()
    } else {
        insert_newest(newest_first_spec(entries.drop_last()), entries.last())
    }
}

/// Whether some entry of `list` has the version text `v`.
pub open spec fn has_version(list: Seq<(Seq<char>, Seq<char>)>, v: Seq<char>) -> bool {
    exists|m: int| 0 <= m < list.len() && #[trigger] list[m].0 == v
}

/// Whether some entry of `list` holds the section `sec` under the version `v` or a version
/// semver-equal to it.
pub open spec fn holds_section(list: Seq<(Seq<char>, Seq<char>)>, sec: Seq<char>, v: Seq<char>) -> bool {
    exists|m: int|
        0 <= m < list.len() && #[trigger] list[m].1 == sec && (list[m].0 == v || semver_order(list[m].0, v) == 0)
}

/// Whether the section of the entry `x` is the section of an input entry whose version is
/// the version of `x` or semver-equal to it.
pub open spec fn section_from(entries: Seq<(Seq<char>, Seq<char>)>, x: (Seq<char>, Seq<char>)) -> bool {
    exists|i: int|
        0 <= i < entries.len() && #[trigger] entries[i].1 == x.1 && (x.0 == entries[i].0 || semver_order(
            x.0,
            entries[i].0,
        ) == 0)
}

/// Whether some entry of `list` has the version `v` or a version semver-equal to it.
pub open spec fn shows_version(list: Seq<(Seq<char>, Seq<char>)>, v: Seq<char>) -> bool {
    exists|m: int| 0 <= m < list.len() && (#[trigger] list[m].0 == v || semver_order(list[m].0, v) == 0)
}

/// Whether the pair `x` is an entry of `list`.
pub open spec fn is_entry(list: Seq<(Seq<char>, Seq<char>)>, x: (Seq<char>, Seq<char>)) -> bool {
    exists|k: int| 0 <= k < list.len() && #[trigger] list[k] == x
}

proof fn lemma_insert_keeps(list: Seq<(Seq<char>, Seq<char>)>, e: (Seq<char>, Seq<char>))
    ensures
        forall|k: int| 0 <= k < list.len() ==> has_version(insert_newest(list, e), #[trigger] list[k].0),
        holds_section(insert_newest(list, e), e.1, e.0),
        forall|m: int| 0 <= m < insert_newest(list, e).len() ==> is_entry(list, #[trigger] insert_newest(list, e)[m])
            || (insert_newest(list, e)[m].1 == e.1 && (insert_newest(list, e)[m].0 == e.0 || (has_version(
            list,
            insert_newest(list, e)[m].0,
        ) && semver_order(insert_newest(list, e)[m].0, e.0) == 0))),
{
    let r = insert_newest(list, e);
    let p = position_from(list, e.0, 0);
    lemma_position_bounds(list, e.0, 0);
    if p < list.len() && semver_order(list[p].0, e.0) == 0 {
        assert(r == list.update(p, (list[p].0, e.1)));
        assert forall|k: int| 0 <= k < list.len() implies has_version(r, #[trigger] list[k].0) by {
            assert(r[k].0 == list[k].0);
        }
        assert(r[p].1 == e.1 && semver_order(r[p].0, e.0) == 0);
        assert forall|m: int| 0 <= m < r.len() implies is_entry(list, #[trigger] r[m]) || (r[m].1 == e.1 && (
            r[m].0 == e.0 || (has_version(list, r[m].0) && semver_order(r[m].0, e.0) == 0))) by {
            if m != p {
                assert(r[m] == list[m]);
            } else {
                assert(r[m].0 == list[p].0);
            }
        }
    } else {
        assert(r == list.insert(p, e));
        assert(r.len() == list.len() + 1);
        assert forall|k: int| 0 <= k < list.len() implies has_version(r, #[trigger] list[k].0) by {
            if k < p {
                assert(r[k] == list[k]);
            } else {
                assert(r[k + 1] == list[k]);
            }
        }
        assert(r[p] == e);
        assert forall|m: int| 0 <= m < r.len() implies is_entry(list, #[trigger] r[m]) || (r[m].1 == e.1 && (
            r[m].0 == e.0 || (has_version(list, r[m].0) && semver_order(r[m].0, e.0) == 0))) by {
            if m < p {
                assert(r[m] == list[m]);
            } else if m > p {
                assert(r[m] == list[m - 1]);
            }
        }
    }
}

proof fn lemma_position_bounds(list: Seq<(Seq<char>, Seq<char>)>, v: Seq<char>, j: int)
    requires
        0 <= j <= list.len(),
    ensures
        j <= position_from(list, v, j) <= list.len(),
    decreases list.len() - j,
{
    if j < list.len() && semver_order(list[j].0, v) == 1 {
        lemma_position_bounds(list, v, j + 1);
    }
}

/// Ordering newest first loses no version and makes none up: every input version has an
/// entry with the same version text or a semver-equal version; every entry's version is the
/// version of an input entry; every entry's section is the section of an input entry whose
/// version is the entry's or semver-equal to it; and the last input's section is shown
/// under its version or a semver-equal one.
pub proof fn newest_first_keeps_every_version(entries: Seq<(Seq<char>, Seq<char>)>)
    ensures
        forall|i: int| 0 <= i < entries.len() ==> shows_version(newest_first_spec(entries), #[trigger] entries[i].0),
        forall|m: int| 0 <= m < newest_first_spec(entries).len() ==> has_version(entries, #[trigger] newest_first_spec(entries)[m].0),
        forall|m: int| 0 <= m < newest_first_spec(entries).len() ==> section_from(
            entries,
            #[trigger] newest_first_spec(entries)[m],
        ),
        entries.len() > 0 ==> holds_section(newest_first_spec(entries), entries.last().1, entries.last().0),
    decreases entries.len(),
{
    if entries.len() > 0 {
        let front = entries.drop_last();
        let e = entries.last();
        let list = newest_first_spec(front);
        let r = newest_first_spec(entries);
        newest_first_keeps_every_version(front);
        lemma_insert_keeps(list, e);
        assert(r == insert_newest(list, e));
        let n = entries.len() - 1;
        assert(entries[n] == e);
        assert forall|i: int| 0 <= i < entries.len() implies shows_version(r, #[trigger] entries[i].0) by {
            if i < n {
                assert(front[i] == entries[i]);
                assert(shows_version(list, front[i].0));
                let m0 = choose|m: int| 0 <= m < list.len() && (#[trigger] list[m].0 == front[i].0 || semver_order(list[m].0, front[i].0) == 0);
                assert(has_version(r, list[m0].0));
                let m1 = choose|m: int| 0 <= m < r.len() && #[trigger] r[m].0 == list[m0].0;
                assert(r[m1].0 == entries[i].0 || semver_order(r[m1].0, entries[i].0) == 0);
            } else {
                let m1 = choose|m: int| 0 <= m < r.len() && #[trigger] r[m].1 == e.1 && (r[m].0 == e.0 || semver_order(r[m].0, e.0) == 0);
                assert(r[m1].0 == entries[i].0 || semver_order(r[m1].0, entries[i].0) == 0);
            }
        }
        assert forall|m: int| 0 <= m < r.len() implies has_version(entries, #[trigger] r[m].0) by {
            if is_entry(list, r[m]) {
                let k = choose|k: int| 0 <= k < list.len() && #[trigger] list[k] == r[m];
                assert(has_version(front, list[k].0));
                let i = choose|i: int| 0 <= i < front.len() && #[trigger] front[i].0 == list[k].0;
                assert(entries[i] == front[i]);
            } else if r[m].0 == e.0 {
                assert(entries[n].0 == r[m].0);
            } else {
                let k = choose|k: int| 0 <= k < list.len() && #[trigger] list[k].0 == r[m].0;
                assert(has_version(front, list[k].0));
                let i = choose|i: int| 0 <= i < front.len() && #[trigger] front[i].0 == list[k].0;
                assert(entries[i] == front[i]);
            }
        }
        assert forall|m: int| 0 <= m < r.len() implies section_from(entries, #[trigger] r[m]) by {
            if is_entry(list, r[m]) {
                let k = choose|k: int| 0 <= k < list.len() && #[trigger] list[k] == r[m];
                assert(section_from(front, list[k]));
                let i = choose|i: int| 0 <= i < front.len() && #[trigger] front[i].1 == list[k].1 && (list[k].0 == front[i].0 || semver_order(list[k].0, front[i].0) == 0);
                assert(entries[i] == front[i]);
            } else {
                assert(entries[n].1 == r[m].1);
            }
        }
    }
}

/// Whether each entry of `list` is strictly newer than every later one.
pub open spec fn descending(list: Seq<(Seq<char>, Seq<char>)>) -> bool {
    forall|i: int, j: int|
        0 <= i < j < list.len() ==> semver_order(#[trigger] list[i].0, #[trigger] list[j].0) == 1
}

proof fn lemma_insert_descending(list: Seq<(Seq<char>, Seq<char>)>, e: (Seq<char>, Seq<char>), p: int)
    requires
        descending(list),
        0 <= p <= list.len(),
        forall|k: int| 0 <= k < p ==> semver_order(#[trigger] list[k].0, e.0) == 1,
        forall|m: int| p <= m < list.len() ==> semver_order(e.0, #[trigger] list[m].0) == 1,
    ensures
        descending(list.insert(p, e)),
{
    let r = list.insert(p, e);
    assert forall|i: int, j: int| 0 <= i < j < r.len() implies semver_order(#[trigger] r[i].0, #[trigger] r[j].0) == 1 by {
        if j < p {
            assert(r[i] == list[i] && r[j] == list[j]);
        } else if j == p {
            assert(r[i] == list[i] && r[j] == e);
        } else if i < p {
            assert(r[i] == list[i] && r[j] == list[j - 1]);
        } else if i == p {
            assert(r[i] == e && r[j] == list[j - 1]);
        } else {
            assert(r[i] == list[i - 1] && r[j] == list[j - 1]);
        }
    }
}

/// The version sections ordered newest first by semver's order of their versions, each
/// version once (the last section given for it wins), so that each entry is strictly newer
/// than every later one; an error where a version is not a semantic version.
pub fn newest_first(sections: &Vec<VersionSection>) -> (r: Result<Vec<(String, String)>, ChangelogError>)
    ensures
        r is Ok <==> forall|i: int| 0 <= i < sections@.len() ==> semver_core(#[trigger] sections@[i].version@) is Some,
        r matches Ok(v) ==> entry_views(v@) == newest_first_spec(section_views(sections@)),
        r matches Ok(v) ==> descending(entry_views(v@)),
        r matches Err(e) ==> e == ChangelogError::InvalidVersion,
{
    let n = sections.len();
    let mut k: usize = 0;
    while k < n
        invariant
            n == sections@.len(),
            k <= n,
            forall|i: int| 0 <= i < k ==> semver_core(#[trigger] sections@[i].version@) is Some,
        decreases n - k,
    {
        if version_core(sections[k].version.as_str()).is_none() {
            return Err(ChangelogError::InvalidVersion);
        }
        k = k + 1;
    }
    let ghost all = section_views(sections@);
    let mut out: Vec<(String, String)> = Vec::new();
    let mut i: usize = 0;
    assert(all.take(0) =~= Seq::<(Seq<char>, Seq<char>)>::empty());
    while i < n
        invariant
            n == sections@.len(),
            i <= n,
            all == section_views(sections@),
            forall|x: int| 0 <= x < n ==> semver_core(#[trigger] sections@[x].version@) is Some,
            forall|x: int| 0 <= x < out@.len() ==> semver_core(#[trigger] out@[x].0@) is Some,
            entry_views(out@) == newest_first_spec(all.take(i as int)),
            descending(entry_views(out@)),
        decreases n - i,
    {
        let ghost before = entry_views(out@);
        let e = &sections[i];
        assert(all[i as int] == (e.version@, e.section@));
        assert(semver_core(sections@[i as int].version@) is Some);
        let mut j: usize = 0;
        let mut order: i8 = 1;
        while order == 1 && j < out.len()
            invariant
                j <= out@.len(),
                before == entry_views(out@),
                semver_core(e.version@) is Some,
                forall|x: int| 0 <= x < out@.len() ==> semver_core(#[trigger] out@[x].0@) is Some,
                position_from(before, e.version@, 0) == position_from(before, e.version@, j as int),
                order != 1 ==> j < out@.len() && order as int == semver_order(before[j as int].0, e.version@),
                -1 <= order <= 1,
                order == -1 ==> semver_order(e.version@, before[j as int].0) == 1,
                order == -1 ==> forall|x: Seq<char>| semver_core(x) is Some && #[trigger] semver_order(before[j as int].0, x) == 1 ==> semver_order(e.version@, x) == 1,
                forall|k: int| 0 <= k < j ==> semver_order(#[trigger] before[k].0, e.version@) == 1,
            decreases out@.len() - j, order + 1,
        {
            assert(before[j as int] == (out@[j as int].0@, out@[j as int].1@));
            assert(semver_core(out@[j as int].0@) is Some);
            match compare_versions(out[j].0.as_str(), e.version.as_str()) {
                Some(c) => {
                    if c == 1 {
                        j = j + 1;
                    } else {
                        order = c;
                    }
                },
                None => {},
            }
        }
        let equal = order == 0;
        assert(position_from(before, e.version@, 0) == j as int);
        let ghost entry = (e.version@, e.section@);
        assert(all.take(i as int + 1).drop_last() =~= all.take(i as int));
        assert(all.take(i as int + 1).last() == entry);
        if equal {
            let kept = copy_text(out[j].0.as_str());
            let section = copy_text(e.section.as_str());
            out.set(j, (kept, section));
            assert(entry_views(out@) =~= before.update(j as int, (before[j as int].0, e.section@)));
            assert forall|a: int, b: int| 0 <= a < b < entry_views(out@).len() implies semver_order(
                #[trigger] entry_views(out@)[a].0,
                #[trigger] entry_views(out@)[b].0,
            ) == 1 by {
                assert(entry_views(out@)[a].0 == before[a].0 && entry_views(out@)[b].0 == before[b].0);
            }
        } else {
            proof {
                assert(order == 1 ==> j == before.len());
                assert forall|m: int| j <= m < before.len() implies semver_order(e.version@, #[trigger] before[m].0) == 1 by {
                    assert(order == -1);
                    if m > j as int {
                        assert(semver_order(before[j as int].0, before[m].0) == 1);
                        assert(before[m].0 == out@[m].0@);
                        assert(semver_core(out@[m].0@) is Some);
                    }
                }
                lemma_insert_descending(before, entry, j as int);
            }
            let version = copy_text(e.version.as_str());
            let section = copy_text(e.section.as_str());
            out.insert(j, (version, section));
            assert(entry_views(out@) =~= before.insert(j as int, entry));
        }
        i = i + 1;
    }
    assert(all.take(n as int) =~= all);
    Ok(out)
}

/// The reply of the `/changelog` command: an embed, or a plain message.
pub enum ChangelogReply {
    Embed(String),
    Content(String),
}

/// Where the whole changelog can be read.
pub open spec fn changelog_url() -> Seq<char> {
    "https://github.com/QueenOfDoom/kanshi/blob/master/CHANGELOG.md"@
}

/// The longest a changelog embed may be, in bytes.
pub open spec fn embed_limit() -> nat {
    4096
}

/// The sections (with their footnotes) of the first `n` versions that the requirement
/// `req` matches, in order.
pub open spec fn matching(
    req: Seq<char>,
    entries: Seq<(Seq<char>, Seq<char>)>,
    notes: Seq<Seq<char>>,
    n: nat,
) -> (Seq<Seq<char>>, Seq<Seq<char>>)
    decreases n,
{
    if n == 0 {
        (Seq::empty(), Seq::empty())
    } else {
        let (sections, footnotes) = matching(req, entries, notes, (n - 1) as nat);
        let e = entries[n - 1];
        if semver_core(e.0) is Some && semver_req_matches(req, e.0) {
            (sections.push(e.1), footnotes.push(notes[n - 1]))
        } else {
            (sections, footnotes)
        }
    }
}

/// Whether the indices `idx` pick, in increasing order, exactly the entries among the first
/// `n` whose version is a semantic version that `req` matches, and `shown` holds their
/// sections and `notes` at those indices.
pub open spec fn picks_matches(
    req: Seq<char>,
    entries: Seq<(Seq<char>, Seq<char>)>,
    notes: Seq<Seq<char>>,
    n: nat,
    shown: (Seq<Seq<char>>, Seq<Seq<char>>),
    idx: Seq<int>,
) -> bool {
    &&& idx.len() == shown.0.len()
    &&& idx.len() == shown.1.len()
    &&& forall|t: int|
        0 <= t < idx.len() ==> 0 <= #[trigger] idx[t] < n && semver_core(entries[idx[t]].0) is Some
            && semver_req_matches(req, entries[idx[t]].0) && shown.0[t] == entries[idx[t]].1
            && shown.1[t] == notes[idx[t]]
    &&& forall|a: int, b: int| 0 <= a < b < idx.len() ==> #[trigger] idx[a] < #[trigger] idx[b]
    &&& forall|k: int|
        0 <= k < n && semver_core(#[trigger] entries[k].0) is Some && semver_req_matches(req, entries[k].0)
            ==> exists|t: int| 0 <= t < idx.len() && idx[t] == k
}

proof fn lemma_matching_indices(
    req: Seq<char>,
    entries: Seq<(Seq<char>, Seq<char>)>,
    notes: Seq<Seq<char>>,
    n: nat,
) -> (idx: Seq<int>)
    requires
        n <= entries.len(),
        n <= notes.len(),
    ensures
        picks_matches(req, entries, notes, n, matching(req, entries, notes, n), idx),
    decreases n,
{
    if n == 0 {
        Seq::empty()
    } else {
        let prev = lemma_matching_indices(req, entries, notes, (n - 1) as nat);
        let before = matching(req, entries, notes, (n - 1) as nat);
        let now = matching(req, entries, notes, n);
        let e = entries[n - 1];
        if semver_core(e.0) is Some && semver_req_matches(req, e.0) {
            let idx = prev.push(n - 1);
            assert(now == (before.0.push(e.1), before.1.push(notes[n - 1])));
            assert forall|t: int| 0 <= t < idx.len() implies 0 <= #[trigger] idx[t] < n && semver_core(
                entries[idx[t]].0,
            ) is Some && semver_req_matches(req, entries[idx[t]].0) && now.0[t] == entries[idx[t]].1
                && now.1[t] == notes[idx[t]] by {
                if t < prev.len() {
                    assert(idx[t] == prev[t]);
                }
            }
            assert forall|a: int, b: int| 0 <= a < b < idx.len() implies #[trigger] idx[a] < #[trigger] idx[b] by {
                if b < prev.len() {
                    assert(idx[a] == prev[a] && idx[b] == prev[b]);
                } else {
                    assert(idx[a] == prev[a]);
                }
            }
            assert forall|k: int|
                0 <= k < n && semver_core(#[trigger] entries[k].0) is Some && semver_req_matches(req, entries[k].0)
                implies exists|t: int| 0 <= t < idx.len() && idx[t] == k by {
                if k < n - 1 {
                    let t = choose|t: int| 0 <= t < prev.len() && prev[t] == k;
                    assert(idx[t] == k);
                } else {
                    assert(idx[prev.len() as int] == k);
                }
            }
            idx
        } else {
            assert(now == before);
            assert forall|k: int|
                0 <= k < n && semver_core(#[trigger] entries[k].0) is Some && semver_req_matches(req, entries[k].0)
                implies exists|t: int| 0 <= t < prev.len() && prev[t] == k by {
                assert(k != n - 1);
            }
            prev
        }
    }
}

/// A version requirement shows exactly the matching entries, in order: the sections and
/// footnotes kept from the first `n` entries are those of the entries whose version is a
/// semantic version that the requirement matches, every such entry once, in the order of
/// the entries.
pub proof fn matching_shows_every_match(
    req: Seq<char>,
    entries: Seq<(Seq<char>, Seq<char>)>,
    notes: Seq<Seq<char>>,
    n: nat,
)
    requires
        n <= entries.len(),
        n <= notes.len(),
    ensures
        exists|idx: Seq<int>| picks_matches(req, entries, notes, n, matching(req, entries, notes, n), idx),
{
    let idx = lemma_matching_indices(req, entries, notes, n);
}

/// The views of version entries.
pub open spec fn entry_views(v: Seq<(String, String)>) -> Seq<(Seq<char>, Seq<char>)> {
    v.map_values(|e: (String, String)| (e.0@, e.1@))
}

/// Whether `r` is the embed that the limiter makes of `parts`, or its error.
pub open spec fn is_limited_embed(r: Result<ChangelogReply, DoomError>, parts: Seq<Seq<Seq<char>>>) -> bool {
    match limited(&ChangelogBuilder, parts, embed_limit(), Some((changelog_url(), 1))) {
        Some(m) => r matches Ok(ChangelogReply::Embed(s)) && s@ == m,
        None => r matches Err(DoomError::NotImplementedError { functionality }) && functionality@
            == crate::discord::no_room_for_link(),
    }
}

fn limit_changelog(parts: &Vec<Vec<String>>) -> (r: Result<ChangelogReply, DoomError>)
    requires
        parts@.len() == 3,
        forall|i: int| 0 <= i < 3 ==> #[trigger] parts@[i]@.len() < usize::MAX,
    ensures
        is_limited_embed(r, parts.deep_view()),
{
    proof {
        reveal_strlit("https://github.com/QueenOfDoom/kanshi/blob/master/CHANGELOG.md");
    }
    let url = "https://github.com/QueenOfDoom/kanshi/blob/master/CHANGELOG.md";
    assert(url@ == changelog_url());
    match limit_content_and_see_more(4096, parts, &ChangelogBuilder, Some((url, 1))) {
        Ok(body) => Ok(ChangelogReply::Embed(body)),
        Err(e) => Err(e),
    }
}

/// The view of an optional text.
pub open spec fn opt_view(v: Option<&str>) -> Option<Seq<char>> {
    match v {
        Some(s) => Some(s@),
        None => None,
    }
}

/// Whether `r` is the reply of `/changelog` to the shown header, the entries (newest first,
/// each a version and its section), the footnotes and the optional version requirement:
/// without a requirement, the header, all sections and all footnotes cut to fit an embed with
/// a link to the whole changelog; with one (leading 'v's dropped), an invalid requirement is
/// reported, else the sections that it matches are shown with their footnotes (paired in
/// order), or a note that none matched.
pub open spec fn reply_holds(
    r: Result<ChangelogReply, DoomError>,
    header: Seq<char>,
    entries: Seq<(Seq<char>, Seq<char>)>,
    footer: Seq<char>,
    version: Option<Seq<char>>,
) -> bool {
    match version {
        None => is_limited_embed(
            r,
            seq![seq![header], entries.map_values(|e: (Seq<char>, Seq<char>)| e.1), lines_of(footer)],
        ),
        Some(v) => {
            let req = without_leading(v, 'v');
            let notes = lines_of(footer);
            let n = if entries.len() <= notes.len() {
                entries.len()
            } else {
                notes.len()
            };
            let (sections, footnotes) = matching(req, entries, notes, n);
            &&& !semver_req_valid(req) ==> (r matches Ok(ChangelogReply::Content(s)) && s@
                == ":octagonal_sign: Invalid Version Requirement: "@ + req)
            &&& semver_req_valid(req) && sections.len() == 0 ==> (r matches Ok(ChangelogReply::Embed(s))
                && s@ == ":mag_right: Version Requirement didn't match any existing version."@)
            &&& semver_req_valid(req) && sections.len() > 0 ==> is_limited_embed(
                r,
                seq![seq![header], sections, footnotes],
            )
        },
    }
}

/// The reply of `/changelog` from the shown header, the version sections newest first (each
/// with the text of its version) and the footnotes. Without a version requirement, the
/// header, all sections and all footnotes are shown, cut to fit an embed with a link to the
/// whole changelog. With one (leading 'v's dropped), an invalid requirement is reported; else
/// the sections that it matches are shown with their footnotes (paired in order), or a note
/// that none matched.
pub fn changelog_reply(
    header: &str,
    entries: &Vec<(String, String)>,
    footer: &str,
    version: Option<&str>,
) -> (r: Result<ChangelogReply, DoomError>)
    requires
        entries@.len() < usize::MAX,
        lines_of(footer@).len() < usize::MAX,
    ensures
        reply_holds(r, header@, entry_views(entries@), footer@, opt_view(version)),
{
    let notes = lines(footer);
    let mut head: Vec<String> = Vec::new();
    head.push(copy_text(header));
    assert(head.deep_view() =~= seq![header@]);
    match version {
        None => {
            let mut sections: Vec<String> = Vec::new();
            let mut i: usize = 0;
            while i < entries.len()
                invariant
                    i <= entries@.len(),
                    views(sections@) == entry_views(entries@).map_values(|e: (Seq<char>, Seq<char>)| e.1).take(i as int),
                decreases entries@.len() - i,
            {
                let ghost s0 = sections@;
                sections.push(copy_text(entries[i].1.as_str()));
                assert(views(sections@) =~= views(s0).push(entries@[i as int].1@));
                i = i + 1;
                assert(views(sections@) =~= entry_views(entries@).map_values(|e: (Seq<char>, Seq<char>)| e.1).take(i as int));
            }
            let ghost all = entry_views(entries@).map_values(|e: (Seq<char>, Seq<char>)| e.1);
            assert(all.take(entries@.len() as int) =~= all);
            assert(sections.deep_view() =~= all);
            assert(notes.deep_view() =~= lines_of(footer@));
            let mut parts: Vec<Vec<String>> = Vec::new();
            parts.push(head);
            parts.push(sections);
            parts.push(notes);
            assert(parts.deep_view() =~= seq![seq![header@], all, lines_of(footer@)]);
            limit_changelog(&parts)
        },
        Some(v) => {
            let req = trim_start_char(v, 'v');
            if !requirement_valid(req.as_str()) {
                let mut s = String::from_str(":octagonal_sign: Invalid Version Requirement: ");
                s.append(req.as_str());
                return Ok(ChangelogReply::Content(s));
            }
            let n = if entries.len() <= notes.len() { entries.len() } else { notes.len() };
            let mut sections: Vec<String> = Vec::new();
            let mut footnotes: Vec<String> = Vec::new();
            let mut i: usize = 0;
            while i < n
                invariant
                    i <= n,
                    n <= entries@.len(),
                    n <= notes@.len(),
                    views(notes@) == lines_of(footer@),
                    semver_req_valid(req@),
                    sections@.len() <= i,
                    footnotes@.len() <= i,
                    (views(sections@), views(footnotes@)) == matching(req@, entry_views(entries@), lines_of(footer@), i as nat),
                decreases n - i,
            {
                let matched = requirement_matches(req.as_str(), entries[i].0.as_str());
                assert(entry_views(entries@)[i as int] == (entries@[i as int].0@, entries@[i as int].1@));
                assert(lines_of(footer@)[i as int] == notes@[i as int]@);
                if matched == Some(true) {
                    let ghost s0 = sections@;
                    let ghost f0 = footnotes@;
                    sections.push(copy_text(entries[i].1.as_str()));
                    footnotes.push(copy_text(notes[i].as_str()));
                    assert(views(sections@) =~= views(s0).push(entries@[i as int].1@));
                    assert(views(footnotes@) =~= views(f0).push(notes@[i as int]@));
                }
                i = i + 1;
            }
            if sections.len() == 0 {
                return Ok(ChangelogReply::Embed(String::from_str(
                    ":mag_right: Version Requirement didn't match any existing version.",
                )));
            }
            let ghost sv = views(sections@);
            let ghost fv = views(footnotes@);
            assert(sections.deep_view() =~= sv);
            assert(footnotes.deep_view() =~= fv);
            let mut parts: Vec<Vec<String>> = Vec::new();
            parts.push(head);
            parts.push(sections);
            parts.push(footnotes);
            assert(parts.deep_view() =~= seq![seq![header@], sv, fv]);
            limit_changelog(&parts)
        },
    }
}

/// A reply of `/changelog`, with the limiter's error as a changelog error.
pub open spec fn as_changelog_result(r: Result<ChangelogReply, DoomError>) -> Result<ChangelogReply, ChangelogError> {
    match r {
        Ok(reply) => Ok(reply),
        Err(_) => Err(ChangelogError::NoRoomForLink),
    }
}

/// Whether `r` is the reply of `/changelog` to the changelog text `text` and the optional
/// version requirement: the text split into header, version sections and footnotes, the
/// header shown as `header_spec` says, the sections ordered newest first, then replied to
/// as `reply_holds` says; or the first error on the way.
pub open spec fn changelog_text_reply(
    r: Result<ChangelogReply, ChangelogError>,
    text: Seq<char>,
    version: Option<Seq<char>>,
) -> bool {
    match split_spec(text) {
        Err(e) => r == Err::<ChangelogReply, ChangelogError>(e),
        Ok((h, v, f)) => match header_spec(h) {
            None => r == Err::<ChangelogReply, ChangelogError>(ChangelogError::InvalidPattern),
            Some(header) => match sections_spec(v) {
                Err(e) => r == Err::<ChangelogReply, ChangelogError>(e),
                Ok(secs) => if exists|i: int| 0 <= i < secs.len() && semver_core(#[trigger] secs[i].0) is None {
                    r == Err::<ChangelogReply, ChangelogError>(ChangelogError::InvalidVersion)
                } else {
                    let entries = newest_first_spec(secs);
                    if entries.len() >= usize::MAX || lines_of(f).len() >= usize::MAX {
                        r == Err::<ChangelogReply, ChangelogError>(ChangelogError::TooLong)
                    } else {
                        exists|res: Result<ChangelogReply, DoomError>|
                            reply_holds(res, header, entries, f, version) && r == as_changelog_result(res)
                    }
                },
            },
        },
    }
}

/// The reply of `/changelog` to the text of the changelog and the optional version
/// requirement: the header, the version sections newest first and the footnotes are read
/// from the text, then replied to as `changelog_reply` does.
pub fn changelog_from_text(text: &str, version: Option<&str>) -> (r: Result<ChangelogReply, ChangelogError>)
    ensures
        changelog_text_reply(r, text@, opt_view(version)),
{
    let parts = match split_changelog(text) {
        Ok(p) => p,
        Err(e) => return Err(e),
    };
    let header = match format_header(parts.header.as_str()) {
        Ok(h) => h,
        Err(e) => return Err(e),
    };
    let sections = match version_sections(parts.versions.as_str()) {
        Ok(s) => s,
        Err(e) => return Err(e),
    };
    let ghost secs = section_views(sections@);
    assert forall|i: int| 0 <= i < sections@.len() implies #[trigger] secs[i].0 == sections@[i].version@ by {}
    let entries = match newest_first(&sections) {
        Ok(v) => v,
        Err(e) => {
            proof {
                let i = choose|i: int| 0 <= i < sections@.len() && !(semver_core(#[trigger] sections@[i].version@) is Some);
                assert(semver_core(secs[i].0) is None);
            }
            return Err(e);
        },
    };
    proof {
        if exists|i: int| 0 <= i < secs.len() && semver_core(#[trigger] secs[i].0) is None {
            let i = choose|i: int| 0 <= i < secs.len() && semver_core(#[trigger] secs[i].0) is None;
            assert(semver_core(sections@[i].version@) is Some);
        }
    }
    let notes = lines(parts.footer.as_str());
    if entries.len() == usize::MAX || notes.len() == usize::MAX {
        return Err(ChangelogError::TooLong);
    }
    let res = changelog_reply(header.as_str(), &entries, parts.footer.as_str(), version);
    let r = match res {
        Ok(reply) => Ok(reply),
        Err(_) => Err(ChangelogError::NoRoomForLink),
    };
    assert(reply_holds(res, header@, entry_views(entries@), parts.footer@, opt_view(version)) && r
        == as_changelog_result(res));
    r
}

} // verus!
