//! Discord message bodies: the changelog layout and a length limiter that cuts
//! components short and links to the rest.

use vstd::prelude::*;
use vstd::string::*;
use crate::error::DoomError;
use crate::text::{byte_len, join, lemma_encode_concat, seq_join, views};
use vstd::utf8::encode_utf8;

verus! {

/// Groups of text components, as the builders see them.
pub type Parts = Seq<Seq<Seq<char>>>;

/// Something that turns groups of text components into one message.
pub trait MessageBuilder {
    /// Whether the builder takes `count` groups.
    spec fn spec_accepts(&self, count: nat) -> bool;

    /// The message built from `parts`.
    spec fn spec_build(&self, parts: Parts) -> Seq<char>;

    /// Whether the builder takes `count` groups.
    fn accepts(&self, count: usize) -> (r: bool)
        ensures
            r == self.spec_accepts(count as nat),
    ;

    /// The message built from `parts`.
    fn build(&self, parts: &Vec<Vec<String>>) -> (s: String)
        requires
            self.spec_accepts(parts@.len()),
        ensures
            s@ == self.spec_build(parts.deep_view()),
    ;
}

/// The changelog message of `parts`: the first group joined by spaces, a blank line, the
/// second group joined by blank lines, a blank line and the third group joined by spaces.
/// No groups give the empty message.
pub open spec fn changelog_text(parts: Parts) -> Seq<char> {
    if parts.len() == 0 {
        Seq::empty()
    } else {
        seq_join(parts[0], seq![' ']) + seq!['\n', '\n'] + seq_join(parts[1], seq!['\n', '\n'])
            + seq!['\n', '\n'] + seq_join(parts[2], seq![' '])
    }
}

/// Lays out a changelog from its header, its version sections and its footnotes.
pub fn build_changelog(v: &Vec<Vec<String>>) -> (s: String)
    requires
        v@.len() == 0 || v@.len() >= 3,
    ensures
        s@ == changelog_text(v.deep_view()),
{
    if v.len() == 0 {
        return String::new();
    }
    proof {
        reveal_strlit(" ");
        reveal_strlit("\n\n");
        assert(" "@ =~= seq![' ']);
        assert("\n\n"@ =~= seq!['\n', '\n']);
        assert(v.deep_view()[0] =~= views(v@[0]@));
        assert(v.deep_view()[1] =~= views(v@[1]@));
        assert(v.deep_view()[2] =~= views(v@[2]@));
    }
    let mut message = join(&v[0], " ");
    message.append("\n\n");
    let second = join(&v[1], "\n\n");
    message.append(second.as_str());
    message.append("\n\n");
    let third = join(&v[2], " ");
    message.append(third.as_str());
    message
}

/// The builder that lays out changelogs.
pub struct ChangelogBuilder;

impl MessageBuilder for ChangelogBuilder {
    open spec fn spec_accepts(&self, count: nat) -> bool {
        count == 0 || count >= 3
    }

    open spec fn spec_build(&self, parts: Parts) -> Seq<char> {
        changelog_text(parts)
    }

    fn accepts(&self, count: usize) -> (r: bool) {
        count == 0 || count >= 3
    }

    fn build(&self, parts: &Vec<Vec<String>>) -> (s: String) {
        build_changelog(parts)
    }
}

/// The longest group of `parts`.
pub open spec fn max_len(parts: Parts) -> nat
    decreases parts.len(),
{
    if parts.len() == 0 {
        0
    } else {
        let rest = max_len(parts.drop_last());
        if parts.last().len() > rest {
            parts.last().len()
        } else {
            rest
        }
    }
}

/// Each group of `parts` cut to its first `level` components.
pub open spec fn truncated(parts: Parts, level: nat) -> Parts {
    parts.map_values(
        |c: Seq<Seq<char>>|
            if c.len() <= level {
                c
            } else {
                c.take(level as int)
            },
    )
}

/// Whether the message that `b` builds from `parts` has at most `limit` bytes.
pub open spec fn fits<B: MessageBuilder>(b: &B, parts: Parts, limit: nat) -> bool {
    byte_len(b.spec_build(parts)) <= limit
}

/// The components kept under `limit`, searching from `level` on: each group is cut to
/// the same number of components, the largest number whose message still fits, and
/// nothing at all when not even the first components fit.
pub open spec fn selection<B: MessageBuilder>(b: &B, parts: Parts, limit: nat, level: nat) -> Parts
    decreases max_len(parts) + 1 - level,
{
    if !fits(b, truncated(parts, level), limit) {
        if level <= 1 {
            Seq::empty()
        } else {
            truncated(parts, (level - 1) as nat)
        }
    } else if level > max_len(parts) || level == 0 {
        truncated(parts, level)
    } else {
        selection(b, parts, limit, level + 1)
    }
}

/// The text of the link to the rest of a cut message.
pub open spec fn see_more(url: Seq<char>) -> Seq<char> {
    "[... See more]("@ + url + ")"@
}

/// `parts` with `href` added to group `pos`, padding with groups of one empty component,
/// and a new empty group for `pos`, where `parts` has fewer groups.
pub open spec fn with_link(parts: Parts, pos: nat, href: Seq<char>) -> Parts {
    if parts.len() <= pos {
        parts + Seq::new((pos - parts.len()) as nat, |i: int| seq![Seq::<char>::empty()]) + seq![
            seq![href],
        ]
    } else {
        parts.update(pos as int, parts[pos as int].push(href))
    }
}

/// The error given where the link to the rest does not fit.
pub open spec fn no_room_for_link() -> Seq<char> {
    "Handling of Insufficient Space for Link"@
}

/// A link given as a url and a group, by its views.
pub open spec fn link_view(link: Option<(&str, usize)>) -> Option<(Seq<char>, nat)> {
    match link {
        Some((url, pos)) => Some((url@, pos as nat)),
        None => None,
    }
}

/// What `limit_content_and_see_more` gives: `None` where the link does not fit.
pub open spec fn limited<B: MessageBuilder>(
    b: &B,
    parts: Parts,
    limit: nat,
    link: Option<(Seq<char>, nat)>,
) -> Option<Seq<char>> {
    let kept = selection(b, parts, limit, 1);
    let message = b.spec_build(kept);
    match link {
        Some((url, pos)) => {
            if kept == parts {
                Some(message)
            } else {
                let linked = with_link(kept, pos, see_more(url));
                if byte_len(message) + byte_len(see_more(url)) < limit && b.spec_accepts(
                    linked.len(),
                ) {
                    Some(b.spec_build(linked))
                } else {
                    None
                }
            }
        },
        None => Some(message),
    }
}

proof fn lemma_max_len(parts: Parts)
    ensures
        forall|i: int| 0 <= i < parts.len() ==> #[trigger] parts[i].len() <= max_len(parts),
        parts.len() > 0 ==> exists|i: int| 0 <= i < parts.len() && #[trigger] parts[i].len()
            == max_len(parts),
        parts.len() == 0 ==> max_len(parts) == 0,
    decreases parts.len(),
{
    if parts.len() > 0 {
        let rest = parts.drop_last();
        lemma_max_len(rest);
        assert forall|i: int| 0 <= i < parts.len() implies #[trigger] parts[i].len() <= max_len(
            parts,
        ) by {
            if i < parts.len() - 1 {
                assert(parts[i] == rest[i]);
            }
        }
        if parts.last().len() > max_len(rest) {
            assert(parts[parts.len() - 1].len() == max_len(parts));
        } else if rest.len() > 0 {
            let j = choose|j: int| 0 <= j < rest.len() && #[trigger] rest[j].len() == max_len(rest);
            assert(parts[j] == rest[j]);
        } else {
            assert(parts[0].len() == max_len(parts));
        }
    }
}

/// Each group of `comps` cut to its first `level` components, and whether some group has
/// at least `level` components.
fn truncate_components(comps: &Vec<Vec<String>>, level: usize) -> (r: (Vec<Vec<String>>, bool))
    ensures
        r.0.deep_view() == truncated(comps.deep_view(), level as nat),
        r.0@.len() == comps@.len(),
        r.1 == exists|i: int| 0 <= i < comps@.len() && #[trigger] comps@[i]@.len() >= level,
{
    let mut out: Vec<Vec<String>> = Vec::new();
    let mut longer = false;
    let ghost all = comps.deep_view();
    let mut i: usize = 0;
    while i < comps.len()
        invariant
            i <= comps@.len(),
            all == comps.deep_view(),
            out@.len() == i,
            forall|j: int| 0 <= j < i ==> #[trigger] out@[j].deep_view() == truncated(all, level as nat)[j],
            longer == exists|j: int| 0 <= j < i && #[trigger] comps@[j]@.len() >= level,
        decreases comps@.len() - i,
    {
        let component = &comps[i];
        let mut kept: Vec<String> = Vec::new();
        let mut k: usize = 0;
        while k < level && k < component.len()
            invariant
                k <= component@.len(),
                k <= level,
                kept@.len() == k,
                forall|j: int| 0 <= j < k ==> #[trigger] kept@[j]@ == component@[j]@,
            decreases component@.len() - k,
        {
            kept.push(component[k].clone());
            k = k + 1;
        }
        if kept.len() == level {
            longer = true;
        }
        proof {
            let c = all[i as int];
            assert(c =~= views(component@));
            assert(kept.deep_view() =~= truncated(all, level as nat)[i as int]);
        }
        let ghost prev = out@;
        out.push(kept);
        proof {
            assert forall|j: int| 0 <= j < i + 1 implies #[trigger] out@[j].deep_view() == truncated(
                all,
                level as nat,
            )[j] by {
                if j < i {
                    assert(out@[j] == prev[j]);
                }
            }
        }
        i = i + 1;
    }
    assert(out.deep_view() =~= truncated(all, level as nat)) by {
        assert forall|j: int| 0 <= j < out@.len() implies #[trigger] out.deep_view()[j] == truncated(all, level as nat)[j] by {
            assert(out.deep_view()[j] == out@[j].deep_view());
        }
    }
    (out, longer)
}

proof fn lemma_selection_fits<B: MessageBuilder>(b: &B, parts: Parts, limit: nat, level: nat)
    requires
        level >= 1,
        fits(b, truncated(parts, level), limit),
    ensures
        fits(b, selection(b, parts, limit, level), limit),
    decreases max_len(parts) + 1 - level,
{
    if level <= max_len(parts) {
        assert(selection(b, parts, limit, level) == selection(b, parts, limit, level + 1));
        if fits(b, truncated(parts, level + 1), limit) {
            lemma_selection_fits(b, parts, limit, level + 1);
        } else {
            assert(selection(b, parts, limit, level + 1) == truncated(parts, level));
        }
    }
}

/// Where the first component of every group fits, the message built from what is kept
/// stays within the limit.
pub proof fn cut_message_fits<B: MessageBuilder>(b: &B, parts: Parts, limit: nat)
    requires
        fits(b, truncated(parts, 1), limit),
    ensures
        fits(b, selection(b, parts, limit, 1), limit),
{
    lemma_selection_fits(b, parts, limit, 1);
}

proof fn lemma_selection_cut<B: MessageBuilder>(b: &B, parts: Parts, limit: nat, level: nat)
    requires
        level >= 1,
    ensures
        selection(b, parts, limit, level).len() == 0 || exists|k: nat|
            k >= 1 && selection(b, parts, limit, level) == truncated(parts, k),
    decreases max_len(parts) + 1 - level,
{
    if !fits(b, truncated(parts, level), limit) {
        if level > 1 {
            assert(selection(b, parts, limit, level) == truncated(parts, (level - 1) as nat));
        }
    } else if level > max_len(parts) {
        assert(selection(b, parts, limit, level) == truncated(parts, level));
    } else {
        lemma_selection_cut(b, parts, limit, level + 1);
    }
}

/// What is kept of the groups is nothing, or every group cut to the same number of its
/// leading components.
pub proof fn kept_is_uniform_cut<B: MessageBuilder>(b: &B, parts: Parts, limit: nat)
    ensures
        selection(b, parts, limit, 1).len() == 0 || exists|k: nat|
            k >= 1 && selection(b, parts, limit, 1) == truncated(parts, k),
{
    lemma_selection_cut(b, parts, limit, 1);
}

/// Whether every component that `a` keeps is kept by `b` too, at the same place.
pub open spec fn kept_within(a: Parts, b: Parts) -> bool {
    forall|i: int, j: int|
        0 <= i < a.len() && 0 <= j < a[i].len() ==> i < b.len() && j < b[i].len() && #[trigger] b[i][j]
            == #[trigger] a[i][j]
}

/// How many leading components of each group `selection` keeps, searching from `level` on.
spec fn kept_level<B: MessageBuilder>(b: &B, parts: Parts, limit: nat, level: nat) -> nat
    decreases max_len(parts) + 1 - level,
{
    if !fits(b, truncated(parts, level), limit) {
        if level <= 1 {
            0
        } else {
            (level - 1) as nat
        }
    } else if level > max_len(parts) || level == 0 {
        level
    } else {
        kept_level(b, parts, limit, level + 1)
    }
}

proof fn lemma_selection_level<B: MessageBuilder>(b: &B, parts: Parts, limit: nat, level: nat)
    requires
        level >= 1,
    ensures
        (level == 1 && !fits(b, truncated(parts, 1), limit) && selection(b, parts, limit, level)
            == Seq::<Seq<Seq<char>>>::empty()) || (selection(b, parts, limit, level) == truncated(
            parts,
            kept_level(b, parts, limit, level),
        ) && kept_level(b, parts, limit, level) + 1 >= level),
    decreases max_len(parts) + 1 - level,
{
    if fits(b, truncated(parts, level), limit) && level <= max_len(parts) {
        lemma_selection_level(b, parts, limit, level + 1);
    }
}

proof fn lemma_truncated_within(parts: Parts, a: nat, c: nat)
    requires
        a <= c,
    ensures
        kept_within(truncated(parts, a), truncated(parts, c)),
{
    let x = truncated(parts, a);
    let y = truncated(parts, c);
    assert forall|i: int, j: int| 0 <= i < x.len() && 0 <= j < x[i].len() implies i < y.len() && j < y[i].len()
        && #[trigger] y[i][j] == #[trigger] x[i][j] by {
        assert(x[i][j] == parts[i][j]);
        assert(y[i][j] == parts[i][j]);
    }
}

proof fn lemma_larger_limit<B: MessageBuilder>(b: &B, parts: Parts, limit1: nat, limit2: nat, level: nat)
    requires
        level >= 1,
        limit1 <= limit2,
    ensures
        kept_within(selection(b, parts, limit1, level), selection(b, parts, limit2, level)),
    decreases max_len(parts) + 1 - level,
{
    let s1 = selection(b, parts, limit1, level);
    let s2 = selection(b, parts, limit2, level);
    let fit1 = fits(b, truncated(parts, level), limit1);
    let fit2 = fits(b, truncated(parts, level), limit2);
    assert(fit1 ==> fit2);
    if !fit2 {
        assert(s1 == s2);
        lemma_truncated_within(parts, 0, 0);
        if level > 1 {
            lemma_truncated_within(parts, (level - 1) as nat, (level - 1) as nat);
        }
    } else if !fit1 {
        if level > 1 {
            assert(s1 == truncated(parts, (level - 1) as nat));
            lemma_selection_level(b, parts, limit2, level);
            lemma_truncated_within(parts, (level - 1) as nat, kept_level(b, parts, limit2, level));
        }
    } else if level > max_len(parts) {
        lemma_truncated_within(parts, level, level);
    } else {
        lemma_larger_limit(b, parts, limit1, limit2, level + 1);
    }
}

/// A larger limit never drops a component that a smaller limit kept: every component kept
/// under `limit1` is kept, at the same place, under `limit2`.
pub proof fn larger_limit_keeps_more<B: MessageBuilder>(b: &B, parts: Parts, limit1: nat, limit2: nat)
    requires
        limit1 <= limit2,
    ensures
        kept_within(selection(b, parts, limit1, 1), selection(b, parts, limit2, 1)),
{
    lemma_larger_limit(b, parts, limit1, limit2, 1);
}

proof fn lemma_join_grows(l: Seq<Seq<char>>, sep: Seq<char>, j: int, k: int)
    requires
        0 <= j <= k <= l.len(),
    ensures
        encode_utf8(seq_join(l.take(j), sep)).len() <= encode_utf8(seq_join(l.take(k), sep)).len(),
    decreases k - j,
{
    if j < k {
        lemma_join_grows(l, sep, j, k - 1);
        let a = l.take(k - 1);
        let c = l.take(k);
        assert(c.drop_last() =~= a);
        if k - 1 >= 1 {
            assert(seq_join(c, sep) == seq_join(a, sep) + sep + c.last());
            lemma_encode_concat(seq_join(a, sep) + sep, c.last());
            lemma_encode_concat(seq_join(a, sep), sep);
        } else {
            assert(a.len() == 0);
        }
    }
}

proof fn lemma_truncated_group(l: Seq<Seq<char>>, level: nat, sep: Seq<char>)
    ensures
        encode_utf8(seq_join(if l.len() <= level { l } else { l.take(level as int) }, sep)).len()
            <= encode_utf8(seq_join(l, sep)).len(),
{
    assert(l.take(l.len() as int) =~= l);
    if l.len() > level {
        lemma_join_grows(l, sep, level as int, l.len() as int);
    }
}

proof fn lemma_changelog_parts_len(a: Seq<char>, b: Seq<char>, c: Seq<char>)
    ensures
        encode_utf8(a + seq!['\n', '\n'] + b + seq!['\n', '\n'] + c).len() == encode_utf8(a).len()
            + encode_utf8(seq!['\n', '\n']).len() + encode_utf8(b).len() + encode_utf8(seq!['\n', '\n']).len()
            + encode_utf8(c).len(),
{
    let nl = seq!['\n', '\n'];
    lemma_encode_concat(a + nl + b + nl, c);
    lemma_encode_concat(a + nl + b, nl);
    lemma_encode_concat(a + nl, b);
    lemma_encode_concat(a, nl);
}

proof fn lemma_changelog_cut_shorter(parts: Parts, level: nat)
    requires
        parts.len() >= 3,
    ensures
        encode_utf8(changelog_text(truncated(parts, level))).len() <= encode_utf8(changelog_text(parts)).len(),
{
    let t = truncated(parts, level);
    lemma_truncated_group(parts[0], level, seq![' ']);
    lemma_truncated_group(parts[1], level, seq!['\n', '\n']);
    lemma_truncated_group(parts[2], level, seq![' ']);
    lemma_changelog_parts_len(seq_join(t[0], seq![' ']), seq_join(t[1], seq!['\n', '\n']), seq_join(t[2], seq![' ']));
    lemma_changelog_parts_len(seq_join(parts[0], seq![' ']), seq_join(parts[1], seq!['\n', '\n']), seq_join(parts[2], seq![' ']));
}

proof fn lemma_changelog_selection(parts: Parts, limit: nat, level: nat)
    requires
        parts.len() >= 3,
        level >= 1,
        encode_utf8(changelog_text(parts)).len() <= limit,
        limit <= usize::MAX,
    ensures
        selection(&ChangelogBuilder, parts, limit, level) == truncated(parts, (if level > max_len(parts) { level } else { max_len(parts) + 1 }) as nat),
    decreases max_len(parts) + 1 - level,
{
    lemma_changelog_cut_shorter(parts, level);
    if level <= max_len(parts) {
        lemma_changelog_selection(parts, limit, level + 1);
    }
}

/// A changelog whose whole message fits is shown whole, with no link added.
pub proof fn fitting_changelog_is_whole(parts: Parts, limit: nat, link: Option<(Seq<char>, nat)>)
    requires
        parts.len() >= 3,
        encode_utf8(changelog_text(parts)).len() <= limit,
        limit <= usize::MAX,
    ensures
        limited(&ChangelogBuilder, parts, limit, link) == Some(changelog_text(parts)),
{
    lemma_changelog_selection(parts, limit, 1);
    lemma_max_len(parts);
    let k = if 1 > max_len(parts) { 1 } else { max_len(parts) + 1 };
    assert(truncated(parts, k as nat) =~= parts);
}

/// Whether `kept`, each group a prefix of the same group of `comps`, is all of `comps`.
fn is_whole(kept: &Vec<Vec<String>>, comps: &Vec<Vec<String>>) -> (r: bool)
    ensures
        r == (kept@.len() == comps@.len() && forall|i: int|
            0 <= i < comps@.len() ==> #[trigger] kept@[i]@.len() == comps@[i]@.len()),
{
    if kept.len() != comps.len() {
        return false;
    }
    let mut i: usize = 0;
    while i < comps.len()
        invariant
            i <= comps@.len(),
            kept@.len() == comps@.len(),
            forall|j: int| 0 <= j < i ==> #[trigger] kept@[j]@.len() == comps@[j]@.len(),
        decreases comps@.len() - i,
    {
        if kept[i].len() != comps[i].len() {
            return false;
        }
        i = i + 1;
    }
    true
}

/// Builds a message from `components` that stays within `limit` bytes: every group is cut
/// to the same number of leading components, as many as fit. Where something was cut and
/// `link` names a url and a group, a "[... See more](url)" link is added to that group;
/// where there is no room for it, the result is an error.
pub fn limit_content_and_see_more<B: MessageBuilder>(
    limit: usize,
    components: &Vec<Vec<String>>,
    builder: &B,
    link: Option<(&str, usize)>,
) -> (r: Result<String, DoomError>)
    requires
        builder.spec_accepts(components@.len()),
        builder.spec_accepts(0),
        forall|i: int| 0 <= i < components@.len() ==> #[trigger] components@[i]@.len() < usize::MAX,
    ensures
        limited(builder, components.deep_view(), limit as nat, link_view(link)) matches Some(m)
            ==> (r matches Ok(s) && s@ == m),
        limited(builder, components.deep_view(), limit as nat, link_view(link)) is None ==> (r matches Err(
            DoomError::NotImplementedError { functionality },
        ) && functionality@ == no_room_for_link()),
{
    let ghost parts = components.deep_view();
    let ghost lim = limit as nat;
    proof {
        lemma_max_len(parts);
        assert forall|i: int| 0 <= i < parts.len() implies #[trigger] parts[i].len() < usize::MAX by {
            assert(parts[i] == views(components@[i]@));
        }
    }
    let mut level: usize = 0;
    let mut complete = false;
    let mut prev: Vec<Vec<String>> = Vec::new();
    let mut current: Vec<Vec<String>> = Vec::new();
    loop
        invariant_except_break
            level == 0 ==> !complete && current@.len() == 0,
            level >= 1 ==> {
                &&& current.deep_view() == truncated(parts, level as nat)
                &&& complete == (level > max_len(parts))
                &&& fits(builder, truncated(parts, level as nat), lim)
                &&& selection(builder, parts, lim, 1) == selection(builder, parts, lim, level as nat)
            },
            !complete,
            level <= max_len(parts),
        invariant
            parts == components.deep_view(),
            forall|i: int| 0 <= i < parts.len() ==> #[trigger] parts[i].len() <= max_len(parts),
            parts.len() > 0 ==> exists|i: int| 0 <= i < parts.len() && #[trigger] parts[i].len() == max_len(parts),
            parts.len() == 0 ==> max_len(parts) == 0,
            max_len(parts) < usize::MAX,
            lim == limit as nat,
            builder.spec_accepts(components@.len()),
            builder.spec_accepts(0),
        ensures
            current.deep_view() == selection(builder, parts, lim, 1),
            current@.len() == 0 || current@.len() == parts.len(),
            forall|i: int| 0 <= i < current@.len() ==> #[trigger] current.deep_view()[i].len() <= parts[i].len()
                && current.deep_view()[i] == parts[i].take(current.deep_view()[i].len() as int),
        decreases max_len(parts) + 1 - level,
    {
        let ghost old_level = level as nat;
        level = level + 1;
        let (next, longer) = truncate_components(components, level);
        complete = !longer;
        prev = current;
        current = next;
        proof {
            if longer {
                let j = choose|j: int| 0 <= j < components@.len() && #[trigger] components@[j]@.len() >= level;
                assert(parts[j] == views(components@[j]@));
            } else if level <= max_len(parts) {
                let j = choose|j: int| 0 <= j < parts.len() && #[trigger] parts[j].len() == max_len(parts);
                assert(parts[j] == views(components@[j]@));
            }
            assert(complete == (level > max_len(parts)));
            if old_level >= 1 {
                assert(selection(builder, parts, lim, old_level) == selection(builder, parts, lim, level as nat));
            }
        }
        let message = builder.build(&current);
        let message_len = message.as_str().len();
        assert(message_len == byte_len(builder.spec_build(truncated(parts, level as nat))));
        if message_len > limit {
            current = prev;
            proof {
                if old_level >= 1 {
                    assert(current.deep_view() == truncated(parts, old_level));
                }
                assert forall|i: int| 0 <= i < current@.len() implies #[trigger] current.deep_view()[i].len() <= parts[i].len()
                    && current.deep_view()[i] == parts[i].take(current.deep_view()[i].len() as int) by {
                    assert(current.deep_view() == truncated(parts, old_level));
                }
            }
            break;
        }
        if complete {
            proof {
                assert forall|i: int| 0 <= i < current@.len() implies #[trigger] current.deep_view()[i].len() <= parts[i].len()
                    && current.deep_view()[i] == parts[i].take(current.deep_view()[i].len() as int) by {
                    assert(parts[i].len() <= max_len(parts));
                    assert(current.deep_view()[i] == parts[i]);
                    assert(parts[i].take(parts[i].len() as int) =~= parts[i]);
                }
            }
            break;
        }
    }

    let whole = is_whole(&current, components);
    let ghost kept = current.deep_view();
    proof {
        if whole {
            assert(kept =~= parts) by {
                assert forall|i: int| 0 <= i < parts.len() implies kept[i] == parts[i] by {
                    assert(kept[i].len() == current@[i]@.len());
                    assert(parts[i].len() == components@[i]@.len());
                    assert(parts[i].take(parts[i].len() as int) =~= parts[i]);
                }
            }
        } else {
            if kept =~= parts {
                assert(current@.len() == components@.len());
                assert forall|i: int| 0 <= i < components@.len() implies #[trigger] current@[i]@.len() == components@[i]@.len() by {
                    assert(kept[i].len() == current@[i]@.len());
                    assert(parts[i].len() == components@[i]@.len());
                }
                assert(false);
            }
        }
    }
    let message = builder.build(&current);
    match link {
        Some((url, pos)) => {
            if whole {
                return Ok(message);
            }
            let mut href = String::from_str("[... See more](");
            href.append(url);
            href.append(")");
            let href_len = href.as_str().len();
            let message_len = message.as_str().len();
            if !(href_len < limit && message_len < limit - href_len) {
                return Err(DoomError::NotImplementedError {
                    functionality: String::from_str("Handling of Insufficient Space for Link"),
                });
            }
            let mut local = current;
            let ghost before = kept;
            assert(local@.len() == before.len());
            while local.len() < pos
                invariant
                    local@.len() >= before.len(),
                    before.len() <= pos ==> local@.len() <= pos,
                    before.len() > pos ==> local@.len() == before.len(),
                    forall|j: int| 0 <= j < before.len() ==> #[trigger] local@[j].deep_view() == before[j],
                    forall|j: int| before.len() <= j < local@.len() ==> #[trigger] local@[j].deep_view()
                        == seq![Seq::<char>::empty()],
                decreases pos - local@.len(),
            {
                let mut pad: Vec<String> = Vec::new();
                pad.push(String::new());
                assert(pad.deep_view() =~= seq![Seq::<char>::empty()]);
                local.push(pad);
            }
            if local.len() == pos {
                local.push(Vec::new());
                assert(local@[pos as int].deep_view() =~= Seq::<Seq<char>>::empty());
            }
            let ghost padded = local@;
            let mut group = local.remove(pos);
            let ghost group_before = group.deep_view();
            group.push(href);
            assert(group.deep_view() =~= group_before.push(see_more(url@)));
            local.insert(pos, group);
            proof {
                let target = with_link(before, pos as nat, see_more(url@));
                assert(local@.len() == target.len());
                assert forall|j: int| 0 <= j < local@.len() implies #[trigger] local.deep_view()[j] == target[j] by {
                    assert(local.deep_view()[j] == local@[j].deep_view());
                    if j != pos {
                        assert(local@[j] == padded[j]);
                    }
                    if before.len() <= pos && j < before.len() {
                        assert(target[j] == before[j]);
                    }
                }
                assert(local.deep_view() =~= target);
            }
            if !builder.accepts(local.len()) {
                return Err(DoomError::NotImplementedError {
                    functionality: String::from_str("Handling of Insufficient Space for Link"),
                });
            }
            Ok(builder.build(&local))
        },
        None => Ok(message),
    }
}

} // verus!
