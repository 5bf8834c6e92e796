//! Human-readable durations.

use vstd::prelude::*;
use vstd::string::*;
use crate::text::{decimal, decimal_string, digit_char, join, seq_join, views};

verus! {

/// The parts of a duration of `t` seconds: days, hours, minutes and seconds,
/// each only when it is not zero, and the seconds also when nothing else is shown.
pub open spec fn duration_parts(t: nat) -> Seq<Seq<char>> {
    let days = t / 86400;
    let hours = (t % 86400) / 3600;
    let minutes = (t % 3600) / 60;
    let secs = t % 60;
    let p1: Seq<Seq<char>> = if days != 0 { seq![decimal(days).push('d')] } else { seq![] };
    let p2 = if hours != 0 { p1.push(decimal(hours).push('h')) } else { p1 };
    let p3 = if minutes != 0 { p2.push(decimal(minutes).push('m')) } else { p2 };
    if secs != 0 || p3.len() == 0 { p3.push(decimal(secs).push('s')) } else { p3 }
}

/// A duration of `t` seconds, written as in "1d 2h 3m 4s".
pub open spec fn duration_text(t: nat) -> Seq<char> {
    seq_join(duration_parts(t), seq![' '])
}

fn unit_part(n: u64, unit: char) -> (s: String)
    ensures
        s@ == decimal(n as nat).push(unit),
{
    let mut s = decimal_string(n);
    s.push(unit);
    s
}

/// The units of a duration add up to it: `t` seconds are `t / 86400` days, then fewer than
/// 24 hours, fewer than 60 minutes and fewer than 60 seconds; and at least one unit is
/// always shown.
pub proof fn duration_parts_add_up(t: nat)
    ensures
        (t / 86400) * 86400 + ((t % 86400) / 3600) * 3600 + ((t % 3600) / 60) * 60 + t % 60 == t,
        (t % 86400) / 3600 < 24,
        (t % 3600) / 60 < 60,
        t % 60 < 60,
        duration_parts(t).len() >= 1,
{
    assert((t / 86400) * 86400 + t % 86400 == t) by (nonlinear_arith);
    assert(((t % 86400) / 3600) * 3600 + (t % 86400) % 3600 == t % 86400) by (nonlinear_arith);
    assert((t % 86400) % 3600 == t % 3600) by (nonlinear_arith);
    assert(((t % 3600) / 60) * 60 + (t % 3600) % 60 == t % 3600) by (nonlinear_arith);
    assert((t % 3600) % 60 == t % 60) by (nonlinear_arith);
    assert((t % 86400) / 3600 < 24) by (nonlinear_arith);
    assert((t % 3600) / 60 < 60) by (nonlinear_arith);
}

/// The seconds of a unit letter: a day, an hour, a minute or a second.
pub open spec fn unit_seconds(u: char) -> int {
    if u == 'd' {
        86400
    } else if u == 'h' {
        3600
    } else if u == 'm' {
        60
    } else {
        1
    }
}

/// Reading one character of a duration text, with the number read so far and the seconds
/// counted so far: a digit extends the number, a unit letter adds the number in its unit and
/// starts a new one, anything else is skipped.
pub open spec fn read_step(st: (int, int), c: char) -> (int, int) {
    if '0' <= c <= '9' {
        (st.0 * 10 + (c as int - 48), st.1)
    } else if c == 'd' || c == 'h' || c == 'm' || c == 's' {
        (0, st.1 + st.0 * unit_seconds(c))
    } else {
        st
    }
}

/// Reading the characters of `s` in order from the state `st`.
pub open spec fn read_from(s: Seq<char>, st: (int, int)) -> (int, int)
    decreases s.len(),
{
    if s.len() == 0 {
        st
    } else {
        read_step(read_from(s.drop_last(), st), s.last())
    }
}

/// The seconds that a duration text stands for: each number times the seconds of the unit
/// after it, summed.
pub open spec fn read_duration(s: Seq<char>) -> int {
    read_from(s, (0, 0)).1
}

proof fn lemma_read_concat(a: Seq<char>, b: Seq<char>, st: (int, int))
    ensures
        read_from(a + b, st) == read_from(b, read_from(a, st)),
    decreases b.len(),
{
    if b.len() == 0 {
        assert(a + b =~= a);
    } else {
        lemma_read_concat(a, b.drop_last(), st);
        assert((a + b).drop_last() =~= a + b.drop_last());
        assert((a + b).last() == b.last());
    }
}

proof fn lemma_read_decimal(n: nat, total: int)
    ensures
        read_from(decimal(n), (0, total)) == (n as int, total),
    decreases n,
{
    let d = n % 10;
    let c = digit_char(d);
    assert(c as int == 48 + d);
    assert('0' <= c <= '9');
    let prev: (int, int) = if n < 10 { (0, total) } else { ((n / 10) as int, total) };
    if n < 10 {
        assert(decimal(n) =~= seq![c]);
        assert(decimal(n).drop_last() =~= Seq::<char>::empty());
    } else {
        lemma_read_decimal(n / 10, total);
        assert(decimal(n).drop_last() =~= decimal(n / 10));
        assert((n / 10) * 10 + n % 10 == n) by (nonlinear_arith);
    }
    assert(decimal(n).last() == c);
    assert(read_from(decimal(n).drop_last(), (0, total)) == prev);
    assert(read_from(decimal(n), (0, total)) == read_step(prev, c));
    assert(read_step(prev, c) == (prev.0 * 10 + d, total));
}

proof fn lemma_read_push(list: Seq<Seq<char>>, v: nat, u: char, sum: int)
    requires
        u == 'd' || u == 'h' || u == 'm' || u == 's',
        read_from(seq_join(list, seq![' ']), (0, 0)) == (0int, sum),
    ensures
        read_from(seq_join(list.push(decimal(v).push(u)), seq![' ']), (0, 0)) == (0int, sum + v * unit_seconds(u)),
{
    let tok = decimal(v).push(u);
    let joined = seq_join(list.push(tok), seq![' ']);
    lemma_read_decimal(v, sum);
    assert(tok.drop_last() =~= decimal(v));
    assert(tok.last() == u);
    assert(!('0' <= u <= '9'));
    assert(read_from(tok, (0, sum)) == read_step((v as int, sum), u));
    assert(read_from(tok, (0, sum)) == (0int, sum + v * unit_seconds(u)));
    if list.len() == 0 {
        assert(seq_join(list, seq![' ']) =~= Seq::<char>::empty());
        assert(sum == 0);
        assert(joined == tok);
    } else {
        let front = seq_join(list, seq![' ']);
        assert(list.push(tok).drop_last() =~= list);
        assert(joined == front + seq![' '] + tok);
        lemma_read_concat(front + seq![' '], tok, (0, 0));
        lemma_read_concat(front, seq![' '], (0, 0));
        let sp: Seq<char> = seq![' '];
        assert(sp.drop_last() =~= Seq::<char>::empty());
        assert(read_from(sp.drop_last(), (0int, sum)) == (0int, sum));
        assert(sp.last() == ' ');
        assert(!('0' <= ' ' <= '9'));
        assert(read_from(sp, (0int, sum)) == read_step((0int, sum), ' '));
        assert(read_from(front + seq![' '], (0, 0)) == (0int, sum));
    }
}

/// A duration text reads back to its seconds: each number times the seconds of its unit,
/// summed, gives the duration that was formatted.
pub proof fn duration_text_reads_back(t: nat)
    ensures
        read_duration(duration_text(t)) == t as int,
{
    duration_parts_add_up(t);
    let days = t / 86400;
    let hours = (t % 86400) / 3600;
    let minutes = (t % 3600) / 60;
    let secs = t % 60;
    let p0: Seq<Seq<char>> = seq![];
    assert(seq_join(p0, seq![' ']) =~= Seq::<char>::empty());
    let p1: Seq<Seq<char>> = if days != 0 { seq![decimal(days).push('d')] } else { seq![] };
    if days != 0 {
        lemma_read_push(p0, days, 'd', 0);
        assert(p0.push(decimal(days).push('d')) =~= p1);
    }
    let s1: int = (days * 86400) as int;
    assert(read_from(seq_join(p1, seq![' ']), (0, 0)) == (0int, s1));
    let p2 = if hours != 0 { p1.push(decimal(hours).push('h')) } else { p1 };
    if hours != 0 {
        lemma_read_push(p1, hours, 'h', s1);
    }
    let s2: int = s1 + hours * 3600;
    assert(read_from(seq_join(p2, seq![' ']), (0, 0)) == (0int, s2));
    let p3 = if minutes != 0 { p2.push(decimal(minutes).push('m')) } else { p2 };
    if minutes != 0 {
        lemma_read_push(p2, minutes, 'm', s2);
    }
    let s3: int = s2 + minutes * 60;
    assert(read_from(seq_join(p3, seq![' ']), (0, 0)) == (0int, s3));
    let p4 = if secs != 0 || p3.len() == 0 { p3.push(decimal(secs).push('s')) } else { p3 };
    assert(duration_parts(t) == p4);
    if secs != 0 || p3.len() == 0 {
        lemma_read_push(p3, secs, 's', s3);
        assert(unit_seconds('s') == 1);
        assert(secs * unit_seconds('s') == secs);
    } else {
        assert(secs == 0);
    }
    assert(read_from(seq_join(p4, seq![' ']), (0, 0)) == (0int, s3 + secs));
}

/// Formats a number of seconds as days, hours, minutes and seconds, leaving out the
/// units that are zero ("14d" for two weeks, "0s" for nothing).
pub fn format_duration(total_secs: u64) -> (s: String)
    ensures
        s@ == duration_text(total_secs as nat),
{
    let mut secs = total_secs;
    let days = secs / 86_400;
    secs = secs % 86_400;
    let hours = secs / 3_600;
    secs = secs % 3_600;
    let minutes = secs / 60;
    secs = secs % 60;

    proof {
        let t = total_secs as nat;
        assert((t % 86400) % 3600 == t % 3600) by (nonlinear_arith);
        assert((t % 3600) % 60 == t % 60) by (nonlinear_arith);
    }

    let mut parts: Vec<String> = Vec::new();
    if days != 0 {
        parts.push(unit_part(days, 'd'));
    }
    if hours != 0 {
        parts.push(unit_part(hours, 'h'));
    }
    if minutes != 0 {
        parts.push(unit_part(minutes, 'm'));
    }
    if secs != 0 || parts.len() == 0 {
        parts.push(unit_part(secs, 's'));
    }
    assert(views(parts@) =~= duration_parts(total_secs as nat));
    proof {
        reveal_strlit(" ");
        assert(" "@ =~= seq![' ']);
    }
    join(&parts, " ")
}

} // verus!
