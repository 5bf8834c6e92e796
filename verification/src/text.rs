//! Text building blocks: character sequences, decimal numbers and joining.

use vstd::prelude::*;
use vstd::string::*;
use vstd::std_specs::iter::IteratorSpec;

verus! {

/// Appending a character to a `String` adds it at the end of its characters.
pub assume_specification[ String::push ](s: &mut String, ch: char)
    ensures
        final(s)@ == old(s)@.push(ch),
;

/// The character of a decimal digit `d` (0 to 9).
pub open spec fn digit_char(d: nat) -> char {
    ((48 + d) as u32) as char
}

/// The decimal representation of `n`, most significant digit first.
pub open spec fn decimal(n: nat) -> Seq<char>
    decreases n,
{
    if n < 10 {
        seq![digit_char(n)]
    } else {
        decimal(n / 10).push(digit_char(n % 10))
    }
}

/// The strings of `list`, separated by `sep`.
pub open spec fn seq_join(list: Seq<Seq<char>>, sep: Seq<char>) -> Seq<char>
    decreases list.len(),
{
    if list.len() == 0 {
        Seq::empty()
    } else if list.len() == 1 {
        list[0]
    } else {
        seq_join(list.drop_last(), sep) + sep + list.last()
    }
}

/// The views of a vector of strings.
pub open spec fn views(v: Seq<String>) -> Seq<Seq<char>> {
    v.map_values(|s: String| s@)
}

/// The number of bytes of the UTF-8 encoding of `s`, as `str::len` reports it.
pub open spec fn byte_len(s: Seq<char>) -> usize {
    vstd::utf8::encode_utf8(s).len() as usize
}

/// The characters of `s`, in order.
pub fn chars_of(s: &str) -> (v: Vec<char>)
    ensures
        v@ == s@,
{
    broadcast use vstd::string::group_string_axioms;

    let mut v: Vec<char> = Vec::new();
    for c in it: s.chars()
        invariant
            v@ == it.seq().take(it.index() as int),
    {
        v.push(c);
        assert(v@ =~= it.seq().take(it.index() + 1));
    }
    assert(v@ =~= s@);
    v
}

/// A string made of the characters of `v`.
pub fn string_of(v: &Vec<char>) -> (s: String)
    ensures
        s@ == v@,
{
    let mut s = String::new();
    let mut i: usize = 0;
    while i < v.len()
        invariant
            i <= v.len(),
            s@ == v@.subrange(0, i as int),
        decreases v.len() - i,
    {
        s.push(v[i]);
        i = i + 1;
        assert(s@ =~= v@.subrange(0, i as int));
    }
    assert(v@.subrange(0, v.len() as int) =~= v@);
    s
}

/// The decimal representation of `n`.
pub fn decimal_string(n: u64) -> (s: String)
    ensures
        s@ == decimal(n as nat),
{
    // digits from least to most significant
    let mut rev: Vec<char> = Vec::new();
    let mut m: u64 = n;
    let ghost mut acc: Seq<char> = Seq::empty();
    loop
        invariant_except_break
            decimal(n as nat) == decimal(m as nat) + acc,
        invariant
            rev@.len() == acc.len(),
            forall|i: int| 0 <= i < acc.len() ==> #[trigger] rev@[i] == acc[acc.len() - 1 - i],
        ensures
            acc == decimal(n as nat),
        decreases m,
    {
        let d = m % 10;
        let c = char_of_digit(d);
        let ghost old_acc = acc;
        proof {
            if m >= 10 {
                assert(decimal(m as nat) == decimal((m / 10) as nat).push(digit_char((m % 10) as nat)));
                assert(decimal(m as nat) + old_acc =~= decimal((m / 10) as nat) + (seq![c] + old_acc));
            } else {
                assert(decimal(m as nat) == seq![c]);
                assert(decimal(m as nat) + old_acc =~= seq![c] + old_acc);
            }
            acc = seq![c] + old_acc;
        }
        rev.push(c);
        m = m / 10;
        if m == 0 {
            break;
        }
    }
    let mut out = String::new();
    let mut k: usize = rev.len();
    while k > 0
        invariant
            k <= rev@.len(),
            rev@.len() == acc.len(),
            forall|i: int| 0 <= i < acc.len() ==> #[trigger] rev@[i] == acc[acc.len() - 1 - i],
            out@ == acc.subrange(0, acc.len() - k),
        decreases k,
    {
        k = k - 1;
        out.push(rev[k]);
        assert(out@ =~= acc.subrange(0, acc.len() - k));
    }
    assert(acc.subrange(0, acc.len() as int) =~= acc);
    out
}

/// The character of the decimal digit `d`.
pub fn char_of_digit(d: u64) -> (c: char)
    requires
        d < 10,
    ensures
        c == digit_char(d as nat),
{
    if d == 0 { '0' }
    else if d == 1 { '1' }
    else if d == 2 { '2' }
    else if d == 3 { '3' }
    else if d == 4 { '4' }
    else if d == 5 { '5' }
    else if d == 6 { '6' }
    else if d == 7 { '7' }
    else if d == 8 { '8' }
    else { '9' }
}

/// The strings of `parts`, separated by `sep`.
pub fn join(parts: &Vec<String>, sep: &str) -> (s: String)
    ensures
        s@ == seq_join(views(parts@), sep@),
{
    let mut s = String::new();
    let ghost list = views(parts@);
    let mut i: usize = 0;
    while i < parts.len()
        invariant
            i <= parts.len(),
            list == views(parts@),
            s@ == seq_join(list.take(i as int), sep@),
        decreases parts.len() - i,
    {
        let ghost prev = list.take(i as int);
        if i != 0 {
            s.append(sep);
        }
        s.append(parts[i].as_str());
        proof {
            let next = list.take(i + 1);
            assert(next.drop_last() =~= prev);
            assert(next.last() == parts@[i as int]@);
            if i == 0 {
                assert(next.len() == 1);
            }
        }
        i = i + 1;
    }
    assert(list.take(parts.len() as int) =~= list);
    s
}

/// Whether `a` and `b` hold the same characters.
pub fn text_eq(a: &str, b: &str) -> (r: bool)
    ensures
        r == (a@ == b@),
{
    let x = chars_of(a);
    let y = chars_of(b);
    if x.len() != y.len() {
        return false;
    }
    let mut i: usize = 0;
    while i < x.len()
        invariant
            i <= x@.len(),
            x@.len() == y@.len(),
            x@ == a@,
            y@ == b@,
            forall|j: int| 0 <= j < i ==> x@[j] == y@[j],
        decreases x@.len() - i,
    {
        if x[i] != y[i] {
            assert(x@[i as int] != y@[i as int]);
            assert(a@ != b@) by {
                if a@ == b@ {
                    assert(x@[i as int] == y@[i as int]);
                }
            }
            return false;
        }
        i = i + 1;
    }
    assert(x@ =~= y@);
    true
}

/// Whether `needle` occurs in `hay` at position `i`.
pub open spec fn occurs_at(hay: Seq<char>, needle: Seq<char>, i: int) -> bool {
    0 <= i && i + needle.len() <= hay.len() && hay.subrange(i, i + needle.len()) == needle
}

/// Whether `needle` occurs somewhere in `hay`.
pub open spec fn contains_text(hay: Seq<char>, needle: Seq<char>) -> bool {
    exists|i: int| occurs_at(hay, needle, i)
}

/// The first position, at `start` or later, where `needle` occurs in `hay`.
pub fn find_from(hay: &Vec<char>, needle: &Vec<char>, start: usize) -> (r: Option<usize>)
    ensures
        r matches Some(i) ==> start <= i && occurs_at(hay@, needle@, i as int) && forall|j: int|
            start <= j < i ==> !occurs_at(hay@, needle@, j),
        r is None ==> forall|j: int| start <= j ==> !occurs_at(hay@, needle@, j),
{
    if needle.len() > hay.len() || start > hay.len() - needle.len() {
        return None;
    }
    let last = hay.len() - needle.len();
    let mut i = start;
    loop
        invariant
            start <= i <= last,
            hay@.len() <= usize::MAX,
            last == hay@.len() - needle@.len(),
            forall|j: int| start <= j < i ==> !occurs_at(hay@, needle@, j),
        decreases last - i,
    {
        let mut k: usize = 0;
        while k < needle.len() && hay[i + k] == needle[k]
            invariant
                k <= needle@.len(),
                i <= last,
                hay@.len() <= usize::MAX,
                last == hay@.len() - needle@.len(),
                forall|m: int| 0 <= m < k ==> hay@[i + m] == needle@[m],
            decreases needle@.len() - k,
        {
            k = k + 1;
        }
        if k == needle.len() {
            assert(hay@.subrange(i as int, i + needle@.len()) =~= needle@);
            return Some(i);
        }
        assert(!occurs_at(hay@, needle@, i as int)) by {
            if occurs_at(hay@, needle@, i as int) {
                assert(hay@.subrange(i as int, i + needle@.len())[k as int] == needle@[k as int]);
            }
        }
        if i == last {
            return None;
        }
        i = i + 1;
    }
}

/// Whether `c` has the Unicode White_Space property, which `char::is_whitespace` and
/// `str::trim` go by.
pub open spec fn is_white_space(c: char) -> bool {
    let v = c as u32;
    (0x09 <= v <= 0x0d) || v == 0x20 || v == 0x85 || v == 0xa0 || v == 0x1680 || (0x2000 <= v
        <= 0x200a) || v == 0x2028 || v == 0x2029 || v == 0x202f || v == 0x205f || v == 0x3000
}

/// Whether `c` has the Unicode White_Space property.
pub fn white_space(c: char) -> (r: bool)
    ensures
        r == is_white_space(c),
{
    let v = c as u32;
    (0x09 <= v && v <= 0x0d) || v == 0x20 || v == 0x85 || v == 0xa0 || v == 0x1680 || (0x2000 <= v
        && v <= 0x200a) || v == 0x2028 || v == 0x2029 || v == 0x202f || v == 0x205f || v == 0x3000
}

/// `s` without the white space at its start.
pub open spec fn trim_start_ws(s: Seq<char>) -> Seq<char>
    decreases s.len(),
{
    if s.len() > 0 && is_white_space(s[0]) {
        trim_start_ws(s.drop_first())
    } else {
        s
    }
}

/// `s` without the white space at its end.
pub open spec fn trim_end_ws(s: Seq<char>) -> Seq<char>
    decreases s.len(),
{
    if s.len() > 0 && is_white_space(s.last()) {
        trim_end_ws(s.drop_last())
    } else {
        s
    }
}

/// `s` without the white space at both ends, as `str::trim` gives it.
pub open spec fn trim_text(s: Seq<char>) -> Seq<char> {
    trim_end_ws(trim_start_ws(s))
}

proof fn lemma_trim_start(s: Seq<char>, k: int)
    requires
        0 <= k <= s.len(),
        forall|i: int| 0 <= i < k ==> is_white_space(#[trigger] s[i]),
        k == s.len() || !is_white_space(s[k]),
    ensures
        trim_start_ws(s) == s.subrange(k, s.len() as int),
    decreases k,
{
    if k > 0 {
        let t = s.drop_first();
        assert forall|i: int| 0 <= i < k - 1 implies is_white_space(#[trigger] t[i]) by {
            assert(t[i] == s[i + 1]);
        }
        if k < s.len() {
            assert(t[k - 1] == s[k]);
        }
        lemma_trim_start(t, k - 1);
        assert(t.subrange(k - 1, t.len() as int) =~= s.subrange(k, s.len() as int));
    } else {
        assert(s.subrange(0, s.len() as int) =~= s);
    }
}

proof fn lemma_trim_end(s: Seq<char>, k: int)
    requires
        0 <= k <= s.len(),
        forall|i: int| k <= i < s.len() ==> is_white_space(#[trigger] s[i]),
        k == 0 || !is_white_space(s[k - 1]),
    ensures
        trim_end_ws(s) == s.subrange(0, k),
    decreases s.len() - k,
{
    if k < s.len() {
        let t = s.drop_last();
        assert forall|i: int| k <= i < t.len() implies is_white_space(#[trigger] t[i]) by {
            assert(t[i] == s[i]);
        }
        if k > 0 {
            assert(t[k - 1] == s[k - 1]);
        }
        lemma_trim_end(t, k);
        assert(t.subrange(0, k) =~= s.subrange(0, k));
    } else {
        assert(s.subrange(0, k) =~= s);
    }
}

/// The characters of `v` from `start` to `end`, as a string.
pub fn string_of_range(v: &Vec<char>, start: usize, end: usize) -> (s: String)
    requires
        start <= end <= v@.len(),
    ensures
        s@ == v@.subrange(start as int, end as int),
{
    let mut s = String::new();
    let mut i: usize = start;
    while i < end
        invariant
            start <= i <= end,
            end <= v@.len(),
            s@ == v@.subrange(start as int, i as int),
        decreases end - i,
    {
        s.push(v[i]);
        i = i + 1;
        assert(s@ =~= v@.subrange(start as int, i as int));
    }
    s
}

/// The characters of `v` from `start` to `end` without the white space at both ends.
pub fn trim_range(v: &Vec<char>, start: usize, end: usize) -> (s: String)
    requires
        start <= end <= v@.len(),
    ensures
        s@ == trim_text(v@.subrange(start as int, end as int)),
{
    let ghost w = v@.subrange(start as int, end as int);
    let mut a = start;
    while a < end && white_space(v[a])
        invariant
            start <= a <= end,
            end <= v@.len(),
            w == v@.subrange(start as int, end as int),
            forall|i: int| 0 <= i < a - start ==> is_white_space(#[trigger] w[i]),
        decreases end - a,
    {
        a = a + 1;
    }
    let ghost u = v@.subrange(a as int, end as int);
    proof {
        if a < end {
            assert(w[a - start] == v@[a as int]);
        }
        lemma_trim_start(w, a - start);
        assert(w.subrange(a - start, w.len() as int) =~= u);
    }
    let mut b = end;
    while b > a && white_space(v[b - 1])
        invariant
            start <= a <= b <= end,
            end <= v@.len(),
            u == v@.subrange(a as int, end as int),
            forall|i: int| b - a <= i < u.len() ==> is_white_space(#[trigger] u[i]),
        decreases b - a,
    {
        assert(u[b - 1 - a] == v@[b - 1]);
        b = b - 1;
    }
    let s = string_of_range(v, a, b);
    proof {
        if b > a {
            assert(u[b - 1 - a] == v@[b - 1]);
        }
        lemma_trim_end(u, b - a);
        assert(s@ =~= u.subrange(0, b - a));
    }
    s
}

/// `s` without the white space at both ends.
pub fn trim(s: &str) -> (t: String)
    ensures
        t@ == trim_text(s@),
{
    let v = chars_of(s);
    let t = trim_range(&v, 0, v.len());
    assert(v@.subrange(0, v@.len() as int) =~= s@);
    t
}

/// `line` without a '\r' at its end.
pub open spec fn strip_cr(line: Seq<char>) -> Seq<char> {
    if line.len() > 0 && line.last() == '\r' {
        line.drop_last()
    } else {
        line
    }
}

/// The lines of `s` ended by a '\n' (each without it, and without a '\r' right before it),
/// and the characters after the last '\n'.
pub open spec fn scan_lines(s: Seq<char>) -> (Seq<Seq<char>>, Seq<char>)
    decreases s.len(),
{
    if s.len() == 0 {
        (Seq::empty(), Seq::empty())
    } else {
        let (done, current) = scan_lines(s.drop_last());
        if s.last() == '\n' {
            (done.push(strip_cr(current)), Seq::empty())
        } else {
            (done, current.push(s.last()))
        }
    }
}

/// The lines of `s`, as `str::lines` gives them: split at each '\n' (dropping a '\r' right
/// before it), with a last line only where characters follow the last '\n'.
pub open spec fn lines_of(s: Seq<char>) -> Seq<Seq<char>> {
    let (done, current) = scan_lines(s);
    if current.len() > 0 {
        done.push(current)
    } else {
        done
    }
}

/// The lines of `s`.
pub fn lines(s: &str) -> (r: Vec<String>)
    ensures
        views(r@) == lines_of(s@),
{
    let v = chars_of(s);
    let mut done: Vec<String> = Vec::new();
    let mut current: Vec<char> = Vec::new();
    let mut i: usize = 0;
    while i < v.len()
        invariant
            i <= v@.len(),
            v@ == s@,
            (views(done@), current@) == scan_lines(v@.subrange(0, i as int)),
        decreases v@.len() - i,
    {
        assert(v@.subrange(0, i + 1).drop_last() =~= v@.subrange(0, i as int));
        if v[i] == '\n' {
            let mut end = current.len();
            if end > 0 && current[end - 1] == '\r' {
                end = end - 1;
            }
            let line = string_of_range(&current, 0, end);
            proof {
                if current@.len() > 0 && current@.last() == '\r' {
                    assert(line@ =~= strip_cr(current@));
                } else {
                    assert(line@ =~= strip_cr(current@));
                }
            }
            let ghost before = done@;
            done.push(line);
            assert(views(done@) =~= views(before).push(strip_cr(current@)));
            current = Vec::new();
        } else {
            current.push(v[i]);
        }
        i = i + 1;
    }
    assert(v@.subrange(0, v@.len() as int) =~= s@);
    if current.len() > 0 {
        let last = string_of(&current);
        let ghost before = done@;
        done.push(last);
        assert(views(done@) =~= views(before).push(current@));
    }
    done
}

/// `s` without the characters `c` at its start, as `str::trim_start_matches` with a
/// character gives it.
pub open spec fn without_leading(s: Seq<char>, c: char) -> Seq<char>
    decreases s.len(),
{
    if s.len() > 0 && s[0] == c {
        without_leading(s.drop_first(), c)
    } else {
        s
    }
}

proof fn lemma_without_leading(s: Seq<char>, c: char, k: int)
    requires
        0 <= k <= s.len(),
        forall|i: int| 0 <= i < k ==> s[i] == c,
    ensures
        without_leading(s, c) == without_leading(s.subrange(k, s.len() as int), c),
    decreases k,
{
    if k > 0 {
        assert(s.drop_first().subrange(k - 1, s.drop_first().len() as int) =~= s.subrange(k, s.len() as int));
        lemma_without_leading(s.drop_first(), c, k - 1);
    } else {
        assert(s.subrange(0, s.len() as int) =~= s);
    }
}

/// `s` without the characters `c` at its start.
pub fn trim_start_char(s: &str, c: char) -> (r: String)
    ensures
        r@ == without_leading(s@, c),
{
    let v = chars_of(s);
    let mut k: usize = 0;
    while k < v.len() && v[k] == c
        invariant
            k <= v@.len(),
            forall|i: int| 0 <= i < k ==> v@[i] == c,
        decreases v@.len() - k,
    {
        k = k + 1;
    }
    proof {
        lemma_without_leading(v@, c, k as int);
        let rest = v@.subrange(k as int, v@.len() as int);
        if rest.len() > 0 {
            assert(rest[0] == v@[k as int]);
        }
        assert(without_leading(rest, c) == rest);
    }
    string_of_range(&v, k, v.len())
}

/// The number of bytes of the UTF-8 encoding of the first `k` characters of `s`.
pub open spec fn prefix_bytes(s: Seq<char>, k: int) -> nat {
    vstd::utf8::encode_utf8(s.take(k)).len()
}

/// The number of bytes of the UTF-8 encoding of `c`.
pub open spec fn char_width(c: char) -> nat {
    let v = c as u32;
    if v <= 0x7f {
        1
    } else if v <= 0x7ff {
        2
    } else if v <= 0xffff {
        3
    } else {
        4
    }
}

/// The UTF-8 encoding of two texts one after the other is their encodings one after the other.
pub proof fn lemma_encode_concat(a: Seq<char>, b: Seq<char>)
    ensures
        vstd::utf8::encode_utf8(a + b) == vstd::utf8::encode_utf8(a) + vstd::utf8::encode_utf8(b),
    decreases a.len(),
{
    if a.len() == 0 {
        assert(a + b =~= b);
        assert(vstd::utf8::encode_utf8(a) =~= Seq::<u8>::empty());
        assert(vstd::utf8::encode_utf8(a) + vstd::utf8::encode_utf8(b) =~= vstd::utf8::encode_utf8(b));
    } else {
        assert((a + b).drop_first() =~= a.drop_first() + b);
        assert((a + b)[0] == a[0]);
        lemma_encode_concat(a.drop_first(), b);
        assert(vstd::utf8::encode_utf8(a + b) =~= vstd::utf8::encode_scalar(a[0] as u32)
            + vstd::utf8::encode_utf8(a.drop_first() + b));
    }
}

proof fn lemma_prefix_step(s: Seq<char>, k: int)
    requires
        0 <= k < s.len(),
    ensures
        prefix_bytes(s, k + 1) == prefix_bytes(s, k) + char_width(s[k]),
{
    broadcast use vstd::utf8::char_is_scalar;

    assert(s.take(k + 1) =~= s.take(k) + seq![s[k]]);
    lemma_encode_concat(s.take(k), seq![s[k]]);
    let one = seq![s[k]];
    assert(one.drop_first() =~= Seq::<char>::empty());
    assert(vstd::utf8::encode_utf8(one.drop_first()) =~= Seq::<u8>::empty());
    assert(one[0] == s[k]);
    assert(vstd::utf8::encode_utf8(one) =~= vstd::utf8::encode_scalar(s[k] as u32));
    vstd::utf8::char_is_scalar(s[k]);
}

proof fn lemma_prefix_monotone(s: Seq<char>, j: int, k: int)
    requires
        0 <= j <= k <= s.len(),
    ensures
        prefix_bytes(s, j) + (k - j) <= prefix_bytes(s, k),
    decreases k - j,
{
    if j < k {
        lemma_prefix_monotone(s, j, k - 1);
        lemma_prefix_step(s, k - 1);
    }
}

/// Two prefixes of `s` with the same number of bytes have the same number of characters.
pub proof fn lemma_prefix_unique(s: Seq<char>, j: int, k: int)
    requires
        0 <= j <= s.len(),
        0 <= k <= s.len(),
        prefix_bytes(s, j) == prefix_bytes(s, k),
    ensures
        j == k,
{
    if j < k {
        lemma_prefix_monotone(s, j, k);
    } else if k < j {
        lemma_prefix_monotone(s, k, j);
    }
}

fn width_of(c: char) -> (w: u8)
    ensures
        w as nat == char_width(c),
{
    let v = c as u32;
    if v <= 0x7f {
        1
    } else if v <= 0x7ff {
        2
    } else if v <= 0xffff {
        3
    } else {
        4
    }
}

/// The number of characters of `v` whose UTF-8 encoding takes `byte` bytes; none where
/// `byte` falls inside a character or past the end.
pub fn char_index_of_byte(v: &Vec<char>, byte: usize) -> (r: Option<usize>)
    ensures
        r matches Some(k) ==> k <= v@.len() && prefix_bytes(v@, k as int) == byte,
        r is None ==> forall|k: int| 0 <= k <= v@.len() ==> prefix_bytes(v@, k) != byte,
{
    let mut acc: u128 = 0;
    let mut k: usize = 0;
    proof {
        assert(v@.take(0) =~= Seq::<char>::empty());
    }
    while k < v.len() && acc < byte as u128
        invariant
            k <= v@.len(),
            acc == prefix_bytes(v@, k as int),
            k > 0 ==> prefix_bytes(v@, k - 1) < byte,
        decreases v@.len() - k,
    {
        proof {
            lemma_prefix_step(v@, k as int);
        }
        acc = acc + width_of(v[k]) as u128;
        k = k + 1;
    }
    if acc == byte as u128 {
        return Some(k);
    }
    proof {
        assert forall|j: int| 0 <= j <= v@.len() implies prefix_bytes(v@, j) != byte by {
            if j <= k {
                if j < k {
                    lemma_prefix_monotone(v@, j, k - 1);
                }
            } else {
                lemma_prefix_monotone(v@, k as int, j);
            }
        }
    }
    None
}

/// A copy of `s`.
pub fn copy_text(s: &str) -> (r: String)
    ensures
        r@ == s@,
{
    String::from_str(s)
}

} // verus!
