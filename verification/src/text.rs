//! Character-level models of the `str` operations the shell relies on:
//! Unicode whitespace, prefixes, substrings, trimming and line splitting,
//! each with an executable counterpart over a vector of characters.

use vstd::prelude::*;
use vstd::string::*;

verus! {

/// The characters with the Unicode `White_Space` property, which is what
/// `char::is_whitespace` tests.
pub open spec fn is_whitespace(c: char) -> bool {
    ||| c == ' '
    ||| ('\u{9}' <= c && c <= '\u{D}')
    ||| c == '\u{85}'
    ||| c == '\u{A0}'
    ||| c == '\u{1680}'
    ||| ('\u{2000}' <= c && c <= '\u{200A}')
    ||| c == '\u{2028}'
    ||| c == '\u{2029}'
    ||| c == '\u{202F}'
    ||| c == '\u{205F}'
    ||| c == '\u{3000}'
}

/// `p` is a prefix of `s`.
pub open spec fn starts_with(s: Seq<char>, p: Seq<char>) -> bool {
    p.len() <= s.len() && s.subrange(0, p.len() as int) == p
}

/// `p` occurs in `s` at position `i`.
pub open spec fn occurs_at(s: Seq<char>, p: Seq<char>, i: int) -> bool {
    0 <= i && i + p.len() <= s.len() && s.subrange(i, i + p.len()) == p
}

/// `p` occurs somewhere in `s`.
pub open spec fn contains(s: Seq<char>, p: Seq<char>) -> bool {
    exists|i: int| occurs_at(s, p, i)
}

/// `i` is the position of the first occurrence of `p` in `s`.
pub open spec fn is_first_occurrence(s: Seq<char>, p: Seq<char>, i: int) -> bool {
    &&& occurs_at(s, p, i)
    &&& forall|j: int| 0 <= j < i ==> !occurs_at(s, p, j)
}

/// The position of the first occurrence of `p` in `s`, if there is one.
pub open spec fn first_occurrence(s: Seq<char>, p: Seq<char>) -> Option<int> {
    if contains(s, p) {
        Some(choose|i: int| is_first_occurrence(s, p, i))
    } else {
        None
    }
}

/// `s` without its leading whitespace.
pub open spec fn trim_start(s: Seq<char>) -> Seq<char>
    decreases s.len(),
{
    if s.len() > 0 && is_whitespace(s[0]) {
        trim_start(s.drop_first())
    } else {
        s
    }
}

/// `s` without its trailing whitespace.
pub open spec fn trim_end(s: Seq<char>) -> Seq<char>
    decreases s.len(),
{
    if s.len() > 0 && is_whitespace(s.last()) {
        trim_end(s.drop_last())
    } else {
        s
    }
}

/// `s` without leading and trailing whitespace.
pub open spec fn trim(s: Seq<char>) -> Seq<char> {
    trim_end(trim_start(s))
}

/// A line with one trailing carriage return removed.
pub open spec fn strip_cr(l: Seq<char>) -> Seq<char> {
    if l.len() > 0 && l.last() == '\r' {
        l.drop_last()
    } else {
        l
    }
}

/// The lines of `cur + rest`, where `cur` is the unfinished line read so far:
/// a line ends at `\n` (a carriage return just before it is dropped), and a
/// last line without `\n` counts only when it is not empty.
pub open spec fn lines_from(cur: Seq<char>, rest: Seq<char>) -> Seq<Seq<char>>
    decreases rest.len(),
{
    if rest.len() == 0 {
        if cur.len() == 0 {
            Seq::empty()
        } else {
            seq![cur]
        }
    } else if rest[0] == '\n' {
        seq![strip_cr(cur)] + lines_from(Seq::empty(), rest.drop_first())
    } else {
        lines_from(cur.push(rest[0]), rest.drop_first())
    }
}

/// The lines of `s`, as `str::lines` yields them.
pub open spec fn lines_of(s: Seq<char>) -> Seq<Seq<char>> {
    lines_from(Seq::empty(), s)
}

/// The lines `ls` joined with `\n` between them, as `join("\n")` does.
pub open spec fn join_lines(ls: Seq<Seq<char>>) -> Seq<char>
    decreases ls.len(),
{
    if ls.len() == 0 {
        Seq::empty()
    } else if ls.len() == 1 {
        ls[0]
    } else {
        join_lines(ls.drop_last()) + seq!['\n'] + ls.last()
    }
}

/// The pieces of `s` that a list of index ranges selects.
pub open spec fn slices(s: Seq<char>, rs: Seq<(usize, usize)>) -> Seq<Seq<char>> {
    rs.map_values(|r: (usize, usize)| s.subrange(r.0 as int, r.1 as int))
}

/// Every range lies within a text of length `n`.
pub open spec fn ranges_within(rs: Seq<(usize, usize)>, n: int) -> bool {
    forall|k: int| #![trigger rs[k]] 0 <= k < rs.len() ==> rs[k].0 <= rs[k].1 && rs[k].1 <= n
}

/// The texts of a list of strings.
pub open spec fn texts(v: Seq<String>) -> Seq<Seq<char>> {
    v.map_values(|s: String| s@)
}

/// The texts of a list of name and value pairs.
pub open spec fn pair_texts(v: Seq<(String, String)>) -> Seq<(Seq<char>, Seq<char>)> {
    v.map_values(|p: (String, String)| (p.0@, p.1@))
}

/// Copies the characters of `s` into a vector.
pub fn chars_of(s: &str) -> (v: Vec<char>)
    ensures
        v@ == s@,
{
    let mut v: Vec<char> = Vec::new();
    let ghost full = s@;
    for c in it: s.chars()
        invariant
            it.seq() == full,
            v@ == full.take(it.index()),
    {
        v.push(c);
        assert(full.take(it.index() + 1) == full.take(it.index()).push(c));
    }
    assert(full.take(full.len() as int) == full);
    v
}

/// `char::is_whitespace`.
pub fn is_whitespace_char(c: char) -> (b: bool)
    ensures
        b == is_whitespace(c),
{
    c == ' ' || ('\u{9}' <= c && c <= '\u{D}') || c == '\u{85}' || c == '\u{A0}' || c
        == '\u{1680}' || ('\u{2000}' <= c && c <= '\u{200A}') || c == '\u{2028}' || c
        == '\u{2029}' || c == '\u{202F}' || c == '\u{205F}' || c == '\u{3000}'
}

/// Whether `p` occurs in `chars[start..end]` at `start + i`.
pub fn occurs_in_range_at(chars: &Vec<char>, start: usize, end: usize, p: &Vec<char>, i: usize) -> (b: bool)
    requires
        start <= end <= chars.len(),
        i <= end - start,
    ensures
        b == occurs_at(chars@.subrange(start as int, end as int), p@, i as int),
{
    let ghost s = chars@.subrange(start as int, end as int);
    if p.len() > end - start - i {
        return false;
    }
    let mut k: usize = 0;
    while k < p.len()
        invariant
            start <= end <= chars.len(),
            i + p.len() <= end - start,
            k <= p.len(),
            s == chars@.subrange(start as int, end as int),
            forall|m: int| 0 <= m < k ==> s[i + m] == p@[m],
        decreases p.len() - k,
    {
        if chars[start + i + k] != p[k] {
            assert(s.subrange(i as int, i + p.len())[k as int] != p@[k as int]);
            return false;
        }
        k += 1;
    }
    assert(s.subrange(i as int, i + p.len()) =~= p@);
    true
}

/// Whether `chars[start..end]` begins with `p`.
pub fn starts_with_range(chars: &Vec<char>, start: usize, end: usize, p: &Vec<char>) -> (b: bool)
    requires
        start <= end <= chars.len(),
    ensures
        b == starts_with(chars@.subrange(start as int, end as int), p@),
{
    let b = occurs_in_range_at(chars, start, end, p, 0);
    proof {
        let s = chars@.subrange(start as int, end as int);
        assert(s.subrange(0, p@.len() as int) == s.subrange(0int, 0int + p@.len()));
    }
    b
}

/// The position in `chars[start..end]` where `p` first occurs, if it does.
pub fn find_in_range(chars: &Vec<char>, start: usize, end: usize, p: &Vec<char>) -> (r: Option<usize>)
    requires
        start <= end <= chars.len(),
    ensures
        r matches Some(i) ==> i <= end - start && is_first_occurrence(
            chars@.subrange(start as int, end as int),
            p@,
            i as int,
        ),
        r is None ==> !contains(chars@.subrange(start as int, end as int), p@),
        match first_occurrence(chars@.subrange(start as int, end as int), p@) {
            Some(i) => r == Some(i as usize),
            None => r is None,
        },
{
    let ghost s = chars@.subrange(start as int, end as int);
    let len = end - start;
    if p.len() > len {
        proof {
            assert forall|j: int| !occurs_at(s, p@, j) by {}
        }
        return None;
    }
    let last = len - p.len();
    let mut i: usize = 0;
    loop
        invariant
            start <= end <= chars.len(),
            len == end - start,
            last == len - p.len(),
            i <= last,
            s == chars@.subrange(start as int, end as int),
            forall|j: int| 0 <= j < i ==> !occurs_at(s, p@, j),
        ensures
            forall|j: int| 0 <= j <= last ==> !occurs_at(s, p@, j),
        decreases last - i,
    {
        if occurs_in_range_at(chars, start, end, p, i) {
            proof {
                lemma_first_occurrence_unique(s, p@, i as int);
            }
            return Some(i);
        }
        if i == last {
            break;
        }
        i += 1;
    }
    proof {
        assert forall|j: int| !occurs_at(s, p@, j) by {
            if 0 <= j <= last {
            }
        }
    }
    None
}

/// The first occurrence is the one that `first_occurrence` names.
pub proof fn lemma_first_occurrence_unique(s: Seq<char>, p: Seq<char>, i: int)
    requires
        is_first_occurrence(s, p, i),
    ensures
        first_occurrence(s, p) == Some(i),
{
    assert(contains(s, p));
    let k = choose|k: int| is_first_occurrence(s, p, k);
    assert(is_first_occurrence(s, p, k));
    if k < i {
        assert(!occurs_at(s, p, k));
    } else if i < k {
        assert(!occurs_at(s, p, i));
    }
}

/// The first index in `start..end` that is not leading whitespace.
pub fn skip_whitespace(chars: &Vec<char>, start: usize, end: usize) -> (r: usize)
    requires
        start <= end <= chars.len(),
    ensures
        start <= r <= end,
        chars@.subrange(r as int, end as int) == trim_start(
            chars@.subrange(start as int, end as int),
        ),
{
    let mut i = start;
    while i < end && is_whitespace_char(chars[i])
        invariant
            start <= i <= end <= chars.len(),
            trim_start(chars@.subrange(i as int, end as int)) == trim_start(
                chars@.subrange(start as int, end as int),
            ),
        decreases end - i,
    {
        assert(chars@.subrange(i as int, end as int).drop_first() =~= chars@.subrange(
            i + 1,
            end as int,
        ));
        i += 1;
    }
    i
}

/// The index in `start..=end` just past the last character that is not
/// trailing whitespace.
pub fn trim_end_index(chars: &Vec<char>, start: usize, end: usize) -> (r: usize)
    requires
        start <= end <= chars.len(),
    ensures
        start <= r <= end,
        chars@.subrange(start as int, r as int) == trim_end(
            chars@.subrange(start as int, end as int),
        ),
{
    let mut j = end;
    while j > start && is_whitespace_char(chars[j - 1])
        invariant
            start <= j <= end <= chars.len(),
            trim_end(chars@.subrange(start as int, j as int)) == trim_end(
                chars@.subrange(start as int, end as int),
            ),
        decreases j - start,
    {
        assert(chars@.subrange(start as int, j as int).drop_last() =~= chars@.subrange(
            start as int,
            j - 1,
        ));
        j -= 1;
    }
    j
}

/// The lines of a text, as index ranges into its characters.
pub fn split_lines(chars: &Vec<char>) -> (rs: Vec<(usize, usize)>)
    ensures
        ranges_within(rs@, chars.len() as int),
        slices(chars@, rs@) == lines_of(chars@),
{
    let ghost s = chars@;
    let n = chars.len();
    let mut out: Vec<(usize, usize)> = Vec::new();
    let mut start: usize = 0;
    let mut i: usize = 0;
    assert(s.skip(0) =~= s);
    assert(s.subrange(0, 0) =~= Seq::<char>::empty());
    while i < n
        invariant
            n == chars.len(),
            s == chars@,
            start <= i <= n,
            ranges_within(out@, n as int),
            slices(s, out@) + lines_from(s.subrange(start as int, i as int), s.skip(i as int))
                == lines_of(s),
        decreases n - i,
    {
        let ghost cur = s.subrange(start as int, i as int);
        let ghost rest = s.skip(i as int);
        assert(rest[0] == chars@[i as int]);
        assert(rest.drop_first() =~= s.skip(i + 1));
        if chars[i] == '\n' {
            let end = if i > start && chars[i - 1] == '\r' {
                i - 1
            } else {
                i
            };
            assert(s.subrange(start as int, end as int) =~= strip_cr(cur));
            let ghost before = slices(s, out@);
            let ghost old_out = out@;
            out.push((start, end));
            assert forall|k: int| 0 <= k < out@.len() implies out@[k].0 <= out@[k].1
                && out@[k].1 <= n by {
                if k < old_out.len() {
                    assert(out@[k] == old_out[k]);
                }
            }
            assert(slices(s, out@) =~= before.push(strip_cr(cur)));
            start = i + 1;
            assert(s.subrange(start as int, i + 1) =~= Seq::<char>::empty());
            assert(lines_from(cur, rest) == seq![strip_cr(cur)] + lines_from(
                Seq::empty(),
                s.skip(i + 1),
            ));
            assert(before + lines_from(cur, rest) =~= slices(s, out@) + lines_from(
                Seq::empty(),
                s.skip(i + 1),
            ));
        } else {
            assert(cur.push(chars@[i as int]) =~= s.subrange(start as int, i + 1));
        }
        i += 1;
    }
    let ghost cur = s.subrange(start as int, n as int);
    assert(s.skip(n as int) =~= Seq::<char>::empty());
    if start < n {
        let ghost before = slices(s, out@);
        let ghost old_out = out@;
        out.push((start, n));
        assert forall|k: int| 0 <= k < out@.len() implies out@[k].0 <= out@[k].1
            && out@[k].1 <= n by {
            if k < old_out.len() {
                assert(out@[k] == old_out[k]);
            }
        }
        assert(slices(s, out@) =~= before.push(cur));
        assert(before + seq![cur] =~= slices(s, out@));
    } else {
        assert(slices(s, out@) + Seq::<Seq<char>>::empty() =~= slices(s, out@));
    }
    out
}


/// No character of `l` is a newline.
pub open spec fn no_newline(l: Seq<char>) -> bool {
    forall|i: int| 0 <= i < l.len() ==> l[i] != '\n'
}

/// The lines read from each of `ls` followed by a newline, in order.
pub open spec fn lines_of_rows(ls: Seq<Seq<char>>) -> Seq<Seq<char>>
    decreases ls.len(),
{
    if ls.len() == 0 {
        Seq::empty()
    } else {
        lines_of_rows(ls.drop_last()) + lines_of(ls.last() + seq!['\n'])
    }
}

/// Reading past a newline starts afresh: the lines of `x\ny` are those of
/// `x\n` followed by those of `y`.
pub proof fn lemma_lines_split(c: Seq<char>, x: Seq<char>, y: Seq<char>)
    ensures
        lines_from(c, x + seq!['\n'] + y) == lines_from(c, x + seq!['\n']) + lines_of(y),
    decreases x.len(),
{
    let nl = seq!['\n'];
    if x.len() == 0 {
        assert(x + nl + y =~= nl + y);
        assert(x + nl =~= nl);
        assert((nl + y).drop_first() =~= y);
        assert(nl.drop_first() =~= Seq::<char>::empty());
        assert(lines_from(Seq::empty(), Seq::<char>::empty()) == Seq::<Seq<char>>::empty());
        assert(seq![strip_cr(c)] + Seq::<Seq<char>>::empty() =~= seq![strip_cr(c)]);
    } else {
        let a = x[0];
        let x1 = x.drop_first();
        assert((x + nl + y)[0] == a);
        assert((x + nl)[0] == a);
        assert((x + nl + y).drop_first() =~= x1 + nl + y);
        assert((x + nl).drop_first() =~= x1 + nl);
        if a == '\n' {
            lemma_lines_split(Seq::empty(), x1, y);
            assert(seq![strip_cr(c)] + (lines_from(Seq::empty(), x1 + nl) + lines_of(y)) =~= (
            seq![strip_cr(c)] + lines_from(Seq::empty(), x1 + nl)) + lines_of(y));
        } else {
            lemma_lines_split(c.push(a), x1, y);
        }
    }
}

/// A line without newline, followed by one, reads as itself without its
/// carriage return.
pub proof fn lemma_line_single(c: Seq<char>, l: Seq<char>)
    requires
        no_newline(l),
    ensures
        lines_from(c, l + seq!['\n']) == seq![strip_cr(c + l)],
    decreases l.len(),
{
    let nl = seq!['\n'];
    if l.len() == 0 {
        assert(l + nl =~= nl);
        assert(nl.drop_first() =~= Seq::<char>::empty());
        assert(c + l =~= c);
        assert(lines_from(Seq::empty(), Seq::<char>::empty()) == Seq::<Seq<char>>::empty());
        assert(lines_from(c, nl) == seq![strip_cr(c)] + lines_from(Seq::empty(), nl.drop_first()));
        assert(seq![strip_cr(c)] + Seq::<Seq<char>>::empty() =~= seq![strip_cr(c)]);
    } else {
        let a = l[0];
        let l1 = l.drop_first();
        assert((l + nl)[0] == a);
        assert((l + nl).drop_first() =~= l1 + nl);
        assert(c.push(a) + l1 =~= c + l);
        assert(a != '\n');
        assert(no_newline(l1)) by {
            assert forall|i: int| 0 <= i < l1.len() implies l1[i] != '\n' by {
                assert(l1[i] == l[i + 1]);
            }
        }
        lemma_line_single(c.push(a), l1);
        assert(lines_from(c, l + nl) == lines_from(c.push(a), l1 + nl));
    }
}

/// Every line read from a text is free of newlines.
pub proof fn lemma_lines_no_newline(c: Seq<char>, r: Seq<char>)
    requires
        no_newline(c),
    ensures
        forall|i: int| 0 <= i < lines_from(c, r).len() ==> no_newline(#[trigger] lines_from(c, r)[i]),
    decreases r.len(),
{
    if r.len() == 0 {
        assert forall|i: int| 0 <= i < lines_from(c, r).len() implies no_newline(
            #[trigger] lines_from(c, r)[i],
        ) by {
            assert(lines_from(c, r)[i] == c);
        }
    } else if r[0] == '\n' {
        lemma_lines_no_newline(Seq::empty(), r.drop_first());
        let rest = lines_from(Seq::<char>::empty(), r.drop_first());
        assert(lines_from(c, r) == seq![strip_cr(c)] + rest);
        assert(no_newline(strip_cr(c))) by {
            assert forall|i: int| 0 <= i < strip_cr(c).len() implies strip_cr(c)[i] != '\n' by {
                assert(strip_cr(c)[i] == c[i]);
            }
        }
        assert forall|i: int| 0 <= i < lines_from(c, r).len() implies no_newline(
            #[trigger] lines_from(c, r)[i],
        ) by {
            if i > 0 {
                assert(lines_from(c, r)[i] == rest[i - 1]);
            } else {
                assert(lines_from(c, r)[0] == strip_cr(c));
            }
        }
    } else {
        let c1 = c.push(r[0]);
        assert(no_newline(c1)) by {
            assert forall|i: int| 0 <= i < c1.len() implies c1[i] != '\n' by {
                if i < c.len() {
                    assert(c1[i] == c[i]);
                }
            }
        }
        lemma_lines_no_newline(c1, r.drop_first());
        assert(lines_from(c, r) == lines_from(c1, r.drop_first()));
    }
}

/// The lines of `l0\nl1\n...ln\n` are the lines of each `li\n` in order.
pub proof fn lemma_join_lines(ls: Seq<Seq<char>>)
    requires
        ls.len() >= 1,
    ensures
        lines_of(join_lines(ls) + seq!['\n']) == lines_of_rows(ls),
    decreases ls.len(),
{
    let nl = seq!['\n'];
    if ls.len() == 1 {
        assert(ls.drop_last() =~= Seq::<Seq<char>>::empty());
        assert(lines_of_rows(Seq::<Seq<char>>::empty()) == Seq::<Seq<char>>::empty());
        assert(join_lines(ls) == ls[0]);
        assert(ls.last() == ls[0]);
        assert(Seq::<Seq<char>>::empty() + lines_of(ls.last() + nl) =~= lines_of(ls.last() + nl));
    } else {
        let d = ls.drop_last();
        lemma_join_lines(d);
        assert(join_lines(ls) + nl =~= join_lines(d) + nl + (ls.last() + nl));
        lemma_lines_split(Seq::empty(), join_lines(d), ls.last() + nl);
        assert(lines_of_rows(ls) == lines_of_rows(d) + lines_of(ls.last() + nl));
    }
}

/// `lines_of_rows` distributes over concatenation.
pub proof fn lemma_lines_of_rows_concat(a: Seq<Seq<char>>, b: Seq<Seq<char>>)
    ensures
        lines_of_rows(a + b) == lines_of_rows(a) + lines_of_rows(b),
    decreases b.len(),
{
    if b.len() == 0 {
        assert(a + b =~= a);
        assert(lines_of_rows(a) + Seq::<Seq<char>>::empty() =~= lines_of_rows(a));
    } else {
        assert((a + b).drop_last() =~= a + b.drop_last());
        assert((a + b).last() == b.last());
        lemma_lines_of_rows_concat(a, b.drop_last());
        assert(lines_of_rows(a) + lines_of_rows(b.drop_last()) + lines_of(b.last() + seq!['\n'])
            =~= lines_of_rows(a) + (lines_of_rows(b.drop_last()) + lines_of(b.last() + seq!['\n'])));
    }
}

/// Rows without newlines read back as themselves, without carriage returns.
pub proof fn lemma_lines_of_rows_plain(ls: Seq<Seq<char>>)
    requires
        forall|i: int| 0 <= i < ls.len() ==> no_newline(#[trigger] ls[i]),
    ensures
        lines_of_rows(ls) == ls.map_values(|l: Seq<char>| strip_cr(l)),
    decreases ls.len(),
{
    if ls.len() > 0 {
        let d = ls.drop_last();
        assert forall|i: int| 0 <= i < d.len() implies no_newline(#[trigger] d[i]) by {
            assert(d[i] == ls[i]);
        }
        lemma_lines_of_rows_plain(d);
        assert(no_newline(ls[ls.len() - 1]));
        lemma_line_single(Seq::empty(), ls.last());
        assert(Seq::<char>::empty() + ls.last() =~= ls.last());
        assert(ls.map_values(|l: Seq<char>| strip_cr(l)) =~= d.map_values(|l: Seq<char>| strip_cr(l))
            + seq![strip_cr(ls.last())]);
    }
}

/// Leading whitespace of a concatenation.
pub proof fn lemma_trim_start_concat(m: Seq<char>, t: Seq<char>)
    ensures
        trim_start(m + t) == if trim_start(m).len() > 0 {
            trim_start(m) + t
        } else {
            trim_start(t)
        },
    decreases m.len(),
{
    if m.len() == 0 {
        assert(m + t =~= t);
    } else {
        assert((m + t)[0] == m[0]);
        assert((m + t).drop_first() =~= m.drop_first() + t);
        lemma_trim_start_concat(m.drop_first(), t);
    }
}


/// Whether the two texts are equal.
pub fn str_equals(a: &str, b: &str) -> (r: bool)
    ensures
        r == (a@ == b@),
{
    let x = chars_of(a);
    let y = chars_of(b);
    if x.len() != y.len() {
        return false;
    }
    let mut i: usize = 0;
    while i < x.len()
        invariant
            x@ == a@,
            y@ == b@,
            x.len() == y.len(),
            i <= x.len(),
            forall|j: int| 0 <= j < i ==> x@[j] == y@[j],
        decreases x.len() - i,
    {
        if x[i] != y[i] {
            assert(x@[i as int] != y@[i as int]);
            return false;
        }
        i += 1;
    }
    assert(x@ =~= y@);
    true
}

/// Whether `s` begins with `p`.
pub fn str_starts_with(s: &str, p: &str) -> (r: bool)
    ensures
        r == starts_with(s@, p@),
{
    let x = chars_of(s);
    let y = chars_of(p);
    let r = starts_with_range(&x, 0, x.len(), &y);
    assert(x@.subrange(0, x@.len() as int) =~= x@);
    r
}

/// The concatenation of two texts.
pub fn concat(a: &str, b: &str) -> (r: String)
    ensures
        r@ == a@ + b@,
{
    let mut r = String::from_str(a);
    r.append(b);
    r
}

/// Whitespace only trims away.
pub proof fn lemma_trim_start_of_whitespace(sp: Seq<char>, t: Seq<char>)
    requires
        forall|i: int| 0 <= i < sp.len() ==> is_whitespace(#[trigger] sp[i]),
    ensures
        trim_start(sp + t) == trim_start(t),
    decreases sp.len(),
{
    if sp.len() == 0 {
        assert(sp + t =~= t);
    } else {
        assert((sp + t)[0] == sp[0]);
        assert((sp + t).drop_first() =~= sp.drop_first() + t);
        let s1 = sp.drop_first();
        assert forall|i: int| 0 <= i < s1.len() implies is_whitespace(#[trigger] s1[i]) by {
            assert(s1[i] == sp[i + 1]);
        }
        lemma_trim_start_of_whitespace(s1, t);
    }
}

/// Trailing whitespace only trims away.
pub proof fn lemma_trim_end_of_whitespace(v: Seq<char>, sp: Seq<char>)
    requires
        v.len() > 0,
        !is_whitespace(v.last()),
        forall|i: int| 0 <= i < sp.len() ==> is_whitespace(#[trigger] sp[i]),
    ensures
        trim_end(v + sp) == v,
    decreases sp.len(),
{
    if sp.len() == 0 {
        assert(v + sp =~= v);
    } else {
        assert((v + sp).last() == sp.last());
        assert((v + sp).drop_last() =~= v + sp.drop_last());
        let s1 = sp.drop_last();
        assert forall|i: int| 0 <= i < s1.len() implies is_whitespace(#[trigger] s1[i]) by {
            assert(s1[i] == sp[i]);
        }
        lemma_trim_end_of_whitespace(v, s1);
    }
}

} // verus!
