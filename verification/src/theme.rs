//! The profile patch that switches the built-in Blue Fantasy skin on or off.
//!
//! The patch file is a YAML list of rows. A row starts with a line whose text,
//! after leading whitespace, begins with `- id:`; it is the Blue Fantasy row
//! when the id after `- id:` is `ui-skin-blue-fantasy`, bare or quoted, once a
//! trailing comment (a `#` after whitespace, and the rest of the line) is
//! dropped. The
//! body of a Blue Fantasy row is the lines after it that begin with a space,
//! up to the next row start indented no deeper than it. The skin is on by
//! default, so switching it on removes every Blue Fantasy row with its body,
//! and switching it off leaves exactly one row that disables it. All other
//! rows, their bodies and the comments are kept as they are.

use vstd::prelude::*;
use vstd::string::*;
use crate::text::{
    chars_of, join_lines, lemma_join_lines, lemma_line_single,
    lemma_lines_no_newline, lemma_lines_of_rows_concat, lemma_lines_of_rows_plain,
    lemma_lines_split, lemma_trim_start_concat, lines_of, lines_of_rows, no_newline,
    ranges_within, skip_whitespace, slices, split_lines, starts_with, starts_with_range,
    is_whitespace, is_whitespace_char, strip_cr, trim, trim_end, trim_end_index, trim_start,
};

verus! {

/// The id of the built-in Blue Fantasy skin row.
pub const BLUE_FANTASY_ID: &'static str = "ui-skin-blue-fantasy";

/// The profile-patch text that disables the Blue Fantasy skin row.
pub const BLUE_FANTASY_DISABLED: &'static str = "- id: ui-skin-blue-fantasy\n  disabled: true";

/// The Blue Fantasy id in single quotes.
pub const BLUE_FANTASY_ID_SINGLE_QUOTED: &'static str = "'ui-skin-blue-fantasy'";

/// The Blue Fantasy id in double quotes.
pub const BLUE_FANTASY_ID_DOUBLE_QUOTED: &'static str = "\"ui-skin-blue-fantasy\"";

/// What a row's first line begins with, after its indentation.
pub const ROW_MARKER: &'static str = "- id:";

/// The bare empty list of a patch file that holds no rows.
pub const EMPTY_LIST: &'static str = "[]";

/// `l` is the first line of a row.
pub open spec fn is_row_start(l: Seq<char>) -> bool {
    starts_with(trim_start(l), ROW_MARKER@)
}

/// The number of whitespace characters that `l` begins with.
pub open spec fn indentation(l: Seq<char>) -> int {
    l.len() - trim_start(l).len()
}

/// A trailing comment of `v` starts at `i`: a `#` right after whitespace.
pub open spec fn is_comment_start(v: Seq<char>, i: int) -> bool {
    0 < i < v.len() && v[i] == '#' && is_whitespace(v[i - 1])
}

/// `i` is where the first trailing comment of `v` starts.
pub open spec fn is_first_comment_start(v: Seq<char>, i: int) -> bool {
    is_comment_start(v, i) && forall|j: int| 0 <= j < i ==> !is_comment_start(v, j)
}

/// `v` without its trailing comment, if it has one.
pub open spec fn without_comment(v: Seq<char>) -> Seq<char> {
    if exists|i: int| is_comment_start(v, i) {
        v.take(choose|i: int| is_first_comment_start(v, i))
    } else {
        v
    }
}

/// The id that the first line of a row gives: what follows `- id:`, without
/// a trailing comment and without surrounding whitespace.
pub open spec fn row_id(l: Seq<char>) -> Seq<char> {
    trim(without_comment(trim_start(l).skip(ROW_MARKER@.len() as int)))
}

/// `v` is the Blue Fantasy id, bare or in quotes.
pub open spec fn is_skin_id(v: Seq<char>) -> bool {
    v == BLUE_FANTASY_ID@ || v == BLUE_FANTASY_ID_SINGLE_QUOTED@ || v
        == BLUE_FANTASY_ID_DOUBLE_QUOTED@
}

/// `l` is the first line of a Blue Fantasy row.
pub open spec fn is_skin_row_start(l: Seq<char>) -> bool {
    is_row_start(l) && is_skin_id(row_id(l))
}

/// `l` begins with a space.
pub open spec fn is_continuation(l: Seq<char>) -> bool {
    l.len() > 0 && l[0] == ' '
}

/// `l` belongs to the body of a row whose first line is indented by `k`: it
/// begins with a space and is not a row start indented by `k` or less.
pub open spec fn in_row_body(l: Seq<char>, k: int) -> bool {
    is_continuation(l) && !(is_row_start(l) && indentation(l) <= k)
}

/// The lines `ls` without the Blue Fantasy rows and their bodies; `block` is
/// the indentation of the Blue Fantasy row whose body the line before `ls`
/// belonged to, if any.
pub open spec fn kept_rows(ls: Seq<Seq<char>>, block: Option<int>) -> Seq<Seq<char>>
    decreases ls.len(),
{
    if ls.len() == 0 {
        Seq::empty()
    } else if block matches Some(k) && in_row_body(ls[0], k) {
        kept_rows(ls.drop_first(), block)
    } else if is_skin_row_start(ls[0]) {
        kept_rows(ls.drop_first(), Some(indentation(ls[0])))
    } else {
        seq![ls[0]] + kept_rows(ls.drop_first(), None)
    }
}

/// The lines of a patch file that survive the removal of its Blue Fantasy rows.
pub open spec fn patch_lines(existing: Seq<char>) -> Seq<Seq<char>> {
    kept_rows(lines_of(existing), None)
}

/// Some line of `ls` starts a row.
pub open spec fn has_row_start(ls: Seq<Seq<char>>) -> bool {
    exists|i: int| 0 <= i < ls.len() && is_row_start(#[trigger] ls[i])
}

/// `l` is the bare empty list, surrounded by whitespace at most.
pub open spec fn is_empty_list(l: Seq<char>) -> bool {
    trim(l) == EMPTY_LIST@
}

/// `i` is the first line of `ls` that is the bare empty list.
pub open spec fn is_first_empty_list(ls: Seq<Seq<char>>, i: int) -> bool {
    &&& 0 <= i < ls.len()
    &&& is_empty_list(ls[i])
    &&& forall|j: int| 0 <= j < i ==> !is_empty_list(#[trigger] ls[j])
}

/// Some line of `ls` is the bare empty list.
pub open spec fn has_empty_list(ls: Seq<Seq<char>>) -> bool {
    exists|i: int| 0 <= i < ls.len() && is_empty_list(#[trigger] ls[i])
}

/// The first line of `ls` that is the bare empty list.
pub open spec fn first_empty_list(ls: Seq<Seq<char>>) -> int {
    choose|i: int| is_first_empty_list(ls, i)
}

/// The text of the patch file after the skin is switched on (`enabled`) or off.
///
/// Switching on writes the kept lines. Switching off appends the disabling
/// row after them when they hold a row; else it replaces the first bare empty
/// list with it; else it appends it.
pub open spec fn theme_patch_text(existing: Seq<char>, enabled: bool) -> Seq<char> {
    let kept = patch_lines(existing);
    let nl = seq!['\n'];
    if enabled {
        join_lines(kept) + nl
    } else if has_row_start(kept) {
        join_lines(kept) + nl + BLUE_FANTASY_DISABLED@ + nl
    } else if has_empty_list(kept) {
        join_lines(kept.update(first_empty_list(kept), BLUE_FANTASY_DISABLED@)) + nl
    } else {
        join_lines(kept) + nl + BLUE_FANTASY_DISABLED@ + nl
    }
}

/// Whether the line `chars[r.0..r.1]` starts a row.
fn row_start_range(chars: &Vec<char>, r: (usize, usize), marker: &Vec<char>) -> (b: bool)
    requires
        r.0 <= r.1 <= chars.len(),
        marker@ == ROW_MARKER@,
    ensures
        b == is_row_start(chars@.subrange(r.0 as int, r.1 as int)),
{
    let s = skip_whitespace(chars, r.0, r.1);
    starts_with_range(chars, s, r.1, marker)
}

/// The character sequences a patch line is matched against.
struct Patterns {
    marker: Vec<char>,
    id: Vec<char>,
    single: Vec<char>,
    double: Vec<char>,
}

impl Patterns {
    spec fn wf(&self) -> bool {
        &&& self.marker@ == ROW_MARKER@
        &&& self.id@ == BLUE_FANTASY_ID@
        &&& self.single@ == BLUE_FANTASY_ID_SINGLE_QUOTED@
        &&& self.double@ == BLUE_FANTASY_ID_DOUBLE_QUOTED@
    }

    fn new() -> (p: Patterns)
        ensures
            p.wf(),
    {
        Patterns {
            marker: chars_of(ROW_MARKER),
            id: chars_of(BLUE_FANTASY_ID),
            single: chars_of(BLUE_FANTASY_ID_SINGLE_QUOTED),
            double: chars_of(BLUE_FANTASY_ID_DOUBLE_QUOTED),
        }
    }
}

/// Whether `chars[a..b]` is `p`.
fn equals_range(chars: &Vec<char>, a: usize, b: usize, p: &Vec<char>) -> (r: bool)
    requires
        a <= b <= chars.len(),
    ensures
        r == (chars@.subrange(a as int, b as int) == p@),
{
    if b - a != p.len() {
        return false;
    }
    let r = starts_with_range(chars, a, b, p);
    assert(chars@.subrange(a as int, b as int).subrange(0, p@.len() as int) =~= chars@.subrange(
        a as int,
        b as int,
    ));
    r
}

/// The indentation of the line `chars[r.0..r.1]`.
fn indentation_range(chars: &Vec<char>, r: (usize, usize)) -> (n: usize)
    requires
        r.0 <= r.1 <= chars.len(),
    ensures
        n == indentation(chars@.subrange(r.0 as int, r.1 as int)),
{
    let a = skip_whitespace(chars, r.0, r.1);
    a - r.0
}

/// Where the text `chars[a..b]` ends once its trailing comment is dropped.
fn comment_cut(chars: &Vec<char>, a: usize, b: usize) -> (e: usize)
    requires
        a <= b <= chars.len(),
    ensures
        a <= e <= b,
        chars@.subrange(a as int, e as int) == without_comment(chars@.subrange(a as int, b as int)),
{
    let ghost v = chars@.subrange(a as int, b as int);
    if a == b {
        assert(chars@.subrange(a as int, a as int) =~= v);
        return b;
    }
    let mut j = a + 1;
    while j < b
        invariant
            a < j <= b <= chars.len(),
            v == chars@.subrange(a as int, b as int),
            forall|k: int| 0 <= k < j - a ==> !is_comment_start(v, k),
        decreases b - j,
    {
        if chars[j] == '#' && is_whitespace_char(chars[j - 1]) {
            proof {
                assert(v[j - a] == chars@[j as int]);
                assert(v[j - a - 1] == chars@[j - 1]);
                assert(is_first_comment_start(v, j - a));
                lemma_first_comment_unique(v, j - a);
                assert(v.take(j - a) =~= chars@.subrange(a as int, j as int));
            }
            return j;
        }
        proof {
            assert(!is_comment_start(v, j - a)) by {
                assert(v[j - a] == chars@[j as int]);
                assert(v[j - a - 1] == chars@[j - 1]);
            }
        }
        j += 1;
    }
    assert(chars@.subrange(a as int, b as int) =~= v);
    b
}

/// The first trailing comment is the one `without_comment` cuts at.
proof fn lemma_first_comment_unique(v: Seq<char>, i: int)
    requires
        is_first_comment_start(v, i),
    ensures
        without_comment(v) == v.take(i),
{
    let k = choose|k: int| is_first_comment_start(v, k);
    assert(is_first_comment_start(v, k));
    if k < i {
        assert(!is_comment_start(v, k));
    } else if i < k {
        assert(!is_comment_start(v, i));
    }
}

/// When `v` has a trailing comment, there is a first one.
proof fn lemma_first_comment_exists(v: Seq<char>, i: int)
    requires
        is_comment_start(v, i),
    ensures
        exists|k: int| is_first_comment_start(v, k),
    decreases i,
{
    if exists|j: int| 0 <= j < i && is_comment_start(v, j) {
        let j = choose|j: int| 0 <= j < i && is_comment_start(v, j);
        lemma_first_comment_exists(v, j);
    } else {
        assert(is_first_comment_start(v, i));
    }
}

/// Text appended after a trailing comment is part of that comment.
proof fn lemma_without_comment_extend(y: Seq<char>, t: Seq<char>)
    requires
        exists|i: int| is_comment_start(y, i),
    ensures
        without_comment(y + t) == without_comment(y),
{
    let i0 = choose|i: int| is_comment_start(y, i);
    lemma_first_comment_exists(y, i0);
    let k = choose|k: int| is_first_comment_start(y, k);
    let z = y + t;
    assert(is_first_comment_start(z, k)) by {
        assert(z[k] == y[k]);
        assert(z[k - 1] == y[k - 1]);
        assert forall|j: int| 0 <= j < k implies !is_comment_start(z, j) by {
            if 0 < j {
                assert(z[j] == y[j]);
                assert(z[j - 1] == y[j - 1]);
                assert(!is_comment_start(y, j));
            }
        }
    }
    lemma_first_comment_unique(y, k);
    lemma_first_comment_unique(z, k);
    assert(z.take(k) =~= y.take(k));
}

/// Without a comment in `y`, appending `t` adds no comment before `y` ends.
proof fn lemma_no_comment_before(y: Seq<char>, t: Seq<char>, j: int)
    requires
        !(exists|i: int| is_comment_start(y, i)),
        0 <= j < y.len(),
    ensures
        !is_comment_start(y + t, j),
{
    assert(!is_comment_start(y, j));
    if 0 < j {
        assert((y + t)[j] == y[j]);
        assert((y + t)[j - 1] == y[j - 1]);
    }
}

/// Whether the line `chars[r.0..r.1]` starts a Blue Fantasy row.
fn skin_row_start_range(chars: &Vec<char>, r: (usize, usize), pats: &Patterns) -> (b: bool)
    requires
        r.0 <= r.1 <= chars.len(),
        pats.wf(),
    ensures
        b == is_skin_row_start(chars@.subrange(r.0 as int, r.1 as int)),
{
    let ghost line = chars@.subrange(r.0 as int, r.1 as int);
    let a = skip_whitespace(chars, r.0, r.1);
    if !starts_with_range(chars, a, r.1, &pats.marker) {
        return false;
    }
    let m = a + pats.marker.len();
    assert(chars@.subrange(a as int, r.1 as int).skip(ROW_MARKER@.len() as int) =~= chars@.subrange(
        m as int,
        r.1 as int,
    ));
    let e = comment_cut(chars, m, r.1);
    let c = skip_whitespace(chars, m, e);
    let d = trim_end_index(chars, c, e);
    assert(chars@.subrange(c as int, d as int) == row_id(line));
    equals_range(chars, c, d, &pats.id) || equals_range(chars, c, d, &pats.single)
        || equals_range(chars, c, d, &pats.double)
}

/// A block state of the exec loop, as the spec reads it.
spec fn block_of(b: Option<usize>) -> Option<int> {
    match b {
        Some(k) => Some(k as int),
        None => None,
    }
}

/// The lines that survive the removal of the Blue Fantasy rows.
fn drop_skin_rows(chars: &Vec<char>, lines: &Vec<(usize, usize)>, pats: &Patterns) -> (kept: Vec<(usize, usize)>)
    requires
        ranges_within(lines@, chars.len() as int),
        pats.wf(),
    ensures
        ranges_within(kept@, chars.len() as int),
        slices(chars@, kept@) == kept_rows(slices(chars@, lines@), None),
{
    let ghost all = slices(chars@, lines@);
    let mut kept: Vec<(usize, usize)> = Vec::new();
    let mut block: Option<usize> = None;
    let mut i: usize = 0;
    assert(all.skip(0) =~= all);
    while i < lines.len()
        invariant
            ranges_within(lines@, chars.len() as int),
            ranges_within(kept@, chars.len() as int),
            pats.wf(),
            all == slices(chars@, lines@),
            i <= lines.len(),
            slices(chars@, kept@) + kept_rows(all.skip(i as int), block_of(block)) == kept_rows(
                all,
                None,
            ),
        decreases lines.len() - i,
    {
        let r = lines[i];
        assert(r.0 <= r.1 <= chars.len()) by {
            assert(lines@[i as int] == r);
        }
        let ghost rest = all.skip(i as int);
        let ghost line = chars@.subrange(r.0 as int, r.1 as int);
        assert(rest[0] == line);
        assert(rest.drop_first() =~= all.skip(i + 1));
        let continues = r.0 < r.1 && chars[r.0] == ' ';
        assert(continues == is_continuation(line));
        let in_body = match block {
            Some(k) => continues && !(row_start_range(chars, r, &pats.marker)
                && indentation_range(chars, r) <= k),
            None => false,
        };
        if in_body {
        } else if skin_row_start_range(chars, r, pats) {
            block = Some(indentation_range(chars, r));
        } else {
            let ghost before = slices(chars@, kept@);
            let ghost old_kept = kept@;
            kept.push(r);
            assert(slices(chars@, kept@) =~= before.push(line));
            assert(before + kept_rows(rest, block_of(block)) =~= slices(chars@, kept@) + kept_rows(
                all.skip(i + 1),
                None,
            ));
            assert forall|k: int| 0 <= k < kept@.len() implies kept@[k].0 <= kept@[k].1
                && kept@[k].1 <= chars.len() by {
                if k < old_kept.len() {
                    assert(kept@[k] == old_kept[k]);
                }
            }
            block = None;
        }
        i += 1;
    }
    assert(all.skip(i as int) =~= Seq::<Seq<char>>::empty());
    assert(slices(chars@, kept@) + Seq::<Seq<char>>::empty() =~= slices(chars@, kept@));
    kept
}

/// Whether one of the kept lines starts a row.
fn any_row_start(chars: &Vec<char>, kept: &Vec<(usize, usize)>, marker: &Vec<char>) -> (b: bool)
    requires
        ranges_within(kept@, chars.len() as int),
        marker@ == ROW_MARKER@,
    ensures
        b == has_row_start(slices(chars@, kept@)),
{
    let ghost ls = slices(chars@, kept@);
    let mut i: usize = 0;
    while i < kept.len()
        invariant
            ranges_within(kept@, chars.len() as int),
            marker@ == ROW_MARKER@,
            ls == slices(chars@, kept@),
            i <= kept.len(),
            forall|j: int| 0 <= j < i ==> !is_row_start(#[trigger] ls[j]),
        decreases kept.len() - i,
    {
        let r = kept[i];
        assert(r.0 <= r.1 <= chars.len()) by {
            assert(kept@[i as int] == r);
        }
        if row_start_range(chars, r, marker) {
            assert(is_row_start(ls[i as int]));
            return true;
        }
        i += 1;
    }
    false
}

/// The first kept line that is the bare empty list, if any.
fn find_empty_list(chars: &Vec<char>, kept: &Vec<(usize, usize)>, empty: &Vec<char>) -> (r: Option<usize>)
    requires
        ranges_within(kept@, chars.len() as int),
        empty@ == EMPTY_LIST@,
    ensures
        r matches Some(p) ==> is_first_empty_list(slices(chars@, kept@), p as int),
        r is None ==> !has_empty_list(slices(chars@, kept@)),
{
    let ghost ls = slices(chars@, kept@);
    let mut i: usize = 0;
    while i < kept.len()
        invariant
            ranges_within(kept@, chars.len() as int),
            empty@ == EMPTY_LIST@,
            ls == slices(chars@, kept@),
            i <= kept.len(),
            forall|j: int| 0 <= j < i ==> !is_empty_list(#[trigger] ls[j]),
        decreases kept.len() - i,
    {
        let r = kept[i];
        assert(r.0 <= r.1 <= chars.len()) by {
            assert(kept@[i as int] == r);
        }
        let a = skip_whitespace(chars, r.0, r.1);
        let b = trim_end_index(chars, a, r.1);
        let ghost line = chars@.subrange(r.0 as int, r.1 as int);
        assert(ls[i as int] == line);
        assert(chars@.subrange(a as int, b as int) == trim(line));
        let len_ok = b - a == empty.len();
        if len_ok && starts_with_range(chars, a, b, empty) {
            assert(chars@.subrange(a as int, b as int).subrange(0, empty@.len() as int)
                =~= chars@.subrange(a as int, b as int));
            return Some(i);
        }
        if len_ok {
            assert(chars@.subrange(a as int, b as int).subrange(0, empty@.len() as int)
                =~= chars@.subrange(a as int, b as int));
        }
        i += 1;
    }
    None
}

/// The kept lines joined with `\n`, the line at `replace` (if any) replaced by
/// the disabling row.
fn join_kept(existing: &str, kept: &Vec<(usize, usize)>, replace: Option<usize>) -> (res: String)
    requires
        ranges_within(kept@, existing@.len() as int),
        replace matches Some(p) ==> p < kept.len(),
    ensures
        res@ == join_lines(
            match replace {
                Some(p) => slices(existing@, kept@).update(p as int, BLUE_FANTASY_DISABLED@),
                None => slices(existing@, kept@),
            },
        ),
{
    let ghost rows = match replace {
        Some(p) => slices(existing@, kept@).update(p as int, BLUE_FANTASY_DISABLED@),
        None => slices(existing@, kept@),
    };
    proof {
        reveal_strlit("\n");
    }
    let mut res = String::new();
    let mut i: usize = 0;
    assert(rows.take(0) =~= Seq::<Seq<char>>::empty());
    while i < kept.len()
        invariant
            ranges_within(kept@, existing@.len() as int),
            rows == match replace {
                Some(p) => slices(existing@, kept@).update(p as int, BLUE_FANTASY_DISABLED@),
                None => slices(existing@, kept@),
            },
            replace matches Some(p) ==> p < kept.len(),
            rows.len() == kept@.len(),
            i <= kept.len(),
            res@ == join_lines(rows.take(i as int)),
        decreases kept.len() - i,
    {
        proof {
            reveal_strlit("\n");
        }
        if i > 0 {
            res.append("\n");
        }
        let is_replaced = match replace {
            Some(p) => p == i,
            None => false,
        };
        if is_replaced {
            res.append(BLUE_FANTASY_DISABLED);
            assert(rows[i as int] == BLUE_FANTASY_DISABLED@);
        } else {
            let r = kept[i];
            assert(r.0 <= r.1 <= existing@.len()) by {
                assert(kept@[i as int] == r);
            }
            res.append(existing.substring_char(r.0, r.1));
            assert(rows[i as int] == existing@.subrange(r.0 as int, r.1 as int));
        }
        assert(rows.take(i + 1).drop_last() =~= rows.take(i as int));
        assert(rows.take(i + 1).last() == rows[i as int]);
        if i == 0 {
            assert(rows.take(1) =~= seq![rows[0]]);
        }
        i += 1;
    }
    assert(rows.take(kept.len() as int) =~= rows);
    res
}

/// Returns `existing` with the Blue Fantasy row's `disabled` state set to
/// `enabled`: `enabled` removes any Blue Fantasy row (the skin is on by
/// default), `!enabled` ensures a single disabling row exists. Non-Blue-Fantasy
/// rows and the file's comments are preserved verbatim.
pub fn theme_patch(existing: &str, enabled: bool) -> (res: String)
    ensures
        res@ == theme_patch_text(existing@, enabled),
{
    let chars = chars_of(existing);
    let pats = Patterns::new();
    let empty = chars_of(EMPTY_LIST);
    let lines = split_lines(&chars);
    let kept = drop_skin_rows(&chars, &lines, &pats);
    let ghost rows = slices(chars@, kept@);
    assert(rows == patch_lines(existing@));
    proof {
        reveal_strlit("\n");
    }
    if enabled {
        let mut out = join_kept(existing, &kept, None);
        out.append("\n");
        return out;
    }
    if any_row_start(&chars, &kept, &pats.marker) {
        let mut out = join_kept(existing, &kept, None);
        out.append("\n");
        out.append(BLUE_FANTASY_DISABLED);
        out.append("\n");
        return out;
    }
    match find_empty_list(&chars, &kept, &empty) {
        Some(p) => {
            assert(has_empty_list(rows));
            proof {
                let q = first_empty_list(rows);
                assert(is_first_empty_list(rows, q));
                if q < p {
                    assert(!is_empty_list(rows[q]));
                } else if p < q {
                    assert(!is_empty_list(rows[p as int]));
                }
            }
            let mut out = join_kept(existing, &kept, Some(p));
            out.append("\n");
            out
        },
        None => {
            let mut out = join_kept(existing, &kept, None);
            out.append("\n");
            out.append(BLUE_FANTASY_DISABLED);
            out.append("\n");
            out
        },
    }
}


/// The lines that a file written as `join_lines(kept)` and a final newline
/// reads back as.
pub open spec fn read_back(kept: Seq<Seq<char>>) -> Seq<Seq<char>> {
    if kept.len() == 0 {
        seq![Seq::<char>::empty()]
    } else {
        kept.map_values(|l: Seq<char>| strip_cr(l))
    }
}

/// No line of `ls` starts a Blue Fantasy row.
pub open spec fn no_skin_row(ls: Seq<Seq<char>>) -> bool {
    forall|i: int| 0 <= i < ls.len() ==> !is_skin_row_start(#[trigger] ls[i])
}

/// No line of `ls` ends with a carriage return.
pub open spec fn no_cr_ending(ls: Seq<Seq<char>>) -> bool {
    forall|i: int| 0 <= i < ls.len() ==> strip_cr(#[trigger] ls[i]) == ls[i]
}

/// Exactly one line of `ls` starts a Blue Fantasy row, and the line after it
/// is `  disabled: true`.
pub open spec fn one_disabling_row(ls: Seq<Seq<char>>) -> bool {
    exists|i: int|
        {
            &&& 0 <= i && i + 1 < ls.len()
            &&& is_skin_row_start(#[trigger] ls[i])
            &&& ls[i + 1] == "  disabled: true"@
            &&& forall|j: int| 0 <= j < ls.len() && j != i ==> !is_skin_row_start(#[trigger] ls[j])
        }
}

proof fn lemma_kept_no_skin(ls: Seq<Seq<char>>, block: Option<int>)
    ensures
        no_skin_row(kept_rows(ls, block)),
    decreases ls.len(),
{
    if ls.len() > 0 {
        let rest = ls.drop_first();
        lemma_kept_no_skin(rest, block);
        lemma_kept_no_skin(rest, Some(indentation(ls[0])));
        lemma_kept_no_skin(rest, None);
        let k = kept_rows(ls, block);
        if !(block matches Some(b) && in_row_body(ls[0], b)) && !is_skin_row_start(ls[0]) {
            let tail = kept_rows(rest, None);
            assert forall|i: int| 0 <= i < k.len() implies !is_skin_row_start(#[trigger] k[i]) by {
                if i > 0 {
                    assert(k[i] == tail[i - 1]);
                }
            }
        }
    }
}

proof fn lemma_kept_no_newline(ls: Seq<Seq<char>>, block: Option<int>)
    requires
        forall|i: int| 0 <= i < ls.len() ==> no_newline(#[trigger] ls[i]),
    ensures
        forall|i: int| 0 <= i < kept_rows(ls, block).len() ==> no_newline(
            #[trigger] kept_rows(ls, block)[i],
        ),
    decreases ls.len(),
{
    if ls.len() > 0 {
        let t = ls.drop_first();
        assert forall|i: int| 0 <= i < t.len() implies no_newline(#[trigger] t[i]) by {
            assert(t[i] == ls[i + 1]);
        }
        lemma_kept_no_newline(t, block);
        lemma_kept_no_newline(t, Some(indentation(ls[0])));
        lemma_kept_no_newline(t, None);
        let k = kept_rows(ls, block);
        if block matches Some(b) && in_row_body(ls[0], b) {
            assert(k == kept_rows(t, block));
        } else if is_skin_row_start(ls[0]) {
            assert(k == kept_rows(t, Some(indentation(ls[0]))));
        } else {
            let tail = kept_rows(t, None);
            assert forall|i: int| 0 <= i < k.len() implies no_newline(#[trigger] k[i]) by {
                if i > 0 {
                    assert(k[i] == tail[i - 1]);
                } else {
                    assert(no_newline(ls[0]));
                }
            }
        }
    }
}

/// Lines without Blue Fantasy rows, read outside any row body, pass through
/// the removal unchanged.
proof fn lemma_kept_prefix(a: Seq<Seq<char>>, t: Seq<Seq<char>>)
    requires
        no_skin_row(a),
    ensures
        kept_rows(a + t, None) == a + kept_rows(t, None),
    decreases a.len(),
{
    if a.len() == 0 {
        assert(a + t =~= t);
        assert(a + kept_rows(t, None) =~= kept_rows(t, None));
    } else {
        let a1 = a.drop_first();
        assert(!is_skin_row_start(a[0]));
        assert forall|i: int| 0 <= i < a1.len() implies !is_skin_row_start(#[trigger] a1[i]) by {
            assert(a1[i] == a[i + 1]);
        }
        lemma_kept_prefix(a1, t);
        assert((a + t)[0] == a[0]);
        assert((a + t).drop_first() =~= a1 + t);
        assert(seq![a[0]] + (a1 + kept_rows(t, None)) =~= a + kept_rows(t, None));
    }
}

/// The body of a Blue Fantasy row is removed with it.
proof fn lemma_body_dropped(b: Seq<Seq<char>>, t: Seq<Seq<char>>, k: int)
    requires
        forall|i: int| 0 <= i < b.len() ==> in_row_body(#[trigger] b[i], k),
    ensures
        kept_rows(b + t, Some(k)) == kept_rows(t, Some(k)),
    decreases b.len(),
{
    if b.len() == 0 {
        assert(b + t =~= t);
    } else {
        let b1 = b.drop_first();
        assert(in_row_body(b[0], k));
        assert forall|i: int| 0 <= i < b1.len() implies in_row_body(#[trigger] b1[i], k) by {
            assert(b1[i] == b[i + 1]);
        }
        lemma_body_dropped(b1, t, k);
        assert((b + t)[0] == b[0]);
        assert((b + t).drop_first() =~= b1 + t);
    }
}

proof fn lemma_marker_len()
    ensures
        ROW_MARKER@.len() == 5,
{
    reveal_strlit("- id:");
}

/// Dropping a final carriage return never makes a line a Blue Fantasy row.
proof fn lemma_strip_cr_skin(l: Seq<char>)
    ensures
        is_skin_row_start(strip_cr(l)) ==> is_skin_row_start(l),
{
    if l.len() > 0 && l.last() == '\r' && is_skin_row_start(strip_cr(l)) {
        let m = l.drop_last();
        let cr = seq!['\r'];
        assert(l =~= m + cr);
        lemma_marker_len();
        lemma_trim_start_concat(m, cr);
        let tm = trim_start(m);
        assert(tm.len() >= 5);
        assert((tm + cr).subrange(0, 5) =~= tm.subrange(0, 5));
        assert(trim_start(l) == tm + cr);
        assert(starts_with(trim_start(l), ROW_MARKER@));
        let y = tm.skip(5);
        assert((tm + cr).skip(5) =~= y + cr);
        if exists|i: int| is_comment_start(y, i) {
            lemma_without_comment_extend(y, cr);
        } else {
            assert forall|j: int| !is_comment_start(y + cr, j) by {
                if 0 <= j < y.len() {
                    lemma_no_comment_before(y, cr, j);
                } else if j == y.len() {
                    assert((y + cr)[j] == '\r');
                }
            }
            assert(without_comment(y + cr) == y + cr);
            assert(y + cr =~= y.push('\r'));
            lemma_trim_push_whitespace(y, '\r');
        }
        assert(row_id(l) == row_id(m));
    }
}

/// A trailing whitespace character does not change what `trim` keeps.
proof fn lemma_trim_push_whitespace(y: Seq<char>, c: char)
    requires
        is_whitespace(c),
    ensures
        trim(y.push(c)) == trim(y),
{
    let t = seq![c];
    assert(y.push(c) =~= y + t);
    lemma_trim_start_concat(y, t);
    lemma_trim_end_push_whitespace(trim_start(y), c);
    assert(trim_start(y) + t =~= trim_start(y).push(c));
    if trim_start(y).len() == 0 {
        assert(t.drop_first() =~= Seq::<char>::empty());
        assert(trim_start(t) == trim_start(Seq::<char>::empty()));
        assert(trim_start(Seq::<char>::empty()) == Seq::<char>::empty());
        assert(trim_start(y) =~= Seq::<char>::empty());
    }
}

/// A trailing whitespace character does not change what `trim_end` keeps.
proof fn lemma_trim_end_push_whitespace(x: Seq<char>, c: char)
    requires
        is_whitespace(c),
    ensures
        trim_end(x.push(c)) == trim_end(x),
{
    assert(x.push(c).last() == c);
    assert(x.push(c).drop_last() =~= x);
}

/// A kept list read back still holds no Blue Fantasy row.
proof fn lemma_read_back_no_skin(kept: Seq<Seq<char>>)
    requires
        no_skin_row(kept),
    ensures
        no_skin_row(read_back(kept)),
{
    let r = read_back(kept);
    lemma_marker_len();
    assert forall|i: int| 0 <= i < r.len() implies !is_skin_row_start(#[trigger] r[i]) by {
        if kept.len() == 0 {
            assert(r[i] == Seq::<char>::empty());
            assert(trim_start(Seq::<char>::empty()) == Seq::<char>::empty());
        } else {
            assert(r[i] == strip_cr(kept[i]));
            lemma_strip_cr_skin(kept[i]);
        }
    }
}

/// A file written from lines without newlines reads back as `read_back`.
proof fn lemma_written_reads_back(kept: Seq<Seq<char>>)
    requires
        forall|i: int| 0 <= i < kept.len() ==> no_newline(#[trigger] kept[i]),
    ensures
        lines_of(join_lines(kept) + seq!['\n']) == read_back(kept),
{
    if kept.len() == 0 {
        assert(join_lines(kept) + seq!['\n'] =~= Seq::<char>::empty() + seq!['\n']);
        lemma_line_single(Seq::empty(), Seq::empty());
        assert(Seq::<char>::empty() + Seq::<char>::empty() =~= Seq::<char>::empty());
        assert(strip_cr(Seq::<char>::empty()) == Seq::<char>::empty());
    } else {
        lemma_join_lines(kept);
        lemma_lines_of_rows_plain(kept);
    }
}

/// The lines kept from any patch file are free of newlines and of Blue
/// Fantasy rows.
proof fn lemma_patch_lines_plain(existing: Seq<char>)
    ensures
        forall|i: int| 0 <= i < patch_lines(existing).len() ==> no_newline(
            #[trigger] patch_lines(existing)[i],
        ),
        no_skin_row(patch_lines(existing)),
{
    lemma_lines_no_newline(Seq::empty(), existing);
    lemma_kept_no_newline(lines_of(existing), None);
    lemma_kept_no_skin(lines_of(existing), None);
}

/// The disabling row reads as a Blue Fantasy row start and its
/// `  disabled: true` body.
proof fn lemma_disabling_row()
    ensures
        lines_of(BLUE_FANTASY_DISABLED@ + seq!['\n']) == seq![
            "- id: ui-skin-blue-fantasy"@,
            "  disabled: true"@,
        ],
        is_skin_row_start("- id: ui-skin-blue-fantasy"@),
        !is_skin_row_start("  disabled: true"@),
        !is_row_start("  disabled: true"@),
        kept_rows(seq!["- id: ui-skin-blue-fantasy"@, "  disabled: true"@], None) == Seq::<
            Seq<char>,
        >::empty(),
{
    reveal_strlit("- id: ui-skin-blue-fantasy\n  disabled: true");
    reveal_strlit("- id: ui-skin-blue-fantasy");
    reveal_strlit("  disabled: true");
    reveal_strlit("ui-skin-blue-fantasy");
    reveal_strlit("- id:");
    let row = "- id: ui-skin-blue-fantasy"@;
    let dis = "  disabled: true"@;
    let nl = seq!['\n'];
    assert(BLUE_FANTASY_DISABLED@ =~= row + nl + dis);
    assert(no_newline(row));
    assert(no_newline(dis));
    lemma_lines_split(Seq::empty(), row, dis + nl);
    assert(BLUE_FANTASY_DISABLED@ + nl =~= row + nl + (dis + nl));
    lemma_line_single(Seq::empty(), row);
    assert(Seq::<char>::empty() + row =~= row);
    assert(Seq::<char>::empty() + dis =~= dis);
    lemma_line_single(Seq::empty(), dis);
    lemma_lines_split(Seq::empty(), dis, Seq::empty());
    assert(dis + nl + Seq::<char>::empty() =~= dis + nl);
    assert(lines_of(dis + nl) == seq![dis]);
    assert(lines_of(row + nl) == seq![row]);
    assert(seq![row] + seq![dis] =~= seq![row, dis]);
    // the row itself
    assert(trim_start(row) == row);
    assert(row.subrange(0, 5) =~= ROW_MARKER@);
    let v = row.skip(5);
    assert forall|i: int| !is_comment_start(v, i) by {
        if 0 < i < v.len() {
            assert(v[i] == row[i + 5]);
        }
    }
    assert(without_comment(v) == v);
    assert(v.drop_first() =~= BLUE_FANTASY_ID@);
    assert(trim_start(v) == trim_start(v.drop_first()));
    assert(trim_start(BLUE_FANTASY_ID@) == BLUE_FANTASY_ID@);
    assert(trim_end(BLUE_FANTASY_ID@) == BLUE_FANTASY_ID@);
    assert(row_id(row) == BLUE_FANTASY_ID@);
    assert(indentation(row) == 0);
    // its body
    assert(dis.drop_first().drop_first() =~= dis.subrange(2, 16));
    assert(trim_start(dis) == trim_start(dis.drop_first()));
    assert(trim_start(dis.drop_first()) == trim_start(dis.drop_first().drop_first()));
    assert(trim_start(dis.subrange(2, 16)) == dis.subrange(2, 16));
    assert(trim_start(dis).subrange(0, 5)[0] == 'd');
    assert(in_row_body(dis, 0));
    // the removal of the two lines
    let two = seq![row, dis];
    assert(two.drop_first() =~= seq![dis]);
    assert(seq![dis].drop_first() =~= Seq::<Seq<char>>::empty());
    assert(kept_rows(seq![dis], Some(0)) == kept_rows(Seq::<Seq<char>>::empty(), Some(0)));
}

/// Lines without Blue Fantasy rows, then the disabling row, then more such
/// lines, hold exactly one disabling row.
proof fn lemma_one_disabling_row(p: Seq<Seq<char>>, q: Seq<Seq<char>>)
    requires
        no_skin_row(p),
        no_skin_row(q),
    ensures
        one_disabling_row(p + seq!["- id: ui-skin-blue-fantasy"@, "  disabled: true"@] + q),
{
    lemma_disabling_row();
    let row = "- id: ui-skin-blue-fantasy"@;
    let dis = "  disabled: true"@;
    let ls = p + seq![row, dis] + q;
    let i = p.len() as int;
    assert(ls[i] == row);
    assert(ls[i + 1] == dis);
    assert forall|j: int| 0 <= j < ls.len() && j != i implies !is_skin_row_start(#[trigger] ls[j]) by {
        if j < i {
            assert(ls[j] == p[j]);
        } else if j == i + 1 {
        } else {
            assert(ls[j] == q[j - i - 2]);
        }
    }
    assert(is_skin_row_start(ls[i]));
}

/// Reading back the kept lines of a file whose kept lines end in no carriage
/// return gives them unchanged, or one empty line for none; writing those
/// gives the same text.
proof fn lemma_read_back_rewrites_same(kept: Seq<Seq<char>>)
    requires
        no_cr_ending(kept),
    ensures
        join_lines(read_back(kept)) == join_lines(kept),
        kept.len() > 0 ==> read_back(kept) == kept,
        kept.len() == 0 ==> !has_row_start(read_back(kept)) && !has_empty_list(read_back(kept)),
{
    let back = read_back(kept);
    if kept.len() == 0 {
        assert(back =~= seq![Seq::<char>::empty()]);
        assert(join_lines(back) == Seq::<char>::empty());
        assert(join_lines(kept) == Seq::<char>::empty());
        lemma_marker_len();
        assert(trim_start(back[0]) == Seq::<char>::empty());
        assert(!is_row_start(back[0]));
        reveal_strlit("[]");
        assert(trim(back[0]) == Seq::<char>::empty());
        assert(!is_empty_list(back[0]));
    } else {
        assert(back =~= kept);
    }
}

/// The patch lines of the file written by switching on are its kept lines
/// read back.
proof fn lemma_patch_lines_after_on(existing: Seq<char>)
    ensures
        patch_lines(theme_patch_text(existing, true)) == read_back(patch_lines(existing)),
{
    let kept = patch_lines(existing);
    lemma_patch_lines_plain(existing);
    lemma_written_reads_back(kept);
    lemma_read_back_no_skin(kept);
    lemma_kept_prefix(read_back(kept), Seq::empty());
    assert(read_back(kept) + Seq::<Seq<char>>::empty() =~= read_back(kept));
    assert(kept_rows(Seq::<Seq<char>>::empty(), None) == Seq::<Seq<char>>::empty());
}

/// The patch lines of the file written by switching off, when the disabling
/// row was appended, are its kept lines read back.
proof fn lemma_patch_lines_after_appended_off(existing: Seq<char>)
    requires
        has_row_start(patch_lines(existing)) || !has_empty_list(patch_lines(existing)),
    ensures
        patch_lines(theme_patch_text(existing, false)) == read_back(patch_lines(existing)),
        lines_of(theme_patch_text(existing, false)) == read_back(patch_lines(existing)) + seq![
            "- id: ui-skin-blue-fantasy"@,
            "  disabled: true"@,
        ],
{
    let kept = patch_lines(existing);
    let nl = seq!['\n'];
    let d = BLUE_FANTASY_DISABLED@;
    let row = "- id: ui-skin-blue-fantasy"@;
    let dis = "  disabled: true"@;
    let off = theme_patch_text(existing, false);
    lemma_patch_lines_plain(existing);
    lemma_disabling_row();
    assert(off == join_lines(kept) + nl + d + nl);
    assert(off =~= join_lines(kept) + nl + (d + nl));
    lemma_lines_split(Seq::empty(), join_lines(kept), d + nl);
    lemma_written_reads_back(kept);
    lemma_read_back_no_skin(kept);
    let back = read_back(kept);
    assert(lines_of(off) =~= back + seq![row, dis]);
    lemma_kept_prefix(back, seq![row, dis]);
    assert(back + Seq::<Seq<char>>::empty() =~= back);
}

/// Switching the skin on leaves no Blue Fantasy row in the file.
pub proof fn law_switch_on_removes_skin_rows(existing: Seq<char>)
    ensures
        no_skin_row(lines_of(theme_patch_text(existing, true))),
{
    let kept = patch_lines(existing);
    lemma_patch_lines_plain(existing);
    lemma_written_reads_back(kept);
    lemma_read_back_no_skin(kept);
}

/// Switching the skin on keeps every other line of the file, in order; each
/// reads back without a final carriage return, and a file left with no line
/// reads back as one empty line.
pub proof fn law_switch_on_keeps_other_lines(existing: Seq<char>)
    ensures
        lines_of(theme_patch_text(existing, true)) == read_back(patch_lines(existing)),
{
    lemma_patch_lines_plain(existing);
    lemma_written_reads_back(patch_lines(existing));
}

/// Switching the skin on removes exactly the Blue Fantasy row and its body:
/// in a file of other rows, one Blue Fantasy row, its body (the lines after
/// it that begin with a space, up to the next row start indented no deeper
/// than it) and more other rows, every other row and its body is written
/// back verbatim.
pub proof fn law_switch_on_removes_exactly_the_skin_row(
    before: Seq<Seq<char>>,
    row: Seq<char>,
    body: Seq<Seq<char>>,
    after: Seq<Seq<char>>,
)
    requires
        no_skin_row(before),
        is_skin_row_start(row),
        forall|i: int|
            0 <= i < body.len() ==> {
                &&& (#[trigger] body[i]).len() > 0
                &&& body[i][0] == ' '
                &&& !(is_row_start(body[i]) && indentation(body[i]) <= indentation(row))
            },
        after.len() > 0 ==> !(after[0].len() > 0 && after[0][0] == ' ' && !(is_row_start(after[0])
            && indentation(after[0]) <= indentation(row))),
        no_skin_row(after),
        forall|i: int| 0 <= i < (before + seq![row] + body + after).len() ==> no_newline(
            #[trigger] (before + seq![row] + body + after)[i],
        ),
        no_cr_ending(before + seq![row] + body + after),
    ensures
        theme_patch_text(join_lines(before + seq![row] + body + after) + seq!['\n'], true)
            == join_lines(before + after) + seq!['\n'],
{
    let ls = before + seq![row] + body + after;
    let existing = join_lines(ls) + seq!['\n'];
    lemma_written_reads_back(ls);
    assert(read_back(ls) =~= ls);
    assert(lines_of(existing) == ls);
    let rest = seq![row] + body + after;
    assert(ls =~= before + rest);
    lemma_kept_prefix(before, rest);
    assert(rest[0] == row);
    assert(rest.drop_first() =~= body + after);
    let k = indentation(row);
    lemma_body_dropped(body, after, k);
    assert(kept_rows(rest, None) == kept_rows(body + after, Some(k)));
    if after.len() > 0 {
        assert(!is_skin_row_start(after[0]));
        lemma_kept_prefix(after.drop_first(), Seq::empty());
        assert forall|i: int| 0 <= i < after.drop_first().len() implies !is_skin_row_start(
            #[trigger] after.drop_first()[i],
        ) by {
            assert(after.drop_first()[i] == after[i + 1]);
        }
        lemma_kept_prefix(after.drop_first(), Seq::empty());
        assert(after.drop_first() + Seq::<Seq<char>>::empty() =~= after.drop_first());
        assert(kept_rows(Seq::<Seq<char>>::empty(), None) == Seq::<Seq<char>>::empty());
        assert(seq![after[0]] + after.drop_first() =~= after);
    }
    assert(kept_rows(after, Some(k)) == after);
    assert(patch_lines(existing) == before + after);
}

/// Switching the skin off leaves exactly one Blue Fantasy row, the
/// disabling one.
pub proof fn law_switch_off_leaves_one_disabling_row(existing: Seq<char>)
    ensures
        one_disabling_row(lines_of(theme_patch_text(existing, false))),
{
    let kept = patch_lines(existing);
    let nl = seq!['\n'];
    let d = BLUE_FANTASY_DISABLED@;
    let row = "- id: ui-skin-blue-fantasy"@;
    let dis = "  disabled: true"@;
    lemma_patch_lines_plain(existing);
    lemma_disabling_row();
    if has_row_start(kept) || !has_empty_list(kept) {
        lemma_patch_lines_after_appended_off(existing);
        lemma_read_back_no_skin(kept);
        assert(read_back(kept) + seq![row, dis] =~= read_back(kept) + seq![row, dis] + Seq::<
            Seq<char>,
        >::empty());
        lemma_one_disabling_row(read_back(kept), Seq::empty());
    } else {
        let p = first_empty_list(kept);
        let ex = choose|i: int| 0 <= i < kept.len() && is_empty_list(#[trigger] kept[i]);
        lemma_first_empty_list_exists(kept, ex);
        let rows = kept.update(p, d);
        let a = kept.take(p);
        let b = kept.skip(p + 1);
        assert(rows =~= a + seq![d] + b);
        assert(theme_patch_text(existing, false) == join_lines(rows) + nl);
        lemma_join_lines(rows);
        lemma_lines_of_rows_concat(a + seq![d], b);
        lemma_lines_of_rows_concat(a, seq![d]);
        assert(seq![d].drop_last() =~= Seq::<Seq<char>>::empty());
        assert(lines_of_rows(Seq::<Seq<char>>::empty()) == Seq::<Seq<char>>::empty());
        assert(lines_of_rows(seq![d]) =~= seq![row, dis]);
        assert forall|i: int| 0 <= i < a.len() implies no_newline(#[trigger] a[i]) by {
            assert(a[i] == kept[i]);
        }
        assert forall|i: int| 0 <= i < b.len() implies no_newline(#[trigger] b[i]) by {
            assert(b[i] == kept[i + p + 1]);
        }
        lemma_lines_of_rows_plain(a);
        lemma_lines_of_rows_plain(b);
        let pa = a.map_values(|l: Seq<char>| strip_cr(l));
        let pb = b.map_values(|l: Seq<char>| strip_cr(l));
        assert forall|i: int| 0 <= i < pa.len() implies !is_skin_row_start(#[trigger] pa[i]) by {
            assert(pa[i] == strip_cr(kept[i]));
            lemma_strip_cr_skin(kept[i]);
        }
        assert forall|i: int| 0 <= i < pb.len() implies !is_skin_row_start(#[trigger] pb[i]) by {
            assert(pb[i] == strip_cr(kept[i + p + 1]));
            lemma_strip_cr_skin(kept[i + p + 1]);
        }
        lemma_one_disabling_row(pa, pb);
    }
}

/// The first bare empty list exists once some bare empty list does.
proof fn lemma_first_empty_list_exists(ls: Seq<Seq<char>>, i: int)
    requires
        0 <= i < ls.len(),
        is_empty_list(ls[i]),
    ensures
        is_first_empty_list(ls, first_empty_list(ls)),
    decreases i,
{
    if exists|j: int| 0 <= j < i && is_empty_list(#[trigger] ls[j]) {
        let j = choose|j: int| 0 <= j < i && is_empty_list(#[trigger] ls[j]);
        lemma_first_empty_list_exists(ls, j);
    } else {
        assert(is_first_empty_list(ls, i));
    }
}

/// Switching the skin on twice writes what switching it on once wrote, when
/// no kept line ends with a carriage return.
pub proof fn law_switch_on_is_idempotent(existing: Seq<char>)
    requires
        no_cr_ending(patch_lines(existing)),
    ensures
        theme_patch_text(theme_patch_text(existing, true), true) == theme_patch_text(
            existing,
            true,
        ),
{
    lemma_patch_lines_after_on(existing);
    lemma_read_back_rewrites_same(patch_lines(existing));
}

/// Switching the skin on and then off writes what switching it off writes,
/// when no kept line ends with a carriage return.
pub proof fn law_switch_on_then_off(existing: Seq<char>)
    requires
        no_cr_ending(patch_lines(existing)),
    ensures
        theme_patch_text(theme_patch_text(existing, true), false) == theme_patch_text(
            existing,
            false,
        ),
{
    lemma_patch_lines_after_on(existing);
    lemma_read_back_rewrites_same(patch_lines(existing));
}

/// Switching the skin off and then on writes what switching it on writes,
/// when the disabling row was appended rather than put in place of a bare
/// empty list, and no kept line ends with a carriage return.
pub proof fn law_switch_off_then_on(existing: Seq<char>)
    requires
        has_row_start(patch_lines(existing)) || !has_empty_list(patch_lines(existing)),
        no_cr_ending(patch_lines(existing)),
    ensures
        theme_patch_text(theme_patch_text(existing, false), true) == theme_patch_text(
            existing,
            true,
        ),
{
    lemma_patch_lines_after_appended_off(existing);
    lemma_read_back_rewrites_same(patch_lines(existing));
}

/// Switching the skin off twice writes what switching it off once wrote,
/// when the disabling row was appended rather than put in place of a bare
/// empty list, and no kept line ends with a carriage return.
pub proof fn law_switch_off_is_idempotent(existing: Seq<char>)
    requires
        has_row_start(patch_lines(existing)) || !has_empty_list(patch_lines(existing)),
        no_cr_ending(patch_lines(existing)),
    ensures
        theme_patch_text(theme_patch_text(existing, false), false) == theme_patch_text(
            existing,
            false,
        ),
{
    lemma_patch_lines_after_appended_off(existing);
    lemma_read_back_rewrites_same(patch_lines(existing));
}
/// A trailing comment does not change which row a line starts: a Blue
/// Fantasy row stays one with ` #` and any comment after it.
pub proof fn law_trailing_comment_keeps_the_skin_row(l: Seq<char>, comment: Seq<char>)
    requires
        is_skin_row_start(l),
    ensures
        is_skin_row_start(l + seq![' ', '#'] + comment),
{
    let t = seq![' ', '#'] + comment;
    let l2 = l + seq![' ', '#'] + comment;
    assert(l2 =~= l + t);
    lemma_marker_len();
    lemma_trim_start_concat(l, t);
    let tl = trim_start(l);
    assert(tl.len() >= 5);
    assert(trim_start(l2) == tl + t);
    assert((tl + t).subrange(0, 5) =~= tl.subrange(0, 5));
    let y = tl.skip(5);
    assert((tl + t).skip(5) =~= y + t);
    if exists|i: int| is_comment_start(y, i) {
        lemma_without_comment_extend(y, t);
    } else {
        let z = y + t;
        let k = y.len() as int + 1;
        assert(z[k] == '#');
        assert(z[k - 1] == ' ');
        assert forall|j: int| 0 <= j < k implies !is_comment_start(z, j) by {
            if j < y.len() {
                lemma_no_comment_before(y, t, j);
            } else {
                assert(z[j] == ' ');
            }
        }
        assert(is_first_comment_start(z, k));
        lemma_first_comment_unique(z, k);
        assert(z.take(k) =~= y.push(' '));
        lemma_trim_push_whitespace(y, ' ');
    }
    assert(row_id(l2) == row_id(l));
}

/// When the kept lines hold a row, or no bare empty list, switching the skin
/// off writes what switching it on writes, followed by the disabling row and
/// a newline.
pub proof fn law_switch_off_appends_to_switch_on(existing: Seq<char>)
    requires
        has_row_start(patch_lines(existing)) || !has_empty_list(patch_lines(existing)),
    ensures
        theme_patch_text(existing, false) == theme_patch_text(existing, true)
            + BLUE_FANTASY_DISABLED@ + seq!['\n'],
{
}


/// A line of whitespace, `- id:`, whitespace, an id and whitespace starts a
/// row indented by the leading whitespace, whose id is that id; it is a Blue
/// Fantasy row exactly when the id is `ui-skin-blue-fantasy`, bare, in single
/// quotes or in double quotes.
pub proof fn law_skin_row_is_the_row_with_the_skin_id(
    ind: Seq<char>,
    sp: Seq<char>,
    v: Seq<char>,
    sp2: Seq<char>,
)
    requires
        forall|i: int| 0 <= i < ind.len() ==> is_whitespace(#[trigger] ind[i]),
        forall|i: int| 0 <= i < sp.len() ==> is_whitespace(#[trigger] sp[i]),
        forall|i: int| 0 <= i < sp2.len() ==> is_whitespace(#[trigger] sp2[i]),
        v.len() > 0,
        !is_whitespace(v[0]),
        !is_whitespace(v.last()),
        forall|i: int| 0 <= i < v.len() ==> v[i] != '#',
    ensures
        ({
            let l = ind + "- id:"@ + sp + v + sp2;
            &&& is_row_start(l)
            &&& indentation(l) == ind.len()
            &&& row_id(l) == v
            &&& is_skin_row_start(l) <==> (v == "ui-skin-blue-fantasy"@ || v
                == "'ui-skin-blue-fantasy'"@ || v == "\"ui-skin-blue-fantasy\""@)
        }),
{
    reveal_strlit("- id:");
    reveal_strlit("ui-skin-blue-fantasy");
    reveal_strlit("'ui-skin-blue-fantasy'");
    reveal_strlit("\"ui-skin-blue-fantasy\"");
    lemma_marker_len();
    let m = "- id:"@;
    let x = sp + v + sp2;
    let rest = m + x;
    let l = ind + m + sp + v + sp2;
    assert(l =~= ind + rest);
    crate::text::lemma_trim_start_of_whitespace(ind, rest);
    assert(rest[0] == '-');
    assert(trim_start(rest) == rest);
    assert(trim_start(l) == rest);
    assert(rest.subrange(0, 5) =~= m);
    assert(is_row_start(l));
    assert(rest.skip(5) =~= x);
    assert forall|i: int| !is_comment_start(x, i) by {
        if 0 < i < x.len() {
            if i < sp.len() {
                assert(x[i] == sp[i]);
            } else if i < sp.len() + v.len() {
                assert(x[i] == v[i - sp.len()]);
            } else {
                assert(x[i] == sp2[i - sp.len() - v.len()]);
            }
        }
    }
    assert(without_comment(x) == x);
    assert(x =~= sp + (v + sp2));
    crate::text::lemma_trim_start_of_whitespace(sp, v + sp2);
    assert((v + sp2)[0] == v[0]);
    assert(trim_start(v + sp2) == v + sp2);
    crate::text::lemma_trim_end_of_whitespace(v, sp2);
    assert(row_id(l) == v);
}

/// In a file whose kept lines hold no row but a bare empty list, switching
/// the skin off puts the disabling row in place of the first bare empty list
/// and keeps every other line where it was.
pub proof fn law_switch_off_fills_the_first_empty_list(existing: Seq<char>, p: int)
    requires
        !has_row_start(patch_lines(existing)),
        is_first_empty_list(patch_lines(existing), p),
        no_cr_ending(patch_lines(existing)),
    ensures
        lines_of(theme_patch_text(existing, false)) == patch_lines(existing).take(p) + seq![
            "- id: ui-skin-blue-fantasy"@,
            "  disabled: true"@,
        ] + patch_lines(existing).skip(p + 1),
{
    let kept = patch_lines(existing);
    let d = BLUE_FANTASY_DISABLED@;
    let row = "- id: ui-skin-blue-fantasy"@;
    let dis = "  disabled: true"@;
    lemma_patch_lines_plain(existing);
    lemma_disabling_row();
    lemma_first_empty_list_exists(kept, p);
    let q = first_empty_list(kept);
    if q < p {
        assert(!is_empty_list(kept[q]));
    }
    if p < q {
        assert(!is_empty_list(kept[p]));
    }
    assert(q == p);
    assert(has_empty_list(kept));
    let rows = kept.update(p, d);
    let a = kept.take(p);
    let b = kept.skip(p + 1);
    assert(rows =~= a + seq![d] + b);
    assert(theme_patch_text(existing, false) == join_lines(rows) + seq!['\n']);
    lemma_join_lines(rows);
    lemma_lines_of_rows_concat(a + seq![d], b);
    lemma_lines_of_rows_concat(a, seq![d]);
    assert(seq![d].drop_last() =~= Seq::<Seq<char>>::empty());
    assert(lines_of_rows(Seq::<Seq<char>>::empty()) == Seq::<Seq<char>>::empty());
    assert(lines_of_rows(seq![d]) =~= seq![row, dis]);
    assert forall|i: int| 0 <= i < a.len() implies no_newline(#[trigger] a[i]) by {
        assert(a[i] == kept[i]);
    }
    assert forall|i: int| 0 <= i < b.len() implies no_newline(#[trigger] b[i]) by {
        assert(b[i] == kept[i + p + 1]);
    }
    lemma_lines_of_rows_plain(a);
    lemma_lines_of_rows_plain(b);
    assert(a.map_values(|l: Seq<char>| strip_cr(l)) =~= a) by {
        assert forall|i: int| 0 <= i < a.len() implies strip_cr(#[trigger] a[i]) == a[i] by {
            assert(a[i] == kept[i]);
        }
    }
    assert(b.map_values(|l: Seq<char>| strip_cr(l)) =~= b) by {
        assert forall|i: int| 0 <= i < b.len() implies strip_cr(#[trigger] b[i]) == b[i] by {
            assert(b[i] == kept[i + p + 1]);
        }
    }
}

} // verus!
