//! The readiness protocol between the harness web server and the shell.
//!
//! The server prints `dsh web: http://127.0.0.1:<port>` once it listens; the
//! shell reads its stdout line by line for that URL and hands it to the
//! thread that navigates the window. A failure to start the server travels on
//! the same channel, tagged so that it cannot be taken for a URL.

use vstd::prelude::*;
use vstd::string::*;
use crate::text::{
    chars_of, concat, contains, find_in_range, first_occurrence, is_first_occurrence, is_whitespace,
    is_whitespace_char, lemma_first_occurrence_unique, lemma_trim_start_of_whitespace,
    skip_whitespace, starts_with, starts_with_range, str_starts_with,
    trim_start,
};

verus! {

/// The label of the readiness line the server prints once it listens:
/// `dsh web: http://127.0.0.1:<port>`. Only the label is matched; the URL
/// after it is kept whole for the scheme check.
pub const URL_LINE_PREFIX: &'static str = "dsh web: ";

/// The tag in front of a message that reports a failure to start the server.
pub const SPAWN_ERROR_TAG: &'static str = "__ERROR__";

/// The tag and the space that precede the error text in such a message.
pub const SPAWN_ERROR_HEAD: &'static str = "__ERROR__ ";

/// The number of characters at the front of `t` that are not whitespace.
pub open spec fn word_len(t: Seq<char>) -> nat
    decreases t.len(),
{
    if t.len() > 0 && !is_whitespace(t[0]) {
        1 + word_len(t.drop_first())
    } else {
        0
    }
}

/// The first whitespace-separated word of `s`, empty when there is none.
pub open spec fn first_word(s: Seq<char>) -> Seq<char> {
    trim_start(s).take(word_len(trim_start(s)) as int)
}

/// `w` names an `http` or `https` URL.
pub open spec fn has_http_scheme(w: Seq<char>) -> bool {
    starts_with(w, "http://"@) || starts_with(w, "https://"@)
}

/// The harness URL on a stdout line, if it is the readiness line: the first
/// word after the first occurrence of the label, when it is an `http` or
/// `https` URL.
pub open spec fn harness_url_spec(line: Seq<char>) -> Option<Seq<char>> {
    match first_occurrence(line, URL_LINE_PREFIX@) {
        None => None,
        Some(p) => {
            let w = first_word(line.skip(p + URL_LINE_PREFIX@.len()));
            if has_http_scheme(w) {
                Some(w)
            } else {
                None
            }
        },
    }
}

/// The end of the word of non-whitespace characters that starts at `a`.
fn word_end(chars: &Vec<char>, a: usize, end: usize) -> (b: usize)
    requires
        a <= end <= chars.len(),
    ensures
        a <= b <= end,
        b - a == word_len(chars@.subrange(a as int, end as int)),
{
    let mut b = a;
    while b < end && !is_whitespace_char(chars[b])
        invariant
            a <= b <= end <= chars.len(),
            word_len(chars@.subrange(a as int, end as int)) == (b - a) + word_len(
                chars@.subrange(b as int, end as int),
            ),
        decreases end - b,
    {
        assert(chars@.subrange(b as int, end as int).drop_first() =~= chars@.subrange(
            b + 1,
            end as int,
        ));
        b += 1;
    }
    b
}

/// Pulls the harness URL out of a stdout line, if it is the readiness line.
pub fn harness_url_of(line: &str) -> (res: Option<String>)
    ensures
        match harness_url_spec(line@) {
            Some(u) => res matches Some(r) && r@ == u,
            None => res is None,
        },
{
    let chars = chars_of(line);
    let prefix = chars_of(URL_LINE_PREFIX);
    let http = chars_of("http://");
    let https = chars_of("https://");
    let n = chars.len();
    assert(chars@.subrange(0, n as int) =~= line@);
    let p = match find_in_range(&chars, 0, n, &prefix) {
        None => {
            return None;
        },
        Some(p) => p,
    };
    let start = p + prefix.len();
    let ghost rest = line@.skip(start as int);
    assert(chars@.subrange(start as int, n as int) =~= rest);
    let a = skip_whitespace(&chars, start, n);
    let b = word_end(&chars, a, n);
    let ghost w = first_word(rest);
    assert(chars@.subrange(a as int, b as int) =~= w);
    if starts_with_range(&chars, a, b, &http) || starts_with_range(&chars, a, b, &https) {
        let s = line.substring_char(a, b);
        Some(String::from_str(s))
    } else {
        None
    }
}

/// What the navigating thread receives: the harness URL, or the report of a
/// failure to start the server.
pub enum Readiness {
    Url(String),
    Failed(String),
}

/// The message that reports a failure to start the server.
pub fn spawn_failure_message(error: &str) -> (msg: String)
    ensures
        msg@ == SPAWN_ERROR_HEAD@ + error@,
{
    concat(SPAWN_ERROR_HEAD, error)
}

/// Reads a message of the readiness channel: one that starts with the error
/// tag reports a failure, any other is the harness URL.
pub fn readiness_of(msg: String) -> (r: Readiness)
    ensures
        match r {
            Readiness::Failed(m) => starts_with(msg@, SPAWN_ERROR_TAG@) && m@ == msg@,
            Readiness::Url(u) => !starts_with(msg@, SPAWN_ERROR_TAG@) && u@ == msg@,
        },
{
    if str_starts_with(msg.as_str(), SPAWN_ERROR_TAG) {
        Readiness::Failed(msg)
    } else {
        Readiness::Url(msg)
    }
}

/// A reported failure to start the server is read back as a failure,
/// whatever its text.
pub proof fn law_spawn_failure_reads_as_failure(error: Seq<char>)
    ensures
        starts_with(SPAWN_ERROR_HEAD@ + error, SPAWN_ERROR_TAG@),
{
    reveal_strlit("__ERROR__ ");
    reveal_strlit("__ERROR__");
    assert((SPAWN_ERROR_HEAD@ + error).subrange(0, 9) =~= SPAWN_ERROR_TAG@);
}

/// A URL taken from the readiness line is one word with an `http` or `https`
/// scheme, and the readiness channel reads it back as a URL, never as a
/// failure.
pub proof fn law_harness_url_reads_as_url(line: Seq<char>)
    ensures
        harness_url_spec(line) matches Some(u) ==> {
            &&& has_http_scheme(u)
            &&& forall|i: int| 0 <= i < u.len() ==> !is_whitespace(#[trigger] u[i])
            &&& !starts_with(u, SPAWN_ERROR_TAG@)
        },
{
    if let Some(u) = harness_url_spec(line) {
        reveal_strlit("http://");
        reveal_strlit("https://");
        reveal_strlit("__ERROR__");
        let p = first_occurrence(line, URL_LINE_PREFIX@)->0;
        let t = trim_start(line.skip(p + URL_LINE_PREFIX@.len()));
        lemma_word_has_no_whitespace(t);
        assert(u == t.take(word_len(t) as int));
        assert forall|i: int| 0 <= i < u.len() implies !is_whitespace(#[trigger] u[i]) by {
            assert(u[i] == t[i]);
        }
        if starts_with(u, "http://"@) {
            assert(u.subrange(0, 7)[0] == u[0]);
        } else {
            assert(u.subrange(0, 8)[0] == u[0]);
        }
        assert(u[0] == 'h');
        if starts_with(u, SPAWN_ERROR_TAG@) {
            assert(u.subrange(0, 9)[0] == u[0]);
        }
    }
}

/// The first word holds no whitespace.
proof fn lemma_word_has_no_whitespace(t: Seq<char>)
    ensures
        word_len(t) <= t.len(),
        forall|i: int| 0 <= i < word_len(t) ==> !is_whitespace(#[trigger] t[i]),
    decreases t.len(),
{
    if t.len() > 0 && !is_whitespace(t[0]) {
        lemma_word_has_no_whitespace(t.drop_first());
        assert forall|i: int| 0 <= i < word_len(t) implies !is_whitespace(#[trigger] t[i]) by {
            if i > 0 {
                assert(t[i] == t.drop_first()[i - 1]);
            }
        }
    }
}


/// A word ends where whitespace or the text does.
proof fn lemma_word_len_of_word(w: Seq<char>, b: Seq<char>)
    requires
        forall|i: int| 0 <= i < w.len() ==> !is_whitespace(#[trigger] w[i]),
        b.len() == 0 || is_whitespace(b[0]),
    ensures
        word_len(w + b) == w.len(),
    decreases w.len(),
{
    if w.len() == 0 {
        assert(w + b =~= b);
    } else {
        assert((w + b)[0] == w[0]);
        assert((w + b).drop_first() =~= w.drop_first() + b);
        let w1 = w.drop_first();
        assert forall|i: int| 0 <= i < w1.len() implies !is_whitespace(#[trigger] w1[i]) by {
            assert(w1[i] == w[i + 1]);
        }
        lemma_word_len_of_word(w1, b);
    }
}

/// A line that holds the label, then spaces, then a word ending at
/// whitespace or at the end of the line, gives that whole word when it has an
/// `http` or `https` scheme, whatever its length and whatever comes before
/// the label or after the word, and nothing when it has another. A line
/// without the label gives nothing.
pub proof fn law_readiness_line_gives_its_url(
    before: Seq<char>,
    spaces: Seq<char>,
    w: Seq<char>,
    after: Seq<char>,
)
    ensures
        ({
            let line = before + "dsh web: "@ + spaces + w + after;
            (is_first_occurrence(line, "dsh web: "@, before.len() as int)
                && (forall|i: int| 0 <= i < spaces.len() ==> is_whitespace(#[trigger] spaces[i]))
                && w.len() > 0
                && (forall|i: int| 0 <= i < w.len() ==> !is_whitespace(#[trigger] w[i]))
                && (after.len() == 0 || is_whitespace(after[0])))
                ==> harness_url_spec(line) == if starts_with(w, "http://"@) || starts_with(
                    w,
                    "https://"@,
                ) {
                    Some(w)
                } else {
                    None
                }
        }),
        !contains(before, "dsh web: "@) ==> harness_url_spec(before) is None,
{
    reveal_strlit("dsh web: ");
    assert(URL_LINE_PREFIX@ == "dsh web: "@);
    let line = before + URL_LINE_PREFIX@ + spaces + w + after;
    if is_first_occurrence(line, URL_LINE_PREFIX@, before.len() as int) && (forall|i: int|
        0 <= i < spaces.len() ==> is_whitespace(#[trigger] spaces[i])) && w.len() > 0 && (forall|
        i: int|
        0 <= i < w.len() ==> !is_whitespace(#[trigger] w[i])) && (after.len() == 0
        || is_whitespace(after[0])) {
        lemma_first_occurrence_unique(line, URL_LINE_PREFIX@, before.len() as int);
        let p = before.len() as int;
        assert(line.skip(p + URL_LINE_PREFIX@.len()) =~= spaces + (w + after));
        lemma_trim_start_of_whitespace(spaces, w + after);
        assert((w + after)[0] == w[0]);
        assert(!is_whitespace(w[0]));
        assert(trim_start(w + after) == w + after);
        lemma_word_len_of_word(w, after);
        assert((w + after).take(w.len() as int) =~= w);
        assert(first_word(line.skip(p + URL_LINE_PREFIX@.len())) == w);
    }
}

} // verus!
