//! Character-level scanning: whitespace, words, lines, trimming and substring
//! search, all stated over `Seq<char>`.

use vstd::prelude::*;
use vstd::string::*;

verus! {

/// A half-open range `start..end` of character positions in some text.
#[derive(Clone, Copy, Debug, PartialEq, Eq)]
pub struct Span {
    pub start: usize,
    pub end: usize,
}

impl View for Span {
    type V = (int, int);

    open spec fn view(&self) -> (int, int) {
        (self.start as int, self.end as int)
    }
}

/// The characters of `s` that the range `span` covers.
pub open spec fn span_text(s: Seq<char>, span: (int, int)) -> Seq<char> {
    s.subrange(span.0, span.1)
}

/// Characters with the Unicode `White_Space` property.
pub open spec fn is_whitespace(c: char) -> bool {
    ||| '\u{9}' <= c <= '\u{d}'
    ||| c == ' '
    ||| c == '\u{85}'
    ||| c == '\u{a0}'
    ||| c == '\u{1680}'
    ||| '\u{2000}' <= c <= '\u{200a}'
    ||| c == '\u{2028}'
    ||| c == '\u{2029}'
    ||| c == '\u{202f}'
    ||| c == '\u{205f}'
    ||| c == '\u{3000}'
}

/// Decides whether `c` is a whitespace character.
pub fn char_is_whitespace(c: char) -> (b: bool)
    ensures
        b == is_whitespace(c),
{
    ('\u{9}' <= c && c <= '\u{d}') || c == ' ' || c == '\u{85}' || c == '\u{a0}' || c == '\u{1680}'
        || ('\u{2000}' <= c && c <= '\u{200a}') || c == '\u{2028}' || c == '\u{2029}' || c
        == '\u{202f}' || c == '\u{205f}' || c == '\u{3000}'
}

/// The characters of a string slice, one vector element per `char`.
pub fn to_chars(s: &str) -> (chars: Vec<char>)
    ensures
        chars@ == s@,
{
    let mut chars: Vec<char> = Vec::new();
    for c in it: s.chars()
        invariant
            it.seq() == s@,
            chars@ == it.seq().take(it.index() as int),
    {
        chars.push(c);
    }
    chars
}

/// The first position at or after `from` that holds whitespace, or the length
/// of `s` when there is none.
pub open spec fn first_whitespace(s: Seq<char>, from: int) -> int
    recommends
        0 <= from <= s.len(),
    decreases s.len() - from,
{
    if from < 0 || from >= s.len() {
        s.len() as int
    } else if is_whitespace(s[from]) {
        from
    } else {
        first_whitespace(s, from + 1)
    }
}

/// The first position at or after `from` that holds a character other than
/// whitespace, or the length of `s` when there is none.
pub open spec fn first_non_whitespace(s: Seq<char>, from: int) -> int
    recommends
        0 <= from <= s.len(),
    decreases s.len() - from,
{
    if from < 0 || from >= s.len() {
        s.len() as int
    } else if !is_whitespace(s[from]) {
        from
    } else {
        first_non_whitespace(s, from + 1)
    }
}

/// `first_whitespace` stays inside the text, passes over nothing but
/// characters other than whitespace, and stops on whitespace or at the end.
pub proof fn lemma_first_whitespace(s: Seq<char>, from: int)
    requires
        0 <= from <= s.len(),
    ensures
        from <= first_whitespace(s, from) <= s.len(),
        forall|i: int| from <= i < first_whitespace(s, from) ==> !is_whitespace(#[trigger] s[i]),
        first_whitespace(s, from) < s.len() ==> is_whitespace(s[first_whitespace(s, from)]),
    decreases s.len() - from,
{
    if from < s.len() && !is_whitespace(s[from]) {
        lemma_first_whitespace(s, from + 1);
    }
}

/// `first_non_whitespace` stays inside the text, passes over nothing but
/// whitespace, and stops on another character or at the end.
pub proof fn lemma_first_non_whitespace(s: Seq<char>, from: int)
    requires
        0 <= from <= s.len(),
    ensures
        from <= first_non_whitespace(s, from) <= s.len(),
        forall|i: int|
            from <= i < first_non_whitespace(s, from) ==> is_whitespace(#[trigger] s[i]),
        first_non_whitespace(s, from) < s.len() ==> !is_whitespace(
            s[first_non_whitespace(s, from)],
        ),
    decreases s.len() - from,
{
    if from < s.len() && is_whitespace(s[from]) {
        lemma_first_non_whitespace(s, from + 1);
    }
}

/// The ranges of the words of `s` that begin at or after `from`: the maximal
/// runs of characters other than whitespace, in the order in which they occur.
pub open spec fn word_spans(s: Seq<char>, from: int) -> Seq<(int, int)>
    recommends
        0 <= from <= s.len(),
    decreases s.len() - from,
    via word_spans_decreases
{
    let start = first_non_whitespace(s, from);
    if start >= s.len() {
        Seq::empty()
    } else {
        let end = first_whitespace(s, start);
        seq![(start, end)] + word_spans(s, end)
    }
}

#[via_fn]
proof fn word_spans_decreases(s: Seq<char>, from: int) {
    if 0 <= from <= s.len() {
        lemma_first_non_whitespace(s, from);
        let start = first_non_whitespace(s, from);
        if start < s.len() {
            lemma_first_whitespace(s, start);
        }
    }
}

/// Every range of `word_spans` lies inside the text at or after `from`, is not
/// empty, holds no whitespace, and ends where the text ends or whitespace
/// follows.
pub proof fn lemma_word_spans_are_runs(s: Seq<char>, from: int)
    requires
        0 <= from <= s.len(),
    ensures
        forall|i: int|
            0 <= i < word_spans(s, from).len() ==> {
                let span = #[trigger] word_spans(s, from)[i];
                &&& from <= span.0 < span.1 <= s.len()
                &&& first_whitespace(s, span.0) == span.1
                &&& forall|j: int| span.0 <= j < span.1 ==> !is_whitespace(#[trigger] s[j])
                &&& span.1 < s.len() ==> is_whitespace(s[span.1])
            },
    decreases s.len() - from,
{
    lemma_first_non_whitespace(s, from);
    let start = first_non_whitespace(s, from);
    if start < s.len() {
        lemma_first_whitespace(s, start);
        let end = first_whitespace(s, start);
        lemma_word_spans_are_runs(s, end);
        assert forall|i: int| 0 <= i < word_spans(s, from).len() implies {
            let span = #[trigger] word_spans(s, from)[i];
            &&& from <= span.0 < span.1 <= s.len()
            &&& first_whitespace(s, span.0) == span.1
            &&& forall|j: int| span.0 <= j < span.1 ==> !is_whitespace(#[trigger] s[j])
            &&& span.1 < s.len() ==> is_whitespace(s[span.1])
        } by {
            if i > 0 {
                assert(word_spans(s, from)[i] == word_spans(s, end)[i - 1]);
            }
        }
    }
}

/// The words of `s`: what splitting on runs of whitespace leaves, with no empty
/// word.
pub open spec fn words(s: Seq<char>) -> Seq<Seq<char>> {
    word_spans(s, 0).map_values(|span: (int, int)| span_text(s, span))
}

/// No word is empty, and no word holds whitespace.
pub proof fn lemma_words_hold_no_whitespace(s: Seq<char>)
    ensures
        forall|i: int|
            0 <= i < words(s).len() ==> {
                let word = #[trigger] words(s)[i];
                &&& word.len() > 0
                &&& forall|j: int| 0 <= j < word.len() ==> !is_whitespace(#[trigger] word[j])
            },
{
    lemma_word_spans_are_runs(s, 0);
    assert forall|i: int| 0 <= i < words(s).len() implies {
        let word = #[trigger] words(s)[i];
        &&& word.len() > 0
        &&& forall|j: int| 0 <= j < word.len() ==> !is_whitespace(#[trigger] word[j])
    } by {
        let span = word_spans(s, 0)[i];
        let word = words(s)[i];
        assert(word == s.subrange(span.0, span.1));
        assert forall|j: int| 0 <= j < word.len() implies !is_whitespace(#[trigger] word[j]) by {
            assert(word[j] == s[span.0 + j]);
        }
    }
}

/// Finds the first word of `s` that begins at or after `from`.
pub fn next_word(s: &[char], from: usize) -> (found: Option<Span>)
    ensures
        match found {
            Some(span) => {
                &&& span.start == first_non_whitespace(s@, from as int)
                &&& span.end == first_whitespace(s@, span.start as int)
                &&& from <= span.start < span.end <= s@.len()
                &&& word_spans(s@, from as int) == seq![span@] + word_spans(s@, span.end as int)
            },
            None => {
                &&& first_non_whitespace(s@, from as int) >= s@.len()
                &&& word_spans(s@, from as int) == Seq::<(int, int)>::empty()
            },
        },
{
    let n = s.len();
    if from >= n {
        return None;
    }
    let mut start = from;
    while start < n && char_is_whitespace(s[start])
        invariant
            from <= start <= n,
            n == s@.len(),
            first_non_whitespace(s@, from as int) == first_non_whitespace(s@, start as int),
        decreases n - start,
    {
        start += 1;
    }
    if start >= n {
        return None;
    }
    let mut end = start + 1;
    while end < n && !char_is_whitespace(s[end])
        invariant
            start < end <= n,
            n == s@.len(),
            first_whitespace(s@, start as int) == first_whitespace(s@, end as int),
        decreases n - end,
    {
        end += 1;
    }
    Some(Span { start, end })
}

/// Splits `s` on runs of whitespace and returns the range of each word.
pub fn split_whitespace(s: &[char]) -> (spans: Vec<Span>)
    ensures
        spans@.map_values(|span: Span| span@) == word_spans(s@, 0),
        forall|i: int|
            0 <= i < spans@.len() ==> (#[trigger] spans@[i]).start < spans@[i].end <= s@.len(),
{
    let mut spans: Vec<Span> = Vec::new();
    let mut from: usize = 0;
    loop
        invariant
            from <= s@.len(),
            spans@.map_values(|span: Span| span@) + word_spans(s@, from as int) == word_spans(
                s@,
                0,
            ),
            forall|i: int|
                0 <= i < spans@.len() ==> (#[trigger] spans@[i]).start < spans@[i].end <= s@.len(),
        ensures
            spans@.map_values(|span: Span| span@) == word_spans(s@, 0),
            forall|i: int|
                0 <= i < spans@.len() ==> (#[trigger] spans@[i]).start < spans@[i].end <= s@.len(),
        decreases s@.len() - from,
    {
        let ghost before = spans@.map_values(|span: Span| span@);
        match next_word(s, from) {
            None => {
                break ;
            },
            Some(span) => {
                spans.push(span);
                assert(spans@.map_values(|span: Span| span@) == before.push(span@));
                assert(before.push(span@) + word_spans(s@, span.end as int) == before + (seq![
                    span@,
                ] + word_spans(s@, span.end as int)));
                from = span.end;
            },
        }
    }
    spans
}

/// The first position at or after `from` that holds a line feed, or the length
/// of `s` when there is none.
pub open spec fn first_newline(s: Seq<char>, from: int) -> int
    recommends
        0 <= from <= s.len(),
    decreases s.len() - from,
{
    if from < 0 || from >= s.len() {
        s.len() as int
    } else if s[from] == '\n' {
        from
    } else {
        first_newline(s, from + 1)
    }
}

/// `first_newline` stays inside the text, passes over no line feed, and stops
/// on one or at the end.
pub proof fn lemma_first_newline(s: Seq<char>, from: int)
    requires
        0 <= from <= s.len(),
    ensures
        from <= first_newline(s, from) <= s.len(),
        forall|i: int| from <= i < first_newline(s, from) ==> #[trigger] s[i] != '\n',
        first_newline(s, from) < s.len() ==> s[first_newline(s, from)] == '\n',
    decreases s.len() - from,
{
    if from < s.len() && s[from] != '\n' {
        lemma_first_newline(s, from + 1);
    }
}

/// Where the content of a line ends, for a line that begins at `start` and is
/// closed by the line feed at `newline`: a carriage return directly before the
/// line feed belongs to the line ending.
pub open spec fn line_content_end(s: Seq<char>, start: int, newline: int) -> int {
    if start < newline && s[newline - 1] == '\r' {
        newline - 1
    } else {
        newline
    }
}

/// The ranges of the lines of `s` that begin at or after `from`. A line ends at
/// a line feed, or at a carriage return followed by a line feed; neither is
/// part of the line. The last line needs no line ending, and a text that ends
/// with one has no empty line after it.
pub open spec fn line_spans(s: Seq<char>, from: int) -> Seq<(int, int)>
    recommends
        0 <= from <= s.len(),
    decreases s.len() - from,
    via line_spans_decreases
{
    if from < 0 || from >= s.len() {
        Seq::empty()
    } else {
        let newline = first_newline(s, from);
        if newline >= s.len() {
            seq![(from, s.len() as int)]
        } else {
            seq![(from, line_content_end(s, from, newline))] + line_spans(s, newline + 1)
        }
    }
}

#[via_fn]
proof fn line_spans_decreases(s: Seq<char>, from: int) {
    if 0 <= from < s.len() {
        lemma_first_newline(s, from);
    }
}

/// Every range of `line_spans` lies inside the text at or after `from` and
/// holds no line feed.
pub proof fn lemma_line_spans_hold_no_line_feed(s: Seq<char>, from: int)
    requires
        0 <= from <= s.len(),
    ensures
        forall|i: int|
            0 <= i < line_spans(s, from).len() ==> {
                let span = #[trigger] line_spans(s, from)[i];
                &&& from <= span.0 <= span.1 <= s.len()
                &&& forall|j: int| span.0 <= j < span.1 ==> #[trigger] s[j] != '\n'
            },
    decreases s.len() - from,
{
    if from < s.len() {
        lemma_first_newline(s, from);
        let newline = first_newline(s, from);
        if newline < s.len() {
            lemma_line_spans_hold_no_line_feed(s, newline + 1);
            assert forall|i: int| 0 <= i < line_spans(s, from).len() implies {
                let span = #[trigger] line_spans(s, from)[i];
                &&& from <= span.0 <= span.1 <= s.len()
                &&& forall|j: int| span.0 <= j < span.1 ==> #[trigger] s[j] != '\n'
            } by {
                if i > 0 {
                    assert(line_spans(s, from)[i] == line_spans(s, newline + 1)[i - 1]);
                }
            }
        }
    }
}

/// The lines of `s`.
pub open spec fn lines(s: Seq<char>) -> Seq<Seq<char>> {
    line_spans(s, 0).map_values(|span: (int, int)| span_text(s, span))
}

/// No line holds a line feed.
pub proof fn lemma_lines_hold_no_line_feed(s: Seq<char>)
    ensures
        forall|i: int, j: int|
            0 <= i < lines(s).len() && 0 <= j < lines(s)[i].len() ==> #[trigger] lines(
                s,
            )[i][j] != '\n',
{
    lemma_line_spans_hold_no_line_feed(s, 0);
    assert forall|i: int, j: int|
        0 <= i < lines(s).len() && 0 <= j < lines(s)[i].len() implies #[trigger] lines(s)[i][j]
        != '\n' by {
        let span = line_spans(s, 0)[i];
        assert(lines(s)[i] == s.subrange(span.0, span.1));
        assert(lines(s)[i][j] == s[span.0 + j]);
    }
}

/// Finds the line of `s` that begins at `from`, and the position at which the
/// line after it begins.
pub fn next_line(s: &[char], from: usize) -> (found: Option<(Span, usize)>)
    ensures
        match found {
            Some((span, next)) => {
                &&& from < s@.len()
                &&& from == span.start <= span.end <= s@.len()
                &&& span.end <= next <= s@.len()
                &&& from < next
                &&& line_spans(s@, from as int) == seq![span@] + line_spans(s@, next as int)
            },
            None => from >= s@.len() && line_spans(s@, from as int) == Seq::<(int, int)>::empty(),
        },
{
    let n = s.len();
    if from >= n {
        return None;
    }
    let mut newline = from;
    while newline < n && s[newline] != '\n'
        invariant
            from <= newline <= n,
            n == s@.len(),
            first_newline(s@, from as int) == first_newline(s@, newline as int),
        decreases n - newline,
    {
        newline += 1;
    }
    if newline >= n {
        assert(line_spans(s@, n as int) == Seq::<(int, int)>::empty());
        return Some((Span { start: from, end: n }, n));
    }
    let end = if from < newline && s[newline - 1] == '\r' {
        newline - 1
    } else {
        newline
    };
    Some((Span { start: from, end }, newline + 1))
}

/// Splits `s` into lines and returns the range of each.
pub fn split_lines(s: &[char]) -> (spans: Vec<Span>)
    ensures
        spans@.map_values(|span: Span| span@) == line_spans(s@, 0),
        forall|i: int|
            0 <= i < spans@.len() ==> (#[trigger] spans@[i]).start <= spans@[i].end <= s@.len(),
{
    let mut spans: Vec<Span> = Vec::new();
    let mut from: usize = 0;
    loop
        invariant
            from <= s@.len(),
            spans@.map_values(|span: Span| span@) + line_spans(s@, from as int) == line_spans(
                s@,
                0,
            ),
            forall|i: int|
                0 <= i < spans@.len() ==> (#[trigger] spans@[i]).start <= spans@[i].end <= s@.len(),
        ensures
            spans@.map_values(|span: Span| span@) == line_spans(s@, 0),
            forall|i: int|
                0 <= i < spans@.len() ==> (#[trigger] spans@[i]).start <= spans@[i].end <= s@.len(),
        decreases s@.len() - from,
    {
        let ghost before = spans@.map_values(|span: Span| span@);
        match next_line(s, from) {
            None => {
                break ;
            },
            Some((span, next)) => {
                spans.push(span);
                assert(spans@.map_values(|span: Span| span@) == before.push(span@));
                assert(before.push(span@) + line_spans(s@, next as int) == before + (seq![span@]
                    + line_spans(s@, next as int)));
                from = next;
            },
        }
    }
    spans
}

/// `s` without the whitespace at its end.
pub open spec fn trim_end(s: Seq<char>) -> Seq<char>
    decreases s.len(),
{
    if s.len() > 0 && is_whitespace(s.last()) {
        trim_end(s.drop_last())
    } else {
        s
    }
}

/// `s` without the whitespace at its start.
pub open spec fn trim_start(s: Seq<char>) -> Seq<char> {
    s.skip(first_non_whitespace(s, 0))
}

/// `s` without the whitespace at either end.
pub open spec fn trim(s: Seq<char>) -> Seq<char> {
    trim_end(trim_start(s))
}

/// Finds the range of `s` that is left when the whitespace at both ends is
/// taken away.
pub fn trim_span(s: &[char]) -> (span: Span)
    ensures
        span.start <= span.end <= s@.len(),
        span.start == first_non_whitespace(s@, 0),
        span_text(s@, span@) == trim(s@),
{
    let n = s.len();
    let mut start: usize = 0;
    while start < n && char_is_whitespace(s[start])
        invariant
            start <= n,
            n == s@.len(),
            first_non_whitespace(s@, 0) == first_non_whitespace(s@, start as int),
        decreases n - start,
    {
        start += 1;
    }
    let mut end = n;
    assert(s@.subrange(start as int, n as int) == trim_start(s@));
    while start < end && char_is_whitespace(s[end - 1])
        invariant
            start <= end <= n,
            n == s@.len(),
            trim_end(s@.subrange(start as int, end as int)) == trim(s@),
        decreases end,
    {
        assert(s@.subrange(start as int, end as int).drop_last() == s@.subrange(
            start as int,
            end - 1,
        ));
        end -= 1;
    }
    Span { start, end }
}

/// The part of `s` that is left when the whitespace at both ends is taken
/// away.
pub fn trimmed(s: &str) -> (inner: &str)
    ensures
        inner@ == trim(s@),
{
    let chars = to_chars(s);
    let span = trim_span(chars.as_slice());
    s.substring_char(span.start, span.end)
}

/// `s` without the one `c` at its end, if it ends in `c`; no more than one is
/// taken away.
pub open spec fn strip_suffix_char(s: Seq<char>, c: char) -> Seq<char> {
    if s.len() > 0 && s.last() == c {
        s.drop_last()
    } else {
        s
    }
}

/// Finds how many characters of `s` are left when one `c` at its end, if there
/// is one, is taken away.
pub fn strip_suffix_char_len(s: &[char], c: char) -> (len: usize)
    ensures
        len <= s@.len(),
        s@.take(len as int) == strip_suffix_char(s@, c),
{
    let n = s.len();
    if n > 0 && s[n - 1] == c {
        n - 1
    } else {
        assert(s@.take(n as int) == s@);
        n
    }
}

/// Whether `needle` occurs in `hay` as a run of adjacent characters.
pub open spec fn contains(hay: Seq<char>, needle: Seq<char>) -> bool {
    exists|at: int| occurs_at(hay, needle, at)
}

/// Whether `needle` occurs in `hay` at position `at`.
pub open spec fn occurs_at(hay: Seq<char>, needle: Seq<char>, at: int) -> bool {
    &&& 0 <= at
    &&& at + needle.len() <= hay.len()
    &&& hay.subrange(at, at + needle.len()) == needle
}

/// Decides whether `needle` occurs in `hay` at position `at`.
pub fn matches_at(hay: &[char], needle: &[char], at: usize) -> (found: bool)
    ensures
        found == occurs_at(hay@, needle@, at as int),
{
    let n = hay.len();
    let m = needle.len();
    if at > n || m > n - at {
        return false;
    }
    let mut k: usize = 0;
    while k < m
        invariant
            k <= m,
            m == needle@.len(),
            n == hay@.len(),
            at + m <= n,
            forall|j: int| 0 <= j < k ==> hay@[at + j] == needle@[j],
        decreases m - k,
    {
        if hay[at + k] != needle[k] {
            assert(hay@.subrange(at as int, at + m)[k as int] != needle@[k as int]);
            return false;
        }
        k += 1;
    }
    assert(hay@.subrange(at as int, at + m) == needle@);
    true
}

/// Decides whether `needle` occurs in `hay`. The empty `needle` occurs in every
/// text.
pub fn slice_contains(hay: &[char], needle: &[char]) -> (found: bool)
    ensures
        found == contains(hay@, needle@),
{
    let n = hay.len();
    let m = needle.len();
    if m > n {
        return false;
    }
    let last = n - m;
    let mut at: usize = 0;
    while at < last
        invariant
            at <= last,
            last + m == n,
            n == hay@.len(),
            m == needle@.len(),
            forall|j: int| 0 <= j < at ==> !occurs_at(hay@, needle@, j),
        decreases last - at,
    {
        if matches_at(hay, needle, at) {
            return true;
        }
        at += 1;
    }
    matches_at(hay, needle, last)
}

} // verus!
