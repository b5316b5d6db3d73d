//! Memory usage, read from a page-statistics dump: three page counters, their
//! size in bytes, and the share of total memory that they take.

use crate::number::{
    decimal, fixed2, is_digit, parse_u64, parse_unsigned, push_decimal, push_fixed2,
    round_half_even, unsigned_digits,
};
use crate::text::{
    contains, line_spans, lines, slice_contains, span_text, split_lines, split_whitespace,
    strip_suffix_char, strip_suffix_char_len, to_chars, trim, trim_span, word_spans, words, Span,
};
use vstd::prelude::*;
use vstd::slice::*;
use vstd::string::*;

verus! {

/// The size of one page of memory, in bytes.
pub const PAGE_SIZE: u64 = 4096;

/// The number of bytes in one gibibyte.
pub const GIB: u64 = 1073741824;

/// The number that a word writes once a period at its end, if it has one, is
/// taken away. One period only: a word that ends in two writes no number.
pub open spec fn word_number(word: Seq<char>) -> Option<u64> {
    parse_u64(strip_suffix_char(word, '.'))
}

/// A word that still ends in a period once one period is taken away writes no
/// number: of `12345..` only the last period goes.
pub proof fn lemma_two_periods_write_no_number(word: Seq<char>)
    requires
        word.len() >= 2,
        word[word.len() - 1] == '.',
        word[word.len() - 2] == '.',
    ensures
        word_number(word) is None,
{
    let stripped = strip_suffix_char(word, '.');
    assert(stripped == word.drop_last());
    let digits = unsigned_digits(stripped);
    if digits.len() > 0 {
        assert(digits[digits.len() - 1] == '.');
        assert(!is_digit(digits[digits.len() - 1]));
    }
}

/// The number of the first word that writes one; zero when no word does.
pub open spec fn first_number(words: Seq<Seq<char>>) -> u64
    decreases words.len(),
{
    if words.len() == 0 {
        0
    } else {
        match word_number(words.first()) {
            Some(n) => n,
            None => first_number(words.drop_first()),
        }
    }
}

/// The number that a line of the dump reports: that of its first word that
/// writes one, or zero.
pub open spec fn number_in(line: Seq<char>) -> u64 {
    first_number(words(line))
}

/// A line none of whose words writes a number reports zero.
pub proof fn lemma_no_number_is_zero(line: Seq<char>)
    requires
        forall|i: int| 0 <= i < words(line).len() ==> word_number(#[trigger] words(line)[i]) is None,
    ensures
        number_in(line) == 0,
{
    lemma_first_number_none(words(line));
}

/// A line reports the number of a word when no word before it writes one.
pub proof fn lemma_number_is_first(line: Seq<char>, at: int)
    requires
        0 <= at < words(line).len(),
        word_number(words(line)[at]) is Some,
        forall|i: int| 0 <= i < at ==> word_number(#[trigger] words(line)[i]) is None,
    ensures
        Some(number_in(line)) == word_number(words(line)[at]),
{
    lemma_first_number_at(words(line), at);
}

proof fn lemma_first_number_none(words: Seq<Seq<char>>)
    requires
        forall|i: int| 0 <= i < words.len() ==> word_number(#[trigger] words[i]) is None,
    ensures
        first_number(words) == 0,
    decreases words.len(),
{
    if words.len() > 0 {
        assert(word_number(words[0]) is None);
        assert forall|i: int| 0 <= i < words.drop_first().len() implies word_number(
            #[trigger] words.drop_first()[i],
        ) is None by {
            assert(words.drop_first()[i] == words[i + 1]);
        }
        lemma_first_number_none(words.drop_first());
    }
}

proof fn lemma_first_number_at(words: Seq<Seq<char>>, at: int)
    requires
        0 <= at < words.len(),
        word_number(words[at]) is Some,
        forall|i: int| 0 <= i < at ==> word_number(#[trigger] words[i]) is None,
    ensures
        Some(first_number(words)) == word_number(words[at]),
    decreases at,
{
    if at > 0 {
        assert(word_number(words[0]) is None);
        assert forall|i: int| 0 <= i < at - 1 implies word_number(
            #[trigger] words.drop_first()[i],
        ) is None by {
            assert(words.drop_first()[i] == words[i + 1]);
        }
        assert(words.drop_first()[at - 1] == words[at]);
        lemma_first_number_at(words.drop_first(), at - 1);
    }
}

/// Reads the number of one word, with at most one period after it.
pub fn parse_word(word: &[char]) -> (parsed: Option<u64>)
    ensures
        parsed == word_number(word@),
{
    let len = strip_suffix_char_len(word, '.');
    parse_unsigned(slice_subrange(word, 0, len))
}

/// Reads the number that `line` reports.
pub fn number_in_chars(line: &[char]) -> (n: u64)
    ensures
        n == number_in(line@),
{
    let spans = split_whitespace(line);
    let ghost all = words(line@);
    let mut i: usize = 0;
    assert(all.skip(0) == all);
    while i < spans.len()
        invariant
            i <= spans.len(),
            all == words(line@),
            spans@.map_values(|span: Span| span@) == word_spans(line@, 0),
            forall|i: int|
                0 <= i < spans@.len() ==> (#[trigger] spans@[i]).start < spans@[i].end
                    <= line@.len(),
            first_number(all.skip(i as int)) == first_number(all),
        decreases spans.len() - i,
    {
        let span = spans[i];
        proof {
            assert(spans@.map_values(|span: Span| span@)[i as int] == span@);
            assert(all[i as int] == span_text(line@, span@));
            assert(all.skip(i as int).first() == all[i as int]);
            assert(all.skip(i as int).drop_first() == all.skip(i + 1));
        }
        match parse_word(slice_subrange(line, span.start, span.end)) {
            Some(n) => {
                return n;
            },
            None => {},
        }
        i += 1;
    }
    0
}

/// Reads the number that `line` reports: its first word, split on whitespace,
/// that writes an unsigned number once a single period at its end is taken
/// away. A line with no such word reports zero.
pub fn extract_number(line: &str) -> (n: u64)
    ensures
        n == number_in(line@),
{
    let chars = to_chars(line);
    number_in_chars(chars.as_slice())
}

/// The page counters that the report adds up.
#[derive(Clone, Copy, Debug, PartialEq, Eq)]
pub enum Counter {
    /// Pages in active use.
    Active,
    /// Pages pinned in physical memory.
    Wired,
    /// Pages held by the memory compressor.
    Compressed,
}

impl Counter {
    /// The text by which a line of the dump names this counter.
    pub open spec fn label(self) -> Seq<char> {
        match self {
            Counter::Active => "Pages active"@,
            Counter::Wired => "Pages wired down"@,
            Counter::Compressed => "Pages occupied by compressor"@,
        }
    }

    /// The text by which a line of the dump names this counter.
    pub fn label_text(&self) -> (text: &str)
        ensures
            text@ == self.label(),
    {
        match self {
            Counter::Active => "Pages active",
            Counter::Wired => "Pages wired down",
            Counter::Compressed => "Pages occupied by compressor",
        }
    }
}

/// The counter that a line reports: the first of active, wired and compressed
/// whose label occurs in the line.
pub open spec fn line_counter(line: Seq<char>) -> Option<Counter> {
    if contains(line, Counter::Active.label()) {
        Some(Counter::Active)
    } else if contains(line, Counter::Wired.label()) {
        Some(Counter::Wired)
    } else if contains(line, Counter::Compressed.label()) {
        Some(Counter::Compressed)
    } else {
        None
    }
}

/// Decides which counter `line` reports, if any.
pub fn classify_line(line: &[char]) -> (counter: Option<Counter>)
    ensures
        counter == line_counter(line@),
{
    let active = to_chars(Counter::Active.label_text());
    let wired = to_chars(Counter::Wired.label_text());
    let compressed = to_chars(Counter::Compressed.label_text());
    if slice_contains(line, active.as_slice()) {
        Some(Counter::Active)
    } else if slice_contains(line, wired.as_slice()) {
        Some(Counter::Wired)
    } else if slice_contains(line, compressed.as_slice()) {
        Some(Counter::Compressed)
    } else {
        None
    }
}

/// The value of `counter` in a dump with these lines: the number of the last
/// line that reports it, or zero when no line does.
pub open spec fn counter_value(lines: Seq<Seq<char>>, counter: Counter) -> u64
    decreases lines.len(),
{
    if lines.len() == 0 {
        0
    } else if line_counter(lines.last()) == Some(counter) {
        number_in(lines.last())
    } else {
        counter_value(lines.drop_last(), counter)
    }
}

/// The three page counters of one dump.
#[derive(Clone, Copy, Debug, PartialEq, Eq)]
pub struct PageCounts {
    pub active: u64,
    pub wired: u64,
    pub compressed: u64,
}

/// The page counters that a dump reports.
pub open spec fn page_counts(dump: Seq<char>) -> PageCounts {
    PageCounts {
        active: counter_value(lines(dump), Counter::Active),
        wired: counter_value(lines(dump), Counter::Wired),
        compressed: counter_value(lines(dump), Counter::Compressed),
    }
}

/// Scans a page-statistics dump line by line for the three counters. A counter
/// that no line reports, or whose line holds no number, is zero.
pub fn scan_page_counts(vm_stat_output: &str) -> (counts: PageCounts)
    ensures
        counts == page_counts(vm_stat_output@),
{
    let chars = to_chars(vm_stat_output);
    let text = chars.as_slice();
    let spans = split_lines(text);
    let ghost all = lines(text@);
    let mut counts = PageCounts { active: 0, wired: 0, compressed: 0 };
    let mut i: usize = 0;
    while i < spans.len()
        invariant
            i <= spans.len(),
            all == lines(text@),
            spans@.map_values(|span: Span| span@) == line_spans(text@, 0),
            forall|i: int|
                0 <= i < spans@.len() ==> (#[trigger] spans@[i]).start <= spans@[i].end
                    <= text@.len(),
            counts.active == counter_value(all.take(i as int), Counter::Active),
            counts.wired == counter_value(all.take(i as int), Counter::Wired),
            counts.compressed == counter_value(all.take(i as int), Counter::Compressed),
        decreases spans.len() - i,
    {
        let span = spans[i];
        let line = slice_subrange(text, span.start, span.end);
        proof {
            assert(spans@.map_values(|span: Span| span@)[i as int] == span@);
            assert(all[i as int] == line@);
            assert(all.take(i + 1).last() == line@);
            assert(all.take(i + 1).drop_last() == all.take(i as int));
        }
        match classify_line(line) {
            Some(Counter::Active) => {
                counts.active = number_in_chars(line);
            },
            Some(Counter::Wired) => {
                counts.wired = number_in_chars(line);
            },
            Some(Counter::Compressed) => {
                counts.compressed = number_in_chars(line);
            },
            None => {},
        }
        i += 1;
    }
    assert(all.take(spans.len() as int) == all);
    counts
}

/// Converts a number of pages to the bytes that they hold; the product is
/// exact, whatever the number of pages.
pub fn pages_to_bytes(pages: u64) -> (bytes: u128)
    ensures
        bytes == pages * 4096,
        bytes == pages_bytes(pages),
{
    let size = PAGE_SIZE as u128;
    assert(size == 4096);
    pages as u128 * size
}

/// The bytes that `pages` pages hold.
pub open spec fn pages_bytes(pages: u64) -> nat {
    (pages * PAGE_SIZE) as nat
}

impl PageCounts {
    /// The bytes in use: those of the active, the wired and the compressed
    /// pages together.
    pub open spec fn used(self) -> nat {
        pages_bytes(self.active) + pages_bytes(self.wired) + pages_bytes(self.compressed)
    }

    /// Adds up the bytes in use.
    pub fn used_bytes(&self) -> (bytes: u128)
        ensures
            bytes == self.used(),
            bytes == (self.active + self.wired + self.compressed) * 4096,
    {
        pages_to_bytes(self.active) + pages_to_bytes(self.wired) + pages_to_bytes(self.compressed)
    }
}

/// The share of `total` that `used` takes, in whole percent, rounded down. It
/// is zero when `total` is zero, and stops at the largest `u32`.
pub open spec fn percentage_of(used: nat, total: nat) -> nat {
    if total == 0 {
        0
    } else if used * 100 / total > u32::MAX {
        u32::MAX as nat
    } else {
        used * 100 / total
    }
}

/// The share of a total of zero is zero; the share of a part that is no
/// larger than its whole is at most one hundred; and no share is beyond the
/// largest `u32`.
pub proof fn lemma_percentage_bounds(used: nat, total: nat)
    ensures
        total == 0 ==> percentage_of(used, total) == 0,
        used <= total ==> percentage_of(used, total) <= 100,
        percentage_of(used, total) <= u32::MAX,
{
    if total > 0 && used <= total {
        assert(used * 100 / total <= 100) by (nonlinear_arith)
            requires
                used <= total,
                total > 0,
        ;
    }
}

/// Computes the share of `total` that `used` takes, in whole percent.
pub fn usage_percentage(used: u128, total: u64) -> (percentage: u32)
    ensures
        percentage == percentage_of(used as nat, total as nat),
        total == 0 ==> percentage == 0,
        used <= total ==> percentage <= 100,
{
    proof {
        lemma_percentage_bounds(used as nat, total as nat);
    }
    if total == 0 {
        return 0;
    }
    match used.checked_mul(100) {
        Some(scaled) => {
            let share = scaled / (total as u128);
            if share > u32::MAX as u128 {
                u32::MAX
            } else {
                share as u32
            }
        },
        None => {
            assert(used * 100 / (total as int) > u32::MAX) by (nonlinear_arith)
                requires
                    used * 100 > u128::MAX,
                    0 < total <= u64::MAX,
            ;
            u32::MAX
        },
    }
}

/// A number of bytes in hundredths of a gibibyte, rounded to the nearest
/// hundredth, halves to the even one.
pub open spec fn gib_hundredths(bytes: nat) -> nat {
    round_half_even(bytes * 100, GIB as nat)
}

/// Converts a number of bytes to hundredths of a gibibyte.
pub fn bytes_to_gib_hundredths(bytes: u128) -> (hundredths: u128)
    ensures
        hundredths == gib_hundredths(bytes as nat),
{
    let gib = GIB as u128;
    let whole = bytes / gib;
    let scaled = (bytes % gib) * 100;
    let quotient = whole * 100 + scaled / gib;
    let rest = scaled % gib;
    proof {
        let d = GIB as int;
        assert(bytes * 100 == d * quotient + rest) by (nonlinear_arith)
            requires
                bytes == d * whole + bytes % gib,
                scaled == (bytes % gib) * 100,
                scaled == d * (scaled / gib) + rest,
                quotient == whole * 100 + scaled / gib,
        ;
        vstd::arithmetic::div_mod::lemma_fundamental_div_mod_converse(
            bytes * 100,
            d,
            quotient as int,
            rest as int,
        );
    }
    if 2 * rest > gib || (2 * rest == gib && quotient % 2 == 1) {
        quotient + 1
    } else {
        quotient
    }
}

/// The total memory that the memory-size query reports: the number that its
/// output writes once the whitespace round it is taken away, or zero when that
/// is no number.
pub open spec fn total_memory(output: Seq<char>) -> u64 {
    match parse_u64(trim(output)) {
        Some(bytes) => bytes,
        None => 0,
    }
}

/// Reads the total memory, in bytes, from the output of the memory-size query.
pub fn parse_total_memory(sysctl_output: &str) -> (bytes: u64)
    ensures
        bytes == total_memory(sysctl_output@),
{
    let chars = to_chars(sysctl_output);
    let text = chars.as_slice();
    let span = trim_span(text);
    match parse_unsigned(slice_subrange(text, span.start, span.end)) {
        Some(bytes) => bytes,
        None => 0,
    }
}

/// Memory in use and memory in total, both in bytes.
#[derive(Clone, Copy, Debug, PartialEq, Eq)]
pub struct MemoryUsage {
    pub used_bytes: u128,
    pub total_bytes: u64,
}

impl MemoryUsage {
    /// The share of the total that is in use, in whole percent.
    pub open spec fn percent(self) -> nat {
        percentage_of(self.used_bytes as nat, self.total_bytes as nat)
    }

    /// Computes the share of the total that is in use, in whole percent: zero
    /// when the total is zero, and at most one hundred when no more is in use
    /// than there is.
    pub fn percentage(&self) -> (percentage: u32)
        ensures
            percentage == self.percent(),
            self.total_bytes == 0 ==> percentage == 0,
            self.used_bytes <= self.total_bytes ==> percentage <= 100,
    {
        usage_percentage(self.used_bytes, self.total_bytes)
    }

    /// The line that reports this usage: memory in use and in total, each in
    /// gibibytes with two decimal places, and the share in percent.
    pub open spec fn line_text(self) -> Seq<char> {
        "Memory: "@ + fixed2(gib_hundredths(self.used_bytes as nat)) + " GiB / "@ + fixed2(
            gib_hundredths(self.total_bytes as nat),
        ) + " GiB ("@ + decimal(self.percent()) + "%)"@
    }

    /// Renders the line that reports this usage.
    pub fn line(&self) -> (line: String)
        ensures
            line@ == self.line_text(),
    {
        let mut line = String::from_str("Memory: ");
        push_fixed2(&mut line, bytes_to_gib_hundredths(self.used_bytes));
        line.append(" GiB / ");
        push_fixed2(&mut line, bytes_to_gib_hundredths(self.total_bytes as u128));
        line.append(" GiB (");
        push_decimal(&mut line, self.percentage() as u128);
        line.append("%)");
        line
    }
}

/// The usage that a dump and a total give: the bytes of the three counters
/// against the total.
pub open spec fn memory_usage(dump: Seq<char>, total_bytes: u64) -> MemoryUsage {
    MemoryUsage { used_bytes: page_counts(dump).used() as u128, total_bytes }
}

/// The bytes of three page counters always fit the field that holds them.
pub proof fn lemma_used_fits(counts: PageCounts)
    ensures
        counts.used() == (counts.active + counts.wired + counts.compressed) * 4096,
        counts.used() <= u128::MAX,
{
}

/// Works out memory usage from a page-statistics dump and the total memory in
/// bytes.
pub fn parse_memory_info(vm_stat_output: &str, total_bytes: u64) -> (usage: MemoryUsage)
    ensures
        usage == memory_usage(vm_stat_output@, total_bytes),
        usage.used_bytes == (page_counts(vm_stat_output@).active + page_counts(
            vm_stat_output@,
        ).wired + page_counts(vm_stat_output@).compressed) * 4096,
        usage.total_bytes == 0 ==> usage.percent() == 0,
        usage.used_bytes <= usage.total_bytes ==> usage.percent() <= 100,
{
    let counts = scan_page_counts(vm_stat_output);
    let usage = MemoryUsage { used_bytes: counts.used_bytes(), total_bytes };
    proof {
        lemma_percentage_bounds(usage.used_bytes as nat, usage.total_bytes as nat);
    }
    usage
}

} // verus!
