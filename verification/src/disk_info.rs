//! Root filesystem usage, read from the first data row of a free-space table.

use crate::text::{lines, split_lines, split_whitespace, span_text, to_chars, words, Span};
use vstd::prelude::*;
use vstd::slice::*;
use vstd::string::*;

verus! {

/// The five columns of one row of the table, as the tool printed them.
#[derive(Clone, Debug, PartialEq, Eq)]
pub struct DiskUsage {
    pub filesystem: String,
    pub size: String,
    pub used: String,
    pub available: String,
    pub capacity: String,
}

/// The columns that a table reports for the root filesystem: the first five
/// words of its second line. A table with fewer than two lines, or with fewer
/// than five words in the second, reports nothing.
pub open spec fn disk_row(table: Seq<char>) -> Option<Seq<Seq<char>>> {
    if lines(table).len() >= 2 && words(lines(table)[1]).len() >= 5 {
        Some(words(lines(table)[1]).take(5))
    } else {
        None
    }
}

/// A table whose second line has fewer than five words reports nothing, and
/// so does a table with no second line.
pub proof fn lemma_short_row_reports_nothing(table: Seq<char>)
    requires
        lines(table).len() < 2 || words(lines(table)[1]).len() < 5,
    ensures
        disk_row(table) is None,
{
}

impl DiskUsage {
    /// The five columns in the order of the table: filesystem, size, used,
    /// available, capacity.
    pub open spec fn fields(&self) -> Seq<Seq<char>> {
        seq![self.filesystem@, self.size@, self.used@, self.available@, self.capacity@]
    }

    /// The lines that report this usage, one per column, each with its label.
    pub open spec fn lines_text(&self) -> Seq<Seq<char>> {
        seq![
            "Filesystem: "@ + self.filesystem@,
            "Size:       "@ + self.size@,
            "Used:       "@ + self.used@,
            "Available:  "@ + self.available@,
            "Capacity:   "@ + self.capacity@,
        ]
    }

    /// Renders the lines that report this usage.
    pub fn lines(&self) -> (lines: Vec<String>)
        ensures
            lines@.map_values(|line: String| line@) == self.lines_text(),
    {
        let mut lines: Vec<String> = Vec::new();
        lines.push(labelled("Filesystem: ", &self.filesystem));
        lines.push(labelled("Size:       ", &self.size));
        lines.push(labelled("Used:       ", &self.used));
        lines.push(labelled("Available:  ", &self.available));
        lines.push(labelled("Capacity:   ", &self.capacity));
        assert(lines@.map_values(|line: String| line@) == self.lines_text());
        lines
    }
}

/// A label with a value after it.
fn labelled(label: &str, value: &String) -> (line: String)
    ensures
        line@ == label@ + value@,
{
    let mut line = String::from_str(label);
    line.append(value.as_str());
    line
}

/// Copies out the word at `word` in the line at `line` of `source`.
fn word_in_line(source: &str, line: Span, word: Span) -> (text: String)
    requires
        line.start <= line.end <= source@.len(),
        word.start <= word.end <= line.end - line.start,
    ensures
        text@ == span_text(span_text(source@, line@), word@),
{
    let piece = source.substring_char(line.start + word.start, line.start + word.end);
    assert(piece@ == span_text(span_text(source@, line@), word@));
    String::from_str(piece)
}

/// Reads the usage of the root filesystem from a free-space table: the first
/// five columns of the second line, taken as they stand. There is none when
/// the table has no second line or that line has fewer than five columns.
pub fn parse_disk_info(df_output: &str) -> (usage: Option<DiskUsage>)
    ensures
        match usage {
            Some(found) => disk_row(df_output@) == Some(found.fields()),
            None => disk_row(df_output@) is None,
        },
{
    let chars = to_chars(df_output);
    let text = chars.as_slice();
    let rows = split_lines(text);
    if rows.len() < 2 {
        return None;
    }
    let row = rows[1];
    let line = slice_subrange(text, row.start, row.end);
    proof {
        assert(rows@.map_values(|span: Span| span@)[1] == row@);
        assert(lines(df_output@)[1] == line@);
    }
    let columns = split_whitespace(line);
    if columns.len() < 5 {
        return None;
    }
    proof {
        assert forall|k: int| 0 <= k < 5 implies words(line@)[k] == span_text(
            line@,
            #[trigger] columns@[k]@,
        ) by {
            assert(columns@.map_values(|span: Span| span@)[k] == columns@[k]@);
        }
    }
    let found = DiskUsage {
        filesystem: word_in_line(df_output, row, columns[0]),
        size: word_in_line(df_output, row, columns[1]),
        used: word_in_line(df_output, row, columns[2]),
        available: word_in_line(df_output, row, columns[3]),
        capacity: word_in_line(df_output, row, columns[4]),
    };
    assert(found.fields() == words(line@).take(5));
    Some(found)
}

} // verus!
