//! From offsets into the source text to rows and columns, and quotes of
//! source lines.
use std::ops::Range;
use vstd::prelude::*;

use crate::common::text;
use crate::parsing::lexer;

verus! {

/// An offset with the row and the column it lies in, both counted from 1.
#[derive(Debug, Clone, Copy, PartialEq, Eq, Structural)]
pub struct FilePosition {
    pub offset: usize,
    pub column: usize,
    pub row: usize,
}

/// A line of a text: the offset of its first character and its characters,
/// without the line feed that ends it.
pub type SpecLine = (usize, Seq<char>);

/// The lines of a source text. Offsets, rows and columns count characters.
pub struct FileContextSource {
    pub file_name: Option<String>,
    pub lines: Vec<(usize, String)>,
}

/// The lines of `s` from offset `from` on: a line ends before each line
/// feed, and the last line ends with the text. A text that ends in a line
/// feed has an empty last line.
pub open spec fn split_lines(s: Seq<char>, from: int) -> Seq<SpecLine>
    decreases s.len() - from,
    when 0 <= from <= s.len()
{
    let end = lexer::scan_until(s, from, |c: char| c == '\n');
    let line = (from as usize, s.subrange(from, end));
    if end < s.len() {
        proof {
            lexer::lemma_scan_until_bounds(s, from, |c: char| c == '\n');
        }
        seq![line] + split_lines(s, end + 1)
    } else {
        seq![line]
    }
}

/// Whether `offset` lies in `line` or directly after its last character.
pub open spec fn covers(line: SpecLine, offset: usize) -> bool {
    line.0 <= offset && offset - line.0 <= line.1.len() && offset - line.0 < usize::MAX
}

/// The index of the first line at or after `from` that covers `offset`,
/// if one does.
pub open spec fn first_covering(table: Seq<SpecLine>, offset: usize, from: int) -> Option<int>
    decreases table.len() - from,
{
    if from < 0 || from >= table.len() {
        None
    } else if covers(table[from], offset) {
        Some(from)
    } else {
        first_covering(table, offset, from + 1)
    }
}

/// The index of the first line that covers `offset`, if one does.
#[verifier::opaque]
pub open spec fn row_index(table: Seq<SpecLine>, offset: usize) -> Option<int> {
    first_covering(table, offset, 0)
}

/// The position of `offset`: the row of the first line that covers it, and
/// the column within that line.
pub open spec fn position_of(table: Seq<SpecLine>, offset: usize) -> Option<FilePosition> {
    match row_index(table, offset) {
        Some(i) => Some(
            FilePosition {
                offset,
                row: (i + 1) as usize,
                column: (offset - table[i].0 + 1) as usize,
            },
        ),
        None => None,
    }
}

/// The text of the row `row`, counted from 1.
pub open spec fn line_at(table: Seq<SpecLine>, row: int) -> Option<Seq<char>> {
    if 1 <= row <= table.len() {
        Some(table[row - 1].1)
    } else {
        None
    }
}

/// The texts of the rows from that of `start` to that of `end`, both
/// included; none where one of the two offsets lies outside the text.
pub open spec fn range_lines(table: Seq<SpecLine>, start: usize, end: usize) -> Seq<Seq<char>> {
    match (row_index(table, start), row_index(table, end)) {
        (Some(first), Some(last)) => if first <= last {
            Seq::new((last - first + 1) as nat, |i: int| table[first + i].1)
        } else {
            Seq::empty()
        },
        _ => Seq::empty(),
    }
}

/// A numeral filled up with spaces in front to at least `width`
/// characters.
pub open spec fn padded(numeral: Seq<char>, width: nat) -> Seq<char> {
    if numeral.len() >= width {
        numeral
    } else {
        Seq::new((width - numeral.len()) as nat, |i: int| ' ') + numeral
    }
}

/// A quoted line: the row number in brackets, right-aligned in four
/// places, two spaces, the text and a line feed.
pub open spec fn quote_line(row: nat, line: Seq<char>) -> Seq<char> {
    seq!['['] + padded(text::decimal_digits(row), 4) + seq![']', ' ', ' '] + line + seq!['\n']
}

/// The quotes of `lines`, the first of which is row `first_row`.
pub open spec fn quote_lines(lines: Seq<Seq<char>>, first_row: nat) -> Seq<char>
    decreases lines.len(),
{
    if lines.len() == 0 {
        Seq::empty()
    } else {
        quote_lines(lines.drop_last(), first_row) + quote_line(
            (first_row + lines.len() - 1) as nat,
            lines.last(),
        )
    }
}

/// The quote of the source lines that the offsets from `start` to `end`
/// lie in.
pub open spec fn source_quote(table: Seq<SpecLine>, start: usize, end: usize) -> Seq<char> {
    match row_index(table, start) {
        Some(first) => quote_lines(range_lines(table, start, end), (first + 1) as nat),
        None => Seq::empty(),
    }
}

/// The search from `from` finds the line `i` where that line covers the
/// offset and none from `from` up to it does, and finds none where no line
/// from `from` on covers it.
pub proof fn lemma_first_covering(table: Seq<SpecLine>, offset: usize, from: int, i: int)
    requires
        0 <= from <= i <= table.len(),
        forall|j: int| from <= j < i ==> !covers(#[trigger] table[j], offset),
        i < table.len() ==> covers(table[i], offset),
    ensures
        first_covering(table, offset, from) == (if i < table.len() {
            Some(i)
        } else {
            None
        }),
    decreases i - from,
{
    if from < i {
        lemma_first_covering(table, offset, from + 1, i);
    }
}

/// The first covering line is a covering line before which none covers.
pub proof fn lemma_row_index(table: Seq<SpecLine>, offset: usize, i: int)
    requires
        0 <= i <= table.len(),
        forall|j: int| 0 <= j < i ==> !covers(#[trigger] table[j], offset),
        i < table.len() ==> covers(table[i], offset),
    ensures
        row_index(table, offset) == (if i < table.len() {
            Some(i)
        } else {
            None
        }),
{
    reveal(row_index);
    lemma_first_covering(table, offset, 0, i);
}

/// The search from `from` finds a line exactly when some line from `from`
/// on covers the offset.
pub proof fn lemma_first_covering_exists(table: Seq<SpecLine>, offset: usize, from: int)
    requires
        0 <= from,
    ensures
        first_covering(table, offset, from) is Some <==> exists|i: int|
            from <= i < table.len() && covers(#[trigger] table[i], offset),
    decreases table.len() - from,
{
    if from < table.len() && !covers(table[from], offset) {
        lemma_first_covering_exists(table, offset, from + 1);
    }
}

/// Every line of a text begins at or after the offset the split began at
/// and ends within the text.
pub proof fn lemma_split_lines_within(s: Seq<char>, from: int)
    requires
        0 <= from <= s.len() <= usize::MAX,
    ensures
        split_lines(s, from).len() > 0,
        forall|i: int|
            0 <= i < split_lines(s, from).len() ==> from <= (#[trigger] split_lines(s, from)[i]).0
                && split_lines(s, from)[i].0 + split_lines(s, from)[i].1.len() <= s.len(),
    decreases s.len() - from,
{
    let end = lexer::scan_until(s, from, |c: char| c == '\n');
    lexer::lemma_scan_until_bounds(s, from, |c: char| c == '\n');
    if end < s.len() {
        lemma_split_lines_within(s, end + 1);
        let rest = split_lines(s, end + 1);
        assert forall|i: int| 0 <= i < split_lines(s, from).len() implies from <= (
        #[trigger] split_lines(s, from)[i]).0 && split_lines(s, from)[i].0 + split_lines(
            s,
            from,
        )[i].1.len() <= s.len() by {
            if i > 0 {
                assert(split_lines(s, from)[i] == rest[i - 1]);
            }
        }
    }
}

/// Some line of a text covers each offset from the start of the split up
/// to the length of the text.
pub proof fn lemma_split_lines_cover(s: Seq<char>, from: int, offset: usize)
    requires
        0 <= from <= offset <= s.len() < usize::MAX,
    ensures
        exists|i: int|
            0 <= i < split_lines(s, from).len() && covers(
                #[trigger] split_lines(s, from)[i],
                offset,
            ),
    decreases s.len() - from,
{
    let end = lexer::scan_until(s, from, |c: char| c == '\n');
    lexer::lemma_scan_until_bounds(s, from, |c: char| c == '\n');
    if offset <= end {
        assert(covers(split_lines(s, from)[0], offset));
    } else {
        lemma_split_lines_cover(s, end + 1, offset);
        let rest = split_lines(s, end + 1);
        let i = choose|i: int| 0 <= i < rest.len() && covers(#[trigger] rest[i], offset);
        assert(split_lines(s, from)[i + 1] == rest[i]);
    }
}

/// An offset has a row and a column in a text exactly when it does not
/// exceed the length of the text.
pub proof fn lemma_offsets_with_a_position(s: Seq<char>, offset: usize)
    requires
        s.len() < usize::MAX,
    ensures
        position_of(split_lines(s, 0), offset) is Some <==> offset <= s.len(),
{
    reveal(row_index);
    let table = split_lines(s, 0);
    lemma_first_covering_exists(table, offset, 0);
    lemma_split_lines_within(s, 0);
    if offset <= s.len() {
        lemma_split_lines_cover(s, 0, offset);
    }
}

/// The quote of a single line.
pub fn format_source_quote_line(row: usize, line: &str) -> (quote: String)
    ensures
        quote@ == quote_line(row as nat, line@),
{
    let mut numeral = String::new();
    text::push_decimal_digits(&mut numeral, row);
    let n = numeral.as_str().unicode_len();
    let mut quote = String::new();
    quote.push('[');
    let ghost filled = Seq::<char>::empty();
    if n < 4 {
        let mut i: usize = n;
        while i < 4
            invariant
                n <= i <= 4,
                quote@ == seq!['['] + Seq::new((i - n) as nat, |k: int| ' '),
            decreases 4 - i,
        {
            quote.push(' ');
            i += 1;
            assert(quote@ =~= seq!['['] + Seq::new((i - n) as nat, |k: int| ' '));
        }
    } else {
        assert(quote@ =~= seq!['['] + padded(numeral@, 4).subrange(0, 0));
    }
    quote.append(numeral.as_str());
    assert(quote@ =~= seq!['['] + padded(numeral@, 4));
    quote.push(']');
    quote.push(' ');
    quote.push(' ');
    quote.append(line);
    quote.push('\n');
    assert(quote@ =~= quote_line(row as nat, line@));
    quote
}

impl FileContextSource {
    /// The lines of this context, in order.
    pub open spec fn table(&self) -> Seq<SpecLine> {
        self.lines@.map_values(|line: (usize, String)| (line.0, line.1@))
    }

    /// The lines of `source`.
    pub fn from_str(source: &str, file_name: Option<String>) -> (context: FileContextSource)
        ensures
            context.table() == split_lines(source@, 0),
            context.file_name == file_name,
    {
        let chars = text::chars_of(source);
        let n = chars.len();
        let mut lines: Vec<(usize, String)> = Vec::new();
        let mut start: usize = 0;
        loop
            invariant
                start <= n == chars.len(),
                chars@ == source@,
                split_lines(chars@, 0) == lines@.map_values(
                    |line: (usize, String)| (line.0, line.1@),
                ) + split_lines(chars@, start as int),
            decreases n - start,
        {
            let ghost done = lines@.map_values(|line: (usize, String)| (line.0, line.1@));
            let mut end: usize = start;
            let mut line = String::new();
            while end < n && chars[end] != '\n'
                invariant
                    start <= end <= n == chars.len(),
                    line@ == chars@.subrange(start as int, end as int),
                    forall|i: int| start <= i < end ==> chars@[i] != '\n',
                decreases n - end,
            {
                line.push(chars[end]);
                end += 1;
                assert(chars@.subrange(start as int, end as int) =~= chars@.subrange(
                    start as int,
                    end - 1,
                ).push(chars@[end - 1]));
            }
            proof {
                lexer::lemma_scan_until_is(chars@, start as int, end as int, |c: char| c == '\n');
            }
            lines.push((start, line));
            assert(lines@.map_values(|line: (usize, String)| (line.0, line.1@)) =~= done.push(
                (start, chars@.subrange(start as int, end as int)),
            ));
            if end >= n {
                return FileContextSource { lines, file_name };
            }
            start = end + 1;
        }
    }

    /// The row and column of `offset`, or `None` where no line covers it.
    pub fn decode_offset(&self, offset: usize) -> (position: Option<FilePosition>)
        ensures
            position == position_of(self.table(), offset),
            position matches Some(found) ==> 1 <= found.row <= self.table().len() && row_index(
                self.table(),
                offset,
            ) == Some(found.row - 1),
            position is None ==> row_index(self.table(), offset) is None,
    {
        let mut row_index: usize = 0;
        while row_index < self.lines.len()
            invariant
                row_index <= self.lines.len(),
                forall|j: int| 0 <= j < row_index ==> !covers(#[trigger] self.table()[j], offset),
            decreases self.lines.len() - row_index,
        {
            let first_index = self.lines[row_index].0;
            let len = self.lines[row_index].1.as_str().unicode_len();
            if offset >= first_index && offset - first_index <= len && offset - first_index
                < usize::MAX {
                proof {
                    lemma_row_index(self.table(), offset, row_index as int);
                }
                return Some(
                    FilePosition { offset, row: row_index + 1, column: offset - first_index + 1 },
                );
            }
            row_index += 1;
        }
        proof {
            lemma_row_index(self.table(), offset, row_index as int);
        }
        None
    }

    /// The text of the row `row`, counted from 1.
    pub fn get_line(&self, row: usize) -> (line: Option<String>)
        ensures
            text::text_of(line) == line_at(self.table(), row as int),
    {
        if row == 0 || row > self.lines.len() {
            None
        } else {
            Some(self.lines[row - 1].1.clone())
        }
    }

    /// The texts of the rows that the offsets from `range.start` to
    /// `range.end` lie in.
    pub fn get_range_lines(&self, range: &Range<usize>) -> (lines: Vec<String>)
        ensures
            lines@.map_values(|line: String| line@) == range_lines(
                self.table(),
                range.start,
                range.end,
            ),
            match row_index(self.table(), range.start) {
                Some(first) => first + lines@.len() <= self.table().len(),
                None => lines@.len() == 0,
            },
    {
        let mut lines: Vec<String> = Vec::new();
        let start = match self.decode_offset(range.start) {
            Some(start) => start,
            None => {
                assert(lines@.map_values(|line: String| line@) =~= Seq::empty());
                return lines;
            },
        };
        let end = match self.decode_offset(range.end) {
            Some(end) => end,
            None => {
                assert(lines@.map_values(|line: String| line@) =~= Seq::empty());
                return lines;
            },
        };
        let ghost expected = range_lines(self.table(), range.start, range.end);
        if start.row > end.row {
            assert(lines@.map_values(|line: String| line@) =~= expected);
            return lines;
        }
        let first = start.row - 1;
        let mut i = first;
        assert(lines@.map_values(|line: String| line@) =~= expected.take(0));
        while i < end.row
            invariant
                first <= i <= end.row <= self.lines.len(),
                lines@.map_values(|line: String| line@) == expected.take(i - first),
                expected == range_lines(self.table(), range.start, range.end),
                row_index(self.table(), range.start) == Some(first as int),
                row_index(self.table(), range.end) == Some(end.row - 1),
            decreases end.row - i,
        {
            let ghost before = lines@.map_values(|line: String| line@);
            lines.push(self.lines[i].1.clone());
            assert(lines@.map_values(|line: String| line@) =~= before.push(self.table()[i as int].1));
            assert(expected.take(i + 1 - first) =~= expected.take(i - first).push(
                self.table()[i as int].1,
            ));
            i += 1;
        }
        assert(lines@.map_values(|line: String| line@) =~= expected);
        lines
    }

    /// The quote of the source lines that the offsets from `range.start` to
    /// `range.end` lie in: one quoted line for each.
    pub fn get_source_quote(&self, range: &Range<usize>) -> (quote: String)
        ensures
            quote@ == source_quote(self.table(), range.start, range.end),
    {
        let source_lines = self.get_range_lines(range);
        let mut quote = String::new();
        let pos = match self.decode_offset(range.start) {
            Some(pos) => pos,
            None => {
                return quote;
            },
        };
        let ghost texts = source_lines@.map_values(|line: String| line@);
        let mut i: usize = 0;
        assert(texts.take(0) =~= Seq::empty());
        while i < source_lines.len()
            invariant
                i <= source_lines.len(),
                texts == source_lines@.map_values(|line: String| line@),
                pos.row + source_lines.len() <= self.lines.len() + 1,
                quote@ == quote_lines(texts.take(i as int), pos.row as nat),
            decreases source_lines.len() - i,
        {
            let line = format_source_quote_line(pos.row + i, source_lines[i].as_str());
            quote.append(line.as_str());
            assert(texts.take(i + 1).drop_last() =~= texts.take(i as int));
            i += 1;
        }
        assert(texts.take(source_lines.len() as int) =~= texts);
        quote
    }
}

} // verus!
