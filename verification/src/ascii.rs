//! Fixed-layout text tables: one catalog row per line.
use vstd::prelude::*;
use crate::number::{decimal, decimal_string};
use crate::text::{chars_of, trim_end, trim_end_len};

verus! {

/// A catalog row that can be read from one line of a text table.
pub trait FromAsciiRow: Sized {
    /// Whether `line` has a shape this row type can cut into fields without
    /// slicing inside a character.
    spec fn fits_layout(line: Seq<char>) -> bool;

    /// Why `line` is not a row of this type, or `None` if it is one.
    spec fn rejection(line: Seq<char>) -> Option<Seq<char>>;

    /// Whether `row` is what `line` says.
    spec fn reads_as(line: Seq<char>, row: Self) -> bool;

    /// Whether `line` has a shape this row type can cut into fields.
    fn layout_fits(line: &str) -> (b: bool)
        ensures
            b == Self::fits_layout(line@),
    ;

    /// The row that `line` holds, or why it holds none.
    fn from_line(line: &str) -> (r: Result<Self, String>)
        requires
            Self::fits_layout(line@),
        ensures
            match r {
                Ok(row) => Self::rejection(line@) is None && Self::reads_as(line@, row),
                Err(e) => Self::rejection(line@) == Some(e@),
            },
    ;
}

/// A line that holds nothing but white space.
pub open spec fn is_blank(line: Seq<char>) -> bool {
    trim_end(line).len() == 0
}

/// Whether `line` holds nothing but white space.
pub fn is_blank_line(line: &str) -> (b: bool)
    ensures
        b == is_blank(line@),
{
    let cs = chars_of(line);
    trim_end_len(cs.as_slice()) == 0
}

/// The report for line `number` (counted from 1) that failed to parse.
pub open spec fn line_error(number: nat, why: Seq<char>, line: Seq<char>) -> Seq<char> {
    "Line "@ + decimal(number) + ": "@ + why + " (\""@ + line + "\")"@
}

/// The report for line `number` (counted from 1) that could not be read.
pub open spec fn line_read_error(number: nat, why: Seq<char>) -> Seq<char> {
    "Line "@ + decimal(number) + ": IO error - "@ + why
}

/// Whether a line yields a result: every line that could not be read, and
/// every line that was read and is not blank.
pub open spec fn yields_row(line: Result<String, String>) -> bool {
    match line {
        Ok(l) => !is_blank(l@),
        Err(_) => true,
    }
}

/// What line `number` (counted from 1) yields: the row it holds, or a report
/// of why it holds none.
pub open spec fn row_reading<T: FromAsciiRow>(
    number: nat,
    line: Result<String, String>,
    out: Result<T, String>,
) -> bool {
    match line {
        Err(why) => out matches Err(e) && e@ == line_read_error(number, why@),
        Ok(l) => match T::rejection(l@) {
            None => out matches Ok(row) && T::reads_as(l@, row),
            Some(why) => out matches Err(e) && e@ == line_error(number, why, l@),
        },
    }
}

/// The positions of the lines that yield a result, in order.
pub open spec fn yielding_positions(lines: Seq<Result<String, String>>) -> Seq<int>
    decreases lines.len(),
{
    if lines.len() == 0 {
        Seq::empty()
    } else {
        yielding_positions(lines.drop_last()) + if yields_row(lines.last()) {
            seq![lines.len() - 1]
        } else {
            Seq::empty()
        }
    }
}

/// Whether every line that was read can be cut as `T` needs.
pub open spec fn all_fit_layout<T: FromAsciiRow>(lines: Seq<Result<String, String>>) -> bool {
    forall|k: int| 0 <= k < lines.len() ==> (#[trigger] lines[k] matches Ok(l) ==> T::fits_layout(l@))
}

/// The report for a line that failed to parse.
fn line_error_text(number: u64, why: &str, line: &str) -> (m: String)
    ensures
        m@ == line_error(number as nat, why@, line@),
{
    let mut m = String::new();
    m.append("Line ");
    let n = decimal_string(number);
    m.append(n.as_str());
    m.append(": ");
    m.append(why);
    m.append(" (\"");
    m.append(line);
    m.append("\")");
    m
}

/// The report for a line that could not be read.
fn line_read_error_text(number: u64, why: &str) -> (m: String)
    ensures
        m@ == line_read_error(number as nat, why@),
{
    let mut m = String::new();
    m.append("Line ");
    let n = decimal_string(number);
    m.append(n.as_str());
    m.append(": IO error - ");
    m.append(why);
    m
}

/// What the line at position `index` (counted from 0) of a table yields:
/// nothing for a blank line, otherwise the row it holds or a report that
/// names the line by its number.
pub fn row_at<T: FromAsciiRow>(index: usize, line: &Result<String, String>) -> (r: Option<Result<T, String>>)
    requires
        index < u64::MAX,
        line matches Ok(l) ==> T::fits_layout(l@),
    ensures
        r is Some <==> yields_row(*line),
        r matches Some(out) ==> row_reading(index as nat + 1, *line, out),
{
    let number = (index as u64) + 1;
    match line {
        Ok(l) => {
            if is_blank_line(l.as_str()) {
                None
            } else {
                match T::from_line(l.as_str()) {
                    Ok(row) => Some(Ok(row)),
                    Err(why) => Some(Err(line_error_text(number, why.as_str(), l.as_str()))),
                }
            }
        },
        Err(why) => Some(Err(line_read_error_text(number, why.as_str()))),
    }
}

/// The lines of a text table, as they were read: each line's text, or why it
/// could not be read.
pub struct TableReader {
    first_index: usize,
    lines: Vec<Result<String, String>>,
}

impl View for TableReader {
    type V = (nat, Seq<Result<String, String>>);

    closed spec fn view(&self) -> (nat, Seq<Result<String, String>>) {
        (self.first_index as nat, self.lines@)
    }
}

impl TableReader {
    /// A table of `lines`, the first of which sits at position `first_index`
    /// (counted from 0) of its file.
    pub fn new(first_index: usize, lines: Vec<Result<String, String>>) -> (r: TableReader)
        ensures
            r@ == (first_index as nat, lines@),
    {
        TableReader { first_index, lines }
    }

    /// What each line yields, in order: blank lines yield nothing, a line
    /// that could not be read yields a report, any other line yields its row
    /// or a report of why it holds none.
    pub fn rows<T: FromAsciiRow>(self) -> (out: Vec<Result<T, String>>)
        requires
            self@.0 + self@.1.len() < usize::MAX,
            all_fit_layout::<T>(self@.1),
        ensures
            out@.len() == yielding_positions(self@.1).len(),
            forall|m: int| 0 <= m < out@.len() ==> {
                let k = #[trigger] yielding_positions(self@.1)[m];
                &&& 0 <= k < self@.1.len()
                &&& row_reading(self@.0 + k as nat + 1, self@.1[k], out@[m])
            },
    {
        let ghost lines = self.lines@;
        let mut out: Vec<Result<T, String>> = Vec::new();
        let n = self.lines.len();
        let mut i: usize = 0;
        while i < n
            invariant
                n == lines.len(),
                lines == self.lines@,
                i <= n,
                self.first_index + n < usize::MAX,
                all_fit_layout::<T>(lines),
                out@.len() == yielding_positions(lines.take(i as int)).len(),
                forall|m: int| 0 <= m < out@.len() ==> {
                    let k = #[trigger] yielding_positions(lines.take(i as int))[m];
                    &&& 0 <= k < i
                    &&& row_reading(self.first_index as nat + k as nat + 1, lines[k], out@[m])
                },
            decreases n - i,
        {
            let ghost before = yielding_positions(lines.take(i as int));
            assert(lines.take(i + 1).drop_last() =~= lines.take(i as int));
            assert(lines.take(i + 1).last() == lines[i as int]);
            let produced = row_at::<T>(self.first_index + i, &self.lines[i]);
            match produced {
                Some(o) => {
                    out.push(o);
                },
                None => {},
            }
            i = i + 1;
            assert(yielding_positions(lines.take(i as int)) =~= before + if yields_row(lines[i - 1]) {
                seq![i - 1]
            } else {
                Seq::<int>::empty()
            });
        }
        assert(lines.take(n as int) =~= lines);
        out
    }
}


/// What became of a row of an ASCII table during a load: it was parsed and
/// sent to the workers, it was parsed but could not be sent, or it failed to
/// parse.
#[derive(Clone, Copy, Debug, PartialEq, Eq, Structural)]
pub enum RowOutcome {
    Sent,
    SendFailed,
    Failed,
}

/// The counts of a load of ASCII tables: rows parsed and sent, rows that
/// failed to parse.
pub struct IngestTally {
    parsed: usize,
    failed: usize,
}

impl IngestTally {
    pub closed spec fn parsed_spec(&self) -> usize {
        self.parsed
    }

    pub closed spec fn failed_spec(&self) -> usize {
        self.failed
    }

    /// Nothing counted yet.
    pub fn new() -> (t: IngestTally)
        ensures
            t.parsed_spec() == 0,
            t.failed_spec() == 0,
    {
        IngestTally { parsed: 0, failed: 0 }
    }

    /// Counts what became of a row, and says whether to go on with the file:
    /// a row sent counts as parsed; a row that failed counts as failed and
    /// ends the file; a send that failed ends the file and counts nothing.
    pub fn record(&mut self, outcome: RowOutcome) -> (go_on: bool)
        requires
            outcome == RowOutcome::Sent ==> old(self).parsed_spec() < usize::MAX,
            outcome == RowOutcome::Failed ==> old(self).failed_spec() < usize::MAX,
        ensures
            go_on == (outcome == RowOutcome::Sent),
            final(self).parsed_spec() == old(self).parsed_spec() + if outcome == RowOutcome::Sent { 1int } else { 0int },
            final(self).failed_spec() == old(self).failed_spec() + if outcome == RowOutcome::Failed { 1int } else { 0int },
    {
        match outcome {
            RowOutcome::Sent => {
                self.parsed = self.parsed + 1;
                true
            },
            RowOutcome::SendFailed => false,
            RowOutcome::Failed => {
                self.failed = self.failed + 1;
                false
            },
        }
    }

    /// Rows parsed and sent.
    pub fn parsed(&self) -> (n: usize)
        ensures
            n == self.parsed_spec(),
    {
        self.parsed
    }

    /// Rows that failed to parse.
    pub fn failed(&self) -> (n: usize)
        ensures
            n == self.failed_spec(),
    {
        self.failed
    }
}

/// The positions of every tenth byte of a line of `len` bytes, each
/// written left-aligned in a column ten characters wide.
pub open spec fn ruler_marks(count: nat) -> Seq<char>
    decreases count,
{
    if count == 0 {
        Seq::empty()
    } else {
        ruler_marks((count - 1) as nat) + padded_to_ten(decimal((10 * (count - 1)) as nat))
    }
}

/// `d` followed by spaces up to ten characters (longer text stays as it is).
pub open spec fn padded_to_ten(d: Seq<char>) -> Seq<char> {
    if d.len() >= 10 {
        d
    } else {
        d + Seq::new((10 - d.len()) as nat, |i: int| ' ')
    }
}

/// The last digit of every byte position of a line of `len` bytes.
pub open spec fn ruler_digits(len: nat) -> Seq<char> {
    Seq::new(len, |i: int| crate::number::digit_char(i % 10))
}

/// The two ruler lines printed above a line of `len` bytes to find its
/// columns: the positions of every tenth byte, and the last digit of every
/// position.
pub fn position_ruler(len: usize) -> (r: (String, String))
    ensures
        r.0@ == ruler_marks(((len as nat) + 9) / 10),
        r.1@ == ruler_digits(len as nat),
{
    let count: usize = if len % 10 == 0 { len / 10 } else { len / 10 + 1 };
    assert(count == ((len as nat) + 9) / 10);
    let mut marks: Vec<char> = Vec::new();
    let mut k: usize = 0;
    while k < count
        invariant
            k <= count,
            count <= usize::MAX / 10 + 1,
            marks@ == ruler_marks(k as nat),
        decreases count - k,
    {
        assert(10 * k <= usize::MAX);
        let d = crate::number::decimal_chars((10 * k) as u64);
        let ghost before = marks@;
        let mut j: usize = 0;
        while j < d.len()
            invariant
                j <= d@.len(),
                marks@ == before + d@.take(j as int),
            decreases d@.len() - j,
        {
            marks.push(d[j]);
            j = j + 1;
            assert(marks@ =~= before + d@.take(j as int));
        }
        assert(d@.take(d@.len() as int) =~= d@);
        let mut pad = d.len();
        while pad < 10
            invariant
                d@.len() <= pad <= 10 || (pad == d@.len() && pad >= 10),
                marks@ == before + d@ + Seq::new((pad - d@.len()) as nat, |i: int| ' '),
            decreases 10 - pad,
        {
            marks.push(' ');
            pad = pad + 1;
            assert(marks@ =~= before + d@ + Seq::new((pad - d@.len()) as nat, |i: int| ' '));
        }
        proof {
            if d@.len() >= 10 {
                assert(Seq::new((pad - d@.len()) as nat, |i: int| ' ') =~= Seq::<char>::empty());
                assert(marks@ =~= before + d@);
            }
        }
        k = k + 1;
    }
    let mut digits: Vec<char> = Vec::new();
    let mut i: usize = 0;
    while i < len
        invariant
            i <= len,
            digits@ == ruler_digits(i as nat),
        decreases len - i,
    {
        let c = crate::number::digit_of((i % 10) as u64);
        digits.push(c);
        i = i + 1;
        assert(digits@ =~= ruler_digits(i as nat));
    }
    (crate::text::string_of(&marks), crate::text::string_of(&digits))
}

} // verus!
