//! Presenting reports: as one line per file, or as a table with one header
//! row and one row per file.

use vstd::prelude::*;
use crate::byte_fmt::{lemma_pretty_text_alphabet, pretty, pretty_text, size_char};
use crate::compress::SizeMeasurement;
use crate::encoding::{label_text, Encoding};
use crate::engine::{lemma_size_under_some, size_under, FileReport};
use crate::table::{grid_text, is_plain, layout, plain, plain_row, row_text, table_text};

verus! {

/// How reports are presented.
#[derive(Clone, Copy, Debug, PartialEq, Eq, Structural)]
pub enum Mode {
    /// An aligned table: a header row, then one row per file.
    Tabular,
    /// One line of text per file.
    SingleValue,
}

/// Why a table could not be rendered.
#[derive(Clone, Copy, Debug, PartialEq, Eq, Structural)]
pub enum RenderError {
    /// The report in row `row` (counting files from zero) holds no size for
    /// `encoding`, which the header has a column for.
    MissingMeasurement { row: usize, encoding: Encoding },
    /// The name of the file in row `row` cannot stand in a table cell as
    /// it is: it holds an escape character or a carriage return, or ends in a
    /// line feed.
    UnprintableName { row: usize },
}

/// The header row: `name`, then the label of each column's encoding.
pub open spec fn header_row(columns: Seq<Encoding>) -> Seq<Seq<char>> {
    seq!["name"@] + Seq::new(columns.len(), |j: int| label_text(columns[j]))
}

/// The row of one file: its name, then its size under each column's
/// encoding, rendered.
pub open spec fn data_row(report: FileReport, columns: Seq<Encoding>) -> Seq<Seq<char>> {
    seq![report.name@] + Seq::new(
        columns.len(),
        |j: int| pretty_text(size_under(report.measurements@, columns[j]).unwrap() as int),
    )
}

/// The columns of the table that presents `reports`: the encodings of the
/// first report, in its order.
pub open spec fn columns_of(reports: Seq<FileReport>) -> Seq<Encoding> {
    if reports.len() == 0 {
        Seq::<Encoding>::empty()
    } else {
        reports[0].encodings()
    }
}

/// The cells of the table that presents `reports`: nothing for no report,
/// else the header row followed by one row per report.
pub open spec fn table_rows(reports: Seq<FileReport>) -> Seq<Seq<Seq<char>>> {
    if reports.len() == 0 {
        Seq::<Seq<Seq<char>>>::empty()
    } else {
        seq![header_row(columns_of(reports))] + Seq::new(
            reports.len(),
            |i: int| data_row(reports[i], columns_of(reports)),
        )
    }
}

/// Whether a report holds a size for every column.
pub open spec fn complete(report: FileReport, columns: Seq<Encoding>) -> bool {
    forall|j: int|
        0 <= j < columns.len() ==> size_under(report.measurements@, #[trigger] columns[j]) is Some
}

/// Whether every report holds a size for every column of their table.
pub open spec fn all_complete(reports: Seq<FileReport>) -> bool {
    forall|i: int| 0 <= i < reports.len() ==> complete(#[trigger] reports[i], columns_of(reports))
}

/// Whether row `row`, column `col` is the first cell of the table that has
/// no measurement to show: every row before it is complete, and so is its
/// own row up to that column.
pub open spec fn first_gap(reports: Seq<FileReport>, row: int, col: int) -> bool {
    let columns = columns_of(reports);
    &&& 0 <= row < reports.len()
    &&& 0 <= col < columns.len()
    &&& forall|i: int| 0 <= i < row ==> complete(#[trigger] reports[i], columns)
    &&& forall|j: int|
        0 <= j < col ==> size_under(reports[row].measurements@, #[trigger] columns[j]) is Some
    &&& size_under(reports[row].measurements@, columns[col]) is None
}

/// Whether the name of every report can stand in a table cell.
pub open spec fn names_plain(reports: Seq<FileReport>) -> bool {
    forall|i: int| 0 <= i < reports.len() ==> plain((#[trigger] reports[i]).name@)
}

/// The measurements of a line, each as a space, the label, a colon and the
/// rendered size.
pub open spec fn fields_text(measurements: Seq<SizeMeasurement>) -> Seq<char>
    decreases measurements.len(),
{
    if measurements.len() == 0 {
        Seq::<char>::empty()
    } else {
        fields_text(measurements.drop_last()) + " "@ + label_text(measurements.last().encoding)
            + ":"@ + pretty_text(measurements.last().size as int)
    }
}

/// The line of one file. A report with a single measurement reads
/// `<name>: <size>`; any other reads `<name>` followed by one
/// ` <label>:<size>` per measurement.
pub open spec fn line_text(report: FileReport) -> Seq<char> {
    if report.measurements@.len() == 1 {
        report.name@ + ": "@ + pretty_text(report.measurements@[0].size as int)
    } else {
        report.name@ + fields_text(report.measurements@)
    }
}

/// The lines of all reports, each ended by a line feed.
pub open spec fn lines_text(reports: Seq<FileReport>) -> Seq<char>
    decreases reports.len(),
{
    if reports.len() == 0 {
        Seq::<char>::empty()
    } else {
        lines_text(reports.drop_last()) + line_text(reports.last()) + "\n"@
    }
}

/// A table of complete reports has one row more than there are reports, and
/// every row has one cell more than there are columns.
pub proof fn lemma_table_shape(reports: Seq<FileReport>)
    requires
        reports.len() > 0,
    ensures
        table_rows(reports).len() == reports.len() + 1,
        forall|i: int|
            0 <= i < table_rows(reports).len() ==> (#[trigger] table_rows(reports)[i]).len()
                == columns_of(reports).len() + 1,
{
}

/// A report holds a size for each of its own encodings, so the first row of
/// a table is always complete.
pub proof fn lemma_first_row_complete(reports: Seq<FileReport>)
    requires
        reports.len() > 0,
    ensures
        complete(reports[0], columns_of(reports)),
{
    let columns = columns_of(reports);
    assert forall|j: int| 0 <= j < columns.len() implies size_under(
        reports[0].measurements@,
        #[trigger] columns[j],
    ) is Some by {
        lemma_size_under_some(reports[0].measurements@, columns[j]);
    }
}

/// A rendered size can stand in a table cell.
pub proof fn lemma_pretty_text_plain(n: int)
    ensures
        plain(pretty_text(n)),
{
    lemma_pretty_text_alphabet(n);
    let text = pretty_text(n);
    assert forall|i: int| 0 <= i < text.len() implies text[i] != crate::table::ESCAPE && text[i]
        != crate::table::CARRIAGE_RETURN && text[i] != crate::table::LINE_FEED by {
        assert(size_char(text[i]));
    }
    if text.len() > 0 {
        assert(text.last() == text[text.len() - 1]);
    }
}

/// The header row over the given columns.
fn header_cells(columns: &Vec<Encoding>) -> (cells: Vec<String>)
    ensures
        row_text(cells@) == header_row(columns@),
{
    let mut cells: Vec<String> = Vec::new();
    cells.push("name".to_owned());
    let mut j: usize = 0;
    while j < columns.len()
        invariant
            j <= columns.len(),
            cells.len() == j + 1,
            cells@[0]@ == "name"@,
            forall|k: int| 0 <= k < j ==> (#[trigger] cells@[k + 1])@ == label_text(columns@[k]),
        decreases columns.len() - j,
    {
        cells.push(columns[j].label().to_owned());
        j = j + 1;
    }
    proof {
        let wanted = header_row(columns@);
        assert forall|k: int| 0 <= k < wanted.len() implies row_text(cells@)[k] == wanted[k] by {
            if k > 0 {
                assert(cells@[(k - 1) + 1]@ == label_text(columns@[k - 1]));
            }
        }
        assert(row_text(cells@) =~= wanted);
    }
    cells
}

/// The row of one report under the given columns, or the first column the
/// report holds no size for.
fn data_cells(report: &FileReport, columns: &Vec<Encoding>) -> (outcome: Result<
    Vec<String>,
    usize,
>)
    ensures
        match outcome {
            Ok(cells) => complete(*report, columns@) && row_text(cells@) == data_row(
                *report,
                columns@,
            ),
            Err(col) => {
                &&& col < columns.len()
                &&& size_under(report.measurements@, columns[col as int]) is None
                &&& forall|j: int|
                    0 <= j < col ==> size_under(report.measurements@, #[trigger] columns[j])
                        is Some
            },
        },
{
    let mut cells: Vec<String> = Vec::new();
    cells.push(report.name.clone());
    let mut j: usize = 0;
    while j < columns.len()
        invariant
            j <= columns.len(),
            cells.len() == j + 1,
            cells@[0]@ == report.name@,
            forall|k: int|
                0 <= k < j ==> size_under(report.measurements@, #[trigger] columns@[k]) is Some,
            forall|k: int|
                0 <= k < j ==> (#[trigger] cells@[k + 1])@ == pretty_text(
                    size_under(report.measurements@, columns@[k]).unwrap() as int,
                ),
        decreases columns.len() - j,
    {
        match report.size_under(columns[j]) {
            Some(size) => {
                cells.push(pretty(size as i128));
            },
            None => {
                return Err(j);
            },
        }
        j = j + 1;
    }
    proof {
        let wanted = data_row(*report, columns@);
        assert forall|k: int| 0 <= k < wanted.len() implies row_text(cells@)[k] == wanted[k] by {
            if k > 0 {
                assert(cells@[(k - 1) + 1]@ == pretty_text(
                    size_under(report.measurements@, columns@[k - 1]).unwrap() as int,
                ));
            }
        }
        assert(row_text(cells@) =~= wanted);
    }
    Ok(cells)
}

/// The encodings a report holds sizes for, in order.
fn encodings_in(report: &FileReport) -> (list: Vec<Encoding>)
    ensures
        list@ == report.encodings(),
{
    let mut list: Vec<Encoding> = Vec::new();
    let mut i: usize = 0;
    while i < report.measurements.len()
        invariant
            i <= report.measurements.len(),
            list@ == report.encodings().take(i as int),
        decreases report.measurements.len() - i,
    {
        list.push(report.measurements[i].encoding);
        assert(list@ =~= report.encodings().take(i + 1));
        i = i + 1;
    }
    assert(report.encodings().take(i as int) =~= report.encodings());
    list
}

/// The cells of the table that presents `reports`.
///
/// The columns are those of the first report. A later report that holds no
/// size for one of them fails the table: the error names the first such
/// row and, in it, the first encoding without a size. Sizes that a report
/// holds beyond the columns are not shown.
pub fn table_cells_of(reports: &Vec<FileReport>) -> (outcome: Result<Vec<Vec<String>>, RenderError>)
    ensures
        outcome is Ok <==> all_complete(reports@),
        match outcome {
            Ok(rows) => grid_text(rows@) == table_rows(reports@),
            Err(RenderError::MissingMeasurement { row, encoding }) => exists|col: int|
                first_gap(reports@, row as int, col) && columns_of(reports@)[col] == encoding,
            Err(RenderError::UnprintableName { .. }) => false,
        },
{
    let mut rows: Vec<Vec<String>> = Vec::new();
    if reports.len() == 0 {
        assert(grid_text(rows@) =~= table_rows(reports@));
        return Ok(rows);
    }
    let columns = encodings_in(&reports[0]);
    rows.push(header_cells(&columns));
    let mut i: usize = 0;
    while i < reports.len()
        invariant
            i <= reports.len(),
            reports.len() > 0,
            columns@ == columns_of(reports@),
            forall|r: int| 0 <= r < i ==> complete(#[trigger] reports@[r], columns@),
            rows.len() == i + 1,
            row_text(rows@[0]@) == header_row(columns@),
            forall|r: int| 0 <= r < i ==> row_text(#[trigger] rows@[r + 1]@) == data_row(
                reports@[r],
                columns@,
            ),
        decreases reports.len() - i,
    {
        match data_cells(&reports[i], &columns) {
            Ok(cells) => {
                rows.push(cells);
            },
            Err(col) => {
                assert(first_gap(reports@, i as int, col as int));
                return Err(RenderError::MissingMeasurement { row: i, encoding: columns[col] });
            },
        }
        i = i + 1;
    }
    proof {
        let wanted = table_rows(reports@);
        assert(grid_text(rows@).len() == wanted.len());
        assert forall|r: int| 0 <= r < wanted.len() implies grid_text(rows@)[r] == wanted[r] by {
            if r > 0 {
                assert(row_text(rows@[(r - 1) + 1]@) == data_row(reports@[r - 1], columns@));
            }
        }
        assert(grid_text(rows@) =~= wanted);
    }
    Ok(rows)
}

/// Appends the line of one report to `out`.
fn push_line(out: &mut String, report: &FileReport)
    ensures
        final(out)@ == old(out)@ + line_text(*report),
{
    out.append(report.name.as_str());
    if report.measurements.len() == 1 {
        out.append(": ");
        out.append(pretty(report.measurements[0].size as i128).as_str());
        assert(out@ =~= old(out)@ + line_text(*report));
    } else {
        let ghost start = out@;
        let mut j: usize = 0;
        while j < report.measurements.len()
            invariant
                j <= report.measurements.len(),
                out@ == start + fields_text(report.measurements@.take(j as int)),
            decreases report.measurements.len() - j,
        {
            let m = report.measurements[j];
            out.append(" ");
            out.append(m.encoding.label());
            out.append(":");
            out.append(pretty(m.size as i128).as_str());
            proof {
                let upto = report.measurements@.take(j + 1);
                assert(upto.drop_last() =~= report.measurements@.take(j as int));
                assert(upto.last() == m);
                assert(out@ =~= start + fields_text(upto));
            }
            j = j + 1;
        }
        assert(report.measurements@.take(j as int) =~= report.measurements@);
        assert(out@ =~= old(out)@ + line_text(*report));
    }
}

/// The reports as lines of text, one per file.
pub fn lines_of(reports: &Vec<FileReport>) -> (text: String)
    ensures
        text@ == lines_text(reports@),
{
    let mut text = String::new();
    let mut i: usize = 0;
    while i < reports.len()
        invariant
            i <= reports.len(),
            text@ == lines_text(reports@.take(i as int)),
        decreases reports.len() - i,
    {
        push_line(&mut text, &reports[i]);
        text.append("\n");
        proof {
            let upto = reports@.take(i + 1);
            assert(upto.drop_last() =~= reports@.take(i as int));
            assert(upto.last() == reports@[i as int]);
        }
        i = i + 1;
    }
    assert(reports@.take(i as int) =~= reports@);
    text
}

/// The first report whose name cannot stand in a table cell, if there is
/// one.
fn first_unprintable(reports: &Vec<FileReport>) -> (found: Option<usize>)
    ensures
        match found {
            Some(row) => {
                &&& row < reports.len()
                &&& !plain(reports@[row as int].name@)
                &&& forall|i: int| 0 <= i < row ==> plain((#[trigger] reports@[i]).name@)
            },
            None => names_plain(reports@),
        },
{
    let mut i: usize = 0;
    while i < reports.len()
        invariant
            i <= reports.len(),
            forall|r: int| 0 <= r < i ==> plain((#[trigger] reports@[r]).name@),
        decreases reports.len() - i,
    {
        if !is_plain(reports[i].name.as_str()) {
            return Some(i);
        }
        i = i + 1;
    }
    None
}

/// Renders reports as text.
///
/// In `SingleValue` mode every file gets one line, and rendering cannot
/// fail. In `Tabular` mode the reports become an aligned table with one
/// header row, emitted once, and one row per file; no report gives an
/// empty table. A table fails on the first report that lacks a size for
/// one of the columns, and otherwise on the first file name that a table
/// cell cannot hold as it is.
pub fn render(reports: &Vec<FileReport>, mode: Mode) -> (outcome: Result<String, RenderError>)
    ensures
        mode == Mode::SingleValue ==> (outcome matches Ok(text) && text@ == lines_text(reports@)),
        mode == Mode::Tabular ==> (outcome is Ok <==> all_complete(reports@) && names_plain(
            reports@,
        )),
        mode == Mode::Tabular ==> match outcome {
            Ok(text) => text@ == table_text(table_rows(reports@)),
            Err(RenderError::MissingMeasurement { row, encoding }) => exists|col: int|
                first_gap(reports@, row as int, col) && columns_of(reports@)[col] == encoding,
            Err(RenderError::UnprintableName { row }) => {
                &&& all_complete(reports@)
                &&& row < reports.len()
                &&& !plain(reports@[row as int].name@)
                &&& forall|i: int| 0 <= i < row ==> plain((#[trigger] reports@[i]).name@)
            },
        },
{
    match mode {
        Mode::SingleValue => Ok(lines_of(reports)),
        Mode::Tabular => {
            let rows = match table_cells_of(reports) {
                Ok(rows) => rows,
                Err(e) => {
                    return Err(e);
                },
            };
            match first_unprintable(reports) {
                Some(row) => Err(RenderError::UnprintableName { row }),
                None => {
                    proof {
                        lemma_table_rows_plain(reports@);
                        assert forall|i: int| 0 <= i < rows.len() implies plain_row(
                            #[trigger] row_text(rows@[i]@),
                        ) by {
                            assert(grid_text(rows@)[i] == row_text(rows@[i]@));
                        }
                    }
                    Ok(layout(&rows))
                },
            }
        },
    }
}

/// Every cell of a table over plainly named reports can stand in a table
/// cell.
pub proof fn lemma_table_rows_plain(reports: Seq<FileReport>)
    requires
        names_plain(reports),
    ensures
        forall|i: int| 0 <= i < table_rows(reports).len() ==> plain_row(#[trigger] table_rows(reports)[i]),
{
    reveal_strlit("name");
    reveal_strlit("raw");
    reveal_strlit("gz");
    reveal_strlit("br");
    let rows = table_rows(reports);
    let columns = columns_of(reports);
    assert forall|i: int| 0 <= i < rows.len() implies plain_row(#[trigger] rows[i]) by {
        if i == 0 {
            let header = header_row(columns);
            assert forall|j: int| 0 <= j < header.len() implies plain(#[trigger] header[j]) by {
                if j > 0 {
                    assert(header[j] == label_text(columns[j - 1]));
                }
            }
        } else {
            let report = reports[i - 1];
            let row = data_row(report, columns);
            assert(rows[i] == row);
            assert forall|j: int| 0 <= j < row.len() implies plain(#[trigger] row[j]) by {
                if j > 0 {
                    lemma_pretty_text_plain(
                        size_under(report.measurements@, columns[j - 1]).unwrap() as int,
                    );
                } else {
                    assert(row[0] == report.name@);
                }
            }
        }
    }
}

} // verus!
