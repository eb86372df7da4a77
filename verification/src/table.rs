//! Laying cells out as an aligned text table, which is left to prettytable.

use vstd::prelude::*;

verus! {

/// The escape character, which opens a terminal control sequence.
pub const ESCAPE: char = '\u{1b}';

/// The carriage return.
pub const CARRIAGE_RETURN: char = '\r';

/// The line feed.
pub const LINE_FEED: char = '\n';

/// Whether a table cell can hold a text as it is given: the text has no
/// escape character and no carriage return, and does not end in a line
/// feed. Line feeds inside it are fine; they make the cell several lines
/// tall.
pub open spec fn plain(text: Seq<char>) -> bool {
    &&& forall|i: int| 0 <= i < text.len() ==> text[i] != ESCAPE && text[i] != CARRIAGE_RETURN
    &&& text.len() > 0 ==> text.last() != LINE_FEED
}

/// Checks that a table cell can hold a text as it is given.
pub fn is_plain(text: &str) -> (clean: bool)
    ensures
        clean == plain(text@),
{
    let mut ends_in_feed = false;
    for c in it: text.chars()
        invariant
            it.seq() == text@,
            forall|j: int|
                0 <= j < it.index() ==> text@[j] != ESCAPE && text@[j] != CARRIAGE_RETURN,
            ends_in_feed == (it.index() > 0 && text@[it.index() - 1] == LINE_FEED),
    {
        if c == ESCAPE || c == CARRIAGE_RETURN {
            return false;
        }
        ends_in_feed = c == LINE_FEED;
    }
    !ends_in_feed
}

/// `prettytable::Table`, a grid of text cells that prints itself aligned.
#[verifier::external_type_specification]
#[verifier::external_body]
pub struct ExTable(prettytable::Table);

/// The content of every cell of a table, row by row: the lines that the
/// cell keeps, joined by line feeds.
pub uninterp spec fn table_cells(table: prettytable::Table) -> Seq<Seq<Seq<char>>>;

/// Whether a table is as `Table::new` and `Cell::new` make it: in the
/// default format, without titles, every cell left-aligned, unstyled and one
/// column wide.
pub uninterp spec fn table_bare(table: prettytable::Table) -> bool;

/// The text that a bare `prettytable::Table` holding these cells prints
/// itself as.
pub uninterp spec fn table_text(cells: Seq<Seq<Seq<char>>>) -> Seq<char>;

/// The texts of a row of strings.
pub open spec fn row_text(row: Seq<String>) -> Seq<Seq<char>> {
    Seq::new(row.len(), |j: int| row[j]@)
}

/// The texts of a grid of strings.
pub open spec fn grid_text(rows: Seq<Vec<String>>) -> Seq<Seq<Seq<char>>> {
    Seq::new(rows.len(), |i: int| row_text(rows[i]@))
}

/// Whether every text of a row can stand in a table cell.
pub open spec fn plain_row(row: Seq<Seq<char>>) -> bool {
    forall|j: int| 0 <= j < row.len() ==> plain(#[trigger] row[j])
}

/// Calls `prettytable::Table::new`.
///
/// Trusted: the new table holds no row and is bare.
#[verifier::external_body]
fn table_new() -> (table: prettytable::Table)
    ensures
        table_cells(table) == Seq::<Seq<Seq<char>>>::empty(),
        table_bare(table),
{
    prettytable::Table::new()
}

/// Calls `prettytable::Table::add_row` with a `Row::new` of one `Cell::new`
/// per string.
///
/// Trusted: the table gains one row at its end, with one cell per text, in
/// order; the rows before it stay, and so does whether the table is bare. A
/// cell keeps the lines of its text, which for a plain text come to the text
/// itself. Other texts are kept out: a cell drops a line feed at the end and
/// may drop carriage returns, and measuring its width can panic after an
/// escape character.
#[verifier::external_body]
fn table_add_row(table: &mut prettytable::Table, cells: &Vec<String>)
    requires
        plain_row(row_text(cells@)),
    ensures
        table_cells(*final(table)) == table_cells(*old(table)).push(row_text(cells@)),
        table_bare(*final(table)) == table_bare(*old(table)),
{
    let row = cells.iter().map(|text| prettytable::Cell::new(text)).collect();
    table.add_row(prettytable::Row::new(row));
}

/// Calls `to_string` on a `prettytable::Table`, which prints it through its
/// `Display` impl.
///
/// Trusted: the printed form of a bare table depends on the content of its
/// cells alone; it is named `table_text`.
#[verifier::external_body]
fn table_to_string(table: &prettytable::Table) -> (text: String)
    requires
        table_bare(*table),
    ensures
        text@ == table_text(table_cells(*table)),
{
    table.to_string()
}

/// Lays rows of cells out as an aligned text table.
///
/// Every cell must be plain.
pub(crate) fn layout(rows: &Vec<Vec<String>>) -> (text: String)
    requires
        forall|i: int| 0 <= i < rows.len() ==> plain_row(#[trigger] row_text(rows[i]@)),
    ensures
        text@ == table_text(grid_text(rows@)),
{
    let mut table = table_new();
    let mut i: usize = 0;
    while i < rows.len()
        invariant
            i <= rows.len(),
            forall|i: int| 0 <= i < rows.len() ==> plain_row(#[trigger] row_text(rows[i]@)),
            table_cells(table) == grid_text(rows@.take(i as int)),
            table_bare(table),
        decreases rows.len() - i,
    {
        assert(plain_row(row_text(rows[i as int]@)));
        table_add_row(&mut table, &rows[i]);
        assert(grid_text(rows@.take(i + 1)) =~= grid_text(rows@.take(i as int)).push(
            row_text(rows[i as int]@),
        ));
        i = i + 1;
    }
    assert(rows@.take(i as int) =~= rows@);
    table_to_string(&table)
}

} // verus!
