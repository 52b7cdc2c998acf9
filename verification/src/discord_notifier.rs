//! The digest that a subscriber receives: a table with one column per class
//! and one row per time block, cut down to the blocks between the first and
//! the last one for which anything is announced.

use vstd::prelude::*;
use vstd::string::*;
use prettytable::format::consts::FORMAT_BOX_CHARS;
use prettytable::Table;
use crate::substitution_pdf_getter::{day_name, source_url, Weekdays};
use crate::substitution_schedule::columns_of;
use crate::substitutions::{first_present, last_present, Substitutions, Text};
use crate::table::{cell_text, header_row, Column};

verus! {

/// A table as its rows, each row as the texts of its cells.
pub type Grid = Seq<Seq<Text>>;

/// The label of the row of a time block: its number and its time range.
pub open spec fn hour_mark(block: int) -> Text {
    if block == 0 {
        "0: 07:15\n - 08:00"@
    } else if block == 1 {
        "1: 08:00\n - 09:30"@
    } else if block == 2 {
        "2: 09:50\n - 11:20"@
    } else if block == 3 {
        "3: 11:40\n - 13:10"@
    } else if block == 4 {
        "4: 13:30\n - 15:00"@
    } else {
        "5: 15:15\n - 16:45"@
    }
}

/// The smallest of the columns' first blocks with a text; 5 for no column.
pub open spec fn least_first(columns: Seq<Column>) -> int
    decreases columns.len(),
{
    if columns.len() == 0 {
        5
    } else {
        let rest = least_first(columns.drop_last());
        let first = first_present(columns.last().1);
        if first < rest {
            first
        } else {
            rest
        }
    }
}

/// The greatest of the columns' last blocks with a text; 0 for no column.
pub open spec fn greatest_last(columns: Seq<Column>) -> int
    decreases columns.len(),
{
    if columns.len() == 0 {
        0
    } else {
        let rest = greatest_last(columns.drop_last());
        let last = last_present(columns.last().1);
        if last > rest {
            last
        } else {
            rest
        }
    }
}

/// The row of a time block: its label, then what each class has for it.
pub open spec fn block_row(columns: Seq<Column>, block: int) -> Seq<Text> {
    Seq::new(
        columns.len() + 1,
        |col: int|
            if col == 0 {
                hour_mark(block)
            } else {
                cell_text(columns[col - 1].1[block])
            },
    )
}

/// The digest of some classes. Without a class it is the top row alone.
/// Otherwise the top row is followed by the rows of the blocks from the
/// earliest first block with a text of any class to the latest last one;
/// a class without any text counts as if it had one in every block.
pub open spec fn digest_grid(columns: Seq<Column>) -> Grid {
    if columns.len() == 0 {
        seq![header_row(columns)]
    } else {
        let first = least_first(columns);
        let last = greatest_last(columns);
        seq![header_row(columns)] + Seq::new(
            (last - first + 1) as nat,
            |k: int| block_row(columns, first + k),
        )
    }
}

/// The first shown block is a first block of one of the columns and not
/// after any of them; the last shown block likewise; and the first is not
/// after the last.
pub proof fn lemma_shown_blocks(columns: Seq<Column>)
    requires
        columns.len() > 0,
    ensures
        0 <= least_first(columns) <= greatest_last(columns) <= 5,
        forall|i: int|
            0 <= i < columns.len() ==> least_first(columns) <= first_present(
                (#[trigger] columns[i]).1,
            ),
        forall|i: int|
            0 <= i < columns.len() ==> last_present((#[trigger] columns[i]).1) <= greatest_last(
                columns,
            ),
        exists|i: int|
            0 <= i < columns.len() && first_present((#[trigger] columns[i]).1) == least_first(
                columns,
            ),
        exists|i: int|
            0 <= i < columns.len() && last_present((#[trigger] columns[i]).1) == greatest_last(
                columns,
            ),
    decreases columns.len(),
{
    let rest = columns.drop_last();
    let at = columns.len() - 1;
    if rest.len() > 0 {
        lemma_shown_blocks(rest);
        assert forall|i: int| 0 <= i < columns.len() implies least_first(columns) <= first_present(
            (#[trigger] columns[i]).1,
        ) && last_present(columns[i].1) <= greatest_last(columns) by {
            if i < at {
                assert(rest[i] == columns[i]);
            }
        }
        let f = choose|i: int|
            0 <= i < rest.len() && first_present((#[trigger] rest[i]).1) == least_first(rest);
        assert(columns[f] == rest[f]);
        let l = choose|i: int|
            0 <= i < rest.len() && last_present((#[trigger] rest[i]).1) == greatest_last(rest);
        assert(columns[l] == rest[l]);
        assert(first_present(columns[f].1) == least_first(columns) || first_present(columns[at].1)
            == least_first(columns));
        assert(last_present(columns[l].1) == greatest_last(columns) || last_present(columns[at].1)
            == greatest_last(columns));
    } else {
        assert(least_first(rest) == 5 && greatest_last(rest) == 0);
        assert(first_present(columns[at].1) == least_first(columns));
        assert(last_present(columns[at].1) == greatest_last(columns));
    }
}

/// Two digests of the same classes in the same order are the same table, cell
/// for cell, and are laid out as the same text.
pub proof fn lemma_digest_repeats(first: Grid, second: Grid, columns: Seq<Column>)
    requires
        first == digest_grid(columns),
        second == digest_grid(columns),
    ensures
        first == second,
        box_table_text(first) == box_table_text(second),
{
}

/// The digest of some classes has one more row than blocks are shown, and
/// every row has one more cell than there are classes.
pub proof fn lemma_digest_shape(columns: Seq<Column>)
    ensures
        columns.len() == 0 ==> digest_grid(columns).len() == 1,
        columns.len() > 0 ==> digest_grid(columns).len() == 2 + greatest_last(columns) - least_first(
            columns,
        ),
        forall|row: int|
            0 <= row < digest_grid(columns).len() ==> (#[trigger] digest_grid(columns)[row]).len()
                == columns.len() + 1,
{
    if columns.len() > 0 {
        lemma_shown_blocks(columns);
    }
}

/// The character that starts a terminal control sequence.
pub const ESCAPE: char = '\u{1b}';

/// Whether a table can be laid out: no cell holds the escape character.
pub open spec fn printable(grid: Grid) -> bool {
    forall|row: int, col: int|
        0 <= row < grid.len() && 0 <= col < grid[row].len() ==> !(#[trigger] grid[row][col]).contains(
            ESCAPE,
        )
}

/// What prettytable's `Table` prints for a grid of cells in the format
/// `FORMAT_BOX_CHARS`: the cells in columns as wide as their widest line,
/// between lines of box-drawing characters.
pub uninterp spec fn box_table_text(grid: Seq<Seq<Seq<char>>>) -> Seq<char>;

/// Lays a grid of cells out with prettytable: `Table::from` makes a table
/// with one `Cell` per text, `Table::set_format` gives it the format
/// `FORMAT_BOX_CHARS`, and `to_string` prints it through the table's
/// `Display`. The result is named [`box_table_text`]; nothing else is claimed
/// of it. Cells with the escape character are left out: when prettytable
/// measures a cell it takes what follows that character for a colour code,
/// and it panics where the code comes out wider than the cell.
#[verifier::external_body]
fn print_box_table(rows: &Vec<Vec<String>>) -> (text: String)
    requires
        printable(rows.deep_view()),
    ensures
        text@ == box_table_text(rows.deep_view()),
{
    let mut table = Table::from(rows);
    table.set_format(*FORMAT_BOX_CHARS);
    table.to_string()
}

/// The label of the row of a time block.
pub fn hour_mark_of(block: usize) -> (label: &'static str)
    requires
        block < 6,
    ensures
        label@ == hour_mark(block as int),
{
    if block == 0 {
        "0: 07:15\n - 08:00"
    } else if block == 1 {
        "1: 08:00\n - 09:30"
    } else if block == 2 {
        "2: 09:50\n - 11:20"
    } else if block == 3 {
        "3: 11:40\n - 13:10"
    } else if block == 4 {
        "4: 13:30\n - 15:00"
    } else {
        "5: 15:15\n - 16:45"
    }
}

/// A digest before it is laid out: the texts of its cells, row by row.
#[derive(Debug)]
pub struct DigestTable {
    rows: Vec<Vec<String>>,
}

impl View for DigestTable {
    type V = Grid;

    /// The rows of the table, each as the texts of its cells.
    closed spec fn view(&self) -> Grid {
        self.rows.deep_view()
    }
}

/// Whether a text holds the character.
fn holds_char(text: &str, wanted: char) -> (found: bool)
    ensures
        found == text@.contains(wanted),
{
    let mut found = false;
    for c in it: text.chars()
        invariant
            it.seq() == text@,
            found == text@.take(it.index()).contains(wanted),
    {
        proof {
            let read = text@.take(it.index());
            let more = text@.take(it.index() + 1);
            assert(more =~= read.push(c));
            assert forall|x: char| more.contains(x) <==> read.contains(x) || x == c by {
                if read.contains(x) {
                    let k = choose|k: int| 0 <= k < read.len() && read[k] == x;
                    assert(more[k] == x);
                }
                if x == c {
                    assert(more[it.index()] == x);
                }
            }
        }
        if c == wanted {
            found = true;
        }
    }
    assert(text@.take(text@.len() as int) =~= text@);
    found
}

impl DigestTable {
    /// The rows of the table, each with the texts of its cells.
    pub fn rows(&self) -> (rows: &Vec<Vec<String>>)
        ensures
            rows.deep_view() == self@,
    {
        &self.rows
    }

    /// Whether the table can be laid out: see [`printable`].
    pub fn is_printable(&self) -> (fit: bool)
        ensures
            fit == printable(self@),
    {
        let ghost grid = self.rows.deep_view();
        let mut row: usize = 0;
        while row < self.rows.len()
            invariant
                row <= self.rows.len(),
                grid == self.rows.deep_view(),
                forall|r: int, c: int|
                    0 <= r < row && 0 <= c < grid[r].len() ==> !(#[trigger] grid[r][c]).contains(ESCAPE),
            decreases self.rows.len() - row,
        {
            let cells = &self.rows[row];
            assert(grid[row as int] == cells.deep_view());
            let mut col: usize = 0;
            while col < cells.len()
                invariant
                    col <= cells.len(),
                    row < self.rows.len(),
                    grid == self.rows.deep_view(),
                    grid[row as int] == cells.deep_view(),
                    forall|r: int, c: int|
                        0 <= r < row && 0 <= c < grid[r].len() ==> !(#[trigger] grid[r][c]).contains(
                            ESCAPE,
                        ),
                    forall|c: int| 0 <= c < col ==> !(#[trigger] grid[row as int][c]).contains(ESCAPE),
                decreases cells.len() - col,
            {
                assert(grid[row as int][col as int] == cells[col as int]@);
                if holds_char(cells[col].as_str(), ESCAPE) {
                    return false;
                }
                col += 1;
            }
            row += 1;
        }
        true
    }

    /// The table laid out with box-drawing characters.
    pub fn to_string(&self) -> (text: String)
        requires
            printable(self@),
        ensures
            text@ == box_table_text(self@),
    {
        print_box_table(&self.rows)
    }

    /// The table laid out with box-drawing characters, if it can be laid
    /// out.
    pub fn render(&self) -> (text: Option<String>)
        ensures
            match text {
                Some(text) => printable(self@) && text@ == box_table_text(self@),
                None => !printable(self@),
            },
    {
        if self.is_printable() {
            Some(self.to_string())
        } else {
            None
        }
    }
}

/// The earliest first block and the latest last block with a text among
/// the columns.
fn shown_blocks(substitutions: &Vec<(String, &Substitutions)>) -> (shown: (usize, usize))
    ensures
        shown.0 == least_first(columns_of(substitutions@)),
        shown.1 == greatest_last(columns_of(substitutions@)),
{
    let ghost columns = columns_of(substitutions@);
    let mut first: usize = 5;
    let mut last: usize = 0;
    let mut i: usize = 0;
    assert(columns.take(0) =~= Seq::<Column>::empty());
    while i < substitutions.len()
        invariant
            i <= substitutions.len(),
            columns == columns_of(substitutions@),
            first == least_first(columns.take(i as int)),
            last == greatest_last(columns.take(i as int)),
        decreases substitutions.len() - i,
    {
        proof {
            assert(columns.take(i + 1).drop_last() =~= columns.take(i as int));
            assert(columns.take(i + 1).last() == columns[i as int]);
            assert(columns[i as int].1 == substitutions[i as int].1@);
        }
        let from = substitutions[i].1.first_substitution();
        let to = substitutions[i].1.last_substitution();
        if from < first {
            first = from;
        }
        if to > last {
            last = to;
        }
        i += 1;
    }
    assert(columns.take(substitutions.len() as int) =~= columns);
    (first, last)
}

/// The top row of the digest of some classes.
fn make_header_row(substitutions: &Vec<(String, &Substitutions)>) -> (row: Vec<String>)
    ensures
        row.deep_view() == header_row(columns_of(substitutions@)),
{
    let ghost columns = columns_of(substitutions@);
    let mut row: Vec<String> = Vec::new();
    row.push(String::new());
    let mut i: usize = 0;
    while i < substitutions.len()
        invariant
            i <= substitutions.len(),
            columns == columns_of(substitutions@),
            row.len() == i + 1,
            row[0]@ == Seq::<char>::empty(),
            forall|col: int| 1 <= col <= i ==> (#[trigger] row[col])@ == columns[col - 1].0,
        decreases substitutions.len() - i,
    {
        row.push(substitutions[i].0.clone());
        i += 1;
    }
    assert(row.deep_view() =~= header_row(columns));
    row
}

/// The row of a time block in the digest of some classes.
fn make_block_row(substitutions: &Vec<(String, &Substitutions)>, block: usize) -> (row: Vec<String>)
    requires
        block < 6,
    ensures
        row.deep_view() == block_row(columns_of(substitutions@), block as int),
{
    let ghost columns = columns_of(substitutions@);
    let mut row: Vec<String> = Vec::new();
    row.push(hour_mark_of(block).to_owned());
    let mut i: usize = 0;
    while i < substitutions.len()
        invariant
            i <= substitutions.len(),
            block < 6,
            columns == columns_of(substitutions@),
            row.len() == i + 1,
            row[0]@ == hour_mark(block as int),
            forall|col: int|
                1 <= col <= i ==> (#[trigger] row[col])@ == cell_text(columns[col - 1].1[block as int]),
        decreases substitutions.len() - i,
    {
        let blocks = substitutions[i].1.as_array();
        let cell = match blocks[block] {
            Some(text) => text.clone(),
            None => String::new(),
        };
        assert(blocks[block as int].deep_view() == columns[i as int].1[block as int]);
        row.push(cell);
        i += 1;
    }
    assert(row.deep_view() =~= block_row(columns, block as int));
    row
}

/// The message that tells a subscriber of the changes on a day: the day, the
/// digest between code fences, and where the plan is published.
pub open spec fn notification(day: Weekdays, table: Text) -> Text {
    "There are changes in schedule on "@ + day_name(day) + ": ```\n"@ + table + "\n```Source: "@
        + source_url(day)
}

/// Composes the message that tells a subscriber of the changes on a day
/// from the digest that was laid out for them.
pub fn notification_text(day: Weekdays, table: &str) -> (text: String)
    ensures
        text@ == notification(day, table@),
{
    let mut text = "There are changes in schedule on ".to_owned();
    text.append(day.name());
    text.append(": ```\n");
    text.append(table);
    text.append("\n```Source: ");
    text.append(day.source_url());
    text
}

/// Builds the digest of some classes: see [`digest_grid`]. The columns
/// follow the order of the classes in the list.
pub fn table_from_substitutions(substitutions: &Vec<(String, &Substitutions)>) -> (table:
    DigestTable)
    ensures
        table@ == digest_grid(columns_of(substitutions@)),
{
    let ghost columns = columns_of(substitutions@);
    let mut rows: Vec<Vec<String>> = Vec::new();
    rows.push(make_header_row(substitutions));
    if substitutions.len() > 0 {
        let (first, last) = shown_blocks(substitutions);
        proof {
            lemma_shown_blocks(columns);
        }
        let mut block = first;
        while block <= last
            invariant
                first <= block <= last + 1,
                last < 6,
                columns == columns_of(substitutions@),
                rows.len() == 1 + (block - first),
                rows[0].deep_view() == header_row(columns),
                forall|k: int|
                    0 <= k < block - first ==> (#[trigger] rows[1 + k]).deep_view() == block_row(
                        columns,
                        first + k,
                    ),
            decreases last + 1 - block,
        {
            rows.push(make_block_row(substitutions, block));
            block += 1;
        }
        proof {
            let grid = digest_grid(columns);
            let made = rows.deep_view();
            assert(made.len() == grid.len());
            assert forall|r: int| 0 <= r < made.len() implies made[r] == grid[r] by {
                assert(made[r] == rows[r].deep_view());
                if r > 0 {
                    let k = r - 1;
                    assert(rows[1 + k].deep_view() == block_row(columns, first + k));
                }
            }
            assert(made =~= grid);
        }
    } else {
        assert(rows.deep_view() =~= digest_grid(columns));
    }
    DigestTable { rows }
}

} // verus!
