//! What a page of the extracted plan means: how its rows fall into the six
//! time blocks and which text each class gets for each of them.
//!
//! A page is a grid of cells. Row 0 is the header: a label cell, then one
//! class name per column. The rows below it carry, under each class, one line
//! of text. For each time block there is a group of one or more rows; the last
//! row of a group is the one whose label starts with the terminator mark.

use vstd::prelude::*;
use crate::substitutions::{append_line, no_blocks, Blocks, Text};

verus! {

/// One row of a page: its cells from left to right.
pub type Row = Seq<Text>;

/// One page: its rows from top to bottom.
pub type Page = Seq<Row>;

/// What a schedule holds: for each class that occurs, its six blocks.
pub type Entries = Map<Text, Blocks>;

/// A class with its six blocks.
pub type Column = (Text, Blocks);

/// The character that starts the label of the last row of a block.
pub const TERMINATOR: char = '-';

/// Whether a row label marks the last row of a block's group.
pub open spec fn is_terminator(label: Text, mark: char) -> bool {
    label.len() > 0 && label[0] == mark
}

/// Delimits the group of rows that starts at `row`: `Ok` with the index of the
/// row that ends it, or `Err` with the index of the first row that is missing
/// or is not as wide as the header.
pub open spec fn group_end(page: Page, row: int, mark: char) -> Result<int, int>
    decreases page.len() - row,
{
    if row < 0 || row >= page.len() || page[row].len() != page[0].len() {
        Err(row)
    } else if is_terminator(page[row][0], mark) {
        Ok(row)
    } else {
        group_end(page, row + 1, mark)
    }
}

/// The row at which the group of the given block starts, where the groups of
/// all earlier blocks can be delimited; else the first offending row.
pub open spec fn group_start(page: Page, block: int, mark: char) -> Result<int, int>
    decreases block,
{
    if block <= 0 {
        Ok(1)
    } else {
        match group_start(page, block - 1, mark) {
            Ok(start) => match group_end(page, start, mark) {
                Ok(end) => Ok(end + 1),
                Err(row) => Err(row),
            },
            Err(row) => Err(row),
        }
    }
}

/// First row of a block's group on a page whose shape is sound.
pub open spec fn first_row(page: Page, block: int, mark: char) -> int {
    group_start(page, block, mark)->Ok_0
}

/// Last row of a block's group on a page whose shape is sound.
pub open spec fn last_row(page: Page, block: int, mark: char) -> int {
    group_end(page, first_row(page, block, mark), mark)->Ok_0
}

/// The text gathered for `class` from the rows `start..row` and, of row `row`,
/// from the columns `1..col`, read row by row and from left to right. A cell
/// counts for the class whose name heads its column.
pub open spec fn gathered(page: Page, class: Text, start: int, row: int, col: int) -> Option<Text>
    decreases row - start, col,
{
    if row < start {
        None
    } else if col > 1 {
        let before = gathered(page, class, start, row, col - 1);
        if page[0][col - 1] == class {
            append_line(before, page[row][col - 1])
        } else {
            before
        }
    } else if row > start {
        gathered(page, class, start, row - 1, page[0].len() as int)
    } else {
        None
    }
}

/// The six blocks of a class while the page is being read: the blocks before
/// `block` are complete, block `block` holds `current`, the later ones nothing.
pub open spec fn progress(
    page: Page,
    class: Text,
    block: int,
    current: Option<Text>,
    mark: char,
) -> Blocks {
    Seq::new(
        6,
        |b: int|
            if b < block {
                block_text(page, class, b, mark)
            } else if b == block {
                current
            } else {
                None
            },
    )
}

/// The text of one block of one class on a page.
pub open spec fn block_text(page: Page, class: Text, block: int, mark: char) -> Option<Text> {
    gathered(
        page,
        class,
        first_row(page, block, mark),
        last_row(page, block, mark),
        page[0].len() as int,
    )
}

/// Whether the header of the page names the class.
pub open spec fn names_class(page: Page, class: Text) -> bool {
    exists|col: int| 1 <= col < page[0].len() && page[0][col] == class
}

/// The entries that a page with a sound shape yields: every class of the
/// header, each with the text of its six blocks.
pub open spec fn page_entries(page: Page, mark: char) -> Entries {
    Map::new(
        |class: Text| names_class(page, class),
        |class: Text| Seq::new(6, |block: int| block_text(page, class, block, mark)),
    )
}

/// What one page yields. A page without rows has no header and is malformed
/// at row 0. A page whose header names no class yields nothing. Any other
/// page yields its entries if six groups of rows can be delimited, and else
/// is malformed at the first offending row.
pub open spec fn page_outcome(page: Page, mark: char) -> Result<Entries, int> {
    if page.len() == 0 {
        Err(0)
    } else if page[0].len() <= 1 {
        Ok(Map::empty())
    } else {
        match group_start(page, 6, mark) {
            Ok(_) => Ok(page_entries(page, mark)),
            Err(row) => Err(row),
        }
    }
}

/// What the first `count` pages yield together: the entries of all of them,
/// a later page replacing what an earlier one said of the same class; or the
/// index of the first malformed page with its offending row.
pub open spec fn pages_outcome(pages: Seq<Page>, count: int, mark: char) -> Result<
    Entries,
    (int, int),
>
    decreases count,
{
    if count <= 0 {
        Ok(Map::empty())
    } else {
        match pages_outcome(pages, count - 1, mark) {
            Err(at) => Err(at),
            Ok(entries) => match page_outcome(pages[count - 1], mark) {
                Err(row) => Err((count - 1, row)),
                Ok(more) => Ok(entries.union_prefer_right(more)),
            },
        }
    }
}

/// What a sequence of pages yields: see [`pages_outcome`].
pub open spec fn reconstruct(pages: Seq<Page>, mark: char) -> Result<Entries, (int, int)> {
    pages_outcome(pages, pages.len() as int, mark)
}

/// Once a group cannot be delimited, no later block has a start: the same
/// offending row is reported for all of them.
pub proof fn lemma_error_stays(page: Page, block: int, later: int, mark: char)
    requires
        0 <= block <= later,
        group_start(page, block, mark) is Err,
    ensures
        group_start(page, later, mark) == group_start(page, block, mark),
    decreases later - block,
{
    if block < later {
        lemma_error_stays(page, block, later - 1, mark);
    }
}

/// Once a page is malformed, the outcome of the pages is that error, however
/// many pages follow.
pub proof fn lemma_page_error_stays(pages: Seq<Page>, count: int, later: int, mark: char)
    requires
        0 <= count <= later,
        pages_outcome(pages, count, mark) is Err,
    ensures
        pages_outcome(pages, later, mark) == pages_outcome(pages, count, mark),
    decreases later - count,
{
    if count < later {
        lemma_page_error_stays(pages, count, later - 1, mark);
    }
}

/// Where the start of a block is known, the starts of all earlier blocks are.
pub proof fn lemma_earlier_starts(page: Page, block: int, later: int, mark: char)
    requires
        0 <= block <= later,
        group_start(page, later, mark) is Ok,
    ensures
        group_start(page, block, mark) is Ok,
        block < later ==> group_end(page, first_row(page, block, mark), mark) is Ok,
    decreases later - block,
{
    if block < later {
        if group_start(page, block, mark) is Err {
            lemma_error_stays(page, block, later, mark);
        }
        if block + 1 < later {
            lemma_earlier_starts(page, block + 1, later, mark);
        }
    }
}

/// The row that ends a group lies at or after its start and inside the page,
/// is as wide as the header and bears the terminator; the rows before it in
/// the group are as wide as the header and do not bear it.
pub proof fn lemma_group_end(page: Page, row: int, mark: char)
    requires
        0 <= row,
        group_end(page, row, mark) is Ok,
    ensures
        row <= group_end(page, row, mark)->Ok_0 < page.len(),
        is_terminator(page[group_end(page, row, mark)->Ok_0][0], mark),
        forall|r: int|
            row <= r <= group_end(page, row, mark)->Ok_0 ==> (#[trigger] page[r]).len() == page[0].len(),
        forall|r: int|
            row <= r < group_end(page, row, mark)->Ok_0 ==> !is_terminator((#[trigger] page[r])[0], mark),
    decreases page.len() - row,
{
    if !is_terminator(page[row][0], mark) {
        lemma_group_end(page, row + 1, mark);
    }
}

/// The top row of a table of classes: an empty cell, then the class names.
pub open spec fn header_row(columns: Seq<Column>) -> Row {
    Seq::new(
        columns.len() + 1,
        |col: int|
            if col == 0 {
                Seq::empty()
            } else {
                columns[col - 1].0
            },
    )
}

/// What a cell shows for a block: its text, or nothing where it has none.
pub open spec fn cell_text(block: Option<Text>) -> Text {
    match block {
        Some(text) => text,
        None => Seq::empty(),
    }
}

/// The row that a written page has for a block: a label that is the
/// terminator mark alone, then what each class has for the block.
pub open spec fn plan_row(columns: Seq<Column>, block: int, mark: char) -> Row {
    Seq::new(
        columns.len() + 1,
        |col: int|
            if col == 0 {
                seq![mark]
            } else {
                cell_text(columns[col - 1].1[block])
            },
    )
}

/// The page that is written for some classes: the header with their names
/// and below it one row for each of the six blocks.
pub open spec fn plan_page(columns: Seq<Column>, mark: char) -> Page {
    Seq::new(
        7,
        |row: int|
            if row == 0 {
                header_row(columns)
            } else {
                plan_row(columns, row - 1, mark)
            },
    )
}

/// No class occurs twice among the columns.
pub open spec fn distinct_columns(columns: Seq<Column>) -> bool {
    forall|i: int, j: int|
        0 <= i < j < columns.len() ==> (#[trigger] columns[i]).0 != (#[trigger] columns[j]).0
}

/// Every class has six blocks, and a block that has a text has one that is
/// not empty.
pub open spec fn sound_columns(columns: Seq<Column>) -> bool {
    forall|i: int|
        0 <= i < columns.len() ==> (#[trigger] columns[i]).1.len() == 6 && forall|block: int|
            0 <= block < 6 ==> columns[i].1[block] != Some(Seq::<char>::empty())
}

/// Whether one of the columns is about the class.
pub open spec fn has_column(columns: Seq<Column>, class: Text) -> bool {
    exists|i: int| 0 <= i < columns.len() && (#[trigger] columns[i]).0 == class
}

/// The index of a column that is about the class.
pub open spec fn column_index(columns: Seq<Column>, class: Text) -> int {
    choose|i: int| 0 <= i < columns.len() && (#[trigger] columns[i]).0 == class
}

/// The mapping that gives each class of the columns its blocks.
pub open spec fn column_entries(columns: Seq<Column>) -> Entries {
    Map::new(
        |class: Text| has_column(columns, class),
        |class: Text| columns[column_index(columns, class)].1,
    )
}

/// In a written page the group of each block is the one row written for it.
pub proof fn lemma_plan_page_groups(columns: Seq<Column>, block: int, mark: char)
    requires
        0 <= block <= 6,
    ensures
        group_start(plan_page(columns, mark), block, mark) == Ok::<int, int>(block + 1),
        block < 6 ==> group_end(plan_page(columns, mark), block + 1, mark) == Ok::<int, int>(block + 1),
    decreases block,
{
    let page = plan_page(columns, mark);
    if block > 0 {
        lemma_plan_page_groups(columns, block - 1, mark);
    }
    if block < 6 {
        assert(page[block + 1] == plan_row(columns, block, mark));
        assert(page[0] == header_row(columns));
        assert(is_terminator(page[block + 1][0], mark));
    }
}

/// What is gathered from one row of a written page for a class, up to a
/// column: the cell of the class, if it has a column before that one and
/// the cell is not empty.
pub proof fn lemma_plan_row_gathered(
    columns: Seq<Column>,
    class: Text,
    block: int,
    col: int,
    mark: char,
)
    requires
        distinct_columns(columns),
        0 <= block < 6,
        1 <= col <= columns.len() + 1,
    ensures
        gathered(plan_page(columns, mark), class, block + 1, block + 1, col) == if has_column(
            columns,
            class,
        ) && column_index(columns, class) + 1 < col {
            append_line(None, cell_text(columns[column_index(columns, class)].1[block]))
        } else {
            None
        },
    decreases col,
{
    let page = plan_page(columns, mark);
    assert(page[block + 1] == plan_row(columns, block, mark));
    assert(page[0] == header_row(columns));
    if col > 1 {
        lemma_plan_row_gathered(columns, class, block, col - 1, mark);
        if page[0][col - 1] == class {
            assert(columns[col - 2].0 == class);
            assert(column_index(columns, class) == col - 2);
        } else if has_column(columns, class) {
            assert(column_index(columns, class) != col - 2);
        }
    }
}

/// Reading a page that was written for distinct classes, none of which has
/// an empty text, gives each class the blocks it was written with.
pub proof fn lemma_plan_page_read_back(columns: Seq<Column>, mark: char)
    requires
        distinct_columns(columns),
        sound_columns(columns),
    ensures
        page_outcome(plan_page(columns, mark), mark) == Ok::<Entries, int>(column_entries(columns)),
        reconstruct(seq![plan_page(columns, mark)], mark) == Ok::<Entries, (int, int)>(
            column_entries(columns),
        ),
{
    let page = plan_page(columns, mark);
    let entries = column_entries(columns);
    assert(page[0] == header_row(columns));
    if columns.len() == 0 {
        assert(entries =~= Map::empty());
    } else {
        lemma_plan_page_groups(columns, 6, mark);
        assert forall|class: Text| names_class(page, class) <==> has_column(columns, class) by {
            if names_class(page, class) {
                let col = choose|col: int| 1 <= col < page[0].len() && page[0][col] == class;
                assert(columns[col - 1].0 == class);
            }
            if has_column(columns, class) {
                let i = column_index(columns, class);
                assert(page[0][i + 1] == class);
            }
        }
        assert forall|class: Text| has_column(columns, class) implies page_entries(page, mark)[class]
            == entries[class] by {
            let i = column_index(columns, class);
            assert forall|block: int| 0 <= block < 6 implies block_text(page, class, block, mark)
                == columns[i].1[block] by {
                lemma_plan_page_groups(columns, block, mark);
                lemma_plan_row_gathered(columns, class, block, columns.len() as int + 1, mark);
                assert(first_row(page, block, mark) == block + 1);
                assert(last_row(page, block, mark) == block + 1);
                match columns[i].1[block] {
                    Some(text) => {
                        if text.len() == 0 {
                            assert(text =~= Seq::<char>::empty());
                        }
                    },
                    None => {},
                }
            }
            assert(page_entries(page, mark)[class] =~= columns[i].1);
        }
        assert(page_entries(page, mark) =~= entries);
    }
    assert(seq![page][0] == page);
    assert(pages_outcome(seq![page], 0, mark) == Ok::<Entries, (int, int)>(Map::empty()));
    assert(Map::<Text, Blocks>::empty().union_prefer_right(entries) =~= entries);
}

/// Every class has six blocks, and a block that has a text has one that is
/// not empty.
pub open spec fn sound_entries(entries: Entries) -> bool {
    forall|class: Text|
        entries.dom().contains(class) ==> (#[trigger] entries[class]).len() == 6 && forall|block: int|
            0 <= block < 6 ==> entries[class][block] != Some(Seq::<char>::empty())
}

/// What is gathered from a page is never an empty text.
pub proof fn lemma_gathered_not_empty(page: Page, class: Text, start: int, row: int, col: int)
    ensures
        gathered(page, class, start, row, col) != Some(Seq::<char>::empty()),
    decreases row - start, col,
{
    if row < start {
    } else if col > 1 {
        lemma_gathered_not_empty(page, class, start, row, col - 1);
        let before = gathered(page, class, start, row, col - 1);
        let cell = page[row][col - 1];
        if page[0][col - 1] == class && cell.len() > 0 {
            match before {
                Some(text) => {
                    assert((text + seq!['\n'] + cell).len() > 0);
                },
                None => {},
            }
        }
    } else if row > start {
        lemma_gathered_not_empty(page, class, start, row - 1, page[0].len() as int);
    }
}

/// In what pages yield, every class has six blocks, and no block has an
/// empty text.
pub proof fn lemma_reconstructed_is_sound(pages: Seq<Page>, count: int, mark: char)
    requires
        pages_outcome(pages, count, mark) is Ok,
    ensures
        sound_entries(pages_outcome(pages, count, mark)->Ok_0),
    decreases count,
{
    if count > 0 {
        lemma_reconstructed_is_sound(pages, count - 1, mark);
        let page = pages[count - 1];
        let more = page_outcome(page, mark)->Ok_0;
        assert forall|class: Text| more.dom().contains(class) implies (#[trigger] more[class]).len()
            == 6 && forall|block: int| 0 <= block < 6 ==> more[class][block] != Some(Seq::<char>::empty()) by {
            assert forall|block: int| 0 <= block < 6 implies more[class][block] != Some(
                Seq::<char>::empty(),
            ) by {
                lemma_gathered_not_empty(
                    page,
                    class,
                    first_row(page, block, mark),
                    last_row(page, block, mark),
                    page[0].len() as int,
                );
            }
        }
    }
}

/// The group of a block starts below the header.
pub proof fn lemma_first_row_below_header(page: Page, block: int, mark: char)
    requires
        0 <= block,
        group_start(page, block, mark) is Ok,
    ensures
        1 <= first_row(page, block, mark),
    decreases block,
{
    if block > 0 {
        lemma_earlier_starts(page, block - 1, block, mark);
        lemma_first_row_below_header(page, block - 1, mark);
        lemma_group_end(page, first_row(page, block - 1, mark), mark);
    }
}

/// From rows whose cells under the classes are all empty, nothing is
/// gathered.
pub proof fn lemma_gathered_blank(page: Page, class: Text, start: int, row: int, col: int)
    requires
        col <= page[0].len(),
        forall|r: int| start <= r <= row ==> 1 <= r < page.len() && (#[trigger] page[r]).len() == page[0].len(),
        forall|r: int, c: int|
            1 <= r < page.len() && 1 <= c < page[r].len() ==> (#[trigger] page[r][c]).len() == 0,
    ensures
        gathered(page, class, start, row, col) is None,
    decreases row - start, col,
{
    if row < start {
    } else if col > 1 {
        lemma_gathered_blank(page, class, start, row, col - 1);
        assert(page[row].len() == page[0].len());
        assert(page[row][col - 1].len() == 0);
    } else if row > start {
        lemma_gathered_blank(page, class, start, row - 1, page[0].len() as int);
    }
}

/// A page that can be read and whose cells under the classes are all empty
/// yields every class of its header, each without a text in any of its six
/// blocks; and so does a schedule rebuilt from that page alone.
pub proof fn lemma_blank_page(page: Page, mark: char)
    requires
        page_outcome(page, mark) is Ok,
        forall|row: int, col: int|
            1 <= row < page.len() && 1 <= col < page[row].len() ==> (#[trigger] page[row][col]).len() == 0,
    ensures
        forall|class: Text|
            (#[trigger] page_outcome(page, mark)->Ok_0.dom().contains(class)) <==> names_class(page, class),
        forall|class: Text|
            names_class(page, class) ==> #[trigger] page_outcome(page, mark)->Ok_0[class] == no_blocks(),
        reconstruct(seq![page], mark) == Ok::<Entries, (int, int)>(page_outcome(page, mark)->Ok_0),
{
    let entries = page_outcome(page, mark)->Ok_0;
    if page[0].len() > 1 {
        assert forall|class: Text| names_class(page, class) implies #[trigger] entries[class]
            == no_blocks() by {
            assert forall|block: int| 0 <= block < 6 implies block_text(page, class, block, mark) is None by {
                lemma_earlier_starts(page, block, 6, mark);
                lemma_first_row_below_header(page, block, mark);
                let start = first_row(page, block, mark);
                lemma_group_end(page, start, mark);
                lemma_gathered_blank(page, class, start, last_row(page, block, mark), page[0].len() as int);
            }
            assert(entries[class] =~= no_blocks());
        }
    }
    assert(seq![page][0] == page);
    assert(pages_outcome(seq![page], 0, mark) == Ok::<Entries, (int, int)>(Map::empty()));
    assert(Map::<Text, Blocks>::empty().union_prefer_right(entries) =~= entries);
}

} // verus!
