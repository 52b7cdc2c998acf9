//! The schedule of one day: for each class of the plan its substitutions,
//! rebuilt from the pages of the extracted table.

use vstd::prelude::*;
use vstd::string::*;
use crate::clock::now_millis;
use crate::substitutions::{append_line, no_blocks, Blocks, Substitutions, Text};
use crate::table::{
    block_text, cell_text, column_entries, column_index, distinct_columns, gathered, group_end,
    group_start, has_column, header_row, is_terminator, lemma_error_stays, lemma_page_error_stays,
    lemma_plan_page_read_back, lemma_reconstructed_is_sound, names_class, page_entries,
    page_outcome, pages_outcome, plan_page, plan_row, progress, reconstruct, sound_entries,
    Column, Entries, Page, TERMINATOR,
};

verus! {

/// One class of a schedule with its substitutions.
#[derive(Debug)]
pub struct ClassEntry {
    pub class: String,
    pub substitutions: Substitutions,
}

/// Why a page of the extracted table could not be read: its rows do not fit
/// its header, or the rows run out before six blocks were delimited.
#[derive(Debug, Clone, Copy, PartialEq, Eq)]
pub struct MalformedTableError {
    /// Index of the page among the pages handed in.
    pub page: usize,
    /// Index of the first row that is missing or has the wrong width.
    pub row: usize,
}

/// No class occurs twice.
pub open spec fn distinct_classes(entries: Seq<ClassEntry>) -> bool {
    forall|i: int, j: int|
        0 <= i < j < entries.len() ==> (#[trigger] entries[i]).class@ != (#[trigger] entries[j]).class@
}

/// The mapping that a list of entries stands for.
pub open spec fn entries_of(entries: Seq<ClassEntry>) -> Entries
    decreases entries.len(),
{
    if entries.len() == 0 {
        Map::empty()
    } else {
        entries_of(entries.drop_last()).insert(
            entries.last().class@,
            entries.last().substitutions@,
        )
    }
}

/// Whether one of the entries is about the class.
pub open spec fn has_class(entries: Seq<ClassEntry>, class: Text) -> bool {
    exists|i: int| 0 <= i < entries.len() && (#[trigger] entries[i]).class@ == class
}

/// A class is in the mapping exactly if one of the entries is about it.
pub proof fn lemma_entries_dom(entries: Seq<ClassEntry>, class: Text)
    ensures
        entries_of(entries).dom().contains(class) <==> has_class(entries, class),
    decreases entries.len(),
{
    if entries.len() > 0 {
        let front = entries.drop_last();
        lemma_entries_dom(front, class);
        if has_class(front, class) {
            let i = choose|i: int| 0 <= i < front.len() && (#[trigger] front[i]).class@ == class;
            assert(entries[i].class@ == class);
        }
        if class == entries.last().class@ {
            assert(entries[entries.len() - 1].class@ == class);
        }
        if has_class(entries, class) {
            let i = choose|i: int| 0 <= i < entries.len() && (#[trigger] entries[i]).class@ == class;
            if i < entries.len() - 1 {
                assert(front[i].class@ == class);
            }
        }
    }
}

/// Among distinct entries, the mapping gives each class the substitutions of
/// its entry.
pub proof fn lemma_entries_value(entries: Seq<ClassEntry>, i: int)
    requires
        distinct_classes(entries),
        0 <= i < entries.len(),
    ensures
        entries_of(entries).dom().contains(entries[i].class@),
        entries_of(entries)[entries[i].class@] == entries[i].substitutions@,
    decreases entries.len(),
{
    let front = entries.drop_last();
    if i < entries.len() - 1 {
        assert(front[i] == entries[i]);
        assert(distinct_classes(front)) by {
            assert forall|a: int, b: int| 0 <= a < b < front.len() implies (#[trigger] front[a]).class@
                != (#[trigger] front[b]).class@ by {
                assert(front[a] == entries[a]);
                assert(front[b] == entries[b]);
            }
        }
        lemma_entries_value(front, i);
        assert(entries[i].class@ != entries[entries.len() - 1].class@);
    }
}

/// The mapping of a list with one more entry at its end.
pub proof fn lemma_entries_push(entries: Seq<ClassEntry>, entry: ClassEntry)
    ensures
        entries_of(entries.push(entry)) == entries_of(entries).insert(
            entry.class@,
            entry.substitutions@,
        ),
{
    assert(entries.push(entry).drop_last() =~= entries);
}

/// Among distinct entries, giving one of them other substitutions changes the
/// mapping at its class and nowhere else.
pub proof fn lemma_entries_update(entries: Seq<ClassEntry>, i: int, entry: ClassEntry)
    requires
        distinct_classes(entries),
        0 <= i < entries.len(),
        entry.class@ == entries[i].class@,
    ensures
        distinct_classes(entries.update(i, entry)),
        entries_of(entries.update(i, entry)) == entries_of(entries).insert(
            entry.class@,
            entry.substitutions@,
        ),
    decreases entries.len(),
{
    let changed = entries.update(i, entry);
    let front = entries.drop_last();
    assert forall|a: int, b: int| 0 <= a < b < changed.len() implies (#[trigger] changed[a]).class@
        != (#[trigger] changed[b]).class@ by {
        assert(entries[a].class@ != entries[b].class@);
    }
    if i == entries.len() - 1 {
        assert(changed.drop_last() =~= front);
        assert(entries_of(changed) =~= entries_of(entries).insert(
            entry.class@,
            entry.substitutions@,
        ));
    } else {
        assert(changed.drop_last() =~= front.update(i, entry));
        assert(distinct_classes(front)) by {
            assert forall|a: int, b: int| 0 <= a < b < front.len() implies (#[trigger] front[a]).class@
                != (#[trigger] front[b]).class@ by {
                assert(front[a] == entries[a]);
                assert(front[b] == entries[b]);
            }
        }
        assert(front[i] == entries[i]);
        lemma_entries_update(front, i, entry);
        assert(entries[i].class@ != entries[entries.len() - 1].class@);
        assert(changed.last() == entries.last());
        assert(entries_of(changed) =~= entries_of(entries).insert(
            entry.class@,
            entry.substitutions@,
        ));
    }
}

/// Among distinct entries, one more entry for a class that has none keeps
/// them distinct.
pub proof fn lemma_distinct_push(entries: Seq<ClassEntry>, entry: ClassEntry)
    requires
        distinct_classes(entries),
        !has_class(entries, entry.class@),
    ensures
        distinct_classes(entries.push(entry)),
{
    let more = entries.push(entry);
    assert forall|a: int, b: int| 0 <= a < b < more.len() implies (#[trigger] more[a]).class@
        != (#[trigger] more[b]).class@ by {
        assert(more[a] == entries[a]);
        if b < entries.len() {
            assert(more[b] == entries[b]);
        }
    }
}

/// The entries as columns: each class with its six blocks.
pub open spec fn entry_columns(entries: Seq<ClassEntry>) -> Seq<Column> {
    Seq::new(entries.len(), |i: int| (entries[i].class@, entries[i].substitutions@))
}

/// Distinct entries stand for the same mapping whether they are taken one
/// after the other or as columns.
pub proof fn lemma_entry_columns(entries: Seq<ClassEntry>)
    requires
        distinct_classes(entries),
    ensures
        distinct_columns(entry_columns(entries)),
        column_entries(entry_columns(entries)) == entries_of(entries),
{
    let columns = entry_columns(entries);
    assert forall|i: int, j: int| 0 <= i < j < columns.len() implies (#[trigger] columns[i]).0
        != (#[trigger] columns[j]).0 by {
        assert(entries[i].class@ != entries[j].class@);
    }
    assert forall|class: Text| has_column(columns, class) <==> entries_of(entries).dom().contains(
        class,
    ) by {
        lemma_entries_dom(entries, class);
        if has_column(columns, class) {
            let i = column_index(columns, class);
            assert(entries[i].class@ == class);
        }
        if has_class(entries, class) {
            let i = choose|i: int| 0 <= i < entries.len() && (#[trigger] entries[i]).class@ == class;
            assert(columns[i].0 == class);
        }
    }
    assert forall|class: Text| has_column(columns, class) implies column_entries(columns)[class]
        == entries_of(entries)[class] by {
        let i = column_index(columns, class);
        lemma_entries_value(entries, i);
    }
    assert(column_entries(columns) =~= entries_of(entries));
}

/// The entries are about the same classes, in the same order.
pub open spec fn same_classes(before: Seq<ClassEntry>, after: Seq<ClassEntry>) -> bool {
    &&& before.len() == after.len()
    &&& forall|i: int| 0 <= i < before.len() ==> (#[trigger] after[i]).class@ == before[i].class@
}

/// The entries are those of the header's classes: no class twice, every class
/// of the header among them and no other, and for each column from 1 on the
/// index of the entry of its class.
pub open spec fn header_matches(page: Page, entries: Seq<ClassEntry>, slots: Seq<usize>) -> bool {
    &&& distinct_classes(entries)
    &&& slots.len() == page[0].len()
    &&& forall|col: int|
        1 <= col < page[0].len() ==> (#[trigger] slots[col]) < entries.len()
            && entries[slots[col] as int].class@ == page[0][col]
    &&& forall|i: int| 0 <= i < entries.len() ==> names_class(page, (#[trigger] entries[i]).class@)
}

/// How far the page has been read into the entries: the blocks before `block`
/// are complete, and block `block` holds what was gathered from the rows
/// `start..row` and the columns `1..col` of row `row`.
pub open spec fn read_so_far(
    page: Page,
    entries: Seq<ClassEntry>,
    block: int,
    start: int,
    row: int,
    col: int,
    mark: char,
) -> bool {
    forall|i: int|
        0 <= i < entries.len() ==> (#[trigger] entries[i]).substitutions@ == progress(
            page,
            entries[i].class@,
            block,
            gathered(page, entries[i].class@, start, row, col),
            mark,
        )
}

/// Index of the entry of a class, if there is one.
fn find_class(entries: &Vec<ClassEntry>, class: &String) -> (found: Option<usize>)
    ensures
        match found {
            Some(i) => i < entries.len() && entries[i as int].class@ == class@,
            None => !has_class(entries@, class@),
        },
{
    let mut i: usize = 0;
    while i < entries.len()
        invariant
            i <= entries.len(),
            forall|j: int| 0 <= j < i ==> (#[trigger] entries[j]).class@ != class@,
        decreases entries.len() - i,
    {
        if entries[i].class == *class {
            return Some(i);
        }
        i += 1;
    }
    None
}

/// Whether a row label starts with the terminator mark.
fn ends_group(label: &String, mark: char) -> (ends: bool)
    ensures
        ends == is_terminator(label@, mark),
{
    let label = label.as_str();
    !label.is_empty() && label.get_char(0) == mark
}

/// Makes an empty entry for each class of the header and notes for each
/// column which entry it feeds.
fn header_entries(table: &Vec<Vec<String>>) -> (made: (Vec<ClassEntry>, Vec<usize>))
    requires
        table.len() > 0,
        table[0].len() > 1,
    ensures
        header_matches(table.deep_view(), made.0@, made.1@),
        forall|i: int| 0 <= i < made.0.len() ==> (#[trigger] made.0[i]).substitutions@ == no_blocks(),
{
    let ghost page = table.deep_view();
    let header = &table[0];
    assert(page[0] == header.deep_view());
    let mut entries: Vec<ClassEntry> = Vec::new();
    let mut slots: Vec<usize> = Vec::new();
    slots.push(0);
    let mut col: usize = 1;
    while col < header.len()
        invariant
            1 <= col <= header.len(),
            page[0] == header.deep_view(),
            distinct_classes(entries@),
            slots.len() == col,
            forall|c: int|
                1 <= c < col ==> (#[trigger] slots[c]) < entries.len() && entries[slots[c] as int].class@
                    == page[0][c],
            forall|i: int|
                0 <= i < entries.len() ==> exists|c: int|
                    1 <= c < col && page[0][c] == (#[trigger] entries[i]).class@,
            forall|i: int| 0 <= i < entries.len() ==> (#[trigger] entries[i]).substitutions@ == no_blocks(),
        decreases header.len() - col,
    {
        let name = &header[col];
        assert(page[0][col as int] == name@);
        let ghost before = entries@;
        match find_class(&entries, name) {
            Some(i) => {
                slots.push(i);
            },
            None => {
                slots.push(entries.len());
                entries.push(ClassEntry { class: name.clone(), substitutions: Substitutions::new() });
                assert forall|i: int| 0 <= i < entries.len() implies exists|c: int|
                    1 <= c < col + 1 && page[0][c] == (#[trigger] entries[i]).class@ by {
                    if i < before.len() {
                        assert(entries[i] == before[i]);
                        let c = choose|c: int| 1 <= c < col && page[0][c] == before[i].class@;
                        assert(1 <= c < col + 1 && page[0][c] == entries[i].class@);
                    } else {
                        assert(page[0][col as int] == entries[i].class@);
                    }
                }
                assert(distinct_classes(entries@)) by {
                    assert forall|a: int, b: int| 0 <= a < b < entries.len() implies (#[trigger] entries[a]).class@
                        != (#[trigger] entries[b]).class@ by {
                        assert(entries[a] == before[a]);
                        if b < before.len() {
                            assert(entries[b] == before[b]);
                        }
                    }
                }
            },
        }
        col += 1;
    }
    (entries, slots)
}

/// Reads the cells of one row into the block that the row belongs to.
fn read_row(
    entries: &mut Vec<ClassEntry>,
    slots: &Vec<usize>,
    table: &Vec<Vec<String>>,
    block: usize,
    row: usize,
    Ghost(start): Ghost<int>,
    Ghost(mark): Ghost<char>,
)
    requires
        block < 6,
        0 < row < table.len(),
        start <= row,
        table[row as int].len() == table[0].len(),
        header_matches(table.deep_view(), old(entries)@, slots@),
        read_so_far(table.deep_view(), old(entries)@, block as int, start, row as int, 1, mark),
    ensures
        same_classes(old(entries)@, final(entries)@),
        header_matches(table.deep_view(), final(entries)@, slots@),
        read_so_far(
            table.deep_view(),
            final(entries)@,
            block as int,
            start,
            row as int,
            table[0].len() as int,
            mark,
        ),
{
    let ghost page = table.deep_view();
    let ghost first = entries@;
    let cells = &table[row];
    let width = cells.len();
    assert(page[row as int] == cells.deep_view());
    assert(page[0] == table[0].deep_view());
    let mut col: usize = 1;
    while col < width
        invariant
            block < 6,
            0 < row < table.len(),
            start <= row,
            page == table.deep_view(),
            page[row as int] == cells.deep_view(),
            page[0].len() == width,
            cells.len() == width,
            1 <= col <= width || width == 0,
            same_classes(first, entries@),
            header_matches(page, entries@, slots@),
            read_so_far(page, entries@, block as int, start, row as int, col as int, mark),
        decreases width - col,
    {
        let target = slots[col];
        let cell = &cells[col];
        assert(page[row as int][col as int] == cell@);
        let ghost before = entries@;
        entries[target].substitutions.append(block, cell);
        proof {
            assert(same_classes(before, entries@));
            assert(distinct_classes(entries@)) by {
                assert forall|a: int, b: int| 0 <= a < b < entries.len() implies (#[trigger] entries[a]).class@
                    != (#[trigger] entries[b]).class@ by {
                    assert(before[a].class@ != before[b].class@);
                }
            }
            assert forall|i: int| 0 <= i < entries.len() implies (#[trigger] entries[i]).substitutions@
                == progress(
                page,
                entries[i].class@,
                block as int,
                gathered(page, entries[i].class@, start, row as int, col + 1),
                mark,
            ) by {
                let class = entries[i].class@;
                let was = gathered(page, class, start, row as int, col as int);
                let now = gathered(page, class, start, row as int, col + 1);
                assert(before[i].substitutions@ == progress(page, class, block as int, was, mark));
                if i == target {
                    assert(page[0][col as int] == class);
                    assert(now == append_line(was, cell@));
                    assert(entries[i].substitutions@ =~= progress(page, class, block as int, now, mark));
                } else {
                    assert(before[target as int].class@ == page[0][col as int]);
                    assert(before[i].class@ != before[target as int].class@);
                    assert(now == was);
                    assert(entries[i] == before[i]);
                }
            }
            assert forall|i: int| 0 <= i < entries.len() implies names_class(
                page,
                (#[trigger] entries[i]).class@,
            ) by {
                assert(names_class(page, before[i].class@));
            }
        }
        col += 1;
    }
}

/// Reads the group of rows of one block, from the row `start` on. Gives the
/// index of the row that ends the group, or that of the first row that is
/// missing or has the wrong width.
fn read_group(
    entries: &mut Vec<ClassEntry>,
    slots: &Vec<usize>,
    table: &Vec<Vec<String>>,
    block: usize,
    start: usize,
    mark: char,
) -> (end: Result<usize, usize>)
    requires
        block < 6,
        0 < start <= table.len(),
        table[0].len() > 1,
        header_matches(table.deep_view(), old(entries)@, slots@),
        read_so_far(table.deep_view(), old(entries)@, block as int, start as int, start as int, 1, mark),
    ensures
        match group_end(table.deep_view(), start as int, mark) {
            Ok(last) => {
                &&& end == Ok::<usize, usize>(last as usize)
                &&& start <= last < table.len()
                &&& same_classes(old(entries)@, final(entries)@)
                &&& header_matches(table.deep_view(), final(entries)@, slots@)
                &&& read_so_far(
                    table.deep_view(),
                    final(entries)@,
                    block as int,
                    start as int,
                    last,
                    table[0].len() as int,
                    mark,
                )
            },
            Err(row) => end == Err::<usize, usize>(row as usize) && start <= row <= table.len(),
        },
{
    let ghost page = table.deep_view();
    let ghost first = entries@;
    let width = table[0].len();
    assert(page[0] == table[0].deep_view());
    let mut row = start;
    loop
        invariant
            block < 6,
            0 < start <= row,
            row <= table.len(),
            table.len() > 0,
            width == table[0].len(),
            width > 1,
            page == table.deep_view(),
            page[0].len() == width,
            group_end(page, row as int, mark) == group_end(page, start as int, mark),
            first == old(entries)@,
            same_classes(first, entries@),
            header_matches(page, entries@, slots@),
            read_so_far(page, entries@, block as int, start as int, row as int, 1, mark),
        decreases table.len() - row,
    {
        if row >= table.len() {
            return Err(row);
        }
        assert(page[row as int] == table[row as int].deep_view());
        if table[row].len() != width {
            return Err(row);
        }
        let ghost before = entries@;
        read_row(entries, slots, table, block, row, Ghost(start as int), Ghost(mark));
        proof {
            assert forall|i: int| 0 <= i < first.len() implies (#[trigger] entries[i]).class@
                == first[i].class@ by {
                assert(before[i].class@ == first[i].class@);
            }
            assert(same_classes(first, entries@));
        }
        let label = &table[row][0];
        assert(page[row as int][0] == label@);
        if ends_group(label, mark) {
            return Ok(row);
        }
        proof {
            assert forall|i: int| 0 <= i < entries.len() implies gathered(
                page,
                (#[trigger] entries[i]).class@,
                start as int,
                row + 1,
                1,
            ) == gathered(page, entries[i].class@, start as int, row as int, width as int) by {}
        }
        row += 1;
    }
}

/// Rebuilds the entries of one page: an entry for each class of the header,
/// filled block by block from the groups of rows below it. A page whose
/// header names no class yields no entry. On a malformed page the index of
/// the first offending row is returned.
pub fn table_to_substitutions(table: &Vec<Vec<String>>, mark: char) -> (outcome: Result<
    Vec<ClassEntry>,
    usize,
>)
    ensures
        match page_outcome(table.deep_view(), mark) {
            Ok(entries) => {
                &&& outcome is Ok
                &&& distinct_classes(outcome->Ok_0@)
                &&& entries_of(outcome->Ok_0@) == entries
            },
            Err(row) => outcome is Err && outcome->Err_0 == row,
        },
{
    let ghost page = table.deep_view();
    if table.len() == 0 {
        return Err(0);
    }
    assert(page[0] == table[0].deep_view());
    if table[0].len() <= 1 {
        return Ok(Vec::new());
    }
    let (mut entries, slots) = header_entries(table);
    let mut row: usize = 1;
    let mut block: usize = 0;
    proof {
        assert forall|i: int| 0 <= i < entries.len() implies (#[trigger] entries[i]).substitutions@
            == progress(page, entries[i].class@, 0, gathered(page, entries[i].class@, 1, 1, 1), mark) by {
            assert(no_blocks() =~= progress(page, entries[i].class@, 0, None, mark));
        }
    }
    while block < 6
        invariant
            block <= 6,
            0 < row <= table.len(),
            table.len() > 0,
            table[0].len() > 1,
            page == table.deep_view(),
            group_start(page, block as int, mark) == Ok::<int, int>(row as int),
            header_matches(page, entries@, slots@),
            block < 6 ==> read_so_far(page, entries@, block as int, row as int, row as int, 1, mark),
            block == 6 ==> forall|i: int|
                0 <= i < entries.len() ==> (#[trigger] entries[i]).substitutions@ == progress(
                    page,
                    entries[i].class@,
                    6,
                    None,
                    mark,
                ),
        decreases 6 - block,
    {
        match read_group(&mut entries, &slots, table, block, row, mark) {
            Err(at) => {
                proof {
                    assert(group_start(page, block + 1, mark) == Err::<int, int>(at as int));
                    lemma_error_stays(page, block + 1, 6, mark);
                }
                return Err(at);
            },
            Ok(last) => {
                proof {
                    assert(group_start(page, block + 1, mark) == Ok::<int, int>(last + 1));
                    assert forall|i: int| 0 <= i < entries.len() implies (#[trigger] entries[i]).substitutions@
                        == progress(page, entries[i].class@, block + 1, None, mark) by {
                        let class = entries[i].class@;
                        let text = gathered(page, class, row as int, last as int, page[0].len() as int);
                        assert(text == block_text(page, class, block as int, mark));
                        assert(progress(page, class, block as int, text, mark) =~= progress(
                            page,
                            class,
                            block + 1,
                            None,
                            mark,
                        ));
                    }
                }
                row = last + 1;
                block += 1;
            },
        }
    }
    proof {
        let made = entries@;
        assert(entries_of(made) =~= page_entries(page, mark)) by {
            assert forall|class: Text| entries_of(made).dom().contains(class) <==> names_class(
                page,
                class,
            ) by {
                lemma_entries_dom(made, class);
                if has_class(made, class) {
                    let i = choose|i: int| 0 <= i < made.len() && (#[trigger] made[i]).class@ == class;
                    assert(names_class(page, made[i].class@));
                }
                if names_class(page, class) {
                    let col = choose|col: int| 1 <= col < page[0].len() && page[0][col] == class;
                    assert(made[slots[col] as int].class@ == class);
                }
            }
            assert forall|class: Text| names_class(page, class) implies #[trigger] entries_of(made)[class]
                == page_entries(page, mark)[class] by {
                let col = choose|col: int| 1 <= col < page[0].len() && page[0][col] == class;
                let i = slots[col] as int;
                lemma_entries_value(made, i);
                assert(made[i].substitutions@ == progress(page, class, 6, None, mark));
                assert(progress(page, class, 6, None, mark) =~= page_entries(page, mark)[class]);
            }
        }
    }
    Ok(entries)
}

/// Adds the entries of one page to those of the pages before it. An entry
/// for a class that has one already replaces it.
fn merge_entries(entries: &mut Vec<ClassEntry>, more: &Vec<ClassEntry>)
    requires
        distinct_classes(old(entries)@),
    ensures
        distinct_classes(final(entries)@),
        entries_of(final(entries)@) == entries_of(old(entries)@).union_prefer_right(
            entries_of(more@),
        ),
{
    let ghost first = entries_of(entries@);
    let mut i: usize = 0;
    assert(more@.take(0) =~= Seq::<ClassEntry>::empty());
    assert(entries_of(entries@) =~= first.union_prefer_right(entries_of(more@.take(0))));
    while i < more.len()
        invariant
            i <= more.len(),
            distinct_classes(entries@),
            entries_of(entries@) == first.union_prefer_right(entries_of(more@.take(i as int))),
        decreases more.len() - i,
    {
        let entry = ClassEntry {
            class: more[i].class.clone(),
            substitutions: more[i].substitutions.clone(),
        };
        let ghost before = entries@;
        let ghost read = more@.take(i as int);
        proof {
            assert(more@.take(i + 1) =~= read.push(more[i as int]));
            assert(read.push(more[i as int]).drop_last() =~= read);
            assert(entries_of(more@.take(i + 1)) == entries_of(read).insert(
                entry.class@,
                entry.substitutions@,
            ));
            assert(first.union_prefer_right(entries_of(more@.take(i + 1))) =~= first.union_prefer_right(
                entries_of(read),
            ).insert(entry.class@, entry.substitutions@));
        }
        match find_class(entries, &entry.class) {
            Some(at) => {
                proof {
                    lemma_entries_update(before, at as int, entry);
                }
                entries[at] = entry;
                assert(entries@ =~= before.update(at as int, entry));
            },
            None => {
                proof {
                    lemma_distinct_push(before, entry);
                    lemma_entries_push(before, entry);
                }
                entries.push(entry);
            },
        }
        i += 1;
    }
    assert(more@.take(more.len() as int) =~= more@);
}

/// The schedule of one day of the plan.
#[derive(Debug)]
pub struct SubstitutionSchedule {
    /// The date printed in the plan, as seconds since the epoch at the start
    /// of that day.
    pub pdf_create_date: i64,
    /// One entry per class that the plan mentions.
    entries: Vec<ClassEntry>,
    /// When this value was built, in milliseconds since the epoch.
    struct_time: u64,
}

impl View for SubstitutionSchedule {
    type V = Entries;

    /// The schedule as a mapping from class names to their six blocks.
    closed spec fn view(&self) -> Entries {
        entries_of(self.entries@)
    }
}

impl SubstitutionSchedule {
    /// The schedule holds at most one entry per class.
    pub closed spec fn wf(&self) -> bool {
        distinct_classes(self.entries@)
    }

    /// The date printed in the plan: the field `pdf_create_date`.
    pub closed spec fn create_date(&self) -> i64 {
        self.pdf_create_date
    }

    /// The entries of the schedule in the order in which it keeps them,
    /// each as a class with its six blocks.
    pub closed spec fn columns(&self) -> Seq<Column> {
        entry_columns(self.entries@)
    }

    /// When the schedule was built, in milliseconds since the epoch.
    pub closed spec fn built_at(&self) -> u64 {
        self.struct_time
    }

    /// Rebuilds a schedule from the pages of the extracted table, as
    /// [`reconstruct`] says, and stamps it with the two times given. The
    /// first malformed page, if there is one, is reported with its first
    /// offending row, and no schedule is made.
    pub fn from_table_at(
        tables: &Vec<Vec<Vec<String>>>,
        pdf_create_date: i64,
        struct_time: u64,
        mark: char,
    ) -> (outcome: Result<Self, MalformedTableError>)
        ensures
            match reconstruct(tables.deep_view(), mark) {
                Ok(entries) => {
                    &&& outcome is Ok
                    &&& outcome->Ok_0.wf()
                    &&& outcome->Ok_0@ == entries
                    &&& outcome->Ok_0.create_date() == pdf_create_date
                    &&& outcome->Ok_0.built_at() == struct_time
                    &&& sound_entries(entries)
                },
                Err((page, row)) => {
                    &&& outcome is Err
                    &&& outcome->Err_0.page == page
                    &&& outcome->Err_0.row == row
                },
            },
    {
        let ghost pages = tables.deep_view();
        let mut entries: Vec<ClassEntry> = Vec::new();
        let mut page: usize = 0;
        while page < tables.len()
            invariant
                page <= tables.len(),
                pages == tables.deep_view(),
                distinct_classes(entries@),
                pages_outcome(pages, page as int, mark) == Ok::<Entries, (int, int)>(entries_of(entries@)),
            decreases tables.len() - page,
        {
            assert(pages[page as int] == tables[page as int].deep_view());
            match table_to_substitutions(&tables[page], mark) {
                Err(row) => {
                    proof {
                        lemma_page_error_stays(pages, page + 1, pages.len() as int, mark);
                    }
                    return Err(MalformedTableError { page, row });
                },
                Ok(more) => {
                    merge_entries(&mut entries, &more);
                },
            }
            page += 1;
        }
        proof {
            lemma_reconstructed_is_sound(pages, pages.len() as int, mark);
        }
        Ok(SubstitutionSchedule { pdf_create_date, entries, struct_time })
    }

    /// Rebuilds a schedule from the pages of the extracted table, as
    /// [`reconstruct`] says, and stamps it with the date given and with the
    /// system clock's time. The first malformed page, if there is one, is
    /// reported with its first offending row, and no schedule is made.
    pub fn from_table(tables: &Vec<Vec<Vec<String>>>, pdf_create_date: i64) -> (outcome: Result<
        Self,
        MalformedTableError,
    >)
        ensures
            match reconstruct(tables.deep_view(), TERMINATOR) {
                Ok(entries) => {
                    &&& outcome is Ok
                    &&& outcome->Ok_0.wf()
                    &&& outcome->Ok_0@ == entries
                    &&& outcome->Ok_0.create_date() == pdf_create_date
                    &&& sound_entries(entries)
                },
                Err((page, row)) => {
                    &&& outcome is Err
                    &&& outcome->Err_0.page == page
                    &&& outcome->Err_0.row == row
                },
            },
    {
        Self::from_table_at(tables, pdf_create_date, now_millis(), TERMINATOR)
    }

    /// Writes the schedule as one page of a table: the header with the
    /// classes, and for each of the six blocks one row that ends the block's
    /// group. A schedule in which no block has an empty text is rebuilt from
    /// that page as it was; every schedule that was rebuilt from pages is such
    /// a schedule.
    pub fn to_table(&self) -> (tables: Vec<Vec<Vec<String>>>)
        requires
            self.wf(),
        ensures
            tables.deep_view() == seq![plan_page(self.columns(), TERMINATOR)],
            distinct_columns(self.columns()),
            column_entries(self.columns()) == self@,
            sound_entries(self@) ==> reconstruct(tables.deep_view(), TERMINATOR) == Ok::<
                Entries,
                (int, int),
            >(self@),
    {
        let ghost columns = entry_columns(self.entries@);
        proof {
            lemma_entry_columns(self.entries@);
        }
        let mut page: Vec<Vec<String>> = Vec::new();
        let mut header: Vec<String> = Vec::new();
        header.push(String::new());
        let mut i: usize = 0;
        while i < self.entries.len()
            invariant
                i <= self.entries.len(),
                columns == entry_columns(self.entries@),
                header.len() == i + 1,
                header[0]@ == Seq::<char>::empty(),
                forall|col: int| 1 <= col <= i ==> (#[trigger] header[col])@ == columns[col - 1].0,
            decreases self.entries.len() - i,
        {
            header.push(self.entries[i].class.clone());
            i += 1;
        }
        assert(header.deep_view() =~= header_row(columns));
        page.push(header);
        let mut block: usize = 0;
        while block < 6
            invariant
                block <= 6,
                columns == entry_columns(self.entries@),
                page.len() == block + 1,
                page[0].deep_view() == header_row(columns),
                forall|b: int|
                    0 <= b < block ==> (#[trigger] page[b + 1]).deep_view() == plan_row(
                        columns,
                        b,
                        TERMINATOR,
                    ),
            decreases 6 - block,
        {
            let mut row: Vec<String> = Vec::new();
            proof {
                reveal_strlit("-");
            }
            row.push("-".to_owned());
            assert(row[0]@ =~= seq![TERMINATOR]);
            let mut i: usize = 0;
            while i < self.entries.len()
                invariant
                    i <= self.entries.len(),
                    block < 6,
                    columns == entry_columns(self.entries@),
                    row.len() == i + 1,
                    row[0]@ == seq![TERMINATOR],
                    forall|col: int|
                        1 <= col <= i ==> (#[trigger] row[col])@ == cell_text(
                            columns[col - 1].1[block as int],
                        ),
                decreases self.entries.len() - i,
            {
                let blocks = self.entries[i].substitutions.as_array();
                let cell = match blocks[block] {
                    Some(text) => text.clone(),
                    None => String::new(),
                };
                assert(blocks[block as int].deep_view() == columns[i as int].1[block as int]);
                row.push(cell);
                i += 1;
            }
            assert(row.deep_view() =~= plan_row(columns, block as int, TERMINATOR));
            page.push(row);
            block += 1;
        }
        let mut tables: Vec<Vec<Vec<String>>> = Vec::new();
        proof {
            let written = page.deep_view();
            let wanted = plan_page(columns, TERMINATOR);
            assert(written.len() == wanted.len());
            assert forall|r: int| 0 <= r < written.len() implies written[r] == wanted[r] by {
                assert(written[r] == page[r].deep_view());
                if r > 0 {
                    let b = r - 1;
                    assert(page[b + 1].deep_view() == plan_row(columns, b, TERMINATOR));
                }
            }
            assert(written =~= wanted);
        }
        tables.push(page);
        proof {
            assert(tables.deep_view() =~= seq![plan_page(columns, TERMINATOR)]);
            if sound_entries(self@) {
                assert forall|i: int| 0 <= i < columns.len() implies (#[trigger] columns[i]).1.len()
                    == 6 && forall|block: int|
                    0 <= block < 6 ==> columns[i].1[block] != Some(Seq::<char>::empty()) by {
                    lemma_entries_value(self.entries@, i);
                    assert(self@[columns[i].0] == columns[i].1);
                }
                lemma_plan_page_read_back(columns, TERMINATOR);
            }
        }
        tables
    }

    /// Makes a schedule of entries that were rebuilt before and kept
    /// elsewhere, with its two times. Of several entries for one class the
    /// last one counts.
    pub fn from_entries(
        pdf_create_date: i64,
        entries: Vec<ClassEntry>,
        struct_time: u64,
    ) -> (schedule: Self)
        ensures
            schedule.wf(),
            schedule@ == entries_of(entries@),
            schedule.create_date() == pdf_create_date,
            schedule.built_at() == struct_time,
    {
        let mut kept: Vec<ClassEntry> = Vec::new();
        merge_entries(&mut kept, &entries);
        assert(Map::<Text, Blocks>::empty().union_prefer_right(entries_of(entries@)) =~= entries_of(
            entries@,
        ));
        SubstitutionSchedule { pdf_create_date, entries: kept, struct_time }
    }

    /// When the schedule was built, in milliseconds since the epoch.
    pub fn struct_time(&self) -> (millis: u64)
        ensures
            millis == self.built_at(),
    {
        self.struct_time
    }

    /// Whether the plan was made for a day before the given one: its date
    /// lies before the start of that day.
    pub fn is_outdated(&self, day_start: i64) -> (outdated: bool)
        ensures
            outdated == (self.create_date() < day_start),
    {
        self.pdf_create_date < day_start
    }

    /// The substitutions of a class, if the schedule mentions the class.
    pub fn get_substitutions(&self, class: &str) -> (found: Option<&Substitutions>)
        requires
            self.wf(),
        ensures
            match found {
                Some(substitutions) => self@.dom().contains(class@) && substitutions@ == self@[class@],
                None => !self@.dom().contains(class@),
            },
    {
        let name = class.to_owned();
        proof {
            lemma_entries_dom(self.entries@, class@);
        }
        match find_class(&self.entries, &name) {
            Some(i) => {
                proof {
                    lemma_entries_value(self.entries@, i as int);
                }
                Some(&self.entries[i].substitutions)
            },
            None => None,
        }
    }

    /// All entries of the schedule, one per class.
    pub fn _get_entries(&self) -> (entries: &Vec<ClassEntry>)
        requires
            self.wf(),
        ensures
            distinct_classes(entries@),
            entries_of(entries@) == self@,
    {
        &self.entries
    }

    /// The classes of the list that the schedule mentions, each with its
    /// substitutions, in the order of the list. Classes that the schedule
    /// does not mention are skipped.
    pub fn _get_entries_portion<'a>(&'a self, classes: &Vec<String>) -> (portion: Vec<
        (String, &'a Substitutions),
    >)
        requires
            self.wf(),
        ensures
            columns_of(portion@) == portion_of(self@, classes.deep_view()),
    {
        let ghost names = classes.deep_view();
        let mut portion: Vec<(String, &Substitutions)> = Vec::new();
        let mut i: usize = 0;
        assert(names.take(0) =~= Seq::<Text>::empty());
        assert(columns_of(portion@) =~= portion_of(self@, names.take(0)));
        while i < classes.len()
            invariant
                i <= classes.len(),
                self.wf(),
                names == classes.deep_view(),
                columns_of(portion@) == portion_of(self@, names.take(i as int)),
            decreases classes.len() - i,
        {
            let class = &classes[i];
            proof {
                assert(names[i as int] == class@);
                assert(names.take(i + 1).drop_last() =~= names.take(i as int));
                assert(names.take(i + 1).last() == class@);
            }
            match self.get_substitutions(class.as_str()) {
                Some(substitutions) => {
                    let ghost before = portion@;
                    portion.push((class.clone(), substitutions));
                    assert(columns_of(portion@) =~= columns_of(before).push(
                        (class@, substitutions@),
                    ));
                },
                None => {},
            }
            i += 1;
        }
        assert(names.take(classes.len() as int) =~= names);
        portion
    }
}

/// A list of classes with their substitutions, as names and blocks.
pub open spec fn columns_of(columns: Seq<(String, &Substitutions)>) -> Seq<(Text, Blocks)> {
    Seq::new(columns.len(), |i: int| (columns[i].0@, columns[i].1@))
}

/// The classes of the list that the entries mention, each with its blocks, in
/// the order of the list.
pub open spec fn portion_of(entries: Entries, classes: Seq<Text>) -> Seq<(Text, Blocks)>
    decreases classes.len(),
{
    if classes.len() == 0 {
        Seq::empty()
    } else {
        let before = portion_of(entries, classes.drop_last());
        if entries.dom().contains(classes.last()) {
            before.push((classes.last(), entries[classes.last()]))
        } else {
            before
        }
    }
}

} // verus!
