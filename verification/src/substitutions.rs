//! The per-class record of announced changes, one optional text per time block.

use vstd::prelude::*;
use vstd::string::*;

verus! {

/// A text as the sequence of its characters.
pub type Text = Seq<char>;

/// The six blocks of one class, each as its text or `None`.
pub type Blocks = Seq<Option<Text>>;

/// Six blocks without any announced change.
pub open spec fn no_blocks() -> Blocks {
    Seq::new(6, |i: int| None::<Text>)
}

/// A block's text after one more table cell was read for it: an empty cell
/// leaves it as it is, the first text starts it, and every further text goes
/// on a line of its own.
pub open spec fn append_line(block: Option<Text>, cell: Text) -> Option<Text> {
    if cell.len() == 0 {
        block
    } else {
        match block {
            None => Some(cell),
            Some(text) => Some(text + seq!['\n'] + cell),
        }
    }
}

/// The changes announced for one class: for each of the six time blocks either
/// the announced text or nothing. Several lines for one block are joined by
/// newlines.
#[derive(Debug)]
pub struct Substitutions {
    pub block_0: Option<String>,
    pub block_1: Option<String>,
    pub block_2: Option<String>,
    pub block_3: Option<String>,
    pub block_4: Option<String>,
    pub block_5: Option<String>,
}

impl View for Substitutions {
    type V = Blocks;

    /// The six blocks in order, each as its text or `None`.
    open spec fn view(&self) -> Blocks {
        seq![
            self.block_0.deep_view(),
            self.block_1.deep_view(),
            self.block_2.deep_view(),
            self.block_3.deep_view(),
            self.block_4.deep_view(),
            self.block_5.deep_view(),
        ]
    }
}

/// Index of the first block that holds a text, or 0 where none does.
pub open spec fn first_present(blocks: Blocks) -> int {
    if blocks[0] is Some {
        0
    } else if blocks[1] is Some {
        1
    } else if blocks[2] is Some {
        2
    } else if blocks[3] is Some {
        3
    } else if blocks[4] is Some {
        4
    } else if blocks[5] is Some {
        5
    } else {
        0
    }
}

/// Index of the last block that holds a text, or 5 where none does.
pub open spec fn last_present(blocks: Blocks) -> int {
    if blocks[5] is Some {
        5
    } else if blocks[4] is Some {
        4
    } else if blocks[3] is Some {
        3
    } else if blocks[2] is Some {
        2
    } else if blocks[1] is Some {
        1
    } else if blocks[0] is Some {
        0
    } else {
        5
    }
}

impl Substitutions {
    /// A record with no change announced for any block.
    pub fn new() -> (s: Self)
        ensures
            s@ == no_blocks(),
    {
        Self {
            block_0: None,
            block_1: None,
            block_2: None,
            block_3: None,
            block_4: None,
            block_5: None,
        }
    }

    /// The six blocks in order.
    pub fn as_array(&self) -> (blocks: [&Option<String>; 6])
        ensures
            forall|i: int| 0 <= i < 6 ==> (#[trigger] blocks[i]).deep_view() == self@[i],
    {
        [&self.block_0, &self.block_1, &self.block_2, &self.block_3, &self.block_4, &self.block_5]
    }

    /// Reads one more table cell for the given block: see [`append_line`].
    pub fn append(&mut self, block: usize, cell: &String)
        requires
            block < 6,
        ensures
            final(self)@ == old(self)@.update(
                block as int,
                append_line(old(self)@[block as int], cell@),
            ),
    {
        if block == 0 {
            append_to(&mut self.block_0, cell);
        } else if block == 1 {
            append_to(&mut self.block_1, cell);
        } else if block == 2 {
            append_to(&mut self.block_2, cell);
        } else if block == 3 {
            append_to(&mut self.block_3, cell);
        } else if block == 4 {
            append_to(&mut self.block_4, cell);
        } else {
            append_to(&mut self.block_5, cell);
        }
    }

    /// Index of the first block with an announced change, 0 if there is none.
    pub fn first_substitution(&self) -> (first: usize)
        ensures
            first == first_present(self@),
            first < 6,
            forall|i: int| 0 <= i < first ==> self@[i] is None,
            self@[first as int] is Some || forall|i: int| 0 <= i < 6 ==> self@[i] is None,
    {
        let blocks = self.as_array();
        let mut i: usize = 0;
        while i < 6
            invariant
                i <= 6,
                forall|j: int| 0 <= j < 6 ==> (#[trigger] blocks[j]).deep_view() == self@[j],
                forall|j: int| 0 <= j < i ==> self@[j] is None,
            decreases 6 - i,
        {
            if blocks[i].is_some() {
                return i;
            }
            i += 1;
        }
        0
    }

    /// Index of the last block with an announced change, 5 if there is none.
    pub fn last_substitution(&self) -> (last: usize)
        ensures
            last == last_present(self@),
            last < 6,
            forall|i: int| last < i < 6 ==> self@[i] is None,
            self@[last as int] is Some || forall|i: int| 0 <= i < 6 ==> self@[i] is None,
    {
        let blocks = self.as_array();
        let mut i: usize = 6;
        while i > 0
            invariant
                i <= 6,
                forall|j: int| 0 <= j < 6 ==> (#[trigger] blocks[j]).deep_view() == self@[j],
                forall|j: int| i <= j < 6 ==> self@[j] is None,
            decreases i,
        {
            i -= 1;
            if blocks[i].is_some() {
                return i;
            }
        }
        5
    }
}

fn append_to(slot: &mut Option<String>, cell: &String)
    ensures
        final(slot).deep_view() == append_line(old(slot).deep_view(), cell@),
{
    if !cell.as_str().is_empty() {
        match slot {
            Some(text) => {
                proof {
                    reveal_strlit("\n");
                }
                text.append("\n");
                text.append(cell.as_str());
                assert("\n"@ =~= seq!['\n']);
            },
            None => {
                *slot = Some(cell.clone());
            },
        }
    }
}

/// Whether two blocks hold the same text, or both hold none.
fn same_block(a: &Option<String>, b: &Option<String>) -> (same: bool)
    ensures
        same == (a.deep_view() == b.deep_view()),
{
    match a {
        Some(x) => match b {
            Some(y) => *x == *y,
            None => false,
        },
        None => b.is_none(),
    }
}

fn clone_block(block: &Option<String>) -> (copy: Option<String>)
    ensures
        copy.deep_view() == block.deep_view(),
{
    match block {
        Some(text) => Some(text.clone()),
        None => None,
    }
}

impl Clone for Substitutions {
    fn clone(&self) -> (copy: Self)
        ensures
            copy@ == self@,
    {
        Substitutions {
            block_0: clone_block(&self.block_0),
            block_1: clone_block(&self.block_1),
            block_2: clone_block(&self.block_2),
            block_3: clone_block(&self.block_3),
            block_4: clone_block(&self.block_4),
            block_5: clone_block(&self.block_5),
        }
    }
}

impl PartialEq for Substitutions {
    /// Two records are equal when each of the six blocks holds the same text
    /// in both, or is absent in both.
    fn eq(&self, other: &Self) -> (equal: bool) {
        same_block(&self.block_0, &other.block_0) && same_block(&self.block_1, &other.block_1)
            && same_block(&self.block_2, &other.block_2) && same_block(
            &self.block_3,
            &other.block_3,
        ) && same_block(&self.block_4, &other.block_4) && same_block(
            &self.block_5,
            &other.block_5,
        )
    }
}

impl vstd::std_specs::cmp::PartialEqSpecImpl for Substitutions {
    open spec fn obeys_eq_spec() -> bool {
        true
    }

    open spec fn eq_spec(&self, other: &Self) -> bool {
        self@ == other@
    }
}

} // verus!
