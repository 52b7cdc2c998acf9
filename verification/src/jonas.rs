//! The schedule in its plain form: every block of a class is a text, and a
//! block without an announced change is the empty text.

use vstd::prelude::*;
use vstd::string::*;
use crate::substitution_schedule::{
    entries_of, has_class, lemma_entries_dom, lemma_entries_value, table_to_substitutions,
    MalformedTableError,
};
use crate::substitutions::{Blocks, Text};
use crate::table::{cell_text, page_outcome, Entries, TERMINATOR};

verus! {

/// The changes announced for one class, one text per time block; the empty
/// text where nothing is announced.
#[derive(Debug)]
pub struct Substitutions {
    pub block_0: String,
    pub block_1: String,
    pub block_2: String,
    pub block_3: String,
    pub block_4: String,
    pub block_5: String,
}

impl View for Substitutions {
    type V = Seq<Text>;

    /// The six texts in order.
    open spec fn view(&self) -> Seq<Text> {
        seq![
            self.block_0@,
            self.block_1@,
            self.block_2@,
            self.block_3@,
            self.block_4@,
            self.block_5@,
        ]
    }
}

/// Six blocks as plain texts: each block's text, or the empty text.
pub open spec fn plain_texts(blocks: Blocks) -> Seq<Text> {
    Seq::new(6, |block: int| cell_text(blocks[block]))
}

/// The entries of a schedule in plain form.
pub open spec fn plain_entries(entries: Entries) -> Map<Text, Seq<Text>> {
    Map::new(|class: Text| entries.dom().contains(class), |class: Text| plain_texts(entries[class]))
}

impl Substitutions {
    /// A record with the empty text in every block.
    pub fn new() -> (s: Self)
        ensures
            s@ == Seq::new(6, |block: int| Seq::<char>::empty()),
    {
        let s = Self {
            block_0: String::new(),
            block_1: String::new(),
            block_2: String::new(),
            block_3: String::new(),
            block_4: String::new(),
            block_5: String::new(),
        };
        assert(s@ =~= Seq::new(6, |block: int| Seq::<char>::empty()));
        s
    }
}

/// One class of a plain schedule with its texts.
#[derive(Debug)]
pub struct PlainEntry {
    pub class: String,
    pub substitutions: Substitutions,
}

/// A schedule in plain form.
#[derive(Debug)]
pub struct SubstitutionSchedule {
    date: i64,
    entries: Vec<PlainEntry>,
}

/// The text of a block, or the empty text where it has none.
fn plain_text(block: &Option<String>) -> (text: String)
    ensures
        text@ == cell_text(block.deep_view()),
{
    match block {
        Some(text) => text.clone(),
        None => String::new(),
    }
}

impl View for SubstitutionSchedule {
    type V = Map<Text, Seq<Text>>;

    /// The schedule as a mapping from class names to their six texts.
    closed spec fn view(&self) -> Map<Text, Seq<Text>> {
        Map::new(
            |class: Text| self.lists(class),
            |class: Text| self.entries[self.index_of(class)].substitutions@,
        )
    }
}

impl SubstitutionSchedule {
    /// Whether an entry of the schedule is about the class.
    pub closed spec fn lists(&self, class: Text) -> bool {
        exists|i: int| 0 <= i < self.entries.len() && (#[trigger] self.entries[i]).class@ == class
    }

    /// The index of an entry about the class.
    pub closed spec fn index_of(&self, class: Text) -> int {
        choose|i: int| 0 <= i < self.entries.len() && (#[trigger] self.entries[i]).class@ == class
    }

    /// The schedule holds at most one entry per class.
    pub closed spec fn wf(&self) -> bool {
        forall|i: int, j: int|
            0 <= i < j < self.entries.len() ==> (#[trigger] self.entries[i]).class@
                != (#[trigger] self.entries[j]).class@
    }

    /// The date of the schedule.
    pub closed spec fn date(&self) -> i64 {
        self.date
    }

    /// Rebuilds a schedule from one page of the extracted table, as
    /// [`page_outcome`] says, with every block as a plain text. The page is
    /// left as it is. The date of the schedule is 0. A malformed page is
    /// reported with its first offending row.
    pub fn from_csv(csv: &mut Vec<Vec<String>>) -> (outcome: Result<Self, MalformedTableError>)
        ensures
            *final(csv) == *old(csv),
            match page_outcome(old(csv).deep_view(), TERMINATOR) {
                Ok(entries) => {
                    &&& outcome is Ok
                    &&& outcome->Ok_0.wf()
                    &&& outcome->Ok_0@ == plain_entries(entries)
                    &&& outcome->Ok_0.date() == 0
                },
                Err(row) => {
                    &&& outcome is Err
                    &&& outcome->Err_0.page == 0
                    &&& outcome->Err_0.row == row
                },
            },
    {
        match table_to_substitutions(csv, TERMINATOR) {
            Err(row) => Err(MalformedTableError { page: 0, row }),
            Ok(read) => {
                let mut entries: Vec<PlainEntry> = Vec::new();
                let mut i: usize = 0;
                while i < read.len()
                    invariant
                        i <= read.len(),
                        entries.len() == i,
                        forall|k: int|
                            0 <= k < i ==> (#[trigger] entries[k]).class@ == read[k].class@
                                && entries[k].substitutions@ == plain_texts(read[k].substitutions@),
                    decreases read.len() - i,
                {
                    let blocks = read[i].substitutions.as_array();
                    let substitutions = Substitutions {
                        block_0: plain_text(blocks[0]),
                        block_1: plain_text(blocks[1]),
                        block_2: plain_text(blocks[2]),
                        block_3: plain_text(blocks[3]),
                        block_4: plain_text(blocks[4]),
                        block_5: plain_text(blocks[5]),
                    };
                    assert(substitutions@ =~= plain_texts(read[i as int].substitutions@));
                    entries.push(PlainEntry { class: read[i].class.clone(), substitutions });
                    i += 1;
                }
                let schedule = SubstitutionSchedule { date: 0, entries };
                proof {
                    let wanted = plain_entries(entries_of(read@));
                    let made = schedule.entries@;
                    assert forall|a: int, b: int| 0 <= a < b < made.len() implies (#[trigger] made[a]).class@
                        != (#[trigger] made[b]).class@ by {
                        assert(read[a].class@ != read[b].class@);
                    }
                    assert forall|class: Text| schedule.lists(class) <==> wanted.dom().contains(
                        class,
                    ) by {
                        lemma_entries_dom(read@, class);
                        if schedule.lists(class) {
                            let k = schedule.index_of(class);
                            assert(read[k].class@ == class);
                        }
                        if has_class(read@, class) {
                            let k = choose|k: int| 0 <= k < read.len() && (#[trigger] read[k]).class@ == class;
                            assert(schedule.entries[k].class@ == class);
                        }
                    }
                    assert forall|class: Text| schedule.lists(class) implies schedule@[class]
                        == wanted[class] by {
                        let k = schedule.index_of(class);
                        lemma_entries_value(read@, k);
                    }
                    assert(schedule@ =~= wanted);
                }
                Ok(schedule)
            },
        }
    }

    /// The texts of a class, if the schedule mentions the class.
    pub fn get_substitutions(&self, class: &str) -> (found: Option<&Substitutions>)
        requires
            self.wf(),
        ensures
            match found {
                Some(substitutions) => self@.dom().contains(class@) && substitutions@ == self@[class@],
                None => !self@.dom().contains(class@),
            },
    {
        let name = class.to_owned();
        let mut i: usize = 0;
        while i < self.entries.len()
            invariant
                i <= self.entries.len(),
                self.wf(),
                name@ == class@,
                forall|k: int| 0 <= k < i ==> (#[trigger] self.entries[k]).class@ != class@,
            decreases self.entries.len() - i,
        {
            if self.entries[i].class == name {
                proof {
                    let k = self.index_of(class@);
                    if k < i {
                        assert(self.entries[k].class@ != self.entries[i as int].class@);
                    } else if k > i {
                        assert(self.entries[i as int].class@ != self.entries[k].class@);
                    }
                }
                return Some(&self.entries[i].substitutions);
            }
            i += 1;
        }
        None
    }
}

} // verus!
