//! What the core asks of the place where schedules, the class whitelist and
//! the subscriber registry are kept, and how the whitelist grows.

use vstd::prelude::*;
use vstd::string::*;
use crate::classes_and_users::ClassesAndUsers;
use crate::error::StringError;
use crate::substitution_pdf_getter::Weekdays;
use crate::substitutions::Text;

verus! {

/// A store for the stored form of each day's schedule, for the class
/// whitelist and for the subscriber registry.
pub trait DataStore {
    /// Stores the schedule of a day in its stored form.
    fn store_pdf_json(&self, weekday: Weekdays, pdf_json: &str) -> Result<(), StringError>;

    /// Retrieves the schedule of a day in its stored form.
    fn get_pdf_json(&self, weekday: Weekdays) -> Result<String, StringError>;

    /// Deletes the stored schedule of a day, if there is one.
    fn delete_pdf_json(&self, weekday: Weekdays) -> Result<(), StringError>;

    /// Adds classes to the stored whitelist.
    fn update_class_whitelist(&self, classes: &Vec<String>) -> Result<(), StringError>;

    /// Retrieves the class whitelist.
    fn get_class_whitelist(&self) -> Result<Vec<String>, StringError>;

    /// Retrieves the classes and their subscribers.
    fn get_classes_and_users(&self) -> Result<ClassesAndUsers, StringError>;

    /// Stores the classes and their subscribers.
    fn store_classes_and_users(&self, classes_and_users: &ClassesAndUsers) -> Result<
        (),
        StringError,
    >;
}

/// Whether a list of class names holds the name.
pub fn holds_class(classes: &Vec<String>, class: &String) -> (found: bool)
    ensures
        found == classes.deep_view().contains(class@),
{
    let ghost names = classes.deep_view();
    let mut i: usize = 0;
    while i < classes.len()
        invariant
            i <= classes.len(),
            names == classes.deep_view(),
            forall|k: int| 0 <= k < i ==> names[k] != class@,
        decreases classes.len() - i,
    {
        assert(names[i as int] == classes[i as int]@);
        if classes[i] == *class {
            return true;
        }
        i += 1;
    }
    false
}

/// Adds to the whitelist every class of the list that it does not hold yet,
/// at its end and once. Tells whether anything was added, so that the caller
/// knows whether the whitelist has to be stored again.
pub fn merge_whitelist(whitelist: &mut Vec<String>, classes: &Vec<String>) -> (changed: bool)
    ensures
        final(whitelist).deep_view().to_set() == old(whitelist).deep_view().to_set().union(
            classes.deep_view().to_set(),
        ),
        changed == !classes.deep_view().to_set().subset_of(old(whitelist).deep_view().to_set()),
        !changed ==> final(whitelist).deep_view() == old(whitelist).deep_view(),
        old(whitelist).deep_view().no_duplicates() ==> final(whitelist).deep_view().no_duplicates(),
{
    let ghost before = whitelist.deep_view();
    let ghost names = classes.deep_view();
    let mut changed = false;
    let mut i: usize = 0;
    assert(names.take(0) =~= Seq::<Text>::empty());
    assert(before.to_set().union(names.take(0).to_set()) =~= before.to_set());
    while i < classes.len()
        invariant
            i <= classes.len(),
            names == classes.deep_view(),
            whitelist.deep_view().to_set() == before.to_set().union(names.take(i as int).to_set()),
            changed == !names.take(i as int).to_set().subset_of(before.to_set()),
            !changed ==> whitelist.deep_view() == before,
            before.no_duplicates() ==> whitelist.deep_view().no_duplicates(),
        decreases classes.len() - i,
    {
        let class = &classes[i];
        let ghost held = whitelist.deep_view();
        proof {
            let read = names.take(i as int);
            let more = names.take(i + 1);
            assert(names[i as int] == class@);
            assert(more =~= read.push(class@));
            assert forall|x: Text| more.contains(x) <==> read.contains(x) || x == class@ by {
                if read.contains(x) {
                    let k = choose|k: int| 0 <= k < read.len() && read[k] == x;
                    assert(more[k] == x);
                }
                if x == class@ {
                    assert(more[i as int] == x);
                }
            }
            assert(more.to_set() =~= read.to_set().insert(class@));
        }
        if !holds_class(whitelist, class) {
            proof {
                assert(!held.to_set().contains(class@));
                assert(!before.to_set().contains(class@));
            }
            whitelist.push(class.clone());
            changed = true;
            proof {
                let grown = whitelist.deep_view();
                assert(grown =~= held.push(class@));
                assert forall|x: Text| grown.contains(x) <==> held.contains(x) || x == class@ by {
                    if held.contains(x) {
                        let k = choose|k: int| 0 <= k < held.len() && held[k] == x;
                        assert(grown[k] == x);
                    }
                    if x == class@ {
                        assert(grown[held.len() as int] == x);
                    }
                }
                assert(grown.to_set() =~= held.to_set().insert(class@));
                assert(grown.to_set() =~= before.to_set().union(names.take(i + 1).to_set()));
                assert(names.take(i + 1).to_set().contains(class@));
                if before.no_duplicates() {
                    assert forall|a: int, b: int|
                        0 <= a < grown.len() && 0 <= b < grown.len() && a != b implies grown[a]
                        != grown[b] by {
                        if a < held.len() && b < held.len() {
                            assert(held[a] != held[b]);
                        } else if a < held.len() {
                            assert(held.contains(held[a]));
                        } else {
                            assert(held.contains(held[b]));
                        }
                    }
                }
            }
        } else {
            proof {
                assert(whitelist.deep_view().to_set() =~= before.to_set().union(
                    names.take(i + 1).to_set(),
                ));
                if !changed {
                    assert(names.take(i + 1).to_set().subset_of(before.to_set()));
                }
            }
        }
        i += 1;
    }
    assert(names.take(classes.len() as int) =~= names);
    changed
}

} // verus!
