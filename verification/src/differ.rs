//! Change detection: which subscribers have to be told that the plan of a
//! day says something new about one of their classes.

use vstd::prelude::*;
use std::collections::HashSet;
use crate::classes_and_users::{
    lemma_subscriptions_dom, lemma_subscriptions_value, ClassSubscribers, ClassesAndUsers,
    Subscriptions,
};
use crate::substitution_schedule::SubstitutionSchedule;
use crate::substitutions::Text;
use crate::table::{
    column_entries, distinct_columns, lemma_plan_page_read_back, plan_page, reconstruct,
    sound_columns, Column, Entries,
};

verus! {

broadcast use vstd::std_specs::hash::group_hash_axioms;

/// Whether the current schedule says something new about a class. A class
/// that the current schedule does not mention has not changed. One that it
/// mentions has changed if there is no previous schedule, if the previous
/// schedule did not mention it, or if its six blocks are not what they were.
pub open spec fn class_changed(previous: Option<Entries>, current: Entries, class: Text) -> bool {
    current.dom().contains(class) && match previous {
        None => true,
        Some(before) => !before.dom().contains(class) || before[class] != current[class],
    }
}

/// The subscribers to tell: everyone who is subscribed to a class that has
/// changed.
pub open spec fn to_notify(
    previous: Option<Entries>,
    current: Entries,
    registry: Subscriptions,
) -> Set<u64> {
    Set::new(
        |user: u64|
            exists|class: Text|
                registry.dom().contains(class) && registry[class].contains(user) && class_changed(
                    previous,
                    current,
                    class,
                ),
    )
}

/// A class that both schedules mention has changed exactly if the two differ
/// in at least one of its six blocks: where one has a text and the other has
/// none, or where both have a text and the texts differ.
pub proof fn lemma_changed_iff_differs(previous: Entries, current: Entries, class: Text)
    requires
        previous.dom().contains(class),
        current.dom().contains(class),
        previous[class].len() == 6,
        current[class].len() == 6,
    ensures
        class_changed(Some(previous), current, class) <==> previous[class] != current[class],
        previous[class] != current[class] <==> exists|block: int|
            0 <= block < 6 && #[trigger] previous[class][block] != current[class][block],
{
    if forall|block: int| 0 <= block < 6 ==> #[trigger] previous[class][block] == current[class][block] {
        assert(previous[class] =~= current[class]);
    }
}

/// A class that the current schedule mentions and the previous one did not
/// has changed, and so has every class that the current schedule mentions
/// when there is no previous one.
pub proof fn lemma_new_class_changed(previous: Option<Entries>, current: Entries, class: Text)
    requires
        current.dom().contains(class),
        previous matches Some(before) ==> !before.dom().contains(class),
    ensures
        class_changed(previous, current, class),
{
}

/// Nobody is told about a schedule that says what the previous one said.
pub proof fn lemma_same_schedule_notifies_nobody(entries: Entries, registry: Subscriptions)
    ensures
        to_notify(Some(entries), entries, registry) == Set::<u64>::empty(),
{
    assert(to_notify(Some(entries), entries, registry) =~= Set::<u64>::empty());
}

/// Writing the classes of a schedule as a page, rebuilding a schedule from
/// that page and comparing it with the first one tells nobody: the rebuilt
/// schedule is the first one. This holds where no class occurs twice and no
/// block has an empty text.
pub proof fn lemma_round_trip(columns: Seq<Column>, registry: Subscriptions, mark: char)
    requires
        distinct_columns(columns),
        sound_columns(columns),
    ensures
        reconstruct(seq![plan_page(columns, mark)], mark) == Ok::<Entries, (int, int)>(
            column_entries(columns),
        ),
        to_notify(
            Some(column_entries(columns)),
            reconstruct(seq![plan_page(columns, mark)], mark)->Ok_0,
            registry,
        ) == Set::<u64>::empty(),
{
    lemma_plan_page_read_back(columns, mark);
    lemma_same_schedule_notifies_nobody(column_entries(columns), registry);
}

/// A schedule that may be missing, as its mapping.
pub open spec fn entries_before(previous: Option<&SubstitutionSchedule>) -> Option<Entries> {
    match previous {
        Some(schedule) => Some(schedule@),
        None => None,
    }
}

/// Whether the current schedule says something new about the class: see
/// [`class_changed`].
pub fn has_changed(
    previous: Option<&SubstitutionSchedule>,
    current: &SubstitutionSchedule,
    class: &str,
) -> (changed: bool)
    requires
        current.wf(),
        previous matches Some(schedule) ==> schedule.wf(),
    ensures
        changed == class_changed(entries_before(previous), current@, class@),
{
    match current.get_substitutions(class) {
        None => false,
        Some(now) => match previous {
            None => true,
            Some(schedule) => match schedule.get_substitutions(class) {
                None => true,
                Some(before) => !(*before == *now),
            },
        },
    }
}

/// The subscribers of the first `count` classes of the list that have
/// changed.
pub open spec fn notified_upto(
    previous: Option<Entries>,
    current: Entries,
    entries: Seq<ClassSubscribers>,
    count: int,
) -> Set<u64> {
    Set::new(
        |user: u64|
            exists|i: int|
                0 <= i < count && (#[trigger] entries[i]).users@.contains(user) && class_changed(
                    previous,
                    current,
                    entries[i].class@,
                ),
    )
}

/// Adds the ids of a list to a set.
fn insert_all(set: &mut HashSet<u64>, users: &Vec<u64>)
    ensures
        final(set)@ == old(set)@.union(users@.to_set()),
{
    let ghost before = set@;
    let mut i: usize = 0;
    assert(users@.take(0) =~= Seq::<u64>::empty());
    assert(set@ =~= before.union(users@.take(0).to_set()));
    while i < users.len()
        invariant
            i <= users.len(),
            set@ == before.union(users@.take(i as int).to_set()),
        decreases users.len() - i,
    {
        set.insert(users[i]);
        proof {
            let read = users@.take(i as int);
            let more = users@.take(i + 1);
            assert(more =~= read.push(users[i as int]));
            assert forall|u: u64| more.contains(u) <==> read.contains(u) || u == users[i as int] by {
                if read.contains(u) {
                    let k = choose|k: int| 0 <= k < read.len() && read[k] == u;
                    assert(more[k] == u);
                }
                if u == users[i as int] {
                    assert(more[i as int] == u);
                }
            }
            assert(set@ =~= before.union(more.to_set()));
        }
        i += 1;
    }
    assert(users@.take(users.len() as int) =~= users@);
}

/// Finds the subscribers to tell about the current schedule of a day: every
/// subscriber of a class about which it says something new, compared with the
/// previous schedule of that day if there is one. See [`to_notify`].
pub fn diff(
    previous: Option<&SubstitutionSchedule>,
    current: &SubstitutionSchedule,
    registry: &ClassesAndUsers,
) -> (users: HashSet<u64>)
    requires
        current.wf(),
        registry.wf(),
        previous matches Some(schedule) ==> schedule.wf(),
    ensures
        users@ == to_notify(entries_before(previous), current@, registry@),
{
    let ghost before = entries_before(previous);
    let entries = registry.get_inner_classes_and_users();
    let mut users: HashSet<u64> = HashSet::new();
    let mut i: usize = 0;
    assert(users@ =~= notified_upto(before, current@, entries@, 0));
    while i < entries.len()
        invariant
            i <= entries.len(),
            current.wf(),
            previous matches Some(schedule) ==> schedule.wf(),
            before == entries_before(previous),
            users@ == notified_upto(before, current@, entries@, i as int),
        decreases entries.len() - i,
    {
        let ghost found = users@;
        if has_changed(previous, current, entries[i].class.as_str()) {
            insert_all(&mut users, &entries[i].users);
        }
        proof {
            assert forall|user: u64| users@.contains(user) <==> notified_upto(
                before,
                current@,
                entries@,
                i + 1,
            ).contains(user) by {
                if found.contains(user) {
                    let k = choose|k: int|
                        0 <= k < i && (#[trigger] entries[k]).users@.contains(user) && class_changed(
                            before,
                            current@,
                            entries[k].class@,
                        );
                    assert(0 <= k < i + 1);
                }
                if notified_upto(before, current@, entries@, i + 1).contains(user) {
                    let k = choose|k: int|
                        0 <= k < i + 1 && (#[trigger] entries[k]).users@.contains(user) && class_changed(
                            before,
                            current@,
                            entries[k].class@,
                        );
                    if k < i {
                        assert(found.contains(user));
                    }
                }
                if users@.contains(user) && !found.contains(user) {
                    assert(entries[i as int].users@.contains(user));
                }
            }
            assert(users@ =~= notified_upto(before, current@, entries@, i + 1));
        }
        i += 1;
    }
    proof {
        assert forall|user: u64| users@.contains(user) <==> to_notify(
            before,
            current@,
            registry@,
        ).contains(user) by {
            if users@.contains(user) {
                let k = choose|k: int|
                    0 <= k < entries.len() && (#[trigger] entries[k]).users@.contains(user)
                        && class_changed(before, current@, entries[k].class@);
                lemma_subscriptions_value(entries@, k);
                let class = entries[k].class@;
                assert(registry@.dom().contains(class) && registry@[class].contains(user)
                    && class_changed(before, current@, class));
            }
            if to_notify(before, current@, registry@).contains(user) {
                let class = choose|class: Text|
                    registry@.dom().contains(class) && registry@[class].contains(user)
                        && class_changed(before, current@, class);
                lemma_subscriptions_dom(entries@, class);
                let k = choose|k: int| 0 <= k < entries.len() && (#[trigger] entries[k]).class@ == class;
                lemma_subscriptions_value(entries@, k);
                assert(entries[k].users@.contains(user));
            }
        }
        assert(users@ =~= to_notify(before, current@, registry@));
    }
    users
}

} // verus!
