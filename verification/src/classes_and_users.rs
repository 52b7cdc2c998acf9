//! The subscriber registry: for each class the users that asked to be told
//! of its changes.

use vstd::prelude::*;
use vstd::string::*;
use crate::substitutions::Text;

verus! {

/// What a registry holds: for each class that has subscribers, their ids.
pub type Subscriptions = Map<Text, Set<u64>>;

/// One class of the registry with the ids of its subscribers.
#[derive(Debug)]
pub struct ClassSubscribers {
    pub class: String,
    pub users: Vec<u64>,
}

/// The subscriber registry. A class without subscribers is not kept.
#[derive(Debug)]
pub struct ClassesAndUsers {
    classes_and_users: Vec<ClassSubscribers>,
}

/// No class occurs twice, no class is without subscribers, and no subscriber
/// occurs twice under one class.
pub open spec fn registry_wf(entries: Seq<ClassSubscribers>) -> bool {
    &&& distinct_subscribed(entries)
    &&& forall|i: int| 0 <= i < entries.len() ==> sound_users((#[trigger] entries[i]).users@)
}

/// A list of subscribers holds at least one and none twice.
pub open spec fn sound_users(users: Seq<u64>) -> bool {
    users.len() > 0 && users.no_duplicates()
}

/// The mapping that a list of classes with their subscribers stands for.
pub open spec fn subscriptions_of(entries: Seq<ClassSubscribers>) -> Subscriptions
    decreases entries.len(),
{
    if entries.len() == 0 {
        Map::empty()
    } else {
        subscriptions_of(entries.drop_last()).insert(
            entries.last().class@,
            entries.last().users@.to_set(),
        )
    }
}

/// Whether one of the entries is about the class.
pub open spec fn lists_class(entries: Seq<ClassSubscribers>, class: Text) -> bool {
    exists|i: int| 0 <= i < entries.len() && (#[trigger] entries[i]).class@ == class
}

/// A class is in the mapping exactly if one of the entries is about it.
pub proof fn lemma_subscriptions_dom(entries: Seq<ClassSubscribers>, class: Text)
    ensures
        subscriptions_of(entries).dom().contains(class) <==> lists_class(entries, class),
    decreases entries.len(),
{
    if entries.len() > 0 {
        let front = entries.drop_last();
        lemma_subscriptions_dom(front, class);
        if lists_class(front, class) {
            let i = choose|i: int| 0 <= i < front.len() && (#[trigger] front[i]).class@ == class;
            assert(entries[i].class@ == class);
        }
        if class == entries.last().class@ {
            assert(entries[entries.len() - 1].class@ == class);
        }
        if lists_class(entries, class) {
            let i = choose|i: int| 0 <= i < entries.len() && (#[trigger] entries[i]).class@ == class;
            if i < entries.len() - 1 {
                assert(front[i].class@ == class);
            }
        }
    }
}

/// Whether no class occurs twice.
pub open spec fn distinct_subscribed(entries: Seq<ClassSubscribers>) -> bool {
    forall|i: int, j: int|
        0 <= i < j < entries.len() ==> (#[trigger] entries[i]).class@ != (#[trigger] entries[j]).class@
}

/// Among entries for distinct classes, the mapping gives each class the
/// subscribers of its entry.
pub proof fn lemma_subscriptions_value(entries: Seq<ClassSubscribers>, i: int)
    requires
        distinct_subscribed(entries),
        0 <= i < entries.len(),
    ensures
        subscriptions_of(entries).dom().contains(entries[i].class@),
        subscriptions_of(entries)[entries[i].class@] == entries[i].users@.to_set(),
    decreases entries.len(),
{
    let front = entries.drop_last();
    if i < entries.len() - 1 {
        assert(front[i] == entries[i]);
        assert forall|a: int, b: int| 0 <= a < b < front.len() implies (#[trigger] front[a]).class@
            != (#[trigger] front[b]).class@ by {
            assert(front[a] == entries[a]);
            assert(front[b] == entries[b]);
        }
        lemma_subscriptions_value(front, i);
        assert(entries[i].class@ != entries[entries.len() - 1].class@);
    }
}

/// Among entries for distinct classes, changing the subscribers of one
/// changes the mapping at its class and nowhere else.
pub proof fn lemma_subscriptions_update(
    entries: Seq<ClassSubscribers>,
    i: int,
    entry: ClassSubscribers,
)
    requires
        distinct_subscribed(entries),
        0 <= i < entries.len(),
        entry.class@ == entries[i].class@,
    ensures
        distinct_subscribed(entries.update(i, entry)),
        subscriptions_of(entries.update(i, entry)) == subscriptions_of(entries).insert(
            entry.class@,
            entry.users@.to_set(),
        ),
    decreases entries.len(),
{
    let changed = entries.update(i, entry);
    let front = entries.drop_last();
    assert forall|a: int, b: int| 0 <= a < b < changed.len() implies (#[trigger] changed[a]).class@
        != (#[trigger] changed[b]).class@ by {
        assert(entries[a].class@ != entries[b].class@);
    }
    if i == entries.len() - 1 {
        assert(changed.drop_last() =~= front);
        assert(subscriptions_of(changed) =~= subscriptions_of(entries).insert(
            entry.class@,
            entry.users@.to_set(),
        ));
    } else {
        assert(changed.drop_last() =~= front.update(i, entry));
        assert forall|a: int, b: int| 0 <= a < b < front.len() implies (#[trigger] front[a]).class@
            != (#[trigger] front[b]).class@ by {
            assert(front[a] == entries[a]);
            assert(front[b] == entries[b]);
        }
        assert(front[i] == entries[i]);
        lemma_subscriptions_update(front, i, entry);
        assert(entries[i].class@ != entries[entries.len() - 1].class@);
        assert(changed.last() == entries.last());
        assert(subscriptions_of(changed) =~= subscriptions_of(entries).insert(
            entry.class@,
            entry.users@.to_set(),
        ));
    }
}

/// Among entries for distinct classes, taking one out takes its class out of
/// the mapping and changes nothing else.
pub proof fn lemma_subscriptions_remove(entries: Seq<ClassSubscribers>, i: int)
    requires
        distinct_subscribed(entries),
        0 <= i < entries.len(),
    ensures
        distinct_subscribed(entries.remove(i)),
        subscriptions_of(entries.remove(i)) == subscriptions_of(entries).remove(entries[i].class@),
    decreases entries.len(),
{
    let rest = entries.remove(i);
    let front = entries.drop_last();
    assert forall|a: int, b: int| 0 <= a < b < rest.len() implies (#[trigger] rest[a]).class@
        != (#[trigger] rest[b]).class@ by {
        let a0 = if a < i { a } else { a + 1 };
        let b0 = if b < i { b } else { b + 1 };
        assert(rest[a] == entries[a0]);
        assert(rest[b] == entries[b0]);
    }
    assert forall|a: int, b: int| 0 <= a < b < front.len() implies (#[trigger] front[a]).class@
        != (#[trigger] front[b]).class@ by {
        assert(front[a] == entries[a]);
        assert(front[b] == entries[b]);
    }
    if i == entries.len() - 1 {
        assert(rest =~= front);
        lemma_subscriptions_dom(front, entries[i].class@);
        if lists_class(front, entries[i].class@) {
            let k = choose|k: int| 0 <= k < front.len() && (#[trigger] front[k]).class@ == entries[i].class@;
            assert(entries[k].class@ == entries[i].class@);
        }
        assert(subscriptions_of(rest) =~= subscriptions_of(entries).remove(entries[i].class@));
    } else {
        assert(rest.drop_last() =~= front.remove(i));
        assert(front[i] == entries[i]);
        lemma_subscriptions_remove(front, i);
        assert(rest.last() == entries.last());
        assert(entries[i].class@ != entries[entries.len() - 1].class@);
        assert(subscriptions_of(rest) =~= subscriptions_of(entries).remove(entries[i].class@));
    }
}

/// One more subscriber that a list does not hold yet leaves it without
/// duplicates and adds the subscriber to the set of its elements.
pub proof fn lemma_push_user(users: Seq<u64>, user_id: u64)
    requires
        users.no_duplicates(),
        !users.contains(user_id),
    ensures
        sound_users(users.push(user_id)),
        users.push(user_id).to_set() == users.to_set().insert(user_id),
{
    let more = users.push(user_id);
    assert forall|u: u64| more.contains(u) <==> users.contains(u) || u == user_id by {
        if users.contains(u) {
            let k = choose|k: int| 0 <= k < users.len() && users[k] == u;
            assert(more[k] == u);
        }
        if u == user_id {
            assert(more[users.len() as int] == u);
        }
    }
    assert(more.to_set() =~= users.to_set().insert(user_id));
    assert forall|a: int, b: int| 0 <= a < more.len() && 0 <= b < more.len() && a != b implies more[a]
        != more[b] by {
        if a < users.len() {
            assert(users.contains(more[a]));
        }
        if b < users.len() {
            assert(users.contains(more[b]));
        }
    }
}

/// A sound registry stays sound when the subscribers of one class are
/// replaced by a sound list, and its mapping changes at that class alone.
pub proof fn lemma_registry_update(entries: Seq<ClassSubscribers>, i: int, entry: ClassSubscribers)
    requires
        registry_wf(entries),
        0 <= i < entries.len(),
        entry.class@ == entries[i].class@,
        sound_users(entry.users@),
    ensures
        registry_wf(entries.update(i, entry)),
        subscriptions_of(entries.update(i, entry)) == subscriptions_of(entries).insert(
            entry.class@,
            entry.users@.to_set(),
        ),
{
    lemma_subscriptions_update(entries, i, entry);
    let changed = entries.update(i, entry);
    assert forall|k: int| 0 <= k < changed.len() implies sound_users((#[trigger] changed[k]).users@) by {
        if k != i {
            assert(changed[k] == entries[k]);
        }
    }
}

/// A sound registry stays sound when a class that it does not hold is
/// added with a sound list of subscribers, and its mapping gains that class.
pub proof fn lemma_registry_push(entries: Seq<ClassSubscribers>, entry: ClassSubscribers)
    requires
        registry_wf(entries),
        !lists_class(entries, entry.class@),
        sound_users(entry.users@),
    ensures
        registry_wf(entries.push(entry)),
        subscriptions_of(entries.push(entry)) == subscriptions_of(entries).insert(
            entry.class@,
            entry.users@.to_set(),
        ),
{
    let more = entries.push(entry);
    assert(more.drop_last() =~= entries);
    assert forall|a: int, b: int| 0 <= a < b < more.len() implies (#[trigger] more[a]).class@
        != (#[trigger] more[b]).class@ by {
        assert(more[a] == entries[a]);
        if b < entries.len() {
            assert(more[b] == entries[b]);
        }
    }
    assert forall|k: int| 0 <= k < more.len() implies sound_users((#[trigger] more[k]).users@) by {
        if k < entries.len() {
            assert(more[k] == entries[k]);
        }
    }
}

/// A sound registry stays sound when a class is taken out, and its mapping
/// loses that class.
pub proof fn lemma_registry_remove(entries: Seq<ClassSubscribers>, i: int)
    requires
        registry_wf(entries),
        0 <= i < entries.len(),
    ensures
        registry_wf(entries.remove(i)),
        subscriptions_of(entries.remove(i)) == subscriptions_of(entries).remove(entries[i].class@),
{
    lemma_subscriptions_remove(entries, i);
    let rest = entries.remove(i);
    assert forall|k: int| 0 <= k < rest.len() implies sound_users((#[trigger] rest[k]).users@) by {
        let from = if k < i {
            k
        } else {
            k + 1
        };
        assert(rest[k] == entries[from]);
    }
}

/// Index of the entry of a class, if there is one.
fn find_class(entries: &Vec<ClassSubscribers>, class: &String) -> (found: Option<usize>)
    ensures
        match found {
            Some(i) => i < entries.len() && entries[i as int].class@ == class@,
            None => !lists_class(entries@, class@),
        },
{
    let mut i: usize = 0;
    while i < entries.len()
        invariant
            i <= entries.len(),
            forall|j: int| 0 <= j < i ==> (#[trigger] entries[j]).class@ != class@,
        decreases entries.len() - i,
    {
        if entries[i].class == *class {
            return Some(i);
        }
        i += 1;
    }
    None
}

/// Index of a user among the subscribers of a class, if the user is one.
fn find_user(users: &Vec<u64>, user_id: u64) -> (found: Option<usize>)
    ensures
        match found {
            Some(i) => i < users.len() && users[i as int] == user_id,
            None => !users@.contains(user_id),
        },
{
    let mut i: usize = 0;
    while i < users.len()
        invariant
            i <= users.len(),
            forall|j: int| 0 <= j < i ==> users[j] != user_id,
        decreases users.len() - i,
    {
        if users[i] == user_id {
            return Some(i);
        }
        i += 1;
    }
    None
}

impl View for ClassesAndUsers {
    type V = Subscriptions;

    /// The registry as a mapping from class names to sets of subscriber ids.
    closed spec fn view(&self) -> Subscriptions {
        subscriptions_of(self.classes_and_users@)
    }
}

impl ClassesAndUsers {
    /// The registry holds each class once, with at least one subscriber, and
    /// each subscriber of a class once.
    pub closed spec fn wf(&self) -> bool {
        registry_wf(self.classes_and_users@)
    }

    /// A registry without subscriptions.
    pub fn default() -> (registry: Self)
        ensures
            registry.wf(),
            registry@ == Subscriptions::empty(),
    {
        ClassesAndUsers { classes_and_users: Vec::new() }
    }

    /// Subscribes a user to a class. A user that is subscribed already stays
    /// so, once.
    pub fn insert_user(&mut self, class: String, user_id: u64)
        requires
            old(self).wf(),
        ensures
            final(self).wf(),
            final(self)@ == old(self)@.insert(
                class@,
                subscribers(old(self)@, class@).insert(user_id),
            ),
    {
        let ghost before = self.classes_and_users@;
        proof {
            lemma_subscriptions_dom(before, class@);
        }
        match find_class(&self.classes_and_users, &class) {
            Some(i) => {
                let ghost users = before[i as int].users@;
                proof {
                    lemma_subscriptions_value(before, i as int);
                }
                if find_user(&self.classes_and_users[i].users, user_id).is_none() {
                    self.classes_and_users[i].users.push(user_id);
                    proof {
                        let entry = self.classes_and_users[i as int];
                        assert(self.classes_and_users@ =~= before.update(i as int, entry));
                        lemma_push_user(users, user_id);
                        lemma_registry_update(before, i as int, entry);
                    }
                } else {
                    assert(users.to_set().insert(user_id) =~= users.to_set());
                    assert(self@.insert(class@, users.to_set()) =~= self@);
                }
            },
            None => {
                let mut users: Vec<u64> = Vec::new();
                users.push(user_id);
                let entry = ClassSubscribers { class, users };
                proof {
                    assert(entry.users@ =~= Seq::<u64>::empty().push(user_id));
                    lemma_push_user(Seq::<u64>::empty(), user_id);
                    assert(Seq::<u64>::empty().to_set() =~= Set::<u64>::empty());
                    lemma_registry_push(before, entry);
                }
                self.classes_and_users.push(entry);
            },
        }
    }

    /// Ends a user's subscription to a class, and drops the class when that
    /// was its last subscriber. Tells whether the user was subscribed.
    pub fn remove_user_from_class(&mut self, class: &str, user_id: u64) -> (successful: bool)
        requires
            old(self).wf(),
        ensures
            final(self).wf(),
            successful == subscribers(old(self)@, class@).contains(user_id),
            final(self)@ == unsubscribed(old(self)@, class@, user_id),
    {
        let ghost before = self.classes_and_users@;
        let name = class.to_owned();
        proof {
            lemma_subscriptions_dom(before, class@);
        }
        let i = match find_class(&self.classes_and_users, &name) {
            Some(i) => i,
            None => {
                return false;
            },
        };
        let ghost users = before[i as int].users@;
        proof {
            lemma_subscriptions_value(before, i as int);
        }
        let at = match find_user(&self.classes_and_users[i].users, user_id) {
            Some(at) => at,
            None => {
                return false;
            },
        };
        proof {
            lemma_remove_user(users, at as int);
        }
        if self.classes_and_users[i].users.len() == 1 {
            proof {
                assert(users.remove(at as int) =~= Seq::<u64>::empty());
                assert(users.to_set().remove(user_id) =~= Set::<u64>::empty());
                lemma_registry_remove(before, i as int);
            }
            self.classes_and_users.remove(i);
        } else {
            self.classes_and_users[i].users.remove(at);
            proof {
                let entry = self.classes_and_users[i as int];
                assert(self.classes_and_users@ =~= before.update(i as int, entry));
                assert(entry.users@.to_set().contains(entry.users[0]));
                lemma_registry_update(before, i as int, entry);
            }
        }
        true
    }

    /// The classes that a user is subscribed to, each once.
    pub fn get_user_classes(&self, user_id: u64) -> (classes: Vec<String>)
        requires
            self.wf(),
        ensures
            classes.deep_view().no_duplicates(),
            forall|class: Text|
                classes.deep_view().contains(class) <==> subscribers(self@, class).contains(user_id),
    {
        let entries = &self.classes_and_users;
        let mut classes: Vec<String> = Vec::new();
        let mut i: usize = 0;
        while i < entries.len()
            invariant
                i <= entries.len(),
                registry_wf(entries@),
                classes.deep_view().no_duplicates(),
                forall|class: Text|
                    classes.deep_view().contains(class) <==> subscribed_among(
                        entries@,
                        i as int,
                        class,
                        user_id,
                    ),
            decreases entries.len() - i,
        {
            if find_user(&entries[i].users, user_id).is_some() {
                let ghost before = classes.deep_view();
                classes.push(entries[i].class.clone());
                proof {
                    let names = classes.deep_view();
                    let name = entries[i as int].class@;
                    assert(names =~= before.push(name));
                    if before.contains(name) {
                        assert(subscribed_among(entries@, i as int, name, user_id));
                        let k = choose|k: int|
                            0 <= k < i && (#[trigger] entries[k]).class@ == name
                                && entries[k].users@.contains(user_id);
                        assert(entries[k].class@ != entries[i as int].class@);
                    }
                    assert forall|class: Text| names.contains(class) <==> subscribed_among(
                        entries@,
                        i + 1,
                        class,
                        user_id,
                    ) by {
                        if names.contains(class) {
                            let at = choose|at: int| 0 <= at < names.len() && names[at] == class;
                            if at < before.len() {
                                assert(before[at] == class);
                                assert(before.contains(class));
                                assert(subscribed_among(entries@, i as int, class, user_id));
                                let k = choose|k: int|
                                    0 <= k < i && (#[trigger] entries[k]).class@ == class
                                        && entries[k].users@.contains(user_id);
                                assert(0 <= k < i + 1);
                            } else {
                                assert(entries[i as int].class@ == class);
                            }
                        }
                        if subscribed_among(entries@, i + 1, class, user_id) {
                            let k = choose|k: int|
                                0 <= k < i + 1 && (#[trigger] entries[k]).class@ == class
                                    && entries[k].users@.contains(user_id);
                            if k < i {
                                assert(subscribed_among(entries@, i as int, class, user_id));
                                assert(before.contains(class));
                                let at = choose|at: int| 0 <= at < before.len() && before[at] == class;
                                assert(names[at] == class);
                            } else {
                                assert(names[before.len() as int] == class);
                            }
                        }
                    }
                }
            } else {
                proof {
                    assert forall|class: Text|
                        subscribed_among(entries@, i + 1, class, user_id) implies subscribed_among(
                        entries@,
                        i as int,
                        class,
                        user_id,
                    ) by {
                        let k = choose|k: int|
                            0 <= k < i + 1 && (#[trigger] entries[k]).class@ == class
                                && entries[k].users@.contains(user_id);
                        assert(k < i);
                    }
                }
            }
            i += 1;
        }
        proof {
            assert forall|class: Text|
                classes.deep_view().contains(class) <==> subscribers(self@, class).contains(
                    user_id,
                ) by {
                lemma_subscriptions_dom(entries@, class);
                if subscribed_among(entries@, entries.len() as int, class, user_id) {
                    let k = choose|k: int|
                        0 <= k < entries.len() && (#[trigger] entries[k]).class@ == class
                            && entries[k].users@.contains(user_id);
                    lemma_subscriptions_value(entries@, k);
                }
                if subscribers(self@, class).contains(user_id) {
                    let k = choose|k: int| 0 <= k < entries.len() && (#[trigger] entries[k]).class@ == class;
                    lemma_subscriptions_value(entries@, k);
                }
            }
        }
        classes
    }

    /// The classes that have subscribers, each once.
    pub fn _get_classes(&self) -> (classes: Vec<String>)
        requires
            self.wf(),
        ensures
            classes.deep_view().no_duplicates(),
            forall|class: Text| classes.deep_view().contains(class) <==> self@.dom().contains(class),
    {
        let entries = &self.classes_and_users;
        let mut classes: Vec<String> = Vec::new();
        let mut i: usize = 0;
        while i < entries.len()
            invariant
                i <= entries.len(),
                registry_wf(entries@),
                classes.len() == i,
                forall|k: int| 0 <= k < i ==> (#[trigger] classes.deep_view()[k]) == entries[k].class@,
            decreases entries.len() - i,
        {
            let ghost before = classes.deep_view();
            classes.push(entries[i].class.clone());
            proof {
                assert(classes.deep_view() =~= before.push(entries[i as int].class@));
            }
            i += 1;
        }
        proof {
            let names = classes.deep_view();
            assert forall|a: int, b: int|
                0 <= a < names.len() && 0 <= b < names.len() && a != b implies names[a]
                != names[b] by {
                if a < b {
                    assert(entries[a].class@ != entries[b].class@);
                } else {
                    assert(entries[b].class@ != entries[a].class@);
                }
            }
            assert forall|class: Text| names.contains(class) <==> self@.dom().contains(class) by {
                lemma_subscriptions_dom(entries@, class);
                if names.contains(class) {
                    let at = choose|at: int| 0 <= at < names.len() && names[at] == class;
                    assert(entries[at].class@ == class);
                }
                if lists_class(entries@, class) {
                    let k = choose|k: int| 0 <= k < entries.len() && (#[trigger] entries[k]).class@ == class;
                    assert(names[k] == class);
                }
            }
        }
        classes
    }

    /// The classes of the registry, each with its subscribers.
    pub fn get_inner_classes_and_users(&self) -> (entries: &Vec<ClassSubscribers>)
        requires
            self.wf(),
        ensures
            registry_wf(entries@),
            subscriptions_of(entries@) == self@,
    {
        &self.classes_and_users
    }
}

/// What is left of a registry when a user gives up a class: the class
/// without the user, or without the class where the user was its last
/// subscriber.
pub open spec fn unsubscribed(registry: Subscriptions, class: Text, user_id: u64) -> Subscriptions {
    if subscribers(registry, class).contains(user_id) {
        let left = registry[class].remove(user_id);
        if left == Set::<u64>::empty() {
            registry.remove(class)
        } else {
            registry.insert(class, left)
        }
    } else {
        registry
    }
}

/// Taking one element out of a list without duplicates takes it out of the
/// set of its elements.
pub proof fn lemma_remove_user(users: Seq<u64>, at: int)
    requires
        users.no_duplicates(),
        0 <= at < users.len(),
    ensures
        users.remove(at).no_duplicates(),
        users.remove(at).to_set() == users.to_set().remove(users[at]),
{
    let rest = users.remove(at);
    assert forall|a: int, b: int| 0 <= a < rest.len() && 0 <= b < rest.len() && a != b implies rest[a]
        != rest[b] by {
        let a0 = if a < at { a } else { a + 1 };
        let b0 = if b < at { b } else { b + 1 };
        assert(rest[a] == users[a0]);
        assert(rest[b] == users[b0]);
    }
    assert forall|u: u64| rest.contains(u) <==> (users.contains(u) && u != users[at]) by {
        if rest.contains(u) {
            let k = choose|k: int| 0 <= k < rest.len() && rest[k] == u;
            let k0 = if k < at { k } else { k + 1 };
            assert(users[k0] == u);
        }
        if users.contains(u) && u != users[at] {
            let k = choose|k: int| 0 <= k < users.len() && users[k] == u;
            let k1 = if k < at { k } else { k - 1 };
            assert(rest[k1] == u);
        }
    }
    assert(rest.to_set() =~= users.to_set().remove(users[at]));
}

/// Whether one of the first `count` entries is about the class and lists
/// the user.
pub open spec fn subscribed_among(
    entries: Seq<ClassSubscribers>,
    count: int,
    class: Text,
    user_id: u64,
) -> bool {
    exists|k: int|
        0 <= k < count && (#[trigger] entries[k]).class@ == class && entries[k].users@.contains(user_id)
}

/// The subscribers of a class: none where the registry does not hold it.
pub open spec fn subscribers(registry: Subscriptions, class: Text) -> Set<u64> {
    if registry.dom().contains(class) {
        registry[class]
    } else {
        Set::empty()
    }
}

} // verus!
