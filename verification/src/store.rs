//! The tasks, each under its own key.

use crate::task::ScriptTask;
use vstd::prelude::*;

verus! {

use crate::task::TaskView;

/// A task and the key under which it is kept.
struct Entry {
    key: String,
    task: ScriptTask,
}

/// The tasks, each under its own key.
pub struct TaskStore {
    entries: Vec<Entry>,
}

impl View for TaskStore {
    type V = Map<Seq<char>, TaskView>;

    closed spec fn view(&self) -> Map<Seq<char>, TaskView> {
        Map::new(
            |key: Seq<char>| self.holds(key),
            |key: Seq<char>| self.entries@[self.place(key)].task@,
        )
    }
}

/// Whether `listed` is what a walk over the tasks `tasks` gives: each key once, with its task.
pub open spec fn is_walk(
    listed: Seq<(Seq<char>, TaskView)>,
    tasks: Map<Seq<char>, TaskView>,
) -> bool {
    &&& forall|i: int|
        0 <= i < listed.len() ==> tasks.contains_pair((#[trigger] listed[i]).0, listed[i].1)
    &&& forall|i: int, j: int|
        0 <= i < j < listed.len() ==> (#[trigger] listed[i]).0 != (#[trigger] listed[j]).0
    &&& forall|key: Seq<char>| #[trigger]
        tasks.contains_key(key) ==> exists|i: int|
            0 <= i < listed.len() && (#[trigger] listed[i]).0 == key
}

/// Pairs of strings and tasks as values of mathematics.
pub open spec fn pairs_view(pairs: Seq<(String, ScriptTask)>) -> Seq<(Seq<char>, TaskView)> {
    pairs.map_values(|pair: (String, ScriptTask)| (pair.0@, pair.1@))
}

impl TaskStore {
    spec fn holds(&self, key: Seq<char>) -> bool {
        exists|i: int| 0 <= i < self.entries@.len() && (#[trigger] self.entries@[i]).key@ == key
    }

    spec fn place(&self, key: Seq<char>) -> int {
        choose|i: int| 0 <= i < self.entries@.len() && (#[trigger] self.entries@[i]).key@ == key
    }

    /// No key occurs twice.
    pub closed spec fn wf(&self) -> bool {
        forall|i: int, j: int|
            0 <= i < j < self.entries@.len() ==> (#[trigger] self.entries@[i]).key@ != (
            #[trigger] self.entries@[j]).key@
    }

    proof fn lemma_entry(&self, i: int)
        requires
            self.wf(),
            0 <= i < self.entries@.len(),
        ensures
            self@.contains_key(self.entries@[i].key@),
            self@[self.entries@[i].key@] == self.entries@[i].task@,
    {
        let key = self.entries@[i].key@;
        assert(self.holds(key));
        assert(self.place(key) == i);
    }

    spec fn differs_in_task(before: TaskStore, after: TaskStore, i: int) -> bool {
        &&& after.entries@.len() == before.entries@.len()
        &&& after.entries@[i].key == before.entries@[i].key
        &&& forall|j: int|
            0 <= j < before.entries@.len() && j != i ==> after.entries@[j] == before.entries@[j]
    }

    proof fn lemma_changed(before: TaskStore, after: TaskStore, i: int)
        requires
            before.wf(),
            0 <= i < before.entries@.len(),
            Self::differs_in_task(before, after, i),
        ensures
            after.wf(),
            after@ == before@.insert(before.entries@[i].key@, after.entries@[i].task@),
    {
        let key = before.entries@[i].key@;
        let expected = before@.insert(key, after.entries@[i].task@);
        assert forall|k: Seq<char>|
            {
                &&& #[trigger] after@.dom().contains(k) == expected.dom().contains(k)
                &&& after@.dom().contains(k) ==> after@[k] == expected[k]
            } by {
            if after@.contains_key(k) {
                let j = after.place(k);
                after.lemma_entry(j);
                before.lemma_entry(j);
            }
            if before@.contains_key(k) {
                let j = before.place(k);
                before.lemma_entry(j);
                after.lemma_entry(j);
            }
            before.lemma_entry(i);
            after.lemma_entry(i);
        }
        assert(after@ =~= expected);
    }

    /// No tasks.
    pub fn new() -> (r: TaskStore)
        ensures
            r.wf(),
            r@ == Map::<Seq<char>, TaskView>::empty(),
    {
        let r = TaskStore { entries: Vec::new() };
        assert(r@ =~= Map::<Seq<char>, TaskView>::empty());
        r
    }

    fn find(&self, key: &String) -> (r: Option<usize>)
        ensures
            match r {
                Some(i) => i < self.entries@.len() && self.entries@[i as int].key@ == key@,
                None => !self@.contains_key(key@),
            },
    {
        let mut i: usize = 0;
        while i < self.entries.len()
            invariant
                i <= self.entries@.len(),
                forall|j: int| 0 <= j < i ==> (#[trigger] self.entries@[j]).key@ != key@,
            decreases self.entries@.len() - i,
        {
            if self.entries[i].key == *key {
                return Some(i);
            }
            i = i + 1;
        }
        None
    }

    /// Whether there is a task under `key`.
    pub fn contains_key(&self, key: &String) -> (r: bool)
        requires
            self.wf(),
        ensures
            r == self@.contains_key(key@),
    {
        match self.find(key) {
            Some(i) => {
                proof {
                    self.lemma_entry(i as int);
                }
                true
            },
            None => false,
        }
    }

    /// The task under `key`, if there is one.
    pub fn get(&self, key: &String) -> (r: Option<&ScriptTask>)
        requires
            self.wf(),
        ensures
            r is Some <==> self@.contains_key(key@),
            r matches Some(task) ==> task@ == self@[key@],
    {
        match self.find(key) {
            Some(i) => {
                proof {
                    self.lemma_entry(i as int);
                }
                Some(&self.entries[i].task)
            },
            None => None,
        }
    }

    /// The task under `key`, if there is one, to be changed.
    pub fn get_mut(&mut self, key: &String) -> (r: Option<&mut ScriptTask>)
        requires
            old(self).wf(),
        ensures
            final(self).wf(),
            r is Some <==> old(self)@.contains_key(key@),
            match r {
                Some(task) => {
                    &&& task@ == old(self)@[key@]
                    &&& final(self)@ == old(self)@.insert(key@, final(task)@)
                },
                None => final(self)@ == old(self)@,
            },
    {
        match self.find(key) {
            Some(i) => {
                proof {
                    self.lemma_entry(i as int);
                    let before = *self;
                    assert forall|after: TaskStore|
                        Self::differs_in_task(before, after, i as int) implies after.wf()
                        && #[trigger] after@ == before@.insert(
                        before.entries@[i as int].key@,
                        after.entries@[i as int].task@,
                    ) by {
                        Self::lemma_changed(before, after, i as int);
                    }
                }
                Some(&mut self.entries[i].task)
            },
            None => None,
        }
    }

    /// Keeps `task` under `key`, in the place of the task that was there, if there was one.
    pub fn insert(&mut self, key: String, task: ScriptTask)
        requires
            old(self).wf(),
        ensures
            final(self).wf(),
            final(self)@ == old(self)@.insert(key@, task@),
    {
        let ghost before = *self;
        match self.find(&key) {
            Some(i) => {
                self.entries[i].task = task;
                proof {
                    Self::lemma_changed(before, *self, i as int);
                }
            },
            None => {
                let ghost (k, t) = (key@, task@);
                self.entries.push(Entry { key, task });
                proof {
                    let last = before.entries@.len() as int;
                    let expected = before@.insert(k, t);
                    assert(!before.holds(k));
                    assert forall|i: int, j: int| 0 <= i < j < self.entries@.len() implies (
                    #[trigger] self.entries@[i]).key@ != (#[trigger] self.entries@[j]).key@ by {
                        assert(self.entries@[i] == before.entries@[i]);
                        if j < last {
                            assert(self.entries@[j] == before.entries@[j]);
                        }
                    }
                    assert forall|x: Seq<char>|
                        {
                            &&& #[trigger] self@.dom().contains(x) == expected.dom().contains(x)
                            &&& self@.dom().contains(x) ==> self@[x] == expected[x]
                        } by {
                        self.lemma_entry(last);
                        if self@.contains_key(x) && x != k {
                            let j = self.place(x);
                            self.lemma_entry(j);
                            assert(self.entries@[j] == before.entries@[j]);
                            before.lemma_entry(j);
                        }
                        if before@.contains_key(x) {
                            let j = before.place(x);
                            before.lemma_entry(j);
                            assert(self.entries@[j] == before.entries@[j]);
                            self.lemma_entry(j);
                        }
                    }
                    assert(self@ =~= expected);
                }
            },
        }
    }

    /// Removes the task under `key` and tells whether there was one.
    pub fn remove(&mut self, key: &String) -> (r: bool)
        requires
            old(self).wf(),
        ensures
            final(self).wf(),
            r == old(self)@.contains_key(key@),
            final(self)@ == old(self)@.remove(key@),
    {
        let ghost before = *self;
        match self.find(key) {
            Some(i) => {
                self.entries.remove(i);
                proof {
                    before.lemma_entry(i as int);
                    let expected = before@.remove(key@);
                    let shift = |j: int|
                        if j < i {
                            j
                        } else {
                            j + 1
                        };
                    assert(forall|j: int|
                        0 <= j < self.entries@.len() ==> (#[trigger] self.entries@[j])
                            == before.entries@[shift(j)]);
                    assert forall|x: Seq<char>|
                        {
                            &&& #[trigger] self@.dom().contains(x) == expected.dom().contains(x)
                            &&& self@.dom().contains(x) ==> self@[x] == expected[x]
                        } by {
                        if self@.contains_key(x) {
                            let j = self.place(x);
                            self.lemma_entry(j);
                            before.lemma_entry(shift(j));
                        }
                        if before@.contains_key(x) && x != key@ {
                            let j = before.place(x);
                            before.lemma_entry(j);
                            if j < i {
                                assert(self.entries@[j] == before.entries@[j]);
                                self.lemma_entry(j);
                            } else {
                                assert(self.entries@[j - 1] == before.entries@[j]);
                                self.lemma_entry(j - 1);
                            }
                        }
                    }
                    assert(self@ =~= expected);
                }
                true
            },
            None => {
                assert(self@ =~= before@.remove(key@));
                false
            },
        }
    }

    /// The tasks with their keys.
    pub fn pairs(&self) -> (r: Vec<(String, ScriptTask)>)
        requires
            self.wf(),
        ensures
            is_walk(pairs_view(r@), self@),
    {
        let mut r: Vec<(String, ScriptTask)> = Vec::new();
        let mut i: usize = 0;
        while i < self.entries.len()
            invariant
                i <= self.entries@.len(),
                r@.len() == i,
                forall|j: int|
                    0 <= j < i ==> (#[trigger] r@[j]).0@ == self.entries@[j].key@ && r@[j].1@
                        == self.entries@[j].task@,
            decreases self.entries@.len() - i,
        {
            r.push((self.entries[i].key.clone(), self.entries[i].task.clone()));
            i = i + 1;
        }
        proof {
            let listed = pairs_view(r@);
            assert forall|j: int| 0 <= j < listed.len() implies self@.contains_pair(
                (#[trigger] listed[j]).0,
                listed[j].1,
            ) by {
                assert(listed[j] == (r@[j].0@, r@[j].1@));
                self.lemma_entry(j);
            }
            assert forall|a: int, b: int| 0 <= a < b < listed.len() implies (#[trigger] listed[a]).0
                != (#[trigger] listed[b]).0 by {
                assert(listed[a] == (r@[a].0@, r@[a].1@));
                assert(listed[b] == (r@[b].0@, r@[b].1@));
            }
            assert forall|key: Seq<char>| #[trigger] self@.contains_key(key) implies exists|j: int|
                0 <= j < listed.len() && (#[trigger] listed[j]).0 == key by {
                let j = self.place(key);
                assert(listed[j] == (r@[j].0@, r@[j].1@));
            }
        }
        r
    }

    /// The keys, in the order in which the tasks are kept.
    pub(crate) closed spec fn keys(&self) -> Seq<Seq<char>> {
        self.entries@.map_values(|entry: Entry| entry.key@)
    }

    /// The keys are those of the tasks, and none occurs twice.
    pub(crate) proof fn lemma_keys(&self)
        requires
            self.wf(),
        ensures
            forall|i: int|
                0 <= i < self.keys().len() ==> self@.contains_key(#[trigger] self.keys()[i]),
            forall|i: int, j: int|
                0 <= i < j < self.keys().len() ==> #[trigger] self.keys()[i]
                    != #[trigger] self.keys()[j],
            forall|key: Seq<char>| #[trigger]
                self@.contains_key(key) ==> exists|i: int|
                    0 <= i < self.keys().len() && #[trigger] self.keys()[i] == key,
            self@.dom().finite(),
            self@.len() == self.keys().len(),
    {
        assert forall|i: int| 0 <= i < self.keys().len() implies self@.contains_key(
            #[trigger] self.keys()[i],
        ) by {
            self.lemma_entry(i);
        }
        assert forall|key: Seq<char>| #[trigger] self@.contains_key(key) implies exists|i: int|
            0 <= i < self.keys().len() && #[trigger] self.keys()[i] == key by {
            assert(self.keys()[self.place(key)] == key);
        }
        assert forall|key: Seq<char>|
            self.keys().to_set().contains(key) == #[trigger] self@.dom().contains(key) by {
            if self@.contains_key(key) {
                assert(self.keys()[self.place(key)] == key);
            }
        }
        assert(self.keys().to_set() =~= self@.dom());
        assert(self.keys().no_duplicates());
        self.keys().unique_seq_to_set();
    }

    /// The number of tasks.
    pub fn len(&self) -> (r: usize)
        requires
            self.wf(),
        ensures
            r == self@.len(),
            self@.dom().finite(),
    {
        proof {
            self.lemma_keys();
        }
        self.entries.len()
    }

    /// A key by its place.
    pub(crate) fn key_at(&self, i: usize) -> (r: String)
        requires
            i < self.keys().len(),
        ensures
            r@ == self.keys()[i as int],
    {
        self.entries[i].key.clone()
    }

    /// A task by its place, to be changed.
    pub(crate) fn task_at_mut(&mut self, i: usize) -> (r: &mut ScriptTask)
        requires
            old(self).wf(),
            i < old(self).keys().len(),
        ensures
            r@ == old(self)@[old(self).keys()[i as int]],
            final(self).wf(),
            final(self).keys() == old(self).keys(),
            final(self)@ == old(self)@.insert(old(self).keys()[i as int], final(r)@),
    {
        proof {
            self.lemma_entry(i as int);
            let before = *self;
            assert forall|after: TaskStore|
                Self::differs_in_task(before, after, i as int) implies after.wf()
                && #[trigger] after@ == before@.insert(
                before.entries@[i as int].key@,
                after.entries@[i as int].task@,
            ) && after.keys() == before.keys() by {
                Self::lemma_changed(before, after, i as int);
                assert(after.keys() =~= before.keys());
            }
        }
        &mut self.entries[i].task
    }
}

} // verus!
