//! The task store: a mapping from task names to task records, one record per
//! name.  The store itself is a value — the caller that keeps records on disk
//! reads them into a store and writes them back — so every operation here is
//! exact: creating overwrites any record of the same name wholesale, updating
//! requires the name to exist, deleting a missing name is an error, and
//! listing an empty store yields an empty list.
use crate::task::{Job, JobView, Task, TaskView};
use crate::text::str_eq;
use vstd::map::*;
use vstd::prelude::*;

verus! {

/// Why a store operation failed: the name has no record, a stored record is
/// corrupt, or the underlying storage could not be accessed.  Only `NotFound`
/// arises in the store itself; `Parse` and `Io` are produced by the codec and
/// by a file-backed caller, which share this taxonomy.
#[derive(Debug, PartialEq, Eq)]
pub enum StoreError {
    NotFound,
    Parse,
    Io,
}

/// An in-memory mapping from task names to tasks, at most one task per name.
pub struct TaskStore {
    tasks: Vec<Task>,
}

impl TaskStore {
    /// The stored tasks, as their mathematical views.
    pub closed spec fn records(self) -> Seq<TaskView> {
        self.tasks@.map_values(|t: Task| t@)
    }

    /// At most one record per name.
    pub closed spec fn wf(self) -> bool {
        forall|i: int, j: int|
            0 <= i < j < self.records().len() ==> self.records()[i].name != self.records()[j].name
    }

    /// The store as a mapping from names to records.
    pub closed spec fn as_map(self) -> Map<Seq<char>, TaskView> {
        Map::new(
            |k: Seq<char>|
                exists|i: int| 0 <= i < self.records().len() && self.records()[i].name == k,
            |k: Seq<char>|
                self.records()[choose|i: int|
                    0 <= i < self.records().len() && self.records()[i].name == k],
        )
    }

    /// The record at index `i` is what the map holds under its name.
    proof fn lemma_lookup(self, i: int)
        requires
            self.wf(),
            0 <= i < self.records().len(),
        ensures
            self.as_map().contains_key(self.records()[i].name),
            self.as_map()[self.records()[i].name] == self.records()[i],
    {
        let k = self.records()[i].name;
        assert(0 <= i < self.records().len() && self.records()[i].name == k);
        let j = choose|j: int| 0 <= j < self.records().len() && self.records()[j].name == k;
        if i < j {
            assert(self.records()[i].name != self.records()[j].name);
        } else if j < i {
            assert(self.records()[j].name != self.records()[i].name);
        }
    }

    /// An empty store: no names, no records.
    pub fn new() -> (s: TaskStore)
        ensures
            s.wf(),
            s.as_map() == Map::<Seq<char>, TaskView>::empty(),
    {
        let s = TaskStore { tasks: Vec::new() };
        proof {
            assert(s.as_map() =~= Map::<Seq<char>, TaskView>::empty());
        }
        s
    }

    /// The index of the record stored under `name`, if any.
    fn find_index(&self, name: &str) -> (r: Option<usize>)
        ensures
            match r {
                Some(i) => i < self.records().len() && self.records()[i as int].name == name@,
                None => forall|i: int|
                    0 <= i < self.records().len() ==> self.records()[i].name != name@,
            },
    {
        let mut i: usize = 0;
        while i < self.tasks.len()
            invariant
                i <= self.records().len(),
                forall|j: int| 0 <= j < i ==> self.records()[j].name != name@,
            decreases self.records().len() - i,
        {
            if str_eq(self.tasks[i].name.as_str(), name) {
                assert(self.records()[i as int].name == name@);
                return Some(i);
            }
            i = i + 1;
        }
        None
    }

    /// Whether a record is stored under `name`.
    pub fn contains(&self, name: &str) -> (r: bool)
        requires
            self.wf(),
        ensures
            r == self.as_map().contains_key(name@),
    {
        match self.find_index(name) {
            Some(i) => {
                proof {
                    self.lemma_lookup(i as int);
                }
                true
            },
            None => {
                assert(!self.as_map().contains_key(name@));
                false
            },
        }
    }

    /// Stores `task` under its own name.  A record already stored under that
    /// name is replaced as a whole: the name then maps to the given task,
    /// and every other name is untouched.
    pub fn save_task(&mut self, task: Task)
        requires
            old(self).wf(),
        ensures
            final(self).wf(),
            final(self).as_map() == old(self).as_map().insert(task@.name, task@),
    {
        let ghost k = task@.name;
        let ghost tv = task@;
        match self.find_index(task.name.as_str()) {
            Some(i) => {
                proof {
                    old(self).lemma_lookup(i as int);
                }
                self.tasks.set(i, task);
                proof {
                    assert(self.records() =~= old(self).records().update(i as int, tv));
                    assert_maps_equal!(final(self).as_map(), old(self).as_map().insert(k, tv), k2 => {
                        if k2 == k {
                            self.lemma_lookup(i as int);
                        } else {
                            if old(self).as_map().contains_key(k2) {
                                let j = choose|j: int|
                                    0 <= j < old(self).records().len() && old(
                                        self,
                                    ).records()[j].name == k2;
                                old(self).lemma_lookup(j);
                                self.lemma_lookup(j);
                            }
                            if final(self).as_map().contains_key(k2) {
                                let j = choose|j: int|
                                    0 <= j < self.records().len() && self.records()[j].name == k2;
                                self.lemma_lookup(j);
                                old(self).lemma_lookup(j);
                            }
                        }
                    });
                }
            },
            None => {
                self.tasks.push(task);
                proof {
                    assert(self.records() =~= old(self).records().push(tv));
                    assert_maps_equal!(final(self).as_map(), old(self).as_map().insert(k, tv), k2 => {
                        let n = old(self).records().len();
                        if k2 == k {
                            self.lemma_lookup(n as int);
                        } else {
                            if old(self).as_map().contains_key(k2) {
                                let j = choose|j: int|
                                    0 <= j < old(self).records().len() && old(
                                        self,
                                    ).records()[j].name == k2;
                                old(self).lemma_lookup(j);
                                self.lemma_lookup(j);
                            }
                            if final(self).as_map().contains_key(k2) {
                                let j = choose|j: int|
                                    0 <= j < self.records().len() && self.records()[j].name == k2;
                                self.lemma_lookup(j);
                                if j < n {
                                    old(self).lemma_lookup(j);
                                }
                            }
                        }
                    });
                }
            },
        }
    }

    /// Loads the task stored under `name`: the stored record if the name has
    /// one, and `NotFound` if and only if it has none.
    pub fn load_task(&self, name: &str) -> (r: Result<Task, StoreError>)
        requires
            self.wf(),
        ensures
            match r {
                Ok(t) => self.as_map().contains_key(name@) && t@ == self.as_map()[name@],
                Err(e) => !self.as_map().contains_key(name@) && e == StoreError::NotFound,
            },
    {
        match self.find_index(name) {
            Some(i) => {
                proof {
                    self.lemma_lookup(i as int);
                }
                Ok(self.tasks[i].duplicate())
            },
            None => {
                assert(!self.as_map().contains_key(name@));
                Err(StoreError::NotFound)
            },
        }
    }

    /// Removes the record stored under `name`.  Fails with `NotFound`, and
    /// changes nothing, if and only if the name has no record; otherwise the
    /// name afterwards has none and every other name is untouched.
    pub fn delete_task(&mut self, name: &str) -> (r: Result<(), StoreError>)
        requires
            old(self).wf(),
        ensures
            final(self).wf(),
            match r {
                Ok(()) => {
                    &&& old(self).as_map().contains_key(name@)
                    &&& final(self).as_map() == old(self).as_map().remove(name@)
                },
                Err(e) => {
                    &&& !old(self).as_map().contains_key(name@)
                    &&& e == StoreError::NotFound
                    &&& *final(self) == *old(self)
                },
            },
    {
        let ghost k = name@;
        match self.find_index(name) {
            Some(i) => {
                proof {
                    old(self).lemma_lookup(i as int);
                }
                let _ = self.tasks.remove(i);
                proof {
                    let pre = old(self).records();
                    assert(self.records() =~= pre.remove(i as int));
                    assert_maps_equal!(final(self).as_map(), old(self).as_map().remove(k), k2 => {
                        if old(self).as_map().contains_key(k2) && k2 != k {
                            let j = choose|j: int|
                                0 <= j < pre.len() && pre[j].name == k2;
                            old(self).lemma_lookup(j);
                            if j < i {
                                self.lemma_lookup(j);
                            } else {
                                assert(j != i);
                                assert(self.records()[j - 1] == pre[j]);
                                self.lemma_lookup(j - 1);
                            }
                        }
                        if final(self).as_map().contains_key(k2) {
                            let j = choose|j: int|
                                0 <= j < self.records().len() && self.records()[j].name == k2;
                            self.lemma_lookup(j);
                            if j < i {
                                old(self).lemma_lookup(j);
                            } else {
                                assert(self.records()[j] == pre[j + 1]);
                                old(self).lemma_lookup(j + 1);
                            }
                        }
                    });
                }
                Ok(())
            },
            None => {
                assert(!self.as_map().contains_key(name@));
                Err(StoreError::NotFound)
            },
        }
    }

    /// Replaces the jobs of the task stored under `name` wholesale: on
    /// success the name maps to exactly the new jobs — not a merge of old and
    /// new — and the replacing task is returned.  Fails with `NotFound`, and
    /// changes nothing, if and only if the name has no record.
    pub fn update_task(&mut self, name: &str, jobs: Vec<Job>) -> (r: Result<Task, StoreError>)
        requires
            old(self).wf(),
        ensures
            final(self).wf(),
            match r {
                Ok(t) => {
                    &&& old(self).as_map().contains_key(name@)
                    &&& t@.name == name@
                    &&& t@.jobs == jobs@.map_values(|j: Job| j@)
                    &&& final(self).as_map() == old(self).as_map().insert(name@, t@)
                },
                Err(e) => {
                    &&& !old(self).as_map().contains_key(name@)
                    &&& e == StoreError::NotFound
                    &&& *final(self) == *old(self)
                },
            },
    {
        if !self.contains(name) {
            return Err(StoreError::NotFound);
        }
        let task = Task::new(String::from_str(name), jobs);
        let out = task.duplicate();
        self.save_task(task);
        Ok(out)
    }

    /// Builds a task from a name and a job list and stores it under the name,
    /// silently replacing any record of that name (creation does not fail on
    /// an existing name; the replacement is wholesale).  Returns the created
    /// task.
    pub fn create_task(&mut self, name: &str, jobs: Vec<Job>) -> (t: Task)
        requires
            old(self).wf(),
        ensures
            final(self).wf(),
            t@.name == name@,
            t@.jobs == jobs@.map_values(|j: Job| j@),
            final(self).as_map() == old(self).as_map().insert(name@, t@),
    {
        let task = Task::new(String::from_str(name), jobs);
        let out = task.duplicate();
        self.save_task(task);
        out
    }

    /// The names of all stored records, one entry per record, in storage
    /// order: exactly the names the store maps, without duplicates.  An empty
    /// store yields an empty list, never an error.
    pub fn list_tasks(&self) -> (names: Vec<String>)
        requires
            self.wf(),
        ensures
            names@.len() == self.records().len(),
            forall|i: int| 0 <= i < names@.len() ==> names@[i]@ == self.records()[i].name,
            forall|i: int|
                0 <= i < names@.len() ==> self.as_map().contains_key(#[trigger] names@[i]@),
            forall|k: Seq<char>|
                self.as_map().contains_key(k) ==> exists|i: int|
                    0 <= i < names@.len() && #[trigger] names@[i]@ == k,
            self.as_map().is_empty() ==> names@.len() == 0,
    {
        let mut names: Vec<String> = Vec::new();
        let mut i: usize = 0;
        while i < self.tasks.len()
            invariant
                i <= self.records().len(),
                names@.len() == i,
                forall|j: int| 0 <= j < i ==> names@[j]@ == self.records()[j].name,
            decreases self.records().len() - i,
        {
            names.push(self.tasks[i].name.clone());
            i = i + 1;
        }
        proof {
            assert forall|j: int|
                0 <= j < names@.len() implies self.as_map().contains_key(#[trigger] names@[j]@) by {
                self.lemma_lookup(j);
            }
            assert forall|k: Seq<char>| self.as_map().contains_key(k) implies exists|j: int|
                0 <= j < names@.len() && #[trigger] names@[j]@ == k by {
                let j = choose|j: int|
                    0 <= j < self.records().len() && self.records()[j].name == k;
                assert(names@[j]@ == k);
            }
            if self.as_map().is_empty() {
                if self.records().len() > 0 {
                    self.lemma_lookup(0);
                    assert(self.as_map().contains_key(self.records()[0].name));
                }
            }
        }
        names
    }
}

/// Whether a file name is a task record's: it carries the record extension.
pub open spec fn is_record_name(name: Seq<char>) -> bool {
    name.len() >= 5 && name.subrange(name.len() - 5, name.len() as int) == ".task"@
}

/// The task names among a list of file names: for each name carrying the
/// record extension, in order, the name with the extension cut off.
pub open spec fn record_stems(files: Seq<Seq<char>>) -> Seq<Seq<char>>
    decreases files.len(),
{
    if files.len() == 0 {
        Seq::empty()
    } else {
        let rest = record_stems(files.drop_last());
        if is_record_name(files.last()) {
            rest.push(files.last().subrange(0, files.last().len() - 5))
        } else {
            rest
        }
    }
}

/// Reads the task names out of a directory listing: exactly the file names
/// with the record extension, each with the extension cut off, in the order
/// given.  A listing with no records yields an empty list, never an error.
pub fn task_names_from_files(files: &Vec<String>) -> (names: Vec<String>)
    ensures
        names@.map_values(|n: String| n@) == record_stems(
            files@.map_values(|f: String| f@),
        ),
{
    let ghost fviews = files@.map_values(|f: String| f@);
    let mut names: Vec<String> = Vec::new();
    let mut i: usize = 0;
    assert(names@.map_values(|n: String| n@) =~= Seq::<Seq<char>>::empty());
    assert(fviews.subrange(0, 0) =~= Seq::<Seq<char>>::empty());
    while i < files.len()
        invariant
            i <= fviews.len(),
            fviews == files@.map_values(|f: String| f@),
            names@.map_values(|n: String| n@) == record_stems(fviews.subrange(0, i as int)),
        decreases fviews.len() - i,
    {
        let f = files[i].as_str();
        let n = f.unicode_len();
        assert(f@ == fviews[i as int]);
        let ghost pre = names@.map_values(|x: String| x@);
        if n >= 5 {
            let suffix = f.substring_char(n - 5, n);
            if str_eq(suffix, ".task") {
                assert(is_record_name(f@));
                let stem = String::from_str(f.substring_char(0, n - 5));
                names.push(stem);
                assert(names@.map_values(|x: String| x@) =~= pre.push(names@.last()@));
            } else {
                assert(!is_record_name(f@));
            }
        } else {
            assert(!is_record_name(f@));
        }
        proof {
            let grown = fviews.subrange(0, i + 1);
            assert(grown.drop_last() =~= fviews.subrange(0, i as int));
            assert(grown.last() == fviews[i as int]);
        }
        i = i + 1;
    }
    assert(fviews.subrange(0, fviews.len() as int) =~= fviews);
    names
}

/// Round trip: creating a task under a name turns the store's map into
/// `insert(name, task)` (`create_task`'s contract), so a load of that name
/// (`load_task`'s contract: the map's value at the name) reads back exactly
/// the jobs the task was created from, in the same order, whatever the store
/// held before.
pub proof fn lemma_create_then_load(
    m: Map<Seq<char>, TaskView>,
    name: Seq<char>,
    jobs: Seq<JobView>,
)
    ensures
        m.insert(name, TaskView { name, jobs }).contains_key(name),
        m.insert(name, TaskView { name, jobs })[name] == (TaskView { name, jobs }),
        m.insert(name, TaskView { name, jobs })[name].jobs == jobs,
{
}

/// Deletion is final: deleting a stored name turns the store's map into
/// `remove(name)` (`delete_task`'s contract), under which the name has no
/// record, so a subsequent load of that name fails with `NotFound`
/// (`load_task`'s contract on absent names).
pub proof fn lemma_delete_then_load(m: Map<Seq<char>, TaskView>, name: Seq<char>)
    ensures
        !m.remove(name).contains_key(name),
{
}

/// Updating replaces wholesale: after an update the store maps the name to
/// exactly the new jobs — never to a merge of old and new — whatever jobs
/// the name held before.
pub proof fn lemma_update_replaces_wholesale(
    m: Map<Seq<char>, TaskView>,
    name: Seq<char>,
    new_jobs: Seq<JobView>,
)
    ensures
        m.insert(name, TaskView { name, jobs: new_jobs })[name].jobs == new_jobs,
{
}

} // verus!
