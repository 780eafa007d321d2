//! The store that keeps each task in a file of its own.
//!
//! This module holds everything about that store but the reading and the
//! writing: which file a task belongs to, what the file holds, which
//! identifier comes next, and what the store keeps in memory. Its caller
//! lists the directory and reads the files before the store is made, and
//! writes or deletes a file before the store takes a change in.
use std::collections::hash_map::Entry;
use std::collections::HashMap;
use vstd::prelude::*;

use crate::codec::{decode, decoded, encode, encoded, file_path, parse_id, parsed_id, path_of};
use crate::error::Error;
use crate::store::{lemma_rank, StoreModel, TodoList};
use crate::task::{BasicTask, Task, TaskModel};

verus! {

broadcast use vstd::std_specs::hash::group_hash_axioms;

/// A file to be written: where, and what.
#[derive(Debug)]
pub struct FileWrite {
    pub file_name: String,
    pub content: String,
}

/// A task with the file that keeps it.
pub struct FileTask<T: Task = BasicTask> {
    file_name: String,
    inner: T,
}

impl<T: Task> FileTask<T> {
    /// Where the file of the task is found.
    pub closed spec fn path(&self) -> Seq<char> {
        self.file_name@
    }

    /// The task `inner`, kept in the file `file_name`.
    pub fn new(inner: T, file_name: String) -> (r: FileTask<T>)
        ensures
            r.model() == inner.model(),
            r.path() == file_name@,
    {
        FileTask { file_name, inner }
    }

    /// Where the file of the task is found.
    pub fn file_name(&self) -> (r: &str)
        ensures
            r@ == self.path(),
    {
        self.file_name.as_str()
    }

    /// What is to be written to keep the task as it is now: its name and
    /// the name of its status, in its own file.
    pub fn save(&self) -> (r: FileWrite)
        ensures
            r.file_name@ == self.path(),
            r.content@ == encoded(self.model()),
    {
        let plain = self.inner.projection();
        FileWrite { file_name: self.file_name.clone(), content: encode(&plain) }
    }

    /// What the caller is told once the file was written, or was not: a
    /// failure of the writing comes back as `External`, with its cause.
    pub fn save_map_err(&self, saved: Result<(), String>) -> (r: Result<(), Error>)
        ensures
            r == (match saved {
                Ok(()) => Ok::<(), Error>(()),
                Err(cause) => Err(Error::External(cause)),
            }),
    {
        match saved {
            Ok(()) => Ok(()),
            Err(cause) => Err(Error::External(cause)),
        }
    }
}

impl<T: Task> Task for FileTask<T> {
    closed spec fn model(&self) -> TaskModel {
        self.inner.model()
    }

    closed spec fn follows(&self, before: &Self) -> bool {
        self.file_name@ == before.file_name@ && self.inner.follows(&before.inner)
    }

    fn goto_next_status(&mut self) -> (r: Result<(), Error>) {
        self.inner.goto_next_status()
    }

    fn goto_next_back_status(&mut self) -> (r: Result<(), Error>) {
        self.inner.goto_next_back_status()
    }

    fn projection(&self) -> (r: BasicTask) {
        self.inner.projection()
    }
}

/// Whether the identifiers ascend strictly.
pub open spec fn ascending(ids: Seq<usize>) -> bool {
    forall|i: int, j: int| 0 <= i < j < ids.len() ==> ids[i] < ids[j]
}

/// Whether no identifier is below one that stands before it.
pub open spec fn sorted(ids: Seq<usize>) -> bool {
    forall|i: int, j: int| 0 <= i < j < ids.len() ==> ids[i] <= ids[j]
}

/// The identifiers that the names of a directory's files stand for, in the
/// order of the names; a name that stands for none is passed over.
pub open spec fn named_ids(names: Seq<String>) -> Seq<usize>
    decreases names.len(),
{
    if names.len() == 0 {
        Seq::empty()
    } else {
        match parsed_id(names.last()@) {
            Some(id) => named_ids(names.drop_last()).push(id),
            None => named_ids(names.drop_last()),
        }
    }
}

/// The identifier that a store issues first when it starts with the given
/// ones: one above the last, or 1 where there is none.
pub open spec fn first_free(ids: Seq<usize>) -> nat {
    if ids.len() == 0 {
        1
    } else {
        (ids.last() + 1) as nat
    }
}

/// Whether each of the contents stands for a task.
pub open spec fn all_decode(contents: Seq<String>) -> bool {
    forall|i: int| 0 <= i < contents.len() ==> decoded(#[trigger] contents[i]@) is Some
}

/// The tasks that the contents stand for, each under its identifier.
pub open spec fn loaded(ids: Seq<usize>, contents: Seq<String>) -> Seq<(usize, TaskModel)> {
    Seq::new(ids.len(), |i: int| (ids[i], decoded(contents[i]@)->0))
}

/// What a store is told where the content of a file stands for no task.
pub open spec fn malformed_text() -> Seq<char> {
    "The task file is malformed"@
}

/// The identifiers that the names of a directory's files stand for, in
/// ascending order. A name that stands for none is passed over.
pub fn ids(names: &Vec<String>) -> (r: Vec<usize>)
    ensures
        sorted(r@),
        r@.to_multiset() == named_ids(names@).to_multiset(),
{
    let mut found: Vec<usize> = Vec::new();
    for n in 0..names.len()
        invariant
            sorted(found@),
            found@.to_multiset() == named_ids(names@.take(n as int)).to_multiset(),
    {
        proof {
            assert(names@.take(n + 1).drop_last() =~= names@.take(n as int));
            assert(names@.take(n + 1).last() == names@[n as int]);
        }
        match parse_id(names[n].as_str()) {
            Some(id) => {
                let mut at: usize = 0;
                while at < found.len() && found[at] <= id
                    invariant
                        at <= found.len(),
                        forall|k: int| 0 <= k < at ==> found@[k] <= id,
                    decreases found.len() - at,
                {
                    at = at + 1;
                }
                let ghost before = found@;
                found.insert(at, id);
                proof {
                    broadcast use vstd::seq_lib::group_to_multiset_ensures;

                    assert(found@.remove(at as int) =~= before);
                    assert(found@[at as int] == id);
                    assert(found@.to_multiset() =~= before.to_multiset().insert(id));
                    assert(named_ids(names@.take(n as int)).push(id).to_multiset()
                        =~= named_ids(names@.take(n as int)).to_multiset().insert(id));
                }
            },
            None => {},
        }
    }
    proof {
        assert(names@.take(names@.len() as int) =~= names@);
    }
    found
}

/// Whether the identifiers ascend strictly, so that none occurs twice.
pub fn is_ascending(ids: &Vec<usize>) -> (r: bool)
    ensures
        r == ascending(ids@),
{
    if ids.len() < 2 {
        return true;
    }
    let mut ok = true;
    for i in 1..ids.len()
        invariant
            ids@.len() >= 2,
            ok ==> forall|a: int, b: int| 0 <= a < b <= i - 1 ==> ids@[a] < ids@[b],
            !ok ==> !ascending(ids@),
    {
        if ids[i - 1] >= ids[i] {
            ok = false;
        } else if ok {
            assert forall|a: int, b: int| 0 <= a < b <= i implies ids@[a] < ids@[b] by {
                if b == i && a < i - 1 {
                    assert(ids@[a] < ids@[i - 1]);
                }
            }
        }
    }
    ok
}

/// The place of `id` among ascending identifiers, if it is one of them.
fn rank_in(ids: &Vec<usize>, id: usize) -> (r: Option<usize>)
    requires
        ascending(ids@),
    ensures
        match r {
            Some(rank) => rank < ids@.len() && ids@[rank as int] == id,
            None => !ids@.contains(id),
        },
{
    let mut low: usize = 0;
    let mut high: usize = ids.len();
    while low < high
        invariant
            low <= high <= ids@.len(),
            ascending(ids@),
            forall|k: int| 0 <= k < low ==> ids@[k] < id,
            forall|k: int| high <= k < ids@.len() ==> ids@[k] > id,
        decreases high - low,
    {
        let mid = low + (high - low) / 2;
        let at = ids[mid];
        if at == id {
            return Some(mid);
        } else if at < id {
            low = mid + 1;
        } else {
            high = mid;
        }
    }
    assert forall|k: int| 0 <= k < ids@.len() implies ids@[k] != id by {}
    None
}

/// The tasks kept under the given identifiers, in their order.
spec fn entries_of(ids: Seq<usize>, cache: Map<usize, FileTask<BasicTask>>) -> Seq<
    (usize, TaskModel),
> {
    Seq::new(ids.len(), |i: int| (ids[i], cache[ids[i]].model()))
}

/// The identifiers ascend below the next one, a task is kept under each of
/// them and under no other, and each task has its own file in the directory.
spec fn in_order(
    dir: Seq<char>,
    ids: Seq<usize>,
    cache: Map<usize, FileTask<BasicTask>>,
    next_id: usize,
) -> bool {
    &&& ascending(ids)
    &&& forall|i: int|
        0 <= i < ids.len() ==> (#[trigger] ids[i]) < next_id && cache.contains_key(ids[i])
    &&& forall|id: usize| #[trigger]
        cache.contains_key(id) ==> ids.contains(id) && cache[id].path() == file_path(dir, id)
}

/// A task that changed its status alone leaves the store in order, and its
/// list as it was but for that task.
proof fn lemma_task_changed(
    dir: Seq<char>,
    ids: Seq<usize>,
    cache: Map<usize, FileTask<BasicTask>>,
    next_id: usize,
    rank: int,
    changed: FileTask<BasicTask>,
)
    requires
        in_order(dir, ids, cache, next_id),
        0 <= rank < ids.len(),
    ensures
        entries_of(ids, cache.insert(ids[rank], changed)) == entries_of(ids, cache).update(
            rank,
            (ids[rank], changed.model()),
        ),
        changed.follows(&cache[ids[rank]]) ==> in_order(
            dir,
            ids,
            cache.insert(ids[rank], changed),
            next_id,
        ),
{
    let id = ids[rank];
    let after = cache.insert(id, changed);
    assert forall|i: int| 0 <= i < ids.len() implies entries_of(ids, after)[i] == entries_of(
        ids,
        cache,
    ).update(rank, (id, changed.model()))[i] by {
        if i < rank {
            assert(ids[i] < ids[rank]);
        } else if i > rank {
            assert(ids[rank] < ids[i]);
        }
    }
    assert(entries_of(ids, after) =~= entries_of(ids, cache).update(rank, (id, changed.model())));
}

/// A store that keeps each task in a file of its own, in one directory.
/// The file is named by the task's identifier; identifiers start at 1.
pub struct FileTodoList {
    dir: String,
    cache: HashMap<usize, FileTask<BasicTask>>,
    ids: Vec<usize>,
    next_id: usize,
}

impl FileTodoList {
    /// The directory of the files.
    pub closed spec fn dir(&self) -> Seq<char> {
        self.dir@
    }

    /// The identifiers that the store knows of.
    pub closed spec fn known(&self) -> Seq<usize> {
        self.ids@
    }

    /// The identifier that the next task will get.
    pub closed spec fn free(&self) -> nat {
        self.next_id as nat
    }

    /// The store knows which tasks there are, and holds none of them yet.
    pub closed spec fn pending(&self) -> bool {
        &&& ascending(self.ids@)
        &&& forall|i: int| 0 <= i < self.ids@.len() ==> self.ids@[i] < self.next_id
        &&& forall|id: usize| !self.cache@.contains_key(id)
    }

    /// The tasks that the store holds, each under its identifier.
    closed spec fn entries(&self) -> Seq<(usize, TaskModel)> {
        entries_of(self.ids@, self.cache@)
    }

    /// A store for the directory `dir` in which the tasks under `ids` were
    /// found, before any of them is loaded.
    pub fn scanned(dir: &str, ids: Vec<usize>) -> (r: FileTodoList)
        requires
            ascending(ids@),
            first_free(ids@) <= usize::MAX,
        ensures
            r.pending(),
            r.dir() == dir@,
            r.known() == ids@,
            r.free() == first_free(ids@),
    {
        let next_id = if ids.len() == 0 {
            1
        } else {
            ids[ids.len() - 1] + 1
        };
        proof {
            assert forall|i: int| 0 <= i < ids@.len() implies ids@[i] < next_id by {
                if i < ids@.len() - 1 {
                    assert(ids@[i] < ids@[ids@.len() - 1]);
                }
            }
        }
        FileTodoList { dir: String::from_str(dir), cache: HashMap::new(), ids, next_id }
    }

    /// A store for the directory `dir`, filled with the tasks that were
    /// found there: `ids` are their identifiers and `contents` what their
    /// files hold, in the same order. It fails, with `External`, where the
    /// content of a file stands for no task.
    pub fn new(dir: &str, ids: Vec<usize>, contents: &Vec<String>) -> (r: Result<
        FileTodoList,
        Error,
    >)
        requires
            ascending(ids@),
            first_free(ids@) <= usize::MAX,
            contents@.len() == ids@.len(),
        ensures
            match r {
                Ok(list) => all_decode(contents@) && list.wf() && list.dir() == dir@
                    && list.model() == (StoreModel {
                    entries: loaded(ids@, contents@),
                    next_id: first_free(ids@),
                }),
                Err(e) => !all_decode(contents@) && (e matches Error::External(cause) && cause@
                    == malformed_text()),
            },
    {
        let mut list = FileTodoList::scanned(dir, ids);
        match list.load_all(contents) {
            Ok(()) => Ok(list),
            Err(e) => Err(e),
        }
    }

    /// Takes in the tasks that the store knows of: `contents` holds what
    /// their files hold, in the order of their identifiers. It fails, with
    /// `External`, where the content of a file stands for no task; the
    /// store then holds none.
    pub fn load_all(&mut self, contents: &Vec<String>) -> (r: Result<(), Error>)
        requires
            old(self).pending(),
            contents@.len() == old(self).known().len(),
        ensures
            final(self).dir() == old(self).dir(),
            final(self).known() == old(self).known(),
            final(self).free() == old(self).free(),
            match r {
                Ok(()) => all_decode(contents@) && final(self).wf() && final(self).model()
                    == (StoreModel {
                    entries: loaded(old(self).known(), contents@),
                    next_id: old(self).free(),
                }),
                Err(e) => !all_decode(contents@) && final(self).pending() && (
                e matches Error::External(cause) && cause@ == malformed_text()),
            },
    {
        let mut cache: HashMap<usize, FileTask<BasicTask>> = HashMap::new();
        for i in 0..self.ids.len()
            invariant
                *self == *old(self),
                self.pending(),
                contents@.len() == self.ids@.len(),
                forall|k: int| 0 <= k < i ==> decoded(#[trigger] contents@[k]@) is Some,
                forall|k: int|
                    0 <= k < i ==> cache@.contains_key(#[trigger] self.ids@[k])
                        && cache@[self.ids@[k]].model() == decoded(contents@[k]@)->0
                        && cache@[self.ids@[k]].path() == file_path(self.dir@, self.ids@[k]),
                forall|id: usize|
                    cache@.contains_key(id) ==> exists|k: int|
                        0 <= k < i && #[trigger] self.ids@[k] == id,
        {
            let id = self.ids[i];
            match FileTodoList::load(self.dir.as_str(), id, contents[i].as_str()) {
                Ok(task) => {
                    let ghost before = cache@;
                    cache.insert(id, task);
                    proof {
                        assert forall|k: int| 0 <= k < i + 1 implies cache@.contains_key(
                            #[trigger] self.ids@[k],
                        ) && cache@[self.ids@[k]].model() == decoded(contents@[k]@)->0
                            && cache@[self.ids@[k]].path() == file_path(
                            self.dir@,
                            self.ids@[k],
                        ) by {
                            if k < i {
                                assert(self.ids@[k] < self.ids@[i as int]);
                            }
                        }
                        assert forall|other: usize| cache@.contains_key(other) implies exists|
                            k: int,
                        |
                            0 <= k < i + 1 && #[trigger] self.ids@[k] == other by {
                            if other == id {
                                assert(self.ids@[i as int] == id);
                            } else {
                                assert(before.contains_key(other));
                                let k = choose|k: int| 0 <= k < i && #[trigger] self.ids@[k] == other;
                                assert(self.ids@[k] == other);
                            }
                        }
                    }
                },
                Err(e) => {
                    return Err(e);
                },
            }
        }
        self.cache = cache;
        proof {
            assert forall|id: usize| self.cache@.contains_key(id) implies self.ids@.contains(id) by {
                let k = choose|k: int| 0 <= k < self.ids@.len() && #[trigger] self.ids@[k] == id;
                assert(self.ids@[k] == id);
            }
            assert(self.model().entries =~= loaded(old(self).known(), contents@));
        }
        Ok(())
    }

    /// Where the file of the task under `id` is found, below `dir`: its
    /// name is the identifier in decimal, at least five digits wide.
    pub fn file_name(dir: &str, id: usize) -> (r: String)
        ensures
            r@ == file_path(dir@, id),
    {
        path_of(dir, id)
    }

    /// The task under `id` as the content of its file gives it, with the
    /// file that keeps it; `External` where the content stands for no task.
    pub fn load(dir: &str, id: usize, content: &str) -> (r: Result<FileTask<BasicTask>, Error>)
        ensures
            match r {
                Ok(task) => decoded(content@) == Some(task.model()) && task.path() == file_path(
                    dir@,
                    id,
                ),
                Err(e) => decoded(content@) is None && (e matches Error::External(cause) && cause@
                    == malformed_text()),
            },
    {
        match decode(content) {
            Some(inner) => Ok(FileTask::new(inner, FileTodoList::file_name(dir, id))),
            None => Err(Error::External(String::from_str("The task file is malformed"))),
        }
    }

    /// The directory of the files.
    pub fn directory(&self) -> (r: &str)
        ensures
            r@ == self.dir(),
    {
        self.dir.as_str()
    }

    /// The identifier that the next task will get.
    pub fn next_id(&self) -> (r: usize)
        requires
            self.wf(),
        ensures
            r == self.model().next_id,
    {
        self.next_id
    }

    /// The file that is to be written before a task of the given name is
    /// created: the file of the next identifier, for an open task.
    pub fn creation(&self, name: &str) -> (r: FileWrite)
        requires
            self.wf(),
        ensures
            r.file_name@ == file_path(self.dir(), self.model().next_id as usize),
            r.content@ == encoded(TaskModel::fresh(name@)),
    {
        let task = FileTask::new(
            BasicTask::new(name),
            FileTodoList::file_name(self.dir.as_str(), self.next_id),
        );
        task.save()
    }

    /// The file that is to be written once the task under `id` has changed,
    /// so that it keeps the task as it is now; `NoSuchTask` where the store
    /// holds no such task.
    pub fn saving(&self, id: usize) -> (r: Result<FileWrite, Error>)
        requires
            self.wf(),
        ensures
            match r {
                Ok(file) => self.model().contains(id) && file.file_name@ == file_path(
                    self.dir(),
                    id,
                ) && file.content@ == encoded(self.model().task(id)),
                Err(e) => e == Error::NoSuchTask && !self.model().contains(id),
            },
    {
        match self.find(id) {
            Ok(task) => Ok(task.save()),
            Err(e) => Err(e),
        }
    }

    /// The file that is to be deleted before the task under `id` is
    /// removed; `NoSuchTask` where the store holds no such task.
    pub fn removal(&self, id: usize) -> (r: Result<String, Error>)
        requires
            self.wf(),
        ensures
            match r {
                Ok(file_name) => self.model().contains(id) && file_name@ == file_path(
                    self.dir(),
                    id,
                ),
                Err(e) => e == Error::NoSuchTask && !self.model().contains(id),
            },
    {
        proof {
            self.lemma_lookup(id);
        }
        if self.cache.contains_key(&id) {
            Ok(FileTodoList::file_name(self.dir.as_str(), id))
        } else {
            Err(Error::NoSuchTask)
        }
    }

    /// The store's list holds an identifier where the store holds a task
    /// under it, and that task.
    proof fn lemma_lookup(&self, id: usize)
        requires
            self.wf(),
        ensures
            self.model().wf(),
            self.model().contains(id) <==> self.cache@.contains_key(id),
            self.model().contains(id) ==> self.model().task(id) == self.cache@[id].model()
                && 0 <= self.model().rank(id) < self.ids@.len() && self.ids@[self.model().rank(
                id,
            )] == id,
    {
        let list = self.model().entries;
        if self.model().contains(id) {
            lemma_rank(self.model(), self.model().rank(id));
        }
        if self.cache@.contains_key(id) {
            assert(self.ids@.contains(id));
            let i = choose|i: int| 0 <= i < self.ids@.len() && self.ids@[i] == id;
            assert(list[i].0 == id);
            lemma_rank(self.model(), i);
        }
    }
}

impl TodoList for FileTodoList {
    type Task = FileTask<BasicTask>;

    closed spec fn wf(&self) -> bool {
        in_order(self.dir@, self.ids@, self.cache@, self.next_id)
    }

    closed spec fn model(&self) -> StoreModel {
        StoreModel { entries: self.entries(), next_id: self.next_id as nat }
    }

    proof fn lemma_model_wf(&self) {
    }

    fn create(&mut self, name: &str) -> (r: Result<usize, Error>)
        ensures
            final(self).dir() == old(self).dir(),
    {
        let id = self.next_id;
        let new_task = FileTask::new(
            BasicTask::new(name),
            FileTodoList::file_name(self.dir.as_str(), id),
        );
        proof {
            if self.cache@.contains_key(id) {
                assert(self.ids@.contains(id));
            }
        }
        self.cache.insert(id, new_task);
        self.ids.push(id);
        self.next_id = id + 1;
        proof {
            assert forall|other: usize| #[trigger]
                self.cache@.contains_key(other) implies self.ids@.contains(other)
                && self.cache@[other].path() == file_path(self.dir@, other) by {
                if other == id {
                    assert(self.ids@[self.ids@.len() - 1] == id);
                } else {
                    assert(old(self).ids@.contains(other));
                    let i = choose|i: int| 0 <= i < old(self).ids@.len() && old(self).ids@[i] == other;
                    assert(self.ids@[i] == other);
                }
            }
            assert(self.model().entries =~= old(self).model().created(name@).entries);
        }
        Ok(id)
    }

    fn enumerate(&self) -> (r: Vec<(usize, &FileTask<BasicTask>)>)
        ensures
            forall|i: int| 0 <= i < r@.len() ==> (#[trigger] r@[i]).1.path() == file_path(
                self.dir(),
                r@[i].0,
            ),
    {
        let mut listed: Vec<(usize, &FileTask<BasicTask>)> = Vec::new();
        for i in 0..self.ids.len()
            invariant
                self.wf(),
                listed@.len() == i,
                forall|k: int|
                    0 <= k < i ==> (#[trigger] listed@[k]).0 == self.ids@[k] && *listed@[k].1
                        == self.cache@[self.ids@[k]],
        {
            let id = self.ids[i];
            match self.cache.get(&id) {
                Some(task) => {
                    listed.push((id, task));
                },
                None => {
                    proof {
                        assert(self.cache@.contains_key(self.ids@[i as int]));
                    }
                    vstd::pervasive::unreached()
                },
            }
        }
        listed
    }

    fn find(&self, id: usize) -> (r: Result<&FileTask<BasicTask>, Error>)
        ensures
            r matches Ok(task) ==> task.path() == file_path(self.dir(), id),
    {
        proof {
            self.lemma_lookup(id);
        }
        match self.cache.get(&id) {
            Some(task) => Ok(task),
            None => Err(Error::NoSuchTask),
        }
    }

    fn find_mut(&mut self, id: usize) -> (r: Result<&mut FileTask<BasicTask>, Error>)
        ensures
            final(self).dir() == old(self).dir(),
            r matches Ok(task) ==> task.path() == file_path(old(self).dir(), id),
    {
        proof {
            self.lemma_lookup(id);
        }
        match self.cache.entry(id) {
            Entry::Occupied(entry) => {
                let task = entry.into_mut();
                proof {
                    lemma_task_changed(
                        old(self).dir@,
                        old(self).ids@,
                        old(self).cache@,
                        old(self).next_id,
                        old(self).model().rank(id),
                        *final(task),
                    );
                }
                Ok(task)
            },
            Entry::Vacant(_) => {
                proof {
                    assert(old(self).cache@.remove(id) =~= old(self).cache@);
                }
                Err(Error::NoSuchTask)
            },
        }
    }

    fn remove(&mut self, id: usize) -> (r: Result<FileTask<BasicTask>, Error>)
        ensures
            final(self).dir() == old(self).dir(),
            r matches Ok(task) ==> task.path() == file_path(old(self).dir(), id),
    {
        proof {
            self.lemma_lookup(id);
        }
        let rank = match rank_in(&self.ids, id) {
            Some(rank) => rank,
            None => {
                return Err(Error::NoSuchTask);
            },
        };
        proof {
            lemma_rank(self.model(), rank as int);
        }
        self.ids.remove(rank);
        match self.cache.remove(&id) {
            Some(task) => {
                proof {
                    let before = old(self).ids@;
                    assert forall|i: int, j: int| 0 <= i < j < self.ids@.len() implies self.ids@[i]
                        < self.ids@[j] by {
                        let si = if i < rank { i } else { i + 1 };
                        let sj = if j < rank { j } else { j + 1 };
                        assert(before[si] < before[sj]);
                    }
                    assert forall|i: int| 0 <= i < self.ids@.len() implies (#[trigger] self.ids@[i])
                        < self.next_id && self.cache@.contains_key(self.ids@[i]) by {
                        let si = if i < rank { i } else { i + 1 };
                        assert(self.ids@[i] == before[si]);
                        if si < rank {
                            assert(before[si] < before[rank as int]);
                        } else {
                            assert(before[rank as int] < before[si]);
                        }
                    }
                    assert forall|other: usize| #[trigger]
                        self.cache@.contains_key(other) implies self.ids@.contains(other)
                        && self.cache@[other].path() == file_path(self.dir@, other) by {
                        assert(before.contains(other));
                        let si = choose|i: int| 0 <= i < before.len() && before[i] == other;
                        let i = if si < rank { si } else { si - 1 };
                        assert(self.ids@[i] == other);
                    }
                    assert(self.model().entries =~= old(self).model().removed(id).entries) by {
                        assert forall|i: int| 0 <= i < self.ids@.len() implies self.model().entries[i]
                            == old(self).model().entries.remove(rank as int)[i] by {
                            let si = if i < rank { i } else { i + 1 };
                            assert(self.ids@[i] == before[si]);
                            if si < rank {
                                assert(before[si] < before[rank as int]);
                            } else {
                                assert(before[rank as int] < before[si]);
                            }
                        }
                    }
                }
                Ok(task)
            },
            None => {
                proof {
                    assert(old(self).cache@.contains_key(old(self).ids@[rank as int]));
                }
                vstd::pervasive::unreached()
            },
        }
    }
}

} // verus!
