//! The store of tasks: what it holds, seen as a list in ascending order of
//! identifier, and the operations that every store offers.
use vstd::prelude::*;

use crate::error::Error;
use crate::status::Transition;
use crate::task::{Task, TaskModel};

verus! {

/// What a store holds: its tasks, each under its identifier, in the order in
/// which they are listed, and the identifier that the next task will get.
pub struct StoreModel {
    pub entries: Seq<(usize, TaskModel)>,
    pub next_id: nat,
}

impl StoreModel {
    /// The identifiers ascend strictly along the list, and each is below the
    /// next one to be issued.
    pub open spec fn wf(self) -> bool {
        &&& self.next_id <= usize::MAX
        &&& forall|i: int, j: int|
            0 <= i < j < self.entries.len() ==> (#[trigger] self.entries[i]).0 < (
            #[trigger] self.entries[j]).0
        &&& forall|i: int|
            0 <= i < self.entries.len() ==> (#[trigger] self.entries[i]).0 < self.next_id
    }

    /// A store without tasks that will issue `first` next.
    pub open spec fn empty(first: nat) -> StoreModel {
        StoreModel { entries: Seq::empty(), next_id: first }
    }

    /// How many tasks there are.
    pub open spec fn len(self) -> nat {
        self.entries.len()
    }

    /// The identifiers, in the order of the list.
    pub open spec fn ids(self) -> Seq<usize> {
        Seq::new(self.entries.len(), |i: int| self.entries[i].0)
    }

    /// The tasks, in the order of the list.
    pub open spec fn tasks(self) -> Seq<TaskModel> {
        Seq::new(self.entries.len(), |i: int| self.entries[i].1)
    }

    /// Whether a task is kept under `id`.
    pub open spec fn contains(self, id: usize) -> bool {
        exists|i: int| 0 <= i < self.entries.len() && (#[trigger] self.entries[i]).0 == id
    }

    /// The place in the list of the task kept under `id`.
    pub open spec fn rank(self, id: usize) -> int {
        choose|i: int| 0 <= i < self.entries.len() && (#[trigger] self.entries[i]).0 == id
    }

    /// The task kept under `id`.
    pub open spec fn task(self, id: usize) -> TaskModel {
        self.entries[self.rank(id)].1
    }

    /// The store after a task of the given name was created: the new task
    /// is open, has the next identifier and stands last.
    pub open spec fn created(self, name: Seq<char>) -> StoreModel {
        StoreModel {
            entries: self.entries.push((self.next_id as usize, TaskModel::fresh(name))),
            next_id: self.next_id + 1,
        }
    }

    /// The store after the task under `id` was removed: the others keep
    /// their order, and no identifier is issued again.
    pub open spec fn removed(self, id: usize) -> StoreModel {
        StoreModel { entries: self.entries.remove(self.rank(id)), next_id: self.next_id }
    }

    /// The store after the task under `id` became `task`.
    pub open spec fn replaced(self, id: usize, task: TaskModel) -> StoreModel {
        StoreModel { entries: self.entries.update(self.rank(id), (id, task)), next_id: self.next_id }
    }
}

/// In a well-formed store an identifier stands at one place only: the place
/// where it is found is its rank.
pub proof fn lemma_rank(store: StoreModel, i: int)
    requires
        store.wf(),
        0 <= i < store.entries.len(),
    ensures
        store.contains(store.entries[i].0),
        store.rank(store.entries[i].0) == i,
        store.task(store.entries[i].0) == store.entries[i].1,
{
    let id = store.entries[i].0;
    let r = store.rank(id);
    assert(0 <= r < store.entries.len() && store.entries[r].0 == id);
    if r < i {
        assert(store.entries[r].0 < store.entries[i].0);
    } else if i < r {
        assert(store.entries[i].0 < store.entries[r].0);
    }
}

/// The rank of an identifier that the store holds is a place in its list,
/// and the identifier stands there.
pub proof fn lemma_rank_of_contained(store: StoreModel, id: usize)
    requires
        store.contains(id),
    ensures
        0 <= store.rank(id) < store.entries.len(),
        store.entries[store.rank(id)].0 == id,
{
}

/// Creating a task keeps the store well formed. The new identifier is the
/// one that was next, it is above every identifier in the store, and the
/// new task is found under it, open and last in the list.
pub proof fn lemma_created(store: StoreModel, name: Seq<char>)
    requires
        store.wf(),
        store.next_id < usize::MAX,
    ensures
        store.created(name).wf(),
        store.created(name).len() == store.len() + 1,
        store.created(name).ids() == store.ids().push(store.next_id as usize),
        forall|i: int| 0 <= i < store.len() ==> (#[trigger] store.ids()[i]) < store.next_id,
        store.created(name).contains(store.next_id as usize),
        store.created(name).rank(store.next_id as usize) == store.len(),
        store.created(name).task(store.next_id as usize) == TaskModel::fresh(name),
        !store.contains(store.next_id as usize),
{
    let after = store.created(name);
    assert(after.entries[store.len() as int].0 == store.next_id as usize);
    assert(after.wf());
    assert(after.ids() =~= store.ids().push(store.next_id as usize));
    lemma_rank(after, store.len() as int);
}

/// Removing a task keeps the store well formed: the list is one shorter,
/// the identifier is gone, every other task stays, and the next identifier
/// is what it was.
pub proof fn lemma_removed(store: StoreModel, id: usize)
    requires
        store.wf(),
        store.contains(id),
    ensures
        store.removed(id).wf(),
        store.removed(id).len() == store.len() - 1,
        store.removed(id).next_id == store.next_id,
        !store.removed(id).contains(id),
        forall|other: usize|
            other != id ==> (store.removed(id).contains(other) <==> store.contains(other)),
        forall|other: usize|
            other != id && store.contains(other) ==> store.removed(id).task(other) == store.task(
                other,
            ),
{
    let r = store.rank(id);
    let after = store.removed(id);
    assert forall|i: int, j: int| 0 <= i < j < after.entries.len() implies (
    #[trigger] after.entries[i]).0 < (#[trigger] after.entries[j]).0 by {
        let si = if i < r { i } else { i + 1 };
        let sj = if j < r { j } else { j + 1 };
        assert(after.entries[i] == store.entries[si]);
        assert(after.entries[j] == store.entries[sj]);
    }
    assert forall|i: int| 0 <= i < after.entries.len() implies (#[trigger] after.entries[i]).0
        < after.next_id by {
        let si = if i < r { i } else { i + 1 };
        assert(after.entries[i] == store.entries[si]);
    }
    assert(after.wf());
    if after.contains(id) {
        let i = after.rank(id);
        let si = if i < r { i } else { i + 1 };
        assert(after.entries[i] == store.entries[si]);
        lemma_rank(store, si);
    }
    assert forall|other: usize| other != id implies (after.contains(other) <==> store.contains(
        other,
    )) by {
        if after.contains(other) {
            let i = after.rank(other);
            let si = if i < r { i } else { i + 1 };
            assert(after.entries[i] == store.entries[si]);
        }
        if store.contains(other) {
            let si = store.rank(other);
            let i = if si < r { si } else { si - 1 };
            assert(after.entries[i] == store.entries[si]);
        }
    }
    assert forall|other: usize| other != id && store.contains(other) implies after.task(other)
        == store.task(other) by {
        let si = store.rank(other);
        let i = if si < r { si } else { si - 1 };
        assert(after.entries[i] == store.entries[si]);
        lemma_rank(after, i);
    }
}

/// Replacing a task keeps the store well formed and the identifiers where
/// they were; only the task under `id` is another.
pub proof fn lemma_replaced(store: StoreModel, id: usize, task: TaskModel)
    requires
        store.wf(),
        store.contains(id),
    ensures
        store.replaced(id, task).wf(),
        store.replaced(id, task).ids() == store.ids(),
        store.replaced(id, task).next_id == store.next_id,
        store.replaced(id, task).contains(id),
        store.replaced(id, task).rank(id) == store.rank(id),
        store.replaced(id, task).task(id) == task,
{
    let after = store.replaced(id, task);
    let r = store.rank(id);
    assert forall|i: int| 0 <= i < after.entries.len() implies (#[trigger] after.entries[i]).0
        == store.entries[i].0 by {}
    assert(after.wf());
    assert(after.ids() =~= store.ids());
    lemma_rank(after, r);
}

/// One change of what a store holds.
pub enum Change {
    /// A task of the given name is created.
    Create(Seq<char>),
    /// The task under the given identifier is removed, if there is one.
    Remove(usize),
}

impl StoreModel {
    /// The store after one change. A removal of a task that is not there
    /// changes nothing.
    pub open spec fn after(self, change: Change) -> StoreModel {
        match change {
            Change::Create(name) => self.created(name),
            Change::Remove(id) => if self.contains(id) {
                self.removed(id)
            } else {
                self
            },
        }
    }

    /// The store after the changes, one after the other.
    pub open spec fn after_all(self, changes: Seq<Change>) -> StoreModel
        decreases changes.len(),
    {
        if changes.len() == 0 {
            self
        } else {
            self.after_all(changes.drop_last()).after(changes.last())
        }
    }

    /// How many of the changes create a task.
    pub open spec fn creations(changes: Seq<Change>) -> nat
        decreases changes.len(),
    {
        if changes.len() == 0 {
            0
        } else {
            Self::creations(changes.drop_last()) + (if changes.last() is Create {
                1nat
            } else {
                0nat
            })
        }
    }

    /// How many of the changes remove a task that is there when its turn
    /// comes.
    pub open spec fn removals(self, changes: Seq<Change>) -> nat
        decreases changes.len(),
    {
        if changes.len() == 0 {
            0
        } else {
            self.removals(changes.drop_last()) + (match changes.last() {
                Change::Remove(id) => if self.after_all(changes.drop_last()).contains(id) {
                    1nat
                } else {
                    0nat
                },
                Change::Create(_) => 0nat,
            })
        }
    }
}

/// Whatever tasks are created and removed, in whatever order, the list
/// stays in strictly ascending order of identifier; it holds as many tasks
/// more as were created, less those that were removed; and each creation
/// moves the next identifier up by one, so that tasks created later stand
/// later in the list and no identifier comes back.
pub proof fn lemma_after_all(store: StoreModel, changes: Seq<Change>)
    requires
        store.wf(),
        store.next_id + StoreModel::creations(changes) <= usize::MAX,
    ensures
        store.after_all(changes).wf(),
        store.after_all(changes).len() == store.len() + StoreModel::creations(changes)
            - store.removals(changes),
        store.after_all(changes).next_id == store.next_id + StoreModel::creations(changes),
    decreases changes.len(),
{
    if changes.len() > 0 {
        let before = store.after_all(changes.drop_last());
        lemma_after_all(store, changes.drop_last());
        match changes.last() {
            Change::Create(name) => {
                lemma_created(before, name);
            },
            Change::Remove(id) => {
                if before.contains(id) {
                    lemma_removed(before, id);
                }
            },
        }
    }
}

/// A store of tasks. Each task is kept under an identifier that the store
/// issued when it created the task; identifiers ascend and are not issued
/// twice.
pub trait TodoList: Sized {
    /// The kind of task that the store keeps.
    type Task: Task;

    /// Whether the store is in order.
    spec fn wf(&self) -> bool;

    /// What the store holds.
    spec fn model(&self) -> StoreModel;

    /// A store that is in order holds a well-formed list.
    proof fn lemma_model_wf(&self)
        requires
            self.wf(),
        ensures
            self.model().wf(),
    ;

    /// Creates an open task of the given name under the next identifier
    /// and returns that identifier.
    fn create(&mut self, name: &str) -> (r: Result<usize, Error>)
        requires
            old(self).wf(),
            old(self).model().next_id < usize::MAX,
        ensures
            final(self).wf(),
            r == Ok::<usize, Error>(old(self).model().next_id as usize),
            final(self).model() == old(self).model().created(name@),
    ;

    /// The tasks with their identifiers, in ascending order of identifier.
    fn enumerate(&self) -> (r: Vec<(usize, &Self::Task)>)
        requires
            self.wf(),
        ensures
            r@.len() == self.model().entries.len(),
            forall|i: int|
                0 <= i < r@.len() ==> (#[trigger] r@[i]).0 == self.model().entries[i].0
                    && r@[i].1.model() == self.model().entries[i].1,
    ;

    /// The identifiers, in ascending order.
    fn ids(&self) -> (r: Vec<usize>)
        requires
            self.wf(),
        ensures
            r@ == self.model().ids(),
    {
        let pairs = self.enumerate();
        let mut ids: Vec<usize> = Vec::new();
        for i in 0..pairs.len()
            invariant
                ids@.len() == i,
                pairs@.len() == self.model().entries.len(),
                forall|k: int|
                    0 <= k < pairs@.len() ==> (#[trigger] pairs@[k]).0
                        == self.model().entries[k].0,
                forall|k: int| 0 <= k < i ==> ids@[k] == self.model().entries[k].0,
        {
            ids.push(pairs[i].0);
        }
        assert(ids@ =~= self.model().ids());
        ids
    }

    /// The tasks, in ascending order of identifier.
    fn sorted(&self) -> (r: Vec<&Self::Task>)
        requires
            self.wf(),
        ensures
            r@.len() == self.model().entries.len(),
            forall|i: int|
                0 <= i < r@.len() ==> (#[trigger] r@[i]).model() == self.model().entries[i].1,
    {
        let pairs = self.enumerate();
        let mut tasks: Vec<&Self::Task> = Vec::new();
        for i in 0..pairs.len()
            invariant
                tasks@.len() == i,
                pairs@.len() == self.model().entries.len(),
                forall|k: int|
                    0 <= k < pairs@.len() ==> (#[trigger] pairs@[k]).1.model()
                        == self.model().entries[k].1,
                forall|k: int|
                    0 <= k < i ==> (#[trigger] tasks@[k]).model() == self.model().entries[k].1,
        {
            tasks.push(pairs[i].1);
        }
        tasks
    }

    /// The tasks. They come in ascending order of identifier.
    fn iter(&self) -> (r: Vec<&Self::Task>)
        requires
            self.wf(),
        ensures
            r@.len() == self.model().entries.len(),
            forall|i: int|
                0 <= i < r@.len() ==> (#[trigger] r@[i]).model() == self.model().entries[i].1,
    {
        self.sorted()
    }

    /// Takes the store apart into its tasks. They come in ascending order
    /// of identifier.
    fn into_iter(self) -> (r: Vec<Self::Task>)
        requires
            self.wf(),
        ensures
            r@.len() == self.model().entries.len(),
            forall|i: int|
                0 <= i < r@.len() ==> (#[trigger] r@[i]).model() == self.model().entries[i].1,
    {
        let mut store = self;
        let ids = store.ids();
        let mut tasks: Vec<Self::Task> = Vec::new();
        for i in 0..ids.len()
            invariant
                store.wf(),
                ids@ == self.model().ids(),
                store.model().entries == self.model().entries.skip(i as int),
                tasks@.len() == i,
                forall|k: int|
                    0 <= k < i ==> (#[trigger] tasks@[k]).model() == self.model().entries[k].1,
        {
            proof {
                store.lemma_model_wf();
                assert(store.model().entries[0] == self.model().entries[i as int]);
                lemma_rank(store.model(), 0);
                assert(store.model().entries.remove(0) =~= self.model().entries.skip(i + 1));
            }
            match store.remove(ids[i]) {
                Ok(task) => {
                    tasks.push(task);
                },
                Err(_) => {
                    vstd::pervasive::unreached()
                },
            }
        }
        tasks
    }

    /// The task kept under `id`; `NoSuchTask` where there is none.
    fn find(&self, id: usize) -> (r: Result<&Self::Task, Error>)
        requires
            self.wf(),
        ensures
            match r {
                Ok(task) => self.model().contains(id) && task.model() == self.model().task(id),
                Err(e) => e == Error::NoSuchTask && !self.model().contains(id),
            },
    ;

    /// The task kept under `id`, to be changed in place; `NoSuchTask` where
    /// there is none. The store then holds whatever the task has become, and
    /// stays in order as long as the task only changed its status.
    fn find_mut(&mut self, id: usize) -> (r: Result<&mut Self::Task, Error>)
        requires
            old(self).wf(),
        ensures
            match r {
                Ok(task) => old(self).model().contains(id) && task.model() == old(self).model().task(id) && final(self).model() == old(self).model().replaced(
                    id,
                    final(task).model(),
                ) && (final(task).follows(task) ==> final(self).wf()),
                Err(e) => e == Error::NoSuchTask && !old(self).model().contains(id) && final(self).wf() && final(self).model() == old(self).model(),
            },
    ;

    /// Makes a move of the status of the task kept under `id`. It fails
    /// with `NoSuchTask` where there is no such task, and with
    /// `AlreadyDone` or `AlreadyWont` where the status has no such move;
    /// the store is then unchanged.
    fn apply(&mut self, id: usize, transition: Transition) -> (r: Result<(), Error>)
        requires
            old(self).wf(),
        ensures
            final(self).wf(),
            if !old(self).model().contains(id) {
                r == Err::<(), Error>(Error::NoSuchTask) && final(self).model() == old(
                    self,
                ).model()
            } else {
                match old(self).model().task(id).moved(transition) {
                    Some(changed) => r == Ok::<(), Error>(()) && final(self).model() == old(
                        self,
                    ).model().replaced(id, changed),
                    None => r == Err::<(), Error>(transition.refusal()) && final(self).model()
                        == old(self).model(),
                }
            },
    {
        match self.find_mut(id) {
            Ok(task) => {
                let moved = match transition {
                    Transition::Advance => task.goto_next_status(),
                    Transition::Retreat => task.goto_next_back_status(),
                };
                proof {
                    let before = old(self).model();
                    if moved is Err {
                        lemma_rank_of_contained(before, id);
                        assert(before.replaced(id, before.task(id)).entries =~= before.entries);
                    }
                }
                moved
            },
            Err(e) => Err(e),
        }
    }

    /// Takes the task kept under `id` out of the store and returns it;
    /// `NoSuchTask` where there is none, and the store is then unchanged.
    fn remove(&mut self, id: usize) -> (r: Result<Self::Task, Error>)
        requires
            old(self).wf(),
        ensures
            final(self).wf(),
            match r {
                Ok(task) => old(self).model().contains(id) && task.model() == old(self).model().task(id) && final(self).model() == old(self).model().removed(id),
                Err(e) => e == Error::NoSuchTask && !old(self).model().contains(id) && final(self).model() == old(self).model(),
            },
    ;
}

} // verus!
