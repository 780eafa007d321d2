//! The store that keeps its tasks in memory and nowhere else.
use vec_map::VecMap;
use vstd::prelude::*;

use crate::error::Error;
use crate::store::{lemma_rank, lemma_removed, StoreModel, TodoList};
use crate::task::{BasicTask, Task, TaskModel};
use crate::vecmap::{get, get_mut, held, insert, new_map, pairs, remove};

verus! {

/// The tasks that `map` holds under keys below `bound`, in ascending order
/// of the keys.
pub open spec fn listed(map: Map<usize, BasicTask>, bound: nat) -> Seq<(usize, TaskModel)>
    decreases bound,
{
    if bound == 0 {
        Seq::empty()
    } else {
        let key = (bound - 1) as usize;
        if map.contains_key(key) {
            listed(map, (bound - 1) as nat).push((key, map[key]@))
        } else {
            listed(map, (bound - 1) as nat)
        }
    }
}

/// Whether `list` holds, in ascending order of the keys and once each, the
/// tasks that `map` holds under keys below `bound`, and nothing else.
pub open spec fn lists(list: Seq<(usize, TaskModel)>, map: Map<usize, BasicTask>, bound: nat) -> bool {
    &&& forall|i: int, j: int|
        0 <= i < j < list.len() ==> (#[trigger] list[i]).0 < (#[trigger] list[j]).0
    &&& forall|i: int|
        0 <= i < list.len() ==> (#[trigger] list[i]).0 < bound && map.contains_key(list[i].0)
            && list[i].1 == map[list[i].0]@
    &&& forall|key: usize|
        key < bound && map.contains_key(key) ==> exists|i: int|
            0 <= i < list.len() && (#[trigger] list[i]).0 == key
}

/// `listed` is such a list.
pub proof fn lemma_listed_lists(map: Map<usize, BasicTask>, bound: nat)
    requires
        bound <= usize::MAX + 1,
    ensures
        lists(listed(map, bound), map, bound),
    decreases bound,
{
    if bound > 0 {
        let below = (bound - 1) as nat;
        let key = below as usize;
        let rest = listed(map, below);
        let list = listed(map, bound);
        lemma_listed_lists(map, below);
        assert forall|k: usize| k < bound && map.contains_key(k) implies exists|i: int|
            0 <= i < list.len() && (#[trigger] list[i]).0 == k by {
            if k == key {
                assert(list[list.len() - 1].0 == key);
            } else {
                let i = choose|i: int| 0 <= i < rest.len() && (#[trigger] rest[i]).0 == k;
                assert(list[i].0 == k);
            }
        }
    }
}

/// There is one such list only.
pub proof fn lemma_lists_once(
    a: Seq<(usize, TaskModel)>,
    b: Seq<(usize, TaskModel)>,
    map: Map<usize, BasicTask>,
    bound: nat,
)
    requires
        lists(a, map, bound),
        lists(b, map, bound),
    ensures
        a == b,
    decreases a.len(),
{
    if a.len() == 0 {
        if b.len() > 0 {
            let key = b[0].0;
            let i = choose|i: int| 0 <= i < a.len() && (#[trigger] a[i]).0 == key;
        }
        assert(a =~= b);
    } else {
        let top = a.last().0;
        let j = choose|j: int| 0 <= j < b.len() && (#[trigger] b[j]).0 == top;
        if j < b.len() - 1 {
            let over = b.last().0;
            assert(b[j].0 < b[b.len() - 1].0);
            let i = choose|i: int| 0 <= i < a.len() && (#[trigger] a[i]).0 == over;
            if i < a.len() - 1 {
                assert(a[i].0 < a[a.len() - 1].0);
            }
        }
        let a0 = a.drop_last();
        let b0 = b.drop_last();
        assert forall|i: int| 0 <= i < a0.len() implies (#[trigger] a0[i]).0 < top by {
            assert(a[i].0 < a[a.len() - 1].0);
        }
        assert forall|i: int| 0 <= i < b0.len() implies (#[trigger] b0[i]).0 < top by {
            assert(b[i].0 < b[b.len() - 1].0);
        }
        assert forall|key: usize| key < top && map.contains_key(key) implies exists|i: int|
            0 <= i < a0.len() && (#[trigger] a0[i]).0 == key by {
            let i = choose|i: int| 0 <= i < a.len() && (#[trigger] a[i]).0 == key;
            assert(a0[i].0 == key);
        }
        assert forall|key: usize| key < top && map.contains_key(key) implies exists|i: int|
            0 <= i < b0.len() && (#[trigger] b0[i]).0 == key by {
            let i = choose|i: int| 0 <= i < b.len() && (#[trigger] b[i]).0 == key;
            assert(b0[i].0 == key);
        }
        assert(lists(a0, map, top as nat));
        assert(lists(b0, map, top as nat));
        lemma_lists_once(a0, b0, map, top as nat);
        assert(a =~= a0.push(a.last()));
        assert(b =~= b0.push(b.last()));
    }
}

/// A store that keeps its tasks in memory. Its identifiers start at 0.
pub struct FakeTodoList {
    tasks: VecMap<BasicTask>,
    next_id: usize,
}

impl FakeTodoList {
    /// A store without tasks.
    pub fn new() -> (r: FakeTodoList)
        ensures
            r.wf(),
            r.model() == StoreModel::empty(0),
    {
        let r = FakeTodoList { tasks: new_map(), next_id: 0 };
        proof {
            reveal_with_fuel(listed, 1);
            assert(r.model().entries =~= Seq::empty());
        }
        r
    }

    /// The identifier that the next task will get.
    pub fn next_id(&self) -> (r: usize)
        ensures
            r == self.model().next_id,
    {
        self.next_id
    }

    /// The store's list holds an identifier where the map holds it as a
    /// key, and the same task under it.
    proof fn lemma_lookup(&self, id: usize)
        requires
            self.wf(),
        ensures
            self.model().wf(),
            lists(self.model().entries, held(self.tasks), self.next_id as nat),
            self.model().contains(id) <==> held(self.tasks).contains_key(id),
            self.model().contains(id) ==> self.model().task(id) == held(self.tasks)[id]@,
    {
        let list = self.model().entries;
        lemma_listed_lists(held(self.tasks), self.next_id as nat);
        if self.model().contains(id) {
            lemma_rank(self.model(), self.model().rank(id));
        }
        if held(self.tasks).contains_key(id) {
            assert(id < self.next_id);
            let i = choose|i: int| 0 <= i < list.len() && (#[trigger] list[i]).0 == id;
            assert(list[i].0 == id);
            lemma_rank(self.model(), i);
        }
    }

    /// Whatever list holds the store's tasks in order is the store's list.
    proof fn lemma_is_model(&self, list: Seq<(usize, TaskModel)>)
        requires
            lists(list, held(self.tasks), self.next_id as nat),
        ensures
            self.model().entries == list,
    {
        lemma_listed_lists(held(self.tasks), self.next_id as nat);
        lemma_lists_once(self.model().entries, list, held(self.tasks), self.next_id as nat);
    }
}

impl TodoList for FakeTodoList {
    type Task = BasicTask;

    closed spec fn wf(&self) -> bool {
        forall|key: usize| held(self.tasks).contains_key(key) ==> key < self.next_id
    }

    closed spec fn model(&self) -> StoreModel {
        StoreModel {
            entries: listed(held(self.tasks), self.next_id as nat),
            next_id: self.next_id as nat,
        }
    }

    proof fn lemma_model_wf(&self) {
        lemma_listed_lists(held(self.tasks), self.next_id as nat);
    }

    fn create(&mut self, name: &str) -> (r: Result<usize, Error>) {
        let id = self.next_id;
        let new_task = BasicTask::new(name);
        proof {
            lemma_listed_lists(held(self.tasks), self.next_id as nat);
        }
        self.next_id = id + 1;
        insert(&mut self.tasks, id, new_task);
        proof {
            let before = old(self).model().entries;
            let after = before.push((id, TaskModel::fresh(name@)));
            assert forall|key: usize|
                key < self.next_id && held(self.tasks).contains_key(key) implies exists|i: int|
                0 <= i < after.len() && (#[trigger] after[i]).0 == key by {
                if key == id {
                    assert(after[before.len() as int].0 == id);
                } else {
                    let i = choose|i: int| 0 <= i < before.len() && (#[trigger] before[i]).0 == key;
                    assert(after[i].0 == key);
                }
            }
            assert(lists(after, held(self.tasks), self.next_id as nat));
            self.lemma_is_model(after);
        }
        Ok(id)
    }

    fn enumerate(&self) -> (r: Vec<(usize, &BasicTask)>) {
        let r = pairs(&self.tasks);
        proof {
            let list = Seq::new(r@.len(), |i: int| (r@[i].0, (*r@[i].1)@));
            assert forall|key: usize|
                key < self.next_id && held(self.tasks).contains_key(key) implies exists|i: int|
                0 <= i < list.len() && (#[trigger] list[i]).0 == key by {
                let i = choose|i: int| 0 <= i < r@.len() && (#[trigger] r@[i]).0 == key;
                assert(list[i].0 == key);
            }
            assert(lists(list, held(self.tasks), self.next_id as nat));
            self.lemma_is_model(list);
            assert forall|i: int| 0 <= i < r@.len() implies (#[trigger] r@[i]).0
                == self.model().entries[i].0 && r@[i].1.model() == self.model().entries[i].1 by {
                assert(list[i] == (r@[i].0, (*r@[i].1)@));
            }
        }
        r
    }

    fn find(&self, id: usize) -> (r: Result<&BasicTask, Error>) {
        proof {
            self.lemma_lookup(id);
        }
        match get(&self.tasks, id) {
            Some(task) => Ok(task),
            None => Err(Error::NoSuchTask),
        }
    }

    fn find_mut(&mut self, id: usize) -> (r: Result<&mut BasicTask, Error>) {
        proof {
            self.lemma_lookup(id);
        }
        match get_mut(&mut self.tasks, id) {
            Some(task) => {
                proof {
                    let before = old(self).model().entries;
                    let rank = old(self).model().rank(id);
                    let after = before.update(rank, (id, final(task)@));
                    let map = held(old(self).tasks).insert(id, *final(task));
                    assert forall|key: usize|
                        key < self.next_id && map.contains_key(key) implies exists|i: int|
                        0 <= i < after.len() && (#[trigger] after[i]).0 == key by {
                        let i = choose|i: int|
                            0 <= i < before.len() && (#[trigger] before[i]).0 == key;
                        assert(after[i].0 == key);
                    }
                    assert forall|i: int| 0 <= i < after.len() implies (#[trigger] after[i]).0
                        == before[i].0 by {}
                    assert(lists(after, map, old(self).next_id as nat));
                    lemma_listed_lists(map, old(self).next_id as nat);
                    lemma_lists_once(
                        listed(map, old(self).next_id as nat),
                        after,
                        map,
                        old(self).next_id as nat,
                    );
                }
                Ok(task)
            },
            None => Err(Error::NoSuchTask),
        }
    }

    fn remove(&mut self, id: usize) -> (r: Result<BasicTask, Error>) {
        proof {
            self.lemma_lookup(id);
        }
        match remove(&mut self.tasks, id) {
            Some(task) => {
                proof {
                    let before = old(self).model().entries;
                    let rank = old(self).model().rank(id);
                    let after = before.remove(rank);
                    lemma_removed(old(self).model(), id);
                    assert forall|i: int| 0 <= i < after.len() implies (#[trigger] after[i]).0
                        < self.next_id && held(self.tasks).contains_key(after[i].0) && after[i].1
                        == held(self.tasks)[after[i].0]@ by {
                        let si = if i < rank { i } else { i + 1 };
                        assert(after[i] == before[si]);
                        if si < rank {
                            assert(before[si].0 < before[rank].0);
                        } else {
                            assert(before[rank].0 < before[si].0);
                        }
                    }
                    assert forall|key: usize|
                        key < self.next_id && held(self.tasks).contains_key(key) implies exists|
                        i: int,
                    |
                        0 <= i < after.len() && (#[trigger] after[i]).0 == key by {
                        let si = choose|i: int|
                            0 <= i < before.len() && (#[trigger] before[i]).0 == key;
                        let i = if si < rank { si } else { si - 1 };
                        assert(after[i] == before[si]);
                    }
                    assert(lists(after, held(self.tasks), self.next_id as nat));
                    self.lemma_is_model(after);
                }
                Ok(task)
            },
            None => {
                assert(held(self.tasks) =~= held(old(self).tasks));
                Err(Error::NoSuchTask)
            },
        }
    }
}

} // verus!
