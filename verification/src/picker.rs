//! The cursor: a store of tasks and the rank of the task that is selected.
use vstd::prelude::*;

use crate::error::Error;
use crate::status::Transition;
use crate::front::{report, report_text, Command, FrontError, FrontResult};
use crate::store::{lemma_created, lemma_rank, lemma_removed, StoreModel, TodoList};
use crate::task::{render, Task, TaskModel};

verus! {

/// Whether `rank` can be the cursor of a list of `len` tasks: a place in
/// the list, or 0 where the list is empty.
pub open spec fn valid_rank(len: nat, rank: nat) -> bool {
    if len == 0 {
        rank == 0
    } else {
        rank < len
    }
}

/// The cursor after a step down: one further, unless it stands on the last
/// task or the list is empty.
pub open spec fn stepped_down(len: nat, rank: nat) -> nat {
    if rank + 1 < len {
        rank + 1
    } else {
        rank
    }
}

/// The cursor after a step up: one back, unless it stands on the first task.
pub open spec fn stepped_up(rank: nat) -> nat {
    if rank > 0 {
        (rank - 1) as nat
    } else {
        rank
    }
}

/// The cursor after a removal that left `len` tasks: where it was, unless
/// that is past the end; then the last task, or 0 where none is left.
pub open spec fn clamped(len: nat, rank: nat) -> nat {
    if len == 0 {
        0
    } else if rank < len {
        rank
    } else {
        (len - 1) as nat
    }
}

/// The line above a listing: it names the three columns of the status.
pub open spec fn legend() -> Seq<char> {
    "  Wont Open Done"@
}

/// The lines of the tasks, one after the other with a line feed between
/// two of them; the task at rank `selected` is marked.
pub open spec fn lines_text(tasks: Seq<TaskModel>, selected: nat) -> Seq<char>
    decreases tasks.len(),
{
    if tasks.len() == 0 {
        Seq::empty()
    } else if tasks.len() == 1 {
        tasks[0].rendered(selected == 0)
    } else {
        lines_text(tasks.drop_last(), selected).push('\n') + tasks.last().rendered(
            selected == tasks.len() - 1,
        )
    }
}

/// A listing: the legend, a line feed, and the lines of the tasks.
pub open spec fn listing_text(tasks: Seq<TaskModel>, selected: nat) -> Seq<char> {
    legend().push('\n') + lines_text(tasks, selected)
}

/// A store of tasks with a cursor on one of them. The cursor is a rank in
/// the store's list, not an identifier.
pub struct TaskPicker<T: TodoList> {
    position: usize,
    tasks: T,
}

impl<T: TodoList> TaskPicker<T> {
    /// The store.
    pub closed spec fn list(&self) -> T {
        self.tasks
    }

    /// The rank of the selected task.
    pub closed spec fn rank(&self) -> nat {
        self.position as nat
    }

    /// What the store holds.
    pub open spec fn model(&self) -> StoreModel {
        self.list().model()
    }

    /// The store is in order, and the cursor stands on one of its tasks, or
    /// at 0 where it has none.
    pub open spec fn wf(&self) -> bool {
        &&& self.list().wf()
        &&& valid_rank(self.model().len(), self.rank())
    }

    /// A cursor on the first task of `tasks`.
    pub fn new(tasks: T) -> (r: Self)
        requires
            tasks.wf(),
        ensures
            r.wf(),
            r.list() == tasks,
            r.rank() == 0,
    {
        TaskPicker { position: 0, tasks }
    }

    /// The rank of the selected task.
    pub fn position(&self) -> (r: usize)
        ensures
            r == self.rank(),
    {
        self.position
    }

    /// The store.
    pub fn tasks(&self) -> (r: &T)
        ensures
            *r == self.list(),
    {
        &self.tasks
    }

    /// Gives the store back.
    pub fn into_tasks(self) -> (r: T)
        ensures
            r == self.list(),
    {
        self.tasks
    }

    /// Moves the cursor to the first task.
    pub fn top(&mut self) -> (r: FrontResult<()>)
        requires
            old(self).wf(),
        ensures
            final(self).wf(),
            r == Ok::<(), FrontError>(()),
            final(self).list() == old(self).list(),
            final(self).rank() == 0,
    {
        self.position = 0;
        Ok(())
    }

    /// Moves the cursor to the last task; `NoSuchTask` where the store is
    /// empty, and the cursor then stays.
    pub fn bottom(&mut self) -> (r: FrontResult<()>)
        requires
            old(self).wf(),
        ensures
            final(self).wf(),
            final(self).list() == old(self).list(),
            old(self).model().len() == 0 ==> r == Err::<(), FrontError>(
                FrontError::Ado(Error::NoSuchTask),
            ) && final(self).rank() == old(self).rank(),
            old(self).model().len() > 0 ==> r == Ok::<(), FrontError>(()) && final(self).rank()
                == old(self).model().len() - 1,
    {
        let len = match self.len() {
            Ok(len) => len,
            Err(e) => {
                return Err(e);
            },
        };
        if len == 0 {
            Err(FrontError::Ado(Error::NoSuchTask))
        } else {
            self.position = len - 1;
            Ok(())
        }
    }

    /// Moves the cursor one task down, unless it stands on the last.
    pub fn down(&mut self) -> (r: FrontResult<()>)
        requires
            old(self).wf(),
        ensures
            final(self).wf(),
            r == Ok::<(), FrontError>(()),
            final(self).list() == old(self).list(),
            final(self).rank() == stepped_down(old(self).model().len(), old(self).rank()),
    {
        let len = match self.len() {
            Ok(len) => len,
            Err(e) => {
                return Err(e);
            },
        };
        if len != 0 && len - 1 != self.position {
            self.position += 1;
        }
        Ok(())
    }

    /// How many tasks the store holds.
    pub fn len(&self) -> (r: FrontResult<usize>)
        requires
            self.wf(),
        ensures
            r == Ok::<usize, FrontError>(self.model().len() as usize),
            self.model().len() <= usize::MAX,
    {
        Ok(self.tasks.ids().len())
    }

    /// Moves the cursor one task up, unless it stands on the first.
    pub fn up(&mut self) -> (r: FrontResult<()>)
        requires
            old(self).wf(),
        ensures
            final(self).wf(),
            r == Ok::<(), FrontError>(()),
            final(self).list() == old(self).list(),
            final(self).rank() == stepped_up(old(self).rank()),
    {
        if self.position != 0 {
            self.position -= 1;
        }
        Ok(())
    }

    /// What a move of the status of the selected task gives: where the
    /// store is empty, `NoSuchTask`; where the status has no such move,
    /// `AlreadyDone` or `AlreadyWont`; else the task gets the new status.
    /// Nothing else changes, and the cursor stays.
    pub open spec fn moved(
        before: &Self,
        after: &Self,
        r: FrontResult<()>,
        transition: Transition,
    ) -> bool {
        &&& after.rank() == before.rank()
        &&& if before.model().len() == 0 {
            r == Err::<(), FrontError>(FrontError::Ado(Error::NoSuchTask)) && after.model()
                == before.model()
        } else {
            let (id, task) = before.model().entries[before.rank() as int];
            match task.moved(transition) {
                Some(changed) => r == Ok::<(), FrontError>(()) && after.model()
                    == before.model().replaced(id, changed),
                None => r == Err::<(), FrontError>(FrontError::Ado(transition.refusal()))
                    && after.model() == before.model(),
            }
        }
    }

    /// Moves the selected task one step forward: abandoned to open, open to
    /// done.
    pub fn right(&mut self) -> (r: FrontResult<()>)
        requires
            old(self).wf(),
        ensures
            final(self).wf(),
            Self::moved(old(self), final(self), r, Transition::Advance),
    {
        self.go(Transition::Advance)
    }

    /// Moves the selected task one step back: done to open, open to
    /// abandoned.
    pub fn left(&mut self) -> (r: FrontResult<()>)
        requires
            old(self).wf(),
        ensures
            final(self).wf(),
            Self::moved(old(self), final(self), r, Transition::Retreat),
    {
        self.go(Transition::Retreat)
    }

    /// Makes a move of the status of the selected task.
    fn go(&mut self, transition: Transition) -> (r: FrontResult<()>)
        requires
            old(self).wf(),
        ensures
            final(self).wf(),
            Self::moved(old(self), final(self), r, transition),
    {
        let id = match self.current_id() {
            Ok(id) => id,
            Err(e) => {
                return Err(e);
            },
        };
        proof {
            self.tasks.lemma_model_wf();
            lemma_rank(self.tasks.model(), self.position as int);
        }
        match self.tasks.apply(id, transition) {
            Ok(()) => Ok(()),
            Err(e) => Err(FrontError::Ado(e)),
        }
    }

    /// The identifier of the selected task; `NoSuchTask` where the store is
    /// empty.
    pub fn current_id(&self) -> (r: FrontResult<usize>)
        requires
            self.wf(),
        ensures
            self.model().len() == 0 ==> r == Err::<usize, FrontError>(
                FrontError::Ado(Error::NoSuchTask),
            ),
            self.model().len() > 0 ==> r == Ok::<usize, FrontError>(
                self.model().entries[self.rank() as int].0,
            ),
    {
        let ids = self.tasks.ids();
        if self.position < ids.len() {
            Ok(ids[self.position])
        } else {
            Err(FrontError::Ado(Error::NoSuchTask))
        }
    }

    /// Creates an open task of the given name and moves the cursor to it.
    /// Returns the identifier of the new task.
    pub fn create(&mut self, name: String) -> (r: FrontResult<usize>)
        requires
            old(self).wf(),
            old(self).model().next_id < usize::MAX,
        ensures
            final(self).wf(),
            r == Ok::<usize, FrontError>(old(self).model().next_id as usize),
            final(self).model() == old(self).model().created(name@),
            final(self).rank() == final(self).model().rank(old(self).model().next_id as usize),
            final(self).rank() == old(self).model().len(),
    {
        proof {
            self.tasks.lemma_model_wf();
            lemma_created(self.tasks.model(), name@);
        }
        let new_id = match self.tasks.create(name.as_str()) {
            Ok(id) => id,
            Err(e) => {
                return Err(FrontError::Ado(e));
            },
        };
        let ids = self.tasks.ids();
        let mut new_position = self.position;
        for p in 0..ids.len()
            invariant
                ids@ == old(self).model().ids().push(new_id),
                forall|k: int| 0 <= k < old(self).model().len() ==> ids@[k] != new_id,
                new_position == (if p == ids@.len() {
                    old(self).model().len()
                } else {
                    old(self).rank()
                }),
        {
            if ids[p] == new_id {
                new_position = p;
            }
        }
        self.position = new_position;
        Ok(new_id)
    }

    /// Removes the selected task; `NoSuchTask` where the store is empty.
    /// The cursor stays at its rank, so that it selects the task that
    /// followed; where none followed, it moves to the last task that is
    /// left, or to 0.
    pub fn remove(&mut self) -> (r: FrontResult<()>)
        requires
            old(self).wf(),
        ensures
            final(self).wf(),
            old(self).model().len() == 0 ==> r == Err::<(), FrontError>(
                FrontError::Ado(Error::NoSuchTask),
            ) && final(self).model() == old(self).model() && final(self).rank() == 0,
            old(self).model().len() > 0 ==> r == Ok::<(), FrontError>(()) && final(self).model()
                == old(self).model().removed(old(self).model().entries[old(self).rank() as int].0)
                && final(self).rank() == clamped(final(self).model().len(), old(self).rank()),
    {
        let id = match self.current_id() {
            Ok(id) => id,
            Err(e) => {
                return Err(e);
            },
        };
        proof {
            self.tasks.lemma_model_wf();
            lemma_rank(self.tasks.model(), self.position as int);
            lemma_removed(self.tasks.model(), id);
        }
        match self.tasks.remove(id) {
            Ok(_) => {},
            Err(e) => {
                return Err(FrontError::Ado(e));
            },
        }
        let len = self.tasks.ids().len();
        let last = if len == 0 {
            0
        } else {
            len - 1
        };
        if self.position > last {
            self.position = last;
        }
        Ok(())
    }

    /// What a command does to the cursor and its store, and what it gives
    /// back: for each command, what the function of its name states.
    pub open spec fn ran(before: &Self, after: &Self, command: Command, r: FrontResult<()>) -> bool {
        let len = before.model().len();
        match command {
            Command::Top => r == Ok::<(), FrontError>(()) && after.list() == before.list()
                && after.rank() == 0,
            Command::Bottom => after.list() == before.list() && if len == 0 {
                r == Err::<(), FrontError>(FrontError::Ado(Error::NoSuchTask)) && after.rank()
                    == before.rank()
            } else {
                r == Ok::<(), FrontError>(()) && after.rank() == len - 1
            },
            Command::Down => r == Ok::<(), FrontError>(()) && after.list() == before.list()
                && after.rank() == stepped_down(len, before.rank()),
            Command::Up => r == Ok::<(), FrontError>(()) && after.list() == before.list()
                && after.rank() == stepped_up(before.rank()),
            Command::Right => Self::moved(before, after, r, Transition::Advance),
            Command::Left => Self::moved(before, after, r, Transition::Retreat),
            Command::Remove => if len == 0 {
                r == Err::<(), FrontError>(FrontError::Ado(Error::NoSuchTask)) && after.model()
                    == before.model() && after.rank() == 0
            } else {
                r == Ok::<(), FrontError>(()) && after.model() == before.model().removed(
                    before.model().entries[before.rank() as int].0,
                ) && after.rank() == clamped(after.model().len(), before.rank())
            },
        }
    }

    /// Runs a command on the cursor.
    pub fn run(&mut self, command: Command) -> (r: FrontResult<()>)
        requires
            old(self).wf(),
        ensures
            final(self).wf(),
            Self::ran(old(self), final(self), command, r),
    {
        match command {
            Command::Left => self.left(),
            Command::Down => self.down(),
            Command::Up => self.up(),
            Command::Right => self.right(),
            Command::Top => self.top(),
            Command::Bottom => self.bottom(),
            Command::Remove => self.remove(),
        }
    }

    /// What is shown once a command has run: the listing, a line feed, and
    /// the sentence for the failure where the command failed.
    pub fn screen(&self, result: &FrontResult<()>) -> (r: String)
        requires
            self.wf(),
        ensures
            r@ == listing_text(self.model().tasks(), self.rank()).push('\n') + report_text(
                *result,
            ),
    {
        let mut text = self.render();
        proof {
            reveal_strlit("\n");
            assert("\n"@ =~= seq!['\n']);
        }
        text.append("\n");
        let note = report(result);
        text.append(note.as_str());
        text
    }

    /// The listing: the legend, then one line for each task in ascending
    /// order of identifier, the selected one marked.
    pub fn render(&self) -> (r: String)
        requires
            self.wf(),
        ensures
            r@ == listing_text(self.model().tasks(), self.rank()),
    {
        let tasks = self.tasks.sorted();
        let ghost models = self.model().tasks();
        let mut text = String::from_str("  Wont Open Done");
        proof {
            reveal_strlit("\n");
            assert("\n"@ =~= seq!['\n']);
        }
        text.append("\n");
        let mut lines = String::new();
        for i in 0..tasks.len()
            invariant
                tasks@.len() == models.len(),
                forall|k: int| 0 <= k < tasks@.len() ==> (#[trigger] tasks@[k]).model() == models[k],
                lines@ == lines_text(models.take(i as int), self.position as nat),
                "\n"@ == seq!['\n'],
        {
            if i > 0 {
                lines.append("\n");
            }
            let shown = tasks[i].projection();
            let line = render(&shown, i == self.position);
            lines.append(line.as_str());
            proof {
                let upto = models.take(i + 1);
                assert(upto.drop_last() =~= models.take(i as int));
                assert(upto.last() == models[i as int]);
                if i == 0 {
                    assert(lines@ =~= upto[0].rendered(self.position == 0));
                }
            }
        }
        proof {
            assert(models.take(tasks@.len() as int) =~= models);
        }
        text.append(lines.as_str());
        assert(text@ =~= listing_text(models, self.rank()));
        text
    }
}

/// Once the only task is removed the cursor is at 0, and a step down or up
/// leaves it there.
pub proof fn lemma_cursor_rests_when_empty()
    ensures
        clamped(0, 0) == 0,
        stepped_down(0, 0) == 0,
        stepped_up(0) == 0,
{
}

/// Each move of the cursor leaves it valid: a step, and the clamping after
/// a removal.
pub proof fn lemma_cursor_stays_valid(len: nat, rank: nat)
    requires
        valid_rank(len, rank),
    ensures
        valid_rank(len, stepped_down(len, rank)),
        valid_rank(len, stepped_up(rank)),
        valid_rank(len, 0),
        len > 0 ==> valid_rank(len, (len - 1) as nat),
        len > 0 ==> valid_rank((len - 1) as nat, clamped((len - 1) as nat, rank)),
        valid_rank(len + 1, len),
{
}

} // verus!
