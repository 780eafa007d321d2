//! Tasks: a name and a status, and how one line of a listing shows them.
use vstd::prelude::*;

use crate::error::Error;
use crate::status::{Status, Transition};

verus! {

/// What a task is, whatever keeps it: its status and the characters of its
/// name.
pub struct TaskModel {
    pub status: Status,
    pub name: Seq<char>,
}

impl TaskModel {
    /// A task as it is when it is created.
    pub open spec fn fresh(name: Seq<char>) -> TaskModel {
        TaskModel { status: Status::Open, name }
    }

    /// The same task with another status.
    pub open spec fn with_status(self, status: Status) -> TaskModel {
        TaskModel { status, name: self.name }
    }

    /// The task one step forward, where its status has such a step.
    pub open spec fn advanced(self) -> Option<TaskModel> {
        match self.status.advanced() {
            Some(status) => Some(self.with_status(status)),
            None => None,
        }
    }

    /// The task one step back, where its status has such a step.
    pub open spec fn retreated(self) -> Option<TaskModel> {
        match self.status.retreated() {
            Some(status) => Some(self.with_status(status)),
            None => None,
        }
    }

    /// The task after a move of its status, where the status has that move.
    pub open spec fn moved(self, transition: Transition) -> Option<TaskModel> {
        match transition {
            Transition::Advance => self.advanced(),
            Transition::Retreat => self.retreated(),
        }
    }

    /// One line of a listing: the fourteen columns of the status, `>` where
    /// the task is selected and a space where it is not, then the name.
    pub open spec fn rendered(self, is_selected: bool) -> Seq<char> {
        self.status.marker_text().push(if is_selected { '>' } else { ' ' }) + self.name
    }
}

/// Something that is a task: it has a name and a status, and its status can
/// be moved a step forward or back.
pub trait Task: Sized {
    /// The task's name and status.
    spec fn model(&self) -> TaskModel;

    /// Whether `self` is what `before` has become by changes of status and
    /// nothing else.
    spec fn follows(&self, before: &Self) -> bool;

    /// Moves the task one step forward. A task that is done is left as it
    /// is, and the move fails with `AlreadyDone`.
    fn goto_next_status(&mut self) -> (r: Result<(), Error>)
        ensures
            final(self).follows(old(self)),
            match old(self).model().advanced() {
                Some(next) => r == Ok::<(), Error>(()) && final(self).model() == next,
                None => r == Err::<(), Error>(Error::AlreadyDone) && final(self).model() == old(self).model(),
            },
    ;

    /// Moves the task one step back. A task that was abandoned is left as it
    /// is, and the move fails with `AlreadyWont`.
    fn goto_next_back_status(&mut self) -> (r: Result<(), Error>)
        ensures
            final(self).follows(old(self)),
            match old(self).model().retreated() {
                Some(next) => r == Ok::<(), Error>(()) && final(self).model() == next,
                None => r == Err::<(), Error>(Error::AlreadyWont) && final(self).model() == old(self).model(),
            },
    ;

    /// A plain copy of the task's name and status.
    fn projection(&self) -> (r: BasicTask)
        ensures
            r@ == self.model(),
    ;
}

/// A task that is nothing but its name and its status.
#[derive(Debug, Clone)]
pub struct BasicTask {
    pub status: Status,
    pub name: String,
}

impl View for BasicTask {
    type V = TaskModel;

    open spec fn view(&self) -> TaskModel {
        TaskModel { status: self.status, name: self.name@ }
    }
}

impl BasicTask {
    /// A task as it is when it is created: open, under the given name.
    pub fn new(name: &str) -> (r: BasicTask)
        ensures
            r@ == TaskModel::fresh(name@),
    {
        BasicTask { status: Status::Open, name: String::from_str(name) }
    }
}

impl Task for BasicTask {
    open spec fn model(&self) -> TaskModel {
        self@
    }

    open spec fn follows(&self, before: &Self) -> bool {
        self.name@ == before.name@
    }

    fn goto_next_status(&mut self) -> (r: Result<(), Error>) {
        match self.status.advance() {
            Ok(next) => {
                self.status = next;
                Ok(())
            },
            Err(e) => Err(e),
        }
    }

    fn goto_next_back_status(&mut self) -> (r: Result<(), Error>) {
        match self.status.retreat() {
            Ok(next) => {
                self.status = next;
                Ok(())
            },
            Err(e) => Err(e),
        }
    }

    fn projection(&self) -> (r: BasicTask) {
        BasicTask { status: self.status, name: self.name.clone() }
    }
}

/// One line of a listing for a task: its status in fourteen columns, `>`
/// where it is selected and a space where it is not, then its name.
pub fn render(task: &BasicTask, is_selected: bool) -> (r: String)
    ensures
        r@ == task@.rendered(is_selected),
{
    let mut line = String::from_str(task.status.marker());
    proof {
        reveal_strlit(">");
        reveal_strlit(" ");
    }
    if is_selected {
        assert(">"@ =~= seq!['>']);
        line.append(">");
    } else {
        assert(" "@ =~= seq![' ']);
        line.append(" ");
    }
    line.append(task.name.as_str());
    assert(line@ =~= task@.rendered(is_selected));
    line
}

} // verus!
