//! The cursor on the store of files: what is to be done to the files around
//! each command, so that the files and the store agree.
//!
//! A file is deleted before its task leaves the store, and written before a
//! new task enters it; where that fails, the command does not run. After a
//! move of a status the file is written again; where that fails, the task
//! keeps its new status and the failure is reported.
use vstd::prelude::*;

use crate::codec::{encoded, file_path};
use crate::error::Error;
use crate::file::{FileTodoList, FileWrite};
use crate::front::{Command, FrontError, FrontResult};
use crate::picker::TaskPicker;
use crate::store::{lemma_rank, TodoList};
use crate::task::TaskModel;

verus! {

/// What is to be done to the files.
#[derive(Debug)]
pub enum FileOp {
    /// Nothing.
    Nothing,
    /// Write a file, in place of what it held.
    Write(FileWrite),
    /// Delete the file of this name.
    Delete(String),
}

/// What the caller is told once the files were worked on, or were not: a
/// failure comes back as `External`, with its cause.
pub fn outcome(done: Result<(), String>) -> (r: FrontResult<()>)
    ensures
        r == (match done {
            Ok(()) => Ok::<(), FrontError>(()),
            Err(cause) => Err(FrontError::Ado(Error::External(cause))),
        }),
{
    match done {
        Ok(()) => Ok(()),
        Err(cause) => Err(FrontError::Ado(Error::External(cause))),
    }
}

impl TaskPicker<FileTodoList> {
    /// What is to be done to the files before `command` runs: the file of
    /// the selected task is deleted before the task is removed. An empty
    /// store has no task to remove, which is `NoSuchTask`.
    pub fn before(&self, command: Command) -> (r: FrontResult<FileOp>)
        requires
            self.wf(),
        ensures
            match r {
                Ok(FileOp::Nothing) => command != Command::Remove,
                Ok(FileOp::Delete(file_name)) => command == Command::Remove && self.model().len()
                    > 0 && file_name@ == file_path(
                    self.list().dir(),
                    self.model().entries[self.rank() as int].0,
                ),
                Ok(FileOp::Write(_)) => false,
                Err(e) => command == Command::Remove && self.model().len() == 0 && e
                    == FrontError::Ado(Error::NoSuchTask),
            },
    {
        match command {
            Command::Remove => {
                let id = match self.current_id() {
                    Ok(id) => id,
                    Err(e) => {
                        return Err(e);
                    },
                };
                match self.tasks().removal(id) {
                    Ok(file_name) => Ok(FileOp::Delete(file_name)),
                    Err(e) => {
                        proof {
                            self.list().lemma_model_wf();
                            lemma_rank(self.model(), self.rank() as int);
                        }
                        Err(FrontError::Ado(e))
                    },
                }
            },
            _ => Ok(FileOp::Nothing),
        }
    }

    /// What is to be done to the files after `command` has run and given
    /// `result`: once the status of the selected task has moved, its file
    /// is written again.
    pub fn after(&self, command: Command, result: &FrontResult<()>) -> (r: FileOp)
        requires
            self.wf(),
        ensures
            match r {
                FileOp::Write(file) => Self::rewrites(command, *result) && self.model().len() > 0
                    && file.file_name@ == file_path(
                    self.list().dir(),
                    self.model().entries[self.rank() as int].0,
                ) && file.content@ == encoded(self.model().entries[self.rank() as int].1),
                FileOp::Nothing => !Self::rewrites(command, *result) || self.model().len() == 0,
                FileOp::Delete(_) => false,
            },
    {
        let moved = match command {
            Command::Left => true,
            Command::Right => true,
            _ => false,
        };
        if !moved || result.is_err() {
            return FileOp::Nothing;
        }
        let id = match self.current_id() {
            Ok(id) => id,
            Err(_) => {
                return FileOp::Nothing;
            },
        };
        proof {
            self.list().lemma_model_wf();
            lemma_rank(self.model(), self.rank() as int);
        }
        match self.tasks().saving(id) {
            Ok(file) => FileOp::Write(file),
            Err(_) => FileOp::Nothing,
        }
    }

    /// Whether a command that gave `result` calls for its task's file to be
    /// written again: it is a move of the status, and it succeeded.
    pub open spec fn rewrites(command: Command, result: FrontResult<()>) -> bool {
        (command == Command::Left || command == Command::Right) && result is Ok
    }

    /// The file that is to be written before a task of the given name is
    /// created: the file of the next identifier, for an open task.
    pub fn before_create(&self, name: &str) -> (r: FileWrite)
        requires
            self.wf(),
        ensures
            r.file_name@ == file_path(self.list().dir(), self.model().next_id as usize),
            r.content@ == encoded(TaskModel::fresh(name@)),
    {
        self.tasks().creation(name)
    }
}

} // verus!
