//! What the tracker tells the person in front of it: the failures of a
//! command, and which command a key stands for.
use vstd::prelude::*;

use crate::error::Error;

verus! {

/// Why a command did not take place.
#[derive(Debug, PartialEq, Eq)]
pub enum FrontError {
    /// The keys that were pressed stand for no command.
    NoSuchCommand,
    /// The command was understood and the tracker refused it.
    Ado(Error),
}

/// What a command gives back.
pub type FrontResult<T> = Result<T, FrontError>;

impl FrontError {
    /// The sentence that tells a user of the failure.
    pub open spec fn description_text(&self) -> Seq<char> {
        match self {
            FrontError::NoSuchCommand => "Command not recognised"@,
            FrontError::Ado(cause) => cause.description_text(),
        }
    }

    /// The sentence that tells a user of the failure.
    pub fn description(&self) -> (r: &'static str)
        ensures
            r@ == self.description_text(),
    {
        match self {
            FrontError::NoSuchCommand => "Command not recognised",
            FrontError::Ado(cause) => cause.description(),
        }
    }
}

/// What the person in front of the tracker can ask of the cursor.
#[derive(Debug, Clone, Copy, PartialEq, Eq, Structural)]
pub enum Command {
    /// Move the selected task one step back.
    Left,
    /// Select the next task.
    Down,
    /// Select the task before.
    Up,
    /// Move the selected task one step forward.
    Right,
    /// Select the first task.
    Top,
    /// Select the last task.
    Bottom,
    /// Remove the selected task.
    Remove,
}

/// The first key of a command of two keys, while the second is awaited.
#[derive(Debug, Clone, Copy, PartialEq, Eq, Structural)]
pub enum Pending {
    /// No key is awaited: the next key begins a command.
    Nothing,
    /// `g` was pressed: a second `g` selects the first task.
    Top,
    /// `d` was pressed: a second `d` removes the selected task.
    Remove,
}

/// What follows from a key.
#[derive(Debug, Clone, Copy, PartialEq, Eq, Structural)]
pub enum Step {
    /// Leave the tracker.
    Quit,
    /// Await the second key of a command.
    Await(Pending),
    /// Ask for the name of a new task, and create it.
    AskName,
    /// Run a command on the cursor.
    Run(Command),
    /// The keys stand for no command.
    Unknown,
}

/// What follows from the key `key`, pressed when `pending` was awaited.
///
/// One key each: `q` leaves, `h` `j` `k` `l` are left, down, up and right,
/// `o` creates a task, `G` selects the last task, `D` removes the selected
/// one. Two keys each: `gg` selects the first task, `dd` removes the
/// selected one; any other second key spoils the command. Every other key
/// stands for nothing.
pub open spec fn key_step(pending: Pending, key: char) -> Step {
    match pending {
        Pending::Top => if key == 'g' {
            Step::Run(Command::Top)
        } else {
            Step::Unknown
        },
        Pending::Remove => if key == 'd' {
            Step::Run(Command::Remove)
        } else {
            Step::Unknown
        },
        Pending::Nothing => if key == 'q' {
            Step::Quit
        } else if key == 'h' {
            Step::Run(Command::Left)
        } else if key == 'j' {
            Step::Run(Command::Down)
        } else if key == 'k' {
            Step::Run(Command::Up)
        } else if key == 'l' {
            Step::Run(Command::Right)
        } else if key == 'o' {
            Step::AskName
        } else if key == 'G' {
            Step::Run(Command::Bottom)
        } else if key == 'g' {
            Step::Await(Pending::Top)
        } else if key == 'D' {
            Step::Run(Command::Remove)
        } else if key == 'd' {
            Step::Await(Pending::Remove)
        } else {
            Step::Unknown
        },
    }
}

/// What follows from the key `key`, pressed when `pending` was awaited.
pub fn press(pending: Pending, key: char) -> (r: Step)
    ensures
        r == key_step(pending, key),
{
    match pending {
        Pending::Top => match key {
            'g' => Step::Run(Command::Top),
            _ => Step::Unknown,
        },
        Pending::Remove => match key {
            'd' => Step::Run(Command::Remove),
            _ => Step::Unknown,
        },
        Pending::Nothing => match key {
            'q' => Step::Quit,
            'h' => Step::Run(Command::Left),
            'j' => Step::Run(Command::Down),
            'k' => Step::Run(Command::Up),
            'l' => Step::Run(Command::Right),
            'o' => Step::AskName,
            'G' => Step::Run(Command::Bottom),
            'g' => Step::Await(Pending::Top),
            'D' => Step::Run(Command::Remove),
            'd' => Step::Await(Pending::Remove),
            _ => Step::Unknown,
        },
    }
}

/// What is shown below a listing once a command has run: nothing where it
/// succeeded, else the sentence for its failure and a line feed.
pub open spec fn report_text(result: FrontResult<()>) -> Seq<char> {
    match result {
        Ok(()) => Seq::empty(),
        Err(e) => e.description_text().push('\n'),
    }
}

/// What is shown below a listing once a command has run.
pub fn report(result: &FrontResult<()>) -> (r: String)
    ensures
        r@ == report_text(*result),
{
    match result {
        Ok(()) => String::new(),
        Err(e) => {
            let mut text = String::from_str(e.description());
            proof {
                reveal_strlit("\n");
                assert("\n"@ =~= seq!['\n']);
            }
            text.append("\n");
            text
        },
    }
}

impl From<Error> for FrontError {
    fn from(source: Error) -> (r: FrontError) {
        FrontError::Ado(source)
    }
}

impl vstd::std_specs::convert::FromSpecImpl<Error> for FrontError {
    open spec fn obeys_from_spec() -> bool {
        true
    }

    open spec fn from_spec(source: Error) -> FrontError {
        FrontError::Ado(source)
    }
}

} // verus!
