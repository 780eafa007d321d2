//! The life cycle of a task: three states and the two moves between them.
use vstd::prelude::*;

use crate::error::Error;

verus! {

/// Where a task stands.
#[derive(Debug, Clone, Copy, PartialEq, Eq, Structural)]
pub enum Status {
    /// Still to be done.
    Open,
    /// Completed.
    Done,
    /// Abandoned.
    Wont,
}

impl Status {
    /// The state one step forward, where there is one.
    pub open spec fn advanced(self) -> Option<Status> {
        match self {
            Status::Wont => Some(Status::Open),
            Status::Open => Some(Status::Done),
            Status::Done => None,
        }
    }

    /// The state one step back, where there is one.
    pub open spec fn retreated(self) -> Option<Status> {
        match self {
            Status::Open => Some(Status::Wont),
            Status::Done => Some(Status::Open),
            Status::Wont => None,
        }
    }

    /// The name under which a state is written to a file.
    pub open spec fn tag_text(self) -> Seq<char> {
        match self {
            Status::Open => seq!['O', 'p', 'e', 'n'],
            Status::Done => seq!['D', 'o', 'n', 'e'],
            Status::Wont => seq!['W', 'o', 'n', 't'],
        }
    }

    /// The state that a name stands for, where it is one of the three names.
    pub open spec fn parsed(tag: Seq<char>) -> Option<Status> {
        if tag == Status::Open.tag_text() {
            Some(Status::Open)
        } else if tag == Status::Done.tag_text() {
            Some(Status::Done)
        } else if tag == Status::Wont.tag_text() {
            Some(Status::Wont)
        } else {
            None
        }
    }

    /// The fourteen columns that show a state in a listing: abandoned on the
    /// left, open in the middle, done on the right.
    pub open spec fn marker_text(self) -> Seq<char> {
        match self {
            Status::Open => seq![
                ' ', ' ', ' ', ' ', ' ', '[', ' ', ']', ' ', ' ', ' ', ' ', ' ', ' ',
            ],
            Status::Done => seq![
                ' ', ' ', ' ', ' ', ' ', ' ', ' ', ' ', ' ', ' ', ' ', '[', 'x', ']',
            ],
            Status::Wont => seq![
                '-', '-', '-', '-', ' ', ' ', ' ', ' ', ' ', ' ', ' ', ' ', ' ', ' ',
            ],
        }
    }

    /// Moves one step forward: abandoned to open, open to done. A task that
    /// is done stays so, and the move is refused.
    pub fn advance(self) -> (r: Result<Status, Error>)
        ensures
            r == (match self.advanced() {
                Some(next) => Ok::<Status, Error>(next),
                None => Err(Error::AlreadyDone),
            }),
    {
        match self {
            Status::Wont => Ok(Status::Open),
            Status::Open => Ok(Status::Done),
            Status::Done => Err(Error::AlreadyDone),
        }
    }

    /// Moves one step back: done to open, open to abandoned. A task that was
    /// abandoned stays so, and the move is refused.
    pub fn retreat(self) -> (r: Result<Status, Error>)
        ensures
            r == (match self.retreated() {
                Some(next) => Ok::<Status, Error>(next),
                None => Err(Error::AlreadyWont),
            }),
    {
        match self {
            Status::Open => Ok(Status::Wont),
            Status::Done => Ok(Status::Open),
            Status::Wont => Err(Error::AlreadyWont),
        }
    }

    /// The name under which the state is written to a file.
    pub fn tag(self) -> (r: &'static str)
        ensures
            r@ == self.tag_text(),
    {
        proof {
            reveal_strlit("Open");
            reveal_strlit("Done");
            reveal_strlit("Wont");
        }
        match self {
            Status::Open => {
                assert("Open"@ =~= Status::Open.tag_text());
                "Open"
            },
            Status::Done => {
                assert("Done"@ =~= Status::Done.tag_text());
                "Done"
            },
            Status::Wont => {
                assert("Wont"@ =~= Status::Wont.tag_text());
                "Wont"
            },
        }
    }

    /// Reads a state back from its name. The name must match letter for
    /// letter, capitals included.
    pub fn parse(tag: &str) -> (r: Option<Status>)
        ensures
            r == Status::parsed(tag@),
    {
        if tag.unicode_len() != 4 {
            return None;
        }
        let a = tag.get_char(0);
        let b = tag.get_char(1);
        let c = tag.get_char(2);
        let d = tag.get_char(3);
        if a == 'O' && b == 'p' && c == 'e' && d == 'n' {
            assert(tag@ =~= Status::Open.tag_text());
            Some(Status::Open)
        } else if a == 'D' && b == 'o' && c == 'n' && d == 'e' {
            assert(tag@ =~= Status::Done.tag_text());
            Some(Status::Done)
        } else if a == 'W' && b == 'o' && c == 'n' && d == 't' {
            assert(tag@ =~= Status::Wont.tag_text());
            Some(Status::Wont)
        } else {
            None
        }
    }

    /// The fourteen columns that show the state in a listing.
    pub fn marker(self) -> (r: &'static str)
        ensures
            r@ == self.marker_text(),
    {
        proof {
            reveal_strlit("     [ ]      ");
            reveal_strlit("           [x]");
            reveal_strlit("----          ");
        }
        match self {
            Status::Open => {
                assert("     [ ]      "@ =~= Status::Open.marker_text());
                "     [ ]      "
            },
            Status::Done => {
                assert("           [x]"@ =~= Status::Done.marker_text());
                "           [x]"
            },
            Status::Wont => {
                assert("----          "@ =~= Status::Wont.marker_text());
                "----          "
            },
        }
    }
}

/// One of the two moves of a status.
#[derive(Debug, Clone, Copy, PartialEq, Eq, Structural)]
pub enum Transition {
    /// One step forward.
    Advance,
    /// One step back.
    Retreat,
}

impl Transition {
    /// The state after the move, where the state has such a move.
    pub open spec fn applied(self, status: Status) -> Option<Status> {
        match self {
            Transition::Advance => status.advanced(),
            Transition::Retreat => status.retreated(),
        }
    }

    /// Why the move is refused where a state has no such move.
    pub open spec fn refusal(self) -> Error {
        match self {
            Transition::Advance => Error::AlreadyDone,
            Transition::Retreat => Error::AlreadyWont,
        }
    }

    /// Makes the move from `status`.
    pub fn apply(self, status: Status) -> (r: Result<Status, Error>)
        ensures
            r == (match self.applied(status) {
                Some(next) => Ok::<Status, Error>(next),
                None => Err(self.refusal()),
            }),
    {
        match self {
            Transition::Advance => status.advance(),
            Transition::Retreat => status.retreat(),
        }
    }
}

/// Reading a state's name gives the state back.
pub proof fn lemma_parse_tag(status: Status)
    ensures
        Status::parsed(status.tag_text()) == Some(status),
{
    assert(Status::Open.tag_text()[0] == 'O');
    assert(Status::Done.tag_text()[0] == 'D');
    assert(Status::Wont.tag_text()[0] == 'W');
}

/// A step forward and then a step back, or the other way round, ends where
/// it began.
pub proof fn lemma_moves_undo(status: Status)
    ensures
        status.advanced() matches Some(next) ==> next.retreated() == Some(status),
        status.retreated() matches Some(next) ==> next.advanced() == Some(status),
{
}

} // verus!
