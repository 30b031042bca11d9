use vstd::prelude::*;
use crate::types::errors::CursorError;

verus! {

/// What the player asks for with one line of input.
#[derive(Debug, Clone, Copy, PartialEq, Eq)]
pub enum Command {
    /// Leave the game.
    Quit,
    /// Lay the carried disk on the selected tower.
    Drop,
    /// Lift the top disk of the selected tower.
    Take,
    /// Point the cursor at the tower on the left.
    MoveLeft,
    /// Point the cursor at the tower on the right.
    MoveRight,
    /// A line that starts with a character that means nothing.
    Unrecognized(char),
    /// A line on which nothing was typed.
    Empty,
}

/// What came of one command, for the player to be told.
#[derive(Debug, Clone, Copy, PartialEq, Eq)]
pub enum Outcome {
    /// The player has left the game.
    Quit,
    /// The carried disk now lies on the selected tower.
    Dropped,
    /// Nothing was dropped, for the given reason.
    DropFailed(CursorError),
    /// The top disk of the selected tower is now in the hand.
    Took,
    /// Nothing was taken, for the given reason.
    TakeFailed(CursorError),
    /// The cursor went one tower to the left.
    MovedLeft,
    /// The cursor already stands at the leftmost tower.
    AtLeftEdge,
    /// The cursor went one tower to the right.
    MovedRight,
    /// The cursor already stands at the rightmost tower.
    AtRightEdge,
    /// The line started with this character, which means nothing.
    Unrecognized(char),
    /// Nothing was typed on the line.
    EmptyInput,
}

/// Where a session stands.
#[derive(Debug, Clone, Copy, PartialEq, Eq)]
pub enum Status {
    /// The puzzle is not solved and the player goes on.
    Playing,
    /// All disks lie on the last tower.
    Won,
    /// The player has left before the puzzle was solved.
    Quit,
}

/// How a session ended.
#[derive(Debug, Clone, Copy, PartialEq, Eq)]
pub enum Ending {
    /// Some disk is not on the last tower.
    Unsolved,
    /// The puzzle is solved, in more moves than were needed.
    Solved,
    /// The puzzle is solved in the smallest number of moves.
    SolvedOptimally,
}

/// What one command did: what to tell the player, and whether the session
/// goes on.
#[derive(Debug, Clone, Copy, PartialEq, Eq)]
pub struct Turn {
    pub outcome: Outcome,
    pub status: Status,
}

/// Whether nothing was typed on the line: it holds no character before its
/// end, which is the end of the text, a line feed, or a carriage return
/// with a line feed behind it.
pub open spec fn blank(line: Seq<char>) -> bool {
    ||| line.len() == 0
    ||| line[0] == '\n'
    ||| (line.len() >= 2 && line[0] == '\r' && line[1] == '\n')
}

impl Command {
    /// The command that a line of input stands for. Only the first
    /// character counts, and a line on which nothing was typed is empty
    /// whether or not it still carries its line end.
    pub open spec fn of(line: Seq<char>) -> Command {
        if blank(line) {
            Command::Empty
        } else if line[0] == 'q' {
            Command::Quit
        } else if line[0] == '2' {
            Command::Drop
        } else if line[0] == '8' {
            Command::Take
        } else if line[0] == '4' {
            Command::MoveLeft
        } else if line[0] == '6' {
            Command::MoveRight
        } else {
            Command::Unrecognized(line[0])
        }
    }

    /// Reads a command from a line of input, with or without its line end.
    pub fn parse(line: &str) -> (command: Command)
        ensures
            command == Command::of(line@),
    {
        let mut chars = line.chars();
        match chars.next() {
            None => Command::Empty,
            Some('\n') => Command::Empty,
            Some('\r') => match chars.next() {
                Some('\n') => Command::Empty,
                _ => Command::Unrecognized('\r'),
            },
            Some('q') => Command::Quit,
            Some('2') => Command::Drop,
            Some('8') => Command::Take,
            Some('4') => Command::MoveLeft,
            Some('6') => Command::MoveRight,
            Some(c) => Command::Unrecognized(c),
        }
    }
}

} // verus!
