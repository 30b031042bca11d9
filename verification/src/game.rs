use vstd::prelude::*;
use vstd::arithmetic::power2::lemma2_to64;
use vstd::arithmetic::power2::lemma_pow2_pos;
use vstd::arithmetic::power2::lemma_pow2_strictly_increases;
use vstd::bits::lemma_u64_shl_is_mul;
use crate::board::countdown;
use crate::board::lemma_initial_wf;
use crate::board::lemma_step_wf;
use crate::board::optimal_moves;
use crate::board::Board;
use crate::command::Command;
use crate::command::Ending;
use crate::command::Outcome;
use crate::command::Status;
use crate::command::Turn;
use crate::types::cursor::Cursor;
use crate::types::cursor::TOWERS;
use crate::types::disk::Disk;
use crate::types::disk::MAX_DISK_SIZE;
use crate::types::tower::Tower;

verus! {

/// A game of the puzzle: the three towers, the cursor, the number of disks
/// in play and the number of moves made.
#[derive(Debug)]
pub struct Game {
    towers: [Tower; 3],
    cursor: Cursor,
    moves: u32,
    disks: u8,
}

impl View for Game {
    type V = Board;

    closed spec fn view(&self) -> Board {
        Board {
            towers: Seq::new(TOWERS as nat, |i: int| self.towers[i]@),
            selected: self.cursor.selected_tower() as int,
            held: self.cursor.held(),
            moves: self.moves as nat,
            disks: self.disks as nat,
        }
    }
}

impl Game {
    /// The towers carry the identities 1, 2 and 3 from left to right.
    pub closed spec fn numbered(&self) -> bool {
        forall|i: int| 0 <= i < TOWERS ==> (#[trigger] self.towers[i]).id() == i + 1
    }

    /// What holds of every game: its board is well formed and its towers
    /// are numbered in their order.
    pub open spec fn inv(&self) -> bool {
        &&& self@.wf()
        &&& self.numbered()
    }

    /// Sets up a game of `disks` disks, all of them on the first tower, the
    /// largest at the bottom.
    pub fn new(disks: u8) -> (game: Game)
        requires
            disks <= MAX_DISK_SIZE,
        ensures
            game@ == Board::initial(disks as nat),
            game.inv(),
    {
        let mut towers = [Tower::new(1), Tower::new(2), Tower::new(3)];
        let cursor = Cursor::new();
        let mut size: u8 = disks;
        while size > 0
            invariant
                size <= disks <= MAX_DISK_SIZE,
                towers[0]@ == countdown(disks as nat).take(disks - size),
                towers[1]@ == Seq::<u8>::empty(),
                towers[2]@ == Seq::<u8>::empty(),
                forall|i: int| 0 <= i < TOWERS ==> (#[trigger] towers[i]).id() == i + 1,
            decreases size,
        {
            towers[0].push(Disk::new(size)).unwrap();
            assert(towers[0]@ == countdown(disks as nat).take(disks - size + 1));
            size = size - 1;
        }
        let game = Game { towers, cursor, moves: 0, disks };
        proof {
            assert(towers[0]@ == countdown(disks as nat));
            assert(game@.towers == Board::initial(disks as nat).towers);
            lemma_initial_wf(disks as nat);
        }
        game
    }

    /// The three towers, from left to right.
    pub fn towers(&self) -> (towers: &[Tower; 3])
        ensures
            forall|i: int| 0 <= i < TOWERS ==> (#[trigger] towers[i])@ == self@.towers[i],
            self.numbered() ==> forall|i: int|
                0 <= i < TOWERS ==> (#[trigger] towers[i]).id() == i + 1,
    {
        &self.towers
    }

    /// The cursor.
    pub fn cursor(&self) -> (cursor: &Cursor)
        ensures
            cursor.selected_tower() == self@.selected,
            cursor.held() == self@.held,
    {
        &self.cursor
    }

    /// The number of disks laid down so far.
    pub fn moves(&self) -> (moves: u32)
        ensures
            moves == self@.moves,
    {
        self.moves
    }

    /// The number of disks in play.
    pub fn disks(&self) -> (disks: u8)
        ensures
            disks == self@.disks,
    {
        self.disks
    }

    /// Whether the puzzle is solved: the last tower holds as many disks as
    /// are in play.
    pub fn solved(&self) -> (solved: bool)
        ensures
            solved <==> self@.towers[2].len() == self@.disks,
            solved == self@.solved(),
    {
        self.towers[2].len() == self.disks as usize
    }

    /// Where the session stands before the next command is read.
    pub fn status(&self) -> (status: Status)
        ensures
            status == self@.status(),
    {
        if self.solved() {
            Status::Won
        } else {
            Status::Playing
        }
    }

    /// Whether the moves made so far are exactly as many as count as
    /// optimal: two to the power of the number of disks, less one.
    pub fn is_optimal(&self) -> (optimal: bool)
        ensures
            optimal == (self@.moves == optimal_moves(self@.disks)),
    {
        if self.disks > 32 {
            proof {
                lemma2_to64();
                lemma_pow2_strictly_increases(32, self.disks as nat);
            }
            false
        } else {
            let shift: u64 = self.disks as u64;
            proof {
                lemma2_to64();
                lemma_pow2_pos(shift as nat);
                if shift < 32 {
                    lemma_pow2_strictly_increases(shift as nat, 32);
                }
                lemma_u64_shl_is_mul(1, shift);
            }
            let needed: u64 = (1u64 << shift) - 1;
            self.moves as u64 == needed
        }
    }

    /// How a session that stops here has ended.
    pub fn ending(&self) -> (ending: Ending)
        ensures
            ending == self@.ending(),
    {
        if !self.solved() {
            Ending::Unsolved
        } else if self.is_optimal() {
            Ending::SolvedOptimally
        } else {
            Ending::Solved
        }
    }

    /// Whether the game can carry out the command: the number of moves
    /// has room for the disk that the command would lay down.
    pub fn can_step(&self, command: Command) -> (can: bool)
        requires
            self.inv(),
        ensures
            can <==> (self@.outcome(command) is Dropped ==> self@.moves < u32::MAX),
    {
        match command {
            Command::Drop => self.moves < u32::MAX || !self.cursor.can_drop(&self.towers),
            _ => true,
        }
    }

    /// Carries out one command of the player.
    pub fn step(&mut self, command: Command) -> (turn: Turn)
        requires
            old(self).inv(),
            old(self)@.outcome(command) is Dropped ==> old(self)@.moves < u32::MAX,
        ensures
            final(self).inv(),
            final(self)@ == old(self)@.step(command),
            turn.outcome == old(self)@.outcome(command),
            turn.status == final(self)@.status_after(command),
    {
        proof {
            lemma_step_wf(self@, command);
        }
        let outcome = match command {
            Command::Quit => Outcome::Quit,
            Command::Drop => match self.cursor.drop(&mut self.towers) {
                Ok(()) => {
                    self.moves = self.moves + 1;
                    Outcome::Dropped
                },
                Err(e) => Outcome::DropFailed(e),
            },
            Command::Take => match self.cursor.take(&mut self.towers) {
                Ok(()) => Outcome::Took,
                Err(e) => Outcome::TakeFailed(e),
            },
            Command::MoveLeft => {
                let place = self.cursor.selected_tower();
                if place > 1 {
                    self.cursor.select(place - 1);
                    Outcome::MovedLeft
                } else {
                    Outcome::AtLeftEdge
                }
            },
            Command::MoveRight => {
                let place = self.cursor.selected_tower();
                if place < 3 {
                    self.cursor.select(place + 1);
                    Outcome::MovedRight
                } else {
                    Outcome::AtRightEdge
                }
            },
            Command::Unrecognized(c) => Outcome::Unrecognized(c),
            Command::Empty => Outcome::EmptyInput,
        };
        assert(self@.towers == old(self)@.step(command).towers);
        let status = match command {
            Command::Quit => Status::Quit,
            _ => self.status(),
        };
        Turn { outcome, status }
    }
}

} // verus!
