use vstd::prelude::*;
use vstd::arithmetic::power2::pow2;
use vstd::multiset::Multiset;
use crate::command::Command;
use crate::command::Ending;
use crate::command::Outcome;
use crate::command::Status;
use crate::types::cursor::TOWERS;
use crate::types::disk::MAX_DISK_SIZE;
use crate::types::errors::CursorError;
use crate::types::errors::TowerError;
use crate::types::tower::descending;
use crate::types::tower::fits;
use crate::types::tower::lemma_descending_unique;

verus! {

/// The stack that a game of `disks` disks starts with: the sizes from
/// `disks` at the bottom down to 1 at the top.
pub open spec fn countdown(disks: nat) -> Seq<u8> {
    Seq::new(disks, |i: int| (disks - i) as u8)
}

/// The number of moves that counts as optimal for `disks` disks: two to the
/// power of `disks`, less one.
pub open spec fn optimal_moves(disks: nat) -> nat {
    (pow2(disks) - 1) as nat
}

/// The state of a game as mathematics sees it.
pub struct Board {
    /// The stacks of the three towers from left to right, each from the
    /// bottom to the top.
    pub towers: Seq<Seq<u8>>,
    /// The place of the tower that the cursor points at: 1, 2 or 3.
    pub selected: int,
    /// The size of the disk in the hand, if there is one.
    pub held: Option<u8>,
    /// The number of disks laid down so far.
    pub moves: nat,
    /// The number of disks in play.
    pub disks: nat,
}

impl Board {
    /// The board that a game of `disks` disks starts from.
    pub open spec fn initial(disks: nat) -> Board {
        Board {
            towers: seq![countdown(disks), Seq::empty(), Seq::empty()],
            selected: 1,
            held: None,
            moves: 0,
            disks,
        }
    }

    /// The disks in the hand.
    pub open spec fn hand(self) -> Multiset<u8> {
        match self.held {
            Some(size) => Multiset::singleton(size),
            None => Multiset::empty(),
        }
    }

    /// All the disks of the board: those on the towers and the one in the
    /// hand.
    pub open spec fn all_disks(self) -> Multiset<u8> {
        self.towers[0].to_multiset().add(self.towers[1].to_multiset()).add(
            self.towers[2].to_multiset(),
        ).add(self.hand())
    }

    /// What holds of every board that a game can reach: there are three
    /// towers, on each of them every disk is smaller than the one beneath
    /// it, the cursor points at one of them, and the disks on the board are
    /// those that the game started with.
    pub open spec fn wf(self) -> bool {
        &&& self.towers.len() == TOWERS
        &&& forall|i: int| 0 <= i < TOWERS ==> descending(#[trigger] self.towers[i])
        &&& 1 <= self.selected <= TOWERS
        &&& self.disks <= MAX_DISK_SIZE
        &&& self.all_disks() == countdown(self.disks).to_multiset()
    }

    /// The stack of the selected tower.
    pub open spec fn stack(self) -> Seq<u8> {
        self.towers[self.selected - 1]
    }

    /// The board with `stack` on the selected tower.
    pub open spec fn with_stack(self, stack: Seq<u8>) -> Board {
        Board { towers: self.towers.update(self.selected - 1, stack), ..self }
    }

    /// What the cursor answers when asked to take a disk.
    pub open spec fn take_result(self) -> Result<(), CursorError> {
        match self.held {
            Some(size) => Err(CursorError::AlreadyHoldingADisk { size }),
            None => if self.stack().len() == 0 {
                Err(CursorError::TE(TowerError::NoDisksOnTower))
            } else {
                Ok(())
            },
        }
    }

    /// The board after the cursor was asked to take a disk.
    pub open spec fn take(self) -> Board {
        if self.take_result() is Ok {
            Board { held: Some(self.stack().last()), ..self.with_stack(self.stack().drop_last()) }
        } else {
            self
        }
    }

    /// What the cursor answers when asked to drop its disk.
    pub open spec fn drop_result(self) -> Result<(), CursorError> {
        match self.held {
            None => Err(CursorError::NoDisksToDrop),
            Some(size) => if fits(self.stack(), size) {
                Ok(())
            } else {
                Err(CursorError::CannotDropDiskOnTower)
            },
        }
    }

    /// The board after the cursor was asked to drop its disk. A disk laid
    /// down counts as one move.
    pub open spec fn drop(self) -> Board {
        if self.drop_result() is Ok {
            Board {
                held: None,
                moves: self.moves + 1,
                ..self.with_stack(self.stack().push(self.held->0))
            }
        } else {
            self
        }
    }

    /// The board after the cursor was asked to go left.
    pub open spec fn left(self) -> Board {
        if self.selected > 1 {
            Board { selected: self.selected - 1, ..self }
        } else {
            self
        }
    }

    /// The board after the cursor was asked to go right.
    pub open spec fn right(self) -> Board {
        if self.selected < TOWERS {
            Board { selected: self.selected + 1, ..self }
        } else {
            self
        }
    }

    /// The board after one command.
    pub open spec fn step(self, command: Command) -> Board {
        match command {
            Command::Drop => self.drop(),
            Command::Take => self.take(),
            Command::MoveLeft => self.left(),
            Command::MoveRight => self.right(),
            Command::Quit | Command::Unrecognized(_) | Command::Empty => self,
        }
    }

    /// What the player is told after one command.
    pub open spec fn outcome(self, command: Command) -> Outcome {
        match command {
            Command::Quit => Outcome::Quit,
            Command::Drop => match self.drop_result() {
                Ok(()) => Outcome::Dropped,
                Err(e) => Outcome::DropFailed(e),
            },
            Command::Take => match self.take_result() {
                Ok(()) => Outcome::Took,
                Err(e) => Outcome::TakeFailed(e),
            },
            Command::MoveLeft => if self.selected > 1 {
                Outcome::MovedLeft
            } else {
                Outcome::AtLeftEdge
            },
            Command::MoveRight => if self.selected < TOWERS {
                Outcome::MovedRight
            } else {
                Outcome::AtRightEdge
            },
            Command::Unrecognized(c) => Outcome::Unrecognized(c),
            Command::Empty => Outcome::EmptyInput,
        }
    }

    /// Whether the puzzle is solved: the last tower holds as many disks as
    /// are in play.
    pub open spec fn solved(self) -> bool {
        self.towers[2].len() == self.disks
    }

    /// Where the session stands before the next command is read.
    pub open spec fn status(self) -> Status {
        if self.solved() {
            Status::Won
        } else {
            Status::Playing
        }
    }

    /// Where the session stands once `command` has led to this board.
    pub open spec fn status_after(self, command: Command) -> Status {
        if command is Quit {
            Status::Quit
        } else {
            self.status()
        }
    }

    /// How a session that stops at this board has ended.
    pub open spec fn ending(self) -> Ending {
        if !self.solved() {
            Ending::Unsolved
        } else if self.moves == optimal_moves(self.disks) {
            Ending::SolvedOptimally
        } else {
            Ending::Solved
        }
    }
}

/// The board that a game starts from is well formed.
pub proof fn lemma_initial_wf(disks: nat)
    requires
        disks <= MAX_DISK_SIZE,
    ensures
        Board::initial(disks).wf(),
{
    let board = Board::initial(disks);
    let empty = Seq::<u8>::empty();
    assert(empty.to_multiset() =~= Multiset::empty()) by {
        empty.to_multiset_ensures();
    }
    assert(board.all_disks() =~= countdown(disks).to_multiset());
}

/// Taking a disk leaves a well-formed board well formed.
pub proof fn lemma_take_wf(board: Board)
    requires
        board.wf(),
    ensures
        board.take().wf(),
        board.take().all_disks() == board.all_disks(),
{
    if board.take_result() is Ok {
        let stack = board.stack();
        assert(stack.drop_last().push(stack.last()) =~= stack);
        stack.drop_last().to_multiset_ensures();
        assert(board.take().all_disks() =~= board.all_disks());
    }
}

/// Dropping the disk leaves a well-formed board well formed.
pub proof fn lemma_drop_wf(board: Board)
    requires
        board.wf(),
    ensures
        board.drop().wf(),
        board.drop().all_disks() == board.all_disks(),
{
    if board.drop_result() is Ok {
        let stack = board.stack();
        stack.to_multiset_ensures();
        assert(board.drop().all_disks() =~= board.all_disks());
    }
}

/// No command leads from a well-formed board to one that is not, and no
/// command adds a disk to the board or takes one away.
pub proof fn lemma_step_wf(board: Board, command: Command)
    requires
        board.wf(),
    ensures
        board.step(command).wf(),
        board.step(command).all_disks() == board.all_disks(),
        board.step(command).disks == board.disks,
{
    lemma_take_wf(board);
    lemma_drop_wf(board);
}

/// The board after the given commands, carried out one after the other.
pub open spec fn played(board: Board, commands: Seq<Command>) -> Board
    decreases commands.len(),
{
    if commands.len() == 0 {
        board
    } else {
        played(board, commands.drop_last()).step(commands.last())
    }
}

/// How many of the given commands, carried out one after the other, lay a
/// disk down.
pub open spec fn drops(board: Board, commands: Seq<Command>) -> nat
    decreases commands.len(),
{
    if commands.len() == 0 {
        0
    } else {
        let before = played(board, commands.drop_last());
        let dropped: nat = if before.outcome(commands.last()) is Dropped {
            1
        } else {
            0
        };
        drops(board, commands.drop_last()) + dropped
    }
}

/// Whatever the player does, a well-formed board stays well formed and
/// holds the disks that it held before.
pub proof fn lemma_played_wf(board: Board, commands: Seq<Command>)
    requires
        board.wf(),
    ensures
        played(board, commands).wf(),
        played(board, commands).all_disks() == board.all_disks(),
        played(board, commands).disks == board.disks,
    decreases commands.len(),
{
    if commands.len() > 0 {
        lemma_played_wf(board, commands.drop_last());
        lemma_step_wf(played(board, commands.drop_last()), commands.last());
    }
}

/// The hand never holds more than one disk.
pub proof fn lemma_hand_holds_at_most_one(board: Board)
    ensures
        board.hand().len() <= 1,
{
}

/// A drop that the tower refuses changes nothing: the disk is still in the
/// hand and every tower is as it was.
pub proof fn lemma_refused_drop_changes_nothing(board: Board)
    requires
        board.drop_result() == Err::<(), CursorError>(CursorError::CannotDropDiskOnTower),
    ensures
        board.held is Some,
        board.drop().held == board.held,
        board.drop() == board,
{
}

/// The cursor never leaves the three towers: a step to the left from the
/// first tower or to the right from the last changes nothing, any other
/// step to the side goes to the tower next to the selected one, and no
/// other command moves the cursor.
pub proof fn lemma_cursor_stays_on_board(board: Board, command: Command)
    requires
        1 <= board.selected <= TOWERS,
    ensures
        1 <= board.step(command).selected <= TOWERS,
        command is MoveLeft && board.selected == 1 ==> board.step(command) == board,
        command is MoveRight && board.selected == TOWERS ==> board.step(command) == board,
        command is MoveLeft && board.selected > 1 ==> board.step(command).selected
            == board.selected - 1,
        command is MoveRight && board.selected < TOWERS ==> board.step(command).selected
            == board.selected + 1,
        !(command is MoveLeft || command is MoveRight) ==> board.step(command).selected
            == board.selected,
{
}

/// A command adds one to the number of moves if it lays a disk down, and
/// leaves the number as it is otherwise.
pub proof fn lemma_step_counts_drop(board: Board, command: Command)
    ensures
        board.outcome(command) is Dropped ==> board.step(command).moves == board.moves + 1,
        !(board.outcome(command) is Dropped) ==> board.step(command).moves == board.moves,
{
}

/// The number of moves grows by the number of disks laid down, whatever
/// else the player does in between.
pub proof fn lemma_moves_count_drops(board: Board, commands: Seq<Command>)
    ensures
        played(board, commands).moves == board.moves + drops(board, commands),
    decreases commands.len(),
{
    if commands.len() > 0 {
        lemma_moves_count_drops(board, commands.drop_last());
        lemma_step_counts_drop(played(board, commands.drop_last()), commands.last());
    }
}

/// On a well-formed board the towers and the hand together hold as many
/// disks as are in play.
pub proof fn lemma_disk_count(board: Board)
    requires
        board.wf(),
    ensures
        board.towers[0].len() + board.towers[1].len() + board.towers[2].len()
            + board.hand().len() == board.disks,
{
    board.towers[0].to_multiset_ensures();
    board.towers[1].to_multiset_ensures();
    board.towers[2].to_multiset_ensures();
    countdown(board.disks).to_multiset_ensures();
}

/// A board that is not solved becomes solved only by a disk laid on the
/// last tower.
pub proof fn lemma_solved_by_drop(board: Board, command: Command)
    requires
        board.wf(),
        !board.solved(),
        board.step(command).solved(),
    ensures
        board.outcome(command) is Dropped,
        board.selected == TOWERS,
{
    lemma_disk_count(board);
}

/// There is one solved board for each number of disks and moves: all the
/// disks lie on the last tower, the largest at the bottom, and the hand
/// is empty.
pub proof fn lemma_solved_board(board: Board)
    requires
        board.wf(),
        board.solved(),
    ensures
        board.towers[0] == Seq::<u8>::empty(),
        board.towers[1] == Seq::<u8>::empty(),
        board.towers[2] == countdown(board.disks),
        board.held is None,
{
    lemma_disk_count(board);
    assert(board.towers[0] =~= Seq::<u8>::empty());
    assert(board.towers[1] =~= Seq::<u8>::empty());
    Seq::<u8>::empty().to_multiset_ensures();
    assert(board.all_disks() =~= board.towers[2].to_multiset());
    lemma_descending_unique(board.towers[2], countdown(board.disks));
}

} // verus!
