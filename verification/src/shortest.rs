use vstd::prelude::*;
use vstd::arithmetic::power2::lemma2_to64;
use vstd::arithmetic::power2::lemma_pow2_unfold;
use vstd::arithmetic::power2::pow2;
use crate::board::countdown;
use crate::board::lemma_drop_wf;
use crate::board::lemma_initial_wf;
use crate::board::lemma_played_wf;
use crate::board::lemma_solved_board;
use crate::board::lemma_take_wf;
use crate::board::optimal_moves;
use crate::board::played;
use crate::board::Board;
use crate::command::Command;
use crate::types::disk::MAX_DISK_SIZE;
use crate::types::cursor::TOWERS;
use crate::types::tower::descending;
use crate::types::tower::fits;

verus! {

/// The tower that is neither `a` nor `b`, the towers counted from 0.
pub open spec fn third(a: int, b: int) -> int {
    TOWERS - a - b
}

/// Whether every place in `places` is one of the three towers, counted
/// from 0.
pub open spec fn on_towers(places: Seq<int>) -> bool {
    forall|i: int| 0 <= i < places.len() ==> 0 <= #[trigger] places[i] < TOWERS
}

/// The number of moves that it takes at least to bring the `count`
/// smallest disks onto the tower `target`, where `places[i]` is the tower
/// on which the disk of size `i + 1` lies. A disk that is not on the target
/// has to go there once, with all the smaller ones out of its way on the
/// third tower.
pub open spec fn distance(places: Seq<int>, count: nat, target: int) -> nat
    decreases count,
{
    if count == 0 {
        0
    } else if places[count - 1] == target {
        distance(places, (count - 1) as nat, target)
    } else {
        distance(places, (count - 1) as nat, third(places[count - 1], target)) + pow2(
            (count - 1) as nat,
        )
    }
}

/// The distance for the `count` smallest disks depends on their places
/// alone.
pub proof fn lemma_distance_of_smaller(a: Seq<int>, b: Seq<int>, count: nat, target: int)
    requires
        forall|i: int| 0 <= i < count ==> a[i] == b[i],
    ensures
        distance(a, count, target) == distance(b, count, target),
    decreases count,
{
    if count > 0 {
        lemma_distance_of_smaller(a, b, (count - 1) as nat, target);
        lemma_distance_of_smaller(a, b, (count - 1) as nat, third(a[count - 1], target));
    }
}

/// Disks that are stacked on one tower are there already, or take two to
/// the power of their number, less one, moves to any other tower.
pub proof fn lemma_distance_of_stacked(places: Seq<int>, count: nat, from: int, target: int)
    requires
        0 <= from < TOWERS,
        0 <= target < TOWERS,
        forall|i: int| 0 <= i < count ==> places[i] == from,
    ensures
        distance(places, count, target) == if target == from {
            0
        } else {
            pow2(count) - 1
        },
    decreases count,
{
    if count > 0 {
        lemma_distance_of_stacked(places, (count - 1) as nat, from, target);
        if target != from {
            lemma_distance_of_stacked(places, (count - 1) as nat, from, third(from, target));
        }
        lemma_pow2_unfold(count);
    } else {
        lemma2_to64();
    }
}

/// One move of a disk shortens the distance by one at most. The disk of
/// size `disk` goes to the tower `to`, which it can when all the smaller
/// disks are on the third tower.
pub proof fn lemma_move_shortens_by_one(
    places: Seq<int>,
    disk: int,
    to: int,
    count: nat,
    target: int,
)
    requires
        on_towers(places),
        1 <= disk <= places.len(),
        count <= places.len(),
        0 <= to < TOWERS,
        0 <= target < TOWERS,
        forall|i: int| 0 <= i < disk - 1 ==> #[trigger] places[i] == third(places[disk - 1], to),
    ensures
        distance(places.update(disk - 1, to), count, target) + 1 >= distance(
            places,
            count,
            target,
        ),
    decreases count,
{
    let moved = places.update(disk - 1, to);
    let from = places[disk - 1];
    if from == to {
        assert(moved =~= places);
    } else if count < disk {
        lemma_distance_of_smaller(places, moved, count, target);
    } else if count == disk {
        let rest = (count - 1) as nat;
        let aside = third(from, to);
        lemma_distance_of_stacked(places, rest, aside, target);
        lemma_distance_of_stacked(moved, rest, aside, target);
        if target != from {
            lemma_distance_of_stacked(places, rest, aside, third(from, target));
        }
        if target != to {
            lemma_distance_of_stacked(moved, rest, aside, third(to, target));
        }
    } else {
        let rest = (count - 1) as nat;
        if places[count - 1] == target {
            lemma_move_shortens_by_one(places, disk, to, rest, target);
        } else {
            lemma_move_shortens_by_one(places, disk, to, rest, third(places[count - 1], target));
        }
    }
}

/// The tower on which the disk of size `size` lies, counted from 0.
pub open spec fn tower_of(board: Board, size: u8) -> int {
    if board.towers[0].contains(size) {
        0
    } else if board.towers[1].contains(size) {
        1
    } else {
        2
    }
}

/// The places of the disks on the board, where the disk in the hand
/// counts as lying on the tower `hand`.
pub open spec fn places(board: Board, hand: int) -> Seq<int> {
    Seq::new(
        board.disks,
        |i: int|
            if board.held == Some((i + 1) as u8) {
                hand
            } else {
                tower_of(board, (i + 1) as u8)
            },
    )
}

/// The distance to the solved board once the disk in the hand is laid on
/// `tower`, if that tower accepts it.
pub open spec fn landing(board: Board, tower: int) -> Option<nat> {
    if board.held is Some && fits(board.towers[tower], board.held->0) {
        Some(distance(places(board, tower), board.disks, 2))
    } else {
        None
    }
}

/// The smaller of two numbers, of which either may be missing.
pub open spec fn least(a: Option<nat>, b: Option<nat>) -> Option<nat> {
    match (a, b) {
        (Some(x), Some(y)) => Some(if x <= y { x } else { y }),
        (Some(x), None) => Some(x),
        (None, _) => b,
    }
}

/// A number of moves that every way from this board to the solved one
/// takes at least. With a disk in the hand, that disk has yet to be laid
/// down, on the tower that suits best.
pub open spec fn moves_left(board: Board) -> nat {
    match board.held {
        None => distance(places(board, 0), board.disks, 2),
        Some(_) => match least(least(landing(board, 0), landing(board, 1)), landing(board, 2)) {
            Some(n) => n + 1,
            None => 0,
        },
    }
}

/// The stack that a game starts with holds each size up to the number of
/// disks once, and no other.
proof fn lemma_countdown_counts(disks: nat, size: u8)
    requires
        disks <= u8::MAX,
    ensures
        countdown(disks).to_multiset().count(size) == if 1 <= size <= disks {
            1nat
        } else {
            0nat
        },
{
    let stack = countdown(disks);
    stack.to_multiset_ensures();
    stack.lemma_multiset_has_no_duplicates();
    if 1 <= size <= disks {
        assert(stack[disks - size] == size);
        assert(stack.contains(size));
    }
}

/// On a well-formed board a disk that is not in the hand lies on exactly
/// one tower.
proof fn lemma_on_one_tower(board: Board, size: u8)
    requires
        board.wf(),
        1 <= size <= board.disks,
        board.held != Some(size),
    ensures
        0 <= tower_of(board, size) < TOWERS,
        board.towers[tower_of(board, size)].contains(size),
        forall|r: int|
            0 <= r < TOWERS && r != tower_of(board, size) ==> !(#[trigger] board.towers[r]).contains(
                size,
            ),
{
    lemma_countdown_counts(board.disks, size);
    board.towers[0].to_multiset_ensures();
    board.towers[1].to_multiset_ensures();
    board.towers[2].to_multiset_ensures();
}

/// On a well-formed board the disk in the hand is one of the disks in
/// play and lies on no tower.
proof fn lemma_held_on_no_tower(board: Board)
    requires
        board.wf(),
        board.held is Some,
    ensures
        1 <= board.held->0 <= board.disks,
        forall|r: int| 0 <= r < TOWERS ==> !(#[trigger] board.towers[r]).contains(board.held->0),
{
    lemma_countdown_counts(board.disks, board.held->0);
    board.towers[0].to_multiset_ensures();
    board.towers[1].to_multiset_ensures();
    board.towers[2].to_multiset_ensures();
}

/// A stack that accepts a disk holds larger disks only.
proof fn lemma_accepts_over_larger(stack: Seq<u8>, size: u8)
    requires
        descending(stack),
        fits(stack, size),
    ensures
        forall|other: u8| other <= size ==> !stack.contains(other),
{
}

/// With a disk in the hand, laying it on one accepting tower or on another
/// makes a difference of one move at most.
proof fn lemma_landings_differ_by_one(board: Board, a: int, b: int)
    requires
        board.wf(),
        0 <= a < TOWERS,
        0 <= b < TOWERS,
        landing(board, a) is Some,
        landing(board, b) is Some,
    ensures
        landing(board, b)->0 + 1 >= landing(board, a)->0,
{
    let size = board.held->0;
    let before = places(board, a);
    lemma_held_on_no_tower(board);
    assert(on_towers(before)) by {
        assert forall|i: int| 0 <= i < before.len() implies 0 <= #[trigger] before[i] < TOWERS by {
            if board.held != Some((i + 1) as u8) {
                lemma_on_one_tower(board, (i + 1) as u8);
            }
        }
    }
    if a != b {
        assert forall|i: int| 0 <= i < size - 1 implies #[trigger] before[i] == third(a, b) by {
            let small = (i + 1) as u8;
            lemma_on_one_tower(board, small);
            lemma_accepts_over_larger(board.towers[a], size);
            lemma_accepts_over_larger(board.towers[b], size);
        }
        assert(before.update(size - 1, b) =~= places(board, b));
        lemma_move_shortens_by_one(before, size as int, b, board.disks, 2);
    }
}

/// Taking a disk brings the solved board no nearer.
proof fn lemma_take_keeps_moves_left(board: Board)
    requires
        board.wf(),
    ensures
        moves_left(board.take()) >= moves_left(board),
{
    if board.take_result() is Ok {
        let from = board.selected - 1;
        let stack = board.stack();
        let size = stack.last();
        let taken = board.take();
        lemma_take_wf(board);
        lemma_held_on_no_tower(taken);
        assert(stack.contains(size));
        assert(places(taken, from) =~= places(board, 0)) by {
            assert forall|i: int| 0 <= i < board.disks implies places(taken, from)[i] == places(
                board,
                0,
            )[i] by {
                let other = (i + 1) as u8;
                lemma_on_one_tower(board, other);
                if other != size {
                    lemma_on_one_tower(taken, other);
                    let at = tower_of(board, other);
                    if at == from {
                        let k = choose|k: int| 0 <= k < stack.len() && stack[k] == other;
                        assert(stack.drop_last()[k] == other);
                    }
                    assert(taken.towers[at].contains(other));
                }
            }
        }
        assert(landing(taken, from) is Some);
        if landing(taken, 0) is Some {
            lemma_landings_differ_by_one(taken, from, 0);
        }
        if landing(taken, 1) is Some {
            lemma_landings_differ_by_one(taken, from, 1);
        }
        if landing(taken, 2) is Some {
            lemma_landings_differ_by_one(taken, from, 2);
        }
    }
}

/// Laying a disk down brings the solved board nearer by one move at most.
proof fn lemma_drop_shortens_by_one(board: Board)
    requires
        board.wf(),
    ensures
        board.drop_result() is Ok ==> moves_left(board.drop()) + 1 >= moves_left(board),
        !(board.drop_result() is Ok) ==> moves_left(board.drop()) == moves_left(board),
{
    if board.drop_result() is Ok {
        let to = board.selected - 1;
        let size = board.held->0;
        let laid = board.drop();
        lemma_drop_wf(board);
        lemma_held_on_no_tower(board);
        assert(laid.towers[to].last() == size);
        assert(laid.towers[to].contains(size));
        assert(places(laid, 0) =~= places(board, to)) by {
            assert forall|i: int| 0 <= i < board.disks implies places(laid, 0)[i] == places(
                board,
                to,
            )[i] by {
                let other = (i + 1) as u8;
                lemma_on_one_tower(laid, other);
                if other != size {
                    lemma_on_one_tower(board, other);
                    let at = tower_of(board, other);
                    if at == to {
                        let k = choose|k: int|
                            0 <= k < board.stack().len() && board.stack()[k] == other;
                        assert(laid.towers[to][k] == other);
                    }
                    assert(laid.towers[at].contains(other));
                }
            }
        }
        assert(landing(board, to) is Some);
    }
}

/// Where the cursor points makes no difference to the moves that are
/// left.
proof fn lemma_moves_left_wherever_selected(board: Board, selected: int)
    ensures
        moves_left(Board { selected, ..board }) == moves_left(board),
{
    let turned = Board { selected, ..board };
    assert(places(turned, 0) =~= places(board, 0));
    assert(places(turned, 1) =~= places(board, 1));
    assert(places(turned, 2) =~= places(board, 2));
}

/// A command that lays a disk down brings the solved board nearer by one
/// move at most, and no other command brings it nearer at all.
pub proof fn lemma_step_shortens_by_one(board: Board, command: Command)
    requires
        board.wf(),
    ensures
        moves_left(board.step(command)) + board.step(command).moves >= moves_left(board)
            + board.moves,
{
    match command {
        Command::Take => lemma_take_keeps_moves_left(board),
        Command::Drop => {
            lemma_drop_shortens_by_one(board);
            if board.drop_result() is Ok {
                let laid = board.drop();
                assert(places(Board { moves: board.moves, ..laid }, 0) =~= places(laid, 0));
            }
        },
        Command::MoveLeft => lemma_moves_left_wherever_selected(board, board.selected - 1),
        Command::MoveRight => lemma_moves_left_wherever_selected(board, board.selected + 1),
        _ => {},
    }
}

/// However the player goes on from a well-formed board, the moves made and
/// the moves left never add up to less than they did.
pub proof fn lemma_played_shortens_by_moves(board: Board, commands: Seq<Command>)
    requires
        board.wf(),
    ensures
        moves_left(played(board, commands)) + played(board, commands).moves >= moves_left(board)
            + board.moves,
    decreases commands.len(),
{
    if commands.len() > 0 {
        lemma_played_shortens_by_moves(board, commands.drop_last());
        lemma_played_wf(board, commands.drop_last());
        lemma_step_shortens_by_one(played(board, commands.drop_last()), commands.last());
    }
}

/// At the start of a game as many moves are left as count as optimal.
pub proof fn lemma_moves_left_at_start(disks: nat)
    requires
        disks <= MAX_DISK_SIZE,
    ensures
        moves_left(Board::initial(disks)) == optimal_moves(disks),
{
    let board = Board::initial(disks);
    lemma_initial_wf(disks);
    assert forall|i: int| 0 <= i < disks implies places(board, 0)[i] == 0 by {
        lemma_on_one_tower(board, (i + 1) as u8);
    }
    lemma_distance_of_stacked(places(board, 0), disks, 0, 2);
}

/// On a solved board no move is left.
pub proof fn lemma_moves_left_when_solved(board: Board)
    requires
        board.wf(),
        board.solved(),
    ensures
        moves_left(board) == 0,
{
    lemma_solved_board(board);
    assert forall|i: int| 0 <= i < board.disks implies places(board, 0)[i] == 2 by {
        lemma_on_one_tower(board, (i + 1) as u8);
    }
    lemma_distance_of_stacked(places(board, 0), board.disks, 2, 2);
}

/// No sequence of commands solves the puzzle in fewer moves than count as
/// optimal: two to the power of the number of disks, less one.
pub proof fn lemma_no_shorter_solution(disks: nat, commands: Seq<Command>)
    requires
        disks <= MAX_DISK_SIZE,
        played(Board::initial(disks), commands).solved(),
    ensures
        played(Board::initial(disks), commands).moves >= optimal_moves(disks),
{
    let board = Board::initial(disks);
    lemma_initial_wf(disks);
    lemma_played_wf(board, commands);
    lemma_played_shortens_by_moves(board, commands);
    lemma_moves_left_at_start(disks);
    lemma_moves_left_when_solved(played(board, commands));
}

} // verus!
