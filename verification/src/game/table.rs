use vstd::prelude::*;

use crate::game::event::{Event, Player};

verus! {

/// The board: nine cells, row by row, each empty or holding a player's mark.
pub struct Table {
    pub state: [Option<Player>; 9],
}

/// The three board indices of a line of three cells that wins the game.
#[derive(Clone, Copy, PartialEq, Eq, Structural, Debug)]
pub struct Win(pub usize, pub usize, pub usize);

/// Why a move was refused.
#[derive(Clone, Copy, PartialEq, Eq, Structural, Debug)]
pub enum PlayError {
    /// The move names no cell of the board.
    IndexOutOfBounds,
    /// The cell already holds a mark.
    CellOccupied,
}

impl PlayError {
    /// The text shown for this error.
    pub open spec fn message(self) -> Seq<char> {
        match self {
            PlayError::IndexOutOfBounds => "Index out of bounds"@,
            PlayError::CellOccupied => "Cell already occupied"@,
        }
    }

    /// The text shown for this error, as an owned string.
    pub fn to_string(&self) -> (s: String)
        ensures
            s@ == self.message(),
    {
        match self {
            PlayError::IndexOutOfBounds => "Index out of bounds".to_owned(),
            PlayError::CellOccupied => "Cell already occupied".to_owned(),
        }
    }
}

impl View for Table {
    type V = Seq<Option<Player>>;

    open spec fn view(&self) -> Seq<Option<Player>> {
        self.state@
    }
}

/// The eight winning lines, in the order in which they are checked: the three
/// rows, the three columns, then the two diagonals.
pub open spec fn win_line(k: int) -> Win {
    if k == 0 {
        Win(0, 1, 2)
    } else if k == 1 {
        Win(3, 4, 5)
    } else if k == 2 {
        Win(6, 7, 8)
    } else if k == 3 {
        Win(0, 3, 6)
    } else if k == 4 {
        Win(1, 4, 7)
    } else if k == 5 {
        Win(2, 5, 8)
    } else if k == 6 {
        Win(0, 4, 8)
    } else {
        Win(2, 4, 6)
    }
}

/// The three cells of line `k` all hold the mark of the same player.
pub open spec fn line_won(board: Seq<Option<Player>>, k: int) -> bool {
    let w = win_line(k);
    &&& board[w.0 as int] is Some
    &&& board[w.0 as int] == board[w.1 as int]
    &&& board[w.1 as int] == board[w.2 as int]
}

/// The first complete line at index `k` or later of the list that
/// `check_wins` walks, with the player whose marks fill it.
pub open spec fn first_win_from(board: Seq<Option<Player>>, k: int) -> Option<(Player, Win)>
    decreases 8 - k,
{
    if k >= 8 {
        None
    } else if line_won(board, k) {
        Some((board[win_line(k).0 as int].unwrap(), win_line(k)))
    } else {
        first_win_from(board, k + 1)
    }
}

/// The winner of a board and the line that makes them win, as `check_wins`
/// reports it.
pub open spec fn winner(board: Seq<Option<Player>>) -> Option<(Player, Win)> {
    first_win_from(board, 0)
}

/// A win is reported exactly when some line is complete; the reported line is
/// the first complete one in checking order, and its cells hold the reported
/// player's mark.
pub proof fn lemma_winner_is_first_complete_line(board: Seq<Option<Player>>)
    ensures
        winner(board) is None <==> (forall|k: int| 0 <= k < 8 ==> !line_won(board, k)),
        winner(board) matches Some((p, w)) ==> exists|k: int|
            0 <= k < 8 && w == win_line(k) && line_won(board, k) && (forall|j: int| 0 <= j < k ==> !line_won(board, j))
                && board[w.0 as int] == Some(p) && board[w.1 as int] == Some(p) && board[w.2 as int] == Some(p),
{
    lemma_first_win_from(board, 0);
}

proof fn lemma_first_win_from(board: Seq<Option<Player>>, k: int)
    requires
        0 <= k <= 8,
    ensures
        first_win_from(board, k) is None <==> (forall|j: int| k <= j < 8 ==> !line_won(board, j)),
        first_win_from(board, k) matches Some((p, w)) ==> exists|i: int|
            k <= i < 8 && w == win_line(i) && line_won(board, i) && (forall|j: int| k <= j < i ==> !line_won(board, j))
                && board[w.0 as int] == Some(p) && board[w.1 as int] == Some(p) && board[w.2 as int] == Some(p),
    decreases 8 - k,
{
    if k < 8 {
        lemma_first_win_from(board, k + 1);
        if line_won(board, k) {
            assert(forall|j: int| k <= j < k ==> !line_won(board, j));
        }
    }
}

/// The board after `event`, and whether the move was taken: a move onto an
/// empty cell puts the player's mark there; a move onto a marked cell is
/// refused and leaves the board as it was.
pub open spec fn play_result(board: Seq<Option<Player>>, event: Event) -> (Seq<Option<Player>>, Result<(), PlayError>) {
    let i = event.play.cell();
    if board[i] is Some {
        (board, Err(PlayError::CellOccupied))
    } else {
        (board.update(i, Some(event.player)), Ok(()))
    }
}

/// A move onto an empty cell is always taken and puts the mover's mark on
/// that cell and on no other; a move onto a marked cell is always refused as
/// occupied and changes nothing. No move is ever refused as out of bounds.
pub proof fn lemma_play_takes_empty_cells(board: Seq<Option<Player>>, event: Event)
    requires
        board.len() == 9,
    ensures
        0 <= event.play.cell() < 9,
        board[event.play.cell()] is None ==> play_result(board, event).1 == Ok::<(), PlayError>(()),
        board[event.play.cell()] is None ==> play_result(board, event).0[event.play.cell()] == Some(event.player),
        board[event.play.cell()] is Some ==> play_result(board, event).1 == Err::<(), PlayError>(PlayError::CellOccupied),
        play_result(board, event).1 != Err::<(), PlayError>(PlayError::IndexOutOfBounds),
        play_result(board, event).0.len() == 9,
        forall|i: int| 0 <= i < 9 && i != event.play.cell() ==> play_result(board, event).0[i] == board[i],
        board[event.play.cell()] is Some ==> play_result(board, event).0 == board,
{
}

/// The eight lines are the three rows (top to bottom), the three columns
/// (left to right), the diagonal from the top left and the one from the top
/// right, checked in that order.
pub proof fn lemma_win_lines()
    ensures
        forall|r: int| 0 <= r < 3 ==> #[trigger] win_line(r) == Win((3 * r) as usize, (3 * r + 1) as usize, (3 * r + 2) as usize),
        forall|c: int| 0 <= c < 3 ==> #[trigger] win_line(3 + c) == Win(c as usize, (c + 3) as usize, (c + 6) as usize),
        win_line(6) == Win(0, 4, 8),
        win_line(7) == Win(2, 4, 6),
{
}

/// The winning line at index `k` of the list that `check_wins` walks.
fn line_at(k: usize) -> (w: Win)
    requires
        k < 8,
    ensures
        w == win_line(k as int),
{
    if k == 0 {
        Win(0, 1, 2)
    } else if k == 1 {
        Win(3, 4, 5)
    } else if k == 2 {
        Win(6, 7, 8)
    } else if k == 3 {
        Win(0, 3, 6)
    } else if k == 4 {
        Win(1, 4, 7)
    } else if k == 5 {
        Win(2, 5, 8)
    } else if k == 6 {
        Win(0, 4, 8)
    } else {
        Win(2, 4, 6)
    }
}

impl Table {
    /// An empty board.
    pub fn new() -> (t: Self)
        ensures
            forall|i: int| 0 <= i < 9 ==> t@[i] is None,
    {
        Self { state: [None; 9] }
    }

    /// Puts the mark of `event.player` on the cell `event.play`, unless that
    /// cell is already marked, in which case the board is left unchanged and
    /// `CellOccupied` is returned.
    pub fn play(&mut self, event: Event) -> (r: Result<(), PlayError>)
        ensures
            (final(self)@, r) == play_result(old(self)@, event),
            old(self)@[event.play.cell()] is None ==> r == Ok::<(), PlayError>(()) && final(self)@ == old(
                self,
            )@.update(event.play.cell(), Some(event.player)),
            old(self)@[event.play.cell()] is Some ==> r == Err::<(), PlayError>(PlayError::CellOccupied)
                && final(self)@ == old(self)@,
    {
        let index = event.play.index();
        if index >= 9 {
            return Err(PlayError::IndexOutOfBounds);
        }
        if self.state[index].is_some() {
            return Err(PlayError::CellOccupied);
        }
        self.state[index] = Some(event.player);
        Ok(())
    }

    /// The first winning line (rows, then columns, then diagonals) whose three
    /// cells hold the same player's mark, with that player; `None` when no
    /// line is complete.
    pub fn check_wins(&self) -> (r: Option<(Player, Win)>)
        ensures
            r == winner(self@),
    {
        let mut k: usize = 0;
        while k < 8
            invariant
                k <= 8,
                winner(self@) == first_win_from(self@, k as int),
            decreases 8 - k,
        {
            let w = line_at(k);
            let Win(a, b, c) = w;
            if let (Some(player_a), Some(player_b), Some(player_c)) = (self.state[a], self.state[b], self.state[c]) {
                if player_a == player_b && player_b == player_c {
                    return Some((player_a, Win(a, b, c)));
                }
            }
            k += 1;
        }
        None
    }
}

} // verus!
