pub mod event;
pub mod table;

use vstd::prelude::*;

use crate::game::event::{Event, Play, Player};
use crate::vga::{center_fits, drawn, VgaWriter};
use crate::game::table::{
    lemma_winner_is_first_complete_line, line_won, play_result, win_line, winner, PlayError, Table, Win,
};

verus! {

/// What the turn loop carries from one round of key presses to the next: the
/// board and the player whose turn it is.
pub struct Game {
    pub table: Table,
    pub player: Player,
}

/// The board, the player to move and the refused moves, in order, after the
/// moves `plays` are tried one after the other from `board` with `player` to
/// move: a move that is taken passes the turn, a refused one does not.
pub open spec fn round_result(board: Seq<Option<Player>>, player: Player, plays: Seq<Play>) -> (
    Seq<Option<Player>>,
    Player,
    Seq<PlayError>,
)
    decreases plays.len(),
{
    if plays.len() == 0 {
        (board, player, seq![])
    } else {
        let (b, p, errs) = round_result(board, player, plays.drop_last());
        let (b2, r) = play_result(b, Event { play: plays.last(), player: p });
        match r {
            Ok(_) => (b2, p.other(), errs),
            Err(e) => (b2, p, errs.push(e)),
        }
    }
}

/// The number of cells of `board` that hold `p`'s mark.
pub open spec fn marks(board: Seq<Option<Player>>, p: Player) -> nat
    decreases board.len(),
{
    if board.len() == 0 {
        0
    } else {
        marks(board.drop_last(), p) + if board.last() == Some(p) {
            1nat
        } else {
            0nat
        }
    }
}

/// X moves first and the players alternate: X has as many marks as O when X
/// is to move, and one more when O is to move.
pub open spec fn turn_order_holds(board: Seq<Option<Player>>, to_move: Player) -> bool {
    marks(board, Player::X) == marks(board, Player::O) + if to_move == Player::O {
        1nat
    } else {
        0nat
    }
}

proof fn lemma_marks_empty(board: Seq<Option<Player>>, p: Player)
    requires
        forall|i: int| 0 <= i < board.len() ==> board[i] is None,
    ensures
        marks(board, p) == 0,
    decreases board.len(),
{
    if board.len() > 0 {
        lemma_marks_empty(board.drop_last(), p);
    }
}

proof fn lemma_marks_update(board: Seq<Option<Player>>, i: int, p: Player, q: Player)
    requires
        0 <= i < board.len(),
        board[i] is None,
    ensures
        marks(board.update(i, Some(p)), q) == marks(board, q) + if p == q {
            1nat
        } else {
            0nat
        },
    decreases board.len(),
{
    let b2 = board.update(i, Some(p));
    if i == board.len() - 1 {
        assert(b2.drop_last() =~= board.drop_last());
    } else {
        assert(b2.drop_last() =~= board.drop_last().update(i, Some(p)));
        lemma_marks_update(board.drop_last(), i, p, q);
    }
}

/// Every round keeps the turn order: if X has as many marks as O when X is
/// to move (one more when O is to move) before the round, the same holds
/// after it, whatever keys were pressed.
pub proof fn lemma_round_keeps_turn_order(board: Seq<Option<Player>>, player: Player, plays: Seq<Play>)
    requires
        board.len() == 9,
        turn_order_holds(board, player),
    ensures
        round_result(board, player, plays).0.len() == 9,
        turn_order_holds(round_result(board, player, plays).0, round_result(board, player, plays).1),
    decreases plays.len(),
{
    if plays.len() > 0 {
        lemma_round_keeps_turn_order(board, player, plays.drop_last());
        let (b, p, errs) = round_result(board, player, plays.drop_last());
        let i = plays.last().cell();
        if b[i] is None {
            lemma_marks_update(b, i, p, Player::X);
            lemma_marks_update(b, i, p, Player::O);
        }
    }
}

/// Every move of a round is accounted for: each one either puts a new mark
/// on the board or is refused, and every refusal is for an occupied cell.
pub proof fn lemma_round_accounts_for_every_move(board: Seq<Option<Player>>, player: Player, plays: Seq<Play>)
    requires
        board.len() == 9,
    ensures
        round_result(board, player, plays).0.len() == 9,
        round_result(board, player, plays).2.len() + marks(round_result(board, player, plays).0, Player::X) + marks(
            round_result(board, player, plays).0,
            Player::O,
        ) == marks(board, Player::X) + marks(board, Player::O) + plays.len(),
        forall|i: int|
            0 <= i < round_result(board, player, plays).2.len() ==> #[trigger] round_result(board, player, plays).2[i]
                == PlayError::CellOccupied,
    decreases plays.len(),
{
    if plays.len() > 0 {
        lemma_round_accounts_for_every_move(board, player, plays.drop_last());
        let (b, p, errs) = round_result(board, player, plays.drop_last());
        let i = plays.last().cell();
        if b[i] is None {
            lemma_marks_update(b, i, p, Player::X);
            lemma_marks_update(b, i, p, Player::O);
        }
    }
}

/// A mark, once placed, stays: no round removes or changes a mark on the
/// board.
pub proof fn lemma_round_keeps_marks(board: Seq<Option<Player>>, player: Player, plays: Seq<Play>, i: int)
    requires
        board.len() == 9,
        0 <= i < 9,
        board[i] is Some,
    ensures
        round_result(board, player, plays).0.len() == 9,
        round_result(board, player, plays).0[i] == board[i],
    decreases plays.len(),
{
    if plays.len() > 0 {
        lemma_round_keeps_marks(board, player, plays.drop_last(), i);
        let (b, p, errs) = round_result(board, player, plays.drop_last());
        assert(0 <= plays.last().cell() < 9);
    }
}

/// A complete line stays complete: once a board has a winner, no later
/// round takes the win away.
pub proof fn lemma_round_keeps_wins(board: Seq<Option<Player>>, player: Player, plays: Seq<Play>, k: int)
    requires
        board.len() == 9,
        0 <= k < 8,
        line_won(board, k),
    ensures
        line_won(round_result(board, player, plays).0, k),
        winner(round_result(board, player, plays).0) is Some,
{
    let w = win_line(k);
    lemma_round_keeps_marks(board, player, plays, w.0 as int);
    lemma_round_keeps_marks(board, player, plays, w.1 as int);
    lemma_round_keeps_marks(board, player, plays, w.2 as int);
    let after = round_result(board, player, plays).0;
    assert(line_won(after, k));
    lemma_winner_is_first_complete_line(after);
}

/// The board and the player to move after the rounds `rounds`, in order.
pub open spec fn rounds_result(board: Seq<Option<Player>>, player: Player, rounds: Seq<Seq<Play>>) -> (
    Seq<Option<Player>>,
    Player,
)
    decreases rounds.len(),
{
    if rounds.len() == 0 {
        (board, player)
    } else {
        let (b, p) = rounds_result(board, player, rounds.drop_last());
        let r = round_result(b, p, rounds.last());
        (r.0, r.1)
    }
}

/// Turns alternate over the whole game: after any number of rounds, X has as
/// many marks as O when X is to move, and one more when O is to move. A game
/// starts so (`Game::new`), so this holds of every board the game shows.
pub proof fn lemma_rounds_keep_turn_order(board: Seq<Option<Player>>, player: Player, rounds: Seq<Seq<Play>>)
    requires
        board.len() == 9,
        turn_order_holds(board, player),
    ensures
        rounds_result(board, player, rounds).0.len() == 9,
        turn_order_holds(rounds_result(board, player, rounds).0, rounds_result(board, player, rounds).1),
    decreases rounds.len(),
{
    if rounds.len() > 0 {
        lemma_rounds_keep_turn_order(board, player, rounds.drop_last());
        let (b, p) = rounds_result(board, player, rounds.drop_last());
        lemma_round_keeps_turn_order(b, p, rounds.last());
    }
}

impl Game {
    /// The game as it starts: an empty board, X to move.
    pub fn new() -> (g: Self)
        ensures
            forall|i: int| 0 <= i < 9 ==> g.table@[i] is None,
            g.player == Player::X,
            turn_order_holds(g.table@, g.player),
    {
        let g = Game { table: Table::new(), player: Player::X };
        proof {
            lemma_marks_empty(g.table@, Player::X);
            lemma_marks_empty(g.table@, Player::O);
        }
        g
    }

    /// One round of the turn loop: tries the moves `plays` in order, the
    /// player to move making each one and the turn passing after each move
    /// that is taken; returns the refusals, in order, and the board's winner
    /// after the round.
    pub fn run_round(&mut self, plays: &Vec<Play>) -> (res: (Vec<PlayError>, Option<(Player, Win)>))
        ensures
            (final(self).table@, final(self).player, res.0@) == round_result(
                old(self).table@,
                old(self).player,
                plays@,
            ),
            res.1 == winner(final(self).table@),
    {
        let ghost board0 = self.table@;
        let ghost player0 = self.player;
        let mut errors: Vec<PlayError> = Vec::new();
        let mut i: usize = 0;
        assert(plays@.take(0) =~= Seq::<Play>::empty());
        while i < plays.len()
            invariant
                i <= plays.len(),
                (self.table@, self.player, errors@) == round_result(board0, player0, plays@.take(i as int)),
            decreases plays.len() - i,
        {
            let play = plays[i];
            let event = Event::new(play, self.player);
            match self.table.play(event) {
                Ok(_) => {
                    self.player = self.player.flip();
                },
                Err(e) => {
                    errors.push(e);
                },
            }
            assert(plays@.take(i + 1).drop_last() =~= plays@.take(i as int));
            i += 1;
        }
        assert(plays@.take(plays.len() as int) =~= plays@);
        let won = self.table.check_wins();
        (errors, won)
    }

    /// Draws the game as it starts the turn loop: the board, no errors and
    /// no winner.
    pub fn draw_start(&self, screen: &mut VgaWriter)
        requires
            old(screen).wf(),
        ensures
            final(screen).wf(),
            final(screen)@ == drawn(old(screen)@, self.table@, Seq::<Seq<char>>::empty(), None),
    {
        let errors: Vec<String> = Vec::new();
        screen.draw_table(&self.table, errors, None);
        assert(errors@.map_values(|e: String| e@) =~= Seq::<Seq<char>>::empty());
    }

    /// One pass of the turn loop: plays the moves `plays` as `run_round`
    /// does, draws the game on `screen` with the refused moves' messages and
    /// the winner, and tells whether the game is over, that is, whether
    /// someone has won.
    pub fn take_turn(&mut self, plays: &Vec<Play>, screen: &mut VgaWriter) -> (over: bool)
        requires
            old(screen).wf(),
        ensures
            ({
                let r = round_result(old(self).table@, old(self).player, plays@);
                &&& final(self).table@ == r.0
                &&& final(self).player == r.1
                &&& final(screen).wf()
                &&& final(screen)@ == drawn(
                    old(screen)@,
                    r.0,
                    r.2.map_values(|e: PlayError| e.message()),
                    winner(r.0),
                )
                &&& over == winner(r.0) is Some
            }),
    {
        let (errors, won) = self.run_round(plays);
        let mut messages: Vec<String> = Vec::new();
        let mut i: usize = 0;
        while i < errors.len()
            invariant
                i <= errors.len(),
                messages@.len() == i,
                forall|j: int| 0 <= j < i ==> #[trigger] messages@[j]@ == errors@[j].message(),
            decreases errors.len() - i,
        {
            messages.push(errors[i].to_string());
            i += 1;
        }
        assert(messages@.map_values(|m: String| m@) =~= errors@.map_values(|e: PlayError| e.message()));
        proof {
            lemma_winner_is_first_complete_line(self.table@);
            if let Some((_, w)) = won {
                assert(w.0 <= 8 && w.1 <= 8 && w.2 <= 8);
                assert(center_fits(2, w.0 as int) && center_fits(2, w.1 as int) && center_fits(2, w.2 as int));
            }
        }
        screen.draw_table(&self.table, messages, won);
        won.is_some()
    }
}

} // verus!
