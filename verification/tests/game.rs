use tictactoe::game::event::{Event, Play, Player};
use tictactoe::game::table::{PlayError, Table, Win};
use tictactoe::game::Game;
use tictactoe::vga::{VgaChar, VgaWriter, VGA_CELLS, VGA_WIDTH};

const ALL_PLAYS: [Play; 9] = [
    Play::One,
    Play::Two,
    Play::Three,
    Play::Four,
    Play::Five,
    Play::Six,
    Play::Seven,
    Play::Eight,
    Play::Nine,
];

fn board(marks: &[(usize, Player)]) -> Table {
    let mut table = Table::new();
    for &(i, p) in marks {
        table.state[i] = Some(p);
    }
    table
}

#[test]
fn flip_alternates_between_the_two_players() {
    assert_eq!(Player::X.flip(), Player::O);
    assert_eq!(Player::O.flip(), Player::X);
    assert_eq!(Player::X.flip().flip(), Player::X);
}

#[test]
fn event_new_keeps_its_parts() {
    let e = Event::new(Play::Five, Player::O);
    assert_eq!(e.play, Play::Five);
    assert_eq!(e.player, Player::O);
}

#[test]
fn plays_name_cells_row_by_row() {
    for (i, play) in ALL_PLAYS.iter().enumerate() {
        assert_eq!(play.index(), i);
    }
}

#[test]
fn new_table_is_empty() {
    let t = Table::new();
    assert!(t.state.iter().all(|c| c.is_none()));
    assert_eq!(t.check_wins(), None);
}

#[test]
fn play_marks_an_empty_cell() {
    let mut t = Table::new();
    assert_eq!(t.play(Event::new(Play::Three, Player::X)), Ok(()));
    assert_eq!(t.state[2], Some(Player::X));
    for i in [0, 1, 3, 4, 5, 6, 7, 8] {
        assert_eq!(t.state[i], None);
    }
}

#[test]
fn play_on_an_occupied_cell_is_refused_and_changes_nothing() {
    let mut t = Table::new();
    t.play(Event::new(Play::One, Player::X)).unwrap();
    let before = t.state;
    assert_eq!(t.play(Event::new(Play::One, Player::O)), Err(PlayError::CellOccupied));
    assert_eq!(t.state, before);
    assert_eq!(t.state[0], Some(Player::X));
}

#[test]
fn error_messages() {
    assert_eq!(PlayError::CellOccupied.to_string(), "Cell already occupied");
    assert_eq!(PlayError::IndexOutOfBounds.to_string(), "Index out of bounds");
}

#[test]
fn each_winning_line_is_found() {
    let lines = [
        (0, 1, 2),
        (3, 4, 5),
        (6, 7, 8),
        (0, 3, 6),
        (1, 4, 7),
        (2, 5, 8),
        (0, 4, 8),
        (2, 4, 6),
    ];
    for &(a, b, c) in &lines {
        for p in [Player::X, Player::O] {
            let t = board(&[(a, p), (b, p), (c, p)]);
            assert_eq!(t.check_wins(), Some((p, Win(a, b, c))));
        }
    }
}

#[test]
fn mixed_lines_do_not_win() {
    let t = board(&[(0, Player::X), (1, Player::O), (2, Player::X), (4, Player::O), (8, Player::X)]);
    assert_eq!(t.check_wins(), None);
}

#[test]
fn full_board_without_a_line_has_no_winner() {
    // X O X / X O O / O X X
    let t = board(&[
        (0, Player::X),
        (1, Player::O),
        (2, Player::X),
        (3, Player::X),
        (4, Player::O),
        (5, Player::O),
        (6, Player::O),
        (7, Player::X),
        (8, Player::X),
    ]);
    assert_eq!(t.check_wins(), None);
}

#[test]
fn first_line_in_checking_order_is_reported() {
    // row 1 and column 0 both complete: rows are checked first
    let t = board(&[(0, Player::O), (3, Player::O), (4, Player::O), (5, Player::O), (6, Player::O)]);
    assert_eq!(t.check_wins(), Some((Player::O, Win(3, 4, 5))));
    // column 2 before the diagonal 2-4-6
    let t = board(&[(2, Player::X), (5, Player::X), (8, Player::X), (4, Player::X), (6, Player::X)]);
    assert_eq!(t.check_wins(), Some((Player::X, Win(2, 5, 8))));
}

#[test]
fn game_starts_empty_with_x_to_move() {
    let g = Game::new();
    assert_eq!(g.player, Player::X);
    assert!(g.table.state.iter().all(|c| c.is_none()));
}

#[test]
fn refused_moves_keep_the_turn() {
    let mut g = Game::new();
    let (errors, winner) = g.run_round(&vec![Play::One, Play::One, Play::Two]);
    assert_eq!(errors, vec![PlayError::CellOccupied]);
    assert_eq!(winner, None);
    assert_eq!(g.table.state[0], Some(Player::X));
    assert_eq!(g.table.state[1], Some(Player::O));
    assert_eq!(g.player, Player::X);
}

#[test]
fn empty_round_changes_nothing() {
    let mut g = Game::new();
    let (errors, winner) = g.run_round(&Vec::new());
    assert!(errors.is_empty());
    assert_eq!(winner, None);
    assert_eq!(g.player, Player::X);
}

#[test]
fn x_wins_the_top_row() {
    let mut g = Game::new();
    let (errors, winner) = g.run_round(&vec![Play::One, Play::Four]);
    assert!(errors.is_empty());
    assert_eq!(winner, None);
    let (errors, winner) = g.run_round(&vec![Play::Two, Play::Five, Play::Three]);
    assert!(errors.is_empty());
    assert_eq!(winner, Some((Player::X, Win(0, 1, 2))));
    assert_eq!(g.player, Player::O);
}

#[test]
fn turn_order_is_kept_across_rounds() {
    let mut g = Game::new();
    let rounds = vec![
        vec![Play::Five, Play::Five, Play::One],
        vec![Play::Nine, Play::One, Play::Three],
        vec![Play::Seven, Play::Seven],
    ];
    for plays in &rounds {
        g.run_round(plays);
        let xs = g.table.state.iter().filter(|c| **c == Some(Player::X)).count();
        let os = g.table.state.iter().filter(|c| **c == Some(Player::O)).count();
        let expected = if g.player == Player::O { os + 1 } else { os };
        assert_eq!(xs, expected);
    }
}

#[test]
fn marks_stay_once_placed() {
    let mut g = Game::new();
    g.run_round(&vec![Play::Five]);
    g.run_round(&vec![Play::Five, Play::Five, Play::Six]);
    assert_eq!(g.table.state[4], Some(Player::X));
    assert_eq!(g.table.state[5], Some(Player::O));
}

#[test]
fn a_win_stays_a_win() {
    let mut g = Game::new();
    let (_, winner) = g.run_round(&vec![Play::One, Play::Four, Play::Two, Play::Five, Play::Three]);
    assert_eq!(winner, Some((Player::X, Win(0, 1, 2))));
    let (_, winner) = g.run_round(&vec![Play::Six, Play::Nine, Play::One]);
    assert_eq!(winner, Some((Player::X, Win(0, 1, 2))));
}

#[test]
fn take_turn_plays_draws_and_stops_on_a_win() {
    let mut g = Game::new();
    let mut screen = VgaWriter::new(vec![VgaChar::new(b'.', 0x07); VGA_CELLS]);
    g.draw_start(&mut screen);
    let row = |s: &VgaWriter, r: usize| -> String {
        s.cells()[r * VGA_WIDTH..r * VGA_WIDTH + 17].iter().map(|c| c.character as char).collect()
    };
    assert_eq!(row(&screen, 3), "  1  |  2  |  3  ");
    assert!(!g.take_turn(&vec![Play::One, Play::One, Play::Four], &mut screen));
    assert_eq!(row(&screen, 3), "  X  |  2  |  3  ");
    assert_eq!(row(&screen, 7), "  O  |  5  |  6  ");
    let err: String = screen.cells()[14 * VGA_WIDTH..14 * VGA_WIDTH + 28].iter().map(|c| c.character as char).collect();
    assert_eq!(err, "Error: Cell already occupied");
    assert!(g.take_turn(&vec![Play::Two, Play::Five, Play::Three], &mut screen));
    assert_eq!(row(&screen, 3), "  X-----X-----X  ");
    let msg: String = screen.cells()[14 * VGA_WIDTH..14 * VGA_WIDTH + 14].iter().map(|c| c.character as char).collect();
    assert_eq!(msg, "Player X wins!");
}
