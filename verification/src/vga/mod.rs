//! The text-mode console on which the game is drawn: an 80 by 25 grid of
//! coloured characters with a cursor that advances as text is written and a
//! screen that scrolls up when the cursor passes its last line.

use vstd::prelude::*;
use vstd::string::*;

use crate::game::event::Player;
use crate::game::table::{Table, Win};

verus! {

broadcast use vstd::string::is_ascii_spec_bytes;

pub const VGA_WIDTH: usize = 80;

pub const VGA_HEIGHT: usize = 25;

/// The line feed byte, which breaks the line.
pub const LINE_FEED: u8 = 0x0a;

/// The space byte, which fills blank cells.
pub const SPACE: u8 = 0x20;

/// The byte shown in place of one that is not printable: a small square.
pub const SQUARE: u8 = 0xfe;

/// The number of character cells on the screen.
pub const VGA_CELLS: usize = 2000;

/// One character cell: a code page 437 character and its colour attribute.
#[derive(Clone, Copy, PartialEq, Eq, Structural, Debug)]
pub struct VgaChar {
    pub character: u8,
    pub color: u8,
}

impl VgaChar {
    pub fn new(character: u8, color: u8) -> (c: Self)
        ensures
            c == (VgaChar { character, color }),
    {
        Self { character, color }
    }
}

/// What a console is: the screen's cells, row by row, the cursor's row and
/// column, and the colour in which the next characters are written.
pub struct Screen {
    pub cells: Seq<VgaChar>,
    pub row: int,
    pub col: int,
    pub color: u8,
}

/// A console whose cells live in memory of its own; the code that owns the
/// hardware copies them to the VGA text buffer.
pub struct VgaWriter {
    buffer: Vec<VgaChar>,
    current_row: usize,
    current_col: usize,
    color: u8,
}

impl View for VgaWriter {
    type V = Screen;

    closed spec fn view(&self) -> Screen {
        Screen {
            cells: self.buffer@,
            row: self.current_row as int,
            col: self.current_col as int,
            color: self.color,
        }
    }
}

/// A screen of the right size whose cursor stands on it (the column may be
/// one past the last, when a line has just been filled).
pub open spec fn screen_ok(s: Screen) -> bool {
    &&& s.cells.len() == VGA_CELLS
    &&& 0 <= s.row < VGA_HEIGHT
    &&& 0 <= s.col <= VGA_WIDTH
}

/// The position in `cells` of the cell at `row`, `col`.
pub open spec fn cell_index(row: int, col: int) -> int {
    row * VGA_WIDTH + col
}

/// The row of the cell at position `k` of `cells`.
pub open spec fn row_of(k: int) -> int {
    k / VGA_WIDTH as int
}

/// The column of the cell at position `k` of `cells`.
pub open spec fn col_of(k: int) -> int {
    k % VGA_WIDTH as int
}

/// An empty cell in the given colour.
pub open spec fn blank_cell(color: u8) -> VgaChar {
    VgaChar { character: SPACE, color }
}

/// The cells after every line moves up by one and the last line is blanked
/// in `color`.
pub open spec fn scrolled(cells: Seq<VgaChar>, color: u8) -> Seq<VgaChar> {
    Seq::new(
        VGA_CELLS as nat,
        |k: int|
            if k < VGA_CELLS - VGA_WIDTH {
                cells[k + VGA_WIDTH]
            } else {
                blank_cell(color)
            },
    )
}

/// The screen after a line break: the cursor goes to the start of the next
/// line, and on the last line the screen scrolls up instead.
pub open spec fn newline(s: Screen) -> Screen {
    if s.row < VGA_HEIGHT - 1 {
        Screen { cells: s.cells, row: s.row + 1, col: 0, color: s.color }
    } else {
        Screen { cells: scrolled(s.cells, s.color), row: s.row, col: 0, color: s.color }
    }
}

/// The screen after the byte `b` is written: a line feed breaks the line;
/// any other byte is put at the cursor in the current colour and the cursor
/// moves right, breaking the line first when it is full.
pub open spec fn put_byte(s: Screen, b: u8) -> Screen {
    if b == LINE_FEED {
        newline(s)
    } else {
        let t = if s.col >= VGA_WIDTH {
            newline(s)
        } else {
            s
        };
        if t.row < VGA_HEIGHT {
            Screen {
                cells: t.cells.update(cell_index(t.row, t.col), VgaChar { character: b, color: t.color }),
                row: t.row,
                col: t.col + 1,
                color: t.color,
            }
        } else {
            t
        }
    }
}

/// One thing a console can be asked to do: change its colour, or write one
/// byte.
pub enum Op {
    Color(u8),
    Byte(u8),
}

/// The screen after one operation.
pub open spec fn step(s: Screen, op: Op) -> Screen {
    match op {
        Op::Color(c) => Screen { cells: s.cells, row: s.row, col: s.col, color: c },
        Op::Byte(b) => put_byte(s, b),
    }
}

/// The screen after `ops` are carried out in order.
pub open spec fn run(s: Screen, ops: Seq<Op>) -> Screen
    decreases ops.len(),
{
    if ops.len() == 0 {
        s
    } else {
        step(run(s, ops.drop_last()), ops.last())
    }
}

/// The byte that is shown for `b`: printable ASCII and the line feed stand
/// for themselves; anything else is shown as a small square (0xfe).
pub open spec fn printable(b: u8) -> u8 {
    if (0x20 <= b && b <= 0x7e) || b == LINE_FEED {
        b
    } else {
        SQUARE
    }
}

/// The writes that show the text whose bytes are `bytes`.
pub open spec fn text(bytes: Seq<u8>) -> Seq<Op> {
    bytes.map_values(|b: u8| Op::Byte(printable(b)))
}

/// The screen blanked in its current colour, with the cursor at the top left.
pub open spec fn cleared(s: Screen) -> Screen {
    Screen { cells: Seq::new(VGA_CELLS as nat, |k: int| blank_cell(s.color)), row: 0, col: 0, color: s.color }
}

/// The characters that show the players' marks, and the first digit key.
pub const LETTER_X: u8 = 0x58;

pub const LETTER_O: u8 = 0x4f;

pub const DIGIT_ONE: u8 = 0x31;

/// The byte that draws a horizontal strike.
pub const DASH: u8 = 0x2d;

/// The byte that draws a vertical strike.
pub const BAR: u8 = 0x7c;

/// The byte that draws the strike of the diagonal from the top left.
pub const BACKSLASH: u8 = 0x5c;

/// The byte that draws the strike of the diagonal from the top right.
pub const SLASH: u8 = 0x2f;

/// The screen row and column of the centre of board cell `pos` (row by row,
/// three to a row), when the board's first line is screen row `start`: each
/// board row takes four lines and each board column six characters.
pub open spec fn cell_center(start: int, pos: int) -> (int, int) {
    (start + (pos / 3) * 4 + 1, (pos % 3) * 6 + 2)
}

/// The centre of board cell `pos` lies on a row that a `usize` can number.
pub open spec fn center_fits(start: int, pos: int) -> bool {
    start + (pos / 3) * 4 + 1 <= usize::MAX
}

/// The colour of the line drawn through a win of `p`: light red for X,
/// light magenta for O.
pub open spec fn strike_color(p: Player) -> u8 {
    match p {
        Player::X => 0x0C,
        Player::O => 0x0D,
    }
}

/// `a`, `b` and `c` in ascending order.
pub open spec fn sorted3(a: int, b: int, c: int) -> (int, int, int) {
    if a <= b {
        if b <= c {
            (a, b, c)
        } else if a <= c {
            (a, c, b)
        } else {
            (c, a, b)
        }
    } else {
        if a <= c {
            (b, a, c)
        } else if b <= c {
            (b, c, a)
        } else {
            (c, b, a)
        }
    }
}

/// The character that the line through the winning cells `w` puts at screen
/// row `r`, column `c`, if any, when the board's first line is `start`.
/// When the three centres share a row, dashes join them along it; when they
/// share a column, bars join them down it; the two diagonals are drawn with
/// three slanted strokes between each pair of neighbouring cells. The
/// centres themselves are not drawn over.
pub open spec fn strike_char(start: int, w: Win, r: int, c: int) -> Option<u8> {
    let (r1, c1) = cell_center(start, w.0 as int);
    let (r2, c2) = cell_center(start, w.1 as int);
    let (r3, c3) = cell_center(start, w.2 as int);
    if r1 == r2 && r2 == r3 {
        if r == r1 && c1 <= c <= c3 && c != c1 && c != c2 && c != c3 {
            Some(DASH)
        } else {
            None
        }
    } else if c1 == c2 && c2 == c3 {
        if c == c1 && r1 <= r <= r3 && r != r1 && r != r2 && r != r3 {
            Some(BAR)
        } else {
            None
        }
    } else if sorted3(w.0 as int, w.1 as int, w.2 as int) == (0int, 4int, 8int) {
        if (r == start + 2 && c == 4) || (r == start + 3 && c == 5) || (r == start + 4 && c == 6) || (r
            == start + 6 && c == 10) || (r == start + 7 && c == 11) || (r == start + 8 && c == 12) {
            Some(BACKSLASH)
        } else {
            None
        }
    } else if sorted3(w.0 as int, w.1 as int, w.2 as int) == (2int, 4int, 6int) {
        if (r == start + 2 && c == 12) || (r == start + 3 && c == 11) || (r == start + 4 && c == 10) || (r
            == start + 6 && c == 6) || (r == start + 7 && c == 5) || (r == start + 8 && c == 4) {
            Some(SLASH)
        } else {
            None
        }
    } else {
        None
    }
}

/// The screen after the line through the win `w` of `p` is drawn over it.
pub open spec fn struck(s: Screen, start: int, w: Win, p: Player) -> Screen {
    Screen {
        cells: Seq::new(
            VGA_CELLS as nat,
            |k: int|
                match strike_char(start, w, row_of(k), col_of(k)) {
                    Some(ch) => VgaChar { character: ch, color: strike_color(p) },
                    None => s.cells[k],
                },
        ),
        row: s.row,
        col: s.col,
        color: s.color,
    }
}

proof fn lemma_cell_position(r: int, c: int)
    requires
        0 <= r,
        0 <= c < VGA_WIDTH,
    ensures
        row_of(cell_index(r, c)) == r,
        col_of(cell_index(r, c)) == c,
{
    vstd::arithmetic::div_mod::lemma_fundamental_div_mod_converse(cell_index(r, c), VGA_WIDTH as int, r, c);
}

/// Six strokes put at rows `start + 2, 3, 4, 6, 7, 8` in the given columns
/// change exactly those cells.
proof fn lemma_strokes_placed(
    before: Seq<VgaChar>,
    after: Seq<VgaChar>,
    start: int,
    c2: int,
    c3: int,
    c4: int,
    c6: int,
    c7: int,
    c8: int,
    ch: u8,
    color: u8,
)
    requires
        before.len() == VGA_CELLS,
        0 <= start,
        start + 8 < VGA_HEIGHT,
        0 <= c2 < VGA_WIDTH && 0 <= c3 < VGA_WIDTH && 0 <= c4 < VGA_WIDTH,
        0 <= c6 < VGA_WIDTH && 0 <= c7 < VGA_WIDTH && 0 <= c8 < VGA_WIDTH,
        after == before.update(cell_index(start + 2, c2), VgaChar { character: ch, color }).update(
            cell_index(start + 3, c3),
            VgaChar { character: ch, color },
        ).update(cell_index(start + 4, c4), VgaChar { character: ch, color }).update(
            cell_index(start + 6, c6),
            VgaChar { character: ch, color },
        ).update(cell_index(start + 7, c7), VgaChar { character: ch, color }).update(
            cell_index(start + 8, c8),
            VgaChar { character: ch, color },
        ),
    ensures
        forall|k: int|
            0 <= k < VGA_CELLS ==> after[k] == (if (row_of(k) == start + 2 && col_of(k)
                == c2) || (row_of(k) == start + 3 && col_of(k) == c3) || (row_of(k) == start + 4 && col_of(k) == c4) || (row_of(k)
                == start + 6 && col_of(k) == c6) || (row_of(k) == start + 7 && col_of(k) == c7) || (row_of(k) == start + 8 && col_of(k)
                == c8) {
                VgaChar { character: ch, color }
            } else {
                before[k]
            }),
{
    lemma_cell_position(start + 2, c2);
    lemma_cell_position(start + 3, c3);
    lemma_cell_position(start + 4, c4);
    lemma_cell_position(start + 6, c6);
    lemma_cell_position(start + 7, c7);
    lemma_cell_position(start + 8, c8);
}

fn cell_center_at(grid_start_row: usize, pos: usize) -> (rc: (usize, usize))
    requires
        center_fits(grid_start_row as int, pos as int),
    ensures
        (rc.0 as int, rc.1 as int) == cell_center(grid_start_row as int, pos as int),
        rc.1 < 15,
{
    let grid_row = pos / 3;
    let grid_col = pos % 3;
    let row = grid_start_row + grid_row * 4 + 1;
    let col = grid_col * 6 + 2;
    (row, col)
}

fn sort3(a: usize, b: usize, c: usize) -> (r: (usize, usize, usize))
    ensures
        (r.0 as int, r.1 as int, r.2 as int) == sorted3(a as int, b as int, c as int),
{
    if a <= b {
        if b <= c {
            (a, b, c)
        } else if a <= c {
            (a, c, b)
        } else {
            (c, a, b)
        }
    } else {
        if a <= c {
            (b, a, c)
        } else if b <= c {
            (b, c, a)
        } else {
            (c, b, a)
        }
    }
}

/// The title line and the blank line below it.
pub open spec fn header_ops() -> Seq<Op> {
    text("Tic Tac Toe\n\n".spec_bytes())
}

/// A line of the board above or below the cells' characters.
pub open spec fn padding_ops() -> Seq<Op> {
    text("     |     |     \n".spec_bytes())
}

/// The line that separates two rows of the board.
pub open spec fn divider_ops() -> Seq<Op> {
    text(" ----+-----+---- \n".spec_bytes())
}

/// The two spaces on each side of a cell's character.
pub open spec fn gap_ops() -> Seq<Op> {
    text("  ".spec_bytes())
}

/// The colour and character that show board cell `index`: a light cyan X, a
/// yellow O, or, for an empty cell, its digit key (1 to 9) in dark grey.
pub open spec fn cell_look(board: Seq<Option<Player>>, index: int) -> (u8, u8) {
    match board[index] {
        Some(Player::X) => (0x0B, LETTER_X),
        Some(Player::O) => (0x0E, LETTER_O),
        None => (0x08, (DIGIT_ONE + index) as u8),
    }
}

/// The writes that draw board cell `index`, the cell in column `grid_col` of
/// its row: its character between gaps in its colour, the colour set back to
/// white, and a bar after the first two columns.
pub open spec fn cell_ops(board: Seq<Option<Player>>, index: int, grid_col: int) -> Seq<Op> {
    let (color, ch) = cell_look(board, index);
    seq![Op::Color(color)] + gap_ops() + seq![Op::Byte(ch)] + gap_ops() + seq![Op::Color(0x0f)] + if grid_col < 2 {
        seq![Op::Byte(BAR)]
    } else {
        Seq::<Op>::empty()
    }
}

/// The writes that draw the first `n` cells of board row `grid_row`.
pub open spec fn cells_ops(board: Seq<Option<Player>>, grid_row: int, n: int) -> Seq<Op>
    decreases n,
{
    if n <= 0 {
        Seq::<Op>::empty()
    } else {
        cells_ops(board, grid_row, n - 1) + cell_ops(board, grid_row * 3 + n - 1, n - 1)
    }
}

/// The writes that draw board row `grid_row`: a padding line, the cells, a
/// line break, a padding line, and a divider below the first two rows.
pub open spec fn row_ops(board: Seq<Option<Player>>, grid_row: int) -> Seq<Op> {
    padding_ops() + cells_ops(board, grid_row, 3) + seq![Op::Byte(LINE_FEED)] + padding_ops() + if grid_row < 2 {
        divider_ops()
    } else {
        Seq::<Op>::empty()
    }
}

/// The writes that draw the first `n` rows of the board.
pub open spec fn rows_ops(board: Seq<Option<Player>>, n: int) -> Seq<Op>
    decreases n,
{
    if n <= 0 {
        Seq::<Op>::empty()
    } else {
        rows_ops(board, n - 1) + row_ops(board, n - 1)
    }
}

/// The writes that report the errors `errors`, in order: for each, the line
/// "Error: " and the message, after a line break, in light red, then the
/// colour set back to white.
pub open spec fn error_ops(errors: Seq<Seq<char>>) -> Seq<Op>
    decreases errors.len(),
{
    if errors.len() == 0 {
        Seq::<Op>::empty()
    } else {
        error_ops(errors.drop_last()) + seq![Op::Color(0x0C)] + text(
            "\nError: ".spec_bytes() + vstd::utf8::encode_utf8(errors.last()) + "\n".spec_bytes(),
        ) + seq![Op::Color(0x0f)]
    }
}

/// The writes that announce the winner, if any, in light green, then set the
/// colour back to white.
pub open spec fn winner_ops(winner: Option<(Player, Win)>) -> Seq<Op> {
    match winner {
        Some((Player::X, _)) => seq![Op::Color(0x0A)] + text("\nPlayer X wins!\n".spec_bytes()) + seq![Op::Color(0x0f)],
        Some((Player::O, _)) => seq![Op::Color(0x0A)] + text("\nPlayer O wins!\n".spec_bytes()) + seq![Op::Color(0x0f)],
        None => Seq::<Op>::empty(),
    }
}

/// The screen after the game is drawn on `s`: the screen is cleared, the
/// title and the board are written, the winning line is struck through,
/// and the errors and the winner are reported below the board.
pub open spec fn drawn(s: Screen, board: Seq<Option<Player>>, errors: Seq<Seq<char>>, winner: Option<(Player, Win)>) -> Screen {
    let titled = run(cleared(s), header_ops());
    let boarded = run(titled, rows_ops(board, 3));
    let marked = match winner {
        Some((p, w)) => struck(boarded, titled.row, w, p),
        None => boarded,
    };
    run(marked, error_ops(errors) + winner_ops(winner))
}

/// The title line reads "Tic Tac Toe" in the screen's colour and is
/// followed by a blank line: the board starts at the start of the third
/// line of the screen.
pub proof fn lemma_title_height(s: Screen)
    requires
        screen_ok(s),
    ensures
        run(cleared(s), header_ops()).row == 2,
        run(cleared(s), header_ops()).col == 0,
        run(cleared(s), header_ops()).color == s.color,
        run(cleared(s), header_ops()).cells.subrange(0, 12) == seq![84u8, 105, 99, 32, 84, 97, 99, 32, 84, 111, 101, 32].map_values(
            |b: u8| VgaChar { character: b, color: s.color },
        ),
{
    reveal_strlit("Tic Tac Toe\n\n");
    let title = "Tic Tac Toe\n\n";
    assert(title@ =~= seq!['T', 'i', 'c', ' ', 'T', 'a', 'c', ' ', 'T', 'o', 'e', '\n', '\n']);
    assert(vstd::utf8::is_ascii_chars(title@));
    assert(is_ascii(title));
    let bytes = title.spec_bytes();
    assert(bytes =~= seq![84u8, 105, 99, 32, 84, 97, 99, 32, 84, 111, 101, 10, 10]);
    reveal_with_fuel(run, 14);
    assert(header_ops().len() == 13);
    assert(run(cleared(s), header_ops()).cells.subrange(0, 12) =~= seq![84u8, 105, 99, 32, 84, 97, 99, 32, 84, 111, 101, 32].map_values(
        |b: u8| VgaChar { character: b, color: s.color },
    ));
}

/// Text shows every printable ASCII byte (0x20 to 0x7e) and every line feed
/// as itself, and every other byte as a square (0xfe), one write per byte.
pub proof fn lemma_text_shows_printable_bytes(bytes: Seq<u8>)
    ensures
        text(bytes).len() == bytes.len(),
        forall|i: int|
            0 <= i < bytes.len() && ((0x20 <= bytes[i] && bytes[i] <= 0x7e) || bytes[i] == 0x0a) ==> #[trigger] text(bytes)[i]
                == Op::Byte(bytes[i]),
        forall|i: int|
            0 <= i < bytes.len() && !((0x20 <= bytes[i] && bytes[i] <= 0x7e) || bytes[i] == 0x0a) ==> #[trigger] text(bytes)[i]
                == Op::Byte(0xfe),
{
}

/// Writing a byte other than a line feed puts it, in the current colour, in
/// the cell under the cursor, which then moves one column right; when the
/// line is full the byte goes to the start of the next line (or of the last
/// line, after the screen scrolls). Nothing else on the screen changes.
pub proof fn lemma_put_byte_places_it(s: Screen, b: u8)
    requires
        screen_ok(s),
        b != 0x0a,
    ensures
        s.col < 80 ==> put_byte(s, b) == (Screen {
            cells: s.cells.update(s.row * 80 + s.col, VgaChar { character: b, color: s.color }),
            row: s.row,
            col: s.col + 1,
            color: s.color,
        }),
        s.col >= 80 && s.row < 24 ==> put_byte(s, b) == (Screen {
            cells: s.cells.update((s.row + 1) * 80, VgaChar { character: b, color: s.color }),
            row: s.row + 1,
            col: 1,
            color: s.color,
        }),
        s.col >= 80 && s.row == 24 ==> put_byte(s, b).row == 24 && put_byte(s, b).col == 1 && put_byte(s, b).cells[1920int] == (VgaChar { character: b, color: s.color }),
{
}

/// A line break moves the cursor to the start of the next line, changing no
/// cell; on the last line it instead moves every line up by one, blanks the
/// last line in the current colour, and leaves the cursor at its start.
pub proof fn lemma_newline_scrolls_on_the_last_line(s: Screen)
    requires
        screen_ok(s),
    ensures
        put_byte(s, 0x0a).col == 0,
        put_byte(s, 0x0a).color == s.color,
        s.row < 24 ==> put_byte(s, 0x0a).row == s.row + 1 && put_byte(s, 0x0a).cells == s.cells,
        s.row == 24 ==> put_byte(s, 0x0a).row == 24,
        s.row == 24 ==> put_byte(s, 0x0a).cells.len() == 2000,
        s.row == 24 ==> forall|k: int| 0 <= k < 1920 ==> #[trigger] put_byte(s, 0x0a).cells[k] == s.cells[k + 80],
        s.row == 24 ==> forall|k: int|
            1920 <= k < 2000 ==> #[trigger] put_byte(s, 0x0a).cells[k] == (VgaChar { character: 0x20, color: s.color }),
{
}

/// Clearing blanks every cell in the current colour and puts the cursor at
/// the top left.
pub proof fn lemma_cleared_is_blank(s: Screen)
    ensures
        cleared(s).cells.len() == 2000,
        forall|k: int| 0 <= k < 2000 ==> #[trigger] cleared(s).cells[k] == (VgaChar { character: 0x20, color: s.color }),
        cleared(s).row == 0,
        cleared(s).col == 0,
        cleared(s).color == s.color,
{
}

/// Each board cell is shown by its mark, or by its digit key (1 to 9) when
/// empty: X in light cyan (0x0B), O in yellow (0x0E), digits in dark grey
/// (0x08).
pub proof fn lemma_cell_looks(board: Seq<Option<Player>>, index: int)
    requires
        0 <= index < 9,
    ensures
        board[index] == Some(Player::X) ==> cell_look(board, index) == (0x0Bu8, 0x58u8),
        board[index] == Some(Player::O) ==> cell_look(board, index) == (0x0Eu8, 0x4fu8),
        board[index] is None ==> cell_look(board, index) == (0x08u8, (0x31 + index) as u8),
{
}

/// The strike colour of X is light red (0x0C), that of O light magenta (0x0D).
pub proof fn lemma_strike_colors()
    ensures
        strike_color(Player::X) == 0x0C,
        strike_color(Player::O) == 0x0D,
{
}

/// A win along a board row is struck on the screen row through the centres
/// of its cells (four lines per board row, the centre one line below the
/// row's top), with dashes in the strike colour between the first and the
/// last centre, skipping the middle one; no other cell changes.
pub proof fn lemma_row_win_strikes_its_row(s: Screen, start: int, w: Win, p: Player)
    requires
        screen_ok(s),
        0 <= start,
        w.0 / 3 == w.1 / 3,
        w.1 / 3 == w.2 / 3,
    ensures
        forall|k: int|
            0 <= k < 2000 ==> #[trigger] struck(s, start, w, p).cells[k] == (if k / 80 == start + (w.0 / 3) * 4 + 1 && (w.0
                % 3) * 6 + 2 < k % 80 && k % 80 < (w.2 % 3) * 6 + 2 && k % 80 != (w.1 % 3) * 6 + 2 {
                VgaChar { character: 0x2d, color: if p == Player::X { 0x0Cu8 } else { 0x0Du8 } }
            } else {
                s.cells[k]
            }),
{
}

/// A win down a board column (its cells on different board rows) is struck
/// on the screen column through the centres of its cells (six characters
/// per board column, the centre two right of the column's left), with bars
/// in the strike colour between the first and the last centre, skipping the
/// middle one; no other cell changes.
pub proof fn lemma_column_win_strikes_its_column(s: Screen, start: int, w: Win, p: Player)
    requires
        screen_ok(s),
        0 <= start,
        !(w.0 / 3 == w.1 / 3 && w.1 / 3 == w.2 / 3),
        w.0 % 3 == w.1 % 3,
        w.1 % 3 == w.2 % 3,
    ensures
        forall|k: int|
            0 <= k < 2000 ==> #[trigger] struck(s, start, w, p).cells[k] == (if k % 80 == (w.0 % 3) * 6 + 2 && start + (w.0
                / 3) * 4 + 1 < k / 80 && k / 80 < start + (w.2 / 3) * 4 + 1 && k / 80 != start + (w.1 / 3) * 4 + 1 {
                VgaChar { character: 0x7c, color: if p == Player::X { 0x0Cu8 } else { 0x0Du8 } }
            } else {
                s.cells[k]
            }),
{
}

/// The three cells of `w` are, in some order, `a`, `b` and `c`.
pub open spec fn is_arrangement_of(w: Win, a: usize, b: usize, c: usize) -> bool {
    ||| w == Win(a, b, c)
    ||| w == Win(a, c, b)
    ||| w == Win(b, a, c)
    ||| w == Win(b, c, a)
    ||| w == Win(c, a, b)
    ||| w == Win(c, b, a)
}

/// The diagonal from the top left (cells 0, 4 and 8, in any order) is struck
/// with backslashes in the strike colour, three between each pair of
/// neighbouring centres; the diagonal from the top right (cells 2, 4, 6)
/// with slashes; no other cell changes.
pub proof fn lemma_diagonal_wins_strike_diagonals(s: Screen, start: int, w: Win, p: Player)
    requires
        screen_ok(s),
        0 <= start,
        start + 8 < 25,
    ensures
        is_arrangement_of(w, 0, 4, 8) ==> forall|k: int|
            0 <= k < 2000 ==> #[trigger] struck(s, start, w, p).cells[k] == (if k == (start + 2) * 80 + 4 || k == (start + 3)
                * 80 + 5 || k == (start + 4) * 80 + 6 || k == (start + 6) * 80 + 10 || k == (start + 7) * 80 + 11 || k
                == (start + 8) * 80 + 12 {
                VgaChar { character: 0x5c, color: if p == Player::X { 0x0Cu8 } else { 0x0Du8 } }
            } else {
                s.cells[k]
            }),
        is_arrangement_of(w, 2, 4, 6) ==> forall|k: int|
            0 <= k < 2000 ==> #[trigger] struck(s, start, w, p).cells[k] == (if k == (start + 2) * 80 + 12 || k == (start
                + 3) * 80 + 11 || k == (start + 4) * 80 + 10 || k == (start + 6) * 80 + 6 || k == (start + 7) * 80 + 5 || k
                == (start + 8) * 80 + 4 {
                VgaChar { character: 0x2f, color: if p == Player::X { 0x0Cu8 } else { 0x0Du8 } }
            } else {
                s.cells[k]
            }),
{
    assert forall|k: int| #![trigger row_of(k)] 0 <= k < 2000 implies (row_of(k) == start + 2 && col_of(k) == 4) == (k == (start + 2) * 80 + 4)
        && (row_of(k) == start + 3 && col_of(k) == 5) == (k == (start + 3) * 80 + 5) && (row_of(k) == start + 4 && col_of(k)
        == 6) == (k == (start + 4) * 80 + 6) && (row_of(k) == start + 6 && col_of(k) == 10) == (k == (start + 6) * 80 + 10)
        && (row_of(k) == start + 7 && col_of(k) == 11) == (k == (start + 7) * 80 + 11) && (row_of(k) == start + 8 && col_of(k)
        == 12) == (k == (start + 8) * 80 + 12) && (row_of(k) == start + 2 && col_of(k) == 12) == (k == (start + 2) * 80
        + 12) && (row_of(k) == start + 3 && col_of(k) == 11) == (k == (start + 3) * 80 + 11) && (row_of(k) == start + 4 && col_of(k) == 10) == (k == (start + 4) * 80 + 10) && (row_of(k) == start + 6 && col_of(k) == 6) == (k == (start + 6) * 80
        + 6) && (row_of(k) == start + 7 && col_of(k) == 5) == (k == (start + 7) * 80 + 5) && (row_of(k) == start + 8 && col_of(k)
        == 4) == (k == (start + 8) * 80 + 4) by {
        lemma_cell_position(start + 2, 4);
        lemma_cell_position(start + 3, 5);
        lemma_cell_position(start + 4, 6);
        lemma_cell_position(start + 6, 10);
        lemma_cell_position(start + 7, 11);
        lemma_cell_position(start + 8, 12);
        lemma_cell_position(start + 2, 12);
        lemma_cell_position(start + 3, 11);
        lemma_cell_position(start + 4, 10);
        lemma_cell_position(start + 6, 6);
        lemma_cell_position(start + 7, 5);
        lemma_cell_position(start + 8, 4);
    }
}

/// Any other set of three cells draws no strike at all.
pub proof fn lemma_other_wins_draw_nothing(s: Screen, start: int, w: Win, p: Player)
    requires
        screen_ok(s),
        !(w.0 / 3 == w.1 / 3 && w.1 / 3 == w.2 / 3),
        !(w.0 % 3 == w.1 % 3 && w.1 % 3 == w.2 % 3),
        !is_arrangement_of(w, 0, 4, 8),
        !is_arrangement_of(w, 2, 4, 6),
    ensures
        struck(s, start, w, p).cells == s.cells,
{
    assert(struck(s, start, w, p).cells =~= s.cells);
}

/// The cells of `a` and `b` agree outside positions `lo` to `hi` (exclusive).
pub open spec fn same_outside(a: Seq<VgaChar>, b: Seq<VgaChar>, lo: int, hi: int) -> bool {
    forall|k: int| 0 <= k < VGA_CELLS && (k < lo || k >= hi) ==> #[trigger] a[k] == b[k]
}

proof fn lemma_run_one(s: Screen, op: Op)
    ensures
        run(s, seq![op]) == step(s, op),
{
    lemma_run_push(s, Seq::<Op>::empty(), op);
    assert(Seq::<Op>::empty() + seq![op] =~= seq![op]);
}

/// Printable bytes that fit on the cursor's line are written one after the
/// other from the cursor, in the current colour.
proof fn lemma_run_text_on_line(s: Screen, bytes: Seq<u8>)
    requires
        screen_ok(s),
        s.col + bytes.len() <= VGA_WIDTH,
        forall|i: int| 0 <= i < bytes.len() ==> 0x20 <= #[trigger] bytes[i] <= 0x7e,
    ensures
        screen_ok(run(s, text(bytes))),
        run(s, text(bytes)).row == s.row,
        run(s, text(bytes)).col == s.col + bytes.len(),
        run(s, text(bytes)).color == s.color,
        forall|k: int|
            0 <= k < VGA_CELLS ==> #[trigger] run(s, text(bytes)).cells[k] == if cell_index(s.row, s.col) <= k < cell_index(
                s.row,
                s.col,
            ) + bytes.len() {
                VgaChar { character: bytes[k - cell_index(s.row, s.col)], color: s.color }
            } else {
                s.cells[k]
            },
    decreases bytes.len(),
{
    if bytes.len() == 0 {
        assert(text(bytes) =~= Seq::<Op>::empty());
    } else {
        let front = bytes.drop_last();
        assert(forall|i: int| 0 <= i < front.len() ==> front[i] == bytes[i]);
        lemma_run_text_on_line(s, front);
        assert(text(bytes).drop_last() =~= text(front));
        lemma_run_keeps_screen_ok(s, text(bytes));
    }
}

/// A line of printable bytes ended by a line feed, written from the cursor
/// on a line other than the last, leaves the cursor at the start of the
/// next line and changes only the cells it writes on.
proof fn lemma_run_text_line(s: Screen, bytes: Seq<u8>)
    requires
        screen_ok(s),
        s.row < VGA_HEIGHT - 1,
        bytes.len() >= 1,
        bytes.last() == LINE_FEED,
        s.col + bytes.len() - 1 <= VGA_WIDTH,
        forall|i: int| 0 <= i < bytes.len() - 1 ==> 0x20 <= #[trigger] bytes[i] <= 0x7e,
    ensures
        screen_ok(run(s, text(bytes))),
        run(s, text(bytes)).row == s.row + 1,
        run(s, text(bytes)).col == 0,
        run(s, text(bytes)).color == s.color,
        same_outside(run(s, text(bytes)).cells, s.cells, cell_index(s.row, s.col), cell_index(s.row, s.col) + bytes.len() - 1),
{
    let front = bytes.drop_last();
    assert(forall|i: int| 0 <= i < front.len() ==> front[i] == bytes[i]);
    lemma_run_text_on_line(s, front);
    assert(text(bytes).drop_last() =~= text(front));
    lemma_run_keeps_screen_ok(s, text(bytes));
}

/// The bytes of the board's padding line, divider line and cell gaps.
proof fn lemma_board_text_bytes()
    ensures
        "     |     |     \n".spec_bytes() == seq![32u8, 32, 32, 32, 32, 124, 32, 32, 32, 32, 32, 124, 32, 32, 32, 32, 32, 10],
        " ----+-----+---- \n".spec_bytes() == seq![32u8, 45, 45, 45, 45, 43, 45, 45, 45, 45, 45, 43, 45, 45, 45, 45, 32, 10],
        "  ".spec_bytes() == seq![32u8, 32],
{
    reveal_strlit("     |     |     \n");
    reveal_strlit(" ----+-----+---- \n");
    reveal_strlit("  ");
    let a = "     |     |     \n";
    let b = " ----+-----+---- \n";
    let c = "  ";
    assert(a@ =~= seq![' ', ' ', ' ', ' ', ' ', '|', ' ', ' ', ' ', ' ', ' ', '|', ' ', ' ', ' ', ' ', ' ', '\n']);
    assert(b@ =~= seq![' ', '-', '-', '-', '-', '+', '-', '-', '-', '-', '-', '+', '-', '-', '-', '-', ' ', '\n']);
    assert(c@ =~= seq![' ', ' ']);
    assert(vstd::utf8::is_ascii_chars(a@));
    assert(vstd::utf8::is_ascii_chars(b@));
    assert(vstd::utf8::is_ascii_chars(c@));
    assert(is_ascii(a));
    assert(is_ascii(b));
    assert(is_ascii(c));
    assert(a.spec_bytes() =~= seq![32u8, 32, 32, 32, 32, 124, 32, 32, 32, 32, 32, 124, 32, 32, 32, 32, 32, 10]);
    assert(b.spec_bytes() =~= seq![32u8, 45, 45, 45, 45, 43, 45, 45, 45, 45, 45, 43, 45, 45, 45, 45, 32, 10]);
    assert(c.spec_bytes() =~= seq![32u8, 32]);
}

/// Drawing one board cell from the cursor writes six characters (five for
/// the last cell of a row), the cell's character third, in its colour; the
/// colour is white afterwards.
proof fn lemma_cell_drawn(s: Screen, board: Seq<Option<Player>>, index: int, grid_col: int)
    requires
        screen_ok(s),
        0 <= index < 9,
        0 <= grid_col < 3,
        s.col + 6 <= VGA_WIDTH,
    ensures
        screen_ok(run(s, cell_ops(board, index, grid_col))),
        run(s, cell_ops(board, index, grid_col)).row == s.row,
        run(s, cell_ops(board, index, grid_col)).col == s.col + if grid_col < 2 {
            6int
        } else {
            5int
        },
        run(s, cell_ops(board, index, grid_col)).color == 0x0f,
        run(s, cell_ops(board, index, grid_col)).cells[cell_index(s.row, s.col) + 2] == (VgaChar {
            character: cell_look(board, index).1,
            color: cell_look(board, index).0,
        }),
        same_outside(run(s, cell_ops(board, index, grid_col)).cells, s.cells, cell_index(s.row, s.col), cell_index(s.row, s.col) + 6),
{
    lemma_board_text_bytes();
    let (color, ch) = cell_look(board, index);
    let gap = seq![32u8, 32];
    assert(forall|i: int| 0 <= i < gap.len() ==> 0x20 <= #[trigger] gap[i] <= 0x7e);
    let a = seq![Op::Color(color)];
    let b = seq![Op::Byte(ch)];
    let c = seq![Op::Color(0x0f)];
    let tail = if grid_col < 2 {
        seq![Op::Byte(BAR)]
    } else {
        Seq::<Op>::empty()
    };
    let idx = cell_index(s.row, s.col);
    lemma_run_one(s, Op::Color(color));
    let s1 = run(s, a);
    lemma_run_text_on_line(s1, gap);
    let s2 = run(s1, gap_ops());
    lemma_run_one(s2, Op::Byte(ch));
    let s3 = run(s2, b);
    lemma_run_text_on_line(s3, gap);
    let s4 = run(s3, gap_ops());
    lemma_run_one(s4, Op::Color(0x0f));
    let s5 = run(s4, c);
    lemma_run_one(s5, Op::Byte(BAR));
    assert(run(s5, Seq::<Op>::empty()) == s5);
    let s6 = run(s5, tail);
    lemma_run_append(s, a, gap_ops());
    lemma_run_append(s, a + gap_ops(), b);
    lemma_run_append(s, a + gap_ops() + b, gap_ops());
    lemma_run_append(s, a + gap_ops() + b + gap_ops(), c);
    lemma_run_append(s, a + gap_ops() + b + gap_ops() + c, tail);
    assert(cell_ops(board, index, grid_col) == a + gap_ops() + b + gap_ops() + c + tail);
    assert(s3.cells[idx + 2] == VgaChar { character: ch, color });
    assert(same_outside(s6.cells, s.cells, idx, idx + 6));
}

/// Drawing the first `n` cells of a board row from the start of a line puts
/// each cell's character six columns after the previous one, starting in
/// column 2, and changes nothing outside the part of the line it covers.
proof fn lemma_cells_drawn(s: Screen, board: Seq<Option<Player>>, grid_row: int, n: int)
    requires
        screen_ok(s),
        s.col == 0,
        0 <= grid_row < 3,
        0 <= n <= 3,
    ensures
        screen_ok(run(s, cells_ops(board, grid_row, n))),
        run(s, cells_ops(board, grid_row, n)).row == s.row,
        run(s, cells_ops(board, grid_row, n)).col == if n == 3 {
            17int
        } else {
            6 * n
        },
        n > 0 ==> run(s, cells_ops(board, grid_row, n)).color == 0x0f,
        forall|c: int|
            0 <= c < n ==> #[trigger] run(s, cells_ops(board, grid_row, n)).cells[cell_index(s.row, 6 * c + 2)] == (VgaChar {
                character: cell_look(board, grid_row * 3 + c).1,
                color: cell_look(board, grid_row * 3 + c).0,
            }),
        same_outside(run(s, cells_ops(board, grid_row, n)).cells, s.cells, cell_index(s.row, 0), cell_index(s.row, 6 * n)),
    decreases n,
{
    if n == 0 {
        assert(cells_ops(board, grid_row, 0) =~= Seq::<Op>::empty());
    } else {
        lemma_cells_drawn(s, board, grid_row, n - 1);
        let t = run(s, cells_ops(board, grid_row, n - 1));
        lemma_cell_drawn(t, board, grid_row * 3 + n - 1, n - 1);
        lemma_run_append(s, cells_ops(board, grid_row, n - 1), cell_ops(board, grid_row * 3 + n - 1, n - 1));
    }
}

/// Drawing board row `grid_row` from the start of screen line
/// `2 + 4 * grid_row` puts its cells' characters on the line below, in
/// columns 2, 8 and 14, and changes nothing above the line it starts on.
proof fn lemma_row_drawn(s: Screen, board: Seq<Option<Player>>, grid_row: int)
    requires
        screen_ok(s),
        s.col == 0,
        0 <= grid_row < 3,
        s.row == 2 + 4 * grid_row,
    ensures
        screen_ok(run(s, row_ops(board, grid_row))),
        run(s, row_ops(board, grid_row)).col == 0,
        run(s, row_ops(board, grid_row)).row == s.row + if grid_row < 2 {
            4int
        } else {
            3int
        },
        forall|c: int|
            0 <= c < 3 ==> #[trigger] run(s, row_ops(board, grid_row)).cells[cell_index(s.row + 1, 6 * c + 2)] == (VgaChar {
                character: cell_look(board, grid_row * 3 + c).1,
                color: cell_look(board, grid_row * 3 + c).0,
            }),
        forall|k: int| 0 <= k < cell_index(s.row, 0) ==> #[trigger] run(s, row_ops(board, grid_row)).cells[k] == s.cells[k],
{
    lemma_board_text_bytes();
    let pad = seq![32u8, 32, 32, 32, 32, 124, 32, 32, 32, 32, 32, 124, 32, 32, 32, 32, 32, 10];
    let div = seq![32u8, 45, 45, 45, 45, 43, 45, 45, 45, 45, 45, 43, 45, 45, 45, 45, 32, 10];
    assert(forall|i: int| 0 <= i < pad.len() - 1 ==> 0x20 <= #[trigger] pad[i] <= 0x7e);
    assert(forall|i: int| 0 <= i < div.len() - 1 ==> 0x20 <= #[trigger] div[i] <= 0x7e);
    lemma_run_text_line(s, pad);
    let r1 = run(s, padding_ops());
    lemma_cells_drawn(r1, board, grid_row, 3);
    let r2 = run(r1, cells_ops(board, grid_row, 3));
    lemma_run_one(r2, Op::Byte(LINE_FEED));
    let r3 = run(r2, seq![Op::Byte(LINE_FEED)]);
    lemma_run_text_line(r3, pad);
    let r4 = run(r3, padding_ops());
    let tail = if grid_row < 2 {
        divider_ops()
    } else {
        Seq::<Op>::empty()
    };
    if grid_row < 2 {
        lemma_run_text_line(r4, div);
    } else {
        assert(run(r4, Seq::<Op>::empty()) == r4);
    }
    let r5 = run(r4, tail);
    let p1 = padding_ops() + cells_ops(board, grid_row, 3);
    let p2 = p1 + seq![Op::Byte(LINE_FEED)];
    let p3 = p2 + padding_ops();
    lemma_run_append(s, padding_ops(), cells_ops(board, grid_row, 3));
    lemma_run_append(s, p1, seq![Op::Byte(LINE_FEED)]);
    lemma_run_append(s, p2, padding_ops());
    lemma_run_append(s, p3, tail);
    assert(row_ops(board, grid_row) == p3 + tail);
    assert forall|c: int| 0 <= c < 3 implies #[trigger] r5.cells[cell_index(s.row + 1, 6 * c + 2)] == r2.cells[cell_index(
        s.row + 1,
        6 * c + 2,
    )] by {
        assert(r3.cells == r2.cells);
    }
    assert(r3.cells == r2.cells);
}

/// Drawing the game shows each board cell's character, in its colour, at
/// the centre of its place on the board: screen row `3 + 4 * (i / 3)`,
/// column `2 + 6 * (i % 3)` for cell `i`. These are the centres that a
/// winning line is struck through.
pub proof fn lemma_board_cells_at_centres(s: Screen, board: Seq<Option<Player>>)
    requires
        screen_ok(s),
        board.len() == 9,
    ensures
        forall|i: int|
            0 <= i < 9 ==> #[trigger] run(run(cleared(s), header_ops()), rows_ops(board, 3)).cells[(3 + 4 * (i / 3)) * 80 + 2
                + 6 * (i % 3)] == (VgaChar { character: cell_look(board, i).1, color: cell_look(board, i).0 }),
        forall|i: int|
            0 <= i < 9 ==> #[trigger] drawn(s, board, Seq::<Seq<char>>::empty(), None).cells[(3 + 4 * (i / 3)) * 80 + 2 + 6 * (i
                % 3)] == (VgaChar { character: cell_look(board, i).1, color: cell_look(board, i).0 }),
{
    lemma_title_height(s);
    let t0 = run(cleared(s), header_ops());
    lemma_run_keeps_screen_ok(cleared(s), header_ops());
    assert(rows_ops(board, 0) =~= Seq::<Op>::empty());
    assert(rows_ops(board, 1) =~= row_ops(board, 0));
    assert(rows_ops(board, 2) == rows_ops(board, 1) + row_ops(board, 1));
    assert(rows_ops(board, 3) == rows_ops(board, 2) + row_ops(board, 2));
    lemma_row_drawn(t0, board, 0);
    let t1 = run(t0, row_ops(board, 0));
    lemma_row_drawn(t1, board, 1);
    let t2 = run(t1, row_ops(board, 1));
    lemma_row_drawn(t2, board, 2);
    let t3 = run(t2, row_ops(board, 2));
    lemma_run_append(t0, row_ops(board, 0), row_ops(board, 1));
    lemma_run_append(t0, rows_ops(board, 2), row_ops(board, 2));
    assert(run(t0, rows_ops(board, 3)) == t3);
    assert forall|i: int| 0 <= i < 9 implies #[trigger] t3.cells[(3 + 4 * (i / 3)) * 80 + 2 + 6 * (i % 3)] == (VgaChar {
        character: cell_look(board, i).1,
        color: cell_look(board, i).0,
    }) by {
        let r = i / 3;
        let c = i % 3;
        assert(i == r * 3 + c);
        let k = (3 + 4 * (i / 3)) * 80 + 2 + 6 * (i % 3);
        assert(cell_index(3 + 4 * r, 6 * c + 2) == k);
        if r == 0 {
            assert(t1.cells[cell_index(t0.row + 1, 6 * c + 2)] == (VgaChar {
                character: cell_look(board, c).1,
                color: cell_look(board, c).0,
            }));
            assert(k < cell_index(t1.row, 0));
            assert(t2.cells[k] == t1.cells[k]);
            assert(k < cell_index(t2.row, 0));
            assert(t3.cells[k] == t2.cells[k]);
        } else if r == 1 {
            assert(t2.cells[cell_index(t1.row + 1, 6 * c + 2)] == (VgaChar {
                character: cell_look(board, 3 + c).1,
                color: cell_look(board, 3 + c).0,
            }));
            assert(k < cell_index(t2.row, 0));
            assert(t3.cells[k] == t2.cells[k]);
        } else {
            assert(t3.cells[cell_index(t2.row + 1, 6 * c + 2)] == (VgaChar {
                character: cell_look(board, 6 + c).1,
                color: cell_look(board, 6 + c).0,
            }));
        }
    }
    assert(Seq::<Op>::empty() + winner_ops(None) =~= Seq::<Op>::empty());
    assert(error_ops(Seq::<Seq<char>>::empty()) =~= Seq::<Op>::empty());
    assert(run(t3, Seq::<Op>::empty()) == t3);
}

/// The winner is announced on a line of its own below the board, "Player X
/// wins!" or "Player O wins!", in light green (0x0A); each error is reported
/// on a line of its own as "Error: " and its message, in light red (0x0C);
/// both set the colour back to white (0x0f) afterwards.
pub proof fn lemma_messages(errors: Seq<Seq<char>>, w: Win)
    ensures
        winner_ops(Some((Player::X, w))) == seq![Op::Color(0x0A)] + text(
            seq![10u8, 80, 108, 97, 121, 101, 114, 32, 88, 32, 119, 105, 110, 115, 33, 10],
        ) + seq![Op::Color(0x0f)],
        winner_ops(Some((Player::O, w))) == seq![Op::Color(0x0A)] + text(
            seq![10u8, 80, 108, 97, 121, 101, 114, 32, 79, 32, 119, 105, 110, 115, 33, 10],
        ) + seq![Op::Color(0x0f)],
        winner_ops(None) == Seq::<Op>::empty(),
        errors.len() > 0 ==> error_ops(errors) == error_ops(errors.drop_last()) + seq![Op::Color(0x0C)] + text(
            seq![10u8, 69, 114, 114, 111, 114, 58, 32] + vstd::utf8::encode_utf8(errors.last()) + seq![10u8],
        ) + seq![Op::Color(0x0f)],
        error_ops(Seq::<Seq<char>>::empty()) == Seq::<Op>::empty(),
{
    reveal_strlit("\nPlayer X wins!\n");
    reveal_strlit("\nPlayer O wins!\n");
    reveal_strlit("\nError: ");
    reveal_strlit("\n");
    let x = "\nPlayer X wins!\n";
    let o = "\nPlayer O wins!\n";
    let e = "\nError: ";
    let n = "\n";
    assert(x@ =~= seq!['\n', 'P', 'l', 'a', 'y', 'e', 'r', ' ', 'X', ' ', 'w', 'i', 'n', 's', '!', '\n']);
    assert(o@ =~= seq!['\n', 'P', 'l', 'a', 'y', 'e', 'r', ' ', 'O', ' ', 'w', 'i', 'n', 's', '!', '\n']);
    assert(e@ =~= seq!['\n', 'E', 'r', 'r', 'o', 'r', ':', ' ']);
    assert(n@ =~= seq!['\n']);
    assert(vstd::utf8::is_ascii_chars(x@));
    assert(vstd::utf8::is_ascii_chars(o@));
    assert(vstd::utf8::is_ascii_chars(e@));
    assert(vstd::utf8::is_ascii_chars(n@));
    assert(is_ascii(x));
    assert(is_ascii(o));
    assert(is_ascii(e));
    assert(is_ascii(n));
    assert(x.spec_bytes() =~= seq![10u8, 80, 108, 97, 121, 101, 114, 32, 88, 32, 119, 105, 110, 115, 33, 10]);
    assert(o.spec_bytes() =~= seq![10u8, 80, 108, 97, 121, 101, 114, 32, 79, 32, 119, 105, 110, 115, 33, 10]);
    assert(e.spec_bytes() =~= seq![10u8, 69, 114, 114, 111, 114, 58, 32]);
    assert(n.spec_bytes() =~= seq![10u8]);
    assert(error_ops(Seq::<Seq<char>>::empty()) =~= Seq::<Op>::empty());
}

/// Carrying out two lists of operations one after the other is carrying out
/// their concatenation.
pub proof fn lemma_run_append(s: Screen, a: Seq<Op>, b: Seq<Op>)
    ensures
        run(s, a + b) == run(run(s, a), b),
    decreases b.len(),
{
    if b.len() == 0 {
        assert(a + b =~= a);
    } else {
        lemma_run_append(s, a, b.drop_last());
        assert((a + b).drop_last() =~= a + b.drop_last());
        assert((a + b).last() == b.last());
    }
}

/// Carrying out a list of operations and then one more is carrying out the
/// list with that operation appended.
pub proof fn lemma_run_push(s: Screen, a: Seq<Op>, op: Op)
    ensures
        run(s, a + seq![op]) == step(run(s, a), op),
{
    assert((a + seq![op]).drop_last() =~= a);
}

/// Drawing the game redraws the whole screen: what was on it before, and
/// where its cursor stood, make no difference; only its colour does, since
/// the screen is cleared in that colour.
pub proof fn lemma_drawing_forgets_old_screen(
    s1: Screen,
    s2: Screen,
    board: Seq<Option<Player>>,
    errors: Seq<Seq<char>>,
    winner: Option<(Player, Win)>,
)
    requires
        s1.color == s2.color,
    ensures
        drawn(s1, board, errors, winner) == drawn(s2, board, errors, winner),
{
    assert(cleared(s1) == cleared(s2));
}

/// Text is shown only as printable ASCII, line feeds and squares, and
/// showing it twice changes nothing more.
pub proof fn lemma_printable_shows_safe_bytes(b: u8)
    ensures
        (0x20 <= printable(b) <= 0x7e) || printable(b) == LINE_FEED || printable(b) == SQUARE,
        printable(printable(b)) == printable(b),
{
}

/// Every operation keeps the screen well formed: its size, and the cursor on
/// the screen.
pub proof fn lemma_run_keeps_screen_ok(s: Screen, ops: Seq<Op>)
    requires
        screen_ok(s),
    ensures
        screen_ok(run(s, ops)),
    decreases ops.len(),
{
    if ops.len() > 0 {
        lemma_run_keeps_screen_ok(s, ops.drop_last());
    }
}

impl VgaWriter {
    /// The console is well formed: its screen has the right size and the
    /// cursor stands on it.
    pub open spec fn wf(&self) -> bool {
        screen_ok(self@)
    }

    /// A console over the given screen contents, with the cursor at the top
    /// left and white on black as its colour.
    pub fn new(buffer: Vec<VgaChar>) -> (w: Self)
        requires
            buffer.len() == VGA_CELLS,
        ensures
            w.wf(),
            w@ == (Screen { cells: buffer@, row: 0, col: 0, color: 0x0f }),
    {
        VgaWriter { buffer, current_row: 0, current_col: 0, color: 0x0f }
    }

    /// The screen's cells, row by row.
    pub fn cells(&self) -> (c: &[VgaChar])
        ensures
            c@ == self@.cells,
    {
        self.buffer.as_slice()
    }

    /// Blanks the whole screen in the current colour and puts the cursor at
    /// the top left.
    pub fn clear(&mut self)
        requires
            old(self).wf(),
        ensures
            final(self).wf(),
            final(self)@ == cleared(old(self)@),
    {
        let blank = VgaChar::new(SPACE, self.color);
        let mut k: usize = 0;
        while k < VGA_CELLS
            invariant
                self.buffer.len() == VGA_CELLS,
                k <= VGA_CELLS,
                blank == blank_cell(self.color),
                forall|j: int| 0 <= j < k ==> self.buffer@[j] == blank,
            decreases VGA_CELLS - k,
        {
            self.buffer.set(k, blank);
            k += 1;
        }
        self.current_row = 0;
        self.current_col = 0;
        assert(self.buffer@ =~= cleared(old(self)@).cells);
    }

    /// Sets the colour in which the next characters are written.
    pub fn set_color(&mut self, color: u8)
        requires
            old(self).wf(),
        ensures
            final(self).wf(),
            final(self)@ == step(old(self)@, Op::Color(color)),
    {
        self.color = color;
    }

    fn new_line(&mut self)
        requires
            old(self).wf(),
        ensures
            final(self).wf(),
            final(self)@ == newline(old(self)@),
    {
        self.current_col = 0;
        if self.current_row < VGA_HEIGHT - 1 {
            self.current_row += 1;
        } else {
            let ghost old_cells = self.buffer@;
            let mut k: usize = VGA_WIDTH;
            while k < VGA_CELLS
                invariant
                    self.buffer.len() == VGA_CELLS,
                    old_cells.len() == VGA_CELLS,
                    self.current_row == VGA_HEIGHT - 1,
                    self.current_col == 0,
                    self.color == old(self).color,
                    VGA_WIDTH <= k <= VGA_CELLS,
                    forall|j: int| 0 <= j < k - VGA_WIDTH ==> self.buffer@[j] == old_cells[j + VGA_WIDTH],
                    forall|j: int| k - VGA_WIDTH <= j < VGA_CELLS ==> self.buffer@[j] == old_cells[j],
                decreases VGA_CELLS - k,
            {
                let c = self.buffer[k];
                self.buffer.set(k - VGA_WIDTH, c);
                k += 1;
            }
            let blank = VgaChar::new(SPACE, self.color);
            let mut k: usize = VGA_CELLS - VGA_WIDTH;
            while k < VGA_CELLS
                invariant
                    self.buffer.len() == VGA_CELLS,
                    old_cells.len() == VGA_CELLS,
                    self.current_row == VGA_HEIGHT - 1,
                    self.current_col == 0,
                    self.color == old(self).color,
                    VGA_CELLS - VGA_WIDTH <= k <= VGA_CELLS,
                    blank == blank_cell(self.color),
                    forall|j: int| 0 <= j < VGA_CELLS - VGA_WIDTH ==> self.buffer@[j] == old_cells[j + VGA_WIDTH],
                    forall|j: int| VGA_CELLS - VGA_WIDTH <= j < k ==> self.buffer@[j] == blank,
                decreases VGA_CELLS - k,
            {
                self.buffer.set(k, blank);
                k += 1;
            }
            assert(self.buffer@ =~= scrolled(old_cells, self.color));
        }
    }

    /// Writes one byte at the cursor, as `put_byte` says: a line feed breaks
    /// the line; any other byte is put at the cursor in the current colour.
    pub fn write_byte(&mut self, byte: u8)
        requires
            old(self).wf(),
        ensures
            final(self).wf(),
            final(self)@ == put_byte(old(self)@, byte),
            final(self)@.color == old(self)@.color,
    {
        if byte == LINE_FEED {
            self.new_line();
        } else {
            if self.current_col >= VGA_WIDTH {
                self.new_line();
            }
            if self.current_row < VGA_HEIGHT {
                let idx = self.current_row * VGA_WIDTH + self.current_col;
                self.buffer.set(idx, VgaChar { character: byte, color: self.color });
                self.current_col += 1;
            }
        }
    }

    fn put_cell(&mut self, row: usize, col: usize, ch: u8, color: u8)
        requires
            old(self).wf(),
            row < VGA_HEIGHT,
            col < VGA_WIDTH,
        ensures
            final(self).wf(),
            final(self)@ == (Screen {
                cells: old(self)@.cells.update(cell_index(row as int, col as int), VgaChar { character: ch, color }),
                row: old(self)@.row,
                col: old(self)@.col,
                color: old(self)@.color,
            }),
    {
        self.buffer.set(row * VGA_WIDTH + col, VgaChar::new(ch, color));
    }

    fn draw_strikethrough(&mut self, grid_start_row: usize, win: &Win, player: Player)
        requires
            old(self).wf(),
            sorted3(win.0 as int, win.1 as int, win.2 as int) == (0int, 4int, 8int) || sorted3(
                win.0 as int,
                win.1 as int,
                win.2 as int,
            ) == (2int, 4int, 6int) ==> grid_start_row + 8 < VGA_HEIGHT,
            center_fits(grid_start_row as int, win.0 as int),
            center_fits(grid_start_row as int, win.1 as int),
            center_fits(grid_start_row as int, win.2 as int),
        ensures
            final(self).wf(),
            final(self)@ == struck(old(self)@, grid_start_row as int, *win, player),
    {
        let ghost s0 = self@;
        let ghost start = grid_start_row as int;
        let Win(pos1, pos2, pos3) = *win;
        let (row1, col1) = cell_center_at(grid_start_row, pos1);
        let (row2, col2) = cell_center_at(grid_start_row, pos2);
        let (row3, col3) = cell_center_at(grid_start_row, pos3);
        let strikethrough_color: u8 = match player {
            Player::X => 0x0C,
            Player::O => 0x0D,
        };
        if row1 == row2 && row2 == row3 {
            // horizontal wins: the last column is the third centre, never drawn over
            let row = row1;
            let mut col = col1;
            while col < col3
                invariant
                    self.wf(),
                    self@.row == s0.row && self@.col == s0.col && self@.color == s0.color,
                    col1 <= col,
                    col <= col3 || col == col1,
                    col3 < 15,
                    self@.cells == Seq::new(
                        VGA_CELLS as nat,
                        |k: int|
                            if row_of(k) == row && col1 <= col_of(k) < col && col_of(k) != col1 && col_of(k) != col2 && col_of(k)
                                != col3 {
                                VgaChar { character: DASH, color: strikethrough_color }
                            } else {
                                s0.cells[k]
                            },
                    ),
                decreases col3 - col,
            {
                let ghost before = self@.cells;
                if col < VGA_WIDTH && row < VGA_HEIGHT && (col != col1 && col != col2 && col != col3) {
                    self.put_cell(row, col, DASH, strikethrough_color);
                    proof {
                        lemma_cell_position(row as int, col as int);
                    }
                }
                col += 1;
                assert forall|k: int| 0 <= k < VGA_CELLS implies self@.cells[k] == (if row_of(k)
                    == row && col1 <= col_of(k) < col && col_of(k) != col1 && col_of(k) != col2 && col_of(k) != col3 {
                    VgaChar { character: DASH, color: strikethrough_color }
                } else {
                    s0.cells[k]
                }) by {
                    if row_of(k) == row && col_of(k) == col - 1 {
                        assert(k == cell_index(row as int, (col - 1) as int));
                    }
                }
                assert(self@.cells =~= Seq::new(
                    VGA_CELLS as nat,
                    |k: int|
                        if row_of(k) == row && col1 <= col_of(k) < col && col_of(k) != col1 && col_of(k) != col2 && col_of(k)
                            != col3 {
                            VgaChar { character: DASH, color: strikethrough_color }
                        } else {
                            s0.cells[k]
                        },
                ));
            }
            assert(self@.cells =~= struck(s0, start, *win, player).cells);
        } else if col1 == col2 && col2 == col3 {
            // vertical wins: the last row is the third centre, never drawn over
            let col = col1;
            let mut row = row1;
            while row < row3
                invariant
                    self.wf(),
                    self@.row == s0.row && self@.col == s0.col && self@.color == s0.color,
                    row1 <= row,
                    row <= row3 || row == row1,
                    col < 15,
                    self@.cells == Seq::new(
                        VGA_CELLS as nat,
                        |k: int|
                            if col_of(k) == col && row1 <= row_of(k) < row && row_of(k) != row1 && row_of(k) != row2 && row_of(k)
                                != row3 {
                                VgaChar { character: BAR, color: strikethrough_color }
                            } else {
                                s0.cells[k]
                            },
                    ),
                decreases row3 - row,
            {
                if (col < VGA_WIDTH && row < VGA_HEIGHT) && (row != row1 && row != row2 && row != row3) {
                    self.put_cell(row, col, BAR, strikethrough_color);
                    proof {
                        lemma_cell_position(row as int, col as int);
                    }
                }
                row += 1;
                assert forall|k: int| 0 <= k < VGA_CELLS implies self@.cells[k] == (if col_of(k)
                    == col && row1 <= row_of(k) < row && row_of(k) != row1 && row_of(k) != row2 && row_of(k) != row3 {
                    VgaChar { character: BAR, color: strikethrough_color }
                } else {
                    s0.cells[k]
                }) by {
                    if col_of(k) == col && row_of(k) == row - 1 {
                        assert(k == cell_index((row - 1) as int, col as int));
                    }
                }
                assert(self@.cells =~= Seq::new(
                    VGA_CELLS as nat,
                    |k: int|
                        if col_of(k) == col && row1 <= row_of(k) < row && row_of(k) != row1 && row_of(k) != row2 && row_of(k)
                            != row3 {
                            VgaChar { character: BAR, color: strikethrough_color }
                        } else {
                            s0.cells[k]
                        },
                ));
            }
            assert(self@.cells =~= struck(s0, start, *win, player).cells);
        } else {
            // diagonal wins
            let (sorted1, sorted2, sorted3) = sort3(pos1, pos2, pos3);
            if sorted1 == 0 && sorted2 == 4 && sorted3 == 8 {
                self.put_cell(grid_start_row + 2, 4, BACKSLASH, strikethrough_color);
                self.put_cell(grid_start_row + 3, 5, BACKSLASH, strikethrough_color);
                self.put_cell(grid_start_row + 4, 6, BACKSLASH, strikethrough_color);
                self.put_cell(grid_start_row + 6, 10, BACKSLASH, strikethrough_color);
                self.put_cell(grid_start_row + 7, 11, BACKSLASH, strikethrough_color);
                self.put_cell(grid_start_row + 8, 12, BACKSLASH, strikethrough_color);
                proof {
                    lemma_strokes_placed(s0.cells, self@.cells, start, 4, 5, 6, 10, 11, 12, BACKSLASH, strikethrough_color);
                }
                assert(self@.cells =~= struck(s0, start, *win, player).cells);
            } else if sorted1 == 2 && sorted2 == 4 && sorted3 == 6 {
                self.put_cell(grid_start_row + 2, 12, SLASH, strikethrough_color);
                self.put_cell(grid_start_row + 3, 11, SLASH, strikethrough_color);
                self.put_cell(grid_start_row + 4, 10, SLASH, strikethrough_color);
                self.put_cell(grid_start_row + 6, 6, SLASH, strikethrough_color);
                self.put_cell(grid_start_row + 7, 5, SLASH, strikethrough_color);
                self.put_cell(grid_start_row + 8, 4, SLASH, strikethrough_color);
                proof {
                    lemma_strokes_placed(s0.cells, self@.cells, start, 12, 11, 10, 6, 5, 4, SLASH, strikethrough_color);
                }
                assert(self@.cells =~= struck(s0, start, *win, player).cells);
            } else {
                assert(self@.cells =~= struck(s0, start, *win, player).cells);
            }
        }
    }

    /// Draws the game: clears the screen, writes the title and the board
    /// (each cell showing its mark, or its digit key when empty), strikes
    /// through the winning line if there is a winner, then reports each error
    /// and announces the winner below the board.
    pub fn draw_table(&mut self, table: &Table, errors: Vec<String>, winner: Option<(Player, Win)>)
        requires
            old(self).wf(),
            winner matches Some((_, w)) ==> center_fits(2, w.0 as int) && center_fits(2, w.1 as int)
                && center_fits(2, w.2 as int),
        ensures
            final(self).wf(),
            final(self)@ == drawn(old(self)@, table@, errors@.map_values(|e: String| e@), winner),
            final(self)@.color == 0x0f,
    {
        let ghost board = table@;
        let ghost errs = errors@.map_values(|e: String| e@);
        self.clear();
        self.write_string("Tic Tac Toe\n\n");
        proof {
            lemma_title_height(old(self)@);
        }
        let grid_start_row = self.current_row;
        let ghost titled = self@;
        let mut grid_row: usize = 0;
        assert(rows_ops(board, 0) =~= Seq::<Op>::empty());
        while grid_row < 3
            invariant
                self.wf(),
                grid_row <= 3,
                board == table@,
                self@ == run(titled, rows_ops(board, grid_row as int)),
                grid_row > 0 ==> self@.color == 0x0f,
            decreases 3 - grid_row,
        {
            let ghost row_start = self@;
            self.write_string("     |     |     \n");
            let mut grid_col: usize = 0;
            assert(padding_ops() + cells_ops(board, grid_row as int, 0) =~= padding_ops());
            while grid_col < 3
                invariant
                    self.wf(),
                    grid_row < 3,
                    grid_col <= 3,
                    board == table@,
                    grid_col > 0 ==> self@.color == 0x0f,
                    self@ == run(row_start, padding_ops() + cells_ops(board, grid_row as int, grid_col as int)),
                decreases 3 - grid_col,
            {
                let index = grid_row * 3 + grid_col;
                let ghost cell_start = self@;
                let (color, ch): (u8, u8) = match table.state[index] {
                    Some(Player::X) => (0x0B, LETTER_X),
                    Some(Player::O) => (0x0E, LETTER_O),
                    None => (0x08, DIGIT_ONE + index as u8),
                };
                assert((color, ch) == cell_look(board, index as int));
                self.set_color(color);
                let ghost mut acc: Seq<Op> = seq![Op::Color(color)];
                proof {
                    lemma_run_push(cell_start, Seq::<Op>::empty(), Op::Color(color));
                    assert(Seq::<Op>::empty() + seq![Op::Color(color)] =~= acc);
                }
                self.write_string("  ");
                proof {
                    lemma_run_append(cell_start, acc, gap_ops());
                    acc = acc + gap_ops();
                }
                self.write_byte(ch);
                proof {
                    lemma_run_push(cell_start, acc, Op::Byte(ch));
                    acc = acc + seq![Op::Byte(ch)];
                }
                self.write_string("  ");
                proof {
                    lemma_run_append(cell_start, acc, gap_ops());
                    acc = acc + gap_ops();
                }
                self.set_color(0x0f);
                proof {
                    lemma_run_push(cell_start, acc, Op::Color(0x0f));
                    acc = acc + seq![Op::Color(0x0f)];
                }
                if grid_col < 2 {
                    self.write_byte(BAR);
                    proof {
                        lemma_run_push(cell_start, acc, Op::Byte(BAR));
                        acc = acc + seq![Op::Byte(BAR)];
                    }
                } else {
                    assert(acc + Seq::<Op>::empty() =~= acc);
                }
                proof {
                    assert(acc =~= cell_ops(board, index as int, grid_col as int));
                    let before = padding_ops() + cells_ops(board, grid_row as int, grid_col as int);
                    lemma_run_append(row_start, before, acc);
                    assert(before + acc =~= padding_ops() + cells_ops(board, grid_row as int, grid_col + 1));
                }
                grid_col += 1;
            }
            let ghost mut acc: Seq<Op> = padding_ops() + cells_ops(board, grid_row as int, 3);
            self.write_byte(LINE_FEED);
            proof {
                lemma_run_push(row_start, acc, Op::Byte(LINE_FEED));
                acc = acc + seq![Op::Byte(LINE_FEED)];
            }
            self.write_string("     |     |     \n");
            proof {
                lemma_run_append(row_start, acc, padding_ops());
                acc = acc + padding_ops();
            }
            if grid_row < 2 {
                self.write_string(" ----+-----+---- \n");
                proof {
                    lemma_run_append(row_start, acc, divider_ops());
                    acc = acc + divider_ops();
                }
            } else {
                assert(acc + Seq::<Op>::empty() =~= acc);
            }
            proof {
                assert(acc =~= row_ops(board, grid_row as int));
                lemma_run_append(titled, rows_ops(board, grid_row as int), acc);
            }
            grid_row += 1;
        }
        if let Some((player, win)) = winner {
            self.draw_strikethrough(grid_start_row, &win, player);
        }
        let ghost marked = self@;
        let mut i: usize = 0;
        assert(errs.take(0) =~= Seq::<Seq<char>>::empty());
        while i < errors.len()
            invariant
                self.wf(),
                i <= errors.len(),
                errs == errors@.map_values(|e: String| e@),
                self@.color == 0x0f,
                self@ == run(marked, error_ops(errs.take(i as int))),
            decreases errors.len() - i,
        {
            let ghost before = error_ops(errs.take(i as int));
            let ghost mut acc: Seq<Op> = before;
            self.set_color(0x0C);
            proof {
                lemma_run_push(marked, acc, Op::Color(0x0C));
                acc = acc + seq![Op::Color(0x0C)];
            }
            self.write_string("\nError: ");
            proof {
                lemma_run_append(marked, acc, text("\nError: ".spec_bytes()));
                acc = acc + text("\nError: ".spec_bytes());
            }
            let message = errors[i].as_str();
            self.write_string(message);
            proof {
                lemma_run_append(marked, acc, text(message.spec_bytes()));
                acc = acc + text(message.spec_bytes());
            }
            self.write_string("\n");
            proof {
                lemma_run_append(marked, acc, text("\n".spec_bytes()));
                acc = acc + text("\n".spec_bytes());
            }
            self.set_color(0x0f);
            proof {
                lemma_run_push(marked, acc, Op::Color(0x0f));
                acc = acc + seq![Op::Color(0x0f)];
                assert(errs.take(i + 1).drop_last() =~= errs.take(i as int));
                assert(errs.take(i + 1).last() == message@);
                assert(text("\nError: ".spec_bytes() + vstd::utf8::encode_utf8(message@) + "\n".spec_bytes())
                    =~= text("\nError: ".spec_bytes()) + text(message.spec_bytes()) + text("\n".spec_bytes()));
                assert(acc =~= error_ops(errs.take(i + 1)));
            }
            i += 1;
        }
        assert(errs.take(errors.len() as int) =~= errs);
        let ghost reported = self@;
        if let Some((player, _)) = winner {
            self.set_color(0x0A);
            let ghost mut acc: Seq<Op> = seq![Op::Color(0x0A)];
            proof {
                lemma_run_push(reported, Seq::<Op>::empty(), Op::Color(0x0A));
                assert(Seq::<Op>::empty() + seq![Op::Color(0x0A)] =~= acc);
            }
            match player {
                Player::X => {
                    self.write_string("\nPlayer X wins!\n");
                    proof {
                        lemma_run_append(reported, acc, text("\nPlayer X wins!\n".spec_bytes()));
                        acc = acc + text("\nPlayer X wins!\n".spec_bytes());
                    }
                },
                Player::O => {
                    self.write_string("\nPlayer O wins!\n");
                    proof {
                        lemma_run_append(reported, acc, text("\nPlayer O wins!\n".spec_bytes()));
                        acc = acc + text("\nPlayer O wins!\n".spec_bytes());
                    }
                },
            }
            self.set_color(0x0f);
            proof {
                lemma_run_push(reported, acc, Op::Color(0x0f));
                acc = acc + seq![Op::Color(0x0f)];
                assert(acc =~= winner_ops(winner));
            }
        } else {
            assert(winner_ops(winner) =~= Seq::<Op>::empty());
        }
        proof {
            lemma_run_append(marked, error_ops(errs), winner_ops(winner));
        }
    }

    /// Writes the bytes of `s` at the cursor, each shown as `printable` says.
    pub fn write_string(&mut self, s: &str)
        requires
            old(self).wf(),
        ensures
            final(self).wf(),
            final(self)@ == run(old(self)@, text(s.spec_bytes())),
            final(self)@.color == old(self)@.color,
    {
        let bytes = s.as_bytes();
        let ghost s0 = self@;
        let mut i: usize = 0;
        assert(text(bytes@.take(0)) =~= Seq::<Op>::empty());
        while i < bytes.len()
            invariant
                i <= bytes@.len(),
                self.wf(),
                self@ == run(s0, text(bytes@.take(i as int))),
                self@.color == s0.color,
            decreases bytes.len() - i,
        {
            let byte = bytes[i];
            if (0x20 <= byte && byte <= 0x7e) || byte == LINE_FEED {
                self.write_byte(byte);
            } else {
                self.write_byte(SQUARE);
            }
            assert(text(bytes@.take(i + 1)).drop_last() =~= text(bytes@.take(i as int)));
            i += 1;
        }
        assert(bytes@.take(bytes.len() as int) =~= bytes@);
    }
}

} // verus!
