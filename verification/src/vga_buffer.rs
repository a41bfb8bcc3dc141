//! A simpler console that writes on the bottom line of the screen and
//! scrolls the whole screen up at every line break, as a DOS prompt does.

use vstd::prelude::*;
use vstd::string::*;

use crate::vga::printable;

verus! {

/// The sixteen standard colours of VGA text mode.
#[derive(Debug, Clone, Copy, PartialEq, Eq, Structural)]
pub enum Color {
    Black,
    Blue,
    Green,
    Cyan,
    Red,
    Magenta,
    Brown,
    LightGray,
    DarkGray,
    LightBlue,
    LightGreen,
    LightCyan,
    LightRed,
    Pink,
    Yellow,
    White,
}

impl Color {
    /// The colour's number in the VGA palette.
    pub open spec fn code(self) -> u8 {
        match self {
            Color::Black => 0,
            Color::Blue => 1,
            Color::Green => 2,
            Color::Cyan => 3,
            Color::Red => 4,
            Color::Magenta => 5,
            Color::Brown => 6,
            Color::LightGray => 7,
            Color::DarkGray => 8,
            Color::LightBlue => 9,
            Color::LightGreen => 10,
            Color::LightCyan => 11,
            Color::LightRed => 12,
            Color::Pink => 13,
            Color::Yellow => 14,
            Color::White => 15,
        }
    }

    /// The colour's number in the VGA palette.
    pub fn value(&self) -> (v: u8)
        ensures
            v == self.code(),
            v < 16,
    {
        match self {
            Color::Black => 0,
            Color::Blue => 1,
            Color::Green => 2,
            Color::Cyan => 3,
            Color::Red => 4,
            Color::Magenta => 5,
            Color::Brown => 6,
            Color::LightGray => 7,
            Color::DarkGray => 8,
            Color::LightBlue => 9,
            Color::LightGreen => 10,
            Color::LightCyan => 11,
            Color::LightRed => 12,
            Color::Pink => 13,
            Color::Yellow => 14,
            Color::White => 15,
        }
    }
}

/// The VGA palette numbers of the sixteen colours.
pub proof fn lemma_palette()
    ensures
        Color::Black.code() == 0,
        Color::Blue.code() == 1,
        Color::Green.code() == 2,
        Color::Cyan.code() == 3,
        Color::Red.code() == 4,
        Color::Magenta.code() == 5,
        Color::Brown.code() == 6,
        Color::LightGray.code() == 7,
        Color::DarkGray.code() == 8,
        Color::LightBlue.code() == 9,
        Color::LightGreen.code() == 10,
        Color::LightCyan.code() == 11,
        Color::LightRed.code() == 12,
        Color::Pink.code() == 13,
        Color::Yellow.code() == 14,
        Color::White.code() == 15,
{
}

/// A colour attribute: the background colour in the high four bits, the
/// foreground colour in the low four.
#[derive(Debug, Clone, Copy, PartialEq, Eq, Structural)]
pub struct ColorCode(pub u8);

/// The attribute for `foreground` text on `background`.
pub open spec fn color_code(foreground: Color, background: Color) -> ColorCode {
    ColorCode((background.code() * 16 + foreground.code()) as u8)
}

impl ColorCode {
    /// The attribute for `foreground` text on `background`.
    pub fn new(foreground: Color, background: Color) -> (c: ColorCode)
        ensures
            c.0 == background.code() * 16 + foreground.code(),
            c == color_code(foreground, background),
    {
        let bg = background.value();
        let fg = foreground.value();
        let code = (bg << 4u8) | fg;
        assert(code == bg * 16 + fg) by (bit_vector)
            requires
                bg < 16,
                fg < 16,
                code == (bg << 4u8) | fg,
        ;
        ColorCode(code)
    }
}

/// One character cell: an ASCII character and its colour attribute.
#[derive(Debug, Clone, Copy, PartialEq, Eq, Structural)]
pub struct ScreenChar {
    pub ascii_character: u8,
    pub color_code: ColorCode,
}

pub const BUFFER_HEIGHT: usize = 25;

pub const BUFFER_WIDTH: usize = 80;

/// The number of character cells on the screen.
pub const BUFFER_CELLS: usize = 2000;

/// What a prompt console is: the screen's cells row by row, the column at
/// which the next character goes on the bottom line, and the colour
/// attribute of the characters it writes.
pub struct Prompt {
    pub chars: Seq<ScreenChar>,
    pub column: int,
    pub color_code: ColorCode,
}

/// A prompt console whose cells live in memory of its own; the code that
/// owns the hardware copies them to the VGA text buffer.
pub struct Writer {
    column_position: usize,
    color_code: ColorCode,
    buffer: Vec<ScreenChar>,
}

impl View for Writer {
    type V = Prompt;

    closed spec fn view(&self) -> Prompt {
        Prompt { chars: self.buffer@, column: self.column_position as int, color_code: self.color_code }
    }
}

/// A screen of the right size whose column stands on the bottom line (or one
/// past its end, when the line has just been filled).
pub open spec fn prompt_ok(p: Prompt) -> bool {
    &&& p.chars.len() == BUFFER_CELLS
    &&& 0 <= p.column <= BUFFER_WIDTH
}

/// The prompt after a line break: every line moves up by one, the bottom
/// line is blanked in the prompt's colour, and the column goes back to the
/// start.
pub open spec fn line_break(p: Prompt) -> Prompt {
    Prompt {
        chars: Seq::new(
            BUFFER_CELLS as nat,
            |k: int|
                if k < BUFFER_CELLS - BUFFER_WIDTH {
                    p.chars[k + BUFFER_WIDTH]
                } else {
                    ScreenChar { ascii_character: 0x20, color_code: p.color_code }
                },
        ),
        column: 0,
        color_code: p.color_code,
    }
}

/// The prompt after the byte `b` is written: a line feed breaks the line;
/// any other byte goes on the bottom line at the current column, which then
/// moves right, the line being broken first when it is full.
pub open spec fn prompt_put(p: Prompt, b: u8) -> Prompt {
    if b == 10 {
        line_break(p)
    } else {
        let q = if p.column >= BUFFER_WIDTH {
            line_break(p)
        } else {
            p
        };
        Prompt {
            chars: q.chars.update(
                (BUFFER_HEIGHT - 1) * BUFFER_WIDTH + q.column,
                ScreenChar { ascii_character: b, color_code: q.color_code },
            ),
            column: q.column + 1,
            color_code: q.color_code,
        }
    }
}

/// The prompt after the bytes `bytes` are written in order.
pub open spec fn prompt_run(p: Prompt, bytes: Seq<u8>) -> Prompt
    decreases bytes.len(),
{
    if bytes.len() == 0 {
        p
    } else {
        prompt_put(prompt_run(p, bytes.drop_last()), bytes.last())
    }
}

/// The bytes that show the text whose bytes are `bytes`: printable ASCII and
/// line feeds stand for themselves, anything else becomes a small square.
pub open spec fn shown(bytes: Seq<u8>) -> Seq<u8> {
    bytes.map_values(|b: u8| printable(b))
}

/// Writing two byte strings one after the other is writing their
/// concatenation.
pub proof fn lemma_prompt_run_append(p: Prompt, a: Seq<u8>, b: Seq<u8>)
    ensures
        prompt_run(p, a + b) == prompt_run(prompt_run(p, a), b),
    decreases b.len(),
{
    if b.len() == 0 {
        assert(a + b =~= a);
    } else {
        lemma_prompt_run_append(p, a, b.drop_last());
        assert((a + b).drop_last() =~= a + b.drop_last());
    }
}

/// Every write keeps the prompt well formed: the screen's size, and the
/// column on the bottom line.
pub proof fn lemma_prompt_run_keeps_prompt_ok(p: Prompt, bytes: Seq<u8>)
    requires
        prompt_ok(p),
    ensures
        prompt_ok(prompt_run(p, bytes)),
    decreases bytes.len(),
{
    if bytes.len() > 0 {
        lemma_prompt_run_keeps_prompt_ok(p, bytes.drop_last());
    }
}

/// The prompt shows every printable ASCII byte (0x20 to 0x7e) and every
/// line feed as itself, and every other byte as a square (0xfe).
pub proof fn lemma_shown_keeps_printable_bytes(bytes: Seq<u8>)
    ensures
        shown(bytes).len() == bytes.len(),
        forall|i: int|
            0 <= i < bytes.len() && ((0x20 <= bytes[i] && bytes[i] <= 0x7e) || bytes[i] == 0x0a) ==> #[trigger] shown(bytes)[i]
                == bytes[i],
        forall|i: int|
            0 <= i < bytes.len() && !((0x20 <= bytes[i] && bytes[i] <= 0x7e) || bytes[i] == 0x0a) ==> #[trigger] shown(bytes)[i]
                == 0xfe,
{
}

/// Writing a byte other than a line feed puts it, in the prompt's colour, on
/// the bottom line at the current column, which then moves right; nothing
/// else changes. When the line is full, the screen first scrolls up and the
/// byte goes to the start of the bottom line.
pub proof fn lemma_prompt_put_places_it(p: Prompt, b: u8)
    requires
        prompt_ok(p),
        b != 0x0a,
    ensures
        p.column < 80 ==> prompt_put(p, b) == (Prompt {
            chars: p.chars.update(1920 + p.column, ScreenChar { ascii_character: b, color_code: p.color_code }),
            column: p.column + 1,
            color_code: p.color_code,
        }),
        p.column >= 80 ==> prompt_put(p, b).column == 1 && prompt_put(p, b).chars[1920int] == (ScreenChar {
            ascii_character: b,
            color_code: p.color_code,
        }) && (forall|k: int| 0 <= k < 1920 ==> #[trigger] prompt_put(p, b).chars[k] == p.chars[k + 80]),
{
}

/// A line break moves every line of the screen up by one, blanks the bottom
/// line in the prompt's colour, and puts the column back at the start.
pub proof fn lemma_prompt_line_feed_scrolls(p: Prompt)
    requires
        prompt_ok(p),
    ensures
        prompt_put(p, 0x0a).column == 0,
        prompt_put(p, 0x0a).color_code == p.color_code,
        prompt_put(p, 0x0a).chars.len() == 2000,
        forall|k: int| 0 <= k < 1920 ==> #[trigger] prompt_put(p, 0x0a).chars[k] == p.chars[k + 80],
        forall|k: int|
            1920 <= k < 2000 ==> #[trigger] prompt_put(p, 0x0a).chars[k] == (ScreenChar {
                ascii_character: 0x20,
                color_code: p.color_code,
            }),
{
}

impl Writer {
    /// The prompt is well formed: its screen has the right size and its
    /// column stands on the bottom line.
    pub open spec fn wf(&self) -> bool {
        prompt_ok(self@)
    }

    /// A prompt over the given screen contents, writing in `color_code` from
    /// the start of the bottom line.
    pub fn new(buffer: Vec<ScreenChar>, color_code: ColorCode) -> (w: Self)
        requires
            buffer.len() == BUFFER_CELLS,
        ensures
            w.wf(),
            w@ == (Prompt { chars: buffer@, column: 0, color_code }),
    {
        Writer { column_position: 0, color_code, buffer }
    }

    /// The screen's cells, row by row.
    pub fn chars(&self) -> (c: &[ScreenChar])
        ensures
            c@ == self@.chars,
    {
        self.buffer.as_slice()
    }

    /// Writes one byte: a line feed breaks the line, any other byte goes on
    /// the bottom line at the current column.
    pub fn write_byte(&mut self, byte: u8)
        requires
            old(self).wf(),
        ensures
            final(self).wf(),
            final(self)@ == prompt_put(old(self)@, byte),
    {
        if byte == 10 {
            self.new_line();
        } else {
            if self.column_position >= BUFFER_WIDTH {
                self.new_line();
            }
            let row = BUFFER_HEIGHT - 1;
            let col = self.column_position;
            let color_code = self.color_code;
            self.buffer.set(row * BUFFER_WIDTH + col, ScreenChar { ascii_character: byte, color_code });
            self.column_position += 1;
        }
    }

    /// Writes the bytes of `s`, each shown as `printable` says.
    pub fn write_string(&mut self, s: &str)
        requires
            old(self).wf(),
        ensures
            final(self).wf(),
            final(self)@ == prompt_run(old(self)@, shown(s.spec_bytes())),
    {
        let bytes = s.as_bytes();
        let ghost p0 = self@;
        let mut i: usize = 0;
        assert(shown(bytes@.take(0)) =~= Seq::<u8>::empty());
        while i < bytes.len()
            invariant
                i <= bytes@.len(),
                self.wf(),
                self@ == prompt_run(p0, shown(bytes@.take(i as int))),
            decreases bytes.len() - i,
        {
            let byte = bytes[i];
            if (0x20 <= byte && byte <= 0x7e) || byte == 10 {
                self.write_byte(byte);
            } else {
                self.write_byte(0xfe);
            }
            assert(shown(bytes@.take(i + 1)).drop_last() =~= shown(bytes@.take(i as int)));
            i += 1;
        }
        assert(bytes@.take(bytes.len() as int) =~= bytes@);
    }

    fn new_line(&mut self)
        requires
            old(self).wf(),
        ensures
            final(self).wf(),
            final(self)@ == line_break(old(self)@),
    {
        let ghost old_chars = self.buffer@;
        let mut row: usize = 1;
        while row < BUFFER_HEIGHT
            invariant
                self.buffer.len() == BUFFER_CELLS,
                old_chars.len() == BUFFER_CELLS,
                self.color_code == old(self).color_code,
                self.column_position == old(self).column_position,
                1 <= row <= BUFFER_HEIGHT,
                forall|j: int| 0 <= j < (row - 1) * BUFFER_WIDTH ==> self.buffer@[j] == old_chars[j + BUFFER_WIDTH],
                forall|j: int| (row - 1) * BUFFER_WIDTH <= j < BUFFER_CELLS ==> self.buffer@[j] == old_chars[j],
            decreases BUFFER_HEIGHT - row,
        {
            let mut col: usize = 0;
            while col < BUFFER_WIDTH
                invariant
                    self.buffer.len() == BUFFER_CELLS,
                    old_chars.len() == BUFFER_CELLS,
                    self.color_code == old(self).color_code,
                    self.column_position == old(self).column_position,
                    1 <= row < BUFFER_HEIGHT,
                    col <= BUFFER_WIDTH,
                    forall|j: int| 0 <= j < (row - 1) * BUFFER_WIDTH + col ==> self.buffer@[j] == old_chars[j + BUFFER_WIDTH],
                    forall|j: int| (row - 1) * BUFFER_WIDTH + col <= j < BUFFER_CELLS ==> self.buffer@[j] == old_chars[j],
                decreases BUFFER_WIDTH - col,
            {
                let character = self.buffer[row * BUFFER_WIDTH + col];
                self.buffer.set((row - 1) * BUFFER_WIDTH + col, character);
                col += 1;
            }
            row += 1;
        }
        self.clear_row(BUFFER_HEIGHT - 1);
        self.column_position = 0;
        assert(self.buffer@ =~= line_break(old(self)@).chars);
    }

    fn clear_row(&mut self, row: usize)
        requires
            old(self).wf(),
            row < BUFFER_HEIGHT,
        ensures
            final(self).wf(),
            final(self)@.column == old(self)@.column,
            final(self)@.color_code == old(self)@.color_code,
            final(self)@.chars == Seq::new(
                BUFFER_CELLS as nat,
                |k: int|
                    if row * BUFFER_WIDTH <= k < (row + 1) * BUFFER_WIDTH {
                        ScreenChar { ascii_character: 0x20, color_code: old(self)@.color_code }
                    } else {
                        old(self)@.chars[k]
                    },
            ),
    {
        let blank = ScreenChar { ascii_character: 0x20, color_code: self.color_code };
        let ghost old_chars = self.buffer@;
        let mut col: usize = 0;
        while col < BUFFER_WIDTH
            invariant
                self.buffer.len() == BUFFER_CELLS,
                old_chars == old(self)@.chars,
                self.color_code == old(self).color_code,
                self.column_position == old(self).column_position,
                blank == (ScreenChar { ascii_character: 0x20, color_code: self.color_code }),
                row < BUFFER_HEIGHT,
                col <= BUFFER_WIDTH,
                forall|k: int|
                    0 <= k < BUFFER_CELLS ==> self.buffer@[k] == if row * BUFFER_WIDTH <= k < row * BUFFER_WIDTH + col {
                        blank
                    } else {
                        old_chars[k]
                    },
            decreases BUFFER_WIDTH - col,
        {
            self.buffer.set(row * BUFFER_WIDTH + col, blank);
            col += 1;
        }
        assert(self.buffer@ =~= Seq::new(
            BUFFER_CELLS as nat,
            |k: int|
                if row * BUFFER_WIDTH <= k < (row + 1) * BUFFER_WIDTH {
                    ScreenChar { ascii_character: 0x20, color_code: old(self)@.color_code }
                } else {
                    old(self)@.chars[k]
                },
        ));
    }
}

/// The screen after the DOS-style prompt text `text` is written on
/// `screen`: light grey on black, from the start of the bottom line.
pub fn dos_prompt(screen: Vec<ScreenChar>, text: &str) -> (out: Vec<ScreenChar>)
    requires
        screen.len() == BUFFER_CELLS,
    ensures
        out@ == prompt_run(
            Prompt { chars: screen@, column: 0, color_code: color_code(Color::LightGray, Color::Black) },
            shown(text.spec_bytes()),
        ).chars,
{
    let mut writer = Writer::new(screen, ColorCode::new(Color::LightGray, Color::Black));
    writer.write_string(text);
    writer.buffer
}

} // verus!
