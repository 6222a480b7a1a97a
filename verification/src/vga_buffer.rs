//! The text console: a grid of cells with a cursor.

use vstd::prelude::*;
use vstd::string::StringSliceAdditionalSpecFns;

verus! {

/// The sixteen colours of the text console, in the order of their codes.
#[allow(dead_code)]
#[derive(Debug, Clone, Copy, PartialEq, Eq, Structural)]
pub enum Color {
    Black,
    Blue,
    Green,
    Cyan,
    Red,
    Magenta,
    Brown,
    LightGray,
    DarkGray,
    LightBlue,
    LightGreen,
    LightCyan,
    LightRed,
    Pink,
    Yellow,
    White,
}

impl Color {
    /// The four-bit code of the colour.
    pub open spec fn spec_code(self) -> u8 {
        match self {
            Color::Black => 0,
            Color::Blue => 1,
            Color::Green => 2,
            Color::Cyan => 3,
            Color::Red => 4,
            Color::Magenta => 5,
            Color::Brown => 6,
            Color::LightGray => 7,
            Color::DarkGray => 8,
            Color::LightBlue => 9,
            Color::LightGreen => 10,
            Color::LightCyan => 11,
            Color::LightRed => 12,
            Color::Pink => 13,
            Color::Yellow => 14,
            Color::White => 15,
        }
    }

    #[verifier::when_used_as_spec(spec_code)]
    pub fn code(self) -> (code: u8)
        ensures
            code == self.spec_code(),
            code < 16,
    {
        match self {
            Color::Black => 0,
            Color::Blue => 1,
            Color::Green => 2,
            Color::Cyan => 3,
            Color::Red => 4,
            Color::Magenta => 5,
            Color::Brown => 6,
            Color::LightGray => 7,
            Color::DarkGray => 8,
            Color::LightBlue => 9,
            Color::LightGreen => 10,
            Color::LightCyan => 11,
            Color::LightRed => 12,
            Color::Pink => 13,
            Color::Yellow => 14,
            Color::White => 15,
        }
    }
}

/// The colours of one cell: the background in the high four bits, the
/// foreground in the low four.
#[derive(Debug, Clone, Copy, PartialEq, Eq, Structural)]
pub struct ColorCode(pub u8);

impl ColorCode {
    pub fn new(foreground: Color, background: Color) -> (code: ColorCode)
        ensures
            code.0 == background.code() * 16 + foreground.code(),
    {
        let b = background.code();
        let f = foreground.code();
        assert(b << 4 | f == b * 16 + f) by (bit_vector)
            requires
                b < 16,
                f < 16,
        ;
        ColorCode(b << 4 | f)
    }
}

/// One cell of the console: a character code and its colours.
#[derive(Debug, Clone, Copy, PartialEq, Eq, Structural)]
pub struct ScreenChar {
    pub ascii_character: u8,
    pub color_code: ColorCode,
}

pub const BUFFER_HEIGHT: usize = 25;

pub const BUFFER_WIDTH: usize = 80;

/// White on black: the colours of a cell that the cursor has left.
pub open spec fn plain_colors() -> ColorCode {
    ColorCode(0x0f)
}

/// Black on white: the colours of the cell under the cursor.
pub open spec fn cursor_colors() -> ColorCode {
    ColorCode(0xf0)
}

/// A console on which nothing was written yet: every cell empty, white on
/// black, and the cursor in the first cell.
pub open spec fn wiped_screen() -> Screen {
    Screen {
        cells: Seq::new(
            (BUFFER_HEIGHT * BUFFER_WIDTH) as nat,
            |i: int| ScreenChar { ascii_character: 0, color_code: plain_colors() },
        ),
        row: 0,
        col: 0,
        color: plain_colors(),
    }
}

/// The console as plain values: its cells row by row, the cursor, and the
/// colours of what is written next.
pub struct Screen {
    pub cells: Seq<ScreenChar>,
    pub row: nat,
    pub col: nat,
    pub color: ColorCode,
}

impl Screen {
    /// Whether there is a cell for each position of the grid.
    pub open spec fn sized(self) -> bool {
        self.cells.len() == BUFFER_HEIGHT * BUFFER_WIDTH
    }

    /// Whether the grid is whole and the cursor stands on one of its cells.
    pub open spec fn wf(self) -> bool {
        self.sized() && self.row < BUFFER_HEIGHT && self.col < BUFFER_WIDTH
    }

    /// The place of a cell in `cells`.
    pub open spec fn at(row: nat, col: nat) -> int {
        row * BUFFER_WIDTH + col
    }

    pub open spec fn cell(self, row: nat, col: nat) -> ScreenChar {
        self.cells[Self::at(row, col)]
    }

    /// The cell that is written when a position is wiped.
    pub open spec fn blank(self) -> ScreenChar {
        ScreenChar { ascii_character: 0, color_code: self.color }
    }

    /// The screen with the cell under the cursor in the colours `colors`.
    pub open spec fn recolor_cursor(self, colors: ColorCode) -> Screen {
        let at = Self::at(self.row, self.col);
        Screen {
            cells: self.cells.update(
                at,
                ScreenChar { ascii_character: self.cells[at].ascii_character, color_code: colors },
            ),
            ..self
        }
    }

    /// The screen with every cell of `row` wiped.
    pub open spec fn clear_row(self, row: nat) -> Screen {
        Screen {
            cells: Seq::new(
                self.cells.len(),
                |i: int|
                    if Self::at(row, 0) <= i < Self::at(row + 1, 0) {
                        self.blank()
                    } else {
                        self.cells[i]
                    },
            ),
            ..self
        }
    }

    /// The screen with every cell wiped and the cursor in the first cell.
    pub open spec fn clear(self) -> Screen {
        Screen {
            cells: Seq::new(self.cells.len(), |i: int| self.blank()),
            row: 0,
            col: 0,
            color: self.color,
        }
    }

    /// The screen with every row moved up by one; the first row is lost,
    /// the last stays as it was.
    pub open spec fn scroll(self) -> Screen {
        Screen {
            cells: Seq::new(
                self.cells.len(),
                |i: int|
                    if i < Self::at((BUFFER_HEIGHT - 1) as nat, 0) {
                        self.cells[i + BUFFER_WIDTH]
                    } else {
                        self.cells[i]
                    },
            ),
            ..self
        }
    }

    /// The cursor at the start of the next row; from the last row the
    /// screen scrolls instead, and the last row is wiped.
    pub open spec fn new_line(self) -> Screen {
        if self.row + 1 == BUFFER_HEIGHT {
            Screen { col: 0, ..self.scroll().clear_row(self.row) }
        } else {
            Screen { row: self.row + 1, col: 0, ..self }
        }
    }

    /// The screen after `byte` was written at the cursor. A line feed
    /// starts a new line; any other byte fills the cell under the cursor
    /// and moves the cursor right. The cell that the cursor leaves turns
    /// plain, the one that it reaches is highlighted.
    pub open spec fn write_byte(self, byte: u8) -> Screen {
        let plain = self.recolor_cursor(plain_colors());
        let written = if byte == 0x0a {
            plain.new_line()
        } else {
            Screen {
                cells: plain.cells.update(
                    Self::at(plain.row, plain.col),
                    ScreenChar { ascii_character: byte, color_code: plain.color },
                ),
                col: plain.col + 1,
                ..plain
            }
        };
        written.recolor_cursor(cursor_colors())
    }

    /// Whether `byte` can be written: the cursor must have a cell to move
    /// to.
    pub open spec fn takes_byte(self, byte: u8) -> bool {
        byte == 0x0a || self.col + 1 < BUFFER_WIDTH
    }

    /// What `write_string` writes for a byte of its argument.
    pub open spec fn shown(byte: u8) -> u8 {
        if 0x20 <= byte <= 0x7e || byte == 0x0a {
            byte
        } else {
            0xfe
        }
    }

    /// The screen after the bytes of a string were written.
    pub open spec fn write_bytes(self, bytes: Seq<u8>) -> Screen
        decreases bytes.len(),
    {
        if bytes.len() == 0 {
            self
        } else {
            self.write_byte(Self::shown(bytes[0])).write_bytes(bytes.skip(1))
        }
    }

    /// Whether the bytes of a string can be written: no line of them
    /// takes the cursor past the last cell of its row.
    pub open spec fn takes_bytes(self, bytes: Seq<u8>) -> bool {
        fits_from(self.col, bytes)
    }

    /// The cursor one cell to the left, unless it is in the first column.
    pub open spec fn move_left(self) -> Screen {
        if 0 < self.col {
            let plain = self.recolor_cursor(plain_colors());
            (Screen { col: (plain.col - 1) as nat, ..plain }).recolor_cursor(cursor_colors())
        } else {
            self
        }
    }

    /// Whether the cursor can be asked to move right: there is a cell to
    /// its left, and one to its right if that cell holds a character.
    pub open spec fn can_move_right(self) -> bool {
        &&& 0 < self.col
        &&& self.cell(self.row, (self.col - 1) as nat).ascii_character != 0 ==> self.col + 1
            < BUFFER_WIDTH
    }

    /// The cursor one cell to the right, if the cell to its left holds a
    /// character.
    pub open spec fn move_right(self) -> Screen {
        if self.cell(self.row, (self.col - 1) as nat).ascii_character != 0 && self.col != 0 {
            let plain = self.recolor_cursor(plain_colors());
            (Screen { col: plain.col + 1, ..plain }).recolor_cursor(cursor_colors())
        } else {
            self
        }
    }

    /// The cell to the left of the cursor wiped and the cursor on it,
    /// unless the cursor is in the first column.
    pub open spec fn backspace(self) -> Screen {
        if 0 < self.col {
            let plain = self.recolor_cursor(plain_colors());
            (Screen {
                cells: plain.cells.update(
                    Self::at(plain.row, (plain.col - 1) as nat),
                    self.blank(),
                ),
                col: (plain.col - 1) as nat,
                ..plain
            }).recolor_cursor(cursor_colors())
        } else {
            self
        }
    }

    /// The characters of `row` from column `col` on, up to the first cell
    /// that holds no character.
    pub open spec fn text_from(self, row: nat, col: nat) -> Seq<char>
        decreases BUFFER_WIDTH - col,
    {
        if col >= BUFFER_WIDTH || self.cell(row, col).ascii_character == 0 {
            Seq::empty()
        } else {
            seq![self.cell(row, col).ascii_character as char].add(self.text_from(row, col + 1))
        }
    }

    /// The text of `row`.
    pub open spec fn row_text(self, row: nat) -> Seq<char> {
        self.text_from(row, 0)
    }
}

/// Whether bytes can be written from column `col` on: each byte but a
/// line feed, which leads back to the first column, needs a cell behind
/// its own for the cursor.
pub open spec fn fits_from(col: nat, bytes: Seq<u8>) -> bool
    decreases bytes.len(),
{
    if bytes.len() == 0 {
        true
    } else if bytes[0] == 0x0a {
        fits_from(0, bytes.skip(1))
    } else {
        col + 1 < BUFFER_WIDTH && fits_from(col + 1, bytes.skip(1))
    }
}

/// Where the cursor stands after bytes were written from column `col`.
pub open spec fn column_after(col: nat, bytes: Seq<u8>) -> nat
    decreases bytes.len(),
{
    if bytes.len() == 0 {
        col
    } else if bytes[0] == 0x0a {
        column_after(0, bytes.skip(1))
    } else {
        column_after(col + 1, bytes.skip(1))
    }
}

/// The column behind `s` when it is written from column `col`, or `None`
/// if it cannot be written there.
pub fn fits(col: usize, s: &str) -> (end: Option<usize>)
    requires
        col < BUFFER_WIDTH,
    ensures
        match end {
            Some(c) => fits_from(col as nat, s.spec_bytes()) && c == column_after(
                col as nat,
                s.spec_bytes(),
            ) && c < BUFFER_WIDTH,
            None => !fits_from(col as nat, s.spec_bytes()),
        },
{
    let bytes = s.as_bytes();
    let mut at: usize = col;
    let mut i: usize = 0;
    assert(bytes@.skip(0) =~= bytes@);
    while i < bytes.len()
        invariant
            i <= bytes@.len(),
            at < BUFFER_WIDTH,
            bytes@ == s.spec_bytes(),
            fits_from(col as nat, bytes@) == fits_from(at as nat, bytes@.skip(i as int)),
            fits_from(col as nat, bytes@) ==> column_after(col as nat, bytes@) == column_after(
                at as nat,
                bytes@.skip(i as int),
            ),
        decreases bytes@.len() - i,
    {
        let byte = bytes[i];
        let ghost rest = bytes@.skip(i as int);
        assert(rest[0] == byte && rest.skip(1) =~= bytes@.skip(i + 1));
        if byte == 0x0a {
            at = 0;
        } else {
            if at + 1 >= BUFFER_WIDTH {
                assert(!fits_from(at as nat, rest));
                return None;
            }
            at += 1;
        }
        i += 1;
    }
    Some(at)
}

/// The text console: a grid of 25 rows of 80 cells and a cursor.
pub struct Writer {
    column_position: usize,
    row_position: usize,
    color_code: ColorCode,
    buffer: Vec<ScreenChar>,
}

impl View for Writer {
    type V = Screen;

    closed spec fn view(&self) -> Screen {
        Screen {
            cells: self.buffer@,
            row: self.row_position as nat,
            col: self.column_position as nat,
            color: self.color_code,
        }
    }
}

impl Writer {
    /// The column of the cursor.
    pub fn column_position(&self) -> (col: usize)
        ensures
            col == self@.col,
    {
        self.column_position
    }

    /// The row of the cursor.
    pub fn row_position(&self) -> (row: usize)
        ensures
            row == self@.row,
    {
        self.row_position
    }

    /// Puts the cursor in column `col` of its row.
    pub fn set_column_position(&mut self, col: usize)
        ensures
            final(self)@ == (Screen { col: col as nat, ..old(self)@ }),
    {
        self.column_position = col;
    }

    /// A console of wiped cells, white on black, with the cursor in the
    /// first cell.
    pub fn new() -> (writer: Self)
        ensures
            writer@ == wiped_screen(),
            writer@.wf(),
            writer@.row == 0,
            writer@.col == 0,
            writer@.color == plain_colors(),
            forall|i: int| 0 <= i < writer@.cells.len() ==> writer@.cells[i] == writer@.blank(),
    {
        let color_code = ColorCode::new(Color::White, Color::Black);
        let blank = ScreenChar { ascii_character: 0, color_code };
        let mut buffer: Vec<ScreenChar> = Vec::new();
        let mut i: usize = 0;
        while i < BUFFER_HEIGHT * BUFFER_WIDTH
            invariant
                i <= BUFFER_HEIGHT * BUFFER_WIDTH,
                buffer@.len() == i,
                forall|k: int| 0 <= k < i ==> buffer@[k] == blank,
            decreases BUFFER_HEIGHT * BUFFER_WIDTH - i,
        {
            buffer.push(blank);
            i += 1;
        }
        let writer = Writer { column_position: 0, row_position: 0, color_code, buffer };
        assert(writer@.cells =~= wiped_screen().cells);
        writer
    }

    /// The cell at a position of the grid.
    pub fn read(&self, row: usize, col: usize) -> (cell: ScreenChar)
        requires
            self@.sized(),
            row < BUFFER_HEIGHT,
            col < BUFFER_WIDTH,
        ensures
            cell == self@.cell(row as nat, col as nat),
    {
        self.buffer[row * BUFFER_WIDTH + col]
    }

    /// The colours of what is written next.
    pub fn color_code(&self) -> (code: ColorCode)
        ensures
            code == self@.color,
    {
        self.color_code
    }

    /// The text of a row: its characters up to the first cell that holds
    /// none.
    pub fn row_into_string(&self, row: usize) -> (text: String)
        requires
            self@.sized(),
            row < BUFFER_HEIGHT,
        ensures
            text@ == self@.row_text(row as nat),
    {
        let mut result: String = String::new();
        let mut col: usize = 0;
        while col < BUFFER_WIDTH
            invariant
                self@.sized(),
                row < BUFFER_HEIGHT,
                col <= BUFFER_WIDTH,
                result@.add(self@.text_from(row as nat, col as nat)) == self@.row_text(row as nat),
            ensures
                result@ == self@.row_text(row as nat),
            decreases BUFFER_WIDTH - col,
        {
            let screen_char = self.buffer[row * BUFFER_WIDTH + col];
            if screen_char.ascii_character == 0x0 {
                break ;
            }
            let ghost before = result@;
            result.push(screen_char.ascii_character as char);
            proof {
                let rest = self@.text_from(row as nat, (col + 1) as nat);
                assert(before.add(seq![screen_char.ascii_character as char].add(rest))
                    =~= before.push(screen_char.ascii_character as char).add(rest));
            }
            col += 1;
        }
        result
    }

    pub fn change_color_code(&mut self, color_code: ColorCode)
        ensures
            final(self)@ == (Screen { color: color_code, ..old(self)@ }),
    {
        self.color_code = color_code;
    }

    /// Wipes every cell and puts the cursor in the first.
    pub fn clear(&mut self)
        requires
            old(self)@.sized(),
        ensures
            final(self)@ == old(self)@.clear(),
    {
        let blank = ScreenChar { ascii_character: 0x0, color_code: self.color_code };
        let mut row: usize = 0;
        while row < BUFFER_HEIGHT
            invariant
                row <= BUFFER_HEIGHT,
                self.buffer@.len() == BUFFER_HEIGHT * BUFFER_WIDTH,
                self.color_code == old(self).color_code,
                blank == old(self)@.blank(),
                forall|i: int| 0 <= i < row * BUFFER_WIDTH ==> self.buffer@[i] == blank,
            decreases BUFFER_HEIGHT - row,
        {
            let mut col: usize = 0;
            while col < BUFFER_WIDTH
                invariant
                    row < BUFFER_HEIGHT,
                    col <= BUFFER_WIDTH,
                    self.buffer@.len() == BUFFER_HEIGHT * BUFFER_WIDTH,
                    self.color_code == old(self).color_code,
                    forall|i: int| 0 <= i < row * BUFFER_WIDTH + col ==> self.buffer@[i] == blank,
                decreases BUFFER_WIDTH - col,
            {
                self.buffer.set(row * BUFFER_WIDTH + col, blank);
                col += 1;
            }
            row += 1;
        }
        self.row_position = 0;
        self.column_position = 0;
        assert(self@.cells =~= old(self)@.clear().cells);
    }

    pub fn move_left(&mut self)
        requires
            old(self)@.wf(),
        ensures
            final(self)@ == old(self)@.move_left(),
            final(self)@.wf(),
    {
        if 0 < self.column_position {
            self.default_current();
            self.column_position -= 1;
            self.highlight_current();
        }
    }

    /// Whether the cursor can be asked to move right.
    pub fn can_move_right(&self) -> (can: bool)
        requires
            self@.wf(),
        ensures
            can == self@.can_move_right(),
    {
        if self.column_position == 0 {
            return false;
        }
        let left = self.buffer[self.row_position * BUFFER_WIDTH + (self.column_position - 1)];
        left.ascii_character == 0x0 || self.column_position + 1 < BUFFER_WIDTH
    }

    pub fn move_right(&mut self)
        requires
            old(self)@.wf(),
            old(self)@.can_move_right(),
        ensures
            final(self)@ == old(self)@.move_right(),
            final(self)@.wf(),
    {
        if self.buffer[self.row_position * BUFFER_WIDTH + (self.column_position
            - 1)].ascii_character != 0x0 && self.column_position != 0 {
            self.default_current();
            self.column_position += 1;
            self.highlight_current();
        }
    }

    pub fn backspace(&mut self)
        requires
            old(self)@.wf(),
        ensures
            final(self)@ == old(self)@.backspace(),
            final(self)@.wf(),
    {
        let blank = ScreenChar { ascii_character: 0x0, color_code: self.color_code };
        if 0 < self.column_position {
            self.default_current();
            let row = self.row_position;
            let col = self.column_position;
            self.buffer.set(row * BUFFER_WIDTH + (col - 1), blank);
            self.column_position -= 1;
            self.highlight_current();
        }
    }

    /// Writes one byte at the cursor.
    pub fn write_byte(&mut self, byte: u8)
        requires
            old(self)@.wf(),
            old(self)@.takes_byte(byte),
        ensures
            final(self)@ == old(self)@.write_byte(byte),
            final(self)@.wf(),
    {
        self.default_current();
        match byte {
            0x0a => self.new_line(),
            byte => {
                if self.column_position >= BUFFER_WIDTH {
                    self.new_line();
                }
                let row = self.row_position;
                let col = self.column_position;
                let color_code = self.color_code;
                self.buffer.set(
                    row * BUFFER_WIDTH + col,
                    ScreenChar { ascii_character: byte, color_code },
                );
                self.column_position += 1;
            },
        }
        self.highlight_current();
    }

    /// Turns the cell under the cursor plain.
    fn default_current(&mut self)
        requires
            old(self)@.wf(),
        ensures
            final(self)@ == old(self)@.recolor_cursor(plain_colors()),
            final(self)@.wf(),
    {
        let at = self.row_position * BUFFER_WIDTH + self.column_position;
        let defaulted = ScreenChar {
            ascii_character: self.buffer[at].ascii_character,
            color_code: ColorCode::new(Color::White, Color::Black),
        };
        self.buffer.set(at, defaulted);
    }

    /// Highlights the cell under the cursor.
    fn highlight_current(&mut self)
        requires
            old(self)@.wf(),
        ensures
            final(self)@ == old(self)@.recolor_cursor(cursor_colors()),
            final(self)@.wf(),
    {
        let at = self.row_position * BUFFER_WIDTH + self.column_position;
        let defaulted = ScreenChar {
            ascii_character: self.buffer[at].ascii_character,
            color_code: ColorCode::new(Color::Black, Color::White),
        };
        self.buffer.set(at, defaulted);
    }

    fn new_line(&mut self)
        requires
            old(self)@.sized(),
            old(self)@.row < BUFFER_HEIGHT,
        ensures
            final(self)@ == old(self)@.new_line(),
            final(self)@.wf(),
    {
        if self.row_position + 1 == BUFFER_HEIGHT {
            let mut row: usize = 0;
            while row < BUFFER_HEIGHT
                invariant
                    row <= BUFFER_HEIGHT,
                    self.buffer@.len() == BUFFER_HEIGHT * BUFFER_WIDTH,
                    self.row_position == old(self).row_position,
                    self.column_position == old(self).column_position,
                    self.color_code == old(self).color_code,
                    forall|i: int|
                        0 <= i < BUFFER_HEIGHT * BUFFER_WIDTH ==> self.buffer@[i] == if row > 0 && i
                            < (row - 1) * BUFFER_WIDTH {
                            old(self).buffer@[i + BUFFER_WIDTH]
                        } else {
                            old(self).buffer@[i]
                        },
                decreases BUFFER_HEIGHT - row,
            {
                let mut col: usize = 0;
                while col < BUFFER_WIDTH
                    invariant
                        row < BUFFER_HEIGHT,
                        col <= BUFFER_WIDTH,
                        self.buffer@.len() == BUFFER_HEIGHT * BUFFER_WIDTH,
                        self.row_position == old(self).row_position,
                        self.column_position == old(self).column_position,
                        self.color_code == old(self).color_code,
                        forall|i: int|
                            0 <= i < BUFFER_HEIGHT * BUFFER_WIDTH ==> self.buffer@[i] == if row > 0
                                && i < (row - 1) * BUFFER_WIDTH + col {
                                old(self).buffer@[i + BUFFER_WIDTH]
                            } else {
                                old(self).buffer@[i]
                            },
                    decreases BUFFER_WIDTH - col,
                {
                    let character = self.buffer[row * BUFFER_WIDTH + col];
                    if 0 < row {
                        self.buffer.set((row - 1) * BUFFER_WIDTH + col, character);
                    }
                    col += 1;
                }
                row += 1;
            }
            assert(self@.cells =~= old(self)@.scroll().cells);
            self.clear_row(self.row_position);
        } else {
            self.row_position += 1;
        }
        self.column_position = 0;
    }

    /// Wipes the cells of one row.
    pub fn clear_row(&mut self, row: usize)
        requires
            old(self)@.sized(),
            row < BUFFER_HEIGHT,
        ensures
            final(self)@ == old(self)@.clear_row(row as nat),
    {
        let blank = ScreenChar { ascii_character: 0x0, color_code: self.color_code };
        let mut col: usize = 0;
        while col < BUFFER_WIDTH
            invariant
                row < BUFFER_HEIGHT,
                col <= BUFFER_WIDTH,
                self.buffer@.len() == BUFFER_HEIGHT * BUFFER_WIDTH,
                self.row_position == old(self).row_position,
                self.column_position == old(self).column_position,
                self.color_code == old(self).color_code,
                blank == old(self)@.blank(),
                forall|i: int|
                    0 <= i < BUFFER_HEIGHT * BUFFER_WIDTH ==> self.buffer@[i] == if row
                        * BUFFER_WIDTH <= i < row * BUFFER_WIDTH + col {
                        blank
                    } else {
                        old(self).buffer@[i]
                    },
            decreases BUFFER_WIDTH - col,
        {
            self.buffer.set(row * BUFFER_WIDTH + col, blank);
            col += 1;
        }
        assert(self@.cells =~= old(self)@.clear_row(row as nat).cells);
    }

    /// Whether `write_string` can write `s` here.
    pub fn accepts(&self, s: &str) -> (fits: bool)
        requires
            self@.wf(),
        ensures
            fits == self@.takes_bytes(s.spec_bytes()),
    {
        fits(self.column_position, s).is_some()
    }

    /// Writes the bytes of `s`, each printable byte and line feed as it
    /// is, any other as a filled square.
    pub fn write_string(&mut self, s: &str)
        requires
            old(self)@.wf(),
            old(self)@.takes_bytes(s.spec_bytes()),
        ensures
            final(self)@ == old(self)@.write_bytes(s.spec_bytes()),
            final(self)@.wf(),
    {
        let bytes = s.as_bytes();
        let mut i: usize = 0;
        assert(bytes@.skip(0) =~= bytes@);
        while i < bytes.len()
            invariant
                i <= bytes@.len(),
                self@.wf(),
                self@.takes_bytes(bytes@.skip(i as int)),
                self@.write_bytes(bytes@.skip(i as int)) == old(self)@.write_bytes(bytes@),
            decreases bytes@.len() - i,
        {
            let byte = bytes[i];
            let ghost rest = bytes@.skip(i as int);
            assert(rest[0] == byte && rest.skip(1) =~= bytes@.skip(i + 1));
            assert(self@.takes_byte(Screen::shown(byte)));
            match byte {
                0x20..=0x7e | 0x0a => self.write_byte(byte),
                _ => self.write_byte(0xfe),
            }
            i += 1;
        }
    }
}

/// Writing a byte that the screen takes leaves the cursor on the grid.
pub proof fn lemma_write_byte_wf(screen: Screen, byte: u8)
    requires
        screen.wf(),
        screen.takes_byte(byte),
    ensures
        screen.write_byte(byte).wf(),
        screen.write_byte(byte).col == if byte == 0x0a {
            0
        } else {
            screen.col + 1
        },
        screen.write_byte(byte).color == screen.color,
{
}

} // verus!
