//! The text-mode screen writer: line-wrap and scroll logic over a
//! fixed-size character buffer.
//!
//! The buffer is the 25-by-80 grid of character cells the display hardware
//! scans out. Writing past the end of a line wraps; a newline is postponed
//! until the next character arrives, so the cursor never sits on an empty
//! final line; once the last row is reached the grid scrolls up by one row
//! and the freed bottom row is cleared.

use vstd::prelude::*;
use vstd::string::StringSliceAdditionalSpecFns;

verus! {

/// Rows of the character grid.
pub const BUFFER_HEIGHT: usize = 25;

/// Columns of the character grid.
pub const BUFFER_WIDTH: usize = 80;

/// The sixteen colours of the text-mode palette.
#[allow(dead_code)]
#[derive(Clone, Copy, PartialEq, Eq, Structural, Debug)]
pub enum Color {
    Black,
    Blue,
    Green,
    Cyan,
    Red,
    Magenta,
    Brown,
    LightGray,
    DarkGray,
    LightBlue,
    LightGreen,
    LightCyan,
    LightRed,
    Pink,
    Yellow,
    White,
}

impl Color {
    /// The palette number of this colour.
    pub open spec fn spec_value(self) -> u8 {
        match self {
            Color::Black => 0,
            Color::Blue => 1,
            Color::Green => 2,
            Color::Cyan => 3,
            Color::Red => 4,
            Color::Magenta => 5,
            Color::Brown => 6,
            Color::LightGray => 7,
            Color::DarkGray => 8,
            Color::LightBlue => 9,
            Color::LightGreen => 10,
            Color::LightCyan => 11,
            Color::LightRed => 12,
            Color::Pink => 13,
            Color::Yellow => 14,
            Color::White => 15,
        }
    }

    /// The palette number of this colour.
    pub fn to_u8(self) -> (v: u8)
        ensures
            v == self.spec_value(),
    {
        match self {
            Color::Black => 0,
            Color::Blue => 1,
            Color::Green => 2,
            Color::Cyan => 3,
            Color::Red => 4,
            Color::Magenta => 5,
            Color::Brown => 6,
            Color::LightGray => 7,
            Color::DarkGray => 8,
            Color::LightBlue => 9,
            Color::LightGreen => 10,
            Color::LightCyan => 11,
            Color::LightRed => 12,
            Color::Pink => 13,
            Color::Yellow => 14,
            Color::White => 15,
        }
    }
}

/// A packed foreground/background colour pair: the background in the high
/// four bits, the foreground in the low four.
#[derive(Clone, Copy, PartialEq, Eq, Structural, Debug)]
pub struct ColorCode(pub u8);

impl ColorCode {
    /// Pack a foreground and a background colour into one attribute byte.
    pub fn new(foreground: Color, background: Color) -> (r: ColorCode)
        ensures
            r.0 == background.spec_value() * 16 + foreground.spec_value(),
    {
        let f = foreground.to_u8();
        let b = background.to_u8();
        proof {
            assert((b << 4) | f == b * 16 + f) by (bit_vector)
                requires
                    f <= 15,
                    b <= 15,
            ;
        }
        ColorCode((b << 4) | f)
    }
}

/// One cell of the grid: a code-page character and its colour attribute.
#[derive(Clone, Copy, PartialEq, Eq, Structural, Debug)]
pub struct ScreenChar {
    /// The code-page byte shown in the cell.
    pub ascii_character: u8,
    /// The cell's colour attribute.
    pub color_code: ColorCode,
}

/// The mathematical state of a writer: the grid as one row-major sequence
/// of cells, the cursor position, the postponed-newline flag and the
/// colour new characters are written with.
pub struct WriterState {
    /// Row-major cell contents, `BUFFER_HEIGHT * BUFFER_WIDTH` long.
    pub chars: Seq<ScreenChar>,
    /// Row the next character lands in.
    pub row: int,
    /// Column the next character lands in.
    pub col: int,
    /// Whether a newline is postponed until the next character.
    pub pending: bool,
    /// Attribute byte for newly written cells.
    pub color: ColorCode,
}

/// A blank cell: a space in the given colour.
pub open spec fn spec_blank(color: ColorCode) -> ScreenChar {
    ScreenChar { ascii_character: 32, color_code: color }
}

/// Scrolling: every row moves up one place and the bottom row is cleared
/// to blanks in the writer's colour.
pub open spec fn spec_scroll(v: WriterState) -> WriterState {
    WriterState {
        chars: Seq::new(
            2000,
            |i: int|
                if i < 1920 {
                    v.chars[i + 80]
                } else {
                    spec_blank(v.color)
                },
        ),
        ..v
    }
}

/// Starting a new line: on the last row the grid scrolls, otherwise the
/// cursor moves down one row; either way it returns to column zero and no
/// newline stays postponed.
pub open spec fn spec_new_line(v: WriterState) -> WriterState {
    if v.row >= 24 {
        WriterState { col: 0, pending: false, ..spec_scroll(v) }
    } else {
        WriterState { row: v.row + 1, col: 0, pending: false, ..v }
    }
}

/// One byte written to the grid. A newline first completes any postponed
/// newline, then postpones itself. Any other byte first completes a
/// postponed newline or a full line, then lands at the cursor and
/// advances it.
pub open spec fn spec_write_byte(v: WriterState, b: u8) -> WriterState {
    if b == 10 {
        let base = if v.pending {
            spec_new_line(v)
        } else {
            v
        };
        WriterState { pending: true, ..base }
    } else {
        let base = if v.pending || v.col >= 80 {
            spec_new_line(v)
        } else {
            v
        };
        WriterState {
            chars: base.chars.update(
                base.row * 80 + base.col,
                ScreenChar { ascii_character: b, color_code: v.color },
            ),
            col: base.col + 1,
            ..base
        }
    }
}

/// How a raw byte reaches the grid: printable code-page bytes and newline
/// pass through, anything else is shown as the replacement character 0xfe.
pub open spec fn spec_normalize(b: u8) -> u8 {
    if (0x20 <= b <= 0x7e) || b == 10 {
        b
    } else {
        0xfe
    }
}

/// A whole byte string written to the grid, front to back, each byte
/// normalized and then written.
pub open spec fn spec_write_bytes(v: WriterState, s: Seq<u8>) -> WriterState
    decreases s.len(),
{
    if s.len() == 0 {
        v
    } else {
        spec_write_bytes(spec_write_byte(v, spec_normalize(s[0])), s.skip(1))
    }
}

/// The screen writer: the character grid plus cursor state.
pub struct Writer {
    /// Row the next character lands in.
    pub row_position: usize,
    /// Column the next character lands in.
    pub column_position: usize,
    /// Whether a newline is postponed until the next character.
    pub has_pending_new_line: bool,
    /// Attribute byte for newly written cells.
    pub color_code: ColorCode,
    /// Row-major cell contents, `BUFFER_HEIGHT * BUFFER_WIDTH` long.
    pub buffer: Vec<ScreenChar>,
}

impl View for Writer {
    type V = WriterState;

    open spec fn view(&self) -> WriterState {
        WriterState {
            chars: self.buffer@,
            row: self.row_position as int,
            col: self.column_position as int,
            pending: self.has_pending_new_line,
            color: self.color_code,
        }
    }
}

impl Writer {
    /// Well-formedness: the grid has its fixed size and the cursor sits
    /// inside it (the column may rest one past the end of a line, where
    /// the next character forces a wrap).
    pub open spec fn wf(self) -> bool {
        &&& self.buffer@.len() == 2000
        &&& self.row_position < 25
        &&& self.column_position <= 80
    }

    /// A fresh writer: cursor at the top left, nothing postponed, every
    /// cell holding the given fill character.
    pub fn new(color_code: ColorCode, fill: ScreenChar) -> (w: Writer)
        ensures
            w.wf(),
            w@.row == 0,
            w@.col == 0,
            !w@.pending,
            w@.color == color_code,
            w@.chars == Seq::new(2000, |i: int| fill),
    {
        let mut buffer: Vec<ScreenChar> = Vec::new();
        let mut i: usize = 0;
        while i < 2000
            invariant
                i <= 2000,
                buffer@.len() == i,
                forall|j: int| 0 <= j < i ==> buffer@[j] == fill,
            decreases 2000 - i,
        {
            buffer.push(fill);
            i = i + 1;
        }
        proof {
            assert(buffer@ =~= Seq::new(2000, |i: int| fill));
        }
        Writer {
            row_position: 0,
            column_position: 0,
            has_pending_new_line: false,
            color_code,
            buffer,
        }
    }

    /// The cell at a given row and column.
    pub fn char_at(&self, row: usize, col: usize) -> (r: ScreenChar)
        requires
            self.wf(),
            row < 25,
            col < 80,
        ensures
            r == self@.chars[row * 80 + col],
    {
        self.buffer[row * 80 + col]
    }

    /// Clear one row to blanks in the writer's colour.
    fn clear_row(&mut self, row: usize)
        requires
            old(self).wf(),
            row < 25,
        ensures
            final(self).wf(),
            final(self)@.chars == Seq::new(
                2000,
                |i: int|
                    if row * 80 <= i < row * 80 + 80 {
                        spec_blank(old(self)@.color)
                    } else {
                        old(self)@.chars[i]
                    },
            ),
            final(self)@.row == old(self)@.row,
            final(self)@.col == old(self)@.col,
            final(self)@.pending == old(self)@.pending,
            final(self)@.color == old(self)@.color,
    {
        let blank = ScreenChar { ascii_character: 32u8, color_code: self.color_code };
        let mut col: usize = 0;
        while col < BUFFER_WIDTH
            invariant
                old(self).wf(),
                row < 25,
                col <= 80,
                self.buffer@.len() == 2000,
                self.row_position == old(self).row_position,
                self.column_position == old(self).column_position,
                self.has_pending_new_line == old(self).has_pending_new_line,
                self.color_code == old(self).color_code,
                blank == spec_blank(old(self)@.color),
                forall|i: int|
                    0 <= i < 2000 ==> #[trigger] self.buffer@[i] == if row * 80 <= i < row * 80
                        + col {
                        spec_blank(old(self)@.color)
                    } else {
                        old(self)@.chars[i]
                    },
            decreases 80 - col,
        {
            self.buffer[row * 80 + col] = blank;
            col = col + 1;
        }
        proof {
            assert(self@.chars =~= Seq::new(
                2000,
                |i: int|
                    if row * 80 <= i < row * 80 + 80 {
                        spec_blank(old(self)@.color)
                    } else {
                        old(self)@.chars[i]
                    },
            ));
        }
    }

    /// Start a new line: scroll when the cursor is on the last row, else
    /// move the cursor down; either way return to column zero and forget
    /// any postponed newline.
    fn new_line(&mut self)
        requires
            old(self).wf(),
        ensures
            final(self).wf(),
            final(self)@ == spec_new_line(old(self)@),
            final(self)@.col == 0,
    {
        if self.row_position >= BUFFER_HEIGHT - 1 {
            let mut row: usize = 1;
            while row < BUFFER_HEIGHT
                invariant
                    old(self).wf(),
                    1 <= row <= 25,
                    self.buffer@.len() == 2000,
                    self.row_position == old(self).row_position,
                    self.column_position == old(self).column_position,
                    self.has_pending_new_line == old(self).has_pending_new_line,
                    self.color_code == old(self).color_code,
                    forall|i: int|
                        0 <= i < 2000 ==> #[trigger] self.buffer@[i] == if i < (row - 1) * 80 {
                            old(self)@.chars[i + 80]
                        } else {
                            old(self)@.chars[i]
                        },
                decreases 25 - row,
            {
                let mut col: usize = 0;
                while col < BUFFER_WIDTH
                    invariant
                        old(self).wf(),
                        1 <= row < 25,
                        col <= 80,
                        self.buffer@.len() == 2000,
                        self.row_position == old(self).row_position,
                        self.column_position == old(self).column_position,
                        self.has_pending_new_line == old(self).has_pending_new_line,
                        self.color_code == old(self).color_code,
                        forall|i: int|
                            0 <= i < 2000 ==> #[trigger] self.buffer@[i] == if i < (row - 1) * 80
                                + col {
                                old(self)@.chars[i + 80]
                            } else {
                                old(self)@.chars[i]
                            },
                    decreases 80 - col,
                {
                    let character = self.buffer[row * 80 + col];
                    self.buffer[(row - 1) * 80 + col] = character;
                    col = col + 1;
                }
                row = row + 1;
            }
            self.clear_row(BUFFER_HEIGHT - 1);
            proof {
                assert(self@.chars =~= spec_new_line(old(self)@).chars);
            }
        } else {
            self.row_position = self.row_position + 1;
        }
        self.column_position = 0;
        self.has_pending_new_line = false;
        proof {
            assert(self@ =~= spec_new_line(old(self)@));
        }
    }

    /// A newline completes any postponed one, then postpones itself: the
    /// cursor only moves once the next character arrives.
    fn postpone_new_line(&mut self)
        requires
            old(self).wf(),
        ensures
            final(self).wf(),
            final(self)@ == spec_write_byte(old(self)@, 10),
    {
        if self.has_pending_new_line {
            self.new_line();
        }
        self.has_pending_new_line = true;
    }

    /// Write one byte to the grid: a newline is postponed; any other byte
    /// first completes a postponed newline or a full line, then lands at
    /// the cursor in the writer's colour and advances the cursor.
    pub fn write_byte(&mut self, byte: u8)
        requires
            old(self).wf(),
        ensures
            final(self).wf(),
            final(self)@ == spec_write_byte(old(self)@, byte),
    {
        if byte == 10 {
            self.postpone_new_line();
        } else {
            if self.has_pending_new_line || self.column_position >= BUFFER_WIDTH {
                self.new_line();
            }
            let row = self.row_position;
            let col = self.column_position;
            let color_code = self.color_code;
            self.buffer[row * 80 + col] = ScreenChar { ascii_character: byte, color_code };
            self.column_position = col + 1;
        }
    }

    /// Write a string's bytes to the grid, front to back; printable
    /// code-page bytes and newlines pass through, any other byte is shown
    /// as the replacement character.
    pub fn write_string(&mut self, s: &str)
        requires
            old(self).wf(),
        ensures
            final(self).wf(),
            final(self)@ == spec_write_bytes(old(self)@, s.spec_bytes()),
    {
        let bs: &[u8] = s.as_bytes();
        let n: usize = bs.len();
        let mut i: usize = 0;
        while i < n
            invariant
                self.wf(),
                i <= n,
                n == bs@.len(),
                bs@ == s.spec_bytes(),
                self@ == spec_write_bytes(old(self)@, bs@.take(i as int)),
            decreases n - i,
        {
            let byte = bs[i];
            proof {
                lemma_write_bytes_snoc(old(self)@, bs@.take(i as int), byte);
                assert(bs@.take(i as int).push(byte) =~= bs@.take(i + 1));
            }
            if (0x20 <= byte && byte <= 0x7e) || byte == 10 {
                self.write_byte(byte);
            } else {
                self.write_byte(0xfe);
            }
            i = i + 1;
        }
        proof {
            assert(bs@.take(n as int) =~= bs@);
        }
    }
}

/// Writing one more byte after a string writes the string and then the
/// byte: the byte-string spec unrolls from the back as well as the front.
pub proof fn lemma_write_bytes_snoc(v: WriterState, s: Seq<u8>, b: u8)
    ensures
        spec_write_bytes(v, s.push(b)) == spec_write_byte(
            spec_write_bytes(v, s),
            spec_normalize(b),
        ),
    decreases s.len(),
{
    if s.len() == 0 {
        assert(s.push(b)[0] == b);
        assert(s.push(b).skip(1) =~= Seq::<u8>::empty());
        assert(spec_write_bytes(spec_write_byte(v, spec_normalize(b)), Seq::<u8>::empty())
            == spec_write_byte(v, spec_normalize(b)));
        assert(spec_write_bytes(v, s.push(b)) == spec_write_byte(v, spec_normalize(b)));
    } else {
        assert(s.push(b)[0] == s[0]);
        assert(s.push(b).skip(1) =~= s.skip(1).push(b));
        lemma_write_bytes_snoc(spec_write_byte(v, spec_normalize(s[0])), s.skip(1), b);
    }
}

/// Pass formatted text to a writer. The surrounding program formats its
/// diagnostics and hands the finished text here under its own lock.
pub fn _print(writer: &mut Writer, s: &str)
    requires
        old(writer).wf(),
    ensures
        final(writer).wf(),
        final(writer)@ == spec_write_bytes(old(writer)@, s.spec_bytes()),
{
    writer.write_string(s);
}

} // verus!
