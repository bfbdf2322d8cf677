//! Text console model: a fixed 25-by-80 buffer of colored characters written
//! at the bottom row, scrolling one row up on every newline or overflow. The
//! memory-mapped device that displays it is an external collaborator; this
//! holds the console's contents and rules.
use vstd::prelude::*;

verus! {

use vstd::string::StringSliceAdditionalSpecFns;

/// Rows of the text buffer.
pub const BUFFER_HEIGHT: usize = 25;

/// Columns of the text buffer.
pub const BUFFER_WIDTH: usize = 80;

/// The byte written in place of one that is neither printable ASCII nor a
/// newline.
pub const REPLACEMENT_BYTE: u8 = 0xfe;

/// Console colors, by their hardware color number.
#[allow(missing_docs)]
#[derive(Clone, Copy, Debug, PartialEq, Eq, Structural)]
pub enum Color {
    Black,
    Blue,
    Green,
    Cyan,
    Magenta,
    Brown,
    LightGray,
    DarkGray,
    LightBlue,
    LightGreen,
    LightSyan,
    LightRed,
    Pink,
    Yellow,
    White,
}

impl Color {
    /// The hardware color number of this color.
    pub fn code(&self) -> (r: u8)
        ensures
            r == self.spec_code(),
            r <= 15,
    {
        match self {
            Color::Black => 0,
            Color::Blue => 1,
            Color::Green => 2,
            Color::Cyan => 4,
            Color::Magenta => 5,
            Color::Brown => 6,
            Color::LightGray => 7,
            Color::DarkGray => 8,
            Color::LightBlue => 9,
            Color::LightGreen => 10,
            Color::LightSyan => 11,
            Color::LightRed => 12,
            Color::Pink => 13,
            Color::Yellow => 14,
            Color::White => 15,
        }
    }

    /// The hardware color number of this color.
    pub open spec fn spec_code(&self) -> u8 {
        match self {
            Color::Black => 0,
            Color::Blue => 1,
            Color::Green => 2,
            Color::Cyan => 4,
            Color::Magenta => 5,
            Color::Brown => 6,
            Color::LightGray => 7,
            Color::DarkGray => 8,
            Color::LightBlue => 9,
            Color::LightGreen => 10,
            Color::LightSyan => 11,
            Color::LightRed => 12,
            Color::Pink => 13,
            Color::Yellow => 14,
            Color::White => 15,
        }
    }
}

/// A foreground and background color packed in one byte, background in the
/// high nibble.
#[derive(Clone, Copy, Debug, PartialEq, Eq, Structural)]
pub struct ColorCode(pub u8);

impl ColorCode {
    /// Pack a foreground and a background color.
    pub fn new(foreground: Color, background: Color) -> (r: Self)
        ensures
            r.0 == background.spec_code() * 16 + foreground.spec_code(),
    {
        let fg = foreground.code();
        let bg = background.code();
        proof {
            assert((bg << 4) | fg == bg * 16 + fg) by (bit_vector)
                requires
                    fg <= 15,
                    bg <= 15,
            ;
        }
        Self((bg << 4) | fg)
    }
}

/// One cell of the text buffer: a character byte and its colors.
#[derive(Clone, Copy, Debug, PartialEq, Eq, Structural)]
pub struct ScreenChar {
    pub ascii_character: u8,
    pub color_code: ColorCode,
}

/// A blank cell in the given colors.
pub open spec fn spec_blank(color: ColorCode) -> ScreenChar {
    ScreenChar { ascii_character: 32, color_code: color }
}

/// A row of blank cells.
pub open spec fn spec_blank_row(color: ColorCode) -> Seq<ScreenChar> {
    Seq::new(BUFFER_WIDTH as nat, |c: int| spec_blank(color))
}

/// The buffer scrolled one row up: every row takes the contents of the one
/// below it, and the bottom row is blanked.
pub open spec fn spec_scrolled(rows: Seq<Seq<ScreenChar>>, color: ColorCode) -> Seq<
    Seq<ScreenChar>,
> {
    Seq::new(
        BUFFER_HEIGHT as nat,
        |r: int|
            if r < BUFFER_HEIGHT - 1 {
                rows[r + 1]
            } else {
                spec_blank_row(color)
            },
    )
}

/// The buffer and column after writing one byte: a newline scrolls and
/// returns to column zero; any other byte lands on the bottom row at the
/// current column — after a scroll if the line was full — and advances it.
pub open spec fn spec_write_byte(
    rows: Seq<Seq<ScreenChar>>,
    col: int,
    color: ColorCode,
    byte: u8,
) -> (Seq<Seq<ScreenChar>>, int) {
    if byte == 10 {
        (spec_scrolled(rows, color), 0)
    } else {
        let rows0 = if col >= BUFFER_WIDTH {
            spec_scrolled(rows, color)
        } else {
            rows
        };
        let col0: int = if col >= BUFFER_WIDTH {
            0
        } else {
            col
        };
        let bottom = BUFFER_HEIGHT - 1;
        let cell = ScreenChar { ascii_character: byte, color_code: color };
        (rows0.update(bottom, rows0[bottom].update(col0, cell)), col0 + 1)
    }
}

/// The buffer and column after writing a sequence of bytes in order.
pub open spec fn spec_write_bytes(
    rows: Seq<Seq<ScreenChar>>,
    col: int,
    color: ColorCode,
    bytes: Seq<u8>,
) -> (Seq<Seq<ScreenChar>>, int)
    decreases bytes.len(),
{
    if bytes.len() == 0 {
        (rows, col)
    } else {
        let prev = spec_write_bytes(rows, col, color, bytes.drop_last());
        spec_write_byte(prev.0, prev.1, color, bytes.last())
    }
}

/// A byte as the console prints it: printable ASCII and newline go through,
/// everything else becomes the replacement byte.
pub open spec fn spec_printable(b: u8) -> u8 {
    if (0x20 <= b <= 0x7e) || b == 10 {
        b
    } else {
        REPLACEMENT_BYTE
    }
}

/// Console writer: the current column on the bottom row, the colors new
/// characters take, and the buffer contents.
pub struct Writer {
    pub column_position: usize,
    pub color_code: ColorCode,
    pub buffer: Vec<Vec<ScreenChar>>,
}

impl Writer {
    /// The buffer contents, row by row.
    pub open spec fn rows(&self) -> Seq<Seq<ScreenChar>> {
        Seq::new(self.buffer@.len() as nat, |r: int| self.buffer@[r]@)
    }

    /// The buffer is exactly `BUFFER_HEIGHT` rows of `BUFFER_WIDTH` cells,
    /// and the column never runs more than one past the row's end.
    pub open spec fn wf(&self) -> bool {
        &&& self.rows().len() == BUFFER_HEIGHT
        &&& forall|r: int|
            0 <= r < BUFFER_HEIGHT ==> (#[trigger] self.rows()[r]).len() == BUFFER_WIDTH
        &&& self.column_position <= BUFFER_WIDTH
    }

    /// A writer over a blank buffer, at column zero.
    pub fn new(color_code: ColorCode) -> (r: Self)
        ensures
            r.wf(),
            r.column_position == 0,
            r.color_code == color_code,
            forall|row: int|
                0 <= row < BUFFER_HEIGHT ==> #[trigger] r.rows()[row] =~= spec_blank_row(
                    color_code,
                ),
    {
        let mut buffer: Vec<Vec<ScreenChar>> = Vec::new();
        let mut r: usize = 0;
        while r < BUFFER_HEIGHT
            invariant
                r <= BUFFER_HEIGHT,
                buffer@.len() == r,
                forall|i: int| 0 <= i < r ==> (#[trigger] buffer@[i])@ =~= spec_blank_row(
                    color_code,
                ),
            decreases BUFFER_HEIGHT - r,
        {
            buffer.push(blank_row(color_code));
            r = r + 1;
        }
        Writer { column_position: 0, color_code, buffer }
    }

    /// Blank out one row in the writer's current colors.
    pub fn clear_row(&mut self, row: usize)
        requires
            old(self).wf(),
            row < BUFFER_HEIGHT,
        ensures
            final(self).wf(),
            final(self).column_position == old(self).column_position,
            final(self).color_code == old(self).color_code,
            final(self).rows() =~= old(self).rows().update(
                row as int,
                spec_blank_row(old(self).color_code),
            ),
    {
        let blank = blank_row(self.color_code);
        self.buffer[row] = blank;
        proof {
            assert(self.rows() =~= old(self).rows().update(
                row as int,
                spec_blank_row(old(self).color_code),
            ));
        }
    }

    /// Scroll one row up: every row takes the one below it, the bottom row is
    /// cleared, and writing restarts at column zero.
    pub fn new_line(&mut self)
        requires
            old(self).wf(),
        ensures
            final(self).wf(),
            final(self).color_code == old(self).color_code,
            final(self).column_position == 0,
            final(self).rows() =~= spec_scrolled(old(self).rows(), old(self).color_code),
    {
        let ghost pre = *old(self);
        let recycled = self.buffer.remove(0);
        self.buffer.push(recycled);
        proof {
            assert(self.rows().len() == BUFFER_HEIGHT);
            assert forall|r: int| 0 <= r < BUFFER_HEIGHT - 1 implies #[trigger] self.rows()[r]
                == pre.rows()[r + 1] by {
                assert(self.buffer@[r] == pre.buffer@.remove(0)[r]);
            }
            assert(self.rows()[BUFFER_HEIGHT - 1] == pre.rows()[0]);
            assert forall|r: int|
                0 <= r < BUFFER_HEIGHT implies (#[trigger] self.rows()[r]).len()
                == BUFFER_WIDTH by {
                if r < BUFFER_HEIGHT - 1 {
                    assert(pre.rows()[r + 1].len() == BUFFER_WIDTH);
                }
            }
            assert(self.wf());
        }
        self.clear_row(BUFFER_HEIGHT - 1);
        self.column_position = 0;
        proof {
            assert(self.rows() =~= spec_scrolled(pre.rows(), pre.color_code));
        }
    }

    /// Write one byte: a newline scrolls; any other byte lands at the current
    /// column of the bottom row — scrolling first when the line is full — and
    /// advances the column.
    pub fn write_byte(&mut self, byte: u8)
        requires
            old(self).wf(),
        ensures
            final(self).wf(),
            final(self).color_code == old(self).color_code,
            ({
                let next = spec_write_byte(
                    old(self).rows(),
                    old(self).column_position as int,
                    old(self).color_code,
                    byte,
                );
                final(self).rows() =~= next.0 && final(self).column_position == next.1
            }),
    {
        if byte == 10 {
            self.new_line();
        } else {
            if self.column_position >= BUFFER_WIDTH {
                self.new_line();
            }
            let ghost base = *self;
            let row = BUFFER_HEIGHT - 1;
            let col = self.column_position;
            let color_code = self.color_code;
            let cell = ScreenChar { ascii_character: byte, color_code };
            proof {
                assert(self.rows()[row as int].len() == BUFFER_WIDTH);
                assert(self.buffer@[row as int]@.len() == BUFFER_WIDTH);
            }
            let line = &mut self.buffer[row];
            line[col] = cell;
            self.column_position = col + 1;
            proof {
                assert(self.buffer@[row as int]@ =~= base.buffer@[row as int]@.update(
                    col as int,
                    cell,
                ));
                assert(self.rows() =~= base.rows().update(
                    row as int,
                    base.rows()[row as int].update(col as int, cell),
                ));
                let next = spec_write_byte(
                    old(self).rows(),
                    old(self).column_position as int,
                    old(self).color_code,
                    byte,
                );
                if old(self).column_position >= BUFFER_WIDTH {
                    assert(base.rows() =~= spec_scrolled(old(self).rows(), old(self).color_code));
                }
                assert(self.rows() =~= next.0);
            }
        }
    }

    /// Write a string: printable ASCII bytes and newlines as they are, any
    /// other byte as the replacement character.
    pub fn write_str(&mut self, s: &str)
        requires
            old(self).wf(),
        ensures
            final(self).wf(),
            final(self).color_code == old(self).color_code,
            ({
                let translated = s.spec_bytes().map_values(|b: u8| spec_printable(b));
                let next = spec_write_bytes(
                    old(self).rows(),
                    old(self).column_position as int,
                    old(self).color_code,
                    translated,
                );
                final(self).rows() =~= next.0 && final(self).column_position == next.1
            }),
    {
        let ghost pre = *old(self);
        let ghost translated = s.spec_bytes().map_values(|b: u8| spec_printable(b));
        let bytes = s.as_bytes();
        let mut i: usize = 0;
        while i < bytes.len()
            invariant
                pre == *old(self),
                pre.wf(),
                self.wf(),
                bytes@ == s.spec_bytes(),
                translated == s.spec_bytes().map_values(|b: u8| spec_printable(b)),
                i <= bytes@.len(),
                self.color_code == pre.color_code,
                ({
                    let next = spec_write_bytes(
                        pre.rows(),
                        pre.column_position as int,
                        pre.color_code,
                        translated.take(i as int),
                    );
                    self.rows() =~= next.0 && self.column_position == next.1
                }),
            decreases bytes@.len() - i,
        {
            let byte = bytes[i];
            let printed: u8 = if (0x20 <= byte && byte <= 0x7e) || byte == 10 {
                byte
            } else {
                REPLACEMENT_BYTE
            };
            proof {
                assert(translated[i as int] == printed);
                assert(translated.take(i as int + 1).drop_last() =~= translated.take(i as int));
                assert(translated.take(i as int + 1).last() == printed);
            }
            self.write_byte(printed);
            i = i + 1;
        }
        proof {
            assert(translated.take(bytes@.len() as int) =~= translated);
        }
    }
}

/// A row of blank cells in the given colors.
fn blank_row(color: ColorCode) -> (r: Vec<ScreenChar>)
    ensures
        r@ =~= spec_blank_row(color),
{
    let blank = ScreenChar { ascii_character: 32, color_code: color };
    let mut row: Vec<ScreenChar> = Vec::new();
    let mut c: usize = 0;
    while c < BUFFER_WIDTH
        invariant
            c <= BUFFER_WIDTH,
            row@.len() == c,
            blank == spec_blank(color),
            forall|i: int| 0 <= i < c ==> #[trigger] row@[i] == spec_blank(color),
        decreases BUFFER_WIDTH - c,
    {
        row.push(blank);
        c = c + 1;
    }
    row
}

} // verus!
