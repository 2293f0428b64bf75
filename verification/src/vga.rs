use vstd::prelude::*;
use vstd::string::StringSliceAdditionalSpecFns;
use vstd::utf8::encode_utf8;

verus! {

/// Height of the VGA text screen, in rows.
pub const BUFFER_HEIGHT: usize = 25;

/// Width of the VGA text screen, in columns.
pub const BUFFER_WIDTH: usize = 80;

/// Number of character cells on the screen.
pub const BUFFER_CELLS: usize = 2000;

/// Byte shown in place of anything that is neither printable ASCII nor a newline.
pub const PLACEHOLDER_BYTE: u8 = 0xfe;

/// The sixteen colours of the VGA text palette.
#[derive(Debug, Clone, Copy, PartialEq, Eq, Structural)]
pub enum Colour {
    Black,
    Blue,
    Green,
    Cyan,
    Red,
    Magenta,
    Brown,
    LightGrey,
    DarkGrey,
    LightBlue,
    LightGreen,
    LightCyan,
    LightRed,
    Pink,
    Yellow,
    White,
}

/// The palette index of a colour.
pub open spec fn colour_index(c: Colour) -> u8 {
    match c {
        Colour::Black => 0,
        Colour::Blue => 1,
        Colour::Green => 2,
        Colour::Cyan => 3,
        Colour::Red => 4,
        Colour::Magenta => 5,
        Colour::Brown => 6,
        Colour::LightGrey => 7,
        Colour::DarkGrey => 8,
        Colour::LightBlue => 9,
        Colour::LightGreen => 10,
        Colour::LightCyan => 11,
        Colour::LightRed => 12,
        Colour::Pink => 13,
        Colour::Yellow => 14,
        Colour::White => 15,
    }
}

impl Colour {
    /// The palette index of this colour, between 0 and 15.
    pub fn index(self) -> (r: u8)
        ensures
            r == colour_index(self),
            r < 16,
    {
        match self {
            Colour::Black => 0,
            Colour::Blue => 1,
            Colour::Green => 2,
            Colour::Cyan => 3,
            Colour::Red => 4,
            Colour::Magenta => 5,
            Colour::Brown => 6,
            Colour::LightGrey => 7,
            Colour::DarkGrey => 8,
            Colour::LightBlue => 9,
            Colour::LightGreen => 10,
            Colour::LightCyan => 11,
            Colour::LightRed => 12,
            Colour::Pink => 13,
            Colour::Yellow => 14,
            Colour::White => 15,
        }
    }
}

/// A VGA attribute byte: background colour in the high nibble, foreground in the low one.
#[derive(Debug, Clone, Copy, PartialEq, Eq, Structural)]
pub struct ColourCode(pub u8);

impl ColourCode {
    /// Combines a foreground and a background colour into one attribute byte.
    pub fn new(foreground: Colour, background: Colour) -> (r: ColourCode)
        ensures
            r.0 == colour_index(background) * 16 + colour_index(foreground),
    {
        let f = foreground.index();
        let b = background.index();
        assert((b << 4u8) | f == b * 16 + f) by (bit_vector)
            requires
                b < 16,
                f < 16,
        ;
        ColourCode((b << 4u8) | f)
    }
}

/// One character cell of the text screen.
#[derive(Debug, Clone, Copy, PartialEq, Eq, Structural)]
pub struct ScreenChar {
    pub ascii_character: u8,
    pub colour_code: ColourCode,
}

/// The abstract state of a writer: cursor, colour and the screen cells in row-major order.
pub struct WriterState {
    pub column: int,
    pub row: int,
    pub colour: ColourCode,
    pub cells: Seq<ScreenChar>,
}

/// Index of the cell at `row`, `column` in the row-major cell sequence.
pub open spec fn cell_index(row: int, column: int) -> int {
    row * BUFFER_WIDTH + column
}

/// A blank cell in the given colour.
pub open spec fn blank(colour: ColourCode) -> ScreenChar {
    ScreenChar { ascii_character: 0x20, colour_code: colour }
}

/// The cursor is on the screen and the screen has its full size.
pub open spec fn state_on_screen(s: WriterState) -> bool {
    &&& 0 <= s.row < BUFFER_HEIGHT
    &&& 0 <= s.column <= BUFFER_WIDTH
    &&& s.cells.len() == BUFFER_CELLS
}

/// The cells after scrolling up by one row: every row moves up, the top row is lost
/// and the bottom row becomes blank.
pub open spec fn scrolled(cells: Seq<ScreenChar>, colour: ColourCode) -> Seq<ScreenChar> {
    Seq::new(
        BUFFER_CELLS as nat,
        |i: int|
            if i < BUFFER_CELLS - BUFFER_WIDTH {
                cells[i + BUFFER_WIDTH]
            } else {
                blank(colour)
            },
    )
}

/// The cells with row `row` blanked in the given colour.
pub open spec fn cleared_row(cells: Seq<ScreenChar>, row: int, colour: ColourCode) -> Seq<ScreenChar> {
    Seq::new(
        cells.len(),
        |i: int|
            if cell_index(row, 0) <= i < cell_index(row + 1, 0) {
                blank(colour)
            } else {
                cells[i]
            },
    )
}

/// Moving to the start of the next line; on the last row the screen scrolls up instead.
pub open spec fn spec_new_line(s: WriterState) -> WriterState {
    if s.row + 1 < BUFFER_HEIGHT {
        WriterState { row: s.row + 1, column: 0, ..s }
    } else {
        WriterState { row: BUFFER_HEIGHT - 1, column: 0, cells: scrolled(s.cells, s.colour), ..s }
    }
}

/// Writing one byte: a newline moves to the next line; any other byte is stored at the
/// cursor (after wrapping to a new line when the current one is full) and the cursor advances.
pub open spec fn spec_write_byte(s: WriterState, byte: u8) -> WriterState {
    if byte == 10 {
        spec_new_line(s)
    } else {
        let t = if s.column >= BUFFER_WIDTH {
            spec_new_line(s)
        } else {
            s
        };
        WriterState {
            column: t.column + 1,
            cells: t.cells.update(
                cell_index(t.row, t.column),
                ScreenChar { ascii_character: byte, colour_code: t.colour },
            ),
            ..t
        }
    }
}

/// The byte that a string byte is shown as: printable ASCII and newlines as they are,
/// anything else as the placeholder.
pub open spec fn shown_byte(b: u8) -> u8 {
    if (0x20 <= b && b <= 0x7e) || b == 10 {
        b
    } else {
        PLACEHOLDER_BYTE
    }
}

/// Writing a sequence of string bytes one after the other.
pub open spec fn spec_write_bytes(s: WriterState, bytes: Seq<u8>) -> WriterState
    decreases bytes.len(),
{
    if bytes.len() == 0 {
        s
    } else {
        spec_write_byte(spec_write_bytes(s, bytes.drop_last()), shown_byte(bytes.last()))
    }
}

/// Every cell holds printable ASCII or the placeholder byte.
pub open spec fn cells_are_text(cells: Seq<ScreenChar>) -> bool {
    forall|i: int|
        0 <= i < cells.len() ==> {
            let c = #[trigger] cells[i].ascii_character;
            (0x20 <= c && c <= 0x7e) || c == PLACEHOLDER_BYTE
        }
}

/// A text-mode screen writer. The screen is held as a sequence of cells in row-major
/// order, which the owner of the hardware buffer mirrors into video memory.
pub struct Writer {
    column_position: usize,
    row_position: usize,
    colour_code: ColourCode,
    buffer: Vec<ScreenChar>,
}

impl View for Writer {
    type V = WriterState;

    closed spec fn view(&self) -> WriterState {
        WriterState {
            column: self.column_position as int,
            row: self.row_position as int,
            colour: self.colour_code,
            cells: self.buffer@,
        }
    }
}

impl Writer {
    /// The cursor is on the screen and the screen has its full size.
    pub open spec fn wf(&self) -> bool {
        state_on_screen(self@)
    }

    /// A writer over the given screen contents, with the cursor at the top left.
    pub fn new(colour_code: ColourCode, buffer: Vec<ScreenChar>) -> (w: Writer)
        requires
            buffer@.len() == BUFFER_CELLS,
        ensures
            w.wf(),
            w@ == (WriterState { column: 0, row: 0, colour: colour_code, cells: buffer@ }),
    {
        Writer { column_position: 0, row_position: 0, colour_code, buffer }
    }

    /// The column of the cursor.
    pub fn column_position(&self) -> (r: usize)
        requires
            self.wf(),
        ensures
            r == self@.column,
            r <= BUFFER_WIDTH,
    {
        self.column_position
    }

    /// The row of the cursor.
    pub fn row_position(&self) -> (r: usize)
        requires
            self.wf(),
        ensures
            r == self@.row,
            r < BUFFER_HEIGHT,
    {
        self.row_position
    }

    /// The cell at `row`, `col`.
    pub fn cell(&self, row: usize, col: usize) -> (r: ScreenChar)
        requires
            self.wf(),
            row < BUFFER_HEIGHT,
            col < BUFFER_WIDTH,
        ensures
            r == self@.cells[cell_index(row as int, col as int)],
    {
        self.buffer[row * BUFFER_WIDTH + col]
    }

    /// The whole screen, row by row.
    pub fn cells(&self) -> (r: &Vec<ScreenChar>)
        requires
            self.wf(),
        ensures
            r@ == self@.cells,
            r@.len() == BUFFER_CELLS,
    {
        &self.buffer
    }

    /// Writes one byte at the cursor; a newline starts a new line.
    pub fn write_byte(&mut self, byte: u8)
        requires
            old(self).wf(),
        ensures
            final(self).wf(),
            final(self)@ == spec_write_byte(old(self)@, byte),
    {
        if byte == 10 {
            self.new_line();
        } else {
            if self.column_position >= BUFFER_WIDTH {
                self.new_line();
            }
            let row = self.row_position;
            let col = self.column_position;
            let colour_code = self.colour_code;
            assert(col < BUFFER_WIDTH);
            self.buffer.set(row * BUFFER_WIDTH + col, ScreenChar { ascii_character: byte, colour_code });
            self.column_position = col + 1;
        }
    }

    /// Writes the bytes of a string, showing anything that is neither printable ASCII nor a
    /// newline as the placeholder byte.
    pub fn write_string(&mut self, s: &str)
        requires
            old(self).wf(),
        ensures
            final(self).wf(),
            final(self)@ == spec_write_bytes(old(self)@, s.spec_bytes()),
    {
        let bytes = s.as_bytes();
        let n = bytes.len();
        let mut i: usize = 0;
        while i < n
            invariant
                0 <= i <= n,
                self.wf(),
                n == bytes@.len(),
                bytes@ == s.spec_bytes(),
                self@ == spec_write_bytes(old(self)@, bytes@.take(i as int)),
            decreases n - i,
        {
            let byte = bytes[i];
            let shown = if (0x20 <= byte && byte <= 0x7e) || byte == 10 {
                byte
            } else {
                PLACEHOLDER_BYTE
            };
            self.write_byte(shown);
            proof {
                assert(bytes@.take(i + 1).drop_last() =~= bytes@.take(i as int));
                assert(bytes@.take(i + 1).last() == byte);
            }
            i = i + 1;
        }
        proof {
            assert(bytes@.take(n as int) =~= bytes@);
        }
    }

    /// Moves the cursor to the start of the next line, scrolling the screen up by one
    /// row when the cursor is on the last row.
    pub fn new_line(&mut self)
        requires
            old(self).wf(),
        ensures
            final(self).wf(),
            final(self)@ == spec_new_line(old(self)@),
    {
        let next_row = self.row_position + 1;
        self.column_position = 0;
        if next_row >= BUFFER_HEIGHT {
            let ghost before = self.buffer@;
            let mut row: usize = 1;
            while row < BUFFER_HEIGHT
                invariant
                    1 <= row <= BUFFER_HEIGHT,
                    self.buffer@.len() == BUFFER_CELLS,
                    self.row_position < BUFFER_HEIGHT,
                    self.column_position == 0,
                    self.colour_code == old(self).colour_code,
                    self.row_position == old(self).row_position,
                    before == old(self).buffer@,
                    forall|i: int|
                        0 <= i < cell_index(row as int - 1, 0) ==> #[trigger] self.buffer@[i]
                            == before[i + BUFFER_WIDTH],
                    forall|i: int|
                        cell_index(row as int - 1, 0) <= i < BUFFER_CELLS ==> #[trigger] self.buffer@[i]
                            == before[i],
                decreases BUFFER_HEIGHT - row,
            {
                let mut col: usize = 0;
                while col < BUFFER_WIDTH
                    invariant
                        1 <= row < BUFFER_HEIGHT,
                        0 <= col <= BUFFER_WIDTH,
                        self.buffer@.len() == BUFFER_CELLS,
                        self.row_position < BUFFER_HEIGHT,
                        self.column_position == 0,
                        self.colour_code == old(self).colour_code,
                        self.row_position == old(self).row_position,
                        before == old(self).buffer@,
                        forall|i: int|
                            0 <= i < cell_index(row as int - 1, col as int) ==> #[trigger] self.buffer@[i]
                                == before[i + BUFFER_WIDTH],
                        forall|i: int|
                            cell_index(row as int - 1, col as int) <= i < BUFFER_CELLS
                                ==> #[trigger] self.buffer@[i] == before[i],
                    decreases BUFFER_WIDTH - col,
                {
                    let character = self.buffer[row * BUFFER_WIDTH + col];
                    self.buffer.set((row - 1) * BUFFER_WIDTH + col, character);
                    col = col + 1;
                }
                row = row + 1;
            }
            self.clear_row(BUFFER_HEIGHT - 1);
            self.row_position = next_row - 1;
            proof {
                assert(self.buffer@ =~= scrolled(before, self.colour_code));
            }
        } else {
            self.row_position = next_row;
        }
    }

    /// Fills row `row` with blanks in the current colour.
    pub fn clear_row(&mut self, row: usize)
        requires
            old(self).wf(),
            row < BUFFER_HEIGHT,
        ensures
            final(self).wf(),
            final(self)@ == (WriterState {
                cells: cleared_row(old(self)@.cells, row as int, old(self)@.colour),
                ..old(self)@
            }),
    {
        let blank = ScreenChar { ascii_character: 0x20, colour_code: self.colour_code };
        let mut col: usize = 0;
        while col < BUFFER_WIDTH
            invariant
                row < BUFFER_HEIGHT,
                0 <= col <= BUFFER_WIDTH,
                self.buffer@.len() == BUFFER_CELLS,
                self.row_position == old(self).row_position,
                self.column_position == old(self).column_position,
                self.colour_code == old(self).colour_code,
                blank == crate::vga::blank(self.colour_code),
                forall|i: int|
                    0 <= i < BUFFER_CELLS ==> #[trigger] self.buffer@[i] == if cell_index(
                        row as int,
                        0,
                    ) <= i < cell_index(row as int, col as int) {
                        blank
                    } else {
                        old(self).buffer@[i]
                    },
            decreases BUFFER_WIDTH - col,
        {
            self.buffer.set(row * BUFFER_WIDTH + col, blank);
            col = col + 1;
        }
        proof {
            assert(self.buffer@ =~= cleared_row(old(self)@.cells, row as int, old(self)@.colour));
        }
    }
}

/// Writing a byte never moves the cursor off the screen.
pub proof fn lemma_write_byte_stays_on_screen(s: WriterState, byte: u8)
    requires
        state_on_screen(s),
    ensures
        state_on_screen(spec_write_byte(s, byte)),
{
}

/// Writing a string only ever puts printable ASCII or the placeholder byte on a screen that
/// held only those.
pub proof fn lemma_write_bytes_keeps_text(s: WriterState, bytes: Seq<u8>)
    requires
        cells_are_text(s.cells),
        state_on_screen(s),
    ensures
        cells_are_text(spec_write_bytes(s, bytes).cells),
        state_on_screen(spec_write_bytes(s, bytes)),
    decreases bytes.len(),
{
    if bytes.len() > 0 {
        lemma_write_bytes_keeps_text(s, bytes.drop_last());
        let t = spec_write_bytes(s, bytes.drop_last());
        let b = shown_byte(bytes.last());
        lemma_new_line_keeps_text(t);
        lemma_write_byte_stays_on_screen(t, b);
        let u = if t.column >= BUFFER_WIDTH {
            spec_new_line(t)
        } else {
            t
        };
        if b != 10 {
            let cells = u.cells.update(
                cell_index(u.row, u.column),
                ScreenChar { ascii_character: b, colour_code: u.colour },
            );
            assert forall|i: int| 0 <= i < cells.len() implies {
                let c = #[trigger] cells[i].ascii_character;
                (0x20 <= c && c <= 0x7e) || c == PLACEHOLDER_BYTE
            } by {
                if i != cell_index(u.row, u.column) {
                    assert(cells[i] == u.cells[i]);
                }
            }
            assert(spec_write_bytes(s, bytes).cells == cells);
        }
    }
}

/// Starting a new line keeps a text screen a text screen of full size.
proof fn lemma_new_line_keeps_text(t: WriterState)
    requires
        cells_are_text(t.cells),
        state_on_screen(t),
    ensures
        cells_are_text(spec_new_line(t).cells),
        state_on_screen(spec_new_line(t)),
{
    let nl = spec_new_line(t);
    if t.row + 1 >= BUFFER_HEIGHT {
        assert forall|i: int| 0 <= i < nl.cells.len() implies {
            let c = #[trigger] nl.cells[i].ascii_character;
            (0x20 <= c && c <= 0x7e) || c == PLACEHOLDER_BYTE
        } by {
            if i < BUFFER_CELLS - BUFFER_WIDTH {
                assert(nl.cells[i] == t.cells[i + BUFFER_WIDTH]);
            }
        }
    }
}

/// Writing `a` and then `b` leaves the writer as writing `a` followed by `b` at once.
pub proof fn lemma_write_bytes_concat(s: WriterState, a: Seq<u8>, b: Seq<u8>)
    ensures
        spec_write_bytes(spec_write_bytes(s, a), b) == spec_write_bytes(s, a + b),
    decreases b.len(),
{
    if b.len() == 0 {
        assert(a + b =~= a);
    } else {
        lemma_write_bytes_concat(s, a, b.drop_last());
        assert((a + b).drop_last() =~= a + b.drop_last());
        assert((a + b).last() == b.last());
    }
}

/// The UTF-8 bytes of two strings one after the other are the bytes of the joined string.
pub proof fn lemma_encode_utf8_concat(x: Seq<char>, y: Seq<char>)
    ensures
        encode_utf8(x + y) == encode_utf8(x) + encode_utf8(y),
    decreases x.len(),
{
    if x.len() == 0 {
        assert(x + y =~= y);
        assert(encode_utf8(x) =~= Seq::<u8>::empty());
        assert(encode_utf8(x) + encode_utf8(y) =~= encode_utf8(y));
    } else {
        lemma_encode_utf8_concat(x.drop_first(), y);
        assert((x + y).drop_first() =~= x.drop_first() + y);
        assert((x + y)[0] == x[0]);
        assert(encode_utf8(x + y) =~= encode_utf8(x) + encode_utf8(y));
    }
}

/// Writing the string `x` and then the string `y` leaves the writer as writing their
/// concatenation at once.
pub proof fn lemma_write_strings_concat(s: WriterState, x: Seq<char>, y: Seq<char>)
    ensures
        spec_write_bytes(spec_write_bytes(s, encode_utf8(x)), encode_utf8(y)) == spec_write_bytes(
            s,
            encode_utf8(x + y),
        ),
{
    lemma_write_bytes_concat(s, encode_utf8(x), encode_utf8(y));
    lemma_encode_utf8_concat(x, y);
}

/// The sixteen colours carry the standard VGA palette numbers, and no two share one.
pub proof fn lemma_colour_palette()
    ensures
        colour_index(Colour::Black) == 0,
        colour_index(Colour::Blue) == 1,
        colour_index(Colour::Green) == 2,
        colour_index(Colour::Cyan) == 3,
        colour_index(Colour::Red) == 4,
        colour_index(Colour::Magenta) == 5,
        colour_index(Colour::Brown) == 6,
        colour_index(Colour::LightGrey) == 7,
        colour_index(Colour::DarkGrey) == 8,
        colour_index(Colour::LightBlue) == 9,
        colour_index(Colour::LightGreen) == 10,
        colour_index(Colour::LightCyan) == 11,
        colour_index(Colour::LightRed) == 12,
        colour_index(Colour::Pink) == 13,
        colour_index(Colour::Yellow) == 14,
        colour_index(Colour::White) == 15,
        forall|a: Colour, b: Colour| colour_index(a) == colour_index(b) ==> a == b,
{
}

/// An attribute byte made from two colours gives back the foreground in its low nibble and
/// the background in its high nibble.
pub proof fn lemma_colour_code_nibbles(foreground: Colour, background: Colour)
    ensures
        ({
            let code = colour_index(background) * 16 + colour_index(foreground);
            &&& code < 256
            &&& code % 16 == colour_index(foreground)
            &&& code / 16 == colour_index(background)
        }),
{
}

/// Writing one printable ASCII byte (space included) at a cursor inside a line stores that
/// very byte in the cursor's cell, in the writer's colour, moves the cursor one column on and
/// leaves every other cell as it was.
pub proof fn lemma_printable_byte_shown_as_itself(s: WriterState, b: u8)
    requires
        state_on_screen(s),
        s.column < BUFFER_WIDTH,
        0x20 <= b <= 0x7e,
    ensures
        ({
            let t = spec_write_bytes(s, seq![b]);
            &&& t.cells[s.row * 80 + s.column] == ScreenChar { ascii_character: b, colour_code: s.colour }
            &&& t.row == s.row
            &&& t.column == s.column + 1
            &&& t.colour == s.colour
            &&& t.cells.len() == s.cells.len()
            &&& forall|i: int|
                0 <= i < s.cells.len() && i != s.row * 80 + s.column ==> t.cells[i] == s.cells[i]
        }),
{
    assert(seq![b].drop_last() =~= Seq::<u8>::empty());
    assert(seq![b].last() == b);
    assert(spec_write_bytes(s, seq![b].drop_last()) == s);
    assert(spec_write_bytes(s, seq![b]) == spec_write_byte(s, shown_byte(b)));
}

/// Writing one byte that is neither printable ASCII nor a newline at a cursor inside a line
/// stores the placeholder 0xfe in the cursor's cell and moves the cursor one column on.
pub proof fn lemma_unprintable_byte_shown_as_placeholder(s: WriterState, b: u8)
    requires
        state_on_screen(s),
        s.column < BUFFER_WIDTH,
        b < 0x20 || b > 0x7e,
        b != 10,
    ensures
        ({
            let t = spec_write_bytes(s, seq![b]);
            &&& t.cells[s.row * 80 + s.column] == ScreenChar { ascii_character: 0xfe, colour_code: s.colour }
            &&& t.row == s.row
            &&& t.column == s.column + 1
            &&& forall|i: int|
                0 <= i < s.cells.len() && i != s.row * 80 + s.column ==> t.cells[i] == s.cells[i]
        }),
{
    assert(seq![b].drop_last() =~= Seq::<u8>::empty());
    assert(seq![b].last() == b);
    assert(spec_write_bytes(s, seq![b].drop_last()) == s);
    assert(spec_write_bytes(s, seq![b]) == spec_write_byte(s, shown_byte(b)));
}

/// A byte written when the cursor has run past the end of a line that is not the last one
/// goes to the first column of the next line.
pub proof fn lemma_full_line_wraps(s: WriterState, b: u8)
    requires
        state_on_screen(s),
        s.column == BUFFER_WIDTH,
        s.row + 1 < BUFFER_HEIGHT,
        b != 10,
    ensures
        ({
            let t = spec_write_byte(s, b);
            &&& t.row == s.row + 1
            &&& t.column == 1
            &&& t.cells[(s.row + 1) * 80] == ScreenChar { ascii_character: b, colour_code: s.colour }
        }),
{
}

/// A new line below the last row moves the cursor to the start of the next row and leaves
/// the screen as it was.
pub proof fn lemma_newline_moves_down(s: WriterState)
    requires
        state_on_screen(s),
        s.row + 1 < BUFFER_HEIGHT,
    ensures
        ({
            let t = spec_new_line(s);
            &&& t.row == s.row + 1
            &&& t.column == 0
            &&& t.cells == s.cells
            &&& t.colour == s.colour
        }),
{
}

/// A new line on the last row scrolls: every cell of rows 0..24, in every column, takes the
/// cell one row below it, the bottom row becomes blank in the writer's colour, and the
/// cursor goes to the start of the bottom row.
pub proof fn lemma_new_line_on_last_row_scrolls(s: WriterState)
    requires
        state_on_screen(s),
        s.row == BUFFER_HEIGHT - 1,
    ensures
        ({
            let t = spec_new_line(s);
            &&& t.row == 24
            &&& t.column == 0
            &&& t.cells.len() == 2000
            &&& forall|r: int, c: int|
                0 <= r < 24 && 0 <= c < 80 ==> #[trigger] t.cells[r * 80 + c] == s.cells[(r + 1) * 80 + c]
            &&& forall|c: int|
                0 <= c < 80 ==> #[trigger] t.cells[24 * 80 + c] == ScreenChar {
                    ascii_character: 0x20,
                    colour_code: s.colour,
                }
        }),
{
    let t = spec_new_line(s);
    assert forall|r: int, c: int| 0 <= r < 24 && 0 <= c < 80 implies #[trigger] t.cells[r * 80 + c]
        == s.cells[(r + 1) * 80 + c] by {
        assert(r * 80 + c < 1920);
        assert(r * 80 + c + 80 == (r + 1) * 80 + c);
    }
}

/// Clearing a row blanks every column of that row in the writer's colour and nothing else.
pub proof fn lemma_cleared_row_blanks_only_that_row(cells: Seq<ScreenChar>, row: int, colour: ColourCode)
    requires
        cells.len() == 2000,
        0 <= row < 25,
    ensures
        cleared_row(cells, row, colour).len() == 2000,
        forall|c: int|
            0 <= c < 80 ==> #[trigger] cleared_row(cells, row, colour)[row * 80 + c] == (ScreenChar {
                ascii_character: 0x20,
                colour_code: colour,
            }),
        forall|r: int, c: int|
            0 <= r < 25 && r != row && 0 <= c < 80 ==> #[trigger] cleared_row(cells, row, colour)[r
                * 80 + c] == cells[r * 80 + c],
{
    assert forall|r: int, c: int|
        0 <= r < 25 && r != row && 0 <= c < 80 implies #[trigger] cleared_row(cells, row, colour)[r
        * 80 + c] == cells[r * 80 + c] by {
        if r < row {
            assert(r * 80 + c < row * 80);
        } else {
            assert(r * 80 + c >= (row + 1) * 80);
        }
    }
}

} // verus!
