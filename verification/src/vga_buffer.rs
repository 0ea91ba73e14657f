//! The text screen: four screens of text with a scroll-back history each, of
//! which one is shown. The writer computes what the display memory and the
//! cursor registers are to hold.

use vstd::prelude::*;
use vstd::string::StringSliceAdditionalSpecFns;

verus! {

/// Physical address of the text screen's memory.
pub const VGA_ADDRESS: u32 = 0xb8000;

/// Columns of the display.
pub const VGA_WIDTH: usize = 80;

/// Rows of the display.
pub const VGA_HEIGHT: usize = 25;

/// Rows that a screen remembers, the shown ones included.
pub const VGA_HISTORY: usize = 50;

/// Rows of a screen that are not shown.
pub const VGA_HIDDEN_LINES: usize = VGA_HISTORY - VGA_HEIGHT;

/// Number of screens.
pub const VGA_SCREENS: usize = 4;

/// Cells of the display.
pub const VGA_CELLS: usize = VGA_WIDTH * VGA_HEIGHT;

/// Cells of a screen.
pub const SCREEN_CELLS: usize = VGA_WIDTH * VGA_HISTORY;

/// The sixteen colours of the text mode.
#[allow(dead_code)]
#[derive(Debug, Clone, Copy, PartialEq, Eq, Structural)]
pub enum Color {
    Black,
    Blue,
    Green,
    Cyan,
    Red,
    Magenta,
    Brown,
    LightGray,
    DarkGray,
    LightBlue,
    LightGreen,
    LightCyan,
    LightRed,
    Pink,
    Yellow,
    White,
}

impl Color {
    /// The colour's number in the hardware's palette.
    pub open spec fn code_spec(&self) -> u8 {
        match self {
            Color::Black => 0,
            Color::Blue => 1,
            Color::Green => 2,
            Color::Cyan => 3,
            Color::Red => 4,
            Color::Magenta => 5,
            Color::Brown => 6,
            Color::LightGray => 7,
            Color::DarkGray => 8,
            Color::LightBlue => 9,
            Color::LightGreen => 10,
            Color::LightCyan => 11,
            Color::LightRed => 12,
            Color::Pink => 13,
            Color::Yellow => 14,
            Color::White => 15,
        }
    }

    /// The colour's number in the hardware's palette.
    #[verifier::when_used_as_spec(code_spec)]
    pub fn code(&self) -> (code: u8)
        ensures
            code == self.code_spec(),
            code < 16,
    {
        match self {
            Color::Black => 0,
            Color::Blue => 1,
            Color::Green => 2,
            Color::Cyan => 3,
            Color::Red => 4,
            Color::Magenta => 5,
            Color::Brown => 6,
            Color::LightGray => 7,
            Color::DarkGray => 8,
            Color::LightBlue => 9,
            Color::LightGreen => 10,
            Color::LightCyan => 11,
            Color::LightRed => 12,
            Color::Pink => 13,
            Color::Yellow => 14,
            Color::White => 15,
        }
    }
}

/// A foreground and a background colour in one byte.
#[derive(Debug, Clone, Copy, PartialEq, Eq, Structural)]
pub struct ColorCode(pub u8);

impl ColorCode {
    /// The byte with `background` in the high and `foreground` in the low
    /// four bits.
    pub open spec fn new_spec(foreground: Color, background: Color) -> ColorCode {
        ColorCode((background.code() * 16 + foreground.code()) as u8)
    }

    /// The byte with `background` in the high and `foreground` in the low
    /// four bits.
    #[verifier::when_used_as_spec(new_spec)]
    pub fn new(foreground: Color, background: Color) -> (code: ColorCode)
        ensures
            code == Self::new_spec(foreground, background),
    {
        let high = background.code();
        let low = foreground.code();
        assert((high << 4) | low == high * 16 + low) by (bit_vector)
            requires
                high < 16,
                low < 16,
        ;
        ColorCode((high << 4) | low)
    }
}

/// One cell of the display: a character and its colours.
#[derive(Debug, Clone, Copy, PartialEq, Eq, Structural)]
pub struct ScreenChar {
    pub ascii_character: u8,
    pub color_code: ColorCode,
}

impl ScreenChar {
    /// A space, black on black.
    pub open spec fn empty_spec() -> ScreenChar {
        ScreenChar { ascii_character: 0x20, color_code: ColorCode(0) }
    }

    /// A space, black on black.
    #[verifier::when_used_as_spec(empty_spec)]
    pub fn empty() -> (cell: ScreenChar)
        ensures
            cell == Self::empty_spec(),
    {
        ScreenChar { ascii_character: 0x20, color_code: ColorCode::new(Color::Black, Color::Black) }
    }
}

/// The port writes that put the hardware cursor at `col` of `row`.
pub open spec fn cursor_writes(row: usize, col: usize) -> Seq<(u16, u8)> {
    let pos = row * VGA_WIDTH + col;
    seq![
        (0x3D4u16, 0x0Eu8),
        (0x3D5u16, ((pos / 256) % 256) as u8),
        (0x3D4u16, 0x0Fu8),
        (0x3D5u16, (pos % 256) as u8),
    ]
}

/// The port writes, each a port and a byte, that put the hardware cursor at
/// `col` of `row`: the high byte of the cell's number goes to register 14
/// of the display controller, the low byte to register 15.
pub fn update_cursor(row: usize, col: usize) -> (writes: Vec<(u16, u8)>)
    requires
        row * VGA_WIDTH + col <= usize::MAX,
    ensures
        writes@ == cursor_writes(row, col),
{
    let pos = row * VGA_WIDTH + col;
    assert(((pos >> 8) as u8) == ((pos / 256) % 256) as u8) by (bit_vector);
    assert(((pos & 0xFF) as u8) == (pos % 256) as u8) by (bit_vector);
    let mut writes = Vec::new();
    writes.push((0x3D4u16, 0x0Eu8));
    writes.push((0x3D5u16, (pos >> 8) as u8));
    writes.push((0x3D4u16, 0x0Fu8));
    writes.push((0x3D5u16, (pos & 0xFF) as u8));
    assert(writes@ =~= cursor_writes(row, col));
    writes
}

/// The port writes that put the hardware cursor below the display, where
/// it does not show.
pub fn hide_cursor() -> (writes: Vec<(u16, u8)>)
    ensures
        writes@ == cursor_writes((VGA_HEIGHT + 1) as usize, 0),
{
    update_cursor(VGA_HEIGHT + 1, 0)
}


/// The text of one screen: the rows that are shown and the rows above
/// them, oldest first.
pub struct Screen {
    pub bytes: [[ScreenChar; VGA_WIDTH]; VGA_HISTORY],
    /// Number of rows of history that hold text.
    pub history: usize,
    /// Number of rows by which the view is moved up into the history.
    pub scroll_up: usize,
}

/// A screen as values: rows of cells.
#[verifier::ext_equal]
pub struct ScreenView {
    pub bytes: Seq<Seq<ScreenChar>>,
    pub history: usize,
    pub scroll_up: usize,
}

/// The writer's state.
pub struct Writer {
    /// Column of the next character.
    pub column_position: usize,
    /// Colours of the next character.
    pub color_code: ColorCode,
    /// What the display memory is to hold.
    pub buffer: [[ScreenChar; VGA_WIDTH]; VGA_HEIGHT],
    /// Number of the cell at which the hardware cursor is to stand.
    pub cursor: usize,
    /// The screen that is shown.
    pub screen_idx: usize,
    pub screens: [Screen; VGA_SCREENS],
}

/// A writer as values.
#[verifier::ext_equal]
pub struct WriterView {
    pub column_position: usize,
    pub color_code: ColorCode,
    pub buffer: Seq<Seq<ScreenChar>>,
    pub cursor: usize,
    pub screen_idx: usize,
    pub screens: Seq<ScreenView>,
}

/// A row of `VGA_WIDTH` cells that all hold `cell`.
pub open spec fn row_of(cell: ScreenChar) -> Seq<ScreenChar> {
    Seq::new(VGA_WIDTH as nat, |x: int| cell)
}

/// A space in the colours `color_code`.
pub open spec fn blank(color_code: ColorCode) -> ScreenChar {
    ScreenChar { ascii_character: 0x20, color_code }
}

impl ScreenView {
    /// The rows that the display shows of the screen.
    pub open spec fn shown(self) -> Seq<Seq<ScreenChar>> {
        Seq::new(VGA_HEIGHT as nat, |y: int| self.bytes[y + VGA_HIDDEN_LINES - self.scroll_up])
    }

    /// The screen after its text has moved up by one row and a row of
    /// `cell` has come in at the bottom.
    pub open spec fn scrolled(self, cell: ScreenChar) -> ScreenView {
        ScreenView {
            bytes: Seq::new(
                VGA_HISTORY as nat,
                |y: int|
                    if y < VGA_HISTORY - 1 {
                        self.bytes[y + 1]
                    } else {
                        row_of(cell)
                    },
            ),
            history: if self.history < VGA_HIDDEN_LINES {
                (self.history + 1) as usize
            } else {
                self.history
            },
            scroll_up: self.scroll_up,
        }
    }

    /// The screen with `cell` at column `x` of its last row.
    pub open spec fn with_last(self, x: int, cell: ScreenChar) -> ScreenView {
        ScreenView {
            bytes: self.bytes.update(
                VGA_HISTORY - 1,
                self.bytes[VGA_HISTORY - 1].update(x, cell),
            ),
            history: self.history,
            scroll_up: self.scroll_up,
        }
    }

    /// The screen with its view moved `scroll_up` rows into the history.
    pub open spec fn with_scroll(self, scroll_up: usize) -> ScreenView {
        ScreenView { bytes: self.bytes, history: self.history, scroll_up }
    }
}

impl Screen {
    /// The screen as values.
    pub open spec fn view(&self) -> ScreenView {
        ScreenView {
            bytes: Seq::new(VGA_HISTORY as nat, |y: int| self.bytes[y]@),
            history: self.history,
            scroll_up: self.scroll_up,
        }
    }

    /// An empty screen.
    pub fn new() -> (screen: Screen)
        ensures
            screen@.bytes == Seq::new(VGA_HISTORY as nat, |y: int| row_of(ScreenChar::empty())),
            screen.history == 0,
            screen.scroll_up == 0,
    {
        let screen = Screen {
            bytes: [[ScreenChar::empty(); VGA_WIDTH]; VGA_HISTORY],
            history: 0,
            scroll_up: 0,
        };
        proof {
            assert forall|y: int| 0 <= y < VGA_HISTORY implies #[trigger] screen.bytes[y]@ == row_of(
                ScreenChar::empty(),
            ) by {
                assert(screen.bytes[y]@ =~= row_of(ScreenChar::empty()));
            }
            assert(screen@.bytes =~= Seq::new(
                VGA_HISTORY as nat,
                |y: int| row_of(ScreenChar::empty()),
            ));
        }
        screen
    }
}

impl WriterView {
    /// The screen that is shown.
    pub open spec fn screen(self) -> ScreenView {
        self.screens[self.screen_idx as int]
    }

    /// The writer with `screen` in place of the screen that is shown.
    pub open spec fn with_screen(self, screen: ScreenView) -> WriterView {
        WriterView { screens: self.screens.update(self.screen_idx as int, screen), ..self }
    }

    /// Number of the cell for the cursor when the next character goes to
    /// column `col`: in the last row while the newest text is shown, below
    /// the display while the view is moved up.
    pub open spec fn cursor_cell(self, col: usize) -> usize {
        if self.screen().scroll_up == 0 {
            ((VGA_HEIGHT - 1) * VGA_WIDTH + col) as usize
        } else {
            ((VGA_HEIGHT + 1) * VGA_WIDTH) as usize
        }
    }

    /// The writer after the cursor is set to column `col`.
    pub open spec fn with_cursor(self, col: usize) -> WriterView {
        WriterView { column_position: col, cursor: self.cursor_cell(col), ..self }
    }

    /// The writer after the display is drawn anew.
    pub open spec fn redrawn(self) -> WriterView {
        WriterView {
            buffer: self.screen().shown(),
            cursor: self.cursor_cell(self.column_position),
            ..self
        }
    }

    /// The writer after a line feed.
    pub open spec fn line_fed(self) -> WriterView {
        WriterView { column_position: 0, ..self }.with_screen(
            self.screen().scrolled(blank(self.color_code)),
        ).redrawn()
    }

    /// The writer after `byte` is put at the column `self.column_position`,
    /// which lies on the display.
    pub open spec fn placed(self, byte: u8) -> WriterView {
        let cell = ScreenChar { ascii_character: byte, color_code: self.color_code };
        let col = self.column_position as int;
        WriterView {
            buffer: if self.screen().scroll_up == 0 {
                self.buffer.update(VGA_HEIGHT - 1, self.buffer[VGA_HEIGHT - 1].update(col, cell))
            } else {
                self.buffer
            },
            column_position: (col + 1) as usize,
            ..self
        }.with_screen(self.screen().with_last(col, cell))
    }

    /// The writer after `byte` is written: a line feed for the byte 10; for
    /// any other byte that byte at the cursor, on a new line where the
    /// line is full.
    pub open spec fn byte_written(self, byte: u8) -> WriterView {
        let moved = if byte == 10 {
            self.line_fed()
        } else if self.column_position >= VGA_WIDTH {
            self.line_fed().placed(byte)
        } else {
            self.placed(byte)
        };
        moved.with_cursor(moved.column_position)
    }

    /// The writer after `byte` is written `repeat` times.
    pub open spec fn bytes_written(self, byte: u8, repeat: nat) -> WriterView
        decreases repeat,
    {
        if repeat == 0 {
            self
        } else {
            self.byte_written(byte).bytes_written(byte, (repeat - 1) as nat)
        }
    }

    /// The byte that stands on the screen for the byte `byte` of a text:
    /// the byte itself where it is printable or a line feed, a block
    /// otherwise.
    pub open spec fn printable(byte: u8) -> u8 {
        if (0x20 <= byte <= 0x7e) || byte == 10 {
            byte
        } else {
            0xfe
        }
    }

    /// The writer after the bytes of `text` are written.
    pub open spec fn text_written(self, text: Seq<u8>) -> WriterView
        decreases text.len(),
    {
        if text.len() == 0 {
            self
        } else {
            self.byte_written(Self::printable(text[0])).text_written(text.skip(1))
        }
    }

    /// The writer after the view is set to `scroll_up` rows into the
    /// history and the display is drawn anew.
    pub open spec fn scrolled_to(self, scroll_up: usize) -> WriterView {
        self.with_screen(self.screen().with_scroll(scroll_up)).redrawn()
    }

    /// The dimensions are right, the shown screen exists, no screen has
    /// more rows of history or a view further up than there are hidden
    /// rows, and the cursor's cell number fits the machine word.
    pub open spec fn well_formed(self) -> bool {
        &&& self.buffer.len() == VGA_HEIGHT
        &&& forall|y: int| 0 <= y < VGA_HEIGHT ==> (#[trigger] self.buffer[y]).len() == VGA_WIDTH
        &&& self.screens.len() == VGA_SCREENS
        &&& forall|i: int|
            0 <= i < VGA_SCREENS ==> {
                &&& (#[trigger] self.screens[i]).bytes.len() == VGA_HISTORY
                &&& self.screens[i].scroll_up <= VGA_HIDDEN_LINES
                &&& self.screens[i].history <= VGA_HIDDEN_LINES
                &&& forall|y: int|
                    0 <= y < VGA_HISTORY ==> (#[trigger] self.screens[i].bytes[y]).len()
                        == VGA_WIDTH
            }
        &&& self.screen_idx < VGA_SCREENS
        &&& VGA_HEIGHT * VGA_WIDTH + self.column_position < usize::MAX
    }
}


impl Writer {
    /// The writer as values.
    pub open spec fn view(&self) -> WriterView {
        WriterView {
            column_position: self.column_position,
            color_code: self.color_code,
            buffer: Seq::new(VGA_HEIGHT as nat, |y: int| self.buffer[y]@),
            cursor: self.cursor,
            screen_idx: self.screen_idx,
            screens: Seq::new(VGA_SCREENS as nat, |i: int| self.screens[i]@),
        }
    }

    /// See `WriterView::well_formed`.
    pub open spec fn well_formed(&self) -> bool {
        self@.well_formed()
    }

    /// A writer with four empty screens, of which the first is shown, that
    /// writes white on black.
    pub fn new() -> (writer: Writer)
        ensures
            writer.well_formed(),
            writer.column_position == 0,
            writer.cursor == 0,
            writer.screen_idx == 0,
            writer.color_code == ColorCode::new(Color::White, Color::Black),
            writer@.buffer == Seq::new(VGA_HEIGHT as nat, |y: int| row_of(ScreenChar::empty())),
            forall|i: int|
                0 <= i < VGA_SCREENS ==> {
                    &&& (#[trigger] writer@.screens[i]).bytes == Seq::new(
                        VGA_HISTORY as nat,
                        |y: int| row_of(ScreenChar::empty()),
                    )
                    &&& writer@.screens[i].history == 0
                    &&& writer@.screens[i].scroll_up == 0
                },
    {
        let writer = Writer {
            column_position: 0,
            color_code: ColorCode::new(Color::White, Color::Black),
            buffer: [[ScreenChar::empty(); VGA_WIDTH]; VGA_HEIGHT],
            cursor: 0,
            screen_idx: 0,
            screens: [Screen::new(), Screen::new(), Screen::new(), Screen::new()],
        };
        proof {
            assert forall|y: int| 0 <= y < VGA_HEIGHT implies #[trigger] writer.buffer[y]@
                == row_of(ScreenChar::empty()) by {
                assert(writer.buffer[y]@ =~= row_of(ScreenChar::empty()));
            }
            assert(writer@.buffer =~= Seq::new(
                VGA_HEIGHT as nat,
                |y: int| row_of(ScreenChar::empty()),
            ));
        }
        writer
    }

    /// Sets the column of the next character and moves the cursor there.
    pub fn set_cursor(&mut self, col: usize)
        requires
            old(self).well_formed(),
            VGA_HEIGHT * VGA_WIDTH + col < usize::MAX,
        ensures
            final(self)@ == old(self)@.with_cursor(col),
            final(self).well_formed(),
    {
        self.column_position = col;
        if self.screens[self.screen_idx].scroll_up == 0 {
            self.cursor = (VGA_HEIGHT - 1) * VGA_WIDTH + self.column_position;
        } else {
            self.cursor = (VGA_HEIGHT + 1) * VGA_WIDTH;
        }
        proof {
            assert(final(self)@ =~~= old(self)@.with_cursor(col));
        }
    }

    /// Draws the display anew from the screen that is shown.
    pub fn redraw(&mut self)
        requires
            old(self).well_formed(),
        ensures
            final(self)@ == old(self)@.redrawn(),
            final(self).well_formed(),
    {
        let scroll_up = self.screens[self.screen_idx].scroll_up;
        self.set_cursor(self.column_position);
        let ghost moved = self@;
        for y in 0..VGA_HEIGHT
            invariant
                self.well_formed(),
                scroll_up == self.screens[self.screen_idx as int].scroll_up,
                scroll_up <= VGA_HIDDEN_LINES,
                self@.column_position == moved.column_position,
                self@.color_code == moved.color_code,
                self@.cursor == moved.cursor,
                self@.screen_idx == moved.screen_idx,
                self@.screens == moved.screens,
                forall|r: int| 0 <= r < y ==> #[trigger] self@.buffer[r] == moved.screen().shown()[r],
        {
            let ghost prior = self@;
            self.buffer[y] = self.screens[self.screen_idx].bytes[y + VGA_HIDDEN_LINES - scroll_up];
            proof {
                assert(self@.screens =~~= moved.screens);
                assert forall|r: int| 0 <= r < y + 1 implies #[trigger] self@.buffer[r]
                    == moved.screen().shown()[r] by {
                    if r < y {
                        assert(self@.buffer[r] == prior.buffer[r]);
                    }
                }
            }
        }
        proof {
            assert(self@.buffer =~= moved.screen().shown());
            assert(final(self)@ =~~= old(self)@.redrawn());
        }
    }

    /// Starts a new line: the text of the shown screen moves up by one row.
    pub fn new_line(&mut self)
        requires
            old(self).well_formed(),
        ensures
            final(self)@ == old(self)@.line_fed(),
            final(self).well_formed(),
    {
        let ghost start = self@;
        let ghost before = start.screen();
        for y in 0..(VGA_HISTORY - 1)
            invariant
                self.well_formed(),
                start.well_formed(),
                before == start.screen(),
                self@.column_position == start.column_position,
                self@.color_code == start.color_code,
                self@.cursor == start.cursor,
                self@.screen_idx == start.screen_idx,
                self@.buffer == start.buffer,
                self@.screen().history == before.history,
                self@.screen().scroll_up == before.scroll_up,
                forall|i: int|
                    0 <= i < VGA_SCREENS && i != start.screen_idx ==> #[trigger] self@.screens[i]
                        == start.screens[i],
                forall|r: int| 0 <= r < y ==> #[trigger] self@.screen().bytes[r] == before.bytes[r + 1],
                forall|r: int|
                    y <= r < VGA_HISTORY ==> #[trigger] self@.screen().bytes[r] == before.bytes[r],
        {
            let ghost prior = self@;
            self.screens[self.screen_idx].bytes[y] = self.screens[self.screen_idx].bytes[y + 1];
            proof {
                assert(self@.buffer =~~= start.buffer);
                assert forall|i: int|
                    0 <= i < VGA_SCREENS && i != start.screen_idx implies #[trigger] self@.screens[i]
                    == start.screens[i] by {
                    assert(self@.screens[i] =~~= prior.screens[i]);
                }
                assert forall|r: int| 0 <= r < y + 1 implies #[trigger] self@.screen().bytes[r]
                    == before.bytes[r + 1] by {
                    if r < y {
                        assert(prior.screen().bytes[r] == before.bytes[r + 1]);
                    } else {
                        assert(prior.screen().bytes[y + 1] == before.bytes[y + 1]);
                    }
                }
                assert forall|r: int| y + 1 <= r < VGA_HISTORY implies #[trigger] self@.screen().bytes[r]
                    == before.bytes[r] by {
                    assert(prior.screen().bytes[r] == before.bytes[r]);
                }
            }
        }
        let blank = ScreenChar { ascii_character: 0x20, color_code: self.color_code };
        let ghost prior = self@;
        self.screens[self.screen_idx].bytes[VGA_HISTORY - 1] = [blank; VGA_WIDTH];
        if self.screens[self.screen_idx].history < VGA_HIDDEN_LINES {
            self.screens[self.screen_idx].history += 1;
        }
        self.column_position = 0;
        proof {
            let target = WriterView { column_position: 0, ..start }.with_screen(
                before.scrolled(blank),
            );
            assert(self@.buffer =~~= start.buffer);
            assert(self@.screen().bytes[VGA_HISTORY - 1] =~= row_of(blank));
            assert forall|r: int| 0 <= r < VGA_HISTORY implies #[trigger] self@.screen().bytes[r]
                == before.scrolled(blank).bytes[r] by {
                if r < VGA_HISTORY - 1 {
                    assert(prior.screen().bytes[r] == before.bytes[r + 1]);
                }
            }
            assert(self@.screen().bytes =~= before.scrolled(blank).bytes);
            assert forall|i: int| 0 <= i < VGA_SCREENS implies #[trigger] self@.screens[i]
                == target.screens[i] by {
                if i != start.screen_idx {
                    assert(self@.screens[i] =~~= prior.screens[i]);
                }
            }
            assert(self@.screens =~= target.screens);
            assert(self@ == target);
        }
        self.redraw();
    }

    /// Writes `byte` at the cursor; the byte 10 starts a new line.
    pub fn write_byte(&mut self, byte: u8)
        requires
            old(self).well_formed(),
        ensures
            final(self)@ == old(self)@.byte_written(byte),
            final(self).well_formed(),
    {
        if byte == 10 {
            self.new_line();
        } else {
            if self.column_position >= VGA_WIDTH {
                self.new_line();
            }
            let ghost ready = self@;
            let sc = ScreenChar { ascii_character: byte, color_code: self.color_code };
            if self.screens[self.screen_idx].scroll_up == 0 {
                self.buffer[VGA_HEIGHT - 1][self.column_position] = sc;
            }
            self.screens[self.screen_idx].bytes[VGA_HISTORY - 1][self.column_position] = sc;
            self.column_position += 1;
            proof {
                assert(self@ =~~= ready.placed(byte));
            }
        }
        self.set_cursor(self.column_position);
    }

    /// Writes `byte` `repeat` times.
    pub fn write_bytes(&mut self, byte: u8, repeat: usize)
        requires
            old(self).well_formed(),
        ensures
            final(self)@ == old(self)@.bytes_written(byte, repeat as nat),
            final(self).well_formed(),
    {
        let ghost start = self@;
        for n in 0..repeat
            invariant
                self.well_formed(),
                self@.bytes_written(byte, (repeat - n) as nat) == start.bytes_written(
                    byte,
                    repeat as nat,
                ),
        {
            self.write_byte(byte);
        }
    }

    /// Writes the bytes of `s`, a block for each byte that is neither
    /// printable nor a line feed.
    pub fn write_str(&mut self, s: &str)
        requires
            old(self).well_formed(),
        ensures
            final(self)@ == old(self)@.text_written(s.spec_bytes()),
            final(self).well_formed(),
    {
        let ghost start = self@;
        let bytes = s.as_bytes();
        let mut n: usize = 0;
        proof {
            assert(bytes@.skip(0) =~= bytes@);
        }
        while n < bytes.len()
            invariant
                n <= bytes.len(),
                bytes@ == s.spec_bytes(),
                self.well_formed(),
                self@.text_written(bytes@.skip(n as int)) == start.text_written(bytes@),
            decreases bytes.len() - n,
        {
            let byte = bytes[n];
            proof {
                assert(bytes@.skip(n as int).skip(1) =~= bytes@.skip(n + 1));
                assert(bytes@.skip(n as int)[0] == byte);
            }
            if (0x20 <= byte && byte <= 0x7e) || byte == 10 {
                self.write_byte(byte);
            } else {
                self.write_byte(0xfe);
            }
            n += 1;
        }
        proof {
            assert(bytes@.skip(n as int).len() == 0);
        }
    }

    /// Makes the next characters come out in `foreground_code` on black.
    pub fn set_foreground_color(&mut self, foreground_code: Color)
        ensures
            *final(self) == (Writer {
                color_code: ColorCode::new(foreground_code, Color::Black),
                ..*old(self)
            }),
    {
        self.color_code = ColorCode::new(foreground_code, Color::Black);
    }

    /// Makes the next characters come out white on black.
    pub fn reset_foreground_color(&mut self)
        ensures
            *final(self) == (Writer {
                color_code: ColorCode::new(Color::White, Color::Black),
                ..*old(self)
            }),
    {
        self.set_foreground_color(Color::White);
    }

    /// Shows the screen `screen_idx` with the cursor at column `cursor`.
    /// Nothing happens where that screen is shown already or does not
    /// exist, or where the column lies beyond the line.
    pub fn switch_screen(&mut self, screen_idx: usize, cursor: usize)
        requires
            old(self).well_formed(),
        ensures
            final(self).well_formed(),
            final(self)@ == if screen_idx != old(self).screen_idx && screen_idx < VGA_SCREENS
                && cursor < VGA_WIDTH {
                (WriterView { screen_idx, ..old(self)@ }).with_cursor(cursor).redrawn()
            } else {
                old(self)@
            },
    {
        if screen_idx != self.screen_idx && screen_idx < VGA_SCREENS && cursor < VGA_WIDTH {
            self.screen_idx = screen_idx;
            proof {
                assert(self@ =~~= (WriterView { screen_idx, ..old(self)@ }));
            }
            self.set_cursor(cursor);
            self.redraw();
        }
    }

    /// Fills the display with spaces, black on black. The screens keep
    /// their text.
    pub fn clear_vga_buffer(&mut self)
        requires
            old(self).well_formed(),
        ensures
            final(self).well_formed(),
            final(self)@ == (WriterView {
                buffer: Seq::new(VGA_HEIGHT as nat, |y: int| row_of(ScreenChar::empty())),
                ..old(self)@
            }),
    {
        let blank = ScreenChar::empty();
        for y in 0..VGA_HEIGHT
            invariant
                self.well_formed(),
                blank == ScreenChar::empty(),
                self@.column_position == old(self)@.column_position,
                self@.color_code == old(self)@.color_code,
                self@.cursor == old(self)@.cursor,
                self@.screen_idx == old(self)@.screen_idx,
                self@.screens == old(self)@.screens,
                forall|r: int| 0 <= r < y ==> #[trigger] self@.buffer[r] == row_of(blank),
        {
            let ghost prior = self@;
            self.buffer[y] = [blank; VGA_WIDTH];
            proof {
                assert(self@.screens =~~= old(self)@.screens);
                assert(self.buffer[y as int]@ =~= row_of(blank));
                assert forall|r: int| 0 <= r < y + 1 implies #[trigger] self@.buffer[r] == row_of(
                    blank,
                ) by {
                    if r < y {
                        assert(self@.buffer[r] == prior.buffer[r]);
                    }
                }
            }
        }
        proof {
            assert(self@.buffer =~= Seq::new(
                VGA_HEIGHT as nat,
                |y: int| row_of(ScreenChar::empty()),
            ));
        }
    }

    /// Moves the view one row up into the history, if there is history
    /// left above it.
    pub fn move_up(&mut self)
        requires
            old(self).well_formed(),
        ensures
            final(self).well_formed(),
            final(self)@ == if old(self)@.screen().scroll_up < old(self)@.screen().history {
                old(self)@.scrolled_to((old(self)@.screen().scroll_up + 1) as usize)
            } else {
                old(self)@
            },
    {
        if self.screens[self.screen_idx].scroll_up < self.screens[self.screen_idx].history {
            self.screens[self.screen_idx].scroll_up += 1;
            proof {
                assert(self@ =~~= old(self)@.with_screen(
                    old(self)@.screen().with_scroll((old(self)@.screen().scroll_up + 1) as usize),
                ));
            }
            self.redraw();
        }
    }

    /// Moves the view one row down towards the newest text.
    pub fn move_down(&mut self)
        requires
            old(self).well_formed(),
        ensures
            final(self).well_formed(),
            final(self)@ == if old(self)@.screen().scroll_up > 0 {
                old(self)@.scrolled_to((old(self)@.screen().scroll_up - 1) as usize)
            } else {
                old(self)@
            },
    {
        if self.screens[self.screen_idx].scroll_up > 0 {
            self.screens[self.screen_idx].scroll_up -= 1;
            proof {
                assert(self@ =~~= old(self)@.with_screen(
                    old(self)@.screen().with_scroll((old(self)@.screen().scroll_up - 1) as usize),
                ));
            }
            self.redraw();
        }
    }

    /// Moves the view up to the oldest text.
    pub fn move_all_the_way_up(&mut self)
        requires
            old(self).well_formed(),
        ensures
            final(self).well_formed(),
            final(self)@ == if old(self)@.screen().scroll_up < old(self)@.screen().history {
                old(self)@.scrolled_to(old(self)@.screen().history)
            } else {
                old(self)@
            },
    {
        if self.screens[self.screen_idx].scroll_up < self.screens[self.screen_idx].history {
            self.screens[self.screen_idx].scroll_up = self.screens[self.screen_idx].history;
            proof {
                assert(self@ =~~= old(self)@.with_screen(
                    old(self)@.screen().with_scroll(old(self)@.screen().history),
                ));
            }
            self.redraw();
        }
    }

    /// Moves the view down to the newest text.
    pub fn move_all_the_way_down(&mut self)
        requires
            old(self).well_formed(),
        ensures
            final(self).well_formed(),
            final(self)@ == if old(self)@.screen().scroll_up > 0 {
                old(self)@.scrolled_to(0)
            } else {
                old(self)@
            },
    {
        if self.screens[self.screen_idx].scroll_up > 0 {
            self.screens[self.screen_idx].scroll_up = 0;
            proof {
                assert(self@ =~~= old(self)@.with_screen(old(self)@.screen().with_scroll(0)));
            }
            self.redraw();
        }
    }

    /// Forgets that the shown screen has history.
    pub fn reset_history(&mut self)
        requires
            old(self).well_formed(),
        ensures
            final(self).well_formed(),
            final(self)@ == old(self)@.with_screen(
                ScreenView { history: 0, ..old(self)@.screen() },
            ),
    {
        self.screens[self.screen_idx].history = 0;
        proof {
            assert(final(self)@ =~~= old(self)@.with_screen(
                ScreenView { history: 0, ..old(self)@.screen() },
            ));
        }
    }
}

} // verus!
