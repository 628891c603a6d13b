//! The text-mode screen writer: a 25-by-80 cell grid written at the
//! bottom row with scrolling, exactly as the memory-mapped text buffer
//! behaves, modelled on an owned grid so every write is verified.

use vstd::prelude::*;
use vstd::string::StringSliceAdditionalSpecFns;

verus! {

broadcast use vstd::string::group_string_axioms;

pub const BUFFER_HEIGHT: usize = 25;

pub const BUFFER_WIDTH: usize = 80;

/// The sixteen text-mode colours, in hardware order.
#[derive(Debug, Clone, Copy, PartialEq, Eq, Structural)]
pub enum Color {
    Black,
    Blue,
    Green,
    Cyan,
    Red,
    Magenta,
    Brown,
    LightGray,
    DarkGray,
    LightBlue,
    LightGreen,
    LightCyan,
    LightRed,
    Pink,
    Yellow,
    White,
}

/// The hardware number of a colour: its position in the palette.
pub open spec fn color_num(c: Color) -> u8 {
    match c {
        Color::Black => 0,
        Color::Blue => 1,
        Color::Green => 2,
        Color::Cyan => 3,
        Color::Red => 4,
        Color::Magenta => 5,
        Color::Brown => 6,
        Color::LightGray => 7,
        Color::DarkGray => 8,
        Color::LightBlue => 9,
        Color::LightGreen => 10,
        Color::LightCyan => 11,
        Color::LightRed => 12,
        Color::Pink => 13,
        Color::Yellow => 14,
        Color::White => 15,
    }
}

fn color_value(c: Color) -> (r: u8)
    ensures
        r == color_num(c),
{
    match c {
        Color::Black => 0,
        Color::Blue => 1,
        Color::Green => 2,
        Color::Cyan => 3,
        Color::Red => 4,
        Color::Magenta => 5,
        Color::Brown => 6,
        Color::LightGray => 7,
        Color::DarkGray => 8,
        Color::LightBlue => 9,
        Color::LightGreen => 10,
        Color::LightCyan => 11,
        Color::LightRed => 12,
        Color::Pink => 13,
        Color::Yellow => 14,
        Color::White => 15,
    }
}

/// A foreground and background pair packed into one attribute byte.
#[derive(Debug, Clone, Copy, PartialEq, Eq, Structural)]
pub struct ColorCode(pub u8);

impl ColorCode {
    pub fn new(foreground: Color, background: Color) -> (r: Self)
        ensures
            r.0 == (color_num(background) << 4u8) | color_num(foreground),
    {
        ColorCode((color_value(background) << 4u8) | color_value(foreground))
    }
}

/// One screen cell: a code-page byte and its colour attribute.
#[derive(Debug, Clone, Copy, PartialEq, Eq, Structural)]
pub struct ScreenChar {
    pub ascii_character: u8,
    pub color_code: ColorCode,
}

pub open spec fn blank_cell(color: ColorCode) -> ScreenChar {
    ScreenChar { ascii_character: 32, color_code: color }
}

pub open spec fn blank_row(color: ColorCode) -> Seq<ScreenChar> {
    Seq::new(BUFFER_WIDTH as nat, |i: int| blank_cell(color))
}

/// The screen as mathematics: the cursor column, the attribute in use,
/// and the grid of cells.
#[verifier::ext_equal]
pub ghost struct WView {
    pub col: nat,
    pub color: ColorCode,
    pub rows: Seq<Seq<ScreenChar>>,
}

/// The text writer: writes go to the bottom row; a full row or a
/// newline scrolls everything up one line.
pub struct Writer {
    column_position: usize,
    color_code: ColorCode,
    buffer: Vec<Vec<ScreenChar>>,
}

impl View for Writer {
    type V = WView;

    closed spec fn view(&self) -> WView {
        WView {
            col: self.column_position as nat,
            color: self.color_code,
            rows: Seq::new(self.buffer@.len(), |i: int| self.buffer@[i]@),
        }
    }
}

/// A well-shaped screen: the full grid, cursor within the row.
pub open spec fn wview_wf(w: WView) -> bool {
    &&& w.rows.len() == BUFFER_HEIGHT
    &&& forall|r: int| 0 <= r < w.rows.len() ==> (#[trigger] w.rows[r]).len() == BUFFER_WIDTH
    &&& w.col <= BUFFER_WIDTH
}

/// Scrolling: every row moves up one, the bottom row is blanked, the
/// cursor returns to the left edge.
pub open spec fn spec_new_line(w: WView) -> WView {
    WView {
        col: 0,
        rows: Seq::new(
            BUFFER_HEIGHT as nat,
            |r: int|
                if r < BUFFER_HEIGHT - 1 {
                    w.rows[r + 1]
                } else {
                    blank_row(w.color)
                },
        ),
        ..w
    }
}

/// One raw byte on the screen: a newline scrolls; anything else lands
/// at the cursor on the bottom row (scrolling first if the row is
/// full) and advances the cursor.
pub open spec fn spec_write_byte(w: WView, b: u8) -> WView {
    if b == 10 {
        spec_new_line(w)
    } else {
        let w1 = if w.col >= BUFFER_WIDTH {
            spec_new_line(w)
        } else {
            w
        };
        WView {
            col: w1.col + 1,
            rows: w1.rows.update(
                BUFFER_HEIGHT - 1,
                w1.rows[BUFFER_HEIGHT - 1].update(
                    w1.col as int,
                    ScreenChar { ascii_character: b, color_code: w1.color },
                ),
            ),
            ..w1
        }
    }
}

/// The code-page glyph for a byte: printable bytes and newlines pass,
/// everything else shows the block glyph.
pub open spec fn vga_glyph(b: u8) -> u8 {
    if (0x20 <= b && b <= 0x7e) || b == 10 {
        b
    } else {
        0xfe
    }
}

/// A whole byte string on the screen, glyph-mapped byte by byte.
pub open spec fn spec_write_bytes(w: WView, bs: Seq<u8>) -> WView
    decreases bs.len(),
{
    if bs.len() == 0 {
        w
    } else {
        spec_write_bytes(spec_write_byte(w, vga_glyph(bs[0])), bs.drop_first())
    }
}

/// The screen after clearing: all cells blank, cursor at the left.
pub open spec fn spec_cleared(w: WView) -> WView {
    WView {
        col: 0,
        rows: Seq::new(BUFFER_HEIGHT as nat, |r: int| blank_row(w.color)),
        ..w
    }
}

proof fn lemma_new_line_wf(w: WView)
    requires
        wview_wf(w),
    ensures
        wview_wf(spec_new_line(w)),
{
}

proof fn lemma_write_byte_wf(w: WView, b: u8)
    requires
        wview_wf(w),
    ensures
        wview_wf(spec_write_byte(w, b)),
{
    lemma_new_line_wf(w);
}

impl Writer {
    /// A fresh blank screen, light green on black.
    pub fn new() -> (r: Writer)
        ensures
            wview_wf(r@),
            r@ == spec_cleared(r@),
            r@.color == (ColorCode { 0: (color_num(Color::Black) << 4u8) | color_num(
                Color::LightGreen,
            ) }),
    {
        let color = ColorCode::new(Color::LightGreen, Color::Black);
        let blank = ScreenChar { ascii_character: 32, color_code: color };
        let row: Vec<ScreenChar> = vec![blank; BUFFER_WIDTH];
        let mut buffer: Vec<Vec<ScreenChar>> = Vec::new();
        let mut r: usize = 0;
        while r < BUFFER_HEIGHT
            invariant
                0 <= r <= BUFFER_HEIGHT,
                row@ == blank_row(color),
                buffer@.len() == r,
                forall|i: int| 0 <= i < r ==> (#[trigger] buffer@[i])@ == blank_row(color),
            decreases BUFFER_HEIGHT - r,
        {
            buffer.push(row.clone());
            proof {
                assert(buffer@[buffer@.len() - 1]@ =~= blank_row(color));
            }
            r += 1;
        }
        let w = Writer { column_position: 0, color_code: color, buffer };
        proof {
            assert(row@ =~= blank_row(color));
            assert(w@.rows =~= Seq::new(BUFFER_HEIGHT as nat, |i: int| blank_row(color)));
            assert(w@ =~= spec_cleared(w@));
        }
        w
    }

    /// The cursor column.
    pub fn column(&self) -> (r: usize)
        ensures
            r as nat == self@.col,
    {
        self.column_position
    }

    /// The cell at a given row and column.
    pub fn cell(&self, row: usize, col: usize) -> (r: ScreenChar)
        requires
            wview_wf(self@),
            row < BUFFER_HEIGHT,
            col < BUFFER_WIDTH,
        ensures
            r == self@.rows[row as int][col as int],
    {
        proof {
            assert(self@.rows.len() == self.buffer@.len());
            assert(self@.rows[row as int] == self.buffer@[row as int]@);
        }
        self.buffer[row][col]
    }

    fn new_line(&mut self)
        requires
            wview_wf(old(self)@),
        ensures
            wview_wf(final(self)@),
            final(self)@ == spec_new_line(old(self)@),
    {
        self.buffer.remove(0);
        let blank = ScreenChar { ascii_character: 32, color_code: self.color_code };
        let row: Vec<ScreenChar> = vec![blank; BUFFER_WIDTH];
        proof {
            assert(row@ =~= blank_row(self.color_code));
        }
        self.buffer.push(row);
        self.column_position = 0;
        proof {
            assert(final(self)@.rows =~= spec_new_line(old(self)@).rows);
            assert(final(self)@ =~= spec_new_line(old(self)@));
        }
    }

    fn clear_row(&mut self, row: usize)
        requires
            wview_wf(old(self)@),
            row < BUFFER_HEIGHT,
        ensures
            wview_wf(final(self)@),
            final(self)@ == (WView {
                rows: old(self)@.rows.update(row as int, blank_row(old(self)@.color)),
                ..old(self)@
            }),
    {
        let blank = ScreenChar { ascii_character: 32, color_code: self.color_code };
        let fresh: Vec<ScreenChar> = vec![blank; BUFFER_WIDTH];
        proof {
            assert(fresh@ =~= blank_row(self.color_code));
        }
        self.buffer[row] = fresh;
        proof {
            assert(final(self)@.rows =~= old(self)@.rows.update(
                row as int,
                blank_row(old(self)@.color),
            ));
            assert(final(self)@ =~= (WView {
                rows: old(self)@.rows.update(row as int, blank_row(old(self)@.color)),
                ..old(self)@
            }));
        }
    }

    /// Blank the whole screen and home the cursor.
    pub(crate) fn clear_screen_internal(&mut self)
        requires
            wview_wf(old(self)@),
        ensures
            wview_wf(final(self)@),
            final(self)@ == spec_cleared(old(self)@),
    {
        let mut r: usize = 0;
        while r < BUFFER_HEIGHT
            invariant
                0 <= r <= BUFFER_HEIGHT,
                wview_wf(self@),
                self@.color == old(self)@.color,
                self@.col == old(self)@.col,
                self@.rows.len() == BUFFER_HEIGHT,
                forall|i: int| 0 <= i < r ==> (#[trigger] self@.rows[i]) == blank_row(old(self)@.color),
                forall|i: int|
                    r <= i < BUFFER_HEIGHT ==> (#[trigger] self@.rows[i]) == old(self)@.rows[i],
            decreases BUFFER_HEIGHT - r,
        {
            self.clear_row(r);
            r += 1;
        }
        self.column_position = 0;
        proof {
            assert(final(self)@.rows =~= spec_cleared(old(self)@).rows);
            assert(final(self)@ =~= spec_cleared(old(self)@));
        }
    }

    fn write_byte(&mut self, byte: u8)
        requires
            wview_wf(old(self)@),
        ensures
            wview_wf(final(self)@),
            final(self)@ == spec_write_byte(old(self)@, byte),
    {
        if byte == 10 {
            self.new_line();
        } else {
            if self.column_position >= BUFFER_WIDTH {
                self.new_line();
            }
            let col = self.column_position;
            let cc = self.color_code;
            proof {
                assert(self@.rows.len() == self.buffer@.len());
                assert(self@.rows[BUFFER_HEIGHT - 1] == self.buffer@[BUFFER_HEIGHT - 1]@);
            }
            self.buffer[BUFFER_HEIGHT - 1][col] = ScreenChar {
                ascii_character: byte,
                color_code: cc,
            };
            self.column_position = col + 1;
            proof {
                assert(final(self)@.rows =~= spec_write_byte(old(self)@, byte).rows);
                assert(final(self)@ =~= spec_write_byte(old(self)@, byte));
            }
        }
    }

    /// Write a string: printable bytes and newlines as they are, any
    /// other byte as the block glyph.
    pub(crate) fn write_string(&mut self, text: &str)
        requires
            wview_wf(old(self)@),
        ensures
            wview_wf(final(self)@),
            final(self)@ == spec_write_bytes(old(self)@, text.spec_bytes()),
    {
        let bs = text.as_bytes();
        let n = bs.len();
        let mut i: usize = 0;
        while i < n
            invariant
                0 <= i <= n,
                n == bs@.len(),
                bs@ == text.spec_bytes(),
                wview_wf(self@),
                spec_write_bytes(self@, bs@.skip(i as int)) == spec_write_bytes(
                    old(self)@,
                    bs@.skip(0),
                ),
            decreases n - i,
        {
            let b = bs[i];
            let ghost pre = self@;
            if 0x20 <= b && b <= 0x7e || b == 10 {
                self.write_byte(b);
            } else {
                self.write_byte(0xfe);
            }
            proof {
                let rem = bs@.skip(i as int);
                assert(rem[0] == bs@[i as int]);
                assert(rem.drop_first() =~= bs@.skip(i + 1));
                assert(spec_write_bytes(pre, rem) == spec_write_bytes(
                    spec_write_byte(pre, vga_glyph(rem[0])),
                    rem.drop_first(),
                ));
            }
            i += 1;
        }
        proof {
            assert(bs@.skip(n as int).len() == 0);
            assert(bs@.skip(0) =~= bs@);
        }
    }
}

/// Prepare the screen for use: clear it.
pub fn init(w: &mut Writer)
    requires
        wview_wf(old(w)@),
    ensures
        wview_wf(final(w)@),
        final(w)@ == spec_cleared(old(w)@),
{
    clear_screen(w);
}

/// Blank the screen.
pub fn clear_screen(w: &mut Writer)
    requires
        wview_wf(old(w)@),
    ensures
        wview_wf(final(w)@),
        final(w)@ == spec_cleared(old(w)@),
{
    w.clear_screen_internal();
}

/// Show a string on the screen.
pub fn print(w: &mut Writer, text: &str)
    requires
        wview_wf(old(w)@),
    ensures
        wview_wf(final(w)@),
        final(w)@ == spec_write_bytes(old(w)@, text.spec_bytes()),
{
    w.write_string(text);
}

/// Show a string and end the line.
pub fn print_line(w: &mut Writer, text: &str)
    requires
        wview_wf(old(w)@),
    ensures
        wview_wf(final(w)@),
        final(w)@ == spec_write_bytes(
            spec_write_bytes(old(w)@, text.spec_bytes()),
            "\n".spec_bytes(),
        ),
{
    print(w, text);
    print(w, "\n");
}

} // verus!
