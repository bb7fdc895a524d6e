use vstd::prelude::*;
use crate::keys::{Binding, BindingError, KeyCode, KeyController, Mode, Modifiers, mode_text};
use crate::layout::{band_index, Point, Render, Window, WindowType};
use crate::text::{decimal, decimal_string, graphemes_of, split_graphemes};

verus! {

/// Terminal colors that cells can carry.
#[derive(Clone, Copy, Debug, PartialEq, Eq, Structural)]
pub enum Color {
    Reset,
    Red,
    Magenta,
    Yellow,
    Blue,
    White,
    Black,
}

/// The color that a character of a color code string names, if any.
pub open spec fn code_color(c: char) -> Option<Color> {
    if c == '0' {
        Some(Color::Reset)
    } else if c == 'a' {
        Some(Color::Red)
    } else if c == 'b' {
        Some(Color::Magenta)
    } else if c == 'c' {
        Some(Color::Yellow)
    } else if c == 'd' {
        Some(Color::Blue)
    } else if c == 'e' {
        Some(Color::White)
    } else if c == 'f' {
        Some(Color::Black)
    } else {
        None
    }
}

pub fn color_of(c: char) -> (r: Option<Color>)
    ensures
        r == code_color(c),
{
    match c {
        '0' => Some(Color::Reset),
        'a' => Some(Color::Red),
        'b' => Some(Color::Magenta),
        'c' => Some(Color::Yellow),
        'd' => Some(Color::Blue),
        'e' => Some(Color::White),
        'f' => Some(Color::Black),
        _ => None,
    }
}

/// One terminal cell: a grapheme cluster and its colors.
pub struct Sign {
    pub glyph: String,
    pub fg_color: Color,
    pub bg_color: Color,
}

impl Sign {
    /// A white-on-default cell holding `glyph`.
    pub fn new(glyph: String) -> (r: Sign)
        ensures
            r.glyph == glyph,
            r.fg_color == Color::White,
            r.bg_color == Color::Reset,
    {
        Sign { glyph, fg_color: Color::White, bg_color: Color::Reset }
    }
}

/// Color at column `p` after a code string counted from the left.
pub open spec fn left_paint(code: Seq<char>, p: int, c: Color) -> Color {
    if 0 <= p < code.len() && code_color(code[p]) is Some {
        code_color(code[p])->Some_0
    } else {
        c
    }
}

/// Color at column `p` of a line of `len` cells after a code string
/// counted from the right end: its last character is at column `len - 1`.
pub open spec fn right_paint(code: Seq<char>, len: int, p: int, c: Color) -> Color {
    let k = p - (len - code.len());
    if 0 <= p < len && 0 <= k < code.len() && code_color(code[k]) is Some {
        code_color(code[k])->Some_0
    } else {
        c
    }
}

/// The colors of a line after the four code strings: foreground and
/// background from the left, then foreground and background from the right.
pub open spec fn painted(before: Seq<Sign>, after: Seq<Sign>, codes: Seq<Seq<char>>) -> bool {
    &&& after.len() == before.len()
    &&& forall|p: int|
        0 <= p < after.len() ==> {
            &&& (#[trigger] after[p]).glyph == before[p].glyph
            &&& after[p].fg_color == right_paint(
                codes[2],
                after.len() as int,
                p,
                left_paint(codes[0], p, before[p].fg_color),
            )
            &&& after[p].bg_color == right_paint(
                codes[3],
                after.len() as int,
                p,
                left_paint(codes[1], p, before[p].bg_color),
            )
        }
}

spec fn target_pos(from_right: bool, len: int, n: int, k: int) -> int {
    if from_right {
        len - (n - k)
    } else {
        k
    }
}

/// Applies one code string, from the left (`from_right` false) or from the
/// right, to the foreground (`fg`) or background colors.
fn paint_pass(v: &mut Vec<Sign>, code: &str, from_right: bool, fg: bool)
    ensures
        final(v)@.len() == old(v)@.len(),
        forall|p: int|
            0 <= p < final(v)@.len() ==> {
                let o = old(v)@[p];
                let n = #[trigger] final(v)@[p];
                let len = old(v)@.len() as int;
                &&& n.glyph == o.glyph
                &&& n.fg_color == if fg {
                    if from_right {
                        right_paint(code@, len, p, o.fg_color)
                    } else {
                        left_paint(code@, p, o.fg_color)
                    }
                } else {
                    o.fg_color
                }
                &&& n.bg_color == if !fg {
                    if from_right {
                        right_paint(code@, len, p, o.bg_color)
                    } else {
                        left_paint(code@, p, o.bg_color)
                    }
                } else {
                    o.bg_color
                }
            },
{
    let n = code.unicode_len();
    let len = v.len();
    let ghost len_i = len as int;
    let mut k: usize = 0;
    while k < n
        invariant
            n == code@.len(),
            len == v@.len(),
            len == old(v)@.len(),
            len_i == len,
            0 <= k <= n,
            forall|p: int|
                0 <= p < len ==> {
                    let o = old(v)@[p];
                    let c = #[trigger] v@[p];
                    let idx = if from_right {
                        p - (len_i - n as int)
                    } else {
                        p
                    };
                    let done = 0 <= idx < k;
                    &&& c.glyph == o.glyph
                    &&& c.fg_color == if fg && done {
                        if from_right {
                            right_paint(code@, len_i, p, o.fg_color)
                        } else {
                            left_paint(code@, p, o.fg_color)
                        }
                    } else {
                        o.fg_color
                    }
                    &&& c.bg_color == if !fg && done {
                        if from_right {
                            right_paint(code@, len_i, p, o.bg_color)
                        } else {
                            left_paint(code@, p, o.bg_color)
                        }
                    } else {
                        o.bg_color
                    }
                },
        decreases n - k,
    {
        let ch = code.get_char(k);
        let ghost before = v@;
        let target: Option<usize> = if from_right {
            if n - k <= len {
                Some(len - (n - k))
            } else {
                None
            }
        } else if k < len {
            Some(k)
        } else {
            None
        };
        match target {
            Some(p) => {
                if let Some(color) = color_of(ch) {
                    if fg {
                        v[p].fg_color = color;
                    } else {
                        v[p].bg_color = color;
                    }
                }
                assert(code@[k as int] == ch);
            },
            None => {},
        }
        proof {
            assert forall|q: int| 0 <= q < len && q != target_pos(from_right, len_i, n as int, k as int) implies v@[q] == before[q] by {}
            let tp = target_pos(from_right, len_i, n as int, k as int);
            if 0 <= tp < len {
                assert(code@[k as int] == ch);
                if from_right {
                    assert(tp - (len_i - n as int) == k);
                }
            }
        }
        k = k + 1;
    }
}

/// Colors a line by the four code strings of `codes`: foreground and
/// background counted from the left, then foreground and background counted
/// from the right end. A character outside the color alphabet, or a column
/// past the line, leaves the color as it was.
pub fn color_line(v: &mut Vec<Sign>, codes: [&str; 4])
    ensures
        painted(old(v)@, final(v)@, codes@.map_values(|s: &str| s@)),
{
    paint_pass(v, codes[0], false, true);
    paint_pass(v, codes[1], false, false);
    paint_pass(v, codes[2], true, true);
    paint_pass(v, codes[3], true, false);
}

/// Footer decoration: foreground and background counted from the left,
/// then foreground and background counted from the right.
pub const FOOTER_FG_LEFT: &'static str = "bffffffffbbbbbbbbbbf";

pub const FOOTER_BG_LEFT: &'static str = "fbbbbbbbbffffffffff0";

pub const FOOTER_FG_RIGHT: &'static str = "faaaaaaaafffffa";

pub const FOOTER_BG_RIGHT: &'static str = "0ffffffffaaaaaf";

/// The footer text left of the fill: ` {mode}  {name} `.
pub open spec fn footer_left(mode: Mode, name: Seq<char>) -> Seq<char> {
    seq![' '] + mode_text(mode) + seq![' ', ' '] + name + seq![' ']
}

/// The footer text right of the fill: ` %lang  {row}:{col} `.
pub open spec fn footer_right(cursor: (u16, u16)) -> Seq<char> {
    seq![' ', '%', 'l', 'a', 'n', 'g', ' ', ' '] + decimal(cursor.1 as nat) + seq![':'] + decimal(
        cursor.0 as nat,
    ) + seq![' ']
}

/// The footer fits a line `width` cells wide.
pub open spec fn footer_fits(mode: Mode, name: Seq<char>, cursor: (u16, u16), width: int) -> bool {
    graphemes_of(footer_left(mode, name)).len() + graphemes_of(footer_right(cursor)).len() <= width
}

/// A line of `width` clusters: `l`, a run of spaces, `r`.
pub open spec fn fill_line(l: Seq<Seq<char>>, r: Seq<Seq<char>>, width: int) -> Seq<Seq<char>> {
    let fill = width - l.len() - r.len();
    l + Seq::new(fill as nat, |i: int| seq![' ']) + r
}

/// The footer's glyphs: the left text's clusters, a run of spaces, the
/// right text's clusters; the run is as long as the line has room for.
pub open spec fn footer_glyphs(mode: Mode, name: Seq<char>, cursor: (u16, u16), width: int) -> Seq<Seq<char>> {
    fill_line(graphemes_of(footer_left(mode, name)), graphemes_of(footer_right(cursor)), width)
}

/// `row` holds glyphs `g` in the colors of the footer decoration.
pub open spec fn is_decorated(row: Seq<Sign>, g: Seq<Seq<char>>) -> bool {
    &&& row.len() == g.len()
    &&& forall|p: int|
        0 <= p < row.len() ==> {
            &&& (#[trigger] row[p]).glyph@ == g[p]
            &&& row[p].fg_color == right_paint(
                FOOTER_FG_RIGHT@,
                row.len() as int,
                p,
                left_paint(FOOTER_FG_LEFT@, p, Color::White),
            )
            &&& row[p].bg_color == right_paint(
                FOOTER_BG_RIGHT@,
                row.len() as int,
                p,
                left_paint(FOOTER_BG_LEFT@, p, Color::Reset),
            )
        }
}

/// `row` is the colored footer line.
pub open spec fn is_footer(row: Seq<Sign>, mode: Mode, name: Seq<char>, cursor: (u16, u16), width: int) -> bool {
    is_decorated(row, footer_glyphs(mode, name, cursor, width))
}

/// The `%space` fill makes the line exactly `width` clusters long whenever
/// the fixed content fits, however wide the line is.
pub proof fn lemma_footer_fills_width(l: Seq<Seq<char>>, r: Seq<Seq<char>>, width: int)
    requires
        l.len() + r.len() <= width,
    ensures
        fill_line(l, r, width).len() == width,
        fill_line(l, r, width).subrange(0, l.len() as int) == l,
        fill_line(l, r, width).subrange(width - r.len(), width) == r,
{
    let g = fill_line(l, r, width);
    assert(g.subrange(0, l.len() as int) =~= l);
    assert(g.subrange(width - r.len(), width) =~= r);
}

/// Views of a list of strings.
pub open spec fn texts(v: Seq<String>) -> Seq<Seq<char>> {
    v.map_values(|s: String| s@)
}

/// The footer line from the clusters `left` and `right` of its two texts:
/// `left`, spaces up to `width` cells, `right`, in the colors of the footer
/// decoration. None when the two do not fit in `width` cells.
pub fn footer_line(left: &Vec<String>, right: &Vec<String>, width: usize) -> (r: Option<Vec<Sign>>)
    ensures
        r is Some <==> left@.len() + right@.len() <= width,
        r matches Some(row) ==> is_decorated(row@, fill_line(texts(left@), texts(right@), width as int)),
{
    if left.len() > width || right.len() > width - left.len() {
        return None;
    }
    let fill = width - left.len() - right.len();
    let ghost g = fill_line(texts(left@), texts(right@), width as int);
    let mut line: Vec<Sign> = Vec::new();
    let mut i: usize = 0;
    while i < left.len()
        invariant
            0 <= i <= left@.len(),
            left@.len() + right@.len() + fill == width,
            g == fill_line(texts(left@), texts(right@), width as int),
            line@.len() == i,
            forall|p: int|
                0 <= p < i ==> {
                    &&& (#[trigger] line@[p]).glyph@ == g[p]
                    &&& line@[p].fg_color == Color::White
                    &&& line@[p].bg_color == Color::Reset
                },
        decreases left@.len() - i,
    {
        line.push(Sign::new(left[i].clone()));
        i = i + 1;
    }
    let mut k: usize = 0;
    while k < fill
        invariant
            0 <= k <= fill,
            left@.len() + right@.len() + fill == width,
            g == fill_line(texts(left@), texts(right@), width as int),
            line@.len() == left@.len() + k,
            forall|p: int|
                0 <= p < line@.len() ==> {
                    &&& (#[trigger] line@[p]).glyph@ == g[p]
                    &&& line@[p].fg_color == Color::White
                    &&& line@[p].bg_color == Color::Reset
                },
        decreases fill - k,
    {
        proof {
            reveal_strlit(" ");
        }
        let sp = String::from_str(" ");
        assert(sp@ =~= seq![' ']);
        line.push(Sign::new(sp));
        k = k + 1;
    }
    let mut j: usize = 0;
    while j < right.len()
        invariant
            0 <= j <= right@.len(),
            left@.len() + right@.len() + fill == width,
            g == fill_line(texts(left@), texts(right@), width as int),
            line@.len() == left@.len() + fill + j,
            forall|p: int|
                0 <= p < line@.len() ==> {
                    &&& (#[trigger] line@[p]).glyph@ == g[p]
                    &&& line@[p].fg_color == Color::White
                    &&& line@[p].bg_color == Color::Reset
                },
        decreases right@.len() - j,
    {
        line.push(Sign::new(right[j].clone()));
        j = j + 1;
    }
    color_line(&mut line, [FOOTER_FG_LEFT, FOOTER_BG_LEFT, FOOTER_FG_RIGHT, FOOTER_BG_RIGHT]);
    proof {
        let codes = [FOOTER_FG_LEFT, FOOTER_BG_LEFT, FOOTER_FG_RIGHT, FOOTER_BG_RIGHT]@.map_values(|s: &str| s@);
        assert(codes[0] == FOOTER_FG_LEFT@);
        assert(codes[1] == FOOTER_BG_LEFT@);
        assert(codes[2] == FOOTER_FG_RIGHT@);
        assert(codes[3] == FOOTER_BG_RIGHT@);
    }
    Some(line)
}

/// `render_footer` on `a` leaves `b` and returns `r`.
pub open spec fn footer_rendered(a: App, b: App, r: Result<(), ScreenError>) -> bool {
    let fits = footer_fits(a.mode_shown(), a.doc_name(), a.cursor_pos(), a.width());
    &&& r is Ok <==> fits
    &&& !fits ==> b == a && r == Err::<(), ScreenError>(ScreenError::FooterTooNarrow { width: a.width() as usize })
    &&& fits ==> {
        &&& b.wf()
        &&& App::same_setup(a, b)
        &&& !b.footer_stale()
        &&& b.rows() == a.rows().update(a.footer_row(), b.rows()[a.footer_row()])
        &&& is_footer(b.rows()[a.footer_row()], a.mode_shown(), a.doc_name(), a.cursor_pos(), a.width())
        &&& b.dirty() == a.dirty().update(a.footer_row(), true)
    }
}

/// `b` is `a` after row `i` was replaced by `cells` and marked dirty.
pub open spec fn row_set(a: App, b: App, i: int, cells: Seq<Sign>) -> bool {
    &&& b.wf()
    &&& App::same_setup(a, b)
    &&& b.footer_stale() == a.footer_stale()
    &&& b.rows() == a.rows().update(i, cells)
    &&& b.dirty() == a.dirty().update(i, true)
}

/// Row `k` is due at the next pass: dirty, or the footer row while the
/// footer is due.
pub open spec fn was_dirty(a: App, k: int) -> bool {
    a.dirty()[k] || (a.footer_stale() && k == a.footer_row())
}

/// `rows` lists, in strictly ascending order, exactly the rows of `a`
/// that are due.
pub open spec fn lists_due_rows(a: App, rows: Seq<usize>) -> bool {
    &&& forall|x: int, y: int| 0 <= x < y < rows.len() ==> rows[x] < rows[y]
    &&& forall|x: int| 0 <= x < rows.len() ==> #[trigger] rows[x] < a.height() && was_dirty(a, rows[x] as int)
    &&& forall|k: int| 0 <= k < a.height() && was_dirty(a, k) ==> exists|x: int| 0 <= x < rows.len() && #[trigger] rows[x] == k
}

/// `b` is `a` with the footer rebuilt if it was due and no row dirty.
pub open spec fn after_pass(a: App, b: App) -> bool {
    &&& b.wf()
    &&& App::same_setup(a, b)
    &&& !b.footer_stale()
    &&& b.rows().len() == a.rows().len()
    &&& forall|k: int|
        0 <= k < a.height() && (k != a.footer_row() || !a.footer_stale()) ==> #[trigger] b.rows()[k]
            == a.rows()[k]
    &&& a.footer_stale() ==> is_footer(b.rows()[a.footer_row()], a.mode_shown(), a.doc_name(), a.cursor_pos(), a.width())
    &&& b.dirty().len() == a.height()
    &&& forall|k: int| 0 <= k < a.height() ==> !#[trigger] b.dirty()[k]
}

/// The pass `a.draw()` leaves `b` and returns `r`.
pub open spec fn drawn(a: App, b: App, r: Result<Frame, ScreenError>) -> bool {
    let fits = footer_fits(a.mode_shown(), a.doc_name(), a.cursor_pos(), a.width());
    &&& r is Err <==> (a.footer_stale() && !fits)
    &&& r is Err ==> b == a && r == Err::<Frame, ScreenError>(
        ScreenError::FooterTooNarrow { width: a.width() as usize },
    )
    &&& r matches Ok(f) ==> after_pass(a, b) && lists_due_rows(a, f.rows@) && f.cursor == a.cursor_pos()
}

/// A render pass after `set_row(i, cells)` succeeds unless a due footer
/// does not fit, lists row `i` exactly once, and a second pass with nothing
/// changed in between succeeds and lists no row at all: it only places the
/// cursor.
pub proof fn lemma_redraw_once(
    a0: App,
    cells: Seq<Sign>,
    i: int,
    a1: App,
    r1: Result<Frame, ScreenError>,
    a2: App,
    r2: Result<Frame, ScreenError>,
    a3: App,
)
    requires
        a0.wf(),
        0 <= i < a0.height(),
        row_set(a0, a1, i, cells),
        drawn(a1, a2, r1),
        drawn(a2, a3, r2),
    ensures
        r1 is Err <==> a1.footer_stale() && !footer_fits(a1.mode_shown(), a1.doc_name(), a1.cursor_pos(), a1.width()),
        r1 matches Ok(f1) ==> {
            &&& exists|x: int| 0 <= x < f1.rows@.len() && f1.rows@[x] == i
            &&& forall|x: int, y: int|
                0 <= x < f1.rows@.len() && 0 <= y < f1.rows@.len() && f1.rows@[x] == i && f1.rows@[y] == i ==> x == y
            &&& r2 matches Ok(f2) && f2.rows@.len() == 0 && f2.cursor == a1.cursor_pos()
        },
{
    if r1 is Ok {
        let f1 = r1->Ok_0;
        assert(was_dirty(a1, i));
        assert(r2 is Ok);
        let f2 = r2->Ok_0;
        if f2.rows@.len() > 0 {
            assert(was_dirty(a2, f2.rows@[0] as int));
        }
        assert forall|x: int, y: int|
            0 <= x < f1.rows@.len() && 0 <= y < f1.rows@.len() && f1.rows@[x] == i && f1.rows@[y] == i implies x == y by {
            if x < y {
                assert(f1.rows@[x] < f1.rows@[y]);
            } else if y < x {
                assert(f1.rows@[y] < f1.rows@[x]);
            }
        }
    }
}

/// A row of `width` spaces in default colors.
pub open spec fn is_blank(row: Seq<Sign>, width: int) -> bool {
    &&& row.len() == width
    &&& forall|p: int|
        0 <= p < width ==> {
            &&& (#[trigger] row[p]).glyph@ == seq![' ']
            &&& row[p].fg_color == Color::White
            &&& row[p].bg_color == Color::Reset
        }
}

fn blank_row(width: usize) -> (r: Vec<Sign>)
    ensures
        is_blank(r@, width as int),
{
    let mut r: Vec<Sign> = Vec::new();
    let mut i: usize = 0;
    while i < width
        invariant
            0 <= i <= width,
            is_blank(r@, i as int),
        decreases width - i,
    {
        proof {
            reveal_strlit(" ");
        }
        let g = String::from_str(" ");
        assert(g@ =~= seq![' ']);
        r.push(Sign::new(g));
        i = i + 1;
    }
    r
}

/// Why the screen cannot be set up or drawn.
#[derive(Clone, Copy, Debug, PartialEq, Eq, Structural)]
pub enum ScreenError {
    /// The binding table was refused.
    Bindings(BindingError),
    /// The terminal has fewer than three rows.
    TooSmall,
    /// The footer's fixed content is wider than the line.
    FooterTooNarrow { width: usize },
}

/// A screen region: a buffer's lines `start..end`, the header or the footer.
#[derive(Clone, Copy, Debug, PartialEq, Eq, Structural)]
pub enum UIE {
    Buffer(usize, usize, usize),
    Header,
    Footer,
}

/// What one render pass asks the terminal to do: rewrite each listed row
/// (in ascending order) from the grid, then move the cursor to `cursor`
/// (column, row) and flush.
pub struct Frame {
    pub rows: Vec<usize>,
    pub cursor: (u16, u16),
}

/// The screen state: the grid of cells, the dirty rows, the window layout,
/// the cursor, and the key dispatcher whose mode the footer shows.
pub struct App {
    cursor: (u16, u16),
    scroll: u16,
    buffer: Vec<Vec<Sign>>,
    keycontroller: KeyController,
    render: Render,
    update_lines: Vec<bool>,
    footer_stale: bool,
}

impl App {
    pub closed spec fn rows(&self) -> Seq<Seq<Sign>> {
        self.buffer@.map_values(|r: Vec<Sign>| r@)
    }

    pub closed spec fn dirty(&self) -> Seq<bool> {
        self.update_lines@
    }

    /// The footer no longer shows the mode, cursor or name.
    pub closed spec fn footer_stale(&self) -> bool {
        self.footer_stale
    }

    pub closed spec fn cursor_pos(&self) -> (u16, u16) {
        self.cursor
    }

    pub closed spec fn scroll(&self) -> u16 {
        self.scroll
    }

    pub open spec fn width(&self) -> int {
        self.layout().size.x as int
    }

    pub open spec fn height(&self) -> int {
        self.layout().size.y as int
    }

    /// The window layout.
    pub closed spec fn layout(&self) -> Render {
        self.render
    }

    /// Name of the document shown in the text window.
    pub open spec fn doc_name(&self) -> Seq<char> {
        self.layout().windows@[1].name@
    }

    pub closed spec fn keys(&self) -> KeyController {
        self.keycontroller
    }

    pub closed spec fn wf(&self) -> bool {
        &&& self.render.matches_size()
        &&& self.render.size.x <= u16::MAX
        &&& self.render.size.y <= u16::MAX
        &&& self.buffer@.len() == self.render.size.y
        &&& forall|i: int| 0 <= i < self.buffer@.len() ==> (#[trigger] self.buffer@[i])@.len() == self.render.size.x
        &&& self.update_lines@.len() == self.render.size.y
        &&& self.keycontroller.wf()
    }

    pub open spec fn mode_shown(&self) -> Mode {
        self.keys().current_mode()
    }

    /// Footer row of a screen `h` rows high.
    pub open spec fn footer_row(&self) -> int {
        self.height() - 1
    }

    /// `b` has the layout, cursor, name and dispatcher of `a`.
    pub open spec fn same_setup(a: App, b: App) -> bool {
        &&& b.width() == a.width()
        &&& b.height() == a.height()
        &&& b.cursor_pos() == a.cursor_pos()
        &&& b.scroll() == a.scroll()
        &&& b.doc_name() == a.doc_name()
        &&& b.keys() == a.keys()
        &&& b.layout() == a.layout()
        &&& b.rows().len() == a.rows().len()
    }

    /// A well-formed screen has one row of `width` cells and one dirty flag
    /// per terminal row, the three-band layout, and a valid dispatcher.
    pub proof fn lemma_wf_shape(a: App)
        requires
            a.wf(),
        ensures
            a.layout().matches_size(),
            a.width() <= u16::MAX,
            a.height() <= u16::MAX,
            a.rows().len() == a.height(),
            a.dirty().len() == a.height(),
            forall|i: int| 0 <= i < a.height() ==> (#[trigger] a.rows()[i]).len() == a.width(),
            a.keys().wf(),
    {
    }

    /// A fresh screen of `size` (columns, rows): blank, no row dirty, the
    /// footer due, cursor at the origin, dispatcher built from `keymap`.
    pub fn new(keymap: Vec<Binding>, size: (u16, u16)) -> (r: Result<App, ScreenError>)
        ensures
            r == Err::<App, ScreenError>(ScreenError::TooSmall) <==> size.1 < 3,
            size.1 >= 3 ==> (r is Err <==> !crate::keys::table_valid(keymap@)),
            r matches Err(ScreenError::Bindings(e)) ==> exists|i: int| crate::keys::error_at(keymap@, i, e),
            r matches Err(e) ==> e is TooSmall || e is Bindings,
            r matches Ok(a) ==> {
                &&& a.wf()
                &&& a.width() == size.0
                &&& a.height() == size.1
                &&& a.cursor_pos() == (0u16, 0u16)
                &&& a.scroll() == 0
                &&& a.footer_stale()
                &&& a.doc_name() == seq!['T', 'e', 'x', 't']
                &&& a.layout().matches_size()
                &&& a.layout().size == (Point { x: size.0 as u32, y: size.1 as u32 })
                &&& a.layout().windows@[0].name@ == seq!['H', 'e', 'a', 'd', 'e', 'r']
                &&& a.layout().windows@[2].name@ == seq!['F', 'o', 'o', 't', 'e', 'r']
                &&& a.rows().len() == size.1
                &&& crate::keys::built_from(a.keys(), keymap@)
                &&& a.dirty().len() == size.1
                &&& forall|i: int| 0 <= i < size.1 ==> !#[trigger] a.dirty()[i]
                &&& forall|i: int| 0 <= i < size.1 ==> is_blank(#[trigger] a.rows()[i], size.0 as int)
            },
    {
        if size.1 < 3 {
            return Err(ScreenError::TooSmall);
        }
        let keycontroller = match KeyController::new(keymap) {
            Ok(c) => c,
            Err(e) => {
                return Err(ScreenError::Bindings(e));
            },
        };
        let render = Render::new(size);
        let (buffer, update_lines) = Self::blank_grid(size.0 as usize, size.1 as usize, false);
        let a = App { cursor: (0, 0), scroll: 0, buffer, keycontroller, render, update_lines, footer_stale: true };
        assert(a.rows().len() == size.1);
        Ok(a)
    }

    /// Rebuilds the footer line into the footer row and marks it dirty:
    /// the mode, document name and cursor position with a run of spaces
    /// that fills the line, colored by the footer decoration. Fails, leaving
    /// the screen as it was, when the fixed content is wider than the line.
    pub fn render_footer(&mut self) -> (r: Result<(), ScreenError>)
        requires
            old(self).wf(),
        ensures
            footer_rendered(*old(self), *final(self), r),
    {
        let ghost a = *self;
        let mut left = String::from_str(" ");
        left.append(self.keycontroller.mode_name());
        left.append("  ");
        left.append(self.render.windows[1].name.as_str());
        left.append(" ");
        let mut right = String::from_str(" %lang  ");
        right.append(decimal_string(self.cursor.1 as u32).as_str());
        right.append(":");
        right.append(decimal_string(self.cursor.0 as u32).as_str());
        right.append(" ");
        proof {
            reveal_strlit(" ");
            reveal_strlit("  ");
            reveal_strlit(" %lang  ");
            reveal_strlit(":");
            assert(left@ =~= footer_left(a.mode_shown(), a.doc_name()));
            assert(right@ =~= footer_right(a.cursor_pos()));
        }
        let lg = split_graphemes(left.as_str());
        let rg = split_graphemes(right.as_str());
        assert(texts(lg@) =~= graphemes_of(left@));
        assert(texts(rg@) =~= graphemes_of(right@));
        let text = &self.render.windows[1];
        let width = (text.bottom_right.x - text.top_left.x) as usize;
        let line = match footer_line(&lg, &rg, width) {
            Some(line) => line,
            None => {
                return Err(ScreenError::FooterTooNarrow { width });
            },
        };
        let row = self.render.windows[2].top_left.y as usize;
        self.buffer[row] = line;
        self.update_lines[row] = true;
        self.footer_stale = false;
        proof {
            assert(self.rows() =~= a.rows().update(a.footer_row(), self.rows()[a.footer_row()]));
        }
        Ok(())
    }

    /// Replaces row `index` with `cells` and marks it dirty.
    pub fn set_row(&mut self, index: usize, cells: Vec<Sign>)
        requires
            old(self).wf(),
            index < old(self).height(),
            cells@.len() == old(self).width(),
        ensures
            row_set(*old(self), *final(self), index as int, cells@),
    {
        let ghost a = *self;
        self.buffer[index] = cells;
        self.update_lines[index] = true;
        proof {
            assert(self.rows() =~= a.rows().update(index as int, cells@));
        }
    }

    /// Moves the logical cursor to column `col`, row `row`.
    pub fn set_cursor(&mut self, col: u16, row: u16)
        requires
            old(self).wf(),
        ensures
            final(self).wf(),
            final(self).cursor_pos() == (col, row),
            final(self).footer_stale(),
            final(self).rows() == old(self).rows(),
            final(self).dirty() == old(self).dirty(),
            final(self).width() == old(self).width(),
            final(self).height() == old(self).height(),
            final(self).scroll() == old(self).scroll(),
            final(self).doc_name() == old(self).doc_name(),
            final(self).layout() == old(self).layout(),
            final(self).keys() == old(self).keys(),
    {
        self.cursor = (col, row);
        self.footer_stale = true;
    }

    /// Makes `m` the active mode; the footer is due.
    pub fn set_mode(&mut self, m: Mode)
        requires
            old(self).wf(),
        ensures
            final(self).wf(),
            final(self).mode_shown() == m,
            final(self).keys().branches() == old(self).keys().branches(),
            final(self).keys().pending().len() == 0,
            final(self).footer_stale(),
            final(self).rows() == old(self).rows(),
            final(self).dirty() == old(self).dirty(),
            final(self).width() == old(self).width(),
            final(self).height() == old(self).height(),
            final(self).cursor_pos() == old(self).cursor_pos(),
            final(self).scroll() == old(self).scroll(),
            final(self).doc_name() == old(self).doc_name(),
            final(self).layout() == old(self).layout(),
    {
        self.keycontroller.set_mode(m);
        self.footer_stale = true;
    }

    /// Names the document of the text window; the footer is due.
    pub fn set_document_name(&mut self, name: String)
        requires
            old(self).wf(),
        ensures
            final(self).wf(),
            final(self).doc_name() == name@,
            final(self).layout().size == old(self).layout().size,
            final(self).layout().windows@.len() == old(self).layout().windows@.len(),
            final(self).layout().windows@[0] == old(self).layout().windows@[0],
            final(self).layout().windows@[2] == old(self).layout().windows@[2],
            final(self).layout().windows@[1].top_left == old(self).layout().windows@[1].top_left,
            final(self).layout().windows@[1].bottom_right == old(self).layout().windows@[1].bottom_right,
            final(self).footer_stale(),
            final(self).rows() == old(self).rows(),
            final(self).dirty() == old(self).dirty(),
            final(self).width() == old(self).width(),
            final(self).height() == old(self).height(),
            final(self).cursor_pos() == old(self).cursor_pos(),
            final(self).scroll() == old(self).scroll(),
            final(self).keys() == old(self).keys(),
    {
        self.render.windows[1].name = name;
        self.footer_stale = true;
    }

    /// Feeds a key event to the dispatcher (see `KeyController::process`).
    pub fn process(&mut self, code: KeyCode, modifiers: Modifiers, now: u64) -> (r: Option<String>)
        requires
            old(self).wf(),
        ensures
            final(self).wf(),
            crate::keys::processed(
                old(self).keys(),
                final(self).keys(),
                crate::keys::KeyStroke { code, modifiers },
                now,
                r,
            ),
            final(self).footer_stale() == old(self).footer_stale(),
            final(self).rows() == old(self).rows(),
            final(self).dirty() == old(self).dirty(),
            final(self).width() == old(self).width(),
            final(self).height() == old(self).height(),
            final(self).cursor_pos() == old(self).cursor_pos(),
            final(self).scroll() == old(self).scroll(),
            final(self).doc_name() == old(self).doc_name(),
            final(self).layout() == old(self).layout(),
    {
        self.keycontroller.process(code, modifiers, now)
    }

    /// Redraws the region `wtype`: the footer is rebuilt (see
    /// `render_footer`); header and text hold no computed content.
    pub fn render(&mut self, wtype: WindowType) -> (r: Result<(), ScreenError>)
        requires
            old(self).wf(),
        ensures
            final(self).wf(),
            wtype != WindowType::Footer ==> r is Ok && *final(self) == *old(self),
            wtype == WindowType::Footer ==> footer_rendered(*old(self), *final(self), r),
    {
        match wtype {
            WindowType::Footer => self.render_footer(),
            _ => Ok(()),
        }
    }

    /// One render pass: rebuilds the footer if it is due, lists every dirty
    /// row once in ascending order, clears the dirty set, and ends with the
    /// cursor. Fails, changing nothing, when a due footer does not fit.
    pub fn draw(&mut self) -> (r: Result<Frame, ScreenError>)
        requires
            old(self).wf(),
        ensures
            drawn(*old(self), *final(self), r),
    {
        let ghost a = *self;
        if self.footer_stale {
            match self.render_footer() {
                Ok(()) => {},
                Err(e) => {
                    return Err(e);
                },
            }
        }
        let ghost mid = self.update_lines@;
        let ghost grid = self.buffer@;
        let n = self.update_lines.len();
        let mut rows: Vec<usize> = Vec::new();
        let mut i: usize = 0;
        while i < n
            invariant
                self.wf(),
                self.buffer@ == grid,
                a.footer_stale() ==> footer_fits(a.mode_shown(), a.doc_name(), a.cursor_pos(), a.width()),
                n == self.update_lines@.len(),
                mid.len() == n,
                0 <= i <= n,
                App::same_setup(a, *self),
                !self.footer_stale(),
                forall|k: int| 0 <= k < n ==> #[trigger] mid[k] == was_dirty(a, k),
                a.footer_stale() ==> is_footer(
                    self.rows()[a.footer_row()],
                    a.mode_shown(),
                    a.doc_name(),
                    a.cursor_pos(),
                    a.width(),
                ),
                forall|k: int| 0 <= k < n && (k != a.footer_row() || !a.footer_stale()) ==> #[trigger] self.rows()[k] == a.rows()[k],
                forall|k: int| 0 <= k < i ==> !#[trigger] self.update_lines@[k],
                forall|k: int| i <= k < n ==> #[trigger] self.update_lines@[k] == mid[k],
                forall|x: int, y: int| 0 <= x < y < rows@.len() ==> rows@[x] < rows@[y],
                forall|x: int| 0 <= x < rows@.len() ==> #[trigger] rows@[x] < i && mid[rows@[x] as int],
                forall|k: int| 0 <= k < i && mid[k] ==> exists|x: int| 0 <= x < rows@.len() && #[trigger] rows@[x] == k,
            decreases n - i,
        {
            let ghost old_rows = rows@;
            let ghost grid_rows = self.rows();
            if self.update_lines[i] {
                rows.push(i);
                self.update_lines[i] = false;
                assert(rows@[rows@.len() - 1] == i);
            }
            proof {
                assert(self.rows() == grid_rows);
                assert forall|k: int| 0 <= k < i + 1 && mid[k] implies exists|x: int|
                    0 <= x < rows@.len() && #[trigger] rows@[x] == k by {
                    if k < i {
                        let x = choose|x: int| 0 <= x < old_rows.len() && #[trigger] old_rows[x] == k;
                        assert(rows@[x] == k);
                    } else {
                        assert(rows@[rows@.len() - 1] == k);
                    }
                }
            }
            i = i + 1;
        }
        let f = Frame { rows, cursor: self.cursor };
        proof {
            assert forall|k: int| 0 <= k < a.height() && was_dirty(a, k) implies exists|x: int|
                0 <= x < f.rows@.len() && #[trigger] f.rows@[x] == k by {
                assert(mid[k]);
                let x = choose|x: int| 0 <= x < rows@.len() && #[trigger] rows@[x] == k;
                assert(f.rows@[x] == k);
            }
            assert(after_pass(a, *self));
            assert(lists_due_rows(a, f.rows@));
            assert(drawn(a, *self, Ok::<Frame, ScreenError>(f)));
        }
        Ok(f)
    }

    /// The part of the document on screen: text lines `scroll + 1` up to
    /// `scroll + height - 1` of the first buffer.
    pub fn all_buffer(&self) -> (r: UIE)
        requires
            self.wf(),
        ensures
            r == UIE::Buffer(
                0,
                (self.scroll() + 1) as usize,
                (self.scroll() + self.height() - 1) as usize,
            ),
    {
        let s = self.scroll as usize;
        let h = self.render.size.y as usize;
        UIE::Buffer(0, s + 1, s + h - 1)
    }

    /// Sets the screen to `w` columns and `h` rows: a blank grid, the layout
    /// for the new size (the document name is kept), every row dirty and the
    /// footer due. Fails, changing nothing, for fewer than three rows.
    pub fn resize(&mut self, w: u16, h: u16) -> (r: Result<(), ScreenError>)
        requires
            old(self).wf(),
        ensures
            r is Err <==> h < 3,
            r is Err ==> *final(self) == *old(self) && r == Err::<(), ScreenError>(ScreenError::TooSmall),
            r is Ok ==> {
                &&& final(self).wf()
                &&& final(self).width() == w
                &&& final(self).height() == h
                &&& final(self).layout().matches_size()
                &&& final(self).layout().size == (Point { x: w as u32, y: h as u32 })
                &&& final(self).layout().windows@[0].name@ == seq!['H', 'e', 'a', 'd', 'e', 'r']
                &&& final(self).layout().windows@[2].name@ == seq!['F', 'o', 'o', 't', 'e', 'r']
                &&& final(self).rows().len() == h
                &&& final(self).dirty().len() == h
                &&& final(self).footer_stale()
                &&& final(self).cursor_pos() == old(self).cursor_pos()
                &&& final(self).scroll() == old(self).scroll()
                &&& final(self).doc_name() == old(self).doc_name()
                &&& final(self).keys() == old(self).keys()
                &&& forall|i: int| 0 <= i < h ==> #[trigger] final(self).dirty()[i]
                &&& forall|i: int| 0 <= i < h ==> is_blank(#[trigger] final(self).rows()[i], w as int)
            },
    {
        if h < 3 {
            return Err(ScreenError::TooSmall);
        }
        let mut render = Render::new((w, h));
        let name = self.render.windows[1].name.clone();
        render.windows[1].name = name;
        let (buffer, update_lines) = Self::blank_grid(w as usize, h as usize, true);
        self.render = render;
        self.buffer = buffer;
        self.update_lines = update_lines;
        self.footer_stale = true;
        Ok(())
    }

    /// The cells of row `i`.
    pub fn row(&self, i: usize) -> (r: &Vec<Sign>)
        requires
            self.wf(),
            i < self.height(),
        ensures
            r@ == self.rows()[i as int],
    {
        &self.buffer[i]
    }

    /// Columns and rows of the screen.
    pub fn size(&self) -> (r: (u16, u16))
        requires
            self.wf(),
        ensures
            r.0 == self.width(),
            r.1 == self.height(),
    {
        (self.render.size.x as u16, self.render.size.y as u16)
    }

    pub fn mode(&self) -> (r: Mode)
        ensures
            r == self.mode_shown(),
    {
        self.keycontroller.mode()
    }

    /// The logical cursor: column, row.
    pub fn cursor(&self) -> (r: (u16, u16))
        ensures
            r == self.cursor_pos(),
    {
        self.cursor
    }

    /// The layout's window of the given type.
    pub fn window(&self, wtype: WindowType) -> (r: &Window)
        requires
            self.wf(),
        ensures
            *r == self.layout().windows@[band_index(wtype)],
    {
        self.render.window(wtype)
    }

    /// The rows that the next pass will list, footer aside, in ascending order.
    pub fn dirty_rows(&self) -> (r: Vec<usize>)
        requires
            self.wf(),
        ensures
            forall|x: int, y: int| 0 <= x < y < r@.len() ==> r@[x] < r@[y],
            forall|x: int| 0 <= x < r@.len() ==> #[trigger] r@[x] < self.height() && self.dirty()[r@[x] as int],
            forall|k: int| 0 <= k < self.height() && self.dirty()[k] ==> exists|x: int| 0 <= x < r@.len() && #[trigger] r@[x] == k,
    {
        let mut r: Vec<usize> = Vec::new();
        let mut i: usize = 0;
        while i < self.update_lines.len()
            invariant
                self.wf(),
                0 <= i <= self.update_lines@.len(),
                forall|x: int, y: int| 0 <= x < y < r@.len() ==> r@[x] < r@[y],
                forall|x: int| 0 <= x < r@.len() ==> #[trigger] r@[x] < i && self.dirty()[r@[x] as int],
                forall|k: int| 0 <= k < i && self.dirty()[k] ==> exists|x: int| 0 <= x < r@.len() && #[trigger] r@[x] == k,
            decreases self.update_lines@.len() - i,
        {
            let ghost old_r = r@;
            if self.update_lines[i] {
                r.push(i);
                assert(r@[r@.len() - 1] == i);
            }
            proof {
                assert forall|k: int| 0 <= k < i + 1 && self.dirty()[k] implies exists|x: int|
                    0 <= x < r@.len() && #[trigger] r@[x] == k by {
                    if k < i {
                        let x = choose|x: int| 0 <= x < old_r.len() && #[trigger] old_r[x] == k;
                        assert(r@[x] == k);
                    } else {
                        assert(r@[r@.len() - 1] == k);
                    }
                }
            }
            i = i + 1;
        }
        r
    }

    fn blank_grid(width: usize, height: usize, dirty_all: bool) -> (r: (Vec<Vec<Sign>>, Vec<bool>))
        ensures
            r.0@.len() == height,
            r.1@.len() == height,
            forall|i: int| 0 <= i < height ==> is_blank((#[trigger] r.0@[i])@, width as int),
            forall|i: int| 0 <= i < height ==> #[trigger] r.1@[i] == dirty_all,
    {
        let mut grid: Vec<Vec<Sign>> = Vec::new();
        let mut dirty: Vec<bool> = Vec::new();
        let mut i: usize = 0;
        while i < height
            invariant
                0 <= i <= height,
                grid@.len() == i,
                dirty@.len() == i,
                forall|k: int| 0 <= k < i ==> is_blank((#[trigger] grid@[k])@, width as int),
                forall|k: int| 0 <= k < i ==> #[trigger] dirty@[k] == dirty_all,
            decreases height - i,
        {
            grid.push(blank_row(width));
            dirty.push(dirty_all);
            i = i + 1;
        }
        (grid, dirty)
    }
}

} // verus!
