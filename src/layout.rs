use vstd::prelude::*;

verus! {

/// The three fixed regions of the screen.
#[derive(Clone, Copy, Debug, PartialEq, Eq, Structural)]
pub enum WindowType {
    Header,
    Text,
    Footer,
}

/// A grid position: column `x`, row `y`.
#[derive(Clone, Copy, Debug, PartialEq, Eq, Structural)]
pub struct Point {
    pub x: u32,
    pub y: u32,
}

/// A named rectangle of the grid, from `top_left` to `bottom_right`.
pub struct Window {
    pub name: String,
    pub top_left: Point,
    pub bottom_right: Point,
}

impl Window {
    pub fn new(name: String, top_left: Point, bottom_right: Point) -> (r: Window)
        ensures
            r.name == name,
            r.top_left == top_left,
            r.bottom_right == bottom_right,
    {
        Window { name, top_left, bottom_right }
    }
}

/// First row of band `k` (0 header, 1 text, 2 footer) on a screen `h` rows high.
pub open spec fn band_top(h: int, k: int) -> int {
    if k == 0 {
        0
    } else if k == 1 {
        1
    } else {
        h - 1
    }
}

/// Last row of band `k` on a screen `h` rows high.
pub open spec fn band_bottom(h: int, k: int) -> int {
    if k == 0 {
        0
    } else if k == 1 {
        h - 2
    } else {
        h - 1
    }
}

/// The window layout for a terminal of `size.0` columns and `size.1` rows.
pub struct Render {
    pub windows: Vec<Window>,
    pub size: Point,
}

impl Render {
    /// The layout is the three bands, each as wide as the screen.
    pub open spec fn matches_size(&self) -> bool {
        &&& self.windows@.len() == 3
        &&& self.size.y >= 3
        &&& forall|k: int|
            0 <= k < 3 ==> {
                &&& (#[trigger] self.windows@[k]).top_left.x == 0
                &&& self.windows@[k].bottom_right.x == self.size.x
                &&& self.windows@[k].top_left.y == band_top(self.size.y as int, k)
                &&& self.windows@[k].bottom_right.y == band_bottom(self.size.y as int, k)
            }
    }

    /// Header on row 0, text on rows 1 to `h - 2`, footer on row `h - 1`.
    pub fn new(size: (u16, u16)) -> (r: Render)
        requires
            size.1 >= 3,
        ensures
            r.matches_size(),
            r.size == (Point { x: size.0 as u32, y: size.1 as u32 }),
            r.windows@[0].name@ == seq!['H', 'e', 'a', 'd', 'e', 'r'],
            r.windows@[1].name@ == seq!['T', 'e', 'x', 't'],
            r.windows@[2].name@ == seq!['F', 'o', 'o', 't', 'e', 'r'],
    {
        let w = size.0 as u32;
        let h = size.1 as u32;
        proof {
            reveal_strlit("Header");
            reveal_strlit("Text");
            reveal_strlit("Footer");
        }
        let windows = vec![
            Window::new(String::from_str("Header"), Point { x: 0, y: 0 }, Point { x: w, y: 0 }),
            Window::new(String::from_str("Text"), Point { x: 0, y: 1 }, Point { x: w, y: h - 2 }),
            Window::new(String::from_str("Footer"), Point { x: 0, y: h - 1 }, Point { x: w, y: h - 1 }),
        ];
        let r = Render { windows, size: Point { x: w, y: h } };
        assert forall|k: int| 0 <= k < 3 implies {
            &&& (#[trigger] r.windows@[k]).top_left.x == 0
            &&& r.windows@[k].bottom_right.x == r.size.x
            &&& r.windows@[k].top_left.y == band_top(r.size.y as int, k)
            &&& r.windows@[k].bottom_right.y == band_bottom(r.size.y as int, k)
        } by {
            if k == 0 {
            } else if k == 1 {
            } else {
            }
        }
        r
    }

    /// The window of the given type.
    pub fn window(&self, wtype: WindowType) -> (r: &Window)
        requires
            self.matches_size(),
        ensures
            *r == self.windows@[band_index(wtype)],
    {
        match wtype {
            WindowType::Header => &self.windows[0],
            WindowType::Text => &self.windows[1],
            WindowType::Footer => &self.windows[2],
        }
    }
}

pub open spec fn band_index(wtype: WindowType) -> int {
    match wtype {
        WindowType::Header => 0,
        WindowType::Text => 1,
        WindowType::Footer => 2,
    }
}

/// For a terminal at least three rows high, the three bands are non-empty,
/// follow one another without gap, start at row 0 and end at row `h - 1`,
/// so every row of `[0, h)` lies in exactly one band.
pub proof fn lemma_bands_partition(h: int)
    requires
        h >= 3,
    ensures
        band_top(h, 0) == 0,
        band_bottom(h, 2) == h - 1,
        forall|k: int| 0 <= k < 3 ==> band_top(h, k) <= #[trigger] band_bottom(h, k),
        forall|k: int| 0 <= k < 2 ==> #[trigger] band_bottom(h, k) + 1 == band_top(h, k + 1),
        forall|row: int|
            0 <= row < h ==> 0 <= #[trigger] band_of(h, row) < 3 && band_top(h, band_of(h, row)) <= row
                <= band_bottom(h, band_of(h, row)),
        forall|row: int, k: int|
            #![trigger band_of(h, row), band_top(h, k)]
            0 <= row < h && 0 <= k < 3 && band_top(h, k) <= row <= band_bottom(h, k) ==> band_of(h, row) == k,
{
}

/// The band that holds `row`.
pub open spec fn band_of(h: int, row: int) -> int {
    if row == 0 {
        0
    } else if row < h - 1 {
        1
    } else {
        2
    }
}

} // verus!
