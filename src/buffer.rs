use vstd::prelude::*;

verus! {

/// A signed grid position: column `x`, row `y`.
#[derive(Clone, Copy, Debug, PartialEq, Eq, Structural)]
pub struct Coord {
    pub x: i32,
    pub y: i32,
}

/// `line` without one trailing carriage return.
pub open spec fn strip_cr(line: Seq<char>) -> Seq<char> {
    if line.len() > 0 && line.last() == '\r' {
        line.drop_last()
    } else {
        line
    }
}

/// Lines of `s` given that `cur` is the unfinished line before it: split
/// at `\n`, a `\r` before the `\n` dropped, and no empty line after a
/// final `\n`.
pub open spec fn split_from(s: Seq<char>, cur: Seq<char>) -> Seq<Seq<char>>
    decreases s.len(),
{
    if s.len() == 0 {
        if cur.len() == 0 {
            Seq::empty()
        } else {
            seq![cur]
        }
    } else if s[0] == '\n' {
        seq![strip_cr(cur)] + split_from(s.drop_first(), Seq::empty())
    } else {
        split_from(s.drop_first(), cur.push(s[0]))
    }
}

/// The lines of a text.
pub open spec fn lines_of(s: Seq<char>) -> Seq<Seq<char>> {
    split_from(s, Seq::empty())
}

/// Number of decimal digits of `n` (one for zero).
pub open spec fn digit_count(n: nat) -> nat
    decreases n,
{
    if n < 10 {
        1
    } else {
        1 + digit_count(n / 10)
    }
}

/// Splits a text into its lines.
pub fn split_lines(s: &str) -> (r: Vec<String>)
    ensures
        r@.map_values(|l: String| l@) == lines_of(s@),
{
    let n = s.unicode_len();
    let mut lines: Vec<String> = Vec::new();
    let mut start: usize = 0;
    let mut i: usize = 0;
    assert(s@.skip(0) =~= s@);
    assert(s@.subrange(0, 0) =~= Seq::<char>::empty());
    assert(lines@.map_values(|l: String| l@) =~= Seq::<Seq<char>>::empty());
    assert(lines@.map_values(|l: String| l@) + lines_of(s@) =~= lines_of(s@));
    while i < n
        invariant
            n == s@.len(),
            0 <= start <= i <= n,
            lines@.map_values(|l: String| l@) + split_from(s@.skip(i as int), s@.subrange(start as int, i as int))
                == lines_of(s@),
        decreases n - i,
    {
        let c = s.get_char(i);
        let ghost rest = s@.skip(i as int);
        let ghost cur = s@.subrange(start as int, i as int);
        assert(rest.drop_first() =~= s@.skip(i + 1));
        assert(rest[0] == c);
        if c == '\n' {
            let end = if i > start && s.get_char(i - 1) == '\r' {
                i - 1
            } else {
                i
            };
            let line = String::from_str(s.substring_char(start, end));
            assert(line@ =~= strip_cr(cur));
            let ghost before = lines@.map_values(|l: String| l@);
            lines.push(line);
            assert(lines@.map_values(|l: String| l@) =~= before.push(strip_cr(cur)));
            assert(s@.subrange(i + 1, i + 1) =~= Seq::<char>::empty());
            assert(before + split_from(rest, cur) =~= before.push(strip_cr(cur)) + split_from(
                s@.skip(i + 1),
                Seq::empty(),
            ));
            start = i + 1;
        } else {
            assert(cur.push(c) =~= s@.subrange(start as int, i + 1));
        }
        i = i + 1;
    }
    let ghost cur = s@.subrange(start as int, n as int);
    assert(s@.skip(n as int) =~= Seq::<char>::empty());
    if start < n {
        let ghost before = lines@.map_values(|l: String| l@);
        lines.push(String::from_str(s.substring_char(start, n)));
        assert(lines@.map_values(|l: String| l@) =~= before + seq![cur]);
    } else {
        assert(lines@.map_values(|l: String| l@) =~= lines@.map_values(|l: String| l@) + Seq::<Seq<char>>::empty());
    }
    lines
}

proof fn lemma_digit_count_bound(x: nat)
    ensures
        1 <= digit_count(x) <= if x == 0 { 1 } else { x },
    decreases x,
{
    if x >= 10 {
        lemma_digit_count_bound(x / 10);
    }
}

/// Number of decimal digits of `n`.
pub fn digit_len(n: usize) -> (r: usize)
    ensures
        r == digit_count(n as nat),
{
    let mut m = n;
    let mut count: usize = 1;
    proof {
        lemma_digit_count_bound(n as nat);
    }
    while m >= 10
        invariant
            digit_count(n as nat) == count - 1 + digit_count(m as nat),
            1 <= count,
            m <= n,
            digit_count(n as nat) <= if n == 0 { 1 } else { n as nat },
        decreases m,
    {
        proof {
            lemma_digit_count_bound(m as nat / 10);
        }
        m = m / 10;
        count = count + 1;
    }
    count
}

/// A run of `k` spaces.
fn spaces(k: usize) -> (r: String)
    ensures
        r@ == Seq::new(k as nat, |i: int| ' '),
{
    let mut r = String::new();
    let mut i: usize = 0;
    while i < k
        invariant
            0 <= i <= k,
            r@ == Seq::new(i as nat, |j: int| ' '),
        decreases k - i,
    {
        proof {
            reveal_strlit(" ");
        }
        r.append(" ");
        assert(r@ =~= Seq::new((i + 1) as nat, |j: int| ' '));
        i = i + 1;
    }
    r
}

/// A document shown in a text window between two corners.
pub struct Buffer {
    corners: (Coord, Coord),
    max_index_length: usize,
    clear_line: String,
    lines: Vec<String>,
}

impl Buffer {
    pub closed spec fn corner_points(&self) -> (Coord, Coord) {
        self.corners
    }

    /// Width of the widest line number.
    pub closed spec fn index_width(&self) -> nat {
        self.max_index_length as nat
    }

    pub closed spec fn clear_text(&self) -> Seq<char> {
        self.clear_line@
    }

    pub closed spec fn text_lines(&self) -> Seq<Seq<char>> {
        self.lines@.map_values(|l: String| l@)
    }

    /// The document with text `content` between `corners`: its lines, the
    /// digit count of their number, and a blank run as long as the window
    /// is high.
    pub fn new(content: &str, corners: (Coord, Coord)) -> (r: Buffer)
        requires
            corners.0.y <= corners.1.y,
        ensures
            r.corner_points() == corners,
            r.text_lines() == lines_of(content@),
            r.index_width() == digit_count(lines_of(content@).len()),
            r.clear_text() == Seq::new((corners.1.y - corners.0.y) as nat, |i: int| ' '),
    {
        let lines = split_lines(content);
        let max_index_length = digit_len(lines.len());
        let clear_line = spaces((corners.1.y as i64 - corners.0.y as i64) as usize);
        Buffer { corners, max_index_length, clear_line, lines }
    }

    pub fn corners(&self) -> (r: (Coord, Coord))
        ensures
            r == self.corner_points(),
    {
        self.corners
    }

    pub fn lines(&self) -> (r: &Vec<String>)
        ensures
            r@.map_values(|l: String| l@) == self.text_lines(),
    {
        &self.lines
    }

    pub fn max_index_length(&self) -> (r: usize)
        ensures
            r == self.index_width(),
    {
        self.max_index_length
    }

    pub fn clear_line(&self) -> (r: &String)
        ensures
            r@ == self.clear_text(),
    {
        &self.clear_line
    }

    /// Moves the bottom-right corner for a screen of `w` columns and `h` rows.
    pub fn resize(&mut self, w: u16, h: u16)
        ensures
            final(self).corner_points() == (old(self).corner_points().0, Coord { x: w as i32, y: (h as i32 - 2) as i32 }),
            final(self).text_lines() == old(self).text_lines(),
            final(self).index_width() == old(self).index_width(),
            final(self).clear_text() == old(self).clear_text(),
    {
        self.corners.1 = Coord { x: w as i32, y: h as i32 - 2 };
    }
}

} // verus!
