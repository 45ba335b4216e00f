use vstd::prelude::*;

verus! {

/// A cell coordinate: `x` is the column, `y` the row.
#[derive(Debug, Clone, Copy, PartialEq, Eq, Structural)]
pub struct Position {
    pub x: usize,
    pub y: usize,
}

/// Rows of a grid, each row a sequence of cells.
pub type Rows = Seq<Seq<char>>;

/// Length of the longest row (0 for no rows).
pub open spec fn max_row_len(g: Rows) -> nat
    decreases g.len(),
{
    if g.len() == 0 {
        0
    } else {
        let m = max_row_len(g.drop_last());
        if g.last().len() > m {
            g.last().len()
        } else {
            m
        }
    }
}

/// A cell blocks movement when it lies outside its row, outside the grid,
/// or holds `#`.
pub open spec fn cell_is_wall(g: Rows, x: int, y: int) -> bool {
    !(0 <= y < g.len()) || !(0 <= x < g[y].len()) || g[y][x] == '#'
}

/// The character of a cell, a space for any cell off the grid.
pub open spec fn cell_char(g: Rows, x: int, y: int) -> char {
    if 0 <= y < g.len() && 0 <= x < g[y].len() {
        g[y][x]
    } else {
        ' '
    }
}

/// Every row is no longer than the grid's width.
pub proof fn lemma_row_within_width(g: Rows, y: int)
    requires
        0 <= y < g.len(),
    ensures
        g[y].len() <= max_row_len(g),
    decreases g.len(),
{
    if y < g.len() - 1 {
        lemma_row_within_width(g.drop_last(), y);
    }
}

/// Relies on `String::push`: appends one character.
#[verifier::external_body]
pub(crate) fn push_char(s: &mut String, c: char)
    ensures
        final(s)@ == old(s)@.push(c),
{
    s.push(c)
}

/// A level as loaded: its layout rows, marker positions, training list and
/// par values. Time is counted in milliseconds.
#[derive(Debug, Clone)]
pub struct Level {
    pub id: String,
    pub name: String,
    pub description: String,
    pub layout: Vec<String>,
    pub start_pos: Position,
    pub target_pos: Position,
    pub allowed_keys: Vec<String>,
    pub trained_commands: Vec<String>,
    pub tutorial_text: String,
    pub par_time_ms: u64,
    pub par_keystrokes: u32,
}

impl Level {
    /// The layout as rows of characters.
    pub open spec fn rows(&self) -> Rows {
        self.layout@.map_values(|s: String| s@)
    }

    /// Length in characters of the longest row.
    pub fn width(&self) -> (r: usize)
        ensures
            r == max_row_len(self.rows()),
    {
        let mut w: usize = 0;
        let mut i: usize = 0;
        while i < self.layout.len()
            invariant
                i <= self.layout@.len(),
                w == max_row_len(self.rows().take(i as int)),
            decreases self.layout@.len() - i,
        {
            let n = self.layout[i].as_str().unicode_len();
            proof {
                assert(self.rows().take(i + 1).drop_last() =~= self.rows().take(i as int));
            }
            if n > w {
                w = n;
            }
            i = i + 1;
        }
        proof {
            assert(self.rows().take(i as int) =~= self.rows());
        }
        w
    }

    /// Number of rows.
    pub fn height(&self) -> (r: usize)
        ensures
            r == self.rows().len(),
    {
        self.layout.len()
    }

    /// Whether the cell at (x, y) blocks movement.
    pub fn is_wall(&self, x: usize, y: usize) -> (r: bool)
        ensures
            r == cell_is_wall(self.rows(), x as int, y as int),
    {
        if y >= self.layout.len() {
            return true;
        }
        let row = self.layout[y].as_str();
        if x >= row.unicode_len() {
            return true;
        }
        row.get_char(x) == '#'
    }

    /// The layout as a grid of characters.
    pub fn grid(&self) -> (g: Vec<Vec<char>>)
        ensures
            g.deep_view() == self.rows(),
    {
        let mut g: Vec<Vec<char>> = Vec::new();
        let mut i: usize = 0;
        while i < self.layout.len()
            invariant
                i <= self.layout@.len(),
                g.deep_view() =~= self.rows().take(i as int),
            decreases self.layout@.len() - i,
        {
            let row = self.layout[i].as_str();
            let n = row.unicode_len();
            let mut cells: Vec<char> = Vec::new();
            let mut j: usize = 0;
            while j < n
                invariant
                    j <= n,
                    n == row@.len(),
                    cells@ =~= row@.take(j as int),
                decreases n - j,
            {
                cells.push(row.get_char(j));
                j = j + 1;
            }
            proof {
                assert(cells@ =~= row@);
                assert(cells.deep_view() =~= cells@);
            }
            let ghost prev = g.deep_view();
            g.push(cells);
            proof {
                assert(g.deep_view() =~= prev.push(row@));
                assert(self.rows().take(i + 1) =~= self.rows().take(i as int).push(row@));
            }
            i = i + 1;
        }
        g
    }
}

} // verus!
