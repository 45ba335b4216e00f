use vstd::prelude::*;
use crate::input::VimCommand;
use crate::level::{Position, Rows, max_row_len, cell_is_wall, cell_char, lemma_row_within_width};

verus! {

/// Whether a character is alphanumeric, as `char::is_alphanumeric` decides
/// (alphabetic or numeric in Unicode's sense).
pub uninterp spec fn alnum(c: char) -> bool;

/// Relies on `char::is_alphanumeric`: whether `c` is alphabetic or numeric.
#[verifier::external_body]
fn is_alphanumeric(c: char) -> (r: bool)
    ensures
        r == alnum(c),
{
    c.is_alphanumeric()
}

/// One flag per cell of a grid: whether the cell is alphanumeric.
pub type Marks = Seq<Seq<bool>>;

/// The alphanumeric flags of a grid's cells.
pub open spec fn letters(g: Rows) -> Marks {
    g.map_values(|row: Seq<char>| row.map_values(|c: char| alnum(c)))
}

/// The flag at (x, y); false off the flags.
pub open spec fn letter_at(an: Marks, x: int, y: int) -> bool {
    0 <= y < an.len() && 0 <= x < an[y].len() && an[y][x]
}

/// A word cell: flagged alphanumeric, or holding `_`.
pub open spec fn word_cell(g: Rows, an: Marks, x: int, y: int) -> bool {
    letter_at(an, x, y) || cell_char(g, x, y) == '_'
}

/// Flags each cell of `g` that is alphanumeric.
pub fn letter_cells(g: &Vec<Vec<char>>) -> (r: Vec<Vec<bool>>)
    ensures
        r.deep_view() == letters(g.deep_view()),
{
    let ghost gv = g.deep_view();
    let mut r: Vec<Vec<bool>> = Vec::new();
    let mut y: usize = 0;
    while y < g.len()
        invariant
            gv == g.deep_view(),
            y <= gv.len(),
            r.deep_view() =~= letters(gv).take(y as int),
        decreases gv.len() - y,
    {
        let row = &g[y];
        let mut flags: Vec<bool> = Vec::new();
        let mut x: usize = 0;
        while x < row.len()
            invariant
                gv == g.deep_view(),
                y < gv.len(),
                row@ == gv[y as int],
                x <= row@.len(),
                flags@ =~= letters(gv)[y as int].take(x as int),
            decreases row@.len() - x,
        {
            flags.push(is_alphanumeric(row[x]));
            x = x + 1;
        }
        proof {
            assert(flags@ =~= letters(gv)[y as int]);
            assert(flags.deep_view() =~= flags@);
        }
        let ghost prev = r.deep_view();
        r.push(flags);
        proof {
            assert(r.deep_view() =~= prev.push(letters(gv)[y as int]));
            assert(letters(gv).take(y + 1) =~= letters(gv).take(y as int).push(letters(gv)[y as int]));
        }
        y = y + 1;
    }
    proof {
        assert(letters(gv).take(y as int) =~= letters(gv));
    }
    r
}

/// The flag at (x, y); false off the flags.
pub fn letter_cell(an: &Vec<Vec<bool>>, x: usize, y: usize) -> (r: bool)
    ensures
        r == letter_at(an.deep_view(), x as int, y as int),
{
    if y >= an.len() || x >= an[y].len() {
        return false;
    }
    an[y][x]
}

/// Whether (x, y) is a word cell.
pub fn word_cell_at(g: &Vec<Vec<char>>, an: &Vec<Vec<bool>>, x: usize, y: usize) -> (r: bool)
    ensures
        r == word_cell(g.deep_view(), an.deep_view(), x as int, y as int),
{
    letter_cell(an, x, y) || get_char_at(g, x, y) == '_'
}

/// The grid's width: the length of its longest row.
pub open spec fn width_of(g: Rows) -> int {
    max_row_len(g) as int
}

/// The cell lies inside `[0, width) x [0, height)`.
pub open spec fn in_bounds(g: Rows, p: Position) -> bool {
    p.x < width_of(g) && p.y < g.len()
}

/// Where a motion leaves the cursor, and whether the landing cell is then
/// checked for a hazard.
#[derive(Debug, Clone, Copy, PartialEq, Eq, Structural)]
pub struct Landing {
    pub pos: Position,
    pub checked: bool,
}

/// The cursor stays where it is; nothing is checked.
pub open spec fn stay(p: Position) -> Landing {
    Landing { pos: p, checked: false }
}

/// The cursor lands on `(x, y)` and the cell is checked.
pub open spec fn land(x: int, y: int) -> Landing {
    Landing { pos: Position { x: x as usize, y: y as usize }, checked: true }
}

/// Width of an executable grid.
pub fn grid_width(g: &Vec<Vec<char>>) -> (r: usize)
    ensures
        r == width_of(g.deep_view()),
{
    let mut w: usize = 0;
    let mut i: usize = 0;
    while i < g.len()
        invariant
            i <= g@.len(),
            w == max_row_len(g.deep_view().take(i as int)),
        decreases g@.len() - i,
    {
        proof {
            assert(g.deep_view().take(i + 1).drop_last() =~= g.deep_view().take(i as int));
        }
        if g[i].len() > w {
            w = g[i].len();
        }
        i = i + 1;
    }
    proof {
        assert(g.deep_view().take(i as int) =~= g.deep_view());
    }
    w
}

/// Whether the cell at (x, y) blocks movement.
pub fn wall_at(g: &Vec<Vec<char>>, x: usize, y: usize) -> (r: bool)
    ensures
        r == cell_is_wall(g.deep_view(), x as int, y as int),
{
    if y >= g.len() {
        return true;
    }
    if x >= g[y].len() {
        return true;
    }
    g[y][x] == '#'
}

/// The character at (x, y), a space off the grid.
pub fn get_char_at(g: &Vec<Vec<char>>, x: usize, y: usize) -> (r: char)
    ensures
        r == cell_char(g.deep_view(), x as int, y as int),
{
    if y >= g.len() {
        return ' ';
    }
    if x >= g[y].len() {
        return ' ';
    }
    g[y][x]
}

// ---------------------------------------------------------------------
// Directional moves

/// One step by (dx, dy): taken only onto a cell that is not a wall.
pub open spec fn move_player_spec(g: Rows, p: Position, dx: int, dy: int) -> Landing {
    let nx = p.x + dx;
    let ny = p.y + dy;
    if nx >= 0 && ny >= 0 && !cell_is_wall(g, nx, ny) {
        land(nx, ny)
    } else {
        stay(p)
    }
}

/// Moves one cell left, right, up or down (`dx`, `dy` in -1..=1).
pub fn move_player(g: &Vec<Vec<char>>, p: Position, dx: i8, dy: i8) -> (r: Landing)
    requires
        -1 <= dx <= 1,
        -1 <= dy <= 1,
        dx == 0 || dy == 0,
    ensures
        r == move_player_spec(g.deep_view(), p, dx as int, dy as int),
{
    if (dx < 0 && p.x == 0) || (dy < 0 && p.y == 0) {
        return Landing { pos: p, checked: false };
    }
    if dx > 0 && (p.y >= g.len() || p.x >= g[p.y].len()) {
        return Landing { pos: p, checked: false };
    }
    if dy > 0 && p.y >= g.len() {
        return Landing { pos: p, checked: false };
    }
    let x: usize = if dx < 0 {
        p.x - 1
    } else if dx > 0 {
        p.x + 1
    } else {
        p.x
    };
    let y: usize = if dy < 0 {
        p.y - 1
    } else if dy > 0 {
        p.y + 1
    } else {
        p.y
    };
    if wall_at(g, x, y) {
        Landing { pos: p, checked: false }
    } else {
        Landing { pos: Position { x, y }, checked: true }
    }
}

// ---------------------------------------------------------------------
// Line and column jumps

/// First column at or after `x` in row `y`, below the width, that is not a wall.
pub open spec fn first_open_in_row(g: Rows, y: int, x: int) -> Option<int>
    decreases width_of(g) - x,
{
    if x < 0 || x >= width_of(g) {
        None
    } else if !cell_is_wall(g, x, y) {
        Some(x)
    } else {
        first_open_in_row(g, y, x + 1)
    }
}

/// Last column below `n` in row `y` that is not a wall.
pub open spec fn last_open_in_row(g: Rows, y: int, n: int) -> Option<int>
    decreases n,
{
    if n <= 0 {
        None
    } else if !cell_is_wall(g, n - 1, y) {
        Some(n - 1)
    } else {
        last_open_in_row(g, y, n - 1)
    }
}

/// First row at or after `y` in column `x` that is not a wall.
pub open spec fn first_open_in_col(g: Rows, x: int, y: int) -> Option<int>
    decreases g.len() - y,
{
    if y < 0 || y >= g.len() {
        None
    } else if !cell_is_wall(g, x, y) {
        Some(y)
    } else {
        first_open_in_col(g, x, y + 1)
    }
}

/// Last row below `n` in column `x` that is not a wall.
pub open spec fn last_open_in_col(g: Rows, x: int, n: int) -> Option<int>
    decreases n,
{
    if n <= 0 {
        None
    } else if !cell_is_wall(g, x, n - 1) {
        Some(n - 1)
    } else {
        last_open_in_col(g, x, n - 1)
    }
}

/// Jump to the first open cell of the row (`0`).
pub open spec fn line_start_spec(g: Rows, p: Position) -> Landing {
    match first_open_in_row(g, p.y as int, 0) {
        Some(x) => land(x, p.y as int),
        None => stay(p),
    }
}

/// Jump to the last open cell of the row (`$`).
pub open spec fn line_end_spec(g: Rows, p: Position) -> Landing {
    match last_open_in_row(g, p.y as int, width_of(g)) {
        Some(x) => land(x, p.y as int),
        None => stay(p),
    }
}

/// Jump to the first open cell of the column (`H`).
pub open spec fn screen_top_spec(g: Rows, p: Position) -> Landing {
    match first_open_in_col(g, p.x as int, 0) {
        Some(y) => land(p.x as int, y),
        None => stay(p),
    }
}

/// Jump to the last open cell of the column (`L`).
pub open spec fn screen_bottom_spec(g: Rows, p: Position) -> Landing {
    match last_open_in_col(g, p.x as int, g.len() as int) {
        Some(y) => land(p.x as int, y),
        None => stay(p),
    }
}

/// `0`: to the first open cell of the row.
pub fn move_line_start(g: &Vec<Vec<char>>, p: Position) -> (r: Landing)
    ensures
        r == line_start_spec(g.deep_view(), p),
{
    let w = grid_width(g);
    let mut x: usize = 0;
    while x < w
        invariant
            w == width_of(g.deep_view()),
            x <= w,
            first_open_in_row(g.deep_view(), p.y as int, 0) == first_open_in_row(
                g.deep_view(),
                p.y as int,
                x as int,
            ),
        decreases w - x,
    {
        if !wall_at(g, x, p.y) {
            return Landing { pos: Position { x, y: p.y }, checked: true };
        }
        x = x + 1;
    }
    Landing { pos: p, checked: false }
}

/// `$`: to the last open cell of the row.
pub fn move_line_end(g: &Vec<Vec<char>>, p: Position) -> (r: Landing)
    ensures
        r == line_end_spec(g.deep_view(), p),
{
    let mut n: usize = grid_width(g);
    while n > 0
        invariant
            last_open_in_row(g.deep_view(), p.y as int, width_of(g.deep_view()))
                == last_open_in_row(g.deep_view(), p.y as int, n as int),
        decreases n,
    {
        if !wall_at(g, n - 1, p.y) {
            return Landing { pos: Position { x: n - 1, y: p.y }, checked: true };
        }
        n = n - 1;
    }
    Landing { pos: p, checked: false }
}

/// `H`: to the first open cell of the column.
pub fn move_screen_top(g: &Vec<Vec<char>>, p: Position) -> (r: Landing)
    ensures
        r == screen_top_spec(g.deep_view(), p),
{
    let h = g.len();
    let mut y: usize = 0;
    while y < h
        invariant
            h == g.deep_view().len(),
            y <= h,
            first_open_in_col(g.deep_view(), p.x as int, 0) == first_open_in_col(
                g.deep_view(),
                p.x as int,
                y as int,
            ),
        decreases h - y,
    {
        if !wall_at(g, p.x, y) {
            return Landing { pos: Position { x: p.x, y }, checked: true };
        }
        y = y + 1;
    }
    Landing { pos: p, checked: false }
}

/// `L`: to the last open cell of the column.
pub fn move_screen_bottom(g: &Vec<Vec<char>>, p: Position) -> (r: Landing)
    ensures
        r == screen_bottom_spec(g.deep_view(), p),
{
    let mut n: usize = g.len();
    while n > 0
        invariant
            last_open_in_col(g.deep_view(), p.x as int, g.deep_view().len() as int)
                == last_open_in_col(g.deep_view(), p.x as int, n as int),
        decreases n,
    {
        if !wall_at(g, p.x, n - 1) {
            return Landing { pos: Position { x: p.x, y: n - 1 }, checked: true };
        }
        n = n - 1;
    }
    Landing { pos: p, checked: false }
}

/// Nearest open row to `mid` in column `x`, at distance `off` or more,
/// trying above before below at each distance.
pub open spec fn outward_open(g: Rows, x: int, mid: int, off: int) -> Option<int>
    decreases g.len() - off,
{
    if off < 1 || off >= g.len() {
        None
    } else if mid >= off && !cell_is_wall(g, x, mid - off) {
        Some(mid - off)
    } else if mid + off < g.len() && !cell_is_wall(g, x, mid + off) {
        Some(mid + off)
    } else {
        outward_open(g, x, mid, off + 1)
    }
}

/// Jump to the middle row of the column, or the nearest open row to it (`M`).
pub open spec fn screen_middle_spec(g: Rows, p: Position) -> Landing {
    let mid = g.len() as int / 2;
    if !cell_is_wall(g, p.x as int, mid) {
        land(p.x as int, mid)
    } else {
        match outward_open(g, p.x as int, mid, 1) {
            Some(y) => land(p.x as int, y),
            None => stay(p),
        }
    }
}

/// `M`: to the middle row of the column, or the open row nearest to it.
pub fn move_screen_middle(g: &Vec<Vec<char>>, p: Position) -> (r: Landing)
    ensures
        r == screen_middle_spec(g.deep_view(), p),
{
    let h = g.len();
    let mid = h / 2;
    if !wall_at(g, p.x, mid) {
        return Landing { pos: Position { x: p.x, y: mid }, checked: true };
    }
    let mut off: usize = 1;
    while off < h
        invariant
            h == g.deep_view().len(),
            mid == h / 2,
            cell_is_wall(g.deep_view(), p.x as int, mid as int),
            1 <= off,
            outward_open(g.deep_view(), p.x as int, mid as int, 1) == outward_open(
                g.deep_view(),
                p.x as int,
                mid as int,
                off as int,
            ),
        decreases h - off,
    {
        if mid >= off && !wall_at(g, p.x, mid - off) {
            return Landing { pos: Position { x: p.x, y: mid - off }, checked: true };
        }
        if off < h - mid && !wall_at(g, p.x, mid + off) {
            return Landing { pos: Position { x: p.x, y: mid + off }, checked: true };
        }
        off = off + 1;
    }
    Landing { pos: p, checked: false }
}

// ---------------------------------------------------------------------
// Paragraph motions

/// A cell that keeps its row from counting as a paragraph break: an
/// alphanumeric other than the markers `S` and `E`, or a hazard.
pub open spec fn blocks_paragraph(g: Rows, an: Marks, x: int, y: int) -> bool {
    (letter_at(an, x, y) && g[y][x] != 'S' && g[y][x] != 'E') || g[y][x] == '~'
}

/// Row `y` exists and holds no cell that blocks a paragraph break.
pub open spec fn line_empty(g: Rows, an: Marks, y: int) -> bool {
    0 <= y < g.len() && forall|i: int| 0 <= i < g[y].len() ==> !#[trigger] blocks_paragraph(g, an, i, y)
}

/// Whether row `y` is a paragraph break.
pub fn is_line_empty(g: &Vec<Vec<char>>, an: &Vec<Vec<bool>>, y: usize) -> (r: bool)
    ensures
        r == line_empty(g.deep_view(), an.deep_view(), y as int),
{
    if y >= g.len() {
        return false;
    }
    let row = &g[y];
    let mut i: usize = 0;
    while i < row.len()
        invariant
            y < g.deep_view().len(),
            row@ == g.deep_view()[y as int],
            i <= row@.len(),
            forall|k: int| 0 <= k < i ==> !#[trigger] blocks_paragraph(
                g.deep_view(),
                an.deep_view(),
                k,
                y as int,
            ),
        decreases row@.len() - i,
    {
        let c = row[i];
        if c == '~' || (letter_cell(an, i, y) && c != 'S' && c != 'E') {
            proof {
                assert(blocks_paragraph(g.deep_view(), an.deep_view(), i as int, y as int));
            }
            return false;
        }
        i = i + 1;
    }
    true
}

/// First paragraph break at or after row `y` that is open in column `x`.
pub open spec fn next_break(g: Rows, an: Marks, x: int, y: int) -> Option<int>
    decreases g.len() - y,
{
    if y < 0 || y >= g.len() {
        None
    } else if line_empty(g, an, y) && !cell_is_wall(g, x, y) {
        Some(y)
    } else {
        next_break(g, an, x, y + 1)
    }
}

/// Last paragraph break above row `n` that is open in column `x`.
pub open spec fn prev_break(g: Rows, an: Marks, x: int, n: int) -> Option<int>
    decreases n,
{
    if n <= 0 {
        None
    } else if line_empty(g, an, n - 1) && !cell_is_wall(g, x, n - 1) {
        Some(n - 1)
    } else {
        prev_break(g, an, x, n - 1)
    }
}

/// `}`: the next paragraph break below; failing that, the last row if it
/// is open in this column.
pub open spec fn paragraph_forward_spec(g: Rows, an: Marks, p: Position) -> Landing {
    match next_break(g, an, p.x as int, p.y + 1) {
        Some(y) => land(p.x as int, y),
        None => if g.len() > 0 && !cell_is_wall(g, p.x as int, g.len() - 1) {
            land(p.x as int, g.len() - 1)
        } else {
            stay(p)
        },
    }
}

/// `{`: the nearest paragraph break above, else no motion.
pub open spec fn paragraph_back_spec(g: Rows, an: Marks, p: Position) -> Landing {
    match prev_break(g, an, p.x as int, p.y as int) {
        Some(y) => land(p.x as int, y),
        None => stay(p),
    }
}

/// `}`: to the next paragraph break below, else the last row.
pub fn move_paragraph_forward(g: &Vec<Vec<char>>, an: &Vec<Vec<bool>>, p: Position) -> (r: Landing)
    ensures
        r == paragraph_forward_spec(g.deep_view(), an.deep_view(), p),
{
    let h = g.len();
    if p.y < h {
        let mut y: usize = p.y + 1;
        while y < h
            invariant
                h == g.deep_view().len(),
                p.y < y <= h,
                next_break(g.deep_view(), an.deep_view(), p.x as int, p.y + 1) == next_break(g.deep_view(), an.deep_view(),
                    p.x as int,
                    y as int,
                ),
            decreases h - y,
        {
            if is_line_empty(g, an, y) && !wall_at(g, p.x, y) {
                return Landing { pos: Position { x: p.x, y }, checked: true };
            }
            y = y + 1;
        }
    }
    if h > 0 && !wall_at(g, p.x, h - 1) {
        Landing { pos: Position { x: p.x, y: h - 1 }, checked: true }
    } else {
        Landing { pos: p, checked: false }
    }
}

/// `{`: to the nearest paragraph break above.
pub fn move_paragraph_back(g: &Vec<Vec<char>>, an: &Vec<Vec<bool>>, p: Position) -> (r: Landing)
    ensures
        r == paragraph_back_spec(g.deep_view(), an.deep_view(), p),
{
    let mut n: usize = p.y;
    while n > 0
        invariant
            prev_break(g.deep_view(), an.deep_view(), p.x as int, p.y as int) == prev_break(g.deep_view(), an.deep_view(),
                p.x as int,
                n as int,
            ),
        decreases n,
    {
        if is_line_empty(g, an, n - 1) && !wall_at(g, p.x, n - 1) {
            return Landing { pos: Position { x: p.x, y: n - 1 }, checked: true };
        }
        n = n - 1;
    }
    Landing { pos: p, checked: false }
}

// ---------------------------------------------------------------------
// Character find and till

/// First column at or after `x`, below the width, whose character in row
/// `y` is `t`.
pub open spec fn find_ahead(g: Rows, y: int, t: char, x: int) -> Option<int>
    decreases width_of(g) - x,
{
    if x < 0 || x >= width_of(g) {
        None
    } else if cell_char(g, x, y) == t {
        Some(x)
    } else {
        find_ahead(g, y, t, x + 1)
    }
}

/// Last column below `n` whose character in row `y` is `t`.
pub open spec fn find_behind(g: Rows, y: int, t: char, n: int) -> Option<int>
    decreases n,
{
    if n <= 0 {
        None
    } else if cell_char(g, n - 1, y) == t {
        Some(n - 1)
    } else {
        find_behind(g, y, t, n - 1)
    }
}

/// `f`: onto the next `t` in the row, if that cell is open.
pub open spec fn find_next_spec(g: Rows, p: Position, t: char) -> Landing {
    match find_ahead(g, p.y as int, t, p.x + 1) {
        Some(x) => if !cell_is_wall(g, x, p.y as int) {
            land(x, p.y as int)
        } else {
            stay(p)
        },
        None => stay(p),
    }
}

/// `F`: onto the previous `t` in the row, if that cell is open.
pub open spec fn find_prev_spec(g: Rows, p: Position, t: char) -> Landing {
    match find_behind(g, p.y as int, t, p.x as int) {
        Some(x) => if !cell_is_wall(g, x, p.y as int) {
            land(x, p.y as int)
        } else {
            stay(p)
        },
        None => stay(p),
    }
}

/// `t`: one cell short of the next `t`, if that is past the cursor and open.
pub open spec fn till_next_spec(g: Rows, p: Position, t: char) -> Landing {
    match find_ahead(g, p.y as int, t, p.x + 1) {
        Some(x) => if x - 1 > p.x && !cell_is_wall(g, x - 1, p.y as int) {
            land(x - 1, p.y as int)
        } else {
            stay(p)
        },
        None => stay(p),
    }
}

/// `T`: one cell after the previous `t`, if that is before the cursor and open.
pub open spec fn till_prev_spec(g: Rows, p: Position, t: char) -> Landing {
    match find_behind(g, p.y as int, t, p.x as int) {
        Some(x) => if x + 1 < p.x && !cell_is_wall(g, x + 1, p.y as int) {
            land(x + 1, p.y as int)
        } else {
            stay(p)
        },
        None => stay(p),
    }
}

/// Column of the next `t` after the cursor in its row.
pub fn scan_ahead(g: &Vec<Vec<char>>, p: Position, t: char) -> (r: Option<usize>)
    ensures
        r matches Some(x) ==> p.x < x < width_of(g.deep_view()) && find_ahead(
            g.deep_view(),
            p.y as int,
            t,
            p.x + 1,
        ) == Some(x as int),
        r is None ==> find_ahead(g.deep_view(), p.y as int, t, p.x + 1) is None,
{
    let w = grid_width(g);
    if p.x >= w {
        return None;
    }
    let mut x: usize = p.x + 1;
    while x < w
        invariant
            w == width_of(g.deep_view()),
            p.x < x <= w,
            find_ahead(g.deep_view(), p.y as int, t, p.x + 1) == find_ahead(
                g.deep_view(),
                p.y as int,
                t,
                x as int,
            ),
        decreases w - x,
    {
        if get_char_at(g, x, p.y) == t {
            return Some(x);
        }
        x = x + 1;
    }
    None
}

/// Column of the previous `t` before the cursor in its row.
pub fn scan_behind(g: &Vec<Vec<char>>, p: Position, t: char) -> (r: Option<usize>)
    ensures
        r matches Some(x) ==> x < p.x && find_behind(g.deep_view(), p.y as int, t, p.x as int)
            == Some(x as int),
        r is None ==> find_behind(g.deep_view(), p.y as int, t, p.x as int) is None,
{
    let mut n: usize = p.x;
    while n > 0
        invariant
            n <= p.x,
            find_behind(g.deep_view(), p.y as int, t, p.x as int) == find_behind(
                g.deep_view(),
                p.y as int,
                t,
                n as int,
            ),
        decreases n,
    {
        if get_char_at(g, n - 1, p.y) == t {
            return Some(n - 1);
        }
        n = n - 1;
    }
    None
}

/// `f`: onto the next `t` in the row.
pub fn find_char_forward(g: &Vec<Vec<char>>, p: Position, t: char) -> (r: Landing)
    ensures
        r == find_next_spec(g.deep_view(), p, t),
{
    match scan_ahead(g, p, t) {
        Some(x) => if !wall_at(g, x, p.y) {
            Landing { pos: Position { x, y: p.y }, checked: true }
        } else {
            Landing { pos: p, checked: false }
        },
        None => Landing { pos: p, checked: false },
    }
}

/// `F`: onto the previous `t` in the row.
pub fn find_char_backward(g: &Vec<Vec<char>>, p: Position, t: char) -> (r: Landing)
    ensures
        r == find_prev_spec(g.deep_view(), p, t),
{
    match scan_behind(g, p, t) {
        Some(x) => if !wall_at(g, x, p.y) {
            Landing { pos: Position { x, y: p.y }, checked: true }
        } else {
            Landing { pos: p, checked: false }
        },
        None => Landing { pos: p, checked: false },
    }
}

/// `t`: one cell short of the next `t` in the row.
pub fn till_char_forward(g: &Vec<Vec<char>>, p: Position, t: char) -> (r: Landing)
    ensures
        r == till_next_spec(g.deep_view(), p, t),
{
    match scan_ahead(g, p, t) {
        Some(x) => if x - 1 > p.x && !wall_at(g, x - 1, p.y) {
            Landing { pos: Position { x: x - 1, y: p.y }, checked: true }
        } else {
            Landing { pos: p, checked: false }
        },
        None => Landing { pos: p, checked: false },
    }
}

/// `T`: one cell after the previous `t` in the row.
pub fn till_char_backward(g: &Vec<Vec<char>>, p: Position, t: char) -> (r: Landing)
    ensures
        r == till_prev_spec(g.deep_view(), p, t),
{
    match scan_behind(g, p, t) {
        Some(x) => if x + 1 < p.x && !wall_at(g, x + 1, p.y) {
            Landing { pos: Position { x: x + 1, y: p.y }, checked: true }
        } else {
            Landing { pos: p, checked: false }
        },
        None => Landing { pos: p, checked: false },
    }
}

// ---------------------------------------------------------------------
// Word motions

/// The next cell in reading order: one to the right, or the start of the
/// next row past the width; none past the last row.
pub open spec fn fwd_one(g: Rows, x: int, y: int) -> Option<(int, int)> {
    if x + 1 >= width_of(g) {
        if y + 1 >= g.len() {
            None
        } else {
            Some((0, y + 1))
        }
    } else if y >= g.len() {
        None
    } else {
        Some((x + 1, y))
    }
}

/// The previous cell in reading order: one to the left, or the last column
/// of the row above; none before the first cell.
pub open spec fn back_one(g: Rows, x: int, y: int) -> Option<(int, int)> {
    if x > 0 {
        Some((x - 1, y))
    } else if y > 0 && width_of(g) > 0 {
        Some((width_of(g) - 1, y - 1))
    } else {
        None
    }
}

/// Scan for `w`: walls are skipped, a non-word cell marks the current word
/// as passed, and the first word cell after that is the answer.
pub open spec fn word_fwd_scan(g: Rows, an: Marks, x: int, y: int, passed: bool) -> Option<(int, int)>
    decreases g.len() - y, width_of(g) - x,
{
    match fwd_one(g, x, y) {
        None => None,
        Some((nx, ny)) => if cell_is_wall(g, nx, ny) {
            word_fwd_scan(g, an, nx, ny, passed)
        } else if word_cell(g, an, nx, ny) {
            if passed {
                Some((nx, ny))
            } else {
                word_fwd_scan(g, an, nx, ny, passed)
            }
        } else {
            word_fwd_scan(g, an, nx, ny, true)
        },
    }
}

/// From a word cell, back to the first cell of that word.
pub open spec fn word_start(g: Rows, an: Marks, x: int, y: int) -> (int, int)
    decreases y, x,
{
    match back_one(g, x, y) {
        None => (x, y),
        Some((px, py)) => if !word_cell(g, an, px, py) {
            (x, y)
        } else {
            word_start(g, an, px, py)
        },
    }
}

/// Back over non-word cells, then to the start of the word reached; the
/// first cell when none is reached.
pub open spec fn skip_back(g: Rows, an: Marks, x: int, y: int) -> (int, int)
    decreases y, x,
{
    if word_cell(g, an, x, y) {
        word_start(g, an, x, y)
    } else {
        match back_one(g, x, y) {
            None => (x, y),
            Some((px, py)) => skip_back(g, an, px, py),
        }
    }
}

/// From a word cell, forward to the last cell of that word.
pub open spec fn word_last(g: Rows, an: Marks, x: int, y: int) -> (int, int)
    decreases g.len() - y, width_of(g) - x,
{
    match fwd_one(g, x, y) {
        None => (x, y),
        Some((nx, ny)) => if !word_cell(g, an, nx, ny) {
            (x, y)
        } else {
            word_last(g, an, nx, ny)
        },
    }
}

/// Forward over non-word cells, then to the end of the word reached; none
/// when the grid ends first.
pub open spec fn skip_fwd(g: Rows, an: Marks, x: int, y: int) -> Option<(int, int)>
    decreases g.len() - y, width_of(g) - x,
{
    if word_cell(g, an, x, y) {
        Some(word_last(g, an, x, y))
    } else {
        match fwd_one(g, x, y) {
            None => None,
            Some((nx, ny)) => skip_fwd(g, an, nx, ny),
        }
    }
}

/// `w`: start of the next word.
pub open spec fn word_forward_spec(g: Rows, an: Marks, p: Position) -> Landing {
    match word_fwd_scan(g, an, p.x as int, p.y as int, false) {
        Some((x, y)) => land(x, y),
        None => stay(p),
    }
}

/// `b`: start of the current or previous word.
pub open spec fn word_back_spec(g: Rows, an: Marks, p: Position) -> Landing {
    match back_one(g, p.x as int, p.y as int) {
        None => stay(p),
        Some((x, y)) => {
            let (a, b) = skip_back(g, an, x, y);
            land(a, b)
        },
    }
}

/// `e`: end of the current or next word.
pub open spec fn word_end_spec(g: Rows, an: Marks, p: Position) -> Landing {
    match fwd_one(g, p.x as int, p.y as int) {
        None => stay(p),
        Some((x, y)) => match skip_fwd(g, an, x, y) {
            None => stay(p),
            Some((a, b)) => land(a, b),
        },
    }
}

fn next_cell(w: usize, h: usize, x: usize, y: usize, Ghost(g): Ghost<Rows>) -> (r: Option<(usize, usize)>)
    requires
        w == width_of(g),
        h == g.len(),
    ensures
        r matches Some((a, b)) ==> fwd_one(g, x as int, y as int) == Some((a as int, b as int)),
        r is None ==> fwd_one(g, x as int, y as int) is None,
{
    if x >= w || x + 1 >= w {
        if y >= h || y + 1 >= h {
            None
        } else {
            Some((0, y + 1))
        }
    } else if y >= h {
        None
    } else {
        Some((x + 1, y))
    }
}

fn prev_cell(w: usize, x: usize, y: usize, Ghost(g): Ghost<Rows>) -> (r: Option<(usize, usize)>)
    requires
        w == width_of(g),
    ensures
        r matches Some((a, b)) ==> back_one(g, x as int, y as int) == Some((a as int, b as int)),
        r is None ==> back_one(g, x as int, y as int) is None,
{
    if x > 0 {
        Some((x - 1, y))
    } else if y > 0 && w > 0 {
        Some((w - 1, y - 1))
    } else {
        None
    }
}

/// `w`: to the start of the next word; `an` flags the alphanumeric cells.
pub fn move_word_forward(g: &Vec<Vec<char>>, an: &Vec<Vec<bool>>, p: Position) -> (r: Landing)
    ensures
        r == word_forward_spec(g.deep_view(), an.deep_view(), p),
{
    let ghost gv = g.deep_view();
    let ghost av = an.deep_view();
    let w = grid_width(g);
    let h = g.len();
    let mut x = p.x;
    let mut y = p.y;
    let mut passed = false;
    loop
        invariant
            gv == g.deep_view(),
            av == an.deep_view(),
            w == width_of(gv),
            h == gv.len(),
            word_fwd_scan(gv, av, p.x as int, p.y as int, false) == word_fwd_scan(
                gv,
                av,
                x as int,
                y as int,
                passed,
            ),
        decreases h - y, w - x,
    {
        match next_cell(w, h, x, y, Ghost(gv)) {
            None => {
                return Landing { pos: p, checked: false };
            },
            Some((nx, ny)) => {
                x = nx;
                y = ny;
            },
        }
        if !wall_at(g, x, y) {
            if word_cell_at(g, an, x, y) {
                if passed {
                    return Landing { pos: Position { x, y }, checked: true };
                }
            } else {
                passed = true;
            }
        }
    }
}

/// `b`: to the start of the current or previous word; `an` flags the alphanumeric cells.
pub fn move_word_back(g: &Vec<Vec<char>>, an: &Vec<Vec<bool>>, p: Position) -> (r: Landing)
    ensures
        r == word_back_spec(g.deep_view(), an.deep_view(), p),
{
    let ghost gv = g.deep_view();
    let ghost av = an.deep_view();
    let w = grid_width(g);
    let (mut x, mut y) = match prev_cell(w, p.x, p.y, Ghost(gv)) {
        None => {
            return Landing { pos: p, checked: false };
        },
        Some(q) => q,
    };
    let ghost sx = x as int;
    let ghost sy = y as int;
    while !word_cell_at(g, an, x, y)
        invariant
            gv == g.deep_view(),
            av == an.deep_view(),
            w == width_of(gv),
            back_one(gv, p.x as int, p.y as int) == Some((sx, sy)),
            skip_back(gv, av, sx, sy) == skip_back(gv, av, x as int, y as int),
        decreases y, x,
    {
        match prev_cell(w, x, y, Ghost(gv)) {
            None => {
                return Landing { pos: Position { x, y }, checked: true };
            },
            Some((px, py)) => {
                x = px;
                y = py;
            },
        }
    }
    loop
        invariant
            gv == g.deep_view(),
            av == an.deep_view(),
            w == width_of(gv),
            back_one(gv, p.x as int, p.y as int) == Some((sx, sy)),
            skip_back(gv, av, sx, sy) == word_start(gv, av, x as int, y as int),
        ensures
            back_one(gv, p.x as int, p.y as int) == Some((sx, sy)),
            skip_back(gv, av, sx, sy) == (x as int, y as int),
        decreases y, x,
    {
        match prev_cell(w, x, y, Ghost(gv)) {
            None => {
                break;
            },
            Some((px, py)) => {
                if !word_cell_at(g, an, px, py) {
                    break;
                }
                x = px;
                y = py;
            },
        }
    }
    Landing { pos: Position { x, y }, checked: true }
}

/// `e`: to the end of the current or next word; `an` flags the alphanumeric cells.
pub fn move_word_end(g: &Vec<Vec<char>>, an: &Vec<Vec<bool>>, p: Position) -> (r: Landing)
    ensures
        r == word_end_spec(g.deep_view(), an.deep_view(), p),
{
    let ghost gv = g.deep_view();
    let ghost av = an.deep_view();
    let w = grid_width(g);
    let h = g.len();
    let (mut x, mut y) = match next_cell(w, h, p.x, p.y, Ghost(gv)) {
        None => {
            return Landing { pos: p, checked: false };
        },
        Some(q) => q,
    };
    let ghost sx = x as int;
    let ghost sy = y as int;
    while !word_cell_at(g, an, x, y)
        invariant
            gv == g.deep_view(),
            av == an.deep_view(),
            w == width_of(gv),
            h == gv.len(),
            fwd_one(gv, p.x as int, p.y as int) == Some((sx, sy)),
            skip_fwd(gv, av, sx, sy) == skip_fwd(gv, av, x as int, y as int),
        decreases h - y, w - x,
    {
        match next_cell(w, h, x, y, Ghost(gv)) {
            None => {
                return Landing { pos: p, checked: false };
            },
            Some((nx, ny)) => {
                x = nx;
                y = ny;
            },
        }
    }
    loop
        invariant
            gv == g.deep_view(),
            av == an.deep_view(),
            w == width_of(gv),
            h == gv.len(),
            fwd_one(gv, p.x as int, p.y as int) == Some((sx, sy)),
            skip_fwd(gv, av, sx, sy) == Some(word_last(gv, av, x as int, y as int)),
        ensures
            fwd_one(gv, p.x as int, p.y as int) == Some((sx, sy)),
            skip_fwd(gv, av, sx, sy) == Some((x as int, y as int)),
        decreases h - y, w - x,
    {
        match next_cell(w, h, x, y, Ghost(gv)) {
            None => {
                break;
            },
            Some((nx, ny)) => {
                if !word_cell_at(g, an, nx, ny) {
                    break;
                }
                x = nx;
                y = ny;
            },
        }
    }
    Landing { pos: Position { x, y }, checked: true }
}

// ---------------------------------------------------------------------
// Search over the whole grid

/// Number of cells that a search may visit: width times height, capped at
/// the largest `usize`.
pub open spec fn cycle_len(g: Rows) -> nat {
    if width_of(g) * g.len() <= usize::MAX {
        (width_of(g) * g.len()) as nat
    } else {
        usize::MAX as nat
    }
}

/// The cell after (x, y) when rows are read as one cycle: right, then the
/// next row, then back to row 0.
pub open spec fn cycle_next(g: Rows, x: int, y: int) -> (int, int) {
    let (a, b) = if x + 1 >= width_of(g) {
        (0, y + 1)
    } else {
        (x + 1, y)
    };
    if b >= g.len() {
        (a, 0)
    } else {
        (a, b)
    }
}

/// The cell before (x, y) on the same cycle.
pub open spec fn cycle_prev(g: Rows, x: int, y: int) -> (int, int) {
    if x == 0 {
        (width_of(g) - 1, if y == 0 {
            g.len() - 1
        } else {
            y - 1
        })
    } else {
        (x - 1, y)
    }
}

/// The query's characters stand in row `y` from column `x` on, and fit
/// within the width.
pub open spec fn matches_at(g: Rows, x: int, y: int, q: Seq<char>) -> bool {
    &&& x + q.len() <= width_of(g)
    &&& forall|i: int| 0 <= i < q.len() ==> cell_char(g, x + i, y) == #[trigger] q[i]
}

/// First match of `q` met going forward from `cur`, within `fuel` cells,
/// stopping when the scan comes back to `start`.
pub open spec fn search_ahead(g: Rows, q: Seq<char>, start: (int, int), cur: (int, int), fuel: nat) -> Option<(int, int)>
    decreases fuel,
{
    if fuel == 0 {
        None
    } else {
        let n = cycle_next(g, cur.0, cur.1);
        if n == start {
            None
        } else if matches_at(g, n.0, n.1, q) {
            Some(n)
        } else {
            search_ahead(g, q, start, n, (fuel - 1) as nat)
        }
    }
}

/// First match of `q` met going backward from `cur`, as `search_ahead`.
pub open spec fn search_behind(g: Rows, q: Seq<char>, start: (int, int), cur: (int, int), fuel: nat) -> Option<(int, int)>
    decreases fuel,
{
    if fuel == 0 {
        None
    } else {
        let n = cycle_prev(g, cur.0, cur.1);
        if n == start {
            None
        } else if matches_at(g, n.0, n.1, q) {
            Some(n)
        } else {
            search_behind(g, q, start, n, (fuel - 1) as nat)
        }
    }
}

/// `/q`: onto the next match of `q`, if that cell is open.
pub open spec fn search_forward_spec(g: Rows, p: Position, q: Seq<char>) -> Landing {
    let s = (p.x as int, p.y as int);
    match search_ahead(g, q, s, s, cycle_len(g)) {
        Some((x, y)) => if !cell_is_wall(g, x, y) {
            land(x, y)
        } else {
            stay(p)
        },
        None => stay(p),
    }
}

/// `?q`: onto the previous match of `q`, if that cell is open.
pub open spec fn search_backward_spec(g: Rows, p: Position, q: Seq<char>) -> Landing {
    let s = (p.x as int, p.y as int);
    match search_behind(g, q, s, s, cycle_len(g)) {
        Some((x, y)) => if !cell_is_wall(g, x, y) {
            land(x, y)
        } else {
            stay(p)
        },
        None => stay(p),
    }
}

/// The characters of a string.
pub fn chars_of(s: &str) -> (r: Vec<char>)
    ensures
        r@ == s@,
{
    let n = s.unicode_len();
    let mut v: Vec<char> = Vec::new();
    let mut i: usize = 0;
    while i < n
        invariant
            n == s@.len(),
            i <= n,
            v@ =~= s@.take(i as int),
        decreases n - i,
    {
        v.push(s.get_char(i));
        i = i + 1;
    }
    v
}

/// Whether `q` matches at (x, y).
pub fn check_match_at(g: &Vec<Vec<char>>, w: usize, x: usize, y: usize, q: &Vec<char>) -> (r: bool)
    requires
        w == width_of(g.deep_view()),
    ensures
        r == matches_at(g.deep_view(), x as int, y as int, q@),
{
    if x > w || q.len() > w - x {
        return false;
    }
    let mut i: usize = 0;
    while i < q.len()
        invariant
            x + q@.len() <= w,
            i <= q@.len(),
            forall|k: int| 0 <= k < i ==> cell_char(g.deep_view(), x + k, y as int) == #[trigger] q@[k],
        decreases q@.len() - i,
    {
        if get_char_at(g, x + i, y) != q[i] {
            return false;
        }
        i = i + 1;
    }
    true
}

fn cells_to_scan(w: usize, h: usize, Ghost(g): Ghost<Rows>) -> (r: usize)
    requires
        w == width_of(g),
        h == g.len(),
    ensures
        r == cycle_len(g),
{
    match w.checked_mul(h) {
        Some(n) => n,
        None => usize::MAX,
    }
}

/// `/`: to the next match of `query`, reading the rows as one cycle.
pub fn search_forward(g: &Vec<Vec<char>>, p: Position, query: &str) -> (r: Landing)
    ensures
        r == search_forward_spec(g.deep_view(), p, query@),
{
    let ghost gv = g.deep_view();
    let ghost s = (p.x as int, p.y as int);
    let q = chars_of(query);
    let w = grid_width(g);
    let h = g.len();
    let n = cells_to_scan(w, h, Ghost(gv));
    let mut x = p.x;
    let mut y = p.y;
    let mut k: usize = 0;
    while k < n
        invariant
            gv == g.deep_view(),
            w == width_of(gv),
            h == gv.len(),
            n == cycle_len(gv),
            k <= n,
            q@ == query@,
            s == (p.x as int, p.y as int),
            search_ahead(gv, q@, s, s, cycle_len(gv)) == search_ahead(
                gv,
                q@,
                s,
                (x as int, y as int),
                (n - k) as nat,
            ),
        decreases n - k,
    {
        let ghost cur = (x as int, y as int);
        if x >= w || x + 1 >= w {
            x = 0;
            if y >= h || y + 1 >= h {
                y = 0;
            } else {
                y = y + 1;
            }
        } else {
            x = x + 1;
            if y >= h {
                y = 0;
            }
        }
        assert((x as int, y as int) == cycle_next(gv, cur.0, cur.1));
        if x == p.x && y == p.y {
            return Landing { pos: p, checked: false };
        }
        if check_match_at(g, w, x, y, &q) {
            if !wall_at(g, x, y) {
                return Landing { pos: Position { x, y }, checked: true };
            }
            return Landing { pos: p, checked: false };
        }
        k = k + 1;
    }
    Landing { pos: p, checked: false }
}

/// `?`: to the previous match of `query`, reading the rows as one cycle.
pub fn search_backward(g: &Vec<Vec<char>>, p: Position, query: &str) -> (r: Landing)
    ensures
        r == search_backward_spec(g.deep_view(), p, query@),
{
    let ghost gv = g.deep_view();
    let ghost s = (p.x as int, p.y as int);
    let q = chars_of(query);
    let w = grid_width(g);
    let h = g.len();
    let n = cells_to_scan(w, h, Ghost(gv));
    let mut x = p.x;
    let mut y = p.y;
    let mut k: usize = 0;
    while k < n
        invariant
            gv == g.deep_view(),
            w == width_of(gv),
            h == gv.len(),
            n == cycle_len(gv),
            k <= n,
            q@ == query@,
            s == (p.x as int, p.y as int),
            search_behind(gv, q@, s, s, cycle_len(gv)) == search_behind(
                gv,
                q@,
                s,
                (x as int, y as int),
                (n - k) as nat,
            ),
        decreases n - k,
    {
        proof {
            assert(w > 0 && h > 0) by (nonlinear_arith)
                requires
                    n > 0,
                    n == cycle_len(gv),
                    w == width_of(gv),
                    h == gv.len(),
            ;
        }
        let ghost cur = (x as int, y as int);
        if x == 0 {
            x = w - 1;
            if y == 0 {
                y = h - 1;
            } else {
                y = y - 1;
            }
        } else {
            x = x - 1;
        }
        assert((x as int, y as int) == cycle_prev(gv, cur.0, cur.1));
        if x == p.x && y == p.y {
            return Landing { pos: p, checked: false };
        }
        if check_match_at(g, w, x, y, &q) {
            if !wall_at(g, x, y) {
                return Landing { pos: Position { x, y }, checked: true };
            }
            return Landing { pos: p, checked: false };
        }
        k = k + 1;
    }
    Landing { pos: p, checked: false }
}

// ---------------------------------------------------------------------
// Clearing and the whole motion set

/// `x`: the cell under the cursor becomes floor, unless it is off the grid
/// or a start or target marker.
pub open spec fn cleared(g: Rows, p: Position) -> Rows {
    if p.y < g.len() && p.x < g[p.y as int].len() && g[p.y as int][p.x as int] != 'S'
        && g[p.y as int][p.x as int] != 'E' {
        g.update(p.y as int, g[p.y as int].update(p.x as int, '.'))
    } else {
        g
    }
}

pub fn delete_char(g: &mut Vec<Vec<char>>, p: Position)
    ensures
        final(g).deep_view() == cleared(old(g).deep_view(), p),
{
    if p.y < g.len() && p.x < g[p.y].len() && g[p.y][p.x] != 'S' && g[p.y][p.x] != 'E' {
        let ghost before = g.deep_view();
        let mut row: Vec<char> = Vec::new();
        let mut i: usize = 0;
        let n = g[p.y].len();
        while i < n
            invariant
                g.deep_view() == before,
                p.y < before.len(),
                n == before[p.y as int].len(),
                i <= n,
                row@ =~= before[p.y as int].take(i as int),
            decreases n - i,
        {
            row.push(g[p.y][i]);
            i = i + 1;
        }
        row.set(p.x, '.');
        proof {
            assert(row@ =~= before[p.y as int].update(p.x as int, '.'));
            assert(row.deep_view() =~= row@);
        }
        g.set(p.y, row);
        proof {
            assert(g.deep_view() =~= cleared(before, p));
        }
    }
}

/// Where a command leaves the cursor on grid `g` from `p`, and whether the
/// landing is checked for a hazard. Commands that only change the input
/// mode, replay an earlier command or clear a cell leave it in place.
pub open spec fn motion(g: Rows, p: Position, c: VimCommand) -> Landing {
    motion_in(g, letters(g), p, c)
}

/// `motion`, with the alphanumeric flags of the grid's cells given as `an`.
pub open spec fn motion_in(g: Rows, an: Marks, p: Position, c: VimCommand) -> Landing {
    match c {
        VimCommand::MoveLeft => move_player_spec(g, p, -1, 0),
        VimCommand::MoveRight => move_player_spec(g, p, 1, 0),
        VimCommand::MoveUp => move_player_spec(g, p, 0, -1),
        VimCommand::MoveDown => move_player_spec(g, p, 0, 1),
        VimCommand::MoveWordForward => word_forward_spec(g, an, p),
        VimCommand::MoveWordBack => word_back_spec(g, an, p),
        VimCommand::MoveWordEnd => word_end_spec(g, an, p),
        VimCommand::MoveLineStart => line_start_spec(g, p),
        VimCommand::MoveLineEnd => line_end_spec(g, p),
        VimCommand::MoveScreenTop => screen_top_spec(g, p),
        VimCommand::MoveScreenMiddle => screen_middle_spec(g, p),
        VimCommand::MoveScreenBottom => screen_bottom_spec(g, p),
        VimCommand::MoveParagraphForward => paragraph_forward_spec(g, an, p),
        VimCommand::MoveParagraphBack => paragraph_back_spec(g, an, p),
        VimCommand::FindNextChar(t) => find_next_spec(g, p, t),
        VimCommand::FindPrevChar(t) => find_prev_spec(g, p, t),
        VimCommand::TillNextChar(t) => till_next_spec(g, p, t),
        VimCommand::TillPrevChar(t) => till_prev_spec(g, p, t),
        VimCommand::SearchForward(q) => search_forward_spec(g, p, q@),
        VimCommand::SearchBackward(q) => search_backward_spec(g, p, q@),
        _ => stay(p),
    }
}

/// The grid after a command: only clearing changes it.
pub open spec fn grid_after(g: Rows, p: Position, c: VimCommand) -> Rows {
    match c {
        VimCommand::DeleteChar => cleared(g, p),
        _ => g,
    }
}

/// The motion that a command makes on grid `g` from `p`.
pub fn apply_motion(g: &Vec<Vec<char>>, p: Position, c: &VimCommand) -> (r: Landing)
    ensures
        r == motion(g.deep_view(), p, *c),
{
    let an = letter_cells(g);
    apply_motion_in(g, &an, p, c)
}

/// The motion that a command makes, given the alphanumeric flags `an`.
pub fn apply_motion_in(g: &Vec<Vec<char>>, an: &Vec<Vec<bool>>, p: Position, c: &VimCommand) -> (r: Landing)
    ensures
        r == motion_in(g.deep_view(), an.deep_view(), p, *c),
{
    match c {
        VimCommand::MoveLeft => move_player(g, p, -1, 0),
        VimCommand::MoveRight => move_player(g, p, 1, 0),
        VimCommand::MoveUp => move_player(g, p, 0, -1),
        VimCommand::MoveDown => move_player(g, p, 0, 1),
        VimCommand::MoveWordForward => move_word_forward(g, an, p),
        VimCommand::MoveWordBack => move_word_back(g, an, p),
        VimCommand::MoveWordEnd => move_word_end(g, an, p),
        VimCommand::MoveLineStart => move_line_start(g, p),
        VimCommand::MoveLineEnd => move_line_end(g, p),
        VimCommand::MoveScreenTop => move_screen_top(g, p),
        VimCommand::MoveScreenMiddle => move_screen_middle(g, p),
        VimCommand::MoveScreenBottom => move_screen_bottom(g, p),
        VimCommand::MoveParagraphForward => move_paragraph_forward(g, an, p),
        VimCommand::MoveParagraphBack => move_paragraph_back(g, an, p),
        VimCommand::FindNextChar(t) => find_char_forward(g, p, *t),
        VimCommand::FindPrevChar(t) => find_char_backward(g, p, *t),
        VimCommand::TillNextChar(t) => till_char_forward(g, p, *t),
        VimCommand::TillPrevChar(t) => till_char_backward(g, p, *t),
        VimCommand::SearchForward(q) => search_forward(g, p, q.as_str()),
        VimCommand::SearchBackward(q) => search_backward(g, p, q.as_str()),
        _ => Landing { pos: p, checked: false },
    }
}

// ---------------------------------------------------------------------
// Motions stay on the grid

/// An open cell lies inside the grid.
pub proof fn lemma_open_in_bounds(g: Rows, x: int, y: int)
    requires
        !cell_is_wall(g, x, y),
    ensures
        0 <= x < width_of(g),
        0 <= y < g.len(),
{
    lemma_row_within_width(g, y);
}

proof fn lemma_first_open_in_row(g: Rows, y: int, x: int)
    ensures
        first_open_in_row(g, y, x) matches Some(r) ==> x <= r < width_of(g) && !cell_is_wall(
            g,
            r,
            y,
        ),
    decreases width_of(g) - x,
{
    if 0 <= x < width_of(g) && cell_is_wall(g, x, y) {
        lemma_first_open_in_row(g, y, x + 1);
    }
}

proof fn lemma_last_open_in_row(g: Rows, y: int, n: int)
    ensures
        last_open_in_row(g, y, n) matches Some(r) ==> 0 <= r < n && !cell_is_wall(g, r, y),
    decreases n,
{
    if n > 0 && cell_is_wall(g, n - 1, y) {
        lemma_last_open_in_row(g, y, n - 1);
    }
}

proof fn lemma_first_open_in_col(g: Rows, x: int, y: int)
    ensures
        first_open_in_col(g, x, y) matches Some(r) ==> y <= r < g.len() && !cell_is_wall(g, x, r),
    decreases g.len() - y,
{
    if 0 <= y < g.len() && cell_is_wall(g, x, y) {
        lemma_first_open_in_col(g, x, y + 1);
    }
}

proof fn lemma_last_open_in_col(g: Rows, x: int, n: int)
    ensures
        last_open_in_col(g, x, n) matches Some(r) ==> 0 <= r < n && !cell_is_wall(g, x, r),
    decreases n,
{
    if n > 0 && cell_is_wall(g, x, n - 1) {
        lemma_last_open_in_col(g, x, n - 1);
    }
}

proof fn lemma_outward_open(g: Rows, x: int, mid: int, off: int)
    ensures
        outward_open(g, x, mid, off) matches Some(r) ==> !cell_is_wall(g, x, r),
    decreases g.len() - off,
{
    if 1 <= off < g.len() {
        lemma_outward_open(g, x, mid, off + 1);
    }
}

proof fn lemma_next_break(g: Rows, an: Marks, x: int, y: int)
    ensures
        next_break(g, an, x, y) matches Some(r) ==> !cell_is_wall(g, x, r),
    decreases g.len() - y,
{
    if 0 <= y < g.len() {
        lemma_next_break(g, an, x, y + 1);
    }
}

proof fn lemma_prev_break(g: Rows, an: Marks, x: int, n: int)
    ensures
        prev_break(g, an, x, n) matches Some(r) ==> !cell_is_wall(g, x, r),
    decreases n,
{
    if n > 0 {
        lemma_prev_break(g, an, x, n - 1);
    }
}

proof fn lemma_word_fwd_scan(g: Rows, an: Marks, x: int, y: int, passed: bool)
    ensures
        word_fwd_scan(g, an, x, y, passed) matches Some((a, b)) ==> !cell_is_wall(g, a, b),
    decreases g.len() - y, width_of(g) - x,
{
    match fwd_one(g, x, y) {
        None => {},
        Some((nx, ny)) => {
            lemma_word_fwd_scan(g, an, nx, ny, passed);
            lemma_word_fwd_scan(g, an, nx, ny, true);
        },
    }
}

/// Inside the grid, for cells given as integers.
pub open spec fn inside(g: Rows, x: int, y: int) -> bool {
    0 <= x < width_of(g) && 0 <= y < g.len()
}

proof fn lemma_word_start(g: Rows, an: Marks, x: int, y: int)
    requires
        inside(g, x, y),
    ensures
        inside(g, word_start(g, an, x, y).0, word_start(g, an, x, y).1),
    decreases y, x,
{
    if let Some((px, py)) = back_one(g, x, y) {
        if word_cell(g, an, px, py) {
            lemma_word_start(g, an, px, py);
        }
    }
}

proof fn lemma_skip_back(g: Rows, an: Marks, x: int, y: int)
    requires
        inside(g, x, y),
    ensures
        inside(g, skip_back(g, an, x, y).0, skip_back(g, an, x, y).1),
    decreases y, x,
{
    if word_cell(g, an, x, y) {
        lemma_word_start(g, an, x, y);
    } else if let Some((px, py)) = back_one(g, x, y) {
        lemma_skip_back(g, an, px, py);
    }
}

proof fn lemma_word_last(g: Rows, an: Marks, x: int, y: int)
    requires
        inside(g, x, y),
    ensures
        inside(g, word_last(g, an, x, y).0, word_last(g, an, x, y).1),
    decreases g.len() - y, width_of(g) - x,
{
    if let Some((nx, ny)) = fwd_one(g, x, y) {
        if word_cell(g, an, nx, ny) {
            lemma_word_last(g, an, nx, ny);
        }
    }
}

proof fn lemma_skip_fwd(g: Rows, an: Marks, x: int, y: int)
    requires
        inside(g, x, y),
    ensures
        skip_fwd(g, an, x, y) matches Some((a, b)) ==> inside(g, a, b),
    decreases g.len() - y, width_of(g) - x,
{
    if word_cell(g, an, x, y) {
        lemma_word_last(g, an, x, y);
    } else if let Some((nx, ny)) = fwd_one(g, x, y) {
        lemma_skip_fwd(g, an, nx, ny);
    }
}

/// From a cell inside the grid, every motion lands inside the grid.
pub proof fn lemma_motion_in_bounds(g: Rows, an: Marks, p: Position, c: VimCommand)
    requires
        in_bounds(g, p),
        width_of(g) <= usize::MAX,
        g.len() <= usize::MAX,
    ensures
        in_bounds(g, motion_in(g, an, p, c).pos),
{
    let x = p.x as int;
    let y = p.y as int;
    let l = motion_in(g, an, p, c);
    match c {
        VimCommand::MoveLeft | VimCommand::MoveRight | VimCommand::MoveUp | VimCommand::MoveDown => {
            if l.checked {
                let (nx, ny) = if c is MoveLeft {
                    (x - 1, y)
                } else if c is MoveRight {
                    (x + 1, y)
                } else if c is MoveUp {
                    (x, y - 1)
                } else {
                    (x, y + 1)
                };
                lemma_open_in_bounds(g, nx, ny);
            }
        },
        VimCommand::MoveWordForward => {
            lemma_word_fwd_scan(g, an, x, y, false);
            if let Some((a, b)) = word_fwd_scan(g, an, x, y, false) {
                lemma_open_in_bounds(g, a, b);
            }
        },
        VimCommand::MoveWordBack => {
            if let Some((a, b)) = back_one(g, x, y) {
                lemma_skip_back(g, an, a, b);
            }
        },
        VimCommand::MoveWordEnd => {
            if let Some((a, b)) = fwd_one(g, x, y) {
                lemma_skip_fwd(g, an, a, b);
            }
        },
        VimCommand::MoveLineStart => {
            lemma_first_open_in_row(g, y, 0);
            if l.checked {
                lemma_open_in_bounds(g, l.pos.x as int, l.pos.y as int);
            }
        },
        VimCommand::MoveLineEnd => {
            lemma_last_open_in_row(g, y, width_of(g));
            if l.checked {
                lemma_open_in_bounds(g, l.pos.x as int, l.pos.y as int);
            }
        },
        VimCommand::MoveScreenTop => {
            lemma_first_open_in_col(g, x, 0);
            if l.checked {
                lemma_open_in_bounds(g, l.pos.x as int, l.pos.y as int);
            }
        },
        VimCommand::MoveScreenBottom => {
            lemma_last_open_in_col(g, x, g.len() as int);
            if l.checked {
                lemma_open_in_bounds(g, l.pos.x as int, l.pos.y as int);
            }
        },
        VimCommand::MoveScreenMiddle => {
            lemma_outward_open(g, x, g.len() as int / 2, 1);
            if l.checked {
                lemma_open_in_bounds(g, l.pos.x as int, l.pos.y as int);
            }
        },
        VimCommand::MoveParagraphForward => {
            lemma_next_break(g, an, x, y + 1);
            if l.checked {
                lemma_open_in_bounds(g, l.pos.x as int, l.pos.y as int);
            }
        },
        VimCommand::MoveParagraphBack => {
            lemma_prev_break(g, an, x, y);
            if l.checked {
                lemma_open_in_bounds(g, l.pos.x as int, l.pos.y as int);
            }
        },
        VimCommand::FindNextChar(t) | VimCommand::TillNextChar(t) => {
            lemma_find_ahead(g, y, t, x + 1);
        },
        VimCommand::FindPrevChar(t) | VimCommand::TillPrevChar(t) => {
            lemma_find_behind(g, y, t, x);
        },
        VimCommand::SearchForward(q) => {
            lemma_search_ahead(g, q@, (x, y), (x, y), cycle_len(g));
        },
        VimCommand::SearchBackward(q) => {
            lemma_search_behind(g, q@, (x, y), (x, y), cycle_len(g));
        },
        _ => {},
    }
}

proof fn lemma_find_ahead(g: Rows, y: int, t: char, x: int)
    ensures
        find_ahead(g, y, t, x) matches Some(r) ==> x <= r < width_of(g),
    decreases width_of(g) - x,
{
    if 0 <= x < width_of(g) {
        lemma_find_ahead(g, y, t, x + 1);
    }
}

proof fn lemma_find_behind(g: Rows, y: int, t: char, n: int)
    ensures
        find_behind(g, y, t, n) matches Some(r) ==> 0 <= r < n,
    decreases n,
{
    if n > 0 {
        lemma_find_behind(g, y, t, n - 1);
    }
}

proof fn lemma_search_ahead(g: Rows, q: Seq<char>, s: (int, int), cur: (int, int), fuel: nat)
    requires
        inside(g, cur.0, cur.1),
    ensures
        search_ahead(g, q, s, cur, fuel) matches Some((a, b)) ==> inside(g, a, b),
    decreases fuel,
{
    if fuel > 0 {
        lemma_search_ahead(g, q, s, cycle_next(g, cur.0, cur.1), (fuel - 1) as nat);
    }
}

proof fn lemma_search_behind(g: Rows, q: Seq<char>, s: (int, int), cur: (int, int), fuel: nat)
    requires
        inside(g, cur.0, cur.1),
    ensures
        search_behind(g, q, s, cur, fuel) matches Some((a, b)) ==> inside(g, a, b),
    decreases fuel,
{
    if fuel > 0 {
        lemma_search_behind(g, q, s, cycle_prev(g, cur.0, cur.1), (fuel - 1) as nat);
    }
}

/// Rows of equal lengths give equal widths.
pub proof fn lemma_same_shape_width(g: Rows, h: Rows)
    requires
        g.len() == h.len(),
        forall|i: int| 0 <= i < g.len() ==> #[trigger] g[i].len() == h[i].len(),
    ensures
        width_of(g) == width_of(h),
    decreases g.len(),
{
    if g.len() > 0 {
        lemma_same_shape_width(g.drop_last(), h.drop_last());
    }
}

/// Clearing keeps the grid's shape.
pub proof fn lemma_cleared_shape(g: Rows, p: Position)
    ensures
        cleared(g, p).len() == g.len(),
        forall|i: int| 0 <= i < g.len() ==> #[trigger] cleared(g, p)[i].len() == g[i].len(),
        width_of(cleared(g, p)) == width_of(g),
{
    let h = cleared(g, p);
    assert forall|i: int| 0 <= i < g.len() implies #[trigger] h[i].len() == g[i].len() by {}
    lemma_same_shape_width(h, g);
}

} // verus!
