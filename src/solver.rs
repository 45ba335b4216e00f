use vstd::prelude::*;
use crate::engine::{
    apply_motion_in, delete_char, get_char_at, letter_cells, letters, grid_after, grid_width, in_bounds, Marks,
    lemma_cleared_shape, lemma_motion_in_bounds, lemma_same_shape_width, motion, width_of,
};
use crate::game::{GameState, GameStatus, dispatched};
use crate::input::VimCommand;
use crate::level::{Level, Position, Rows, cell_char, push_char};

verus! {

/// Largest number of nodes that one search expands.
pub const MAX_NODES: usize = 500000;

/// Replays `path` from cursor `p` on grid `g`, each command as a fresh
/// session would dispatch it. `None` when a command lands on a hazard that
/// is not the target.
pub open spec fn replay(g: Rows, p: Position, target: Position, path: Seq<VimCommand>) -> Option<(Position, Rows)>
    decreases path.len(),
{
    if path.len() == 0 {
        Some((p, g))
    } else {
        match replay(g, p, target, path.drop_last()) {
            None => None,
            Some(st) => successor(st, target, path.last()),
        }
    }
}

/// The state that command `c` leads to from cursor `st.0` on grid `st.1`,
/// as a fresh session would dispatch it; `None` when it lands on a hazard
/// that is not the target.
pub open spec fn successor(st: (Position, Rows), target: Position, c: VimCommand) -> Option<(Position, Rows)> {
    let l = motion(st.1, st.0, c);
    if l.checked && cell_char(st.1, l.pos.x as int, l.pos.y as int) == '~' && l.pos != target {
        None
    } else {
        Some((l.pos, grid_after(st.1, st.0, c)))
    }
}

/// `path` leads from the level's start to its target without landing on a
/// hazard on the way.
pub open spec fn solves(level: Level, path: Seq<VimCommand>) -> bool {
    replay(level.rows(), level.start_pos, level.target_pos, path) matches Some((q, _))
        && q == level.target_pos
}

/// The maximal runs of word characters in a row, left to right, given the
/// run `cur` already under way; `fl` flags the row's alphanumeric cells.
pub open spec fn runs_from(row: Seq<char>, fl: Seq<bool>, cur: Seq<char>) -> Seq<Seq<char>>
    decreases row.len(),
{
    if row.len() == 0 {
        if cur.len() > 0 {
            seq![cur]
        } else {
            seq![]
        }
    } else if fl[0] || row[0] == '_' {
        runs_from(row.drop_first(), fl.drop_first(), cur.push(row[0]))
    } else if cur.len() > 0 {
        seq![cur] + runs_from(row.drop_first(), fl.drop_first(), seq![])
    } else {
        runs_from(row.drop_first(), fl.drop_first(), seq![])
    }
}

/// The word runs of all rows, top to bottom, with `an` flagging the
/// alphanumeric cells.
pub open spec fn all_runs(g: Rows, an: Marks) -> Seq<Seq<char>>
    decreases g.len(),
{
    if g.len() == 0 {
        seq![]
    } else {
        all_runs(g.drop_last(), an.drop_last()) + runs_from(g.last(), an.last(), seq![])
    }
}

/// Made only of rubble, floor and wall characters.
pub open spec fn structural(w: Seq<char>) -> bool {
    forall|i: int| 0 <= i < w.len() ==> (#[trigger] w[i] == 'X' || w[i] == '.' || w[i] == '#')
}

/// A word worth searching for: a run of the grid that is not structural.
pub open spec fn interesting(g: Rows, an: Marks, w: Seq<char>) -> bool {
    all_runs(g, an).contains(w) && !structural(w)
}

/// Manhattan distance, capped at the largest `usize`.
pub open spec fn distance(a: Position, b: Position) -> int {
    let dx = if a.x >= b.x {
        a.x - b.x
    } else {
        b.x - a.x
    };
    let dy = if a.y >= b.y {
        a.y - b.y
    } else {
        b.y - a.y
    };
    if dx + dy <= usize::MAX {
        dx + dy
    } else {
        usize::MAX as int
    }
}

/// A best-first search for a command sequence that solves a level.
pub struct Solver {
    pub level: Level,
    pub interesting_words: Vec<String>,
}

/// A search node: a cursor and grid, the commands that reached them, the
/// cost so far and the distance estimate.
struct Node {
    pos: Position,
    grid: Vec<Vec<char>>,
    path: Vec<VimCommand>,
    cost: usize,
    heuristic: usize,
}

/// Whether `s` is among the strings of `v`.
fn contains_string(v: &Vec<String>, s: &Vec<char>) -> (r: bool)
    ensures
        r == exists|i: int| 0 <= i < v@.len() && #[trigger] v@[i]@ == s@,
{
    let mut i: usize = 0;
    while i < v.len()
        invariant
            i <= v@.len(),
            forall|k: int| 0 <= k < i ==> #[trigger] v@[k]@ != s@,
        decreases v@.len() - i,
    {
        let w = &v[i];
        let n = w.as_str().unicode_len();
        if n == s.len() {
            let mut j: usize = 0;
            let mut same = true;
            while j < n
                invariant
                    n == w@.len(),
                    n == s@.len(),
                    j <= n,
                    same ==> forall|k: int| 0 <= k < j ==> w@[k] == s@[k],
                    !same ==> w@ != s@,
                decreases n - j,
            {
                if w.as_str().get_char(j) != s[j] {
                    same = false;
                }
                j = j + 1;
            }
            if same {
                proof {
                    assert(w@ =~= s@);
                }
                return true;
            }
        }
        i = i + 1;
    }
    false
}

/// Whether every character is `X`, `.` or `#`.
fn is_structural(w: &Vec<char>) -> (r: bool)
    ensures
        r == structural(w@),
{
    let mut i: usize = 0;
    while i < w.len()
        invariant
            i <= w@.len(),
            forall|k: int| 0 <= k < i ==> (#[trigger] w@[k] == 'X' || w@[k] == '.' || w@[k] == '#'),
        decreases w@.len() - i,
    {
        if w[i] != 'X' && w[i] != '.' && w[i] != '#' {
            return false;
        }
        i = i + 1;
    }
    true
}

/// A string with the given characters.
fn string_of(v: &Vec<char>) -> (r: String)
    ensures
        r@ == v@,
{
    let mut s = String::new();
    let mut i: usize = 0;
    while i < v.len()
        invariant
            i <= v@.len(),
            s@ =~= v@.take(i as int),
        decreases v@.len() - i,
    {
        push_char(&mut s, v[i]);
        i = i + 1;
    }
    proof {
        assert(v@.take(i as int) =~= v@);
    }
    s
}

/// Some string of `words` reads `w`.
pub open spec fn holds(words: Seq<String>, w: Seq<char>) -> bool {
    exists|i: int| 0 <= i < words.len() && #[trigger] words[i]@ == w
}

/// No two strings of `words` read the same.
pub open spec fn distinct(words: Seq<String>) -> bool {
    forall|i: int, j: int| 0 <= i < j < words.len() ==> #[trigger] words[i]@ != #[trigger] words[j]@
}

proof fn lemma_contains_concat(a: Seq<Seq<char>>, b: Seq<Seq<char>>, w: Seq<char>)
    ensures
        (a + b).contains(w) <==> a.contains(w) || b.contains(w),
{
    if (a + b).contains(w) {
        let i = choose|i: int| 0 <= i < (a + b).len() && (a + b)[i] == w;
        if i < a.len() {
            assert(a[i] == w);
        } else {
            assert(b[i - a.len()] == w);
        }
    }
    if a.contains(w) {
        let i = choose|i: int| 0 <= i < a.len() && a[i] == w;
        assert((a + b)[i] == w);
    }
    if b.contains(w) {
        let i = choose|i: int| 0 <= i < b.len() && b[i] == w;
        assert((a + b)[i + a.len()] == w);
    }
}

proof fn lemma_push_run(done: Seq<Seq<char>>, run: Seq<char>)
    ensures
        forall|w: Seq<char>| #[trigger] (done + seq![run]).contains(w) <==> (done.contains(w) || w == run),
{
    assert forall|w: Seq<char>| #[trigger] (done + seq![run]).contains(w) <==> (done.contains(w) || w == run) by {
        lemma_contains_concat(done, seq![run], w);
        if w == run {
            assert(seq![run][0] == w);
        }
        if seq![run].contains(w) {
            assert(seq![run][0] == w);
        }
    }
}

/// Records a finished run: it joins `words` unless it is structural or
/// already there.
fn add_word(words: &mut Vec<String>, run: &Vec<char>)
    requires
        distinct(old(words)@),
    ensures
        distinct(final(words)@),
        forall|w: Seq<char>|
            holds(final(words)@, w) <==> (holds(old(words)@, w) || (w == run@ && !structural(
                run@,
            ))),
{
    if is_structural(run) || contains_string(words, run) {
        return;
    }
    let ghost before = words@;
    let s = string_of(run);
    words.push(s);
    proof {
        assert forall|w: Seq<char>|
            holds(words@, w) <==> (holds(before, w) || (w == run@ && !structural(run@))) by {
            if holds(words@, w) {
                let i = choose|i: int| 0 <= i < words@.len() && #[trigger] words@[i]@ == w;
                if i < before.len() {
                    assert(before[i]@ == w);
                }
            }
            if holds(before, w) {
                let i = choose|i: int| 0 <= i < before.len() && #[trigger] before[i]@ == w;
                assert(words@[i]@ == w);
            }
            if w == run@ {
                assert(words@[before.len() as int]@ == w);
            }
        }
    }
}

impl Solver {
    /// The interesting words of a grid, each once: the maximal runs of word
    /// characters in its rows that are not made only of `X`, `.` and `#`.
    pub fn extract_words(g: &Vec<Vec<char>>) -> (r: Vec<String>)
        ensures
            distinct(r@),
            forall|w: Seq<char>| holds(r@, w) <==> interesting(g.deep_view(), letters(g.deep_view()), w),
    {
        let an = letter_cells(g);
        Self::extract_words_in(g, &an)
    }

    /// `extract_words`, with the alphanumeric cells of `g` flagged in `an`.
    pub fn extract_words_in(g: &Vec<Vec<char>>, an: &Vec<Vec<bool>>) -> (r: Vec<String>)
        requires
            an.deep_view().len() == g.deep_view().len(),
            forall|y: int|
                0 <= y < g.deep_view().len() ==> #[trigger] an.deep_view()[y].len()
                    == g.deep_view()[y].len(),
        ensures
            distinct(r@),
            forall|w: Seq<char>| holds(r@, w) <==> interesting(g.deep_view(), an.deep_view(), w),
    {
        let ghost av = an.deep_view();
        let ghost gv = g.deep_view();
        let mut words: Vec<String> = Vec::new();
        let mut y: usize = 0;
        while y < g.len()
            invariant
                gv == g.deep_view(),
                av == an.deep_view(),
                av.len() == gv.len(),
                forall|r: int| 0 <= r < gv.len() ==> #[trigger] av[r].len() == gv[r].len(),
                y <= gv.len(),
                distinct(words@),
                forall|w: Seq<char>|
                    #[trigger] holds(words@, w) <==> (all_runs(gv.take(y as int), av.take(y as int)).contains(w)
                        && !structural(w)),
            decreases gv.len() - y,
        {
            let row = &g[y];
            let fl = &an[y];
            let ghost rv = row@;
            let ghost fv = av[y as int];
            proof {
                assert(fl.deep_view() =~= fl@);
                assert(av[y as int].len() == gv[y as int].len());
            }
            let ghost prior = all_runs(gv.take(y as int), av.take(y as int));
            let ghost mut done: Seq<Seq<char>> = seq![];
            let mut cur: Vec<char> = Vec::new();
            let mut i: usize = 0;
            proof {
                assert(rv.subrange(0, rv.len() as int) =~= rv);
                assert(fv.subrange(0, fv.len() as int) =~= fv);
                assert(done + runs_from(rv, fv, seq![]) =~= runs_from(rv, fv, seq![]));
                assert forall|w: Seq<char>|
                    #[trigger] holds(words@, w) <==> ((prior.contains(w) || done.contains(w))
                        && !structural(w)) by {
                    assert(!done.contains(w));
                }
            }
            while i < row.len()
                invariant
                    gv == g.deep_view(),
                    y < gv.len(),
                    rv == gv[y as int],
                    rv == row@,
                    av == an.deep_view(),
                    fv == av[y as int],
                    fv == fl@,
                    fv.len() == rv.len(),
                    prior == all_runs(gv.take(y as int), av.take(y as int)),
                    i <= rv.len(),
                    distinct(words@),
                    runs_from(rv, fv, seq![]) == done + runs_from(
                        rv.subrange(i as int, rv.len() as int),
                        fv.subrange(i as int, fv.len() as int),
                        cur@,
                    ),
                    forall|w: Seq<char>|
                        #[trigger] holds(words@, w) <==> ((prior.contains(w) || done.contains(w))
                            && !structural(w)),
                decreases rv.len() - i,
            {
                let c = row[i];
                let ghost rest = rv.subrange(i as int, rv.len() as int);
                let ghost frest = fv.subrange(i as int, fv.len() as int);
                let ghost old_cur = cur@;
                let ghost old_done = done;
                proof {
                    assert(rest[0] == c);
                    assert(rest.drop_first() =~= rv.subrange(i + 1, rv.len() as int));
                    assert(frest[0] == fv[i as int]);
                    assert(frest.drop_first() =~= fv.subrange(i + 1, fv.len() as int));
                }
                if fl[i] || c == '_' {
                    cur.push(c);
                    proof {
                        assert(runs_from(rest, frest, old_cur) == runs_from(rest.drop_first(), frest.drop_first(), cur@));
                    }
                } else if cur.len() > 0 {
                    add_word(&mut words, &cur);
                    proof {
                        assert(runs_from(rest, frest, old_cur) == seq![old_cur] + runs_from(
                            rest.drop_first(),
                            frest.drop_first(),
                            seq![],
                        ));
                        lemma_push_run(old_done, old_cur);
                        done = done + seq![cur@];
                        assert forall|w: Seq<char>|
                            #[trigger] holds(words@, w) <==> ((prior.contains(w) || done.contains(w))
                                && !structural(w)) by {
                            assert(done.contains(w) <==> (old_done.contains(w) || w == old_cur));
                        }
                        assert(old_done + (seq![old_cur] + runs_from(rest.drop_first(), frest.drop_first(), seq![]))
                            =~= done + runs_from(rest.drop_first(), frest.drop_first(), seq![]));
                    }
                    cur = Vec::new();
                    proof {
                        assert(cur@ =~= Seq::<char>::empty());
                    }
                } else {
                    proof {
                        assert(old_cur =~= Seq::<char>::empty());
                        assert(runs_from(rest, frest, old_cur) == runs_from(rest.drop_first(), frest.drop_first(), seq![]));
                    }
                }
                i = i + 1;
            }
            proof {
                assert(rv.subrange(i as int, rv.len() as int) =~= Seq::<char>::empty());
            }
            if cur.len() > 0 {
                add_word(&mut words, &cur);
                proof {
                    let ghost old_done = done;
                    lemma_push_run(done, cur@);
                    done = done + seq![cur@];
                    assert forall|w: Seq<char>|
                        #[trigger] holds(words@, w) <==> ((prior.contains(w) || done.contains(w))
                            && !structural(w)) by {
                        assert(done.contains(w) <==> (old_done.contains(w) || w == cur@));
                    }
                }
            } else {
                proof {
                    assert(done + seq![] =~= done);
                }
            }
            proof {
                assert(runs_from(rv, fv, seq![]) == done);
                assert(gv.take(y + 1).drop_last() =~= gv.take(y as int));
                assert(gv.take(y + 1).last() == rv);
                assert(av.take(y + 1).drop_last() =~= av.take(y as int));
                assert(av.take(y + 1).last() == fv);
                assert forall|w: Seq<char>|
                    #[trigger] holds(words@, w) <==> (all_runs(gv.take(y + 1), av.take(y + 1)).contains(w)
                        && !structural(w)) by {
                    lemma_contains_concat(prior, done, w);
                }
            }
            y = y + 1;
        }
        proof {
            assert(gv.take(y as int) =~= gv);
            assert(av.take(y as int) =~= av);
        }
        words
    }
}

/// The commands tried from every node, in order.
pub open spec fn basic_motions() -> Seq<VimCommand> {
    seq![
        VimCommand::MoveLeft,
        VimCommand::MoveRight,
        VimCommand::MoveUp,
        VimCommand::MoveDown,
        VimCommand::MoveWordForward,
        VimCommand::MoveWordBack,
        VimCommand::MoveWordEnd,
        VimCommand::MoveLineStart,
        VimCommand::MoveLineEnd,
        VimCommand::MoveScreenTop,
        VimCommand::MoveScreenMiddle,
        VimCommand::MoveScreenBottom,
        VimCommand::MoveParagraphForward,
        VimCommand::MoveParagraphBack,
    ]
}

/// The cell under the cursor holds something that clearing would change:
/// not floor, blank or a marker.
pub open spec fn clearable(g: Rows, p: Position) -> bool {
    let c = cell_char(g, p.x as int, p.y as int);
    c != '.' && c != ' ' && c != 'S' && c != 'E'
}

/// A character of the cursor's row that find and till are tried on.
pub open spec fn find_target(g: Rows, p: Position, c: char) -> bool {
    p.y < g.len() && g[p.y as int].contains(c) && c != ' ' && c != '#'
}

/// The four find and till commands on `c` are all in `cmds`.
pub open spec fn has_finds(cmds: Seq<VimCommand>, c: char) -> bool {
    &&& cmds.contains(VimCommand::FindNextChar(c))
    &&& cmds.contains(VimCommand::FindPrevChar(c))
    &&& cmds.contains(VimCommand::TillNextChar(c))
    &&& cmds.contains(VimCommand::TillPrevChar(c))
}

/// Same row lengths.
pub open spec fn same_shape(a: Rows, b: Rows) -> bool {
    a.len() == b.len() && forall|i: int| 0 <= i < a.len() ==> #[trigger] a[i].len() == b[i].len()
}

fn copy_grid(g: &Vec<Vec<char>>) -> (r: Vec<Vec<char>>)
    ensures
        r.deep_view() == g.deep_view(),
{
    let mut r: Vec<Vec<char>> = Vec::new();
    let mut y: usize = 0;
    while y < g.len()
        invariant
            y <= g@.len(),
            r.deep_view() =~= g.deep_view().take(y as int),
        decreases g@.len() - y,
    {
        let row = &g[y];
        let mut cells: Vec<char> = Vec::new();
        let mut x: usize = 0;
        while x < row.len()
            invariant
                x <= row@.len(),
                cells@ =~= row@.take(x as int),
            decreases row@.len() - x,
        {
            cells.push(row[x]);
            x = x + 1;
        }
        proof {
            assert(cells@ =~= row@);
            assert(cells.deep_view() =~= cells@);
        }
        let ghost prev = r.deep_view();
        r.push(cells);
        proof {
            assert(r.deep_view() =~= prev.push(row@));
            assert(g.deep_view().take(y + 1) =~= g.deep_view().take(y as int).push(row@));
        }
        y = y + 1;
    }
    proof {
        assert(g.deep_view().take(y as int) =~= g.deep_view());
    }
    r
}

fn same_grid(a: &Vec<Vec<char>>, b: &Vec<Vec<char>>) -> (r: bool)
    ensures
        r == (a.deep_view() == b.deep_view()),
{
    if a.len() != b.len() {
        proof {
            assert(a.deep_view().len() != b.deep_view().len());
        }
        return false;
    }
    let mut y: usize = 0;
    while y < a.len()
        invariant
            a@.len() == b@.len(),
            y <= a@.len(),
            forall|k: int| 0 <= k < y ==> #[trigger] a.deep_view()[k] == b.deep_view()[k],
        decreases a@.len() - y,
    {
        let ra = &a[y];
        let rb = &b[y];
        if ra.len() != rb.len() {
            proof {
                assert(a.deep_view()[y as int].len() != b.deep_view()[y as int].len());
            }
            return false;
        }
        let mut x: usize = 0;
        while x < ra.len()
            invariant
                a@.len() == b@.len(),
                y < a@.len(),
                ra@ == a.deep_view()[y as int],
                rb@ == b.deep_view()[y as int],
                forall|k: int| 0 <= k < y ==> #[trigger] a.deep_view()[k] == b.deep_view()[k],
                ra@.len() == rb@.len(),
                x <= ra@.len(),
                forall|k: int| 0 <= k < x ==> ra@[k] == rb@[k],
            decreases ra@.len() - x,
        {
            if ra[x] != rb[x] {
                proof {
                    assert(a.deep_view()[y as int][x as int] != b.deep_view()[y as int][x as int]);
                }
                return false;
            }
            x = x + 1;
        }
        proof {
            assert(ra@ =~= rb@);
        }
        y = y + 1;
    }
    proof {
        assert(a.deep_view() =~= b.deep_view());
    }
    true
}

fn copy_path(p: &Vec<VimCommand>) -> (r: Vec<VimCommand>)
    ensures
        r@ == p@,
{
    let mut r: Vec<VimCommand> = Vec::new();
    let mut i: usize = 0;
    while i < p.len()
        invariant
            i <= p@.len(),
            r@ =~= p@.take(i as int),
        decreases p@.len() - i,
    {
        r.push(p[i].duplicate());
        i = i + 1;
    }
    proof {
        assert(p@.take(i as int) =~= p@);
    }
    r
}

impl Solver {
    /// A solver for `level`, with the level's interesting words.
    pub fn new(level: Level) -> (r: Solver)
        ensures
            r.level == level,
            distinct(r.interesting_words@),
            forall|w: Seq<char>|
                holds(r.interesting_words@, w) <==> interesting(level.rows(), letters(level.rows()), w),
    {
        let g = level.grid();
        let words = Self::extract_words(&g);
        Solver { level, interesting_words: words }
    }

    /// Manhattan distance from `p` to the target.
    fn heuristic(&self, p: Position) -> (r: usize)
        ensures
            r == distance(p, self.level.target_pos),
    {
        let t = self.level.target_pos;
        let dx = if p.x >= t.x {
            p.x - t.x
        } else {
            t.x - p.x
        };
        let dy = if p.y >= t.y {
            p.y - t.y
        } else {
            t.y - p.y
        };
        if dx <= usize::MAX - dy {
            dx + dy
        } else {
            usize::MAX
        }
    }

    /// The commands tried from cursor `p` on grid `g`: every plain motion;
    /// clearing where it would change the cell; find and till on each
    /// character of the row but blanks and walls; a search for each
    /// interesting word.
    fn candidates(&self, g: &Vec<Vec<char>>, p: Position) -> (r: Vec<VimCommand>)
        ensures
            r@.len() >= 14,
            r@.take(14) == basic_motions(),
            r@.contains(VimCommand::DeleteChar) <==> clearable(g.deep_view(), p),
            forall|c: char| find_target(g.deep_view(), p, c) ==> #[trigger] has_finds(r@, c),
            forall|i: int|
                0 <= i < self.interesting_words@.len() ==> r@.contains(
                    VimCommand::SearchForward(#[trigger] self.interesting_words@[i]),
                ),
            forall|c: VimCommand|
                #[trigger] r@.contains(c) <==> is_candidate(
                    g.deep_view(),
                    p,
                    self.interesting_words@,
                    c,
                ),
    {
        let mut cmds: Vec<VimCommand> = vec![
            VimCommand::MoveLeft,
            VimCommand::MoveRight,
            VimCommand::MoveUp,
            VimCommand::MoveDown,
            VimCommand::MoveWordForward,
            VimCommand::MoveWordBack,
            VimCommand::MoveWordEnd,
            VimCommand::MoveLineStart,
            VimCommand::MoveLineEnd,
            VimCommand::MoveScreenTop,
            VimCommand::MoveScreenMiddle,
            VimCommand::MoveScreenBottom,
            VimCommand::MoveParagraphForward,
            VimCommand::MoveParagraphBack,
        ];
        proof {
            assert(cmds@ =~= basic_motions());
            assert(!cmds@.contains(VimCommand::DeleteChar)) by {
                if cmds@.contains(VimCommand::DeleteChar) {
                    let k = choose|k: int| 0 <= k < cmds@.len() && cmds@[k] == VimCommand::DeleteChar;
                    assert(basic_motions()[k] != VimCommand::DeleteChar);
                }
            }
        }
        let here = get_char_at(g, p.x, p.y);
        let clear = here != '.' && here != ' ' && here != 'S' && here != 'E';
        if clear {
            cmds.push(VimCommand::DeleteChar);
            proof {
                assert(cmds@[14] == VimCommand::DeleteChar);
            }
        }
        let ghost fixed = cmds@;
        if p.y < g.len() {
            let row = &g[p.y];
            proof {
                assert(row@ == g.deep_view()[p.y as int]);
            }
            add_finds(&mut cmds, row);
        }
        proof {
            assert(cmds@.len() >= fixed.len());
            assert forall|k: int| fixed.len() <= k < cmds@.len() implies p.y < g.deep_view().len()
                && finds_in_row(g.deep_view()[p.y as int], #[trigger] cmds@[k]) by {}
        }
        let ghost mid = cmds@;
        let mut i: usize = 0;
        while i < self.interesting_words.len()
            invariant
                i <= self.interesting_words@.len(),
                cmds@.len() == mid.len() + i,
                cmds@.take(mid.len() as int) == mid,
                forall|k: int|
                    0 <= k < i ==> cmds@[mid.len() + k] == VimCommand::SearchForward(
                        #[trigger] self.interesting_words@[k],
                    ),
            decreases self.interesting_words@.len() - i,
        {
            let ghost before = cmds@;
            cmds.push(VimCommand::SearchForward(self.interesting_words[i].clone()));
            proof {
                assert(cmds@.take(mid.len() as int) =~= before.take(mid.len() as int));
            }
            i = i + 1;
        }
        proof {
            assert(cmds@.take(14) =~= mid.take(14));
            assert(mid.take(14) =~= fixed.take(14));
            assert forall|k: int| 0 <= k < self.interesting_words@.len() implies cmds@.contains(
                VimCommand::SearchForward(#[trigger] self.interesting_words@[k]),
            ) by {
                assert(cmds@[mid.len() + k] == VimCommand::SearchForward(self.interesting_words@[k]));
            }
            assert forall|ch: char| find_target(g.deep_view(), p, ch) implies #[trigger] has_finds(cmds@, ch) by {
                assert(has_finds(mid, ch));
                lemma_has_finds_grow(mid, cmds@, ch);
            }
            if cmds@.contains(VimCommand::DeleteChar) {
                let k = choose|k: int| 0 <= k < cmds@.len() && cmds@[k] == VimCommand::DeleteChar;
                if k >= mid.len() {
                    let kk = k - mid.len();
                    assert(cmds@[mid.len() + kk] == VimCommand::SearchForward(
                        self.interesting_words@[kk],
                    ));
                } else if k >= fixed.len() {
                    assert(mid[k] == cmds@[k]);
                    assert(is_find_command(mid[k]));
                } else {
                    assert(fixed[k] == cmds@[k]);
                    assert(clear);
                }
            }
            if clear {
                assert(mid[14] == VimCommand::DeleteChar);
                assert(cmds@[14] == VimCommand::DeleteChar);
            }
            let words = self.interesting_words@;
            let gv = g.deep_view();
            assert forall|c: VimCommand| #[trigger] cmds@.contains(c) implies is_candidate(gv, p, words, c) by {
                let k = choose|k: int| 0 <= k < cmds@.len() && cmds@[k] == c;
                if k >= mid.len() {
                    let kk = k - mid.len();
                    assert(cmds@[mid.len() + kk] == VimCommand::SearchForward(words[kk]));
                } else if k >= fixed.len() {
                    assert(mid[k] == cmds@[k]);
                    assert(finds_in_row(gv[p.y as int], mid[k]));
                    assert(find_target(gv, p, find_char_of(c)));
                } else if k < 14 {
                    assert(fixed[k] == cmds@[k]);
                    assert(basic_motions()[k] == c);
                } else {
                    assert(fixed[k] == cmds@[k]);
                }
            }
            assert forall|c: VimCommand| is_candidate(gv, p, words, c) implies #[trigger] cmds@.contains(c) by {
                if basic_motions().contains(c) {
                    let k = choose|k: int| 0 <= k < 14 && basic_motions()[k] == c;
                    assert(cmds@.take(14)[k] == cmds@[k]);
                } else if is_find_command(c) && find_target(gv, p, find_char_of(c)) {
                    assert(has_finds(cmds@, find_char_of(c)));
                } else if exists|i: int| 0 <= i < words.len() && c == VimCommand::SearchForward(words[i]) {
                    let i = choose|i: int| 0 <= i < words.len() && c == VimCommand::SearchForward(words[i]);
                    assert(cmds@.contains(VimCommand::SearchForward(words[i])));
                }
            }
        }
        cmds
    }
}

/// The commands the search tries from cursor `p` on grid `g`: the plain
/// motions, clearing where it changes the cell, find and till on each
/// character of the row but blanks and walls, and a search for each of
/// `words`.
pub open spec fn is_candidate(g: Rows, p: Position, words: Seq<String>, c: VimCommand) -> bool {
    ||| basic_motions().contains(c)
    ||| (c is DeleteChar && clearable(g, p))
    ||| (is_find_command(c) && find_target(g, p, find_char_of(c)))
    ||| exists|i: int| 0 <= i < words.len() && c == VimCommand::SearchForward(words[i])
}

/// Every command of `path` is a search candidate at the state where it is
/// applied.
pub open spec fn candidate_path(level: Level, words: Seq<String>, path: Seq<VimCommand>) -> bool {
    forall|k: int| 0 <= k < path.len() ==> #[trigger] candidate_step(level, words, path, k)
}

/// Command `k` of `path` is a candidate at the state that the commands
/// before it reach.
pub open spec fn candidate_step(level: Level, words: Seq<String>, path: Seq<VimCommand>, k: int) -> bool {
    replay(level.rows(), level.start_pos, level.target_pos, path.take(k)) matches Some(st)
        && is_candidate(st.1, st.0, words, path[k])
}

/// No strict prefix of `path` reaches the target.
pub open spec fn avoids_target(level: Level, path: Seq<VimCommand>) -> bool {
    forall|k: int| 0 <= k < path.len() ==> #[trigger] short_of_target(level, path, k)
}

/// The first `k` commands of `path` lead to a cell other than the target.
pub open spec fn short_of_target(level: Level, path: Seq<VimCommand>, k: int) -> bool {
    replay(level.rows(), level.start_pos, level.target_pos, path.take(k)) matches Some(st)
        && st.0 != level.target_pos
}

/// Some path of candidates leads from the start to state `st`.
pub open spec fn reachable(level: Level, words: Seq<String>, st: (Position, Rows)) -> bool {
    exists|path: Seq<VimCommand>|
        candidate_path(level, words, path) && #[trigger] replay(
            level.rows(),
            level.start_pos,
            level.target_pos,
            path,
        ) == Some(st)
}

/// More than `MAX_NODES` distinct states are reachable by candidates.
pub open spec fn beyond_budget(level: Level, words: Seq<String>) -> bool {
    exists|s: Set<(Position, Rows)>|
        s.finite() && s.len() > MAX_NODES && forall|st: (Position, Rows)|
            #[trigger] s.contains(st) ==> reachable(level, words, st)
}

/// The state recorded at index `k` of a visited list.
pub open spec fn vis(v: Seq<(Position, Vec<Vec<char>>)>, k: int) -> (Position, Rows) {
    (v[k].0, v[k].1.deep_view())
}

/// `st` is recorded in the visited list.
pub open spec fn in_visited(v: Seq<(Position, Vec<Vec<char>>)>, st: (Position, Rows)) -> bool {
    exists|k: int| 0 <= k < v.len() && #[trigger] vis(v, k) == st
}

spec fn state_of(e: (Position, Vec<Vec<char>>)) -> (Position, Rows) {
    (e.0, e.1.deep_view())
}

spec fn node_state(n: Node) -> (Position, Rows) {
    (n.pos, n.grid.deep_view())
}

spec fn queued(q: Seq<Node>, st: (Position, Rows)) -> bool {
    exists|j: int| 0 <= j < q.len() && #[trigger] node_state(q[j]) == st
}

/// A queued node: on the grid, shaped like the level, and reached from the
/// start by its path of candidates without passing the target.
spec fn node_ok(level: Level, words: Seq<String>, n: Node) -> bool {
    &&& in_bounds(n.grid.deep_view(), n.pos)
    &&& same_shape(n.grid.deep_view(), level.rows())
    &&& replay(level.rows(), level.start_pos, level.target_pos, n.path@) == Some(node_state(n))
    &&& candidate_path(level, words, n.path@)
    &&& avoids_target(level, n.path@)
}

/// An expanded state: reachable, not the target, recorded, and with every
/// candidate's successor recorded.
spec fn closed_ok(level: Level, words: Seq<String>, v: Seq<(Position, Vec<Vec<char>>)>, st: (Position, Rows)) -> bool {
    &&& reachable(level, words, st)
    &&& st.0 != level.target_pos
    &&& in_visited(v, st)
    &&& forall|c: VimCommand|
        is_candidate(st.1, st.0, words, c) && #[trigger] successor(st, level.target_pos, c) is Some
            ==> in_visited(v, successor(st, level.target_pos, c)->0)
}

spec fn priority_of(n: Node) -> int {
    if n.cost + n.heuristic <= usize::MAX {
        n.cost + n.heuristic
    } else {
        usize::MAX as int
    }
}

proof fn lemma_visited_grow(a: Seq<(Position, Vec<Vec<char>>)>, b: Seq<(Position, Vec<Vec<char>>)>, st: (Position, Rows))
    requires
        a.len() <= b.len(),
        forall|k: int| 0 <= k < a.len() ==> #[trigger] b[k] == a[k],
        in_visited(a, st),
    ensures
        in_visited(b, st),
{
    let k = choose|k: int| 0 <= k < a.len() && #[trigger] vis(a, k) == st;
    assert(vis(b, k) == st);
}

proof fn lemma_closed_grow(
    level: Level,
    words: Seq<String>,
    a: Seq<(Position, Vec<Vec<char>>)>,
    b: Seq<(Position, Vec<Vec<char>>)>,
    st: (Position, Rows),
)
    requires
        a.len() <= b.len(),
        forall|k: int| 0 <= k < a.len() ==> #[trigger] b[k] == a[k],
        closed_ok(level, words, a, st),
    ensures
        closed_ok(level, words, b, st),
{
    lemma_visited_grow(a, b, st);
    assert forall|c: VimCommand|
        is_candidate(st.1, st.0, words, c) && #[trigger] successor(st, level.target_pos, c) is Some
            implies in_visited(b, successor(st, level.target_pos, c)->0) by {
        lemma_visited_grow(a, b, successor(st, level.target_pos, c)->0);
    }
}

/// Prefixes of a path extended by one command are the path's own prefixes.
proof fn lemma_extend_path(level: Level, words: Seq<String>, path: Seq<VimCommand>, c: VimCommand)
    requires
        candidate_path(level, words, path),
        avoids_target(level, path),
        replay(level.rows(), level.start_pos, level.target_pos, path) matches Some(st) && st.0
            != level.target_pos && is_candidate(st.1, st.0, words, c),
    ensures
        candidate_path(level, words, path.push(c)),
        avoids_target(level, path.push(c)),
        replay(level.rows(), level.start_pos, level.target_pos, path.push(c)) == successor(
            replay(level.rows(), level.start_pos, level.target_pos, path)->0,
            level.target_pos,
            c,
        ),
{
    let np = path.push(c);
    assert(np.drop_last() =~= path);
    assert forall|k: int| 0 <= k < np.len() implies #[trigger] candidate_step(level, words, np, k)
        && short_of_target(level, np, k) by {
        if k < path.len() {
            assert(np.take(k) =~= path.take(k));
            assert(candidate_step(level, words, path, k));
            assert(short_of_target(level, path, k));
        } else {
            assert(np.take(k) =~= path);
        }
    }
    assert forall|k: int| 0 <= k < np.len() implies #[trigger] short_of_target(level, np, k) by {
        assert(candidate_step(level, words, np, k) && short_of_target(level, np, k));
    }
}

/// With the expanded states closed under candidate moves and holding the
/// start, every path of candidates ends in an expanded state, if it does not
/// land on a hazard.
proof fn lemma_paths_stay_closed(level: Level, words: Seq<String>, closed: Set<(Position, Rows)>, path: Seq<VimCommand>)
    requires
        closed.contains((level.start_pos, level.rows())),
        forall|st: (Position, Rows), c: VimCommand|
            closed.contains(st) && is_candidate(st.1, st.0, words, c) && #[trigger] successor(
                st,
                level.target_pos,
                c,
            ) is Some ==> closed.contains(successor(st, level.target_pos, c)->0),
        candidate_path(level, words, path),
        replay(level.rows(), level.start_pos, level.target_pos, path) is Some,
    ensures
        closed.contains(replay(level.rows(), level.start_pos, level.target_pos, path)->0),
    decreases path.len(),
{
    if path.len() > 0 {
        let pre = path.drop_last();
        let k = path.len() - 1;
        assert(path.take(k) =~= pre);
        assert forall|j: int| 0 <= j < pre.len() implies #[trigger] candidate_step(level, words, pre, j) by {
            assert(pre.take(j) =~= path.take(j));
            assert(candidate_step(level, words, path, j));
        }
        lemma_paths_stay_closed(level, words, closed, pre);
        assert(candidate_step(level, words, path, k));
    }
}

/// A prefix of a path that replays without landing on a hazard replays too.
proof fn lemma_prefix_replays(g: Rows, p: Position, target: Position, path: Seq<VimCommand>, k: int)
    requires
        0 <= k <= path.len(),
        replay(g, p, target, path) is Some,
    ensures
        replay(g, p, target, path.take(k)) is Some,
    decreases path.len(),
{
    if k == path.len() {
        assert(path.take(k) =~= path);
    } else {
        assert(path.drop_last().take(k) =~= path.take(k));
        lemma_prefix_replays(g, p, target, path.drop_last(), k);
    }
}

/// The four one-cell moves.
pub open spec fn is_step_command(c: VimCommand) -> bool {
    c is MoveLeft || c is MoveRight || c is MoveUp || c is MoveDown
}

/// A plan of one-cell moves that solves a level is a path of candidates, so
/// `solve` returns a path for that level unless more than `MAX_NODES` states
/// are reachable by candidates.
pub proof fn lemma_step_plans_are_candidates(level: Level, words: Seq<String>, path: Seq<VimCommand>)
    requires
        forall|k: int| 0 <= k < path.len() ==> is_step_command(#[trigger] path[k]),
        solves(level, path),
    ensures
        candidate_path(level, words, path),
{
    assert forall|k: int| 0 <= k < path.len() implies #[trigger] candidate_step(level, words, path, k) by {
        lemma_prefix_replays(level.rows(), level.start_pos, level.target_pos, path, k);
        let c = path[k];
        assert(is_step_command(c));
        if c is MoveLeft {
            assert(basic_motions()[0] == c);
        } else if c is MoveRight {
            assert(basic_motions()[1] == c);
        } else if c is MoveUp {
            assert(basic_motions()[2] == c);
        } else {
            assert(basic_motions()[3] == c);
        }
    }
}

impl Solver {
    /// Searches for a command sequence from the start to the target. It
    /// expands the queued node of least cost plus distance first (the
    /// earliest queued among equals), tries every candidate command there,
    /// and queues each state (cursor and grid) not reached before.
    ///
    /// A sequence returned is made of candidates, reaches the target only at
    /// its end, and never lands on a hazard. `None` comes when the start lies
    /// off the grid, when no sequence of candidates solves the level, or when
    /// `MAX_NODES` nodes have been expanded, which needs more than that many
    /// reachable states.
    pub fn solve(&self) -> (r: Option<Vec<VimCommand>>)
        ensures
            r matches Some(path) ==> solves(self.level, path@) && candidate_path(
                self.level,
                self.interesting_words@,
                path@,
            ) && avoids_target(self.level, path@),
            !in_bounds(self.level.rows(), self.level.start_pos) ==> r is None,
            in_bounds(self.level.rows(), self.level.start_pos) && self.level.start_pos
                == self.level.target_pos ==> (r matches Some(path) && path@.len() == 0),
            r is None && in_bounds(self.level.rows(), self.level.start_pos) ==> (forall|
                path: Seq<VimCommand>,
            |
                candidate_path(self.level, self.interesting_words@, path) ==> !#[trigger] solves(
                    self.level,
                    path,
                )) || beyond_budget(self.level, self.interesting_words@),
    {
        let ghost lvl = self.level;
        let ghost words = self.interesting_words@;
        let g0 = self.level.grid();
        let ghost g0v = g0.deep_view();
        let w = grid_width(&g0);
        let h = g0.len();
        let start = self.level.start_pos;
        let target = self.level.target_pos;
        if start.x >= w || start.y >= h {
            return None;
        }
        if start == target {
            return Some(Vec::new());
        }
        let mut visited: Vec<(Position, Vec<Vec<char>>)> = Vec::new();
        visited.push((start, copy_grid(&g0)));
        let ghost mut closed: Set<(Position, Rows)> = Set::empty();
        let mut queue: Vec<Node> = Vec::new();
        let hv = self.heuristic(start);
        queue.push(Node { pos: start, grid: g0, path: Vec::new(), cost: 0, heuristic: hv });
        proof {
            assert(vis(visited@, 0) == (start, g0v));
            assert(node_state(queue@[0]) == (start, g0v));
            assert(in_visited(visited@, (start, g0v)));
            assert(queue@[0].path@ =~= Seq::<VimCommand>::empty());
            assert(same_shape(g0v, g0v));
        }
        let mut explored: usize = 0;
        while queue.len() > 0
            invariant
                lvl == self.level,
                words == self.interesting_words@,
                g0v == self.level.rows(),
                start == self.level.start_pos,
                target == self.level.target_pos,
                start != target,
                in_bounds(g0v, start),
                w == width_of(g0v),
                explored <= MAX_NODES,
                closed.finite(),
                closed.len() == explored,
                forall|k: int|
                    0 <= k < queue@.len() ==> node_ok(lvl, words, #[trigger] queue@[k])
                        && queue@[k].cost <= explored && in_visited(visited@, node_state(queue@[k]))
                        && !closed.contains(node_state(queue@[k])),
                forall|i: int, j: int|
                    0 <= i < j < queue@.len() ==> node_state(#[trigger] queue@[i]) != node_state(
                        #[trigger] queue@[j],
                    ),
                forall|st: (Position, Rows)|
                    #[trigger] closed.contains(st) ==> closed_ok(lvl, words, visited@, st),
                forall|k: int|
                    0 <= k < visited@.len() ==> closed.contains(#[trigger] vis(visited@, k)) || queued(
                        queue@,
                        vis(visited@, k),
                    ),
                in_visited(visited@, (start, g0v)),
            decreases MAX_NODES - explored,
        {
            let i = cheapest(&queue);
            let ghost q0 = queue@;
            let node = queue.remove(i);
            let ghost ns = node_state(node);
            proof {
                assert(node == q0[i as int]);
                assert(node_ok(lvl, words, q0[i as int]));
                assert forall|k: int| 0 <= k < queue@.len() implies #[trigger] queue@[k] == q0[if k < i {
                    k
                } else {
                    k + 1
                }] by {}
                assert forall|k: int| 0 <= k < queue@.len() implies node_state(#[trigger] queue@[k]) != ns by {
                    if k < i {
                        assert(node_state(q0[k]) != node_state(q0[i as int]));
                    } else {
                        assert(node_state(q0[i as int]) != node_state(q0[k + 1]));
                    }
                }
                assert forall|a: int, b: int|
                    0 <= a < b < queue@.len() implies node_state(#[trigger] queue@[a]) != node_state(
                        #[trigger] queue@[b],
                    ) by {
                    let a0 = if a < i {
                        a
                    } else {
                        a + 1
                    };
                    let b0 = if b < i {
                        b
                    } else {
                        b + 1
                    };
                    assert(node_state(q0[a0]) != node_state(q0[b0]));
                }
                assert forall|k: int| 0 <= k < visited@.len() implies closed.contains(
                    #[trigger] vis(visited@, k),
                ) || queued(queue@, vis(visited@, k)) || vis(visited@, k) == ns by {
                    if !closed.contains(vis(visited@, k)) {
                        assert(queued(q0, vis(visited@, k)));
                        let j = choose|j: int| 0 <= j < q0.len() && #[trigger] node_state(q0[j]) == vis(
                            visited@,
                            k,
                        );
                        if j < i {
                            assert(node_state(queue@[j]) == vis(visited@, k));
                        } else if j > i {
                            assert(node_state(queue@[j - 1]) == vis(visited@, k));
                        }
                    }
                }
            }
            if explored >= MAX_NODES {
                proof {
                    let s = closed.insert(ns);
                    assert(candidate_path(lvl, words, node.path@));
                    assert(reachable(lvl, words, ns));
                    assert forall|st: (Position, Rows)| #[trigger] s.contains(st) implies reachable(lvl, words, st) by {
                        if st != ns {
                            assert(closed.contains(st));
                            assert(closed_ok(lvl, words, visited@, st));
                        }
                    }
                    assert(!closed.contains(ns));
                    assert(s.finite());
                    assert(s.len() == closed.len() + 1);
                    assert(s.len() > MAX_NODES);
                    assert(beyond_budget(lvl, words));
                }
                return None;
            }
            explored = explored + 1;
            if node.pos == target {
                return Some(node.path);
            }
            proof {
                lemma_same_shape_width(node.grid.deep_view(), g0v);
            }
            let cmds = self.candidates(&node.grid, node.pos);
            let an = letter_cells(&node.grid);
            let mut j: usize = 0;
            while j < cmds.len()
                invariant
                    lvl == self.level,
                    words == self.interesting_words@,
                    g0v == self.level.rows(),
                    start == self.level.start_pos,
                    target == self.level.target_pos,
                    start != target,
                    w == width_of(g0v),
                    explored <= MAX_NODES,
                    closed.finite(),
                    closed.len() + 1 == explored,
                    ns == node_state(node),
                    node_ok(lvl, words, node),
                    node.pos != target,
                    node.cost < explored,
                    width_of(node.grid.deep_view()) == w,
                    an.deep_view() == letters(node.grid.deep_view()),
                    !closed.contains(ns),
                    in_visited(visited@, ns),
                    forall|c: VimCommand|
                        #[trigger] cmds@.contains(c) <==> is_candidate(ns.1, ns.0, words, c),
                    forall|k: int|
                        0 <= k < queue@.len() ==> node_ok(lvl, words, #[trigger] queue@[k])
                            && queue@[k].cost <= explored && in_visited(visited@, node_state(queue@[k]))
                            && !closed.contains(node_state(queue@[k])) && node_state(queue@[k]) != ns,
                    forall|a: int, b: int|
                        0 <= a < b < queue@.len() ==> node_state(#[trigger] queue@[a]) != node_state(
                            #[trigger] queue@[b],
                        ),
                    forall|st: (Position, Rows)|
                        #[trigger] closed.contains(st) ==> closed_ok(lvl, words, visited@, st),
                    forall|k: int|
                        0 <= k < visited@.len() ==> closed.contains(#[trigger] vis(visited@, k))
                            || queued(queue@, vis(visited@, k)) || vis(visited@, k) == ns,
                    in_visited(visited@, (start, g0v)),
                    forall|m: int|
                        0 <= m < j && #[trigger] successor(ns, target, cmds@[m]) is Some ==> in_visited(
                            visited@,
                            successor(ns, target, cmds@[m])->0,
                        ),
                decreases cmds@.len() - j,
            {
                let cmd = &cmds[j];
                let ghost gv = node.grid.deep_view();
                proof {
                    assert(cmds@.contains(*cmd)) by {
                        assert(cmds@[j as int] == *cmd);
                    }
                }
                let is_clear = match cmd {
                    VimCommand::DeleteChar => true,
                    _ => false,
                };
                let mut next: Option<(Position, Vec<Vec<char>>)> = None;
                if is_clear {
                    let mut cleared = copy_grid(&node.grid);
                    delete_char(&mut cleared, node.pos);
                    proof {
                        lemma_cleared_shape(gv, node.pos);
                    }
                    next = Some((node.pos, cleared));
                } else {
                    let l = apply_motion_in(&node.grid, &an, node.pos, cmd);
                    proof {
                        lemma_motion_in_bounds(gv, an.deep_view(), node.pos, *cmd);
                    }
                    if !(l.checked && get_char_at(&node.grid, l.pos.x, l.pos.y) == '~' && l.pos
                        != target) {
                        next = Some((l.pos, copy_grid(&node.grid)));
                    }
                }
                proof {
                    assert(next is Some ==> successor(ns, target, *cmd) == Some(state_of(next->0)));
                    assert(next is None ==> successor(ns, target, *cmd) is None);
                }
                let ghost v0 = visited@;
                match next {
                    Some((cp, cg)) => {
                        let ghost cs = (cp, cg.deep_view());
                        if !is_visited(&visited, cp, &cg) {
                            visited.push((cp, copy_grid(&cg)));
                            let mut path = copy_path(&node.path);
                            path.push(cmd.duplicate());
                            let hv = self.heuristic(cp);
                            let child = Node { pos: cp, grid: cg, path, cost: node.cost + 1, heuristic: hv };
                            proof {
                                assert(vis(visited@, v0.len() as int) == cs);
                                assert(in_visited(visited@, cs));
                                assert forall|k: int| 0 <= k < v0.len() implies #[trigger] visited@[k] == v0[k] by {}
                                lemma_extend_path(lvl, words, node.path@, *cmd);
                                assert(child.path@ == node.path@.push(*cmd));
                                assert(same_shape(cs.1, g0v)) by {
                                    lemma_cleared_shape(gv, node.pos);
                                }
                                lemma_same_shape_width(cs.1, g0v);
                                lemma_same_shape_width(gv, g0v);
                                assert(node_ok(lvl, words, child));
                                assert forall|st: (Position, Rows)| #[trigger] closed.contains(st) implies closed_ok(lvl, words, visited@, st) by {
                                    lemma_closed_grow(lvl, words, v0, visited@, st);
                                }
                                lemma_visited_grow(v0, visited@, ns);
                                lemma_visited_grow(v0, visited@, (start, g0v));
                                assert(!closed.contains(cs)) by {
                                    if closed.contains(cs) {
                                        assert(closed_ok(lvl, words, v0, cs));
                                    }
                                }
                                assert(cs != ns);
                            }
                            let ghost q1 = queue@;
                            queue.push(child);
                            proof {
                                assert(queue@[q1.len() as int] == child);
                                assert(node_state(child) == cs);
                                assert forall|k: int| 0 <= k < queue@.len() implies node_ok(lvl, words, #[trigger] queue@[k])
                                    && queue@[k].cost <= explored && in_visited(visited@, node_state(queue@[k]))
                                    && !closed.contains(node_state(queue@[k])) && node_state(queue@[k]) != ns by {
                                    if k < q1.len() {
                                        assert(queue@[k] == q1[k]);
                                        lemma_visited_grow(v0, visited@, node_state(q1[k]));
                                    }
                                }
                                assert forall|a: int, b: int|
                                    0 <= a < b < queue@.len() implies node_state(#[trigger] queue@[a]) != node_state(
                                        #[trigger] queue@[b],
                                    ) by {
                                    if b == q1.len() {
                                        assert(queue@[a] == q1[a]);
                                        assert(in_visited(v0, node_state(q1[a])));
                                    } else {
                                        assert(queue@[a] == q1[a]);
                                        assert(queue@[b] == q1[b]);
                                    }
                                }
                                assert forall|k: int| 0 <= k < visited@.len() implies closed.contains(
                                    #[trigger] vis(visited@, k),
                                ) || queued(queue@, vis(visited@, k)) || vis(visited@, k) == ns by {
                                    if k == v0.len() {
                                        assert(node_state(queue@[q1.len() as int]) == vis(visited@, k));
                                    } else {
                                        assert(vis(visited@, k) == vis(v0, k));
                                        if queued(q1, vis(v0, k)) && !closed.contains(vis(v0, k)) && vis(v0, k) != ns {
                                            let jj = choose|jj: int| 0 <= jj < q1.len() && #[trigger] node_state(q1[jj]) == vis(v0, k);
                                            assert(node_state(queue@[jj]) == vis(v0, k));
                                        }
                                    }
                                }
                                assert forall|m: int|
                                    0 <= m <= j && #[trigger] successor(ns, target, cmds@[m]) is Some implies in_visited(
                                        visited@,
                                        successor(ns, target, cmds@[m])->0,
                                    ) by {
                                    if m < j {
                                        lemma_visited_grow(v0, visited@, successor(ns, target, cmds@[m])->0);
                                    }
                                }
                            }
                        }
                    },
                    None => {},
                }
                j = j + 1;
            }
            proof {
                let ghost old_closed = closed;
                closed = closed.insert(ns);
                assert(reachable(lvl, words, ns)) by {
                    assert(replay(g0v, start, target, node.path@) == Some(ns));
                }
                assert forall|c: VimCommand|
                    is_candidate(ns.1, ns.0, words, c) && #[trigger] successor(ns, target, c) is Some
                        implies in_visited(visited@, successor(ns, target, c)->0) by {
                    assert(cmds@.contains(c));
                    let m = choose|m: int| 0 <= m < cmds@.len() && cmds@[m] == c;
                    assert(successor(ns, target, cmds@[m]) is Some);
                }
                assert(closed_ok(lvl, words, visited@, ns));
                assert forall|st: (Position, Rows)| #[trigger] closed.contains(st) implies closed_ok(lvl, words, visited@, st) by {
                    if st != ns {
                        assert(old_closed.contains(st));
                    }
                }
            }
        }
        proof {
            assert forall|st: (Position, Rows), c: VimCommand|
                closed.contains(st) && is_candidate(st.1, st.0, words, c) && #[trigger] successor(
                    st,
                    target,
                    c,
                ) is Some implies closed.contains(successor(st, target, c)->0) by {
                assert(closed_ok(lvl, words, visited@, st));
                let n = successor(st, target, c)->0;
                let k = choose|k: int| 0 <= k < visited@.len() && #[trigger] vis(visited@, k) == n;
                assert(closed.contains(vis(visited@, k)) || queued(queue@, vis(visited@, k)));
            }
            let k0 = choose|k: int| 0 <= k < visited@.len() && #[trigger] vis(visited@, k) == (start, g0v);
            assert(closed.contains(vis(visited@, k0)) || queued(queue@, vis(visited@, k0)));
            assert forall|path: Seq<VimCommand>|
                candidate_path(lvl, words, path) implies !#[trigger] solves(lvl, path) by {
                if replay(g0v, start, target, path) is Some {
                    lemma_paths_stay_closed(lvl, words, closed, path);
                    assert(closed_ok(lvl, words, visited@, replay(g0v, start, target, path)->0));
                }
            }
        }
        None
    }
}

/// Whether the state (pos, g) is recorded in the visited list.
fn is_visited(visited: &Vec<(Position, Vec<Vec<char>>)>, pos: Position, g: &Vec<Vec<char>>) -> (r: bool)
    ensures
        r == in_visited(visited@, (pos, g.deep_view())),
{
    let mut k: usize = 0;
    while k < visited.len()
        invariant
            k <= visited@.len(),
            forall|m: int| 0 <= m < k ==> #[trigger] vis(visited@, m) != (pos, g.deep_view()),
        decreases visited@.len() - k,
    {
        if visited[k].0 == pos && same_grid(&visited[k].1, g) {
            proof {
                assert(vis(visited@, k as int) == (pos, g.deep_view()));
            }
            return true;
        }
        k = k + 1;
    }
    false
}

/// Index of the first queued node of least cost plus distance.
fn cheapest(queue: &Vec<Node>) -> (r: usize)
    requires
        queue@.len() > 0,
    ensures
        r < queue@.len(),
        forall|k: int| 0 <= k < queue@.len() ==> priority_of(queue@[r as int]) <= priority_of(#[trigger] queue@[k]),
        forall|k: int| 0 <= k < r ==> priority_of(#[trigger] queue@[k]) > priority_of(queue@[r as int]),
{
    let mut best: usize = 0;
    let mut best_f = priority(&queue[0]);
    let mut i: usize = 1;
    while i < queue.len()
        invariant
            best < i <= queue@.len(),
            best_f == priority_of(queue@[best as int]),
            forall|k: int| 0 <= k < i ==> best_f <= priority_of(#[trigger] queue@[k]),
            forall|k: int| 0 <= k < best ==> priority_of(#[trigger] queue@[k]) > best_f,
        decreases queue@.len() - i,
    {
        let f = priority(&queue[i]);
        if f < best_f {
            best = i;
            best_f = f;
        }
        i = i + 1;
    }
    best
}

/// Cost plus distance, capped at the largest `usize`.
fn priority(n: &Node) -> (r: usize)
    ensures
        r == priority_of(*n),
{
    if n.heuristic <= usize::MAX - n.cost {
        n.cost + n.heuristic
    } else {
        usize::MAX
    }
}

/// Find and till on `c`, in both directions.
pub open spec fn finds_of(c: char) -> Seq<VimCommand> {
    seq![
        VimCommand::FindNextChar(c),
        VimCommand::FindPrevChar(c),
        VimCommand::TillNextChar(c),
        VimCommand::TillPrevChar(c),
    ]
}

fn push_finds(cmds: &mut Vec<VimCommand>, c: char)
    ensures
        final(cmds)@ == old(cmds)@ + finds_of(c),
{
    cmds.push(VimCommand::FindNextChar(c));
    cmds.push(VimCommand::FindPrevChar(c));
    cmds.push(VimCommand::TillNextChar(c));
    cmds.push(VimCommand::TillPrevChar(c));
    proof {
        assert(final(cmds)@ =~= old(cmds)@ + finds_of(c));
    }
}

/// Appends find and till on each distinct character of `row` but blanks
/// and walls.
fn add_finds(cmds: &mut Vec<VimCommand>, row: &Vec<char>)
    ensures
        final(cmds)@.len() >= old(cmds)@.len(),
        final(cmds)@.take(old(cmds)@.len() as int) == old(cmds)@,
        forall|k: int|
            old(cmds)@.len() <= k < final(cmds)@.len() ==> finds_in_row(row@, #[trigger] final(cmds)@[k]),
        forall|c: char| row@.contains(c) && c != ' ' && c != '#' ==> #[trigger] has_finds(final(cmds)@, c),
{
    let ghost fixed = cmds@;
    let mut tried: Vec<char> = Vec::new();
    let mut i: usize = 0;
    proof {
        assert(cmds@.take(fixed.len() as int) =~= fixed);
    }
    while i < row.len()
        invariant
            i <= row@.len(),
            cmds@.len() >= fixed.len(),
            cmds@.take(fixed.len() as int) == fixed,
            forall|k: int| fixed.len() <= k < cmds@.len() ==> finds_in_row(row@, #[trigger] cmds@[k]),
            forall|k: int| 0 <= k < tried@.len() ==> #[trigger] has_finds(cmds@, tried@[k]),
            forall|k: int|
                0 <= k < i && row@[k] != ' ' && row@[k] != '#' ==> #[trigger] tried@.contains(row@[k]),
        decreases row@.len() - i,
    {
        let c = row[i];
        if c != ' ' && c != '#' && !has_char(&tried, c) {
            let ghost before = cmds@;
            let ghost old_tried = tried@;
            push_finds(cmds, c);
            tried.push(c);
            proof {
                let n = before.len() as int;
                lemma_finds_of(c);
                assert(cmds@.len() == n + 4);
                assert(cmds@.take(fixed.len() as int) =~= before.take(fixed.len() as int));
                assert(cmds@[n] == VimCommand::FindNextChar(c));
                assert(cmds@[n + 1] == VimCommand::FindPrevChar(c));
                assert(cmds@[n + 2] == VimCommand::TillNextChar(c));
                assert(cmds@[n + 3] == VimCommand::TillPrevChar(c));
                assert(has_finds(cmds@, c));
                assert(row@.contains(c)) by {
                    assert(row@[i as int] == c);
                }
                assert forall|k: int| fixed.len() <= k < cmds@.len() implies finds_in_row(
                    row@,
                    #[trigger] cmds@[k],
                ) by {
                    if k < n {
                        assert(cmds@[k] == before[k]);
                    }
                }
                assert(cmds@.take(n) =~= before);
                assert forall|j: int| 0 <= j < tried@.len() implies #[trigger] has_finds(
                    cmds@,
                    tried@[j],
                ) by {
                    if j < old_tried.len() {
                        let d = tried@[j];
                        assert(old_tried[j] == d);
                        assert(has_finds(before, d));
                        lemma_has_finds_grow(before, cmds@, d);
                    }
                }
                assert forall|j: int|
                    0 <= j <= i && row@[j] != ' ' && row@[j] != '#' implies #[trigger] tried@.contains(
                    row@[j],
                ) by {
                    if j < i {
                        assert(old_tried.contains(row@[j]));
                        let m = choose|m: int| 0 <= m < old_tried.len() && old_tried[m] == row@[j];
                        assert(tried@[m] == row@[j]);
                    } else {
                        assert(tried@[old_tried.len() as int] == c);
                    }
                }
            }
        }
        i = i + 1;
    }
    proof {
        assert forall|ch: char| row@.contains(ch) && ch != ' ' && ch != '#' implies #[trigger] has_finds(cmds@, ch) by {
            let j = choose|j: int| 0 <= j < row@.len() && row@[j] == ch;
            assert(tried@.contains(row@[j]));
            let m = choose|m: int| 0 <= m < tried@.len() && tried@[m] == ch;
            assert(has_finds(cmds@, tried@[m]));
        }
    }
}

proof fn lemma_finds_of(c: char)
    ensures
        finds_of(c).len() == 4,
        finds_of(c)[0] == VimCommand::FindNextChar(c),
        finds_of(c)[1] == VimCommand::FindPrevChar(c),
        finds_of(c)[2] == VimCommand::TillNextChar(c),
        finds_of(c)[3] == VimCommand::TillPrevChar(c),
{
}

fn has_char(v: &Vec<char>, c: char) -> (r: bool)
    ensures
        r == v@.contains(c),
{
    let mut k: usize = 0;
    while k < v.len()
        invariant
            k <= v@.len(),
            forall|j: int| 0 <= j < k ==> v@[j] != c,
        decreases v@.len() - k,
    {
        if v[k] == c {
            return true;
        }
        k = k + 1;
    }
    false
}

/// The character that a find or till command looks for.
pub open spec fn find_char_of(c: VimCommand) -> char {
    match c {
        VimCommand::FindNextChar(t) => t,
        VimCommand::FindPrevChar(t) => t,
        VimCommand::TillNextChar(t) => t,
        VimCommand::TillPrevChar(t) => t,
        _ => ' ',
    }
}

/// A find or till on a character of `row` other than a blank or a wall.
pub open spec fn finds_in_row(row: Seq<char>, c: VimCommand) -> bool {
    is_find_command(c) && row.contains(find_char_of(c)) && find_char_of(c) != ' ' && find_char_of(c)
        != '#'
}

/// A resolved find or till command.
pub open spec fn is_find_command(c: VimCommand) -> bool {
    c is FindNextChar || c is FindPrevChar || c is TillNextChar || c is TillPrevChar
}

proof fn lemma_has_finds_grow(a: Seq<VimCommand>, b: Seq<VimCommand>, c: char)
    requires
        has_finds(a, c),
        a.len() <= b.len(),
        b.take(a.len() as int) == a,
    ensures
        has_finds(b, c),
{
    let k1 = choose|k: int| 0 <= k < a.len() && a[k] == VimCommand::FindNextChar(c);
    let k2 = choose|k: int| 0 <= k < a.len() && a[k] == VimCommand::FindPrevChar(c);
    let k3 = choose|k: int| 0 <= k < a.len() && a[k] == VimCommand::TillNextChar(c);
    let k4 = choose|k: int| 0 <= k < a.len() && a[k] == VimCommand::TillPrevChar(c);
    assert(b.take(a.len() as int)[k1] == b[k1]);
    assert(b.take(a.len() as int)[k2] == b[k2]);
    assert(b.take(a.len() as int)[k3] == b[k3]);
    assert(b.take(a.len() as int)[k4] == b[k4]);
}

/// Commands whose motion does not depend on an earlier find or search.
pub open spec fn self_contained(c: VimCommand) -> bool {
    !(c is RepeatFind || c is RepeatFindReverse || c is NextMatch || c is PrevMatch)
}

/// One step of `replay` is what the motion engine's dispatch does in a
/// session that is playing: the same cursor and grid, and the session is
/// over exactly when the replay fails.
pub proof fn lemma_replay_step_is_dispatch(s: GameState, c: VimCommand, t: GameState)
    requires
        s.status == GameStatus::Playing,
        dispatched(s, c, t),
        self_contained(c),
    ensures
        t.player_pos == motion(s.rows(), s.player_pos, c).pos,
        t.rows() == grid_after(s.rows(), s.player_pos, c),
        (t.status == GameStatus::GameOver) <==> ({
            let l = motion(s.rows(), s.player_pos, c);
            l.checked && cell_char(s.rows(), l.pos.x as int, l.pos.y as int) == '~' && l.pos
                != s.current_level.target_pos
        }),
{
}

} // verus!
