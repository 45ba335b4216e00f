use vstd::prelude::*;
use crate::engine::{
    apply_motion, delete_char, get_char_at, grid_after, in_bounds, lemma_cleared_shape, letters,
    lemma_motion_in_bounds, motion, width_of, Landing,
};
use crate::input::{InputHandler, VimCommand, named_command, same_command};
use crate::level::{Level, Position, cell_char, push_char};
use std::collections::VecDeque;

verus! {

/// What typed input feeds: commands, a pending find's character, or the
/// search command line.
#[derive(Debug, Clone)]
pub enum InputMode {
    Normal,
    WaitingForChar(VimCommand),
    CommandLine(String, VimCommand),
}

#[derive(Debug, Clone, Copy, PartialEq, Eq, Structural)]
pub enum GameStatus {
    Playing,
    LevelComplete,
    GameOver,
}

/// Keys that act on the search command line.
#[derive(Debug, Clone, Copy, PartialEq, Eq, Structural)]
pub enum SpecialKey {
    Enter,
    Backspace,
    Escape,
    Other,
}

/// Time taken by stepping onto rubble (`X`), in milliseconds.
pub const RUBBLE_COST_MS: u64 = 5000;

/// Time between two replayed commands, in milliseconds.
pub const REPLAY_INTERVAL_MS: u64 = 800;

/// Relies on `String::pop`: removes the last character, if any.
#[verifier::external_body]
fn pop_char(s: &mut String)
    ensures
        old(s)@.len() == 0 ==> final(s)@ == old(s)@,
        old(s)@.len() > 0 ==> final(s)@ == old(s)@.drop_last(),
{
    s.pop();
}

/// One play session on a level.
pub struct GameState {
    pub player_pos: Position,
    pub current_level: Level,
    /// The live content of the level's layout.
    pub grid: Vec<Vec<char>>,
    pub status: GameStatus,
    pub time_elapsed_ms: u64,
    pub keystrokes: u32,
    pub score: i64,
    pub show_help: bool,
    pub trained_commands: Vec<VimCommand>,
    pub penalties: u32,
    pub replay_queue: VecDeque<VimCommand>,
    pub replay_timer_ms: u64,
    pub is_auto_playing: bool,
    pub last_auto_command: Option<VimCommand>,
    pub level_complete_timer_ms: u64,
    pub input_mode: InputMode,
    pub last_find_command: Option<VimCommand>,
    pub last_search_query: Option<String>,
    pub search_direction_forward: bool,
}

/// A resolved find or till command.
pub open spec fn is_find(c: VimCommand) -> bool {
    c is FindNextChar || c is FindPrevChar || c is TillNextChar || c is TillPrevChar
}

/// Find and till with their direction turned round.
pub open spec fn reversed_find(c: VimCommand) -> VimCommand {
    match c {
        VimCommand::FindNextChar(t) => VimCommand::FindPrevChar(t),
        VimCommand::FindPrevChar(t) => VimCommand::FindNextChar(t),
        VimCommand::TillNextChar(t) => VimCommand::TillPrevChar(t),
        VimCommand::TillPrevChar(t) => VimCommand::TillNextChar(t),
        _ => VimCommand::NoOp,
    }
}

/// Commands that only open a pending find or search.
pub open spec fn starts_mode(c: VimCommand) -> bool {
    c is StartFindNext || c is StartFindPrev || c is StartTillNext || c is StartTillPrev
        || c is StartSearchForward || c is StartSearchBackward
}

/// Commands that count as a keystroke.
pub open spec fn counts(c: VimCommand) -> bool {
    !(c is NoOp) && !starts_mode(c)
}

/// The four one-cell moves.
pub open spec fn is_step(c: VimCommand) -> bool {
    c is MoveLeft || c is MoveRight || c is MoveUp || c is MoveDown
}

/// A command outside a non-empty list of trained commands.
pub open spec fn penalized(trained: Seq<VimCommand>, c: VimCommand) -> bool {
    trained.len() > 0 && !(exists|i: int| 0 <= i < trained.len() && same_command(#[trigger] trained[i], c))
}

/// Adds one when `b` holds, stopping at the largest `u32`.
pub open spec fn tick(n: u32, b: bool) -> u32 {
    if b && n < u32::MAX {
        (n + 1) as u32
    } else {
        n
    }
}

/// `1000 - 10 * (seconds over par) - 50 * (keystrokes over par) - 100 * penalties`,
/// with the seconds over par counted in whole tenths.
pub open spec fn score_of(time_ms: u64, par_ms: u64, keys: u32, par_keys: u32, penalties: u32) -> int {
    let over_time: int = if time_ms > par_ms {
        (time_ms - par_ms) / 100
    } else {
        0
    };
    let over_keys: int = if keys > par_keys {
        keys - par_keys
    } else {
        0
    };
    1000 - over_time - 50 * over_keys - 100 * penalties
}

impl GameState {
    /// Well-formed: a remembered find is a resolved find or till.
    pub open spec fn wf(&self) -> bool {
        self.last_find_command matches Some(f) ==> is_find(f)
    }

    /// The grid's content.
    pub open spec fn rows(&self) -> Seq<Seq<char>> {
        self.grid.deep_view()
    }

    /// The find or till that a repeat replays, if any.
    pub open spec fn replayed(&self, c: VimCommand) -> Option<VimCommand> {
        match (c, self.last_find_command) {
            (VimCommand::RepeatFind, Some(f)) => Some(f),
            (VimCommand::RepeatFindReverse, Some(f)) => Some(reversed_find(f)),
            _ => None,
        }
    }

    /// The command whose motion `c` performs: the replayed find for a
    /// repeat, the remembered search for next or previous match.
    pub open spec fn performed(&self, c: VimCommand) -> VimCommand {
        match c {
            VimCommand::RepeatFind | VimCommand::RepeatFindReverse => match self.replayed(c) {
                Some(f) => f,
                None => VimCommand::NoOp,
            },
            VimCommand::NextMatch => match self.last_search_query {
                Some(q) => if self.search_direction_forward {
                    VimCommand::SearchForward(q)
                } else {
                    VimCommand::SearchBackward(q)
                },
                None => VimCommand::NoOp,
            },
            VimCommand::PrevMatch => match self.last_search_query {
                Some(q) => if self.search_direction_forward {
                    VimCommand::SearchBackward(q)
                } else {
                    VimCommand::SearchForward(q)
                },
                None => VimCommand::NoOp,
            },
            _ => c,
        }
    }

    /// The landing of the motion that `c` performs.
    pub open spec fn landing(&self, c: VimCommand) -> Landing {
        motion(self.rows(), self.player_pos, self.performed(c))
    }
}

/// The input mode after command `c` in mode `m`.
pub open spec fn mode_after(m: InputMode, c: VimCommand, n: InputMode) -> bool {
    if c is StartFindNext || c is StartFindPrev || c is StartTillNext || c is StartTillPrev {
        n == InputMode::WaitingForChar(c)
    } else if c is StartSearchForward || c is StartSearchBackward {
        n matches InputMode::CommandLine(text, k) && text@.len() == 0 && k == c
    } else {
        n == m
    }
}

/// `t` is the state after dispatching `c` in state `s`.
pub open spec fn dispatched(s: GameState, c: VimCommand, t: GameState) -> bool {
    if s.status != GameStatus::Playing {
        t == s
    } else {
        let l = s.landing(c);
        let g = s.rows();
        let trained = s.trained_commands@;
        let time = if is_step(c) && l.checked && cell_char(g, l.pos.x as int, l.pos.y as int)
            == 'X' {
            if s.time_elapsed_ms <= u64::MAX - RUBBLE_COST_MS {
                (s.time_elapsed_ms + RUBBLE_COST_MS) as u64
            } else {
                u64::MAX
            }
        } else {
            s.time_elapsed_ms
        };
        let keys = tick(s.keystrokes, counts(c));
        let pens = tick(s.penalties, counts(c) && penalized(trained, c));
        let won = l.pos == s.current_level.target_pos;
        &&& t.player_pos == l.pos
        &&& t.rows() == grid_after(g, s.player_pos, s.performed(c))
        &&& t.status == (if won {
            GameStatus::LevelComplete
        } else if l.checked && cell_char(g, l.pos.x as int, l.pos.y as int) == '~' {
            GameStatus::GameOver
        } else {
            GameStatus::Playing
        })
        &&& t.time_elapsed_ms == time
        &&& t.keystrokes == keys
        &&& t.penalties == pens
        &&& t.score == (if won {
            score_of(
                time,
                s.current_level.par_time_ms,
                keys,
                s.current_level.par_keystrokes,
                pens,
            )
        } else {
            s.score as int
        })
        &&& mode_after(s.input_mode, c, t.input_mode)
        &&& t.current_level == s.current_level
        &&& t.trained_commands == s.trained_commands
        &&& t.last_find_command == s.last_find_command
        &&& t.last_search_query == s.last_search_query
        &&& t.search_direction_forward == s.search_direction_forward
        &&& t.show_help == s.show_help
        &&& t.replay_queue == s.replay_queue
        &&& t.replay_timer_ms == s.replay_timer_ms
        &&& t.is_auto_playing == s.is_auto_playing
        &&& t.last_auto_command == s.last_auto_command
        &&& t.level_complete_timer_ms == s.level_complete_timer_ms
    }
}

/// A copy of an optional command.
fn copy_command(c: &Option<VimCommand>) -> (r: Option<VimCommand>)
    ensures
        r == *c,
{
    match c {
        Some(k) => Some(k.duplicate()),
        None => None,
    }
}

fn reverse_find(c: &VimCommand) -> (r: VimCommand)
    ensures
        r == reversed_find(*c),
{
    match c {
        VimCommand::FindNextChar(t) => VimCommand::FindPrevChar(*t),
        VimCommand::FindPrevChar(t) => VimCommand::FindNextChar(*t),
        VimCommand::TillNextChar(t) => VimCommand::TillPrevChar(*t),
        VimCommand::TillPrevChar(t) => VimCommand::TillNextChar(*t),
        _ => VimCommand::NoOp,
    }
}

impl GameState {
    /// A fresh session at the level's start.
    pub fn new(level: Level) -> (r: GameState)
        ensures
            r.player_pos == level.start_pos,
            r.current_level == level,
            r.rows() == level.rows(),
            r.status == GameStatus::Playing,
            r.time_elapsed_ms == 0,
            r.keystrokes == 0,
            r.penalties == 0,
            r.score == 0,
            r.trained_commands@.len() == level.trained_commands@.len(),
            forall|i: int|
                0 <= i < level.trained_commands@.len() ==> #[trigger] r.trained_commands@[i]
                    == named_command(level.trained_commands@[i]@),
            r.input_mode == InputMode::Normal,
            r.last_find_command is None,
            r.last_search_query is None,
            r.search_direction_forward,
            !r.is_auto_playing,
            r.replay_queue@.len() == 0,
            !r.show_help,
            r.replay_timer_ms == 0,
            r.last_auto_command is None,
            r.level_complete_timer_ms == 0,
            r.wf(),
    {
        let mut trained: Vec<VimCommand> = Vec::new();
        let mut i: usize = 0;
        while i < level.trained_commands.len()
            invariant
                i <= level.trained_commands@.len(),
                trained@.len() == i,
                forall|k: int|
                    0 <= k < i ==> #[trigger] trained@[k] == named_command(
                        level.trained_commands@[k]@,
                    ),
            decreases level.trained_commands@.len() - i,
        {
            trained.push(InputHandler::from_string(level.trained_commands[i].as_str()));
            i = i + 1;
        }
        let grid = level.grid();
        GameState {
            player_pos: level.start_pos,
            current_level: level,
            grid,
            status: GameStatus::Playing,
            time_elapsed_ms: 0,
            keystrokes: 0,
            score: 0,
            show_help: false,
            trained_commands: trained,
            penalties: 0,
            replay_queue: VecDeque::new(),
            replay_timer_ms: 0,
            is_auto_playing: false,
            last_auto_command: None,
            level_complete_timer_ms: 0,
            input_mode: InputMode::Normal,
            last_find_command: None,
            last_search_query: None,
            search_direction_forward: true,
        }
    }

    pub fn toggle_help(&mut self)
        ensures
            *final(self) == (GameState { show_help: !old(self).show_help, ..*old(self) }),
    {
        self.show_help = !self.show_help;
    }

    /// Whether `c` is outside a non-empty list of trained commands.
    fn is_penalized(&self, c: &VimCommand) -> (r: bool)
        ensures
            r == penalized(self.trained_commands@, *c),
    {
        if self.trained_commands.len() == 0 {
            return false;
        }
        let mut i: usize = 0;
        while i < self.trained_commands.len()
            invariant
                i <= self.trained_commands@.len(),
                forall|k: int| 0 <= k < i ==> !same_command(#[trigger] self.trained_commands@[k], *c),
            decreases self.trained_commands@.len() - i,
        {
            if self.trained_commands[i] == *c {
                return false;
            }
            i = i + 1;
        }
        true
    }

    /// Counts one dispatched command: a keystroke, and a penalty when it is
    /// untrained.
    fn count(&mut self, c: &VimCommand)
        ensures
            final(self).keystrokes == tick(old(self).keystrokes, counts(*c)),
            final(self).penalties == tick(
                old(self).penalties,
                counts(*c) && penalized(old(self).trained_commands@, *c),
            ),
            final(self).player_pos == old(self).player_pos,
            final(self).grid == old(self).grid,
            final(self).status == old(self).status,
            final(self).time_elapsed_ms == old(self).time_elapsed_ms,
            final(self).score == old(self).score,
            final(self).current_level == old(self).current_level,
            final(self).trained_commands == old(self).trained_commands,
            final(self).input_mode == old(self).input_mode,
            final(self).last_find_command == old(self).last_find_command,
            final(self).last_search_query == old(self).last_search_query,
            final(self).search_direction_forward == old(self).search_direction_forward,
            final(self).show_help == old(self).show_help,
            final(self).replay_queue == old(self).replay_queue,
            final(self).replay_timer_ms == old(self).replay_timer_ms,
            final(self).is_auto_playing == old(self).is_auto_playing,
            final(self).last_auto_command == old(self).last_auto_command,
            final(self).level_complete_timer_ms == old(self).level_complete_timer_ms,
    {
        let counted = match c {
            VimCommand::NoOp | VimCommand::StartFindNext | VimCommand::StartFindPrev
            | VimCommand::StartTillNext | VimCommand::StartTillPrev
            | VimCommand::StartSearchForward | VimCommand::StartSearchBackward => false,
            _ => true,
        };
        if counted {
            if self.keystrokes < u32::MAX {
                self.keystrokes = self.keystrokes + 1;
            }
            if self.is_penalized(c) && self.penalties < u32::MAX {
                self.penalties = self.penalties + 1;
            }
        }
    }

    /// The score for the current counters.
    pub fn calculate_score(&self) -> (r: i64)
        ensures
            r == score_of(
                self.time_elapsed_ms,
                self.current_level.par_time_ms,
                self.keystrokes,
                self.current_level.par_keystrokes,
                self.penalties,
            ),
    {
        let over_time: i64 = if self.time_elapsed_ms > self.current_level.par_time_ms {
            ((self.time_elapsed_ms - self.current_level.par_time_ms) / 100) as i64
        } else {
            0
        };
        let over_keys: i64 = if self.keystrokes > self.current_level.par_keystrokes {
            (self.keystrokes - self.current_level.par_keystrokes) as i64
        } else {
            0
        };
        1000 - over_time - 50 * over_keys - 100 * (self.penalties as i64)
    }

    /// The command whose motion `c` performs.
    fn resolve(&self, c: &VimCommand) -> (r: VimCommand)
        ensures
            r == self.performed(*c),
    {
        match c {
            VimCommand::RepeatFind => match &self.last_find_command {
                Some(f) => f.duplicate(),
                None => VimCommand::NoOp,
            },
            VimCommand::RepeatFindReverse => match &self.last_find_command {
                Some(f) => reverse_find(f),
                None => VimCommand::NoOp,
            },
            VimCommand::NextMatch => match &self.last_search_query {
                Some(q) => if self.search_direction_forward {
                    VimCommand::SearchForward(q.clone())
                } else {
                    VimCommand::SearchBackward(q.clone())
                },
                None => VimCommand::NoOp,
            },
            VimCommand::PrevMatch => match &self.last_search_query {
                Some(q) => if self.search_direction_forward {
                    VimCommand::SearchBackward(q.clone())
                } else {
                    VimCommand::SearchForward(q.clone())
                },
                None => VimCommand::NoOp,
            },
            _ => c.duplicate(),
        }
    }

    /// Dispatches one command. Only acts while playing: it moves the cursor
    /// (or clears the cell under it), checks for a hazard, counts the
    /// keystroke and any penalty, and checks for the target.
    pub fn handle_command(&mut self, command: VimCommand)
        requires
            old(self).wf(),
        ensures
            dispatched(*old(self), command, *final(self)),
            final(self).wf(),
    {
        if self.status != GameStatus::Playing {
            return;
        }
        let performed = self.resolve(&command);
        match command {
            VimCommand::StartFindNext | VimCommand::StartFindPrev | VimCommand::StartTillNext
            | VimCommand::StartTillPrev => {
                self.input_mode = InputMode::WaitingForChar(command.duplicate());
            },
            VimCommand::StartSearchForward | VimCommand::StartSearchBackward => {
                self.input_mode = InputMode::CommandLine(String::new(), command.duplicate());
            },
            _ => {},
        }
        match performed {
            VimCommand::DeleteChar => {
                delete_char(&mut self.grid, self.player_pos);
            },
            _ => {
                let l = apply_motion(&self.grid, self.player_pos, &performed);
                self.player_pos = l.pos;
                if l.checked {
                    let c = get_char_at(&self.grid, l.pos.x, l.pos.y);
                    let step = match command {
                        VimCommand::MoveLeft | VimCommand::MoveRight | VimCommand::MoveUp
                        | VimCommand::MoveDown => true,
                        _ => false,
                    };
                    if step && c == 'X' {
                        self.time_elapsed_ms = if self.time_elapsed_ms <= u64::MAX - RUBBLE_COST_MS {
                            self.time_elapsed_ms + RUBBLE_COST_MS
                        } else {
                            u64::MAX
                        };
                    }
                    if c == '~' {
                        self.status = GameStatus::GameOver;
                    }
                }
            },
        }
        self.count(&command);
        self.check_win_condition();
    }

    /// On the target: the level is complete and the score is computed.
    fn check_win_condition(&mut self)
        ensures
            old(self).player_pos == old(self).current_level.target_pos ==> final(self).status
                == GameStatus::LevelComplete && final(self).score == score_of(
                old(self).time_elapsed_ms,
                old(self).current_level.par_time_ms,
                old(self).keystrokes,
                old(self).current_level.par_keystrokes,
                old(self).penalties,
            ),
            old(self).player_pos != old(self).current_level.target_pos ==> final(self).status
                == old(self).status && final(self).score == old(self).score,
            final(self).player_pos == old(self).player_pos,
            final(self).grid == old(self).grid,
            final(self).time_elapsed_ms == old(self).time_elapsed_ms,
            final(self).keystrokes == old(self).keystrokes,
            final(self).penalties == old(self).penalties,
            final(self).current_level == old(self).current_level,
            final(self).trained_commands == old(self).trained_commands,
            final(self).input_mode == old(self).input_mode,
            final(self).last_find_command == old(self).last_find_command,
            final(self).last_search_query == old(self).last_search_query,
            final(self).search_direction_forward == old(self).search_direction_forward,
            final(self).show_help == old(self).show_help,
            final(self).replay_queue == old(self).replay_queue,
            final(self).replay_timer_ms == old(self).replay_timer_ms,
            final(self).is_auto_playing == old(self).is_auto_playing,
            final(self).last_auto_command == old(self).last_auto_command,
            final(self).level_complete_timer_ms == old(self).level_complete_timer_ms,
    {
        if self.player_pos == self.current_level.target_pos {
            self.status = GameStatus::LevelComplete;
            self.score = self.calculate_score();
        }
    }

    /// A typed character: completes a pending find, or extends the search
    /// command line.
    pub fn handle_char_input(&mut self, c: char)
        requires
            old(self).wf(),
        ensures
            final(self).wf(),
            char_input_effect(*old(self), c, *final(self)),
    {
        let mut mode = InputMode::Normal;
        core::mem::swap(&mut mode, &mut self.input_mode);
        match mode {
            InputMode::WaitingForChar(k) => {
                let next = match k {
                    VimCommand::StartFindNext => VimCommand::FindNextChar(c),
                    VimCommand::StartFindPrev => VimCommand::FindPrevChar(c),
                    VimCommand::StartTillNext => VimCommand::TillNextChar(c),
                    VimCommand::StartTillPrev => VimCommand::TillPrevChar(c),
                    _ => VimCommand::NoOp,
                };
                match next {
                    VimCommand::NoOp => {},
                    _ => {
                        self.last_find_command = Some(next.duplicate());
                        self.handle_command(next);
                    },
                }
            },
            InputMode::CommandLine(text, k) => {
                let mut t = text;
                push_char(&mut t, c);
                self.input_mode = InputMode::CommandLine(t, k);
            },
            InputMode::Normal => {},
        }
    }

    /// A key on the search command line: Enter runs the search and
    /// remembers it, Backspace deletes a character, Escape abandons it.
    pub fn handle_special_key(&mut self, key: SpecialKey)
        requires
            old(self).wf(),
        ensures
            final(self).wf(),
            special_key_effect(*old(self), key, *final(self)),
    {
        if !(match &self.input_mode {
            InputMode::CommandLine(_, _) => true,
            _ => false,
        }) {
            return;
        }
        if key == SpecialKey::Other {
            return;
        }
        let mut mode = InputMode::Normal;
        core::mem::swap(&mut mode, &mut self.input_mode);
        match mode {
            InputMode::CommandLine(text, k) => {
                if key == SpecialKey::Enter {
                    let forward = match k {
                        VimCommand::StartSearchForward => true,
                        _ => false,
                    };
                    let search = match k {
                        VimCommand::StartSearchForward => VimCommand::SearchForward(text.clone()),
                        VimCommand::StartSearchBackward => VimCommand::SearchBackward(text.clone()),
                        _ => VimCommand::NoOp,
                    };
                    match search {
                        VimCommand::NoOp => {},
                        _ => {
                            self.last_search_query = Some(text);
                            self.search_direction_forward = forward;
                            self.handle_command(search);
                        },
                    }
                } else if key == SpecialKey::Backspace {
                    let mut t = text;
                    pop_char(&mut t);
                    self.input_mode = InputMode::CommandLine(t, k);
                }
            },
            _ => {},
        }
    }

    /// Queues commands to be replayed, one every `REPLAY_INTERVAL_MS`.
    pub fn start_auto_play(&mut self, commands: Vec<VimCommand>)
        ensures
            auto_play_started(*old(self), commands@, *final(self)),
    {
        let mut q: VecDeque<VimCommand> = VecDeque::new();
        let mut i: usize = 0;
        while i < commands.len()
            invariant
                i <= commands@.len(),
                q@ =~= commands@.take(i as int),
            decreases commands@.len() - i,
        {
            q.push_back(commands[i].duplicate());
            i = i + 1;
        }
        proof {
            assert(commands@.take(i as int) =~= commands@);
        }
        self.replay_queue = q;
        self.is_auto_playing = true;
        self.replay_timer_ms = 0;
        self.last_auto_command = None;
    }

    /// Advances the clock by `dt_ms` milliseconds. While playing, elapsed
    /// time grows and, in auto-play, the next queued command is dispatched
    /// once the replay interval has passed; after completion only the
    /// completion timer runs.
    pub fn update(&mut self, dt_ms: u64)
        requires
            old(self).wf(),
        ensures
            final(self).wf(),
            update_effect(*old(self), dt_ms, *final(self)),
    {
        match self.status {
            GameStatus::Playing => {
                self.time_elapsed_ms = add_saturating(self.time_elapsed_ms, dt_ms);
                if self.is_auto_playing {
                    self.replay_timer_ms = add_saturating(self.replay_timer_ms, dt_ms);
                    if self.replay_timer_ms >= REPLAY_INTERVAL_MS {
                        self.replay_timer_ms = 0;
                        match self.replay_queue.pop_front() {
                            Some(cmd) => {
                                self.last_auto_command = Some(cmd.duplicate());
                                self.handle_command(cmd);
                            },
                            None => {
                                self.is_auto_playing = false;
                                self.last_auto_command = None;
                            },
                        }
                    }
                }
            },
            GameStatus::LevelComplete => {
                self.level_complete_timer_ms = add_saturating(self.level_complete_timer_ms, dt_ms);
            },
            GameStatus::GameOver => {},
        }
    }
}

/// `t` is the state after key `key` in state `s`.
pub open spec fn special_key_effect(s: GameState, key: SpecialKey, t: GameState) -> bool {
    match s.input_mode {
        InputMode::CommandLine(text, k) => {
            if key == SpecialKey::Enter {
                let search = if k is StartSearchForward {
                    VimCommand::SearchForward(text)
                } else if k is StartSearchBackward {
                    VimCommand::SearchBackward(text)
                } else {
                    VimCommand::NoOp
                };
                if search is NoOp {
                    t == GameState { input_mode: InputMode::Normal, ..s }
                } else {
                    dispatched(
                        GameState {
                            input_mode: InputMode::Normal,
                            last_search_query: Some(text),
                            search_direction_forward: k is StartSearchForward,
                            ..s
                        },
                        search,
                        t,
                    )
                }
            } else if key == SpecialKey::Backspace {
                &&& t.input_mode matches InputMode::CommandLine(buf, j) && j == k && (if text@.len()
                    == 0 {
                    buf@ == text@
                } else {
                    buf@ == text@.drop_last()
                })
                &&& t == GameState { input_mode: t.input_mode, ..s }
            } else if key == SpecialKey::Escape {
                t == GameState { input_mode: InputMode::Normal, ..s }
            } else {
                t == s
            }
        },
        _ => t == s,
    }
}

/// `t` is the state after typing `c` in state `s`.
pub open spec fn char_input_effect(s: GameState, c: char, t: GameState) -> bool {
    match s.input_mode {
        InputMode::WaitingForChar(k) => {
            let next = completed_find(k, c);
            if next is NoOp {
                t == GameState { input_mode: InputMode::Normal, ..s }
            } else {
                dispatched(
                    GameState {
                        input_mode: InputMode::Normal,
                        last_find_command: Some(next),
                        ..s
                    },
                    next,
                    t,
                )
            }
        },
        InputMode::CommandLine(text, k) => {
            &&& t.input_mode matches InputMode::CommandLine(buf, j) && j == k && buf@ == text@.push(c)
            &&& t == GameState { input_mode: t.input_mode, ..s }
        },
        InputMode::Normal => t == s,
    }
}

/// `t` is the state after `dt_ms` milliseconds pass in state `s`.
pub open spec fn update_effect(s: GameState, dt_ms: u64, t: GameState) -> bool {
    &&& (s.status == GameStatus::LevelComplete ==> t == GameState {
        level_complete_timer_ms: sat_add(s.level_complete_timer_ms, dt_ms),
        ..s
    })
    &&& (s.status == GameStatus::GameOver ==> t == s)
    &&& (s.status == GameStatus::Playing && !s.is_auto_playing ==> t
        == GameState { time_elapsed_ms: sat_add(s.time_elapsed_ms, dt_ms), ..s })
    &&& (s.status == GameStatus::Playing && s.is_auto_playing && sat_add(
        s.replay_timer_ms,
        dt_ms,
    ) < REPLAY_INTERVAL_MS ==> t == GameState {
        time_elapsed_ms: sat_add(s.time_elapsed_ms, dt_ms),
        replay_timer_ms: sat_add(s.replay_timer_ms, dt_ms),
        ..s
    })
    &&& (s.status == GameStatus::Playing && s.is_auto_playing && sat_add(
        s.replay_timer_ms,
        dt_ms,
    ) >= REPLAY_INTERVAL_MS && s.replay_queue@.len() == 0 ==> {
        &&& t.replay_queue@ == s.replay_queue@
        &&& t == GameState {
            time_elapsed_ms: sat_add(s.time_elapsed_ms, dt_ms),
            replay_timer_ms: 0,
            replay_queue: t.replay_queue,
            is_auto_playing: false,
            last_auto_command: None,
            ..s
        }
    })
    &&& (s.status == GameStatus::Playing && s.is_auto_playing && sat_add(
        s.replay_timer_ms,
        dt_ms,
    ) >= REPLAY_INTERVAL_MS && s.replay_queue@.len() > 0 ==> {
        &&& t.replay_queue@ == s.replay_queue@.drop_first()
        &&& dispatched(
            GameState {
                time_elapsed_ms: sat_add(s.time_elapsed_ms, dt_ms),
                replay_timer_ms: 0,
                replay_queue: t.replay_queue,
                last_auto_command: Some(s.replay_queue@[0]),
                ..s
            },
            s.replay_queue@[0],
            t,
        )
    })
}

/// `t` is `s` set to replay `commands` from the start of the interval.
pub open spec fn auto_play_started(s: GameState, commands: Seq<VimCommand>, t: GameState) -> bool {
    &&& t.replay_queue@ == commands
    &&& t == (GameState {
        replay_queue: t.replay_queue,
        is_auto_playing: true,
        replay_timer_ms: 0,
        last_auto_command: None,
        ..s
    })
}

/// `a + b`, stopping at the largest `u64`.
pub open spec fn sat_add(a: u64, b: u64) -> u64 {
    if a + b <= u64::MAX {
        (a + b) as u64
    } else {
        u64::MAX
    }
}

fn add_saturating(a: u64, b: u64) -> (r: u64)
    ensures
        r == sat_add(a, b),
{
    if a <= u64::MAX - b {
        a + b
    } else {
        u64::MAX
    }
}

/// The find or till that a pending start command becomes with character `c`.
pub open spec fn completed_find(k: VimCommand, c: char) -> VimCommand {
    match k {
        VimCommand::StartFindNext => VimCommand::FindNextChar(c),
        VimCommand::StartFindPrev => VimCommand::FindPrevChar(c),
        VimCommand::StartTillNext => VimCommand::TillNextChar(c),
        VimCommand::StartTillPrev => VimCommand::TillPrevChar(c),
        _ => VimCommand::NoOp,
    }
}

/// Dispatch keeps the cursor on the grid: from a cell inside
/// `[0, width) x [0, height)` the cursor ends inside the new grid, which has
/// the same width and height.
pub proof fn lemma_dispatch_in_bounds(s: GameState, c: VimCommand, t: GameState)
    requires
        dispatched(s, c, t),
        in_bounds(s.rows(), s.player_pos),
        width_of(s.rows()) <= usize::MAX,
        s.rows().len() <= usize::MAX,
    ensures
        in_bounds(t.rows(), t.player_pos),
        width_of(t.rows()) == width_of(s.rows()),
        t.rows().len() == s.rows().len(),
{
    if s.status == GameStatus::Playing {
        lemma_motion_in_bounds(s.rows(), letters(s.rows()), s.player_pos, s.performed(c));
        lemma_cleared_shape(s.rows(), s.player_pos);
    }
}

/// The no-op changes neither position, grid, status nor any counter. The
/// one exception is a cursor resting on the target while still playing:
/// the check for the target that follows every command then ends the level.
pub proof fn lemma_noop_changes_nothing(s: GameState, t: GameState)
    requires
        dispatched(s, VimCommand::NoOp, t),
        !(s.status == GameStatus::Playing && s.player_pos == s.current_level.target_pos),
    ensures
        t.player_pos == s.player_pos,
        t.rows() == s.rows(),
        t.status == s.status,
        t.time_elapsed_ms == s.time_elapsed_ms,
        t.keystrokes == s.keystrokes,
        t.penalties == s.penalties,
        t.score == s.score,
{
}

/// After the game is over, every dispatch leaves the whole state as it was.
pub proof fn lemma_game_over_is_final(s: GameState, c: VimCommand, t: GameState)
    requires
        s.status == GameStatus::GameOver,
        dispatched(s, c, t),
    ensures
        t == s,
{
}

/// Moving onto a hazard (`~`) ends the game, unless that cell is the target.
pub proof fn lemma_hazard_ends_game(s: GameState, c: VimCommand, t: GameState)
    requires
        s.status == GameStatus::Playing,
        dispatched(s, c, t),
        t.player_pos != s.player_pos,
        cell_char(s.rows(), t.player_pos.x as int, t.player_pos.y as int) == '~',
        t.player_pos != s.current_level.target_pos,
    ensures
        t.status == GameStatus::GameOver,
{
}

} // verus!
