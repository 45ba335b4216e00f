use vstd::prelude::*;

verus! {

/// One editor command: a motion, an action, or a step of a pending
/// find or search.
#[derive(Debug, Clone)]
pub enum VimCommand {
    MoveLeft,
    MoveDown,
    MoveUp,
    MoveRight,
    MoveWordForward,
    MoveWordBack,
    MoveWordEnd,
    MoveLineStart,
    MoveLineEnd,
    MoveScreenTop,
    MoveScreenMiddle,
    MoveScreenBottom,
    MoveParagraphForward,
    MoveParagraphBack,
    InsertMode,
    Escape,
    NoOp,
    StartFindNext,
    StartFindPrev,
    StartTillNext,
    StartTillPrev,
    StartSearchForward,
    StartSearchBackward,
    FindNextChar(char),
    FindPrevChar(char),
    TillNextChar(char),
    TillPrevChar(char),
    RepeatFind,
    RepeatFindReverse,
    SearchForward(String),
    SearchBackward(String),
    NextMatch,
    PrevMatch,
    DeleteChar,
}

/// A code that tells apart every command without a string payload: a tag
/// and the character payload, if any (`'\0'` otherwise).
pub open spec fn command_code(c: VimCommand) -> (u8, char) {
    match c {
        VimCommand::MoveLeft => (0, '\0'),
        VimCommand::MoveDown => (1, '\0'),
        VimCommand::MoveUp => (2, '\0'),
        VimCommand::MoveRight => (3, '\0'),
        VimCommand::MoveWordForward => (4, '\0'),
        VimCommand::MoveWordBack => (5, '\0'),
        VimCommand::MoveWordEnd => (6, '\0'),
        VimCommand::MoveLineStart => (7, '\0'),
        VimCommand::MoveLineEnd => (8, '\0'),
        VimCommand::MoveScreenTop => (9, '\0'),
        VimCommand::MoveScreenMiddle => (10, '\0'),
        VimCommand::MoveScreenBottom => (11, '\0'),
        VimCommand::MoveParagraphForward => (12, '\0'),
        VimCommand::MoveParagraphBack => (13, '\0'),
        VimCommand::InsertMode => (14, '\0'),
        VimCommand::Escape => (15, '\0'),
        VimCommand::NoOp => (16, '\0'),
        VimCommand::StartFindNext => (17, '\0'),
        VimCommand::StartFindPrev => (18, '\0'),
        VimCommand::StartTillNext => (19, '\0'),
        VimCommand::StartTillPrev => (20, '\0'),
        VimCommand::StartSearchForward => (21, '\0'),
        VimCommand::StartSearchBackward => (22, '\0'),
        VimCommand::FindNextChar(ch) => (23, ch),
        VimCommand::FindPrevChar(ch) => (24, ch),
        VimCommand::TillNextChar(ch) => (25, ch),
        VimCommand::TillPrevChar(ch) => (26, ch),
        VimCommand::RepeatFind => (27, '\0'),
        VimCommand::RepeatFindReverse => (28, '\0'),
        VimCommand::SearchForward(_) => (29, '\0'),
        VimCommand::SearchBackward(_) => (30, '\0'),
        VimCommand::NextMatch => (31, '\0'),
        VimCommand::PrevMatch => (32, '\0'),
        VimCommand::DeleteChar => (33, '\0'),
    }
}

/// Two commands are equal when they are the same variant with equal payload.
pub open spec fn same_command(a: VimCommand, b: VimCommand) -> bool {
    match (a, b) {
        (VimCommand::SearchForward(s), VimCommand::SearchForward(t)) => s@ == t@,
        (VimCommand::SearchBackward(s), VimCommand::SearchBackward(t)) => s@ == t@,
        _ => command_code(a) == command_code(b),
    }
}

impl VimCommand {
    /// The tag and character payload of this command.
    pub fn code(&self) -> (r: (u8, char))
        ensures
            r == command_code(*self),
    {
        match self {
            VimCommand::MoveLeft => (0, '\0'),
            VimCommand::MoveDown => (1, '\0'),
            VimCommand::MoveUp => (2, '\0'),
            VimCommand::MoveRight => (3, '\0'),
            VimCommand::MoveWordForward => (4, '\0'),
            VimCommand::MoveWordBack => (5, '\0'),
            VimCommand::MoveWordEnd => (6, '\0'),
            VimCommand::MoveLineStart => (7, '\0'),
            VimCommand::MoveLineEnd => (8, '\0'),
            VimCommand::MoveScreenTop => (9, '\0'),
            VimCommand::MoveScreenMiddle => (10, '\0'),
            VimCommand::MoveScreenBottom => (11, '\0'),
            VimCommand::MoveParagraphForward => (12, '\0'),
            VimCommand::MoveParagraphBack => (13, '\0'),
            VimCommand::InsertMode => (14, '\0'),
            VimCommand::Escape => (15, '\0'),
            VimCommand::NoOp => (16, '\0'),
            VimCommand::StartFindNext => (17, '\0'),
            VimCommand::StartFindPrev => (18, '\0'),
            VimCommand::StartTillNext => (19, '\0'),
            VimCommand::StartTillPrev => (20, '\0'),
            VimCommand::StartSearchForward => (21, '\0'),
            VimCommand::StartSearchBackward => (22, '\0'),
            VimCommand::FindNextChar(ch) => (23, *ch),
            VimCommand::FindPrevChar(ch) => (24, *ch),
            VimCommand::TillNextChar(ch) => (25, *ch),
            VimCommand::TillPrevChar(ch) => (26, *ch),
            VimCommand::RepeatFind => (27, '\0'),
            VimCommand::RepeatFindReverse => (28, '\0'),
            VimCommand::SearchForward(_) => (29, '\0'),
            VimCommand::SearchBackward(_) => (30, '\0'),
            VimCommand::NextMatch => (31, '\0'),
            VimCommand::PrevMatch => (32, '\0'),
            VimCommand::DeleteChar => (33, '\0'),
        }
    }

    /// A copy of this command.
    pub fn duplicate(&self) -> (r: VimCommand)
        ensures
            r == *self,
    {
        match self {
            VimCommand::SearchForward(s) => VimCommand::SearchForward(s.clone()),
            VimCommand::SearchBackward(s) => VimCommand::SearchBackward(s.clone()),
            VimCommand::FindNextChar(ch) => VimCommand::FindNextChar(*ch),
            VimCommand::FindPrevChar(ch) => VimCommand::FindPrevChar(*ch),
            VimCommand::TillNextChar(ch) => VimCommand::TillNextChar(*ch),
            VimCommand::TillPrevChar(ch) => VimCommand::TillPrevChar(*ch),
            VimCommand::MoveLeft => VimCommand::MoveLeft,
            VimCommand::MoveDown => VimCommand::MoveDown,
            VimCommand::MoveUp => VimCommand::MoveUp,
            VimCommand::MoveRight => VimCommand::MoveRight,
            VimCommand::MoveWordForward => VimCommand::MoveWordForward,
            VimCommand::MoveWordBack => VimCommand::MoveWordBack,
            VimCommand::MoveWordEnd => VimCommand::MoveWordEnd,
            VimCommand::MoveLineStart => VimCommand::MoveLineStart,
            VimCommand::MoveLineEnd => VimCommand::MoveLineEnd,
            VimCommand::MoveScreenTop => VimCommand::MoveScreenTop,
            VimCommand::MoveScreenMiddle => VimCommand::MoveScreenMiddle,
            VimCommand::MoveScreenBottom => VimCommand::MoveScreenBottom,
            VimCommand::MoveParagraphForward => VimCommand::MoveParagraphForward,
            VimCommand::MoveParagraphBack => VimCommand::MoveParagraphBack,
            VimCommand::InsertMode => VimCommand::InsertMode,
            VimCommand::Escape => VimCommand::Escape,
            VimCommand::NoOp => VimCommand::NoOp,
            VimCommand::StartFindNext => VimCommand::StartFindNext,
            VimCommand::StartFindPrev => VimCommand::StartFindPrev,
            VimCommand::StartTillNext => VimCommand::StartTillNext,
            VimCommand::StartTillPrev => VimCommand::StartTillPrev,
            VimCommand::StartSearchForward => VimCommand::StartSearchForward,
            VimCommand::StartSearchBackward => VimCommand::StartSearchBackward,
            VimCommand::RepeatFind => VimCommand::RepeatFind,
            VimCommand::RepeatFindReverse => VimCommand::RepeatFindReverse,
            VimCommand::NextMatch => VimCommand::NextMatch,
            VimCommand::PrevMatch => VimCommand::PrevMatch,
            VimCommand::DeleteChar => VimCommand::DeleteChar,
        }
    }
}

impl PartialEq for VimCommand {
    fn eq(&self, o: &VimCommand) -> (r: bool) {
        let (a, x) = self.code();
        let (b, y) = o.code();
        if a != b || x != y {
            return false;
        }
        match (self, o) {
            (VimCommand::SearchForward(s), VimCommand::SearchForward(t)) => *s == *t,
            (VimCommand::SearchBackward(s), VimCommand::SearchBackward(t)) => *s == *t,
            _ => true,
        }
    }
}

impl vstd::std_specs::cmp::PartialEqSpecImpl for VimCommand {
    open spec fn obeys_eq_spec() -> bool {
        true
    }

    open spec fn eq_spec(&self, o: &VimCommand) -> bool {
        same_command(*self, *o)
    }
}

/// The command bound to a single key character, `NoOp` for any other.
pub open spec fn key_command(c: char) -> VimCommand {
    if c == 'h' {
        VimCommand::MoveLeft
    } else if c == 'j' {
        VimCommand::MoveDown
    } else if c == 'k' {
        VimCommand::MoveUp
    } else if c == 'l' {
        VimCommand::MoveRight
    } else if c == 'w' {
        VimCommand::MoveWordForward
    } else if c == 'b' {
        VimCommand::MoveWordBack
    } else if c == 'e' {
        VimCommand::MoveWordEnd
    } else if c == 'i' {
        VimCommand::InsertMode
    } else {
        VimCommand::NoOp
    }
}

/// The command named by a command name as written in level data.
pub open spec fn named_command(s: Seq<char>) -> VimCommand {
    if s.len() != 1 {
        VimCommand::NoOp
    } else {
        let c = s[0];
        if c == '0' {
            VimCommand::MoveLineStart
        } else if c == '$' {
            VimCommand::MoveLineEnd
        } else if c == 'H' {
            VimCommand::MoveScreenTop
        } else if c == 'M' {
            VimCommand::MoveScreenMiddle
        } else if c == 'L' {
            VimCommand::MoveScreenBottom
        } else if c == '}' {
            VimCommand::MoveParagraphForward
        } else if c == '{' {
            VimCommand::MoveParagraphBack
        } else if c == 'i' {
            VimCommand::NoOp
        } else {
            key_command(c)
        }
    }
}

/// The keys that commands are bound to; every other key is `Other`.
#[derive(Debug, Clone, Copy, PartialEq, Eq, Structural)]
pub enum Key {
    H,
    J,
    K,
    L,
    M,
    W,
    B,
    E,
    I,
    Key0,
    Key4,
    LeftBracket,
    RightBracket,
    Escape,
    Other,
}

/// The command bound to a key, with or without shift (`$` is shift-4,
/// `{` and `}` are shifted brackets).
pub open spec fn key_binding(key: Key, shift: bool) -> VimCommand {
    match key {
        Key::H => if shift {
            VimCommand::MoveScreenTop
        } else {
            VimCommand::MoveLeft
        },
        Key::J => VimCommand::MoveDown,
        Key::K => VimCommand::MoveUp,
        Key::L => if shift {
            VimCommand::MoveScreenBottom
        } else {
            VimCommand::MoveRight
        },
        Key::M => if shift {
            VimCommand::MoveScreenMiddle
        } else {
            VimCommand::NoOp
        },
        Key::W => VimCommand::MoveWordForward,
        Key::B => VimCommand::MoveWordBack,
        Key::E => VimCommand::MoveWordEnd,
        Key::Key0 => VimCommand::MoveLineStart,
        Key::Key4 => if shift {
            VimCommand::MoveLineEnd
        } else {
            VimCommand::NoOp
        },
        Key::RightBracket => if shift {
            VimCommand::MoveParagraphForward
        } else {
            VimCommand::NoOp
        },
        Key::LeftBracket => if shift {
            VimCommand::MoveParagraphBack
        } else {
            VimCommand::NoOp
        },
        Key::I => VimCommand::InsertMode,
        Key::Escape => VimCommand::Escape,
        Key::Other => VimCommand::NoOp,
    }
}

/// Maps keys to commands.
pub struct InputHandler {}

impl InputHandler {
    pub fn new() -> (r: InputHandler) {
        InputHandler {  }
    }

    /// The command for a pressed key.
    pub fn map_key(&mut self, key: Key, shift: bool) -> (r: VimCommand)
        ensures
            r == key_binding(key, shift),
    {
        match key {
            Key::H => if shift {
                VimCommand::MoveScreenTop
            } else {
                VimCommand::MoveLeft
            },
            Key::J => VimCommand::MoveDown,
            Key::K => VimCommand::MoveUp,
            Key::L => if shift {
                VimCommand::MoveScreenBottom
            } else {
                VimCommand::MoveRight
            },
            Key::M => if shift {
                VimCommand::MoveScreenMiddle
            } else {
                VimCommand::NoOp
            },
            Key::W => VimCommand::MoveWordForward,
            Key::B => VimCommand::MoveWordBack,
            Key::E => VimCommand::MoveWordEnd,
            Key::Key0 => VimCommand::MoveLineStart,
            Key::Key4 => if shift {
                VimCommand::MoveLineEnd
            } else {
                VimCommand::NoOp
            },
            Key::RightBracket => if shift {
                VimCommand::MoveParagraphForward
            } else {
                VimCommand::NoOp
            },
            Key::LeftBracket => if shift {
                VimCommand::MoveParagraphBack
            } else {
                VimCommand::NoOp
            },
            Key::I => VimCommand::InsertMode,
            Key::Escape => VimCommand::Escape,
            Key::Other => VimCommand::NoOp,
        }
    }

    /// The command for a typed character.
    pub fn map_char(&mut self, c: char) -> (r: VimCommand)
        ensures
            r == key_command(c),
    {
        match c {
            'h' => VimCommand::MoveLeft,
            'j' => VimCommand::MoveDown,
            'k' => VimCommand::MoveUp,
            'l' => VimCommand::MoveRight,
            'w' => VimCommand::MoveWordForward,
            'b' => VimCommand::MoveWordBack,
            'e' => VimCommand::MoveWordEnd,
            'i' => VimCommand::InsertMode,
            _ => VimCommand::NoOp,
        }
    }

    /// The command for a command name (`"h"`, `"$"`, `"}"`, ...).
    pub fn from_string(s: &str) -> (r: VimCommand)
        ensures
            r == named_command(s@),
    {
        if s.unicode_len() != 1 {
            return VimCommand::NoOp;
        }
        match s.get_char(0) {
            'h' => VimCommand::MoveLeft,
            'j' => VimCommand::MoveDown,
            'k' => VimCommand::MoveUp,
            'l' => VimCommand::MoveRight,
            'w' => VimCommand::MoveWordForward,
            'b' => VimCommand::MoveWordBack,
            'e' => VimCommand::MoveWordEnd,
            '0' => VimCommand::MoveLineStart,
            '$' => VimCommand::MoveLineEnd,
            'H' => VimCommand::MoveScreenTop,
            'M' => VimCommand::MoveScreenMiddle,
            'L' => VimCommand::MoveScreenBottom,
            '}' => VimCommand::MoveParagraphForward,
            '{' => VimCommand::MoveParagraphBack,
            _ => VimCommand::NoOp,
        }
    }
}

} // verus!
