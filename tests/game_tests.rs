use vim_game::game::{GameState, GameStatus, InputMode, SpecialKey};
use vim_game::input::VimCommand;
use vim_game::level::{Level, Position};

fn level_from(layout: &[&str], start: (usize, usize), target: (usize, usize)) -> Level {
    Level {
        id: "test".to_string(),
        name: "Test".to_string(),
        description: "Test".to_string(),
        layout: layout.iter().map(|r| r.to_string()).collect(),
        start_pos: Position { x: start.0, y: start.1 },
        target_pos: Position { x: target.0, y: target.1 },
        allowed_keys: vec![],
        trained_commands: vec![],
        tutorial_text: String::new(),
        par_time_ms: 10000,
        par_keystrokes: 4,
    }
}

fn create_test_level() -> Level {
    Level {
        id: "test".to_string(),
        name: "Test".to_string(),
        description: "Test".to_string(),
        layout: vec!["...".to_string(), "...".to_string(), "...".to_string()],
        start_pos: Position { x: 0, y: 0 },
        target_pos: Position { x: 2, y: 2 },
        allowed_keys: vec!["h".to_string(), "j".to_string(), "k".to_string(), "l".to_string()],
        trained_commands: vec![],
        tutorial_text: String::new(),
        par_time_ms: 10000,
        par_keystrokes: 4,
    }
}

#[test]
fn test_movement() {
    let level = create_test_level();
    let mut game = GameState::new(level);

    game.handle_command(VimCommand::MoveRight);
    assert_eq!(game.player_pos.x, 1);
    assert_eq!(game.player_pos.y, 0);

    game.handle_command(VimCommand::MoveDown);
    assert_eq!(game.player_pos.x, 1);
    assert_eq!(game.player_pos.y, 1);
}

#[test]
fn test_win_condition() {
    let level = create_test_level();
    let mut game = GameState::new(level);

    game.handle_command(VimCommand::MoveRight);
    game.handle_command(VimCommand::MoveRight);
    game.handle_command(VimCommand::MoveDown);
    game.handle_command(VimCommand::MoveDown);

    if let GameStatus::LevelComplete = game.status {
        assert!(true);
    } else {
        assert!(false, "Game should be complete");
    }
}

#[test]
fn test_word_movement() {
    let level = Level {
        id: "word_test".to_string(),
        name: "Word Test".to_string(),
        description: "Test".to_string(),
        layout: vec!["a bc def".to_string()],
        start_pos: Position { x: 0, y: 0 },
        target_pos: Position { x: 0, y: 1 },
        allowed_keys: vec![],
        trained_commands: vec![],
        tutorial_text: String::new(),
        par_time_ms: 10000,
        par_keystrokes: 5,
    };
    let mut game = GameState::new(level);

    game.handle_command(VimCommand::MoveWordForward);
    assert_eq!(game.player_pos.x, 2);

    game.handle_command(VimCommand::MoveWordForward);
    assert_eq!(game.player_pos.x, 5);

    game.handle_command(VimCommand::MoveWordEnd);
    assert_eq!(game.player_pos.x, 7);

    game.handle_command(VimCommand::MoveWordBack);
    assert_eq!(game.player_pos.x, 5);

    game.handle_command(VimCommand::MoveWordBack);
    assert_eq!(game.player_pos.x, 2);
}

#[test]
fn test_paragraph_movement_level_08() {
    let level = Level {
        id: "level_08_test".to_string(),
        name: "Void Leaping Test".to_string(),
        description: "Test".to_string(),
        layout: vec![
            "####################".to_string(),
            "#S aaaa            #".to_string(),
            "#..................#".to_string(),
            "~~~~~~~~~~~~~~~~~~~~".to_string(),
            "~~~~~~~~~~~~~~~~~~~~".to_string(),
            "#  bbbb            #".to_string(),
            "#..................#".to_string(),
            "~~~~~~~~~~~~~~~~~~~~".to_string(),
            "#                 E#".to_string(),
            "####################".to_string(),
        ],
        start_pos: Position { x: 1, y: 1 },
        target_pos: Position { x: 18, y: 8 },
        allowed_keys: vec![],
        trained_commands: vec![],
        tutorial_text: String::new(),
        par_time_ms: 10000,
        par_keystrokes: 3,
    };
    let mut game = GameState::new(level);

    game.handle_command(VimCommand::MoveParagraphForward);
    assert_eq!(game.player_pos.y, 2);

    game.handle_command(VimCommand::MoveParagraphForward);
    assert_eq!(game.player_pos.y, 6);

    game.handle_command(VimCommand::MoveParagraphForward);
    assert_eq!(game.player_pos.y, 8);
}

#[test]
fn test_find_char_movement() {
    let level = Level {
        id: "find_test".to_string(),
        name: "Find Test".to_string(),
        description: "Test".to_string(),
        layout: vec!["a b c d".to_string()],
        start_pos: Position { x: 0, y: 0 },
        target_pos: Position { x: 6, y: 0 },
        allowed_keys: vec![],
        trained_commands: vec![],
        tutorial_text: String::new(),
        par_time_ms: 10000,
        par_keystrokes: 5,
    };
    let mut game = GameState::new(level);

    game.handle_command(VimCommand::StartFindNext);
    if let InputMode::WaitingForChar(_) = game.input_mode {
        game.handle_char_input('c');
    }
    assert_eq!(game.player_pos.x, 4);

    game.handle_command(VimCommand::RepeatFind);
    assert_eq!(game.player_pos.x, 4);

    game.handle_command(VimCommand::StartFindPrev);
    game.handle_char_input('a');
    assert_eq!(game.player_pos.x, 0);
}

#[test]
fn noop_changes_nothing() {
    let mut game = GameState::new(level_from(&["S.X.E"], (0, 0), (4, 0)));
    game.handle_command(VimCommand::MoveRight);
    let before = (game.player_pos, game.grid.clone(), game.status, game.time_elapsed_ms, game.keystrokes, game.penalties, game.score);
    game.handle_command(VimCommand::NoOp);
    game.handle_command(VimCommand::NoOp);
    let after = (game.player_pos, game.grid.clone(), game.status, game.time_elapsed_ms, game.keystrokes, game.penalties, game.score);
    assert_eq!(before, after);
}

#[test]
fn hazard_ends_the_game_for_good() {
    let mut game = GameState::new(level_from(&["S~..E"], (0, 0), (4, 0)));
    game.handle_command(VimCommand::MoveRight);
    assert_eq!(game.status, GameStatus::GameOver);
    assert_eq!(game.player_pos, Position { x: 1, y: 0 });
    let keys = game.keystrokes;
    game.handle_command(VimCommand::MoveRight);
    game.handle_command(VimCommand::MoveLineEnd);
    game.handle_command(VimCommand::DeleteChar);
    assert_eq!(game.status, GameStatus::GameOver);
    assert_eq!(game.player_pos, Position { x: 1, y: 0 });
    assert_eq!(game.keystrokes, keys);
    assert_eq!(game.grid[0][1], '~');
}

#[test]
fn find_onto_a_hazard_ends_the_game() {
    let mut game = GameState::new(level_from(&["S..~.E"], (0, 0), (5, 0)));
    game.handle_command(VimCommand::FindNextChar('~'));
    assert_eq!(game.player_pos.x, 3);
    assert_eq!(game.status, GameStatus::GameOver);
}

#[test]
fn win_score_within_par() {
    let mut game = GameState::new(level_from(&["S..E"], (0, 0), (3, 0)));
    game.update(8000);
    assert_eq!(game.time_elapsed_ms, 8000);
    game.handle_command(VimCommand::MoveRight);
    game.handle_command(VimCommand::MoveRight);
    game.handle_command(VimCommand::MoveRight);
    assert_eq!(game.status, GameStatus::LevelComplete);
    assert_eq!(game.keystrokes, 3);
    assert_eq!(game.penalties, 0);
    assert_eq!(game.score, 1000);
}

#[test]
fn score_counts_time_keys_and_penalties_over_par() {
    let mut level = level_from(&["S.....E"], (0, 0), (6, 0));
    level.trained_commands = vec!["h".to_string()];
    level.par_keystrokes = 4;
    let mut game = GameState::new(level);
    game.update(12345);
    for _ in 0..6 {
        game.handle_command(VimCommand::MoveRight);
    }
    assert_eq!(game.status, GameStatus::LevelComplete);
    assert_eq!(game.keystrokes, 6);
    assert_eq!(game.penalties, 6);
    // 1000 - 23 (2.345 s over par, in tenths) - 50 * 2 - 100 * 6
    assert_eq!(game.score, 277);
}

#[test]
fn rubble_costs_five_seconds() {
    let mut game = GameState::new(level_from(&["SX.E"], (0, 0), (3, 0)));
    game.handle_command(VimCommand::MoveRight);
    assert_eq!(game.time_elapsed_ms, 5000);
    game.handle_command(VimCommand::MoveRight);
    assert_eq!(game.time_elapsed_ms, 5000);
}

#[test]
fn walls_stop_single_steps() {
    let mut game = GameState::new(level_from(&["S#E", "..."], (0, 0), (2, 0)));
    game.handle_command(VimCommand::MoveRight);
    assert_eq!(game.player_pos, Position { x: 0, y: 0 });
    game.handle_command(VimCommand::MoveLeft);
    game.handle_command(VimCommand::MoveUp);
    assert_eq!(game.player_pos, Position { x: 0, y: 0 });
    assert_eq!(game.keystrokes, 3);
}

#[test]
fn line_and_screen_jumps() {
    let layout = ["#####", "#S..#", "#...#", "#.a.#", "#..E#", "#####"];
    let mut game = GameState::new(level_from(&layout, (2, 2), (3, 4)));
    game.handle_command(VimCommand::MoveLineEnd);
    assert_eq!(game.player_pos, Position { x: 3, y: 2 });
    game.handle_command(VimCommand::MoveLineStart);
    assert_eq!(game.player_pos, Position { x: 1, y: 2 });
    game.handle_command(VimCommand::MoveScreenTop);
    assert_eq!(game.player_pos, Position { x: 1, y: 1 });
    game.handle_command(VimCommand::MoveScreenMiddle);
    assert_eq!(game.player_pos, Position { x: 1, y: 3 });
    game.handle_command(VimCommand::MoveScreenBottom);
    assert_eq!(game.player_pos, Position { x: 1, y: 4 });
}

#[test]
fn screen_middle_searches_outward() {
    // height 5, middle row 2 is a wall in column 0: row 1 is tried first
    let mut game = GameState::new(level_from(&[".", ".", "#", ".", "E"], (0, 4), (0, 0)));
    game.handle_command(VimCommand::MoveScreenMiddle);
    assert_eq!(game.player_pos, Position { x: 0, y: 1 });
}

#[test]
fn paragraph_back_and_fallback() {
    let layout = ["aa", "..", "bb", "cc"];
    let mut game = GameState::new(level_from(&layout, (0, 3), (1, 1)));
    game.handle_command(VimCommand::MoveParagraphBack);
    assert_eq!(game.player_pos, Position { x: 0, y: 1 });
    game.handle_command(VimCommand::MoveParagraphBack);
    assert_eq!(game.player_pos, Position { x: 0, y: 1 });
    // no break below: forward goes to the last row
    game.handle_command(VimCommand::MoveParagraphForward);
    assert_eq!(game.player_pos, Position { x: 0, y: 3 });
}

#[test]
fn till_and_reversed_repeat() {
    let mut game = GameState::new(level_from(&["a.b.c.b.E"], (0, 0), (8, 0)));
    game.handle_command(VimCommand::StartTillNext);
    game.handle_char_input('b');
    assert_eq!(game.player_pos.x, 1);
    assert!(matches!(game.input_mode, InputMode::Normal));
    game.handle_command(VimCommand::FindNextChar('c'));
    assert_eq!(game.player_pos.x, 4);
    // the remembered till is now reversed: one cell after the previous 'b'
    game.handle_command(VimCommand::RepeatFindReverse);
    assert_eq!(game.player_pos.x, 3);
    game.handle_command(VimCommand::TillPrevChar('a'));
    assert_eq!(game.player_pos.x, 1);
}

#[test]
fn repeat_counts_one_keystroke() {
    let mut game = GameState::new(level_from(&["a.c.c.E"], (0, 0), (6, 0)));
    game.handle_command(VimCommand::StartFindNext);
    game.handle_char_input('c');
    assert_eq!(game.keystrokes, 1);
    game.handle_command(VimCommand::RepeatFind);
    assert_eq!(game.player_pos.x, 4);
    assert_eq!(game.keystrokes, 2);
}

#[test]
fn search_line_typing_and_matches() {
    let mut game = GameState::new(level_from(&["S ab .. ab", "ab .. E"], (0, 0), (6, 1)));
    game.handle_command(VimCommand::StartSearchForward);
    game.handle_char_input('a');
    game.handle_char_input('x');
    game.handle_special_key(SpecialKey::Backspace);
    game.handle_char_input('b');
    match &game.input_mode {
        InputMode::CommandLine(text, _) => assert_eq!(text, "ab"),
        _ => panic!("expected the command line"),
    }
    game.handle_special_key(SpecialKey::Enter);
    assert!(matches!(game.input_mode, InputMode::Normal));
    assert_eq!(game.player_pos, Position { x: 2, y: 0 });
    assert_eq!(game.last_search_query, Some("ab".to_string()));
    game.handle_command(VimCommand::NextMatch);
    assert_eq!(game.player_pos, Position { x: 8, y: 0 });
    game.handle_command(VimCommand::NextMatch);
    assert_eq!(game.player_pos, Position { x: 0, y: 1 });
    game.handle_command(VimCommand::PrevMatch);
    assert_eq!(game.player_pos, Position { x: 8, y: 0 });
}

#[test]
fn search_wraps_and_stops_after_a_full_cycle() {
    let mut game = GameState::new(level_from(&["ab.", "..E"], (2, 1), (2, 1)));
    game.handle_command(VimCommand::SearchBackward("zz".to_string()));
    assert_eq!(game.player_pos, Position { x: 2, y: 1 });
    let mut game = GameState::new(level_from(&["ab.", "..E"], (1, 1), (2, 1)));
    game.handle_command(VimCommand::SearchForward("ab".to_string()));
    assert_eq!(game.player_pos, Position { x: 0, y: 0 });
}

#[test]
fn escape_leaves_the_command_line() {
    let mut game = GameState::new(level_from(&["S.E"], (0, 0), (2, 0)));
    game.handle_command(VimCommand::StartSearchBackward);
    game.handle_char_input('E');
    game.handle_special_key(SpecialKey::Escape);
    assert!(matches!(game.input_mode, InputMode::Normal));
    assert_eq!(game.player_pos, Position { x: 0, y: 0 });
    assert_eq!(game.keystrokes, 0);
}

#[test]
fn delete_clears_terrain_but_not_markers() {
    let mut game = GameState::new(level_from(&["SX.E"], (0, 0), (3, 0)));
    game.handle_command(VimCommand::DeleteChar);
    assert_eq!(game.grid[0][0], 'S');
    game.handle_command(VimCommand::MoveRight);
    game.handle_command(VimCommand::DeleteChar);
    assert_eq!(game.grid[0][1], '.');
    assert_eq!(game.player_pos, Position { x: 1, y: 0 });
    assert_eq!(game.current_level.layout[0], "SX.E");
}

#[test]
fn word_back_onto_a_hazard_ends_the_game() {
    let mut game = GameState::new(level_from(&["~ a", "..E"], (2, 0), (2, 1)));
    game.handle_command(VimCommand::MoveWordBack);
    assert_eq!(game.player_pos, Position { x: 0, y: 0 });
    assert_eq!(game.status, GameStatus::GameOver);
}

#[test]
fn word_motions_wrap_rows_and_skip_walls() {
    let mut game = GameState::new(level_from(&["ab #", "#cd.", "..E."], (0, 0), (2, 2)));
    game.handle_command(VimCommand::MoveWordForward);
    assert_eq!(game.player_pos, Position { x: 1, y: 1 });
    game.handle_command(VimCommand::MoveWordEnd);
    assert_eq!(game.player_pos, Position { x: 2, y: 1 });
    game.handle_command(VimCommand::MoveWordBack);
    assert_eq!(game.player_pos, Position { x: 1, y: 1 });
    game.handle_command(VimCommand::MoveWordBack);
    assert_eq!(game.player_pos, Position { x: 0, y: 0 });
}

#[test]
fn cursor_stays_on_the_grid() {
    let layout = ["S a_b ~", "#..X", "", "c.d E"];
    let cmds = vec![
        VimCommand::MoveWordForward,
        VimCommand::MoveWordEnd,
        VimCommand::MoveWordBack,
        VimCommand::MoveLineEnd,
        VimCommand::MoveDown,
        VimCommand::MoveScreenBottom,
        VimCommand::MoveParagraphBack,
        VimCommand::MoveParagraphForward,
        VimCommand::MoveScreenMiddle,
        VimCommand::SearchBackward("d".to_string()),
        VimCommand::MoveRight,
        VimCommand::MoveWordEnd,
        VimCommand::MoveWordForward,
    ];
    let mut game = GameState::new(level_from(&layout, (0, 0), (9, 9)));
    for c in cmds {
        game.handle_command(c);
        assert!(game.player_pos.x < game.current_level.width());
        assert!(game.player_pos.y < game.current_level.height());
    }
}

#[test]
fn auto_play_replays_on_the_interval() {
    let mut game = GameState::new(level_from(&["S.E"], (0, 0), (2, 0)));
    game.start_auto_play(vec![VimCommand::MoveRight, VimCommand::MoveRight]);
    assert!(game.is_auto_playing);
    game.update(500);
    assert_eq!(game.player_pos.x, 0);
    game.update(300);
    assert_eq!(game.player_pos.x, 1);
    assert_eq!(game.last_auto_command, Some(VimCommand::MoveRight));
    game.update(800);
    assert_eq!(game.player_pos.x, 2);
    assert_eq!(game.status, GameStatus::LevelComplete);
    game.update(250);
    assert_eq!(game.level_complete_timer_ms, 250);
}

#[test]
fn auto_play_stops_when_the_queue_is_empty() {
    let mut game = GameState::new(level_from(&["S..E"], (0, 0), (3, 0)));
    game.start_auto_play(vec![VimCommand::MoveRight]);
    game.update(800);
    game.update(800);
    assert!(!game.is_auto_playing);
    assert_eq!(game.last_auto_command, None);
    assert_eq!(game.player_pos.x, 1);
}

#[test]
fn untrained_repeat_costs_one_penalty() {
    let mut level = level_from(&["a.c.c.E"], (0, 0), (6, 0));
    level.trained_commands = vec!["l".to_string()];
    let mut game = GameState::new(level);
    game.handle_command(VimCommand::StartFindNext);
    game.handle_char_input('c');
    assert_eq!(game.penalties, 1);
    game.handle_command(VimCommand::RepeatFind);
    assert_eq!(game.penalties, 2);
}

#[test]
fn help_toggles() {
    let mut game = GameState::new(level_from(&["S.E"], (0, 0), (2, 0)));
    game.toggle_help();
    assert!(game.show_help);
    game.toggle_help();
    assert!(!game.show_help);
}
