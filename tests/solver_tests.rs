use vim_game::game::{GameState, GameStatus};
use vim_game::input::VimCommand;
use vim_game::level::{Level, Position};
use vim_game::solver::Solver;

fn level_from(layout: &[&str], start: (usize, usize), target: (usize, usize)) -> Level {
    Level {
        id: "test".to_string(),
        name: "Test".to_string(),
        description: "Test".to_string(),
        layout: layout.iter().map(|r| r.to_string()).collect(),
        start_pos: Position { x: start.0, y: start.1 },
        target_pos: Position { x: target.0, y: target.1 },
        allowed_keys: vec![],
        trained_commands: vec![],
        tutorial_text: String::new(),
        par_time_ms: 10000,
        par_keystrokes: 5,
    }
}

/// Replays `path` in one session and reports where the cursor ends.
fn replay(level: &Level, path: &[VimCommand]) -> (Position, GameStatus) {
    let mut game = GameState::new(level.clone());
    for c in path {
        game.handle_command(c.clone());
    }
    (game.player_pos, game.status)
}

#[test]
fn test_solve_simple_level() {
    let level = Level {
        id: "test".to_string(),
        name: "Test".to_string(),
        description: "Test".to_string(),
        layout: vec!["S...E".to_string()],
        start_pos: Position { x: 0, y: 0 },
        target_pos: Position { x: 4, y: 0 },
        allowed_keys: vec![],
        trained_commands: vec![],
        tutorial_text: String::new(),
        par_time_ms: 10000,
        par_keystrokes: 5,
    };

    let solver = Solver::new(level);
    let solution = solver.solve();

    assert!(solution.is_some());
    let path = solution.unwrap();
    assert!(path.len() > 0);
}

#[test]
fn test_solve_with_find() {
    let level = Level {
        id: "find_test".to_string(),
        name: "Find Test".to_string(),
        description: "Test".to_string(),
        layout: vec!["S a E b".to_string()],
        start_pos: Position { x: 0, y: 0 },
        target_pos: Position { x: 4, y: 0 },
        allowed_keys: vec![],
        trained_commands: vec![],
        tutorial_text: String::new(),
        par_time_ms: 10000,
        par_keystrokes: 2,
    };

    let solver = Solver::new(level);
    let solution = solver.solve();

    assert!(solution.is_some());
    let path = solution.unwrap();
    let has_find = path.iter().any(|cmd| matches!(cmd, VimCommand::FindNextChar('E')));
    assert!(has_find, "Solution should use FindNextChar('E')");
}

#[test]
fn test_solve_with_search() {
    let level = Level {
        id: "search_test".to_string(),
        name: "Search Test".to_string(),
        description: "Test".to_string(),
        layout: vec!["S ... target ...".to_string(), "... E ...".to_string()],
        start_pos: Position { x: 0, y: 0 },
        target_pos: Position { x: 4, y: 1 },
        allowed_keys: vec![],
        trained_commands: vec![],
        tutorial_text: String::new(),
        par_time_ms: 10000,
        par_keystrokes: 2,
    };

    let solver = Solver::new(level);
    let solution = solver.solve();

    assert!(solution.is_some());
    let path = solution.unwrap();
    let has_search = path.iter().any(|cmd| matches!(cmd, VimCommand::SearchForward(_)));
    assert!(has_search, "Solution should use SearchForward");
}

#[test]
fn solutions_replay_to_the_target() {
    let layout = ["#########", "#S..~...#", "#.##~##.#", "#...~..E#", "#########"];
    let level = level_from(&layout, (1, 1), (7, 3));
    let path = Solver::new(level.clone()).solve().expect("a route exists");
    let (pos, status) = replay(&level, &path);
    assert_eq!(pos, Position { x: 7, y: 3 });
    assert_eq!(status, GameStatus::LevelComplete);
}

#[test]
fn solving_twice_gives_the_same_sequence() {
    let layout = ["S.a.b..", "#.#.#.#", "..c..dE"];
    let level = level_from(&layout, (0, 0), (6, 2));
    let first = Solver::new(level.clone()).solve();
    let second = Solver::new(level.clone()).solve();
    assert!(first.is_some());
    assert_eq!(first, second);
}

#[test]
fn no_route_gives_none() {
    // the target cell is a wall, where no motion lands
    let level = level_from(&["S.#"], (0, 0), (2, 0));
    assert_eq!(Solver::new(level).solve(), None);
}

#[test]
fn start_on_target_needs_no_commands() {
    let level = level_from(&["E.."], (0, 0), (0, 0));
    assert_eq!(Solver::new(level).solve(), Some(vec![]));
}

#[test]
fn plan_is_no_longer_than_plain_steps() {
    // a breadth-first route with single steps takes 6 commands here
    let layout = ["S.....", "#####.", "E....."];
    let level = level_from(&layout, (0, 0), (0, 2));
    let path = Solver::new(level.clone()).solve().expect("a route exists");
    let steps = 5 + 2 + 5;
    assert!(path.len() <= steps);
    assert_eq!(replay(&level, &path).0, Position { x: 0, y: 2 });
}

#[test]
fn interesting_words_skip_structural_runs() {
    let g = vec![
        "ab XX ab".chars().collect::<Vec<char>>(),
        "#.# c_d".chars().collect::<Vec<char>>(),
    ];
    let words = Solver::extract_words(&g);
    assert_eq!(words, vec!["ab".to_string(), "c_d".to_string()]);
}

#[test]
fn solver_keeps_the_level_and_its_words() {
    let level = level_from(&["S go E", "go"], (0, 0), (5, 0));
    let solver = Solver::new(level);
    assert_eq!(solver.interesting_words, vec!["S".to_string(), "go".to_string(), "E".to_string()]);
    assert_eq!(solver.level.layout.len(), 2);
}

#[test]
fn clearing_opens_a_search_match() {
    // the solver may clear rubble; a returned plan still ends on the target
    let layout = ["SX.X.E"];
    let level = level_from(&layout, (0, 0), (5, 0));
    let path = Solver::new(level.clone()).solve().expect("a route exists");
    assert_eq!(replay(&level, &path).0, Position { x: 5, y: 0 });
}
