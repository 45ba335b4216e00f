use vim_game::level::{Level, Position};

fn level_with(layout: Vec<&str>, start: Position, target: Position) -> Level {
    Level {
        id: "test".to_string(),
        name: "Test".to_string(),
        description: "Test".to_string(),
        layout: layout.into_iter().map(|r| r.to_string()).collect(),
        start_pos: start,
        target_pos: target,
        allowed_keys: vec![],
        trained_commands: vec![],
        tutorial_text: String::new(),
        par_time_ms: 10000,
        par_keystrokes: 5,
    }
}

#[test]
fn test_level_dimensions() {
    let level = Level {
        id: "test".to_string(),
        name: "Test".to_string(),
        description: "Test".to_string(),
        layout: vec!["...".to_string(), "...".to_string()],
        start_pos: Position { x: 0, y: 0 },
        target_pos: Position { x: 2, y: 1 },
        allowed_keys: vec![],
        trained_commands: vec![],
        tutorial_text: String::new(),
        par_time_ms: 10000,
        par_keystrokes: 5,
    };
    assert_eq!(level.width(), 3);
    assert_eq!(level.height(), 2);
}

#[test]
fn ragged_rows_take_the_longest_width() {
    let level = level_with(vec!["ab", "abcde", ""], Position { x: 0, y: 0 }, Position { x: 1, y: 0 });
    assert_eq!(level.width(), 5);
    assert_eq!(level.height(), 3);
}

#[test]
fn empty_layout_has_no_size() {
    let level = level_with(vec![], Position { x: 0, y: 0 }, Position { x: 0, y: 0 });
    assert_eq!(level.width(), 0);
    assert_eq!(level.height(), 0);
    assert!(level.is_wall(0, 0));
}

#[test]
fn walls_and_out_of_range_cells_block() {
    let level = level_with(vec!["#.", ".", "..#"], Position { x: 1, y: 0 }, Position { x: 0, y: 2 });
    assert!(level.is_wall(0, 0));
    assert!(!level.is_wall(1, 0));
    // past the end of a short row
    assert!(level.is_wall(1, 1));
    assert!(level.is_wall(2, 2));
    assert!(!level.is_wall(1, 2));
    // below the last row
    assert!(level.is_wall(0, 3));
}

#[test]
fn grid_reads_rows_as_characters() {
    let level = level_with(vec!["S~", "aE"], Position { x: 0, y: 0 }, Position { x: 1, y: 1 });
    let g = level.grid();
    assert_eq!(g, vec![vec!['S', '~'], vec!['a', 'E']]);
}
