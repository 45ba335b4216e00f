use vim_game::engine::{apply_motion, apply_motion_in, letter_cells, Landing};
use vim_game::input::VimCommand;
use vim_game::level::Position;
use vim_game::solver::Solver;

fn grid(rows: &[&str]) -> Vec<Vec<char>> {
    rows.iter().map(|r| r.chars().collect()).collect()
}

fn at(x: usize, y: usize) -> Position {
    Position { x, y }
}

#[test]
fn letter_flags_follow_unicode() {
    let g = grid(&["aZ9_ ~", "é#."]);
    let flags = letter_cells(&g);
    assert_eq!(
        flags,
        vec![vec![true, true, true, false, false, false], vec![true, false, false]]
    );
}

#[test]
fn word_motions_follow_the_given_flags() {
    // the same row, with `#`-free cells flagged by hand
    let g = grid(&["a bc def"]);
    let flags = vec![vec![true, false, true, true, false, true, true, true]];
    let w = apply_motion_in(&g, &flags, at(0, 0), &VimCommand::MoveWordForward);
    assert_eq!(w, Landing { pos: at(2, 0), checked: true });
    let e = apply_motion_in(&g, &flags, at(5, 0), &VimCommand::MoveWordEnd);
    assert_eq!(e.pos, at(7, 0));
    let b = apply_motion_in(&g, &flags, at(7, 0), &VimCommand::MoveWordBack);
    assert_eq!(b.pos, at(5, 0));
    // flag nothing: no word starts anywhere
    let none = vec![vec![false; 8]];
    let w = apply_motion_in(&g, &none, at(0, 0), &VimCommand::MoveWordForward);
    assert_eq!(w.pos, at(0, 0));
}

#[test]
fn paragraph_breaks_follow_the_given_flags() {
    let g = grid(&["ab", "cd", "ef"]);
    let flags = vec![vec![true, true], vec![false, false], vec![true, true]];
    let l = apply_motion_in(&g, &flags, at(0, 0), &VimCommand::MoveParagraphForward);
    assert_eq!(l, Landing { pos: at(0, 1), checked: true });
    let l = apply_motion(&g, at(0, 0), &VimCommand::MoveParagraphForward);
    assert_eq!(l.pos, at(0, 2));
}

#[test]
fn unicode_letters_make_words() {
    let g = grid(&["ab éé cd"]);
    let l = apply_motion(&g, at(0, 0), &VimCommand::MoveWordForward);
    assert_eq!(l.pos, at(3, 0));
}

#[test]
fn landings_report_the_hazard_check() {
    let g = grid(&["S.~E"]);
    let l = apply_motion(&g, at(0, 0), &VimCommand::FindNextChar('~'));
    assert_eq!(l, Landing { pos: at(2, 0), checked: true });
    let l = apply_motion(&g, at(0, 0), &VimCommand::FindNextChar('z'));
    assert_eq!(l, Landing { pos: at(0, 0), checked: false });
    let l = apply_motion(&g, at(0, 0), &VimCommand::TillNextChar('E'));
    assert_eq!(l, Landing { pos: at(2, 0), checked: true });
    let l = apply_motion(&g, at(1, 0), &VimCommand::TillNextChar('~'));
    assert_eq!(l.pos, at(1, 0));
}

#[test]
fn search_needs_the_whole_query_within_the_width() {
    let g = grid(&["S..ab", "ab..E"]);
    let l = apply_motion(&g, at(0, 0), &VimCommand::SearchForward("ab".to_string()));
    assert_eq!(l.pos, at(3, 0));
    let l = apply_motion(&g, at(3, 0), &VimCommand::SearchForward("abx".to_string()));
    assert_eq!(l.pos, at(3, 0));
    let l = apply_motion(&g, at(3, 0), &VimCommand::SearchBackward("ab".to_string()));
    assert_eq!(l.pos, at(0, 1));
}

#[test]
fn words_follow_the_given_flags() {
    let g = grid(&["ab cd"]);
    let flags = vec![vec![true, true, false, false, true]];
    let words = Solver::extract_words_in(&g, &flags);
    assert_eq!(words, vec!["ab".to_string(), "d".to_string()]);
}
