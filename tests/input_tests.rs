use vim_game::input::{InputHandler, Key, VimCommand};

#[test]
fn test_basic_movement_mapping() {
    let mut handler = InputHandler::new();
    assert_eq!(handler.map_key(Key::H, false), VimCommand::MoveLeft);
    assert_eq!(handler.map_key(Key::J, false), VimCommand::MoveDown);
    assert_eq!(handler.map_key(Key::K, false), VimCommand::MoveUp);
    assert_eq!(handler.map_key(Key::L, false), VimCommand::MoveRight);
}

#[test]
fn shifted_keys_jump() {
    let mut handler = InputHandler::new();
    assert_eq!(handler.map_key(Key::H, true), VimCommand::MoveScreenTop);
    assert_eq!(handler.map_key(Key::L, true), VimCommand::MoveScreenBottom);
    assert_eq!(handler.map_key(Key::M, true), VimCommand::MoveScreenMiddle);
    assert_eq!(handler.map_key(Key::M, false), VimCommand::NoOp);
    assert_eq!(handler.map_key(Key::Key4, true), VimCommand::MoveLineEnd);
    assert_eq!(handler.map_key(Key::Key4, false), VimCommand::NoOp);
    assert_eq!(handler.map_key(Key::RightBracket, true), VimCommand::MoveParagraphForward);
    assert_eq!(handler.map_key(Key::LeftBracket, true), VimCommand::MoveParagraphBack);
    assert_eq!(handler.map_key(Key::Other, true), VimCommand::NoOp);
}

#[test]
fn characters_map_to_motions() {
    let mut handler = InputHandler::new();
    assert_eq!(handler.map_char('w'), VimCommand::MoveWordForward);
    assert_eq!(handler.map_char('b'), VimCommand::MoveWordBack);
    assert_eq!(handler.map_char('e'), VimCommand::MoveWordEnd);
    assert_eq!(handler.map_char('i'), VimCommand::InsertMode);
    assert_eq!(handler.map_char('z'), VimCommand::NoOp);
}

#[test]
fn command_names_map_to_motions() {
    assert_eq!(InputHandler::from_string("h"), VimCommand::MoveLeft);
    assert_eq!(InputHandler::from_string("$"), VimCommand::MoveLineEnd);
    assert_eq!(InputHandler::from_string("0"), VimCommand::MoveLineStart);
    assert_eq!(InputHandler::from_string("}"), VimCommand::MoveParagraphForward);
    assert_eq!(InputHandler::from_string("{"), VimCommand::MoveParagraphBack);
    assert_eq!(InputHandler::from_string("M"), VimCommand::MoveScreenMiddle);
    assert_eq!(InputHandler::from_string("i"), VimCommand::NoOp);
    assert_eq!(InputHandler::from_string("hh"), VimCommand::NoOp);
    assert_eq!(InputHandler::from_string(""), VimCommand::NoOp);
}

#[test]
fn commands_compare_by_payload() {
    assert_eq!(VimCommand::FindNextChar('a'), VimCommand::FindNextChar('a'));
    assert_ne!(VimCommand::FindNextChar('a'), VimCommand::FindNextChar('b'));
    assert_ne!(VimCommand::FindNextChar('a'), VimCommand::FindPrevChar('a'));
    assert_eq!(
        VimCommand::SearchForward("ab".to_string()),
        VimCommand::SearchForward("ab".to_string())
    );
    assert_ne!(
        VimCommand::SearchForward("ab".to_string()),
        VimCommand::SearchBackward("ab".to_string())
    );
    assert_ne!(VimCommand::SearchForward("ab".to_string()), VimCommand::SearchForward("a".to_string()));
}
