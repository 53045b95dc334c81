use ratatui::layout::{Constraint, Direction, Layout, Rect};
use winesmeeper::board::Board;
use winesmeeper::field::Field;
use winesmeeper::commands::TextStyle;
use winesmeeper::tui::{App, Glyph, InputMode, InputTint, Key, Overlay};

#[test]
fn handle_key_event() {
    let mut app = App::default();
    app.handle_key_event(Key::Char('q'));

    assert!(app.exit);
}

#[test]
fn default_app_is_fresh() {
    let app = App::default();
    assert!(!app.exit);
    assert_eq!(app.overlay, None);
    assert_eq!(app.input, "");
    assert_eq!(app.character_index, 0);
    assert_eq!(app.input_mode, InputMode::Normal);
    assert_eq!((app.board.width, app.board.height, app.board.bomb_count), (10, 10, 10));
    assert!(app.board_glyphs().iter().flatten().all(|g| *g == Glyph::Closed));
}

#[test]
fn normal_mode_keys_open_modes() {
    let mut app = App::default();
    app.input = "old".to_string();
    app.handle_key_event(Key::Char('g'));
    assert_eq!(app.input_mode, InputMode::Generate);
    assert_eq!(app.input, "");
    assert_eq!(
        app.overlay,
        Some(Overlay::Generate { width: 10, height: 10, start_x: 5, start_y: 5, bomb_count: 10 })
    );
    app.handle_key_event(Key::Esc);
    assert_eq!(app.input_mode, InputMode::Normal);
    app.handle_key_event(Key::Char('x'));
    assert_eq!(app.overlay, Some(Overlay::InvalidCommand));
    app.handle_key_event(Key::Char('o'));
    assert_eq!((app.input_mode, app.overlay), (InputMode::Open, Some(Overlay::Open)));
    app.handle_key_event(Key::Esc);
    app.handle_key_event(Key::Enter);
    assert_eq!((app.input_mode, app.overlay), (InputMode::Normal, Some(Overlay::Open)));
    assert!(!app.exit);
}

#[test]
fn editing_keys_edit_the_input() {
    let mut app = App::default();
    app.handle_key_event(Key::Char('s'));
    for c in "héllo".chars() {
        app.handle_key_event(Key::Char(c));
    }
    assert_eq!(app.input, "héllo");
    assert_eq!(app.character_index, 5);
    app.handle_key_event(Key::Left);
    app.handle_key_event(Key::Left);
    app.handle_key_event(Key::Char('X'));
    assert_eq!(app.input, "hélXlo");
    assert_eq!(app.character_index, 4);
    app.handle_key_event(Key::Backspace);
    app.handle_key_event(Key::Backspace);
    assert_eq!(app.input, "hélo");
    assert_eq!(app.character_index, 2);
    for _ in 0..5 {
        app.handle_key_event(Key::Left);
    }
    assert_eq!(app.character_index, 0);
    app.handle_key_event(Key::Backspace);
    assert_eq!(app.input, "hélo");
    for _ in 0..9 {
        app.handle_key_event(Key::Right);
    }
    assert_eq!(app.character_index, 4);
    app.handle_key_event(Key::Enter);
    assert_eq!(app.input, "");
    assert_eq!(app.character_index, 0);
    assert_eq!(app.input_mode, InputMode::Save);
}

#[test]
fn cursor_past_the_end_after_clearing() {
    let mut app = App::default();
    app.handle_key_event(Key::Char('f'));
    for c in "abc".chars() {
        app.handle_key_event(Key::Char(c));
    }
    app.handle_key_event(Key::Esc);
    app.handle_key_event(Key::Char('l'));
    assert_eq!(app.input, "");
    assert_eq!(app.character_index, 3);
    app.handle_key_event(Key::Char('z'));
    assert_eq!(app.input, "z");
    assert_eq!(app.character_index, 1);
}

#[test]
fn board_glyphs_show_each_square() {
    let closed = Field { is_bomb: false, is_opened: false, is_flag: false };
    let mut cells = vec![vec![closed; 4]; 4];
    cells[0][0].is_flag = true;
    cells[0][1].is_bomb = true;
    cells[0][1].is_opened = true;
    cells[1][1].is_opened = true;
    cells[2][2].is_opened = true;
    cells[3][3].is_bomb = true;
    let mut app = App::default();
    app.board = Board { board: cells, width: 4, height: 4, start_x: 0, start_y: 0, bomb_count: 2 };
    let g = app.board_glyphs();
    assert_eq!(g[0], vec![Glyph::Flag, Glyph::Bomb, Glyph::Closed, Glyph::Closed]);
    assert_eq!(g[1][1], Glyph::Count(1));
    assert_eq!(g[2][2], Glyph::Count(1));
    assert_eq!(g[3][3], Glyph::Closed);
    assert_eq!(g[1][0], Glyph::Closed);
}

#[test]
fn help_lines_list_both_sections() {
    let lines = App::help_lines();
    assert_eq!(lines[0].spans[0].text, "SYSTEM COMMANDS");
    let turn_title = lines.iter().position(|l| l.spans.first().map(|s| s.text.as_str()) == Some("TURN COMMANDS")).unwrap();
    assert!(lines[turn_title - 1].spans.is_empty());
    assert!(lines[turn_title - 2].spans.is_empty());
    assert_eq!(lines.len(), turn_title + 2 + 4 + 5);
}

#[test]
fn backspace_undoes_typing() {
    let mut app = App::default();
    app.handle_key_event(Key::Char('h'));
    for c in "abcd".chars() {
        app.handle_key_event(Key::Char(c));
    }
    app.handle_key_event(Key::Left);
    let (input, cursor) = (app.input.clone(), app.character_index);
    app.handle_key_event(Key::Char('Z'));
    app.handle_key_event(Key::Backspace);
    assert_eq!((app.input.clone(), app.character_index), (input, cursor));
}

#[test]
fn can_draw_board_checks_opened_edges() {
    let mut app = App::default();
    assert!(app.can_draw_board());
    app.board.board[0][3].is_opened = true;
    app.board.board[0][3].is_bomb = false;
    assert!(!app.can_draw_board());
    app.board.board[0][3].is_flag = true;
    assert!(app.can_draw_board());
}

#[test]
fn status_line_and_tint_follow_the_mode() {
    let mut app = App::default();
    let line = app.status_line();
    assert_eq!(line.spans.len(), 18);
    assert_eq!((line.spans[0].text.as_str(), line.spans[0].style), (" Help ", TextStyle::Plain));
    assert_eq!((line.spans[17].text.as_str(), line.spans[17].style), ("<O> ", TextStyle::KeyHint));
    assert_eq!(app.input_tint(), InputTint::Default);
    app.handle_key_event(Key::Char('h'));
    let line = app.status_line();
    assert_eq!(line.spans.iter().map(|s| s.text.as_str()).collect::<Vec<_>>(), vec!["Esc", ": go back"]);
    assert_eq!(app.input_tint(), InputTint::Red);
    app.handle_key_event(Key::Esc);
    app.handle_key_event(Key::Char('g'));
    assert_eq!(app.input_tint(), InputTint::Yellow);
}

#[test]
fn centered_rect_takes_the_middle_cell() {
    let r = Rect { x: 0, y: 0, width: 100, height: 40 };
    let rows = Layout::default()
        .direction(Direction::Vertical)
        .constraints([Constraint::Percentage(25), Constraint::Percentage(50), Constraint::Percentage(25)])
        .split(r);
    let cols = Layout::default()
        .direction(Direction::Horizontal)
        .constraints([Constraint::Percentage(20), Constraint::Percentage(60), Constraint::Percentage(20)])
        .split(rows[1]);
    let c = cols[1];
    assert_eq!(App::centered_rect(60, 50, (0, 0, 100, 40)), (c.x, c.y, c.width, c.height));
    assert_eq!(App::centered_rect(60, 50, (0, 0, 100, 40)), (20, 10, 60, 20));
}
