use nebula_cli::app::{App, Key, KeyInput, KeyOutcome, MouseInput};
use nebula_cli::session::{BackgroundResult, Rgb, SessionAction};

fn press(key: Key) -> KeyInput {
    KeyInput { key, ctrl: false, shift: false, press: true }
}

fn ctrl(key: Key) -> KeyInput {
    KeyInput { key, ctrl: true, shift: false, press: true }
}

fn type_keys(app: &mut App, t: &str) {
    for c in t.chars() {
        app.handle_key(press(Key::Char(c)));
    }
}

#[test]
fn new_app_has_one_tab_in_insert_mode() {
    let app = App::new("ada".to_string());
    assert_eq!(app.terminals.len(), 1);
    assert_eq!(app.current_tab_index, 0);
    assert!(app.insert_mode);
    assert_eq!(app.terminals[0].title, "Tab 1");
    assert_eq!(app.tab_titles(), vec![" Tab 1 ".to_string()]);
}

#[test]
fn tabs_open_close_and_cycle() {
    let mut app = App::new("u".to_string());
    app.add_new_tab(None);
    app.add_new_tab(None);
    assert_eq!(app.terminals.len(), 3);
    assert_eq!(app.current_tab_index, 2);
    assert_eq!(app.terminals[2].title, "Tab 3");
    app.next_tab();
    assert_eq!(app.current_tab_index, 0);
    app.previous_tab();
    assert_eq!(app.current_tab_index, 2);
    app.previous_tab();
    assert_eq!(app.current_tab_index, 1);
    app.close_current_tab();
    assert_eq!(app.terminals.len(), 2);
    assert_eq!(app.current_tab_index, 1);
    assert_eq!(app.terminals[1].title, "Tab 3");
    app.close_current_tab();
    assert_eq!(app.current_tab_index, 0);
    app.close_current_tab();
    assert_eq!(app.terminals.len(), 1);
    app.add_new_tab(None);
    assert_eq!(app.terminals[1].title, "Tab 2");
}

#[test]
fn next_then_previous_returns() {
    let mut app = App::new("u".to_string());
    app.add_new_tab(None);
    app.add_new_tab(None);
    for start in 0..3 {
        app.current_tab_index = start;
        app.next_tab();
        app.previous_tab();
        assert_eq!(app.current_tab_index, start);
        app.previous_tab();
        app.next_tab();
        assert_eq!(app.current_tab_index, start);
    }
}

#[test]
fn close_undoes_add() {
    let mut app = App::new("u".to_string());
    app.add_new_tab(None);
    let titles = app.tab_titles();
    app.add_new_tab(None);
    app.close_current_tab();
    assert_eq!(app.tab_titles(), titles);
}

#[test]
fn global_shortcuts() {
    let mut app = App::new("u".to_string());
    assert!(matches!(app.handle_key(ctrl(Key::Char('q'))), KeyOutcome::Quit));
    app.handle_key(ctrl(Key::Char('t')));
    assert_eq!(app.terminals.len(), 2);
    app.handle_key(ctrl(Key::Tab));
    assert_eq!(app.current_tab_index, 0);
    app.handle_key(KeyInput { key: Key::Tab, ctrl: true, shift: true, press: true });
    assert_eq!(app.current_tab_index, 1);
    app.handle_key(ctrl(Key::BackTab));
    assert_eq!(app.current_tab_index, 0);
    app.handle_key(ctrl(Key::Char('w')));
    assert_eq!(app.terminals.len(), 1);
    let released = KeyInput { key: Key::Char('t'), ctrl: true, shift: false, press: false };
    assert!(matches!(app.handle_key(released), KeyOutcome::Handled));
    assert_eq!(app.terminals.len(), 1);
}

#[test]
fn insert_mode_editing_and_enter() {
    let mut app = App::new("u".to_string());
    type_keys(&mut app, "eXchq");
    app.handle_key(press(Key::Home));
    app.handle_key(press(Key::Right));
    app.handle_key(press(Key::Delete));
    assert_eq!(app.terminals[0].input_buffer, "echq");
    app.handle_key(press(Key::End));
    app.handle_key(press(Key::Backspace));
    app.handle_key(press(Key::Char('o')));
    assert_eq!(app.terminals[0].input_buffer, "echo");
    app.handle_key(press(Key::Home));
    assert_eq!(app.terminals[0].cursor_pos, 0);
    app.handle_key(press(Key::End));
    assert_eq!(app.terminals[0].cursor_pos, 4);
    app.handle_key(ctrl(Key::Char('a')));
    assert_eq!(app.terminals[0].input_buffer, "echo");
    match app.handle_key(press(Key::Enter)) {
        KeyOutcome::Command(SessionAction::Shell(c)) => assert_eq!(c, "echo"),
        _ => panic!("expected a command"),
    }
    app.handle_key(press(Key::Up));
    assert_eq!(app.terminals[0].input_buffer, "echo");
    app.handle_key(press(Key::Down));
    assert_eq!(app.terminals[0].input_buffer, "");
    assert!(matches!(app.handle_key(ctrl(Key::Char('v'))), KeyOutcome::Paste));
}

#[test]
fn ctrl_l_clears_output() {
    let mut app = App::new("u".to_string());
    type_keys(&mut app, "x");
    app.handle_key(press(Key::Enter));
    assert_eq!(app.terminals[0].get_output_len(), 1);
    app.handle_key(ctrl(Key::Char('l')));
    assert_eq!(app.terminals[0].get_output_len(), 0);
}

#[test]
fn escape_then_i_returns_to_insert_mode() {
    let mut app = App::new("u".to_string());
    app.handle_key(press(Key::Esc));
    assert!(!app.insert_mode);
    assert_eq!(app.mode_indicator(), (" -- NORMAL -- ".to_string(), Rgb { r: 229, g: 192, b: 123 }));
    app.handle_key(press(Key::Char('i')));
    assert!(app.insert_mode);
    assert_eq!(app.mode_indicator(), (" -- INSERT -- ".to_string(), Rgb { r: 152, g: 195, b: 121 }));
}

#[test]
fn normal_mode_select_and_copy() {
    let mut app = App::new("u".to_string());
    let id = app.current_session_id();
    app.apply_background(
        id,
        BackgroundResult::ShellOutput { stdout: b"a\nb\nc\n".to_vec(), stderr: Vec::new(), exit_code: None },
    );
    app.handle_key(press(Key::Esc));
    assert!(matches!(app.handle_key(press(Key::Char('y'))), KeyOutcome::Handled));
    app.handle_key(press(Key::Char('v')));
    app.handle_key(press(Key::Char('j')));
    assert_eq!(app.terminals[0].visual_cursor_line, 1);
    assert_eq!(app.terminals[0].scroll_offset, 0);
    app.handle_key(press(Key::Char('k')));
    assert_eq!(app.terminals[0].scroll_offset, 1);
    app.handle_key(press(Key::Down));
    assert_eq!(app.terminals[0].scroll_offset, 0);
    match app.handle_key(ctrl(Key::Char('c'))) {
        KeyOutcome::Copy(t) => assert_eq!(t, "a\nb\n"),
        _ => panic!("expected copy"),
    }
    assert_eq!(app.terminals[0].selection_start, None);
    app.handle_key(press(Key::Char('v')));
    app.handle_key(press(Key::Esc));
    assert_eq!(app.terminals[0].selection_start, None);
    app.handle_key(press(Key::Up));
    assert_eq!(app.terminals[0].visual_cursor_line, 0);
    assert_eq!(app.terminals[0].scroll_offset, 1);
}

#[test]
fn normal_mode_arrows_scroll_output() {
    let mut app = App::new("u".to_string());
    let id = app.current_session_id();
    app.apply_background(
        id,
        BackgroundResult::ShellOutput { stdout: b"a\nb\nc".to_vec(), stderr: Vec::new(), exit_code: None },
    );
    assert_eq!(app.terminals[0].get_output_len(), 3);
    app.handle_key(press(Key::Esc));
    for _ in 0..5 {
        app.handle_key(press(Key::Up));
    }
    assert_eq!(app.terminals[0].scroll_offset, 3);
    app.handle_key(press(Key::Char('k')));
    assert_eq!(app.terminals[0].scroll_offset, 3);
    app.handle_key(press(Key::Down));
    assert_eq!(app.terminals[0].scroll_offset, 2);
    app.handle_key(press(Key::Char('j')));
    assert_eq!(app.terminals[0].scroll_offset, 1);
    for _ in 0..3 {
        app.handle_key(press(Key::Char('j')));
    }
    assert_eq!(app.terminals[0].scroll_offset, 0);
    // In insert mode the arrows walk the history instead.
    app.handle_key(press(Key::Char('i')));
    app.handle_key(press(Key::Up));
    assert_eq!(app.terminals[0].scroll_offset, 0);
}

#[test]
fn background_results_go_to_their_tab() {
    let mut app = App::new("u".to_string());
    let first = app.current_session_id();
    app.add_new_tab(None);
    let second = app.current_session_id();
    assert_ne!(first, second);
    app.apply_background(first, BackgroundResult::ShellFailed("boom".to_string()));
    assert_eq!(app.terminals[0].get_output_len(), 1);
    assert_eq!(app.terminals[1].get_output_len(), 0);
    app.close_current_tab();
    app.apply_background(second, BackgroundResult::ShellFailed("lost".to_string()));
    assert_eq!(app.terminals[0].get_output_len(), 1);
}

#[test]
fn clicking_a_tab_starts_renaming() {
    let mut app = App::new("u".to_string());
    app.add_new_tab(None);
    // " Tab 1 " covers columns 1..=7, separator 8, " Tab 2 " covers 9..=15
    app.handle_mouse(MouseInput::LeftDown { row: 2, column: 3 });
    assert_eq!(app.current_tab_index, 0);
    assert_eq!(app.editing_tab_index, Some(0));
    assert_eq!(app.tab_rename_buffer, "Tab 1");
    assert_eq!(app.tab_titles()[0], " Tab 1_ ");
    app.handle_key(press(Key::Backspace));
    app.handle_key(press(Key::Char('X')));
    app.handle_key(press(Key::Enter));
    assert_eq!(app.terminals[0].title, "Tab X");
    assert_eq!(app.editing_tab_index, None);
    app.handle_mouse(MouseInput::LeftDown { row: 1, column: 9 });
    assert_eq!(app.current_tab_index, 1);
    app.handle_key(press(Key::Esc));
    assert_eq!(app.terminals[1].title, "Tab 2");
    app.handle_mouse(MouseInput::LeftDown { row: 2, column: 8 });
    assert_eq!(app.editing_tab_index, None);
    app.handle_mouse(MouseInput::LeftDown { row: 5, column: 3 });
    assert_eq!(app.editing_tab_index, None);
    assert_eq!(app.current_tab_index, 1);
}

#[test]
fn blank_rename_is_ignored() {
    let mut app = App::new("u".to_string());
    app.handle_mouse(MouseInput::LeftDown { row: 1, column: 1 });
    for _ in 0..5 {
        app.handle_key(press(Key::Backspace));
    }
    app.handle_key(press(Key::Char(' ')));
    app.handle_key(press(Key::Enter));
    assert_eq!(app.terminals[0].title, "Tab 1");
}

#[test]
fn wheel_scrolls_current_tab() {
    let mut app = App::new("u".to_string());
    let id = app.current_session_id();
    app.apply_background(
        id,
        BackgroundResult::ShellOutput { stdout: b"a\nb\n".to_vec(), stderr: Vec::new(), exit_code: None },
    );
    app.handle_mouse(MouseInput::ScrollUp);
    assert_eq!(app.terminals[0].scroll_offset, 1);
    app.handle_mouse(MouseInput::ScrollDown);
    assert_eq!(app.terminals[0].scroll_offset, 0);
}

#[test]
fn paste_types_the_text() {
    let mut app = App::new("u".to_string());
    assert!(!app.paste_would_panic("git status"));
    app.paste_text("git status");
    assert_eq!(app.terminals[0].input_buffer, "git status");
    assert!(!app.paste_would_panic("é!"));
    app.paste_text("é!");
    assert_eq!(app.terminals[0].input_buffer, "git statusé!");
    assert_eq!(app.terminals[0].cursor_pos, 13);
}

#[test]
fn non_ascii_typing_is_safe() {
    let mut app = App::new("u".to_string());
    type_keys(&mut app, "a");
    assert!(!app.key_would_panic(press(Key::Char('b'))));
    app.handle_key(press(Key::Char('é')));
    assert_eq!(app.terminals[0].cursor_pos, 3);
    assert!(!app.key_would_panic(press(Key::Char('b'))));
    app.handle_key(press(Key::Char('b')));
    assert_eq!(app.terminals[0].input_buffer, "aéb");
    app.handle_key(press(Key::Left));
    app.handle_key(press(Key::Left));
    assert_eq!(app.terminals[0].cursor_pos, 1);
    assert!(!app.key_would_panic(press(Key::Delete)));
    app.handle_key(press(Key::Delete));
    assert_eq!(app.terminals[0].input_buffer, "ab");
    let p = app.terminal_view(10).prompt.expect("prompt in insert mode");
    assert_eq!(p.before_cursor, "a");
    assert_eq!(p.after_cursor, Some("b".to_string()));
    assert!(!app.key_would_panic(press(Key::Backspace)));
    assert!(!app.key_would_panic(ctrl(Key::Char('q'))));
}

#[test]
fn terminal_view_shows_prompt() {
    let mut app = App::new("ada".to_string());
    type_keys(&mut app, "lsx");
    app.handle_key(press(Key::Left));
    let v = app.terminal_view(10);
    let p = v.prompt.expect("prompt in insert mode");
    assert_eq!(p.user_label, "ada@");
    assert_eq!(p.before_cursor, "ls");
    assert_eq!(p.after_cursor, Some("x".to_string()));
    assert_eq!(p.dir_label, "C:\\ ");
    app.handle_key(press(Key::End));
    assert_eq!(app.terminal_view(10).prompt.unwrap().after_cursor, None);
    app.handle_key(press(Key::Esc));
    assert!(app.terminal_view(10).prompt.is_none());
}
