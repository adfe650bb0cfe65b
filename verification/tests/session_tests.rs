use nebula_cli::session::{
    dir_name_or, BackgroundResult, ExportOutcome, LineHighlight, Rgb, SessionAction,
    TerminalSession,
};

fn texts(s: &TerminalSession) -> Vec<String> {
    s.get_output().into_iter().map(|l| l.text).collect()
}

fn type_str(s: &mut TerminalSession, t: &str) {
    for c in t.chars() {
        s.handle_char(c);
    }
}

fn is_clock(t: &str) -> bool {
    let b = t.as_bytes();
    b.len() == 8
        && b[2] == b':'
        && b[5] == b':'
        && [0, 1, 3, 4, 6, 7].iter().all(|&i| b[i].is_ascii_digit())
}

fn all_digits(t: &str) -> bool {
    !t.is_empty() && t.bytes().all(|b| b.is_ascii_digit())
}

/// `YEAR-MM-DD HH:MM:SS[.frac] +HH:MM[:SS]`, as chrono displays a local time.
fn is_local_date_time(t: &str) -> bool {
    let parts: Vec<&str> = t.split(' ').collect();
    if parts.len() != 3 {
        return false;
    }
    let (date, time, offset) = (parts[0], parts[1], parts[2]);
    let year_ok = date.len() >= 10 && {
        let year = &date[..date.len() - 6];
        (year.len() == 4 && all_digits(year))
            || (year.len() >= 5 && (year.starts_with('+') || year.starts_with('-')) && all_digits(&year[1..]))
    };
    let d = date.as_bytes();
    let n = d.len();
    let date_ok = year_ok
        && d[n - 6] == b'-'
        && d[n - 3] == b'-'
        && all_digits(&date[n - 5..n - 3])
        && all_digits(&date[n - 2..]);
    let time_ok = time.len() >= 8
        && is_clock(&time[..8])
        && (time.len() == 8
            || ([12, 15, 18].contains(&time.len()) && &time[8..9] == "." && all_digits(&time[9..])));
    let o = offset.as_bytes();
    let offset_ok = (o.len() == 6 || o.len() == 9)
        && (o[0] == b'+' || o[0] == b'-')
        && all_digits(&offset[1..3])
        && o[3] == b':'
        && all_digits(&offset[4..6])
        && (o.len() == 6 || (o[6] == b':' && all_digits(&offset[7..9])));
    date_ok && time_ok && offset_ok
}

#[test]
fn new_session_is_titled_by_number() {
    let s = TerminalSession::new(3);
    assert_eq!(s.title, "Tab 3");
    assert_eq!(s.get_current_dir(), "C:\\");
    assert_eq!(s.get_output_len(), 0);
    assert_eq!(s.cursor_pos, 0);
    assert_eq!(s.input_buffer, "");
    let t = TerminalSession::new(12);
    assert_eq!(t.title, "Tab 12");
}

#[test]
fn typing_and_cursor_moves() {
    let mut s = TerminalSession::new(1);
    type_str(&mut s, "lx");
    s.handle_left();
    s.handle_char('s');
    assert_eq!(s.input_buffer, "lsx");
    assert_eq!(s.cursor_pos, 2);
    s.handle_right();
    assert_eq!(s.cursor_pos, 3);
    s.handle_right();
    assert_eq!(s.cursor_pos, 3);
    s.handle_backspace();
    assert_eq!(s.input_buffer, "ls");
    s.handle_left();
    s.handle_left();
    s.handle_left();
    assert_eq!(s.cursor_pos, 0);
    s.handle_backspace();
    assert_eq!(s.input_buffer, "ls");
    s.handle_delete();
    assert_eq!(s.input_buffer, "s");
    s.move_end();
    s.handle_delete();
    assert_eq!(s.input_buffer, "s");
    assert_eq!(s.cursor_pos, 1);
    s.move_home();
    assert_eq!(s.cursor_pos, 0);
}

#[test]
fn backspace_undoes_typing() {
    let mut s = TerminalSession::new(1);
    type_str(&mut s, "abc");
    s.handle_left();
    let before = (s.input_buffer.clone(), s.cursor_pos);
    s.handle_char('Z');
    s.handle_backspace();
    assert_eq!((s.input_buffer.clone(), s.cursor_pos), before);
    s.handle_char('é');
    assert_eq!(s.input_buffer, "abéc");
    assert_eq!(s.cursor_pos, 4);
    s.handle_backspace();
    assert_eq!((s.input_buffer.clone(), s.cursor_pos), before);
    for c in ['€', '𝄞', 'x'] {
        s.handle_char(c);
        assert_eq!(s.cursor_pos, before.1 + c.len_utf8());
        s.handle_backspace();
        assert_eq!((s.input_buffer.clone(), s.cursor_pos), before);
    }
}

#[test]
fn cursor_moves_by_whole_characters() {
    let mut s = TerminalSession::new(1);
    type_str(&mut s, "hé€𝄞");
    assert_eq!(s.cursor_pos, 10);
    s.handle_left();
    assert_eq!(s.cursor_pos, 6);
    s.handle_left();
    assert_eq!(s.cursor_pos, 3);
    s.handle_left();
    assert_eq!(s.cursor_pos, 1);
    s.handle_right();
    assert_eq!(s.cursor_pos, 3);
    s.handle_delete();
    assert_eq!(s.input_buffer, "hé𝄞");
    s.handle_backspace();
    assert_eq!(s.input_buffer, "h𝄞");
    assert_eq!(s.cursor_pos, 1);
    let (before, after) = s.input_split();
    assert_eq!((before.as_str(), after.as_str()), ("h", "𝄞"));
    s.type_text("ü!");
    assert_eq!(s.input_buffer, "hü!𝄞");
    assert_eq!(s.cursor_pos, 4);
    s.move_end();
    s.handle_right();
    assert_eq!(s.cursor_pos, 8);
    s.handle_delete();
    assert_eq!(s.input_buffer, "hü!𝄞");
}

#[test]
fn left_right_inverse() {
    let mut s = TerminalSession::new(1);
    type_str(&mut s, "abc");
    s.handle_left();
    let c = s.cursor_pos;
    s.handle_left();
    s.handle_right();
    assert_eq!(s.cursor_pos, c);
    s.handle_right();
    s.handle_left();
    assert_eq!(s.cursor_pos, c);
}

#[test]
fn type_text_types_every_char() {
    let mut s = TerminalSession::new(1);
    type_str(&mut s, "ad");
    s.handle_left();
    s.type_text("bc");
    assert_eq!(s.input_buffer, "abcd");
    assert_eq!(s.cursor_pos, 3);
}

#[test]
fn enter_echoes_with_clock_and_records_history() {
    let mut s = TerminalSession::new(1);
    type_str(&mut s, "  dir  ");
    let action = s.execute_command();
    match action {
        SessionAction::Shell(c) => assert_eq!(c, "dir"),
        _ => panic!("expected a shell command"),
    }
    let out = s.get_output();
    assert_eq!(out.len(), 1);
    let line = &out[0].text;
    assert!(line.starts_with("Started @"));
    assert!(line.ends_with(" -> dir"));
    let time = &line["Started @".len()..line.len() - " -> dir".len()];
    assert!(is_clock(time), "{}", time);
    assert_eq!(out[0].color, Rgb { r: 152, g: 195, b: 121 });
    assert_eq!(s.input_buffer, "");
    assert_eq!(s.cursor_pos, 0);
    assert_eq!(s.output_line_count, 1);
    assert_eq!(s.visual_cursor_line, 1);
    s.handle_up();
    assert_eq!(s.input_buffer, "dir");
    assert_eq!(s.cursor_pos, 3);
}

#[test]
fn blank_enter_only_echoes() {
    let mut s = TerminalSession::new(1);
    type_str(&mut s, "   ");
    let action = s.execute_command();
    assert!(matches!(action, SessionAction::Nothing));
    assert_eq!(s.get_output_len(), 1);
    assert!(texts(&s)[0].ends_with(" -> "));
    s.handle_up();
    assert_eq!(s.input_buffer, "");
}

#[test]
fn history_up_and_down() {
    let mut s = TerminalSession::new(1);
    for cmd in ["one", "two", "three"] {
        type_str(&mut s, cmd);
        s.execute_command();
    }
    s.handle_up();
    assert_eq!(s.input_buffer, "three");
    s.handle_up();
    assert_eq!(s.input_buffer, "two");
    s.handle_up();
    s.handle_up();
    assert_eq!(s.input_buffer, "one");
    s.handle_down();
    assert_eq!(s.input_buffer, "two");
    s.handle_down();
    s.handle_down();
    assert_eq!(s.input_buffer, "");
    assert_eq!(s.cursor_pos, 0);
    s.handle_down();
    assert_eq!(s.input_buffer, "");
}

#[test]
fn cd_asks_for_a_directory_change() {
    let mut s = TerminalSession::new(1);
    type_str(&mut s, "cd cd  projects ");
    match s.execute_command() {
        SessionAction::ChangeDir(p) => assert_eq!(p, "projects"),
        _ => panic!("expected cd"),
    }
    s.finish_change_dir(Ok(Some("D:\\work\\projects".to_string())));
    assert_eq!(s.get_current_dir(), "D:\\work\\projects");
    s.finish_change_dir(Ok(None));
    assert_eq!(s.get_current_dir(), "D:\\work\\projects");
    s.finish_change_dir(Err("not found".to_string()));
    let out = s.get_output();
    assert_eq!(out.last().unwrap().text, "Error: not found");
    assert_eq!(out.last().unwrap().color, Rgb { r: 171, g: 178, b: 191 });
    assert_eq!(s.visual_cursor_line, out.len());
}

#[test]
fn cd_without_argument_is_a_shell_command() {
    let mut s = TerminalSession::new(1);
    type_str(&mut s, "cd");
    assert!(matches!(s.execute_command(), SessionAction::Shell(ref c) if c == "cd"));
}

#[test]
fn clear_and_cls_empty_the_output() {
    for cmd in ["clear", "cls"] {
        let mut s = TerminalSession::new(1);
        type_str(&mut s, "echo");
        s.execute_command();
        type_str(&mut s, cmd);
        assert!(matches!(s.execute_command(), SessionAction::Nothing));
        assert_eq!(s.get_output_len(), 0);
        assert_eq!(s.output_line_count, 0);
        assert_eq!(s.visual_cursor_line, 0);
        assert_eq!(s.get_selected_text(), None);
    }
}

#[test]
fn exit_shows_a_hint() {
    let mut s = TerminalSession::new(1);
    type_str(&mut s, "exit");
    assert!(matches!(s.execute_command(), SessionAction::Nothing));
    let out = s.get_output();
    assert_eq!(out.len(), 2);
    assert_eq!(out[1].text, "Use Ctrl+Q to quit or Ctrl+W to close tab");
    assert_eq!(out[1].color, Rgb { r: 229, g: 192, b: 123 });
}

#[test]
fn export_collects_the_output() {
    let mut s = TerminalSession::new(1);
    s.record_shell_text("alpha\nbeta\n", "", Some(0));
    type_str(&mut s, "export");
    let content = match s.execute_command() {
        SessionAction::Export(c) => c,
        _ => panic!("expected export"),
    };
    let lines: Vec<&str> = content.split('\n').collect();
    assert_eq!(lines[0], "=== Terminal Export ===");
    assert!(lines[1].starts_with("Date: 2"), "{}", lines[1]);
    assert!(is_local_date_time(&lines[1]["Date: ".len()..]), "{}", lines[1]);
    assert_eq!(lines[2], "=======================");
    assert_eq!(lines[3], "");
    assert_eq!(lines[4], "alpha");
    assert_eq!(lines[5], "beta");
    assert!(lines[6].starts_with("Started @") && lines[6].ends_with(" -> export"));
    assert_eq!(lines[7], "");
    assert_eq!(lines.len(), 8);
}

#[test]
fn export_outcomes_are_reported() {
    let mut s = TerminalSession::new(1);
    s.finish_export(ExportOutcome::Saved("\"C:\\\\out.txt\"".to_string()));
    s.finish_export(ExportOutcome::Failed("denied".to_string()));
    s.finish_export(ExportOutcome::Cancelled);
    let out = s.get_output();
    assert_eq!(out[0].text, "Successfully exported to \"C:\\\\out.txt\"");
    assert_eq!(out[0].color, Rgb { r: 152, g: 195, b: 121 });
    assert_eq!(out[1].text, "Failed to export: denied");
    assert_eq!(out[1].color, Rgb { r: 224, g: 108, b: 117 });
    assert_eq!(out[2].text, "Export cancelled.");
    assert_eq!(out[2].color, Rgb { r: 229, g: 192, b: 123 });
    assert_eq!(s.output_line_count, 0);
}

#[test]
fn shell_output_lines_errors_and_exit_code() {
    let mut s = TerminalSession::new(1);
    s.record_shell_output(b"one\r\ntwo\n\nthree", b"bad\n   \n\nworse\n", Some(-3));
    let out = s.get_output();
    let t: Vec<&str> = out.iter().map(|l| l.text.as_str()).collect();
    assert_eq!(t, vec!["one", "two", "", "three", "bad", "worse", "[Exit code: -3]"]);
    assert_eq!(out[0].color, Rgb { r: 196, g: 214, b: 255 });
    assert_eq!(out[4].color, Rgb { r: 224, g: 108, b: 117 });
    assert_eq!(out[6].color, Rgb { r: 229, g: 192, b: 123 });
    let mut z = TerminalSession::new(1);
    z.record_shell_output(b"ok", b"", Some(0));
    assert_eq!(texts(&z), vec!["ok"]);
    z.record_shell_output(b"", b"", None);
    assert_eq!(texts(&z), vec!["ok"]);
}

#[test]
fn invalid_utf8_is_replaced() {
    let mut s = TerminalSession::new(1);
    s.record_shell_output(&[0x61, 0xff, 0x62], b"", None);
    assert_eq!(texts(&s), vec!["a\u{fffd}b"]);
    s.apply_background(BackgroundResult::ShellOutput {
        stdout: vec![0xe2, 0x82],
        stderr: vec![0x78, 0xc0],
        exit_code: Some(0),
    });
    assert_eq!(texts(&s), vec!["a\u{fffd}b", "\u{fffd}", "x\u{fffd}"]);
}

#[test]
fn shell_output_keeps_the_last_thousand_lines() {
    let mut s = TerminalSession::new(1);
    let text: String = (0..1500).map(|i| format!("l{}\n", i)).collect();
    s.record_shell_text(&text, "", Some(1));
    let t = texts(&s);
    assert_eq!(t.len(), 1000);
    assert_eq!(t[0], "l501");
    assert_eq!(t[998], "l1499");
    assert_eq!(t[999], "[Exit code: 1]");
}

#[test]
fn shell_error_is_reported() {
    let mut s = TerminalSession::new(1);
    s.apply_background(BackgroundResult::ShellFailed("program not found".to_string()));
    assert_eq!(texts(&s), vec!["Error: program not found"]);
    s.apply_background(BackgroundResult::ShellOutput {
        stdout: b"x\n".to_vec(),
        stderr: Vec::new(),
        exit_code: Some(2),
    });
    assert_eq!(texts(&s), vec!["Error: program not found", "x", "[Exit code: 2]"]);
    s.apply_background(BackgroundResult::Export(ExportOutcome::Cancelled));
    assert_eq!(texts(&s).len(), 4);
}

#[test]
fn selection_spans_anchor_to_cursor() {
    let mut s = TerminalSession::new(1);
    s.record_shell_text("a\nb\nc\nd\n", "", None);
    assert_eq!(s.get_selected_text(), None);
    s.visual_cursor_line = 1;
    s.start_selection();
    s.move_visual_down();
    s.move_visual_down();
    assert_eq!(s.get_selected_text(), Some("b\nc\nd\n".to_string()));
    s.move_visual_down();
    assert_eq!(s.visual_cursor_line, 4);
    s.move_visual_down();
    assert_eq!(s.visual_cursor_line, 4);
    assert_eq!(s.get_selected_text(), Some("b\nc\nd\n".to_string()));
    s.start_selection();
    assert_eq!(s.selection_start, Some((1, 0)));
    s.clear_selection();
    assert_eq!(s.get_selected_text(), None);
    s.start_selection();
    assert_eq!(s.get_selected_text(), None);
    s.move_visual_up();
    assert_eq!(s.get_selected_text(), Some("d\n".to_string()));
}

#[test]
fn scrolling_is_bounded() {
    let mut s = TerminalSession::new(1);
    s.scroll_down();
    assert_eq!(s.scroll_offset, 0);
    s.scroll_up();
    assert_eq!(s.scroll_offset, 0);
    s.record_shell_text("a\nb\n", "", None);
    s.scroll_up();
    s.scroll_up();
    s.scroll_up();
    assert_eq!(s.scroll_offset, 2);
    s.scroll_down();
    assert_eq!(s.scroll_offset, 1);
}

#[test]
fn view_lines_follow_scrolling_and_highlight() {
    let mut s = TerminalSession::new(1);
    let text: String = (0..10).map(|i| format!("{}\n", i)).collect();
    s.record_shell_text(&text, "", None);
    let v = s.view_lines(4, true);
    let t: Vec<&str> = v.iter().map(|l| l.text.as_str()).collect();
    assert_eq!(t, vec!["6", "7", "8", "9"]);
    assert!(v.iter().all(|l| l.highlight == LineHighlight::Plain));
    s.scroll_up();
    s.scroll_up();
    let v = s.view_lines(4, true);
    let t: Vec<&str> = v.iter().map(|l| l.text.as_str()).collect();
    assert_eq!(t, vec!["4", "5", "6", "7"]);
    s.visual_cursor_line = 5;
    let v = s.view_lines(4, false);
    assert_eq!(v[1].highlight, LineHighlight::Cursor);
    assert_eq!(v[0].highlight, LineHighlight::Plain);
    s.start_selection();
    s.move_visual_down();
    let v = s.view_lines(4, false);
    let h: Vec<LineHighlight> = v.iter().map(|l| l.highlight).collect();
    assert_eq!(
        h,
        vec![LineHighlight::Plain, LineHighlight::Selected, LineHighlight::Selected, LineHighlight::Plain]
    );
    let v = s.view_lines(100, false);
    assert_eq!(v.len(), 8);
}

#[test]
fn input_split_at_cursor() {
    let mut s = TerminalSession::new(1);
    type_str(&mut s, "hello");
    s.handle_left();
    s.handle_left();
    let (a, b) = s.input_split();
    assert_eq!(a, "hel");
    assert_eq!(b, "lo");
}

#[test]
fn directory_name_is_the_last_component() {
    let mut s = TerminalSession::new(1);
    s.finish_change_dir(Ok(Some("/home/user/projects".to_string())));
    assert_eq!(s.get_current_dir_name(), "projects");
    s.finish_change_dir(Ok(Some("/".to_string())));
    assert_eq!(s.get_current_dir_name(), "/");
    assert_eq!(TerminalSession::new(2).get_current_dir_name(), "C:\\");
    s.finish_change_dir(Ok(Some("/home/bob".to_string())));
    assert_eq!(s.get_current_dir_name(), "bob");
    s.finish_change_dir(Ok(Some("/bob".to_string())));
    assert_eq!(s.get_current_dir_name(), "bob");
    for d in ["projects", "..", "."] {
        s.finish_change_dir(Ok(Some(d.to_string())));
        assert_eq!(s.get_current_dir_name(), d);
    }
    assert_eq!(dir_name_or(None, "/"), "/");
    assert_eq!(dir_name_or(Some("x".to_string()), "/a/x"), "x");
}

#[test]
fn clear_output_resets_view() {
    let mut s = TerminalSession::new(1);
    s.record_shell_text("a\nb\n", "", None);
    s.scroll_up();
    s.start_selection();
    s.clear_output();
    assert_eq!(s.get_output_len(), 0);
    assert_eq!(s.scroll_offset, 0);
    assert_eq!(s.selection_start, None);
    assert_eq!(s.visual_cursor_line, 0);
}

#[test]
fn scroll_up_then_down_returns() {
    let mut s = TerminalSession::new(1);
    s.record_shell_text("a\nb\nc\n", "", None);
    s.scroll_up();
    let before = s.scroll_offset;
    s.scroll_up();
    s.scroll_down();
    assert_eq!(s.scroll_offset, before);
}

#[test]
fn entered_command_is_recalled_after_clear() {
    let mut s = TerminalSession::new(1);
    type_str(&mut s, " cls ");
    s.execute_command();
    s.handle_up();
    assert_eq!(s.input_buffer, "cls");
}
