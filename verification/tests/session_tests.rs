use std::sync::mpsc::channel;

use nash::render::{RenderOp, Style};
use nash::session::{select_output, Action, KeyEvent, Session};

fn sx(s: &str) -> Vec<char> {
    s.chars().collect()
}

fn seeded_session(names: &[&str]) -> Session {
    let (tx, rx) = channel();
    for n in names {
        tx.send(n.chars().collect()).unwrap();
    }
    drop(tx);
    let mut s = Session::new(rx);
    for _ in names {
        s.ingest_available();
    }
    s
}

fn hint_texts(ops: &[RenderOp]) -> Vec<Vec<char>> {
    let mut found = Vec::new();
    for op in ops {
        if let RenderOp::Text { text, style, .. } = op {
            if *style == Style::Hint {
                found.push(text.clone());
            }
        }
    }
    found
}

#[test]
fn startup_clears_and_draws_prompt() {
    let ops = Session::startup_ops();
    assert_eq!(ops.len(), 3);
    assert!(matches!(ops[0], RenderOp::ClearScreen));
    match &ops[1] {
        RenderOp::Text { row, col, text, style } => {
            assert_eq!((*row, *col), (0, 0));
            assert_eq!(*text, sx("nash~>> "));
            assert_eq!(*style, Style::Prompt);
        },
        _ => panic!("expected the prompt"),
    }
    assert!(matches!(ops[2], RenderOp::Present));
}

#[test]
fn typing_advances_cursor_and_buffer() {
    let mut s = seeded_session(&[]);
    s.accept_char('l', 1000);
    s.accept_char('s', 1000);
    assert_eq!(s.buffer, sx("ls"));
    assert_eq!(s.col, 11);
    assert_eq!(s.row, 0);
    assert_eq!(s.sug_idx, 0);
}

#[test]
fn typing_shows_hint_of_first_match() {
    let mut s = seeded_session(&["ls", "lsof"]);
    let ops = s.accept_char('l', 1000);
    assert_eq!(hint_texts(&ops), vec![sx("s")]);
    let ops = s.accept_char('s', 1000);
    assert_eq!(hint_texts(&ops), vec![sx("")]);
}

#[test]
fn cycle_selects_other_match_then_wraps() {
    let mut s = seeded_session(&["ls", "lsof"]);
    s.accept_char('l', 1000);
    s.accept_char('s', 1000);
    let ops = s.cycle_suggestion(1000);
    assert_eq!(s.sug_idx, 1);
    assert_eq!(hint_texts(&ops), vec![sx("of")]);
    assert_eq!(s.buffer, sx("ls"));
    let ops = s.cycle_suggestion(1000);
    assert_eq!(s.sug_idx, 0);
    assert_eq!(hint_texts(&ops), vec![sx("")]);
    assert_eq!(s.buffer, sx("ls"));
}

#[test]
fn cycle_visits_every_match_in_order() {
    let mut s = seeded_session(&["aa", "ab", "ac"]);
    s.accept_char('a', 1000);
    assert_eq!(s.sug_idx, 0);
    let mut seen = Vec::new();
    for _ in 0..4 {
        s.cycle_suggestion(1000);
        seen.push(s.sug_idx);
    }
    assert_eq!(seen, vec![1, 2, 0, 1]);
}

#[test]
fn cycle_commits_unique_match_with_space() {
    let mut s = seeded_session(&["lsof"]);
    s.accept_char('l', 1000);
    s.accept_char('s', 1000);
    s.cycle_suggestion(1000);
    assert_eq!(s.buffer, sx("lsof "));
    assert_eq!(s.col, 14);
    assert_eq!(s.sug_idx, 0);
}

#[test]
fn cycle_without_token_is_a_no_op() {
    let mut s = seeded_session(&["ls"]);
    let ops = s.cycle_suggestion(1000);
    assert_eq!(ops.len(), 0);
    assert_eq!(s.buffer, sx(""));
    assert_eq!(s.sug_idx, 0);
}

#[test]
fn scroll_resets_exactly_at_threshold() {
    let mut s = seeded_session(&[]);
    s.row = 49;
    let ops = s.accept_char('x', 50);
    assert!(matches!(ops[0], RenderOp::ClearScreen));
    assert_eq!(s.row, 0);
}

#[test]
fn no_scroll_below_threshold() {
    let mut s = seeded_session(&[]);
    s.row = 48;
    let ops = s.accept_char('x', 50);
    assert!(!ops.iter().any(|op| matches!(op, RenderOp::ClearScreen)));
    assert_eq!(s.row, 48);
}

#[test]
fn empty_submit_is_a_no_op_command_on_next_row() {
    let mut s = seeded_session(&[]);
    let act = s.handle_event(KeyEvent::Enter, 1000);
    let command = match act {
        Action::Submit { command, .. } => command,
        _ => panic!("expected a submission"),
    };
    assert!(command.is_none());
    let ops = s.finish_submit(sx(""), 1000);
    assert_eq!(s.row, 1);
    assert_eq!(s.col, 9);
    assert_eq!(s.buffer, sx(""));
    assert!(ops.iter().any(|op| matches!(
        op,
        RenderOp::Text { row: 1, col: 0, style: Style::Prompt, .. }
    )));
}

#[test]
fn submit_parses_name_and_arguments() {
    let mut s = seeded_session(&[]);
    for c in "echo hi there".chars() {
        s.accept_char(c, 1000);
    }
    let act = s.handle_event(KeyEvent::Enter, 1000);
    match act {
        Action::Submit { command: Some(cmd), .. } => {
            assert_eq!(cmd.name, sx("echo"));
            assert_eq!(cmd.args, vec![sx("hi"), sx("there")]);
        },
        _ => panic!("expected a parsed command"),
    }
}

#[test]
fn unknown_command_renders_message_and_resets() {
    let mut s = seeded_session(&[]);
    for c in "doesnotexist123".chars() {
        s.accept_char(c, 1000);
    }
    let act = s.handle_event(KeyEvent::Enter, 1000);
    assert!(matches!(act, Action::Submit { command: Some(_), .. }));
    let ops = s.fail_submit(1000);
    match &ops[0] {
        RenderOp::Text { row, col, text, style } => {
            assert_eq!((*row, *col), (1, 0));
            assert_eq!(*text, sx("nash: Unknown command: doesnotexist123"));
            assert_eq!(*style, Style::Error);
        },
        _ => panic!("expected the error message"),
    }
    assert_eq!(s.row, 2);
    assert_eq!(s.col, 9);
    assert_eq!(s.buffer, sx(""));
}

#[test]
fn three_output_lines_advance_three_rows() {
    let mut s = seeded_session(&[]);
    let ops = s.finish_submit(sx("one\ntwo\nthree"), 1000);
    assert_eq!(s.row, 3);
    let mut output_rows = Vec::new();
    for op in &ops {
        if let RenderOp::Text { row, style, .. } = op {
            if *style == Style::Output {
                output_rows.push(*row);
            }
        }
    }
    assert_eq!(output_rows, vec![1, 2, 3]);
}

#[test]
fn trailing_newline_ends_the_last_line() {
    let mut s = seeded_session(&[]);
    let ops = s.finish_submit(sx("one\ntwo\nthree\n"), 1000);
    assert_eq!(s.row, 3);
    let mut output_rows = Vec::new();
    for op in &ops {
        if let RenderOp::Text { row, style, .. } = op {
            if *style == Style::Output {
                output_rows.push(*row);
            }
        }
    }
    assert_eq!(output_rows, vec![1, 2, 3]);
}

#[test]
fn clear_line_blanks_the_row_and_redraws_the_input() {
    let mut s = seeded_session(&[]);
    s.accept_char('a', 1000);
    let ops = s.accept_char('b', 1000);
    assert!(ops.iter().any(|op| matches!(op, RenderOp::ClearRow { row: 0 })));
    assert!(ops.iter().any(|op| matches!(
        op,
        RenderOp::Text { row: 0, col: 9, text, style: Style::Input } if *text == sx("ab")
    )));
    assert!(ops.iter().any(|op| matches!(
        op,
        RenderOp::Text { row: 0, col: 0, style: Style::Prompt, .. }
    )));
}

#[test]
fn output_near_bottom_scrolls_instead() {
    let mut s = seeded_session(&[]);
    s.row = 49;
    s.finish_submit(sx("one\ntwo\nthree"), 50);
    assert_eq!(s.row, 3);
}

#[test]
fn escape_and_quit_character_end_the_session() {
    let mut s = seeded_session(&[]);
    assert!(matches!(s.handle_event(KeyEvent::Escape, 1000), Action::Quit));
    assert!(matches!(s.handle_event(KeyEvent::Printable('q'), 1000), Action::Quit));
    assert_eq!(s.buffer, sx(""));
}

#[test]
fn unhandled_events_draw_nothing() {
    let mut s = seeded_session(&[]);
    match s.handle_event(KeyEvent::Other, 1000) {
        Action::Drawn(ops) => assert_eq!(ops.len(), 0),
        _ => panic!("expected no actions"),
    }
}

#[test]
fn select_output_prefers_nonempty_stdout() {
    assert_eq!(select_output(sx("out"), sx("err")), sx("out"));
    assert_eq!(select_output(sx(""), sx("err")), sx("err"));
    assert_eq!(select_output(sx(""), sx("")), sx(""));
}

#[test]
fn typing_with_pending_names_pulls_them_in() {
    let (tx, rx) = channel();
    tx.send(sx("cargo")).unwrap();
    tx.send(sx("cat")).unwrap();
    drop(tx);
    let mut s = Session::new(rx);
    let ops = s.accept_char('c', 1000);
    assert_eq!(hint_texts(&ops), vec![sx("argo")]);
    assert_eq!(s.cache.items.len(), 1);
}
