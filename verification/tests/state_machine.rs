use chopsticks::app::{Action, App, EditMsg, Msg};
use chopsticks::{InputEvent, Key, KeyInput, MouseKind, Snippet};

fn key(code: Key) -> InputEvent {
    InputEvent::Key(KeyInput { code, ctrl: false })
}

fn ctrl(code: Key) -> InputEvent {
    InputEvent::Key(KeyInput { code, ctrl: true })
}

fn snippet(cmd: &str, description: &str) -> Snippet {
    Snippet { priority: 0, cmd: cmd.to_string(), description: description.to_string() }
}

#[test]
fn fresh_app_is_browse_and_empty() {
    let app = App::new();
    assert!(!app.quit);
    assert!(!app.terminal_restored);
    assert!(!app.is_editing);
    assert!(app.editor.is_none());
    assert!(app.error_msg.is_none());
    assert_eq!(app.snippets.len(), 0);
    assert_eq!(app.selected, 0);
}

#[test]
fn selection_wraps_forward_and_back() {
    let mut app = App::new();
    app.snippets = vec![snippet("a", ""), snippet("b", ""), snippet("c", "")];
    app.selected = 1;
    for _ in 0..3 {
        app.select_next();
    }
    assert_eq!(app.selected, 1);
    for _ in 0..3 {
        app.select_previous();
    }
    assert_eq!(app.selected, 1);
    app.select_next();
    app.select_previous();
    assert_eq!(app.selected, 1);
    app.selected = 2;
    app.select_next();
    assert_eq!(app.selected, 0);
    app.select_previous();
    assert_eq!(app.selected, 2);
}

#[test]
fn empty_list_is_safe() {
    let mut app = App::new();
    app.select_next();
    assert_eq!(app.selected, 0);
    app.select_previous();
    assert_eq!(app.selected, 0);
    app.remove_snippet();
    assert_eq!(app.snippets.len(), 0);
    let act = app.update(Msg::ExecuteCmd);
    assert_eq!(act, Action::Nothing);
    assert!(app.quit);
    assert!(!app.terminal_restored);
}

#[test]
fn remove_last_snippet_clears_list() {
    let mut app = App::new();
    app.snippets = vec![snippet("echo hi", "greet")];
    app.selected = 0;
    let act = app.update(Msg::RemoveSnippet);
    assert_eq!(act, Action::Nothing);
    assert_eq!(app.snippets.len(), 0);
    assert_eq!(app.selected, 0);
}

#[test]
fn remove_clamps_selection() {
    let mut app = App::new();
    app.snippets = vec![snippet("a", ""), snippet("b", ""), snippet("c", "")];
    app.selected = 2;
    app.remove_snippet();
    assert_eq!(app.snippets.len(), 2);
    assert_eq!(app.selected, 1);
    assert_eq!(app.snippets[0].cmd, "a");
    assert_eq!(app.snippets[1].cmd, "b");
}

#[test]
fn add_then_cancel_returns_to_browse() {
    let mut app = App::new();
    let msg = app.handle_event(ctrl(Key::Char('a')));
    let msg = msg.expect("Ctrl-A maps to a message");
    match &msg {
        Msg::Edit(EditMsg::Open { snippet }) => {
            assert_eq!(snippet.cmd, "");
            assert_eq!(snippet.description, "");
            assert_eq!(snippet.priority, 0);
        }
        other => panic!("unexpected message {:?}", other),
    }
    let act = app.update(msg);
    assert_eq!(act, Action::Nothing);
    assert!(app.is_editing);
    assert!(app.editor.is_some());
    let cancel = app.handle_event(ctrl(Key::Char('c')));
    assert_eq!(cancel, Some(Msg::Edit(EditMsg::Cancel)));
    app.update(Msg::Edit(EditMsg::Cancel));
    assert!(!app.is_editing);
    assert!(app.editor.is_none());
    assert_eq!(app.snippets.len(), 0);
}

#[test]
fn escape_and_ctrl_c_close_from_browse() {
    let mut app = App::new();
    assert_eq!(app.handle_event(key(Key::Esc)), Some(Msg::AppClose));
    assert_eq!(app.handle_event(ctrl(Key::Char('c'))), Some(Msg::AppClose));
    let act = app.update(Msg::AppClose);
    assert_eq!(act, Action::Nothing);
    assert!(app.quit);
}

#[test]
fn execute_hands_out_command_and_quits() {
    let mut app = App::new();
    app.snippets = vec![snippet("echo hi", "greet")];
    assert_eq!(app.handle_event(key(Key::Enter)), Some(Msg::ExecuteCmd));
    let act = app.update(Msg::ExecuteCmd);
    assert_eq!(act, Action::Run("echo hi".to_string()));
    assert!(app.quit);
    assert!(app.terminal_restored);
}

#[test]
fn copy_hands_out_command() {
    let mut app = App::new();
    app.snippets = vec![snippet("cargo build", "build")];
    assert_eq!(app.handle_event(ctrl(Key::Enter)), Some(Msg::CopyToClipboard));
    let act = app.update(Msg::CopyToClipboard);
    assert_eq!(act, Action::Copy("cargo build".to_string()));
    assert!(!app.quit);
}

#[test]
fn mouse_scroll_moves_selection() {
    let mut app = App::new();
    assert_eq!(app.handle_event(InputEvent::Mouse(MouseKind::ScrollDown)), Some(Msg::SelectNext));
    assert_eq!(app.handle_event(InputEvent::Mouse(MouseKind::ScrollUp)), Some(Msg::SelectPrev));
    assert_eq!(app.handle_event(InputEvent::Tick), None);
}

#[test]
fn edit_selected_seeds_from_list() {
    let mut app = App::new();
    app.snippets = vec![snippet("du -sh", "disk use")];
    let msg = app.handle_event(ctrl(Key::Char('e'))).expect("Ctrl-E maps to a message");
    match &msg {
        Msg::Edit(EditMsg::Open { snippet }) => {
            assert_eq!(snippet.cmd, "du -sh");
            assert_eq!(snippet.description, "disk use");
        }
        other => panic!("unexpected message {:?}", other),
    }
}

#[test]
fn save_untouched_seed_appends_same_snippet() {
    let mut app = App::new();
    app.snippets = vec![snippet("du -sh", "disk use")];
    let msg = app.handle_event(ctrl(Key::Char('e'))).unwrap();
    app.update(msg);
    assert!(app.is_editing);
    let save = app.handle_event(ctrl(Key::Char('s')));
    assert_eq!(save, Some(Msg::Edit(EditMsg::Save)));
    app.update(Msg::Edit(EditMsg::Save));
    assert!(!app.is_editing);
    assert!(app.error_msg.is_none());
    assert_eq!(app.snippets.len(), 2);
    assert_eq!(app.snippets[1].cmd, "du -sh");
    assert_eq!(app.snippets[1].description, "disk use");
    assert_eq!(app.selected, 0);
}

#[test]
fn typed_record_saves_as_snippet() {
    let mut app = App::new();
    app.update(Msg::Edit(EditMsg::Open { snippet: Snippet::default() }));
    assert!(app.is_editing);
    // Wipe the seeded template, then type a fresh record.
    app.editor = Some(chopsticks::textinput::TextInput::new());
    let record = "priority = 3\ncmd = \"ls -la\"\ndescription = \"long listing\"";
    for c in record.chars() {
        if c == '\n' {
            app.handle_event(key(Key::Enter));
        } else {
            app.handle_event(key(Key::Char(c)));
        }
    }
    app.update(Msg::Edit(EditMsg::Save));
    assert!(!app.is_editing);
    assert!(app.error_msg.is_none());
    assert_eq!(app.snippets.len(), 1);
    assert_eq!(app.snippets[0].priority, 3);
    assert_eq!(app.snippets[0].cmd, "ls -la");
    assert_eq!(app.snippets[0].description, "long listing");
}

#[test]
fn bad_record_keeps_editor_and_sets_error() {
    let mut app = App::new();
    app.update(Msg::Edit(EditMsg::Open { snippet: Snippet::default() }));
    app.editor = Some(chopsticks::textinput::TextInput::new());
    for c in "cmd = \"only a command\"".chars() {
        app.handle_event(key(Key::Char(c)));
    }
    app.update(Msg::Edit(EditMsg::Save));
    assert!(app.is_editing, "a failed save must stay in Editing mode");
    assert!(app.editor.is_some(), "a failed save must keep the buffer");
    assert!(app.error_msg.is_some(), "a failed save must surface an error");
    assert_eq!(app.snippets.len(), 0);
}

#[test]
fn backspace_edits_editor_buffer() {
    let mut app = App::new();
    app.update(Msg::Edit(EditMsg::Open { snippet: Snippet::default() }));
    app.editor = Some(chopsticks::textinput::TextInput::new());
    for c in "ab".chars() {
        app.handle_event(key(Key::Char(c)));
    }
    app.handle_event(key(Key::Backspace));
    let ed = app.editor.as_ref().unwrap();
    assert_eq!(ed.lines.len(), 1);
    assert_eq!(ed.lines[0], vec!['a']);
}
