use chopsticks::app::{format_exit_status, row_label, App};
use chopsticks::terminal::{acquire_modes, restore_modes};
use chopsticks::{InputEvent, Key, KeyInput, Snippet};

fn key(code: Key) -> InputEvent {
    InputEvent::Key(KeyInput { code, ctrl: false })
}

fn snippet(cmd: &str, description: &str) -> Snippet {
    Snippet { priority: 0, cmd: cmd.to_string(), description: description.to_string() }
}

#[test]
fn exported_document_has_expected_text() {
    let mut app = App::new();
    app.snippets = vec![snippet("ls", "list")];
    let doc = app.export_document();
    assert_eq!(doc, "[[snippets]]\npriority = 0\ncmd = \"ls\"\ndescription = \"list\"\n");
}

#[test]
fn round_trip_plain_snippets() {
    let mut app = App::new();
    app.snippets = vec![snippet("echo hi", "greet"), snippet("cargo test", "run the tests")];
    app.snippets[0].priority = -42;
    let doc = app.export_document();
    let mut other = App::new();
    other.init(&doc).expect("a saved document must load");
    assert_eq!(other.snippets, app.snippets);
}

#[test]
fn round_trip_awkward_text() {
    let mut app = App::new();
    app.snippets = vec![
        snippet("printf \"a\\tb\\n\"", "quotes \" and \\ backslashes"),
        snippet("line one\nline two", "multi\nline\r\ttext"),
        snippet("", ""),
    ];
    let doc = app.export_document();
    let mut other = App::new();
    other.init(&doc).expect("a saved document must load");
    assert_eq!(other.snippets, app.snippets);
}

#[test]
fn empty_content_loads_as_empty_list() {
    let mut app = App::new();
    app.init("").expect("empty content is an empty list");
    assert_eq!(app.snippets.len(), 0);
    let doc = app.export_document();
    assert_eq!(doc, "");
}

#[test]
fn malformed_document_is_refused() {
    let mut app = App::new();
    let r = app.init("[[snippets]]\ncmd = \"no closing quote");
    assert!(r.is_err());
    assert_eq!(r.unwrap_err().message(), "malformed snippets document");
}

#[test]
fn document_rejects_missing_description() {
    let mut app = App::new();
    assert!(app.init("[[snippets]]\ncmd = \"ls\"\n").is_err());
}

#[test]
fn document_rejects_repeated_key() {
    let mut app = App::new();
    assert!(app.init("[[snippets]]\ncmd = \"a\"\ncmd = \"b\"\ndescription = \"d\"\n").is_err());
}

#[test]
fn document_rejects_bad_escape() {
    let mut app = App::new();
    assert!(app.init("[[snippets]]\ncmd = \"a\\q\"\ndescription = \"d\"\n").is_err());
}

#[test]
fn document_rejects_unterminated_literal() {
    let mut app = App::new();
    assert!(app.init("[[snippets]]\ncmd = '''abc\ndescription = '''d'''\n").is_err());
}

#[test]
fn document_rejects_huge_priority() {
    let mut app = App::new();
    let text = "[[snippets]]\npriority = 99999999999999999999\ncmd = \"a\"\ndescription = \"b\"\n";
    assert!(app.init(text).is_err());
}

#[test]
fn document_accepts_literal_strings_and_defaults() {
    let mut app = App::new();
    let text = "[[snippets]]\ncmd = '''echo hi'''\ndescription = '''\n'''\n";
    app.init(text).expect("literal strings parse");
    assert_eq!(app.snippets.len(), 1);
    assert_eq!(app.snippets[0].priority, 0);
    assert_eq!(app.snippets[0].cmd, "echo hi");
    assert_eq!(app.snippets[0].description, "");
}

#[test]
fn matching_query_scores_positive_and_keeps_single_row() {
    let mut app = App::new();
    app.snippets = vec![snippet("echo hi", "greet")];
    for c in "greet".chars() {
        app.handle_event(key(Key::Char(c)));
    }
    assert_eq!(app.snippets.len(), 1);
    assert_eq!(app.snippets[0].cmd, "echo hi");
    assert_eq!(app.snippets[0].description, "greet");
    assert!(app.snippets[0].priority > 0, "a matching query must score above zero");
    assert_eq!(app.selected, 0);
}

#[test]
fn unmatched_query_scores_zero() {
    let mut app = App::new();
    app.snippets = vec![snippet("echo hi", "greet")];
    for c in "xyz".chars() {
        app.handle_event(key(Key::Char(c)));
    }
    assert_eq!(app.snippets.len(), 1);
    assert_eq!(app.snippets[0].cmd, "echo hi");
    assert_eq!(app.snippets[0].priority, 0);
}

#[test]
fn ranking_is_deterministic_across_runs() {
    let run = || {
        let mut app = App::new();
        app.snippets = vec![
            snippet("git status", "what changed"),
            snippet("git stash", "shelve changes"),
            snippet("du -sh", "disk usage"),
        ];
        for c in "git st".chars() {
            app.handle_event(key(Key::Char(c)));
        }
        app.snippets
    };
    let a = run();
    let b = run();
    assert_eq!(a, b, "the same query over the same list must rank identically");
}

#[test]
fn better_match_ranks_first() {
    let mut app = App::new();
    app.snippets = vec![snippet("du -sh", "disk usage"), snippet("git status", "what changed")];
    for c in "status".chars() {
        app.handle_event(key(Key::Char(c)));
    }
    assert_eq!(app.snippets[0].cmd, "git status");
    assert!(app.snippets[0].priority > app.snippets[1].priority);
}

#[test]
fn empty_query_keeps_order_with_zero_scores() {
    let mut app = App::new();
    app.snippets = vec![snippet("b", "two"), snippet("a", "one")];
    app.handle_event(key(Key::Char('q')));
    app.handle_event(key(Key::Backspace));
    assert_eq!(app.snippets[0].cmd, "b");
    assert_eq!(app.snippets[1].cmd, "a");
    assert_eq!(app.snippets[0].priority, 0);
    assert_eq!(app.snippets[1].priority, 0);
}

#[test]
fn seed_text_uses_literal_blocks() {
    let sn = Snippet::default();
    let seed = chopsticks::codec::seed_text_chars(&sn);
    let seed: String = seed.iter().collect();
    assert_eq!(seed, "priority = 0\ncmd = '''\n'''\ndescription = '''\n'''");
    let sn = snippet("echo hi", "greet");
    let seed: String = chopsticks::codec::seed_text_chars(&sn).iter().collect();
    assert_eq!(seed, "priority = 0\ncmd = '''echo hi'''\ndescription = '''greet'''");
}

#[test]
fn exit_status_lines() {
    assert_eq!(format_exit_status(Some(0)), "Exited with status code: 0");
    assert_eq!(format_exit_status(Some(130)), "Exited with status code: 130");
    assert_eq!(format_exit_status(Some(-9)), "Exited with status code: -9");
    assert_eq!(format_exit_status(None), "Process terminated by signal");
}

#[test]
fn row_labels_are_zero_padded() {
    assert_eq!(row_label(0, "ls"), "00 ls");
    assert_eq!(row_label(7, "du -sh"), "07 du -sh");
    assert_eq!(row_label(42, "git log"), "42 git log");
}

#[test]
fn terminal_restore_is_idempotent() {
    let taken = acquire_modes();
    let once = restore_modes(taken);
    let twice = restore_modes(once);
    assert_eq!(once, twice);
    assert!(!once.raw_mode && !once.alternate_screen && !once.mouse_capture);
}

#[test]
fn executing_from_ranked_list_runs_top_row() {
    let mut app = App::new();
    app.snippets = vec![snippet("du -sh", "disk usage"), snippet("git status", "what changed")];
    for c in "status".chars() {
        app.handle_event(key(Key::Char(c)));
    }
    let msg = app.handle_event(key(Key::Enter)).unwrap();
    let act = app.update(msg);
    assert_eq!(act, chopsticks::app::Action::Run("git status".to_string()));
}
