use medit::buffer::Buffer;
use medit::config::Config;
use medit::editor::{detect_indent_style, menu_at_column, normalize_newlines, App, Effect, MenuKind};
use medit::input::{Action, Direction, MoveKind};

fn app_on(path: &str, text: &str, clipboard: bool) -> App {
    let mut app = App::new(
        Buffer::open(path.to_string(), text),
        "/proj".to_string(),
        vec!["src/b.rs".to_string(), "a.rs".to_string()],
        Config::load(None),
        clipboard,
    );
    app.take_effects();
    app
}

fn act(app: &mut App, action: Action) {
    assert!(app.handle_action(action, None, Some(24)));
}

#[test]
fn new_editor_asks_for_its_language_server() {
    let mut app = App::new(
        Buffer::open("/proj/main.rs".to_string(), ""),
        "/proj".to_string(),
        Vec::new(),
        Config::load(None),
        false,
    );
    let effects = app.take_effects();
    assert_eq!(effects.len(), 1);
    match &effects[0] {
        Effect::RestartLsp(Some(c)) => {
            assert_eq!(c.command, "rust-analyzer");
            assert_eq!(c.language_id, "rust");
            assert!(c.args.is_empty());
        }
        other => panic!("unexpected effect {:?}", other),
    }
    assert!(app.take_effects().is_empty());

    let mut plain = App::new(
        Buffer::open("/proj/notes.txt".to_string(), ""),
        "/proj".to_string(),
        Vec::new(),
        Config::load(None),
        false,
    );
    assert!(matches!(plain.take_effects().as_slice(), [Effect::RestartLsp(None)]));
}

#[test]
fn quit_is_guarded_when_modified() {
    let mut app = app_on("/proj/notes.txt", "", false);
    act(&mut app, Action::Insert('a'));
    act(&mut app, Action::Quit);
    assert!(app.is_running());
    act(&mut app, Action::Quit);
    assert!(!app.is_running());
}

#[test]
fn another_action_disarms_the_quit_guard() {
    let mut app = app_on("/proj/notes.txt", "", false);
    act(&mut app, Action::Insert('a'));
    act(&mut app, Action::Quit);
    act(&mut app, Action::Insert('b'));
    act(&mut app, Action::Quit);
    assert!(app.is_running());
    act(&mut app, Action::Quit);
    assert!(!app.is_running());
}

#[test]
fn unmodified_buffer_quits_at_once() {
    let mut app = app_on("/proj/notes.txt", "text", false);
    act(&mut app, Action::Quit);
    assert!(!app.is_running());
}

#[test]
fn save_asks_for_a_write_and_takes_the_report() {
    let mut app = app_on("/proj/notes.txt", "", false);
    act(&mut app, Action::Insert('h'));
    act(&mut app, Action::Insert('i'));
    act(&mut app, Action::Save);
    match app.take_effects().as_slice() {
        [Effect::Save { path, text }] => {
            assert_eq!(path, "/proj/notes.txt");
            assert_eq!(text, "hi");
        }
        other => panic!("unexpected effects {:?}", other),
    }
    assert!(app.buffer().is_modified());
    app.save_finished(Ok(()));
    assert!(!app.buffer().is_modified());
    act(&mut app, Action::Quit);
    assert!(!app.is_running());
}

#[test]
fn a_failed_save_keeps_the_changes_marked() {
    let mut app = app_on("/proj/notes.txt", "", false);
    act(&mut app, Action::Insert('x'));
    act(&mut app, Action::Save);
    app.take_effects();
    app.save_finished(Err("denied".to_string()));
    assert!(app.buffer().is_modified());
}

#[test]
fn typing_undo_and_redo() {
    let mut app = app_on("/proj/notes.txt", "", false);
    act(&mut app, Action::Insert('a'));
    act(&mut app, Action::Insert('b'));
    assert_eq!(app.buffer().text(), "ab");
    act(&mut app, Action::Undo);
    assert_eq!(app.buffer().text(), "a");
    act(&mut app, Action::Redo);
    assert_eq!(app.buffer().text(), "ab");
    act(&mut app, Action::Backspace);
    assert_eq!(app.buffer().text(), "a");
}

#[test]
fn enter_keeps_the_line_indentation() {
    let mut app = app_on("/proj/notes.txt", "    foo", false);
    act(&mut app, Action::Move { kind: MoveKind::LineEnd, selecting: false });
    act(&mut app, Action::Enter);
    assert_eq!(app.buffer().text(), "    foo\n    ");
    assert_eq!(app.buffer().cursor(), 12);
}

#[test]
fn tab_inserts_the_detected_indentation() {
    let mut app = app_on("/proj/notes.txt", "fn x() {\n\tbody\n}", false);
    act(&mut app, Action::Tab);
    assert_eq!(app.buffer().text(), "\tfn x() {\n\tbody\n}");
}

#[test]
fn paste_normalizes_line_endings() {
    let mut app = app_on("/proj/notes.txt", "", true);
    assert!(app.handle_action(Action::Paste, Some("a\r\nb\rc".to_string()), Some(24)));
    assert_eq!(app.buffer().text(), "a\nb\nc");
}

#[test]
fn copy_and_cut_write_the_clipboard() {
    let mut app = app_on("/proj/notes.txt", "hello", true);
    act(&mut app, Action::SelectAll);
    act(&mut app, Action::Copy);
    match app.take_effects().as_slice() {
        [Effect::WriteClipboard { text, report }] => {
            assert_eq!(text, "hello");
            assert!(!report);
        }
        other => panic!("unexpected effects {:?}", other),
    }
    act(&mut app, Action::Cut);
    assert_eq!(app.buffer().text(), "");
    match app.take_effects().as_slice() {
        [Effect::WriteClipboard { text, report }] => {
            assert_eq!(text, "hello");
            assert!(*report);
        }
        other => panic!("unexpected effects {:?}", other),
    }
}

#[test]
fn copy_without_a_clipboard_asks_for_nothing() {
    let mut app = app_on("/proj/notes.txt", "hello", false);
    act(&mut app, Action::SelectAll);
    act(&mut app, Action::Copy);
    assert!(app.take_effects().is_empty());
}

#[test]
fn search_moves_the_cursor_to_matches() {
    let mut app = app_on("/proj/notes.txt", "abc ABC abc", false);
    act(&mut app, Action::Find);
    act(&mut app, Action::Insert('a'));
    act(&mut app, Action::Insert('b'));
    assert_eq!(app.buffer().cursor(), 0);
    act(&mut app, Action::FindNext);
    assert_eq!(app.buffer().cursor(), 4);
    act(&mut app, Action::FindNext);
    assert_eq!(app.buffer().cursor(), 8);
    act(&mut app, Action::FindNext);
    assert_eq!(app.buffer().cursor(), 0);
    act(&mut app, Action::FindPrevious);
    assert_eq!(app.buffer().cursor(), 8);
    act(&mut app, Action::Escape);
    act(&mut app, Action::Insert('z'));
    assert_eq!(app.buffer().text(), "abc ABC zabc");
}

#[test]
fn picker_opens_the_chosen_file() {
    let mut app = app_on("/proj/notes.txt", "", false);
    act(&mut app, Action::Picker);
    assert!(matches!(app.take_effects().as_slice(), [Effect::OpenPicker]));
    app.open_picker(None);
    act(&mut app, Action::Insert('b'));
    act(&mut app, Action::Enter);
    match app.take_effects().as_slice() {
        [Effect::Open { path }] => assert_eq!(path, "/proj/src/b.rs"),
        other => panic!("unexpected effects {:?}", other),
    }
    assert!(app.open_finished("/proj/src/b.rs".to_string(), Ok("fn b() {}".to_string())));
    assert_eq!(app.buffer().text(), "fn b() {}");
    assert_eq!(app.buffer().path(), Some("/proj/src/b.rs"));
    match app.take_effects().as_slice() {
        [Effect::RestartLsp(Some(c))] => assert_eq!(c.language_id, "rust"),
        other => panic!("unexpected effects {:?}", other),
    }
}

#[test]
fn picker_creates_the_typed_path() {
    let mut app = app_on("/proj/notes.txt", "", false);
    act(&mut app, Action::Picker);
    app.take_effects();
    app.open_picker(Some(Vec::new()));
    for c in " new.py ".chars() {
        act(&mut app, Action::Insert(c));
    }
    act(&mut app, Action::Create);
    match app.take_effects().as_slice() {
        [Effect::Create { path }] => assert_eq!(path, "/proj/new.py"),
        other => panic!("unexpected effects {:?}", other),
    }
    app.create_finished("/proj/new.py".to_string(), Ok(()));
    assert_eq!(app.buffer().path(), Some("/proj/new.py"));
    assert_eq!(app.buffer().text(), "");
}

#[test]
fn moving_the_cursor() {
    let mut app = app_on("/proj/notes.txt", "ab\ncdef", false);
    act(&mut app, Action::Move { kind: MoveKind::Char(Direction::Right), selecting: false });
    act(&mut app, Action::Move { kind: MoveKind::Char(Direction::Down), selecting: false });
    assert_eq!(app.buffer().cursor(), 4);
    act(&mut app, Action::Move { kind: MoveKind::LineEnd, selecting: true });
    assert_eq!(app.buffer().selected_text(), Some("def".to_string()));
    act(&mut app, Action::Move { kind: MoveKind::Word(Direction::Left), selecting: false });
    assert_eq!(app.buffer().cursor(), 3);
}

#[test]
fn indent_detection() {
    let tabs = detect_indent_style(&Buffer::open("a.rs".into(), "fn a() {\n\tx\n}"));
    assert!(tabs.use_tabs);
    let spaces = detect_indent_style(&Buffer::open("a.rs".into(), "a:\n  b\n  c\n    d"));
    assert!(!spaces.use_tabs);
    assert_eq!(spaces.width, 2);
    let none = detect_indent_style(&Buffer::open("a.rs".into(), "plain"));
    assert!(!none.use_tabs);
    assert_eq!(none.width, 4);
}

#[test]
fn menu_titles_by_column() {
    assert!(matches!(menu_at_column(1, 0), Some(MenuKind::File)));
    assert!(matches!(menu_at_column(9, 0), Some(MenuKind::Search)));
    assert!(matches!(menu_at_column(34, 0), Some(MenuKind::Help)));
    assert!(menu_at_column(0, 0).is_none());
    assert!(menu_at_column(40, 0).is_none());
    assert!(menu_at_column(3, 1).is_none());
    assert_eq!(MenuKind::Lsp.title(), "LSP");
    assert_eq!(MenuKind::File.items(), vec!["Save   Ctrl+S", "Open…  Ctrl+P", "Quit   Ctrl+Q"]);
}

#[test]
fn newlines_are_normalized() {
    assert_eq!(normalize_newlines("a\r\nb\rc\n"), "a\nb\nc\n");
}

#[test]
fn scrolling_into_view_settles() {
    let mut text = String::new();
    for i in 0..60 {
        text.push_str(&format!("line {i}\n"));
    }
    let mut app = app_on("/proj/notes.txt", &text, false);
    for _ in 0..45 {
        act(&mut app, Action::Move { kind: MoveKind::Char(Direction::Down), selecting: false });
    }
    app.scroll_into_view(80, 24);
    let top = app.first_visible_line();
    assert_eq!(top, 24);
    app.scroll_into_view(80, 24);
    assert_eq!(app.first_visible_line(), top);
    let (_, ok) = app.render(80, 24, "theme", &[]);
    assert!(ok);
    assert_eq!(app.first_visible_line(), top);
}

#[test]
fn typing_a_search_disarms_the_quit_guard() {
    let mut app = app_on("/proj/notes.txt", "", false);
    act(&mut app, Action::Insert('a'));
    act(&mut app, Action::Find);
    act(&mut app, Action::Quit);
    assert!(app.is_running());
    act(&mut app, Action::Insert('a'));
    act(&mut app, Action::Quit);
    assert!(app.is_running());
    act(&mut app, Action::Quit);
    assert!(!app.is_running());
}
