use medit::buffer::Buffer;
use medit::config::{config_path_from, Config, FileConfig, FileLspServerConfig};
use medit::input::{
    event_to_action, Action, Event, KeyCode, KeyEvent, KeyEventKind, MouseButton, MouseEvent,
    MouseEventKind,
};
use medit::json::{as_array, as_i64, as_str, as_u64, get, jint, jstr, member, JsonValue};
use medit::paths::{extension_of, has_git_component, join_path};
use medit::picker::Picker;
use medit::search::SearchState;
use medit::text::{is_alphanumeric, is_whitespace, to_lowercase};
use medit::syntax::{line_at, syn_to_term, trim_highlighted_newline};
use medit::view::Color;

fn key(code: KeyCode, ctrl: bool, shift: bool, alt: bool) -> Event {
    Event::Key(KeyEvent { code, kind: KeyEventKind::Press, ctrl, shift, alt })
}

#[test]
fn default_language_servers() {
    let c = Config::load(None);
    let js = c.lsp_for_path("web/app.jsx").unwrap();
    assert_eq!(js.command, "typescript-language-server");
    assert_eq!(js.args, vec!["--stdio".to_string()]);
    assert_eq!(js.language_id, "javascript");
    assert_eq!(c.lsp_for_path("x.ts").unwrap().language_id, "typescript");
    assert_eq!(c.lsp_for_path("main.go").unwrap().command, "gopls");
    assert!(c.lsp_for_path("notes.txt").is_none());
    assert!(c.lsp_for_path("Makefile").is_none());
    assert_eq!(c.theme(), None);
}

#[test]
fn configuration_file_overrides_and_adds_servers() {
    let file = FileConfig {
        theme: Some("InspiredGitHub".to_string()),
        lsp: vec![
            (
                ".rs".to_string(),
                FileLspServerConfig { command: "ra".to_string(), args: Vec::new(), language_id: None },
            ),
            (
                "zig".to_string(),
                FileLspServerConfig {
                    command: "zls".to_string(),
                    args: vec!["--x".to_string()],
                    language_id: None,
                },
            ),
        ],
    };
    let c = Config::load(Some(file));
    assert_eq!(c.theme(), Some("InspiredGitHub"));
    let rs = c.lsp_for_path("a.rs").unwrap();
    assert_eq!(rs.command, "ra");
    assert_eq!(rs.language_id, "rust");
    let zig = c.lsp_for_path("b.zig").unwrap();
    assert_eq!(zig.command, "zls");
    assert_eq!(zig.args, vec!["--x".to_string()]);
    assert_eq!(zig.language_id, "zig");
    assert_eq!(c.lsp_for_path("c.py").unwrap().language_id, "python");
}

#[test]
fn paths() {
    assert_eq!(extension_of("a/b.tar.gz"), Some("gz".to_string()));
    assert_eq!(extension_of("Makefile"), None);
    assert_eq!(extension_of(".bashrc"), None);
    assert_eq!(join_path("/p", "src/a.rs"), "/p/src/a.rs");
}

#[test]
fn picker_filters_and_selects() {
    let mut p = Picker::new(
        "/p".to_string(),
        vec!["b.rs".to_string(), "a.rs".to_string(), "src/main.rs".to_string()],
    );
    assert_eq!(
        p.results(),
        vec![(0, "a.rs".to_string()), (1, "b.rs".to_string()), (2, "src/main.rs".to_string())]
    );
    p.move_selection(1);
    assert_eq!(p.selected(), 1);
    assert_eq!(p.selected_path(), Some("/p/b.rs".to_string()));
    p.move_selection(10);
    assert_eq!(p.selected(), 2);
    p.move_selection(-10);
    assert_eq!(p.selected(), 0);
    p.push('m');
    assert_eq!(p.results(), vec![(0, "src/main.rs".to_string())]);
    assert_eq!(p.selected_path(), Some("/p/src/main.rs".to_string()));
    p.push('q');
    assert!(p.results().is_empty());
    assert_eq!(p.selected_path(), None);
    p.pop();
    p.pop();
    assert_eq!(p.results().len(), 3);
    assert_eq!(p.create_path(), None);
    for c in "  x/y.txt ".chars() {
        p.push(c);
    }
    assert_eq!(p.create_path(), Some("/p/x/y.txt".to_string()));
    assert_eq!(p.query_text(), "  x/y.txt ");
    assert_eq!(p.cwd(), "/p");
}

#[test]
fn picker_typing_keeps_the_selection_on_a_listed_file() {
    let mut p = Picker::new(
        "/p".to_string(),
        vec!["b.rs".to_string(), "a.rs".to_string(), "src/main.rs".to_string()],
    );
    p.move_selection(2);
    assert_eq!(p.selected(), 2);
    p.push('a');
    assert_eq!(p.results().len(), 2);
    assert_eq!(p.selected(), 1);
    p.push('i');
    assert_eq!(p.results(), vec![(0, "src/main.rs".to_string())]);
    assert_eq!(p.selected(), 0);
    assert_eq!(p.selected_path(), Some("/p/src/main.rs".to_string()));
}

#[test]
fn search_finds_case_insensitive_matches() {
    let mut b = Buffer::empty(None);
    b.insert_str("Hello hello");
    let mut s = SearchState::default();
    assert!(s.open(&b));
    assert!(s.push('h', &b));
    assert!(s.push('E', &b));
    assert_eq!(s.count(), 2);
    assert_eq!(s.visible_matches(), &[0..2, 6..8]);
    assert_eq!(s.current_index(), 1);
    s.next(&mut b);
    assert_eq!(b.cursor(), 6);
    assert_eq!(s.current_match(), Some(&(6..8)));
    s.previous(&mut b);
    assert_eq!(b.cursor(), 0);
    assert!(s.pop(&b));
    assert_eq!(s.query_text(), "h");
    s.close();
    assert_eq!(s.count(), 2);
}

#[test]
fn empty_query_finds_nothing() {
    let mut b = Buffer::empty(None);
    b.insert_str("abc");
    let mut s = SearchState::default();
    assert!(s.open(&b));
    assert_eq!(s.count(), 0);
    assert_eq!(s.current_index(), 0);
    assert_eq!(s.current_match(), None);
}

#[test]
fn key_bindings() {
    assert!(matches!(event_to_action(key(KeyCode::Char('s'), true, false, false)), Action::Save));
    assert!(matches!(event_to_action(key(KeyCode::Char('g'), true, true, false)), Action::FindPrevious));
    assert!(matches!(event_to_action(key(KeyCode::Char('G'), true, false, false)), Action::FindPrevious));
    assert!(matches!(event_to_action(key(KeyCode::Char('g'), true, false, false)), Action::FindNext));
    assert!(matches!(event_to_action(key(KeyCode::Char('z'), true, true, false)), Action::Redo));
    assert!(matches!(event_to_action(key(KeyCode::Char('.'), true, false, false)), Action::ShowCodeActions));
    assert!(matches!(event_to_action(key(KeyCode::Enter, true, false, false)), Action::Create));
    assert!(matches!(event_to_action(key(KeyCode::Enter, false, false, true)), Action::Create));
    assert!(matches!(event_to_action(key(KeyCode::Enter, false, false, false)), Action::Enter));
    assert!(matches!(event_to_action(key(KeyCode::Char('x'), false, false, false)), Action::Insert('x')));
    assert!(matches!(event_to_action(key(KeyCode::Char('x'), false, false, true)), Action::Nothing));
    assert!(matches!(
        event_to_action(key(KeyCode::Left, true, true, false)),
        Action::Move { kind: medit::input::MoveKind::Word(medit::input::Direction::Left), selecting: true }
    ));
    let released = Event::Key(KeyEvent {
        code: KeyCode::Char('s'),
        kind: KeyEventKind::Release,
        ctrl: true,
        shift: false,
        alt: false,
    });
    assert!(matches!(event_to_action(released), Action::Nothing));
    let down = MouseEvent { kind: MouseEventKind::Down(MouseButton::Left), column: 3, row: 4 };
    assert!(matches!(event_to_action(Event::Mouse(down)), Action::Mouse(_)));
    let moved = MouseEvent { kind: MouseEventKind::Moved, column: 3, row: 4 };
    assert!(matches!(event_to_action(Event::Mouse(moved)), Action::Nothing));
    assert!(matches!(event_to_action(Event::Resize(10, 10)), Action::Nothing));
}

#[test]
fn json_access() {
    let v = JsonValue::Object(vec![
        member("name", jstr("x")),
        member("n", jint(-3)),
        member("list", JsonValue::Array(vec![jint(1), jint(2)])),
    ]);
    assert_eq!(as_str(get(&v, "name").unwrap()), Some("x"));
    assert_eq!(as_i64(get(&v, "n").unwrap()), Some(-3));
    assert_eq!(as_u64(get(&v, "n").unwrap()), None);
    assert_eq!(as_array(get(&v, "list").unwrap()).map(|a| a.len()), Some(2));
    assert!(get(&v, "missing").is_none());
    assert!(get(&jint(1), "name").is_none());
}

#[test]
fn lines_for_the_highlighter() {
    assert_eq!(line_at("ab\ncd", 0), ("ab".to_string(), 3));
    assert_eq!(line_at("ab\ncd", 3), ("cd".to_string(), 5));
    assert_eq!(line_at("ab\n", 3), ("".to_string(), 3));
    assert_eq!(line_at("ab", 9), ("".to_string(), 2));
    assert_eq!(line_at("é\nx", 1), ("".to_string(), 4));
}

#[test]
fn highlighter_ranges_are_cut_to_the_line() {
    let blue = Some(Color::Rgb { r: 0, g: 0, b: 255 });
    let segs = trim_highlighted_newline(
        vec![(None, "fn ".to_string()), (blue, "main\n".to_string()), (None, "rest".to_string())],
        7,
    );
    assert_eq!(segs.len(), 2);
    assert_eq!(segs[0].text, "fn ");
    assert_eq!(segs[0].fg, None);
    assert_eq!(segs[1].text, "main");
    assert_eq!(segs[1].fg, blue);
    let cut = trim_highlighted_newline(vec![(None, "é".to_string()), (None, "x".to_string())], 1);
    assert!(cut.is_empty());
    assert_eq!(syn_to_term(1, 2, 3, 0), None);
    assert_eq!(syn_to_term(1, 2, 3, 255), Some(Color::Rgb { r: 1, g: 2, b: 3 }));
}

#[test]
fn configuration_file_location() {

    assert_eq!(config_path_from(Some("/xdg"), Some("/home/u")), Some("/xdg/medit.toml".to_string()));
    assert_eq!(config_path_from(Some(""), Some("/home/u")), Some("/home/u/.config/medit.toml".to_string()));
    assert_eq!(config_path_from(None, Some("/home/u")), Some("/home/u/.config/medit.toml".to_string()));
    assert_eq!(config_path_from(None, None), None);
}

#[test]
fn joining_an_absolute_path_replaces_the_base() {
    assert_eq!(join_path("/p", "/etc/x"), "/etc/x");
    assert_eq!(join_path("/p/q", "r"), "/p/q/r");
}

#[test]
fn white_space_characters() {
    assert!(is_whitespace('\t'));
    assert!(is_whitespace('\u{3000}'));
    assert!(is_whitespace('\u{85}'));
    assert!(!is_whitespace('\u{180E}'));
    assert!(!is_whitespace('x'));
}

#[test]
fn git_directories_are_recognised() {
    assert!(has_git_component(".git"));
    assert!(has_git_component(".git/config"));
    assert!(has_git_component("sub/.git/HEAD"));
    assert!(!has_git_component(".gitignore"));
    assert!(!has_git_component("a.git/x"));
    assert!(!has_git_component("src/main.rs"));
}

#[test]
fn ascii_case_and_classes() {
    assert!(is_alphanumeric('a') && is_alphanumeric('Z') && is_alphanumeric('7'));
    assert!(!is_alphanumeric('_') && !is_alphanumeric(' '));
    assert_eq!(to_lowercase("Hello, World 42"), "hello, world 42");
}
