use medit::buffer::Buffer;
use medit::lsp::diagnostics::DiagnosticStore;
use medit::picker::Picker;
use medit::search::SearchState;
use medit::syntax::StyledSegment;
use medit::view::{
    digit_count, editor_y, gutter_width, pad, search_color, text_height, visual_col, Color, Draw,
    OverlayInfo, RenderInfo, Viewport,
};

fn lines(n: usize) -> String {
    let mut s = String::new();
    for i in 0..n {
        if i > 0 {
            s.push('\n');
        }
        s.push_str("line");
    }
    s
}

#[test]
fn pad_cuts_and_fills() {
    assert_eq!(pad("abc", 5), "abc  ");
    assert_eq!(pad("abcdef", 3), "abc");
    assert_eq!(pad("é", 2), "é ");
    assert_eq!(pad("", 0), "");
}

#[test]
fn layout_numbers() {
    assert_eq!(text_height(24), 22);
    assert_eq!(text_height(1), 0);
    assert_eq!(editor_y(0), 1);
    assert_eq!(editor_y(9), 10);
    assert_eq!(visual_col("a\tb"), 6);
    assert_eq!(digit_count(0), 1);
    assert_eq!(digit_count(1000), 4);
    assert_eq!(gutter_width(&Buffer::empty(None)), 4);
    assert_eq!(gutter_width(&Buffer::open("a".into(), &lines(100))), 6);
}

#[test]
fn viewport_follows_the_cursor() {
    let mut b = Buffer::open("a.txt".into(), &lines(100));
    let mut v = Viewport::new();
    b.set_cursor(b.line_start(50), false);
    v.ensure_cursor_visible(&b, 24, 80);
    assert_eq!(v.first_line(), 29);
    v.ensure_cursor_visible(&b, 24, 80);
    assert_eq!(v.first_line(), 29);
    b.set_cursor(b.line_start(10), false);
    v.ensure_cursor_visible(&b, 24, 80);
    assert_eq!(v.first_line(), 10);
    assert_eq!(v.first_col(), 0);
}

#[test]
fn preferred_column_is_remembered_until_cleared() {
    let mut b = Buffer::open("a.txt".into(), "abcdef\nxy");
    b.set_cursor(4, false);
    let mut v = Viewport::new();
    assert_eq!(v.take_preferred_col(&b), 4);
    b.set_cursor(0, false);
    assert_eq!(v.take_preferred_col(&b), 4);
    v.clear_preferred_col();
    assert_eq!(v.take_preferred_col(&b), 0);
}

#[test]
fn render_draws_a_frame() {
    let mut b = Buffer::empty(None);
    b.insert_str("hi");
    let search = SearchState::default();
    let diags = DiagnosticStore::default();
    let hl = vec![vec![StyledSegment { text: "hi".to_string(), fg: None }]];
    let info = RenderInfo {
        buffer: &b,
        search: &search,
        theme_name: "base16-ocean.dark",
        diagnostics: &diags,
        overlay: OverlayInfo::Nothing,
        status_message: "",
        lsp_status: "LSP:off",
        highlighted: &hl,
    };
    let mut v = Viewport::new();
    let (draws, ok) = v.render(&info, 80, 24);
    assert!(ok);
    assert!(matches!(draws[0], Draw::BeginSync));
    assert!(matches!(draws[1], Draw::Hide));
    assert!(matches!(draws[3], Draw::ClearAll));
    let n = draws.len();
    assert!(matches!(draws[n - 1], Draw::EndSync));
    assert!(matches!(draws[n - 2], Draw::Show));
    assert!(matches!(draws[n - 3], Draw::MoveTo(6, 1)));
    assert!(draws
        .windows(2)
        .any(|w| matches!(&w[0], Draw::MoveTo(4, 1)) && matches!(&w[1], Draw::Print(s) if s == "h")));
    assert!(draws
        .windows(2)
        .any(|w| matches!(&w[0], Draw::MoveTo(5, 1)) && matches!(&w[1], Draw::Print(s) if s == "i")));
    // The fill is counted in bytes, the padding in characters.
    let left = " ● [No Name]  Plain Text  Ln 1, Col 3  LSP:off ";
    let right = "theme: base16-ocean.dark ";
    let mut status = format!("{}{}{}", left, " ".repeat(80 - left.len() - right.len()), right);
    while status.chars().count() < 80 {
        status.push(' ');
    }
    assert!(draws.iter().any(|d| matches!(d, Draw::Print(s) if *s == status)));
}

#[test]
fn render_refuses_a_picker_on_a_narrow_terminal() {
    let b = Buffer::empty(None);
    let search = SearchState::default();
    let diags = DiagnosticStore::default();
    let picker = Picker::new("/p".to_string(), vec!["a.rs".to_string()]);
    let hl: Vec<Vec<StyledSegment>> = Vec::new();
    let info = RenderInfo {
        buffer: &b,
        search: &search,
        theme_name: "t",
        diagnostics: &diags,
        overlay: OverlayInfo::Picker(&picker),
        status_message: "",
        lsp_status: "LSP:off",
        highlighted: &hl,
    };
    let mut v = Viewport::new();
    assert!(!v.render(&info, 20, 24).1);
    assert!(v.render(&info, 80, 24).1);
}

#[test]
fn search_matches_are_coloured() {
    let mut b = Buffer::empty(None);
    b.insert_str("ab ab");
    b.set_cursor(0, false);
    let mut s = SearchState::default();
    assert!(s.open(&b));
    assert!(s.push('a', &b));
    assert!(s.push('b', &b));
    assert_eq!(search_color(&s, 0), Some(Color::Yellow));
    assert_eq!(search_color(&s, 3), Some(Color::DarkYellow));
    assert_eq!(search_color(&s, 2), None);
}
