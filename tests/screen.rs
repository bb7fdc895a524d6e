use modal_term::keys::{Binding, KeyCode, Mode, Modifiers};
use modal_term::layout::{Point, Render, WindowType};
use modal_term::screen::{color_line, footer_line, App, Color, ScreenError, Sign, UIE};

fn keymap() -> Vec<Binding> {
    vec![Binding {
        mode: Mode::Normal,
        modifiers: Modifiers { bits: 0 },
        keys: vec![KeyCode::Char('y'), KeyCode::Char('y')],
        command: "yank".to_string(),
    }]
}

fn row_text(a: &App, i: usize) -> String {
    a.row(i).iter().map(|s| s.glyph.clone()).collect()
}

#[test]
fn bands_for_terminal_height() {
    let r = Render::new((80, 24));
    assert_eq!(r.windows.len(), 3);
    assert_eq!((r.windows[0].top_left, r.windows[0].bottom_right), (Point { x: 0, y: 0 }, Point { x: 80, y: 0 }));
    assert_eq!((r.windows[1].top_left, r.windows[1].bottom_right), (Point { x: 0, y: 1 }, Point { x: 80, y: 22 }));
    assert_eq!((r.windows[2].top_left, r.windows[2].bottom_right), (Point { x: 0, y: 23 }, Point { x: 80, y: 23 }));
    let r = Render::new((5, 3));
    assert_eq!(r.windows[1].top_left.y, 1);
    assert_eq!(r.windows[1].bottom_right.y, 1);
    assert_eq!(r.windows[2].top_left.y, 2);
    assert_eq!(r.window(WindowType::Footer).name, "Footer");
}

#[test]
fn too_small_terminal_is_refused() {
    assert_eq!(App::new(keymap(), (80, 2)).err(), Some(ScreenError::TooSmall));
}

#[test]
fn first_pass_draws_only_the_footer() {
    let mut a = App::new(keymap(), (40, 5)).unwrap();
    assert!(a.dirty_rows().is_empty());
    let f = a.draw().unwrap();
    assert_eq!(f.rows, vec![4]);
    assert_eq!(f.cursor, (0, 0));
    let footer = row_text(&a, 4);
    assert_eq!(footer, format!(" NORMAL  Text {} %lang  0:0 ", " ".repeat(14)));
    assert_eq!(a.row(4).len(), 40);
    assert_eq!(row_text(&a, 2), " ".repeat(40));
}

#[test]
fn footer_colors_from_both_ends() {
    let mut a = App::new(keymap(), (40, 5)).unwrap();
    a.draw().unwrap();
    let r = a.row(4);
    assert_eq!((r[0].fg_color, r[0].bg_color), (Color::Magenta, Color::Black));
    assert_eq!((r[1].fg_color, r[1].bg_color), (Color::Black, Color::Magenta));
    assert_eq!((r[9].fg_color, r[9].bg_color), (Color::Magenta, Color::Black));
    assert_eq!((r[19].fg_color, r[19].bg_color), (Color::Black, Color::Reset));
    assert_eq!((r[22].fg_color, r[22].bg_color), (Color::White, Color::Reset));
    assert_eq!((r[25].fg_color, r[25].bg_color), (Color::Black, Color::Reset));
    assert_eq!((r[26].fg_color, r[26].bg_color), (Color::Red, Color::Black));
    assert_eq!((r[34].fg_color, r[34].bg_color), (Color::Black, Color::Red));
    assert_eq!((r[39].fg_color, r[39].bg_color), (Color::Red, Color::Black));
}

#[test]
fn footer_counts_grapheme_clusters() {
    let mut a = App::new(keymap(), (40, 5)).unwrap();
    a.set_document_name("e\u{301}x".to_string());
    a.set_cursor(7, 12);
    a.draw().unwrap();
    let r = a.row(4);
    assert_eq!(r.len(), 40);
    assert_eq!(r[9].glyph, "e\u{301}");
    assert_eq!(r[10].glyph, "x");
    assert_eq!(row_text(&a, 4), format!(" NORMAL  e\u{301}x {} %lang  12:7 ", " ".repeat(15)));
}

#[test]
fn footer_fills_any_width() {
    for w in [26u16, 27, 100, 1000] {
        let mut a = App::new(keymap(), (w, 4)).unwrap();
        a.draw().unwrap();
        assert_eq!(a.row(3).len(), w as usize);
    }
}

#[test]
fn footer_too_narrow_fails_and_changes_nothing() {
    let mut a = App::new(keymap(), (25, 4)).unwrap();
    assert_eq!(a.draw().err(), Some(ScreenError::FooterTooNarrow { width: 25 }));
    assert!(a.dirty_rows().is_empty());
    assert_eq!(a.render(WindowType::Footer), Err(ScreenError::FooterTooNarrow { width: 25 }));
    assert_eq!(a.render(WindowType::Header), Ok(()));
}

#[test]
fn second_pass_only_moves_cursor() {
    let mut a = App::new(keymap(), (40, 5)).unwrap();
    a.draw().unwrap();
    let f = a.draw().unwrap();
    assert!(f.rows.is_empty());
    assert_eq!(f.cursor, (0, 0));
}

#[test]
fn set_row_is_drawn_once() {
    let mut a = App::new(keymap(), (30, 5)).unwrap();
    a.draw().unwrap();
    let cells: Vec<Sign> = (0..30).map(|i| Sign::new(if i == 0 { "h".to_string() } else { " ".to_string() })).collect();
    a.set_row(2, cells);
    let cells: Vec<Sign> = (0..30).map(|_| Sign::new("z".to_string())).collect();
    a.set_row(2, cells);
    assert_eq!(a.dirty_rows(), vec![2]);
    let f = a.draw().unwrap();
    assert_eq!(f.rows, vec![2]);
    assert_eq!(row_text(&a, 2), "z".repeat(30));
    assert!(a.draw().unwrap().rows.is_empty());
}

#[test]
fn cursor_and_mode_redraw_the_footer() {
    let mut a = App::new(keymap(), (40, 5)).unwrap();
    a.draw().unwrap();
    a.set_cursor(3, 1);
    assert_eq!(a.cursor(), (3, 1));
    let f = a.draw().unwrap();
    assert_eq!(f.rows, vec![4]);
    assert_eq!(f.cursor, (3, 1));
    assert!(row_text(&a, 4).ends_with(" %lang  1:3 "));
    a.set_mode(Mode::Insert);
    assert_eq!(a.mode(), Mode::Insert);
    assert_eq!(a.draw().unwrap().rows, vec![4]);
    assert!(row_text(&a, 4).starts_with(" INSERT  Text "));
}

#[test]
fn app_dispatches_keys() {
    let mut a = App::new(keymap(), (40, 5)).unwrap();
    assert_eq!(a.process(KeyCode::Char('y'), Modifiers { bits: 0 }, 0), None);
    assert_eq!(a.process(KeyCode::Char('y'), Modifiers { bits: 0 }, 10), Some("yank".to_string()));
}

#[test]
fn resize_repaints_all() {
    let mut a = App::new(keymap(), (40, 5)).unwrap();
    a.set_document_name("notes.txt".to_string());
    a.draw().unwrap();
    assert_eq!(a.resize(50, 2), Err(ScreenError::TooSmall));
    assert_eq!(a.size(), (40, 5));
    a.resize(50, 6).unwrap();
    assert_eq!(a.size(), (50, 6));
    let f = a.draw().unwrap();
    assert_eq!(f.rows, vec![0, 1, 2, 3, 4, 5]);
    assert!(row_text(&a, 5).starts_with(" NORMAL  notes.txt "));
    assert_eq!(a.row(5).len(), 50);
}

#[test]
fn text_region_on_screen() {
    let a = App::new(keymap(), (40, 5)).unwrap();
    assert_eq!(a.all_buffer(), UIE::Buffer(0, 1, 4));
}

#[test]
fn color_codes_apply_and_skip() {
    let mut v: Vec<Sign> = (0..3).map(|_| Sign::new("a".to_string())).collect();
    color_line(&mut v, ["azb", "", "c", "0"]);
    assert_eq!(v[0].fg_color, Color::Red);
    assert_eq!(v[1].fg_color, Color::White);
    assert_eq!(v[2].fg_color, Color::Yellow);
    assert_eq!(v[2].bg_color, Color::Reset);
    let mut short: Vec<Sign> = vec![Sign::new("q".to_string())];
    color_line(&mut short, ["dd", "ee", "ff", "a0"]);
    assert_eq!((short[0].fg_color, short[0].bg_color), (Color::Black, Color::Reset));
}

#[test]
fn footer_line_lays_out_clusters() {
    let l = vec!["a".to_string(), "b".to_string()];
    let r = vec!["c".to_string()];
    let row = footer_line(&l, &r, 5).unwrap();
    let text: Vec<String> = row.iter().map(|s| s.glyph.clone()).collect();
    assert_eq!(text, vec!["a", "b", " ", " ", "c"]);
    assert_eq!((row[0].fg_color, row[0].bg_color), (Color::Black, Color::Red));
    assert_eq!((row[4].fg_color, row[4].bg_color), (Color::Red, Color::Black));
    assert!(footer_line(&l, &r, 2).is_none());
    let exact = footer_line(&l, &r, 3).unwrap();
    assert_eq!(exact.len(), 3);
    assert_eq!(exact[2].glyph, "c");
}

#[test]
fn windows_of_the_screen() {
    let mut a = App::new(keymap(), (40, 6)).unwrap();
    a.set_document_name("main.rs".to_string());
    assert_eq!(a.window(WindowType::Text).name, "main.rs");
    assert_eq!(a.window(WindowType::Text).bottom_right, Point { x: 40, y: 4 });
    assert_eq!(a.window(WindowType::Footer).top_left, Point { x: 0, y: 5 });
    assert_eq!(a.window(WindowType::Header).bottom_right, Point { x: 40, y: 0 });
}

#[test]
fn several_dirty_rows_ascend() {
    let mut a = App::new(keymap(), (30, 6)).unwrap();
    a.set_row(3, (0..30).map(|_| Sign::new("a".to_string())).collect());
    a.set_row(1, (0..30).map(|_| Sign::new("b".to_string())).collect());
    assert_eq!(a.dirty_rows(), vec![1, 3]);
    assert_eq!(a.draw().unwrap().rows, vec![1, 3, 5]);
}
