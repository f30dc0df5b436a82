use indexmap::IndexMap;
use shy::tui::{Effect, Key, Mode, SearchStatus, SelectionError, TUI};

fn table(pairs: &[(&str, &str)]) -> IndexMap<String, String> {
    let mut m = IndexMap::new();
    for (k, v) in pairs {
        m.insert(k.to_string(), v.to_string());
    }
    m
}

fn engine(names: &[&str], rows: u16) -> TUI {
    let pairs: Vec<(&str, &str)> = names.iter().map(|n| (*n, *n)).collect();
    TUI::new(table(&pairs), (80, rows))
}

fn press(app: &mut TUI, k: Key) -> Effect {
    app.update(Some(k)).expect("key should be handled")
}

#[test]
fn step_up_and_down_wrap_in_navigation() {
    let mut app = engine(&["a", "b", "c"], 10);
    assert_eq!(app.selected(), 0);
    press(&mut app, Key::Up);
    assert_eq!(app.selected(), 2);
    press(&mut app, Key::Down);
    assert_eq!(app.selected(), 0);
    press(&mut app, Key::Ctrl('n'));
    assert_eq!(app.selected(), 1);
    press(&mut app, Key::Ctrl('p'));
    assert_eq!(app.selected(), 0);
}

#[test]
fn search_selects_first_match_and_records_a_miss() {
    let mut app = engine(&["docker1", "docker2", "nas01"], 10);
    press(&mut app, Key::Char('/'));
    assert_eq!(app.mode, Mode::Search);
    press(&mut app, Key::Char('d'));
    press(&mut app, Key::Char('o'));
    assert_eq!(app.selected(), 0);
    assert_eq!(app.status(), SearchStatus::Found);
    press(&mut app, Key::Char('c'));
    assert_eq!(app.selected(), 0);
    assert_eq!(app.status(), SearchStatus::Found);
    press(&mut app, Key::Char('z'));
    assert_eq!(app.status(), SearchStatus::Missed);
    assert_eq!(app.selected(), 0);
    assert_eq!(app.input(), "docz");
}

#[test]
fn search_moves_to_a_later_match() {
    let mut app = engine(&["nas01", "web", "docker1"], 10);
    press(&mut app, Key::Char('s'));
    press(&mut app, Key::Char('D'));
    press(&mut app, Key::Char('k'));
    assert_eq!(app.selected(), 2);
    assert_eq!(app.status(), SearchStatus::Found);
}

#[test]
fn search_steps_between_matches_without_wrapping() {
    let mut app = engine(&["db1", "web", "db2", "db3"], 10);
    press(&mut app, Key::Char('i'));
    press(&mut app, Key::Char('d'));
    assert_eq!(app.selected(), 0);
    press(&mut app, Key::Down);
    assert_eq!(app.selected(), 2);
    press(&mut app, Key::Down);
    assert_eq!(app.selected(), 3);
    press(&mut app, Key::Down);
    assert_eq!(app.selected(), 3);
    press(&mut app, Key::Up);
    assert_eq!(app.selected(), 2);
    press(&mut app, Key::Up);
    assert_eq!(app.selected(), 0);
    press(&mut app, Key::Up);
    assert_eq!(app.selected(), 0);
}

#[test]
fn enter_launches_the_first_host_at_startup() {
    let hosts = table(&[("web", "10.0.0.1"), ("db", "10.0.0.2"), ("nas", "10.0.0.3")]);
    let mut app = TUI::new(hosts, (80, 10));
    press(&mut app, Key::Char('\n'));
    assert_eq!(app.mode, Mode::Launch("10.0.0.1".to_string()));
}

#[test]
fn enter_after_a_miss_does_nothing() {
    let mut app = engine(&["web"], 10);
    press(&mut app, Key::Char('f'));
    press(&mut app, Key::Char('x'));
    assert_eq!(app.status(), SearchStatus::Missed);
    press(&mut app, Key::Char('\n'));
    assert_eq!(app.mode, Mode::Search);
}

#[test]
fn enter_on_empty_table_is_an_error() {
    let mut app = engine(&[], 10);
    assert_eq!(app.update(Some(Key::Char('\n'))), Err(SelectionError::NoHostAtIndex(0)));
    assert_eq!(app.mode, Mode::Nav);
}

#[test]
fn quit_keys() {
    let mut app = engine(&["a"], 10);
    press(&mut app, Key::Char('q'));
    assert_eq!(app.mode, Mode::Quit);
    let mut app = engine(&["a"], 10);
    press(&mut app, Key::Esc);
    assert_eq!(app.mode, Mode::Quit);
    let mut app = engine(&["a"], 10);
    press(&mut app, Key::Ctrl('c'));
    assert_eq!(app.mode, Mode::Quit);
}

#[test]
fn escape_in_search_clears_then_leaves() {
    let mut app = engine(&["web"], 10);
    press(&mut app, Key::Char('/'));
    press(&mut app, Key::Char('w'));
    press(&mut app, Key::Esc);
    assert_eq!(app.mode, Mode::Search);
    assert_eq!(app.input(), "");
    assert_eq!(app.status(), SearchStatus::Blank);
    press(&mut app, Key::Esc);
    assert_eq!(app.mode, Mode::Nav);
}

#[test]
fn backspace_searches_again_or_blanks() {
    let mut app = engine(&["alpha", "beta"], 10);
    press(&mut app, Key::Char('/'));
    press(&mut app, Key::Char('b'));
    press(&mut app, Key::Char('x'));
    assert_eq!(app.status(), SearchStatus::Missed);
    assert_eq!(app.selected(), 1);
    press(&mut app, Key::Backspace);
    assert_eq!(app.input(), "b");
    assert_eq!(app.status(), SearchStatus::Found);
    assert_eq!(app.selected(), 1);
    press(&mut app, Key::Backspace);
    assert_eq!(app.input(), "");
    assert_eq!(app.status(), SearchStatus::Blank);
    assert_eq!(app.selected(), 1);
}

#[test]
fn typed_space_and_dash_go_to_the_input_in_search() {
    let mut app = engine(&["a b", "c-d"], 10);
    press(&mut app, Key::Char('/'));
    press(&mut app, Key::Char('-'));
    assert_eq!(app.input(), "-");
    assert_eq!(app.selected(), 1);
}

#[test]
fn paging_clamps() {
    let names: Vec<String> = (0..12).map(|i| format!("h{}", i)).collect();
    let refs: Vec<&str> = names.iter().map(|s| s.as_str()).collect();
    let mut app = engine(&refs, 6);
    press(&mut app, Key::PageDown);
    assert_eq!(app.selected(), 5);
    press(&mut app, Key::Char(' '));
    assert_eq!(app.selected(), 10);
    press(&mut app, Key::PageDown);
    assert_eq!(app.selected(), 11);
    press(&mut app, Key::PageUp);
    assert_eq!(app.selected(), 6);
    press(&mut app, Key::Char('-'));
    assert_eq!(app.selected(), 1);
    press(&mut app, Key::PageUp);
    assert_eq!(app.selected(), 0);
}

#[test]
fn selection_scrolls_into_view() {
    let names: Vec<String> = (0..20).map(|i| format!("h{}", i)).collect();
    let refs: Vec<&str> = names.iter().map(|s| s.as_str()).collect();
    let mut app = engine(&refs, 5);
    // Four rows for hosts, one for the prompt.
    app.select(10);
    assert_eq!(app.offset(), 7);
    assert!(app.is_visible(10));
    app.select(3);
    assert_eq!(app.offset(), 3);
    assert!(app.is_visible(3));
    app.select(0);
    assert_eq!(app.offset(), 0);
    assert_eq!(app.visible_range(), (0, 4));
    press(&mut app, Key::Up);
    assert_eq!(app.selected(), 19);
    assert!(app.is_visible(19));
    assert_eq!(app.visible_range(), (16, 20));
}

#[test]
fn every_selection_is_visible_for_small_terminals() {
    let names: Vec<String> = (0..9).map(|i| format!("h{}", i)).collect();
    let refs: Vec<&str> = names.iter().map(|s| s.as_str()).collect();
    for rows in 2..6u16 {
        let mut app = engine(&refs, rows);
        for i in [8usize, 0, 4, 7, 1, 5] {
            app.select(i);
            assert!(app.is_visible(i), "rows {} index {}", rows, i);
        }
    }
}

#[test]
fn refresh_asks_for_the_size_and_resize_resets_offset() {
    let names: Vec<String> = (0..8).map(|i| format!("h{}", i)).collect();
    let refs: Vec<&str> = names.iter().map(|s| s.as_str()).collect();
    let mut app = engine(&refs, 4);
    app.select(7);
    assert_eq!(app.offset(), 5);
    assert_eq!(press(&mut app, Key::F(5)), Effect::MeasureTerminal);
    assert_eq!(press(&mut app, Key::Char('r')), Effect::MeasureTerminal);
    app.resize((80, 9));
    assert_eq!(app.size(), (80, 9));
    assert_eq!(app.offset(), 0);
    app.resize((80, 3));
    assert!(app.is_visible(7));
}

#[test]
fn highlight_marks_matched_letters() {
    let mut app = engine(&["docker1"], 10);
    assert!(app.highlight_matches().is_empty());
    press(&mut app, Key::Char('/'));
    press(&mut app, Key::Char('d'));
    press(&mut app, Key::Char('k'));
    let marks: Vec<bool> = app.highlight_matches().iter().map(|p| p.1).collect();
    assert_eq!(marks, vec![true, false, false, true, false, false, false]);
    press(&mut app, Key::Char('q'));
    assert_eq!(app.status(), SearchStatus::Missed);
    assert_eq!(app.highlight_matches(), vec![('d', false), ('k', false), ('q', false)]);
}

#[test]
fn selected_names() {
    let app = TUI::new(table(&[("web", "10.0.0.1")]), (80, 10));
    assert_eq!(app.selected_name(), "web");
    assert_eq!(app.selected_hostname(), "10.0.0.1");
    let empty = engine(&[], 10);
    assert_eq!(empty.selected_name(), "shy");
    assert_eq!(empty.selected_hostname(), "shy");
}

#[test]
fn nothing_happens_without_a_key() {
    let mut app = engine(&["a", "b"], 10);
    assert_eq!(app.update(None), Ok(Effect::Continue));
    assert_eq!(app.selected(), 0);
    assert_eq!(app.mode, Mode::Nav);
}

#[test]
fn resize_notice_is_handled_in_search() {
    let mut app = engine(&["a", "b"], 10);
    press(&mut app, Key::Char('/'));
    assert_eq!(press(&mut app, Key::F(5)), Effect::MeasureTerminal);
    assert_eq!(press(&mut app, Key::Char('r')), Effect::Continue);
    assert_eq!(app.input(), "r");
    assert_eq!(app.mode(), &Mode::Search);
}
