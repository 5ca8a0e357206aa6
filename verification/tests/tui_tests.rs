use stream_cli::driver::blacklist::BlacklistEntry;
use stream_cli::driver::tui::{centered_rect, App, Area, Key, Mode, TuiAction};
use stream_cli::selection::{parse_selection, toggle_items};

fn entry(module: &str, category: &str, recommended: bool, blacklisted: bool) -> BlacklistEntry {
    BlacklistEntry {
        module: module.to_string(),
        size: 1024,
        used_count: 0,
        used_by: vec![],
        recommended,
        currently_blacklisted: blacklisted,
        category: category.to_string(),
        reason: String::new(),
    }
}

fn app() -> App {
    App::new(vec![
        entry("btusb", "Bluetooth", true, false),
        entry("vc4", "GPU/DRM", false, true),
        entry("hci-uart", "Bluetooth", true, false),
        entry("snd", "Audio", false, false),
    ])
}

#[test]
fn editor_starts_on_first_line() {
    let a = app();
    assert_eq!(a.selected, vec![false, true, false, false]);
    assert_eq!(a.cursor, Some(0));
    assert_eq!(a.mode, Mode::Select);
    assert_eq!(a.filtered_indices(), vec![0, 1, 2, 3]);
    assert_eq!(a.current_index(), Some(0));
    assert_eq!(a.count_selected(), 1);
}

#[test]
fn categories_sorted_once() {
    assert_eq!(app().categories(), vec!["Audio", "Bluetooth", "GPU/DRM"]);
}

#[test]
fn keys_move_and_toggle() {
    let mut a = app();
    assert_eq!(a.handle_key(Key::Down), TuiAction::Continue);
    assert_eq!(a.cursor, Some(1));
    a.handle_key(Key::Char(' '));
    assert_eq!(a.selected, vec![false, false, false, false]);
    a.handle_key(Key::Char(' '));
    assert_eq!(a.selected, vec![false, true, false, false]);
    a.handle_key(Key::Char('k'));
    a.handle_key(Key::Up);
    assert_eq!(a.cursor, None);
    a.handle_key(Key::Char(' '));
    assert_eq!(a.selected, vec![false, true, false, false]);
}

#[test]
fn cursor_leaves_the_bottom() {
    let mut a = app();
    a.handle_key(Key::Char('j'));
    a.handle_key(Key::Char('j'));
    a.handle_key(Key::Char('j'));
    assert_eq!(a.cursor, Some(3));
    a.handle_key(Key::Down);
    assert_eq!(a.cursor, None);
}

#[test]
fn bulk_selection_keys() {
    let mut a = app();
    a.handle_key(Key::Char('a'));
    assert_eq!(a.count_selected(), 4);
    a.handle_key(Key::Char('n'));
    assert_eq!(a.count_selected(), 0);
    a.handle_key(Key::Char('r'));
    assert_eq!(a.selected, vec![true, false, true, false]);
}

#[test]
fn category_keys_filter() {
    let mut a = app();
    a.handle_key(Key::Down);
    a.handle_key(Key::Char('3'));
    assert_eq!(a.category_filter.as_deref(), Some("Bluetooth"));
    assert_eq!(a.cursor, Some(0));
    assert_eq!(a.filtered_indices(), vec![0, 2]);
    a.handle_key(Key::Down);
    assert_eq!(a.current_index(), Some(2));
    a.handle_key(Key::Char('9'));
    assert_eq!(a.category_filter.as_deref(), Some("Bluetooth"));
    assert_eq!(a.cursor, Some(1));
    a.handle_key(Key::Char('1'));
    assert_eq!(a.category_filter, None);
    assert_eq!(a.cursor, Some(0));
}

#[test]
fn help_and_leaving() {
    let mut a = app();
    a.handle_key(Key::Char('h'));
    assert_eq!(a.mode, Mode::Help);
    assert_eq!(a.handle_key(Key::Char('a')), TuiAction::Continue);
    assert_eq!(a.count_selected(), 1);
    a.handle_key(Key::Esc);
    assert_eq!(a.mode, Mode::Select);
    assert_eq!(a.handle_key(Key::Enter), TuiAction::Apply);
    assert_eq!(a.handle_key(Key::Char('q')), TuiAction::Quit);
    assert_eq!(a.handle_key(Key::Other), TuiAction::Continue);
}

#[test]
fn help_window_area() {
    let r = centered_rect(50, 12, Area { x: 0, y: 0, width: 100, height: 40 });
    assert_eq!(r, Area { x: 25, y: 14, width: 50, height: 12 });
    let r = centered_rect(50, 12, Area { x: 0, y: 0, width: 200, height: 10 });
    assert_eq!(r, Area { x: 70, y: 0, width: 60, height: 12 });
}

#[test]
fn selection_ranges() {
    assert_eq!(parse_selection("1 3-4 9", 5).ok(), Some(vec![0, 2, 3]));
    assert_eq!(parse_selection("0 2-2", 5).ok(), Some(vec![1]));
    assert_eq!(parse_selection("4-9", 5).ok(), Some(vec![3, 4]));
    assert!(parse_selection("a-b", 5).is_err());
    assert_eq!(parse_selection("1-2-3 x", 5).ok(), Some(vec![]));
}

#[test]
fn toggling_twice_restores() {
    let mut sel = vec![true, false, false];
    toggle_items(&mut sel, &vec![0, 2, 2]);
    assert_eq!(sel, vec![false, false, false]);
    toggle_items(&mut sel, &vec![0, 2, 2]);
    assert_eq!(sel, vec![true, false, false]);
}

#[test]
fn selection_refused_for_single_dash_with_bad_side() {
    assert!(parse_selection("1 a-3", 5).is_err());
    assert!(parse_selection("-3", 5).is_err());
    assert!(parse_selection("3-", 5).is_err());
    assert!(parse_selection("2 3-x 4", 5).is_err());
    // Two dashes, or none: ignored, not refused.
    assert_eq!(parse_selection("-3-", 5).ok(), Some(vec![]));
    assert_eq!(parse_selection("abc 2", 5).ok(), Some(vec![1]));
}
