use dnet_tui::input::{is_arrow, is_spurious_esc, KeyCode, KeyPress};
use dnet_tui::menu::{handle_menu_input as handle_compact, MenuCommand};
use dnet_tui::views::menu::{
    centered_start, entry_style, handle_menu_input, health_check_due, models_fetch_due,
    topology_check_due, EntryStyle, MenuAction, MenuItem, MenuState,
};

fn key(code: KeyCode) -> KeyPress {
    KeyPress { code, ctrl: false }
}

#[test]
fn menu_cursor_stops_at_the_ends() {
    let mut st = MenuState::new();
    handle_menu_input(&mut st, key(KeyCode::Up), false, false, false);
    assert_eq!(st.selection_idx, 0);
    for _ in 0..20 {
        handle_menu_input(&mut st, key(KeyCode::Down), false, false, false);
    }
    assert_eq!(st.selection_idx, 7);
    assert_eq!(handle_menu_input(&mut st, key(KeyCode::Enter), false, false, false), MenuAction::Quit);
    assert_eq!(handle_menu_input(&mut st, key(KeyCode::Esc), false, false, false), MenuAction::Quit);
}

#[test]
fn disabled_entries_do_nothing() {
    let mut st = MenuState::new();
    // chat without a model
    assert_eq!(handle_menu_input(&mut st, key(KeyCode::Enter), false, false, true), MenuAction::Stay);
    assert!(MenuItem::Chat.is_disabled(false, false, true));
    assert_eq!(handle_menu_input(&mut st, key(KeyCode::Enter), true, true, true), MenuAction::OpenChat);
    assert!(!MenuItem::Chat.is_disabled(true, true, true));
    // load model when a model is loaded
    st.selection_idx = 3;
    assert_eq!(handle_menu_input(&mut st, key(KeyCode::Enter), true, true, true), MenuAction::Stay);
    assert_eq!(handle_menu_input(&mut st, key(KeyCode::Enter), false, true, true), MenuAction::OpenLoadModel);
}

#[test]
fn menu_text() {
    assert_eq!(MenuItem::all().len(), 8);
    assert_eq!(MenuItem::total_height(), 8);
    assert_eq!(MenuItem::Chat.label(), "Chat");
    assert_eq!(MenuItem::Chat.description(false, false, true), "Chat (no model loaded)");
    assert!(MenuItem::Chat.fmt(false, false, true).starts_with("Chat"));
    assert!(MenuItem::Chat.fmt(false, false, true).ends_with(": Chat (no model loaded)"));
    let w = MenuItem::total_width(false, false, true) as usize;
    for item in MenuItem::all() {
        assert!(item.fmt(false, false, true).chars().count() <= w);
    }
}

#[test]
fn menu_polling_and_layout() {
    assert!(health_check_due(false, 1));
    assert!(!health_check_due(false, 0));
    assert!(!health_check_due(true, 9));
    assert!(models_fetch_due(true, false));
    assert!(!models_fetch_due(true, true));
    assert!(topology_check_due(true, 3));
    assert!(!topology_check_due(true, 2));
    assert_eq!(entry_style(true, true), EntryStyle::SelectedDisabled);
    assert_eq!(entry_style(false, false), EntryStyle::Available);
    assert_eq!(centered_start(20, 8), 6);
    assert_eq!(centered_start(5, 8), 0);
}

#[test]
fn compact_menu() {
    let mut sel = 0usize;
    assert_eq!(handle_compact(&mut sel, key(KeyCode::Enter), false), MenuCommand::Stay);
    assert_eq!(handle_compact(&mut sel, key(KeyCode::Enter), true), MenuCommand::Open(dnet_tui::menu::MenuItem::Chat));
    assert_eq!(handle_compact(&mut sel, key(KeyCode::Char('q')), true), MenuCommand::Quit);
    for _ in 0..10 {
        handle_compact(&mut sel, key(KeyCode::Down), true);
    }
    assert_eq!(sel, 6);
    assert_eq!(handle_compact(&mut sel, key(KeyCode::Enter), true), MenuCommand::Quit);
    assert_eq!(dnet_tui::menu::MenuItem::all().len(), 7);
}

#[test]
fn esc_right_after_an_arrow_is_dropped() {
    assert!(is_arrow(KeyCode::Left));
    assert!(!is_arrow(KeyCode::Esc));
    assert!(is_spurious_esc(KeyCode::Esc, 10_000_000));
    assert!(!is_spurious_esc(KeyCode::Esc, 50_000_000));
    assert!(!is_spurious_esc(KeyCode::Enter, 0));
}

#[test]
fn description_has_note_exactly_when_disabled() {
    for item in MenuItem::all() {
        for bits in 0..8u8 {
            let (m, t, a) = (bits & 1 != 0, bits & 2 != 0, bits & 4 != 0);
            assert_eq!(item.description(m, t, a).contains('('), item.is_disabled(m, t, a));
        }
    }
}

#[test]
fn menu_labels_are_distinct_and_fit_fifteen_columns() {
    let items = MenuItem::all();
    for (i, a) in items.iter().enumerate() {
        assert!(a.label().len() <= 15);
        for b in items.iter().skip(i + 1) {
            assert_ne!(a.label(), b.label());
        }
    }
}
