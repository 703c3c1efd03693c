use terminal_menu::{
    back_button, button, label, list, menu, numeric, scroll, string, submenu, Decimal, Event, ItemKind, Key, MenuError,
    RenderMode, Session, TerminalMenuStruct,
};

fn d(x: f64) -> Decimal {
    Decimal::from_units((x * 1_000_000.0).round() as i64)
}

fn key(s: &mut Session, k: Key) {
    s.handle_event(Event::Key(k));
}

fn run_keys(m: TerminalMenuStruct, keys: &[Key]) -> TerminalMenuStruct {
    let (mut s, _) = Session::start(m, 80, 24);
    for k in keys {
        key(&mut s, *k);
    }
    assert!(s.is_finished());
    s.into_menu()
}

#[test]
fn scroll_right_twice_then_exit() {
    let m = menu(vec![scroll("Color", vec!["Red", "Green", "Blue"]), button("Exit")]);
    let m = run_keys(m, &[Key::Right, Key::Right, Key::Down, Key::Enter]);
    assert_eq!(m.selection_value("Color"), Ok("Blue"));
    assert_eq!(m.selected_item_name(), "Exit");
    assert!(m.has_exited());
    assert!(!m.canceled());
}

#[test]
fn numeric_left_clamps_at_min() {
    let m = menu(vec![numeric("N", d(0.0), Some(d(0.5)), Some(d(-1.0)), Some(d(1.0))), button("Exit")]);
    let m = run_keys(m, &[Key::Left, Key::Left, Key::Left, Key::Down, Key::Enter]);
    assert_eq!(m.numeric_value("N"), Ok(d(-1.0)));
}

#[test]
fn numeric_right_clamps_at_max() {
    let m = menu(vec![numeric("N", d(0.0), Some(d(0.5)), Some(d(-1.0)), Some(d(1.0))), button("Exit")]);
    let mut keys = vec![Key::Right; 10];
    keys.push(Key::Down);
    keys.push(Key::Enter);
    let m = run_keys(m, &keys);
    assert_eq!(m.numeric_value("N"), Ok(d(1.0)));
}

#[test]
fn numeric_without_step_is_frozen() {
    let m = menu(vec![numeric("N", d(2.5), None, Some(d(0.0)), None), button("Exit")]);
    let (mut s, _) = Session::start(m, 80, 24);
    key(&mut s, Key::Right);
    key(&mut s, Key::Enter);
    assert!(s.editor.is_none());
    key(&mut s, Key::Down);
    key(&mut s, Key::Enter);
    let m = s.into_menu();
    assert_eq!(m.numeric_value("N"), Ok(d(2.5)));
}

#[test]
fn scroll_cycles_back_after_len_presses() {
    for to_right in [true, false] {
        let m = menu(vec![scroll("S", vec!["a", "b", "c"]), list("L", vec!["x", "y"]), button("Exit")]);
        let (mut s, _) = Session::start(m, 80, 24);
        let k = if to_right { Key::Right } else { Key::Left };
        for _ in 0..3 {
            key(&mut s, k);
        }
        key(&mut s, Key::Down);
        for _ in 0..2 {
            key(&mut s, k);
        }
        assert_eq!(s.current().selection_value("S"), Ok("a"));
        assert_eq!(s.current().selection_value("L"), Ok("x"));
    }
}

#[test]
fn letter_keys_steer_like_arrows() {
    let m = menu(vec![scroll("S", vec!["a", "b", "c"]), button("Exit")]);
    let m = run_keys(m, &[Key::Char('d'), Key::Char('a'), Key::Char('a'), Key::Char('s'), Key::Char(' ')]);
    assert_eq!(m.selection_value("S"), Ok("c"));
    assert_eq!(m.selected_item_name(), "Exit");
}

#[test]
fn up_and_down_skip_labels_and_wrap() {
    let m = menu(vec![label("title"), button("a"), label("sep"), button("b")]);
    assert_eq!(m.selected_item_index(), 1);
    let (mut s, _) = Session::start(m, 80, 24);
    key(&mut s, Key::Down);
    assert_eq!(s.current().selected_item_index(), 3);
    key(&mut s, Key::Down);
    assert_eq!(s.current().selected_item_index(), 1);
    key(&mut s, Key::Up);
    assert_eq!(s.current().selected_item_index(), 3);
    key(&mut s, Key::Char('w'));
    assert_eq!(s.current().selected_item_index(), 1);
}

#[test]
fn back_button_returns_to_parent_and_button_closes_all() {
    let m = menu(vec![
        label("top"),
        submenu("sub", vec![scroll("scr", vec!["Alice", "Bob"]), back_button("back")]),
        button("exit"),
    ]);
    let (mut s, _) = Session::start(m, 80, 24);
    assert_eq!(s.current().selected_item_index(), 1);
    key(&mut s, Key::Enter);
    assert_eq!(s.parents.len(), 1);
    assert!(!s.parents[0].menu.has_exited());
    key(&mut s, Key::Right);
    key(&mut s, Key::Down);
    key(&mut s, Key::Enter);
    assert_eq!(s.parents.len(), 0);
    assert!(!s.is_finished());
    assert!(!s.current().has_exited());
    assert!(s.current().is_active());
    assert_eq!(s.current().selected_item_index(), 1);
    assert_eq!(s.current().get_submenu("sub").unwrap().selection_value("scr"), Ok("Bob"));
    assert!(s.current().get_submenu("sub").unwrap().has_exited());
    key(&mut s, Key::Down);
    key(&mut s, Key::Enter);
    assert!(s.is_finished());
    let m = s.into_menu();
    assert!(m.has_exited());
    assert_eq!(m.selected_item_name(), "exit");
}

#[test]
fn button_in_submenu_closes_every_menu() {
    let m = menu(vec![
        submenu("outer", vec![submenu("inner", vec![button("deep"), back_button("back")]), back_button("back")]),
        button("exit"),
    ]);
    let (mut s, _) = Session::start(m, 80, 24);
    key(&mut s, Key::Enter);
    key(&mut s, Key::Enter);
    assert_eq!(s.parents.len(), 2);
    key(&mut s, Key::Enter);
    assert!(s.is_finished());
    let m = s.into_menu();
    assert!(m.has_exited());
    assert_eq!(m.selected_item_name(), "outer");
    let outer = m.get_submenu("outer").unwrap();
    assert!(outer.has_exited());
    let inner = outer.get_submenu("inner").unwrap();
    assert!(inner.has_exited());
    assert_eq!(inner.selected_item_name(), "deep");
}

#[test]
fn back_button_at_top_exits() {
    let m = run_keys(menu(vec![back_button("Exit")]), &[Key::Enter]);
    assert!(m.has_exited());
    assert_eq!(m.selected_item_name(), "Exit");
}

#[test]
fn value_list_picks_a_value() {
    let m = menu(vec![scroll("S", vec!["a", "b", "c"]), button("Exit")]);
    let (mut s, _) = Session::start(m, 80, 24);
    key(&mut s, Key::Enter);
    assert_eq!(s.parents.len(), 1);
    assert_eq!(s.current().selected_item_index(), 0);
    assert_eq!(s.current().items()[0].name(), "a");
    assert_eq!(s.current().selection_value("a"), Ok("(Selected)"));
    key(&mut s, Key::Down);
    key(&mut s, Key::Down);
    key(&mut s, Key::Enter);
    assert_eq!(s.parents.len(), 0);
    assert!(!s.is_finished());
    assert_eq!(s.current().selection_value("S"), Ok("c"));
    assert_eq!(s.current().selected_item_index(), 0);
}

#[test]
fn value_list_current_entry_keeps_value() {
    let m = menu(vec![list("L", vec!["a", "b"]), button("Exit")]);
    let (mut s, _) = Session::start(m, 80, 24);
    key(&mut s, Key::Right);
    key(&mut s, Key::Enter);
    assert_eq!(s.current().selected_item_index(), 1);
    key(&mut s, Key::Enter);
    assert_eq!(s.parents.len(), 0);
    assert_eq!(s.current().selection_value("L"), Ok("b"));
    key(&mut s, Key::Enter);
    key(&mut s, Key::Esc);
    assert_eq!(s.parents.len(), 0);
    assert!(!s.is_finished());
    assert_eq!(s.current().selection_value("L"), Ok("b"));
}

#[test]
fn cancel_marks_menu_canceled() {
    let m = run_keys(menu(vec![label("press q"), button("button")]), &[Key::Char('q')]);
    assert!(m.canceled());
    assert!(m.has_exited());
    let m = run_keys(menu(vec![button("button")]), &[Key::Esc]);
    assert!(m.canceled());
    let m = run_keys(menu(vec![button("button")]), &[Key::Enter]);
    assert!(!m.canceled());
}

#[test]
fn number_editor_stores_typed_value() {
    let m = menu(vec![numeric("N", d(0.0), Some(d(0.5)), Some(d(-5.0)), Some(d(10.0))), button("Exit")]);
    let (mut s, _) = Session::start(m, 80, 24);
    let ops = s.handle_event(Event::Key(Key::Enter));
    assert!(s.editor.is_some());
    assert!(ops.contains(&terminal_menu::TermOp::Print("[-5, -4.5, .., 10] ".to_string())));
    for c in ['2', 'x', '.', '.', '5'] {
        key(&mut s, Key::Char(c));
    }
    assert_eq!(s.editor.as_ref().unwrap().input, vec!['2', '.', '5']);
    key(&mut s, Key::Enter);
    assert!(s.editor.is_none());
    assert_eq!(s.current().numeric_value("N"), Ok(d(2.5)));
}

#[test]
fn number_editor_refuses_bad_input() {
    let m = menu(vec![numeric("N", d(1.0), Some(d(0.5)), Some(d(0.0)), Some(d(2.0))), button("Exit")]);
    let (mut s, _) = Session::start(m, 80, 24);
    key(&mut s, Key::Enter);
    for c in ['-', '-', '1'] {
        key(&mut s, Key::Char(c));
    }
    assert_eq!(s.editor.as_ref().unwrap().input, vec!['-', '1']);
    key(&mut s, Key::Enter);
    assert!(s.editor.as_ref().unwrap().input.is_empty());
    assert_eq!(s.current().numeric_value("N"), Ok(d(1.0)));
    for c in ['0', '.', '7'] {
        key(&mut s, Key::Char(c));
    }
    key(&mut s, Key::Enter);
    assert!(s.editor.is_some());
    key(&mut s, Key::Char('-'));
    key(&mut s, Key::Enter);
    assert!(s.editor.is_some());
    key(&mut s, Key::Backspace);
    key(&mut s, Key::Enter);
    assert!(s.editor.is_none());
    assert_eq!(s.current().numeric_value("N"), Ok(d(1.0)));
}

#[test]
fn viewport_follows_highlight() {
    let items = (0..50).map(|n| button(&format!("{}", n))).collect();
    let (mut s, _) = Session::start(menu(items), 80, 20);
    match s.current().mode {
        RenderMode::Altscreen { topmost, .. } => assert_eq!(topmost, 0),
        _ => panic!("expected the alternate screen"),
    }
    for _ in 0..40 {
        key(&mut s, Key::Down);
        if let RenderMode::Altscreen { topmost, .. } = s.current().mode {
            let row = 1 + s.current().selected_item_index() - topmost;
            assert!(row >= 1 && row <= 18);
        }
    }
    assert_eq!(s.current().selected_item_index(), 40);
    match s.current().mode {
        RenderMode::Altscreen { topmost, .. } => {
            assert_eq!(topmost, 24);
            assert!(1 + 40 - topmost >= 1 && 1 + 40 - topmost <= 18);
        },
        _ => panic!("expected the alternate screen"),
    }
}

#[test]
fn resize_switches_between_modes() {
    let items = (0..10).map(|n| button(&format!("{}", n))).collect();
    let (mut s, _) = Session::start(menu(items), 80, 24);
    assert_eq!(s.current().mode, RenderMode::Normal);
    s.handle_event(Event::Resize(80, 6));
    assert!(matches!(s.current().mode, RenderMode::Altscreen { .. }));
    s.handle_event(Event::Resize(80, 40));
    assert_eq!(s.current().mode, RenderMode::Normal);
}

#[test]
fn round_trip_of_set_values() {
    let mut m = menu(vec![
        scroll("S", vec!["a", "b", "c"]),
        list("L", vec!["x", "y"]),
        string("T", "", true),
        numeric("N", d(0.0), Some(d(0.25)), Some(d(-1.0)), Some(d(1.0))),
        button("Exit"),
    ]);
    assert_eq!(m.set_selection_index("S", 2), Ok(()));
    assert_eq!(m.set_selection_index("L", 1), Ok(()));
    assert_eq!(m.set_string_value("T", "hello"), Ok(()));
    assert_eq!(m.set_numeric_value("N", d(0.75)), Ok(()));
    let m = run_keys(m, &[Key::Down, Key::Down, Key::Up, Key::Down, Key::Down, Key::Down, Key::Enter]);
    assert_eq!(m.selection_value("S"), Ok("c"));
    assert_eq!(m.selection_value("L"), Ok("y"));
    assert_eq!(m.selection_value("T"), Ok("hello"));
    assert_eq!(m.numeric_value("N"), Ok(d(0.75)));
}

#[test]
fn lookups_report_errors() {
    let mut m = menu(vec![
        label("title"),
        scroll("S", vec!["a"]),
        numeric("N", d(0.0), None, None, None),
        string("T", "t", false),
        submenu("Sub", vec![button("b")]),
    ]);
    assert_eq!(m.selection_value("missing"), Err(MenuError::NotFound));
    assert_eq!(m.selection_value("N"), Err(MenuError::WrongKind));
    assert_eq!(m.numeric_value("S"), Err(MenuError::WrongKind));
    assert!(matches!(m.get_submenu("S"), Err(MenuError::WrongKind)));
    assert_eq!(m.get_submenu("Sub").unwrap().selected_item_name(), "b");
    assert_eq!(m.set_selected_item_with_index(9), Err(MenuError::IndexOutOfRange));
    assert_eq!(m.set_selected_item_with_index(0), Err(MenuError::NotSelectable));
    assert_eq!(m.set_selected_item_with_name("nope"), Err(MenuError::NotFound));
    assert_eq!(m.set_selected_item_with_name("title"), Err(MenuError::NotSelectable));
    assert_eq!(m.set_selected_item_with_name("Sub"), Ok(()));
    assert_eq!(m.selected_item_index(), 4);
    assert_eq!(m.set_selection_index("S", 1), Err(MenuError::IndexOutOfRange));
    assert_eq!(m.set_numeric_value("T", d(1.0)), Err(MenuError::WrongKind));
    assert_eq!(m.set_string_value("T", ""), Err(MenuError::InvalidValue));
    assert_eq!(m.index_of("N"), Some(2));
    assert_eq!(m.index_of("zzz"), None);
}

#[test]
fn numeric_setter_refuses_invalid_value() {
    let mut m = menu(vec![numeric("N", d(0.0), Some(d(0.5)), Some(d(-1.0)), Some(d(1.0)))]);
    assert_eq!(m.set_numeric_value("N", d(0.3)), Err(MenuError::InvalidValue));
    assert_eq!(m.set_numeric_value("N", d(2.0)), Err(MenuError::InvalidValue));
    assert_eq!(m.numeric_value("N"), Ok(d(0.0)));
}

#[test]
fn deactivate_closes_everything() {
    let m = menu(vec![submenu("sub", vec![scroll("s", vec!["a", "b"]), back_button("back")])]);
    let (mut s, _) = Session::start(m, 80, 24);
    key(&mut s, Key::Enter);
    key(&mut s, Key::Enter);
    assert_eq!(s.parents.len(), 2);
    s.deactivate();
    assert!(s.is_finished());
    let m = s.into_menu();
    assert!(m.has_exited());
    assert!(!m.is_active());
}

#[test]
fn item_builders_hold_their_values() {
    let it = scroll("S", vec!["a", "b"]);
    assert_eq!(it.name(), "S");
    assert!(matches!(it.kind, ItemKind::Scroll { selected: 0, .. }));
    let it = string("T", "v", false);
    assert!(matches!(&it.kind, ItemKind::Text { value, allow_empty: false } if value == "v"));
    let it = label("L").colorize(crossterm::style::Color::Green);
    assert_eq!(it.color(), crossterm::style::Color::Green);
    assert_eq!(button("b").color(), crossterm::style::Color::White);
}

#[test]
fn finished_session_ignores_events() {
    let (mut s, _) = Session::start(menu(vec![button("b")]), 80, 24);
    key(&mut s, Key::Enter);
    assert!(s.is_finished());
    assert!(s.handle_event(Event::Key(Key::Down)).is_empty());
    assert!(s.handle_event(Event::Resize(10, 10)).is_empty());
    assert!(s.is_finished());
}

#[test]
fn other_keys_change_nothing() {
    let (mut s, _) = Session::start(menu(vec![scroll("S", vec!["a", "b"]), button("b")]), 80, 24);
    assert!(s.handle_event(Event::Key(Key::Other)).is_empty());
    assert!(s.handle_event(Event::Key(Key::Char('z'))).is_empty());
    assert_eq!(s.current().selected_item_index(), 0);
    assert_eq!(s.current().selection_value("S"), Ok("a"));
}

#[test]
fn resize_ignored_while_typing_a_number() {
    let m = menu(vec![numeric("N", d(0.0), Some(d(1.0)), None, None), button("Exit")]);
    let (mut s, _) = Session::start(m, 80, 24);
    key(&mut s, Key::Enter);
    assert!(s.handle_event(Event::Resize(80, 5)).is_empty());
    assert_eq!(s.height, 24);
    assert!(s.editor.is_some());
}

#[test]
fn number_editor_stops_at_last_column() {
    let m = menu(vec![numeric("N", d(0.0), Some(d(1.0)), None, None), button("Exit")]);
    let (mut s, _) = Session::start(m, 22, 24);
    key(&mut s, Key::Enter);
    let prefix = s.editor.as_ref().unwrap().prefix_len;
    assert_eq!(prefix, "[.., -1, 0, 1, ..] ".len());
    key(&mut s, Key::Char('1'));
    key(&mut s, Key::Char('2'));
    key(&mut s, Key::Char('3'));
    assert_eq!(s.editor.as_ref().unwrap().input, vec!['1', '2']);
    key(&mut s, Key::Enter);
    assert_eq!(s.current().numeric_value("N"), Ok(d(12.0)));
}

#[test]
fn start_measures_longest_name() {
    let (s, ops) = Session::start(menu(vec![button("a"), button("longer")]), 80, 24);
    assert_eq!(s.current().longest_name, 6);
    assert_eq!(ops[0], terminal_menu::TermOp::RawMode(true));
    assert!(ops.contains(&terminal_menu::TermOp::Print("  longer   ".to_string())));
}

#[test]
fn single_value_selection_opens_value_list() {
    let m = menu(vec![scroll("S", vec!["only"]), button("Exit")]);
    let (mut s, _) = Session::start(m, 80, 24);
    key(&mut s, Key::Enter);
    assert!(!s.is_finished());
    assert_eq!(s.parents.len(), 1);
    assert_eq!(s.current().items().len(), 1);
    assert_eq!(s.current().items()[0].name(), "only");
    key(&mut s, Key::Enter);
    assert_eq!(s.parents.len(), 0);
    assert!(!s.is_finished());
    assert!(s.current().is_active());
    assert_eq!(s.current().selection_value("S"), Ok("only"));
}

#[test]
fn viewport_only_when_taller_than_terminal() {
    let items = (0..20).map(|n| button(&format!("{}", n))).collect();
    let (s, _) = Session::start(menu(items), 80, 20);
    assert_eq!(s.current().mode, RenderMode::Normal);
    let items = (0..21).map(|n| button(&format!("{}", n))).collect();
    let (s, ops) = Session::start(menu(items), 80, 20);
    assert!(matches!(s.current().mode, RenderMode::Altscreen { topmost: 0, .. }));
    assert_eq!(ops[2], terminal_menu::TermOp::AltScreen(true));
}

#[test]
fn button_press_returns_closing_operations() {
    let (mut s, _) = Session::start(menu(vec![button("a"), button("b"), button("c")]), 80, 24);
    let ops = s.handle_event(Event::Key(Key::Enter));
    assert_eq!(
        ops,
        vec![
            terminal_menu::TermOp::MoveUp(2),
            terminal_menu::TermOp::ClearFromCursorDown,
            terminal_menu::TermOp::RawMode(false),
            terminal_menu::TermOp::CursorVisible(true),
        ]
    );
}

#[test]
fn deactivate_puts_submenu_back() {
    let m = menu(vec![label("t"), submenu("sub", vec![scroll("s", vec!["a", "b"]), back_button("back")]), button("x")]);
    let (mut s, _) = Session::start(m, 80, 24);
    key(&mut s, Key::Enter);
    key(&mut s, Key::Right);
    let ops = s.deactivate();
    assert_eq!(ops[ops.len() - 2..], [terminal_menu::TermOp::RawMode(false), terminal_menu::TermOp::CursorVisible(true)]);
    let m = s.into_menu();
    assert_eq!(m.items().len(), 3);
    assert_eq!(m.selected_item_index(), 1);
    assert!(m.has_exited());
    assert_eq!(m.get_submenu("sub").unwrap().selection_value("s"), Ok("b"));
}

#[test]
fn well_formedness_check() {
    let mut m = menu(vec![scroll("S", vec!["a"]), button("b")]);
    assert!(terminal_menu::menu_is_well_formed(&m));
    m.selected = 5;
    assert!(!terminal_menu::menu_is_well_formed(&m));
    m.selected = 0;
    m.items.push(label("l"));
    assert!(terminal_menu::menu_is_well_formed(&m));
    if let ItemKind::Scroll { selected, .. } = &mut m.items[0].kind {
        *selected = 3;
    }
    assert!(!terminal_menu::menu_is_well_formed(&m));
}
