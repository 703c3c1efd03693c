use terminal_menu::render::{change_active_item, handle_resize, print, unprint, update_item_value, calc_topmost};
use terminal_menu::{
    button, cursor_at_bottom_row, flush, inc_or_dec_selection_item, list, menu, move_cursor_to_row, scroll, term_mode,
    RenderMode, TermOp,
};

fn p(s: &str) -> TermOp {
    TermOp::Print(s.to_string())
}

#[test]
fn terminal_helpers() {
    assert_eq!(move_cursor_to_row(3), TermOp::MoveTo(0, 3));
    assert_eq!(flush(), TermOp::Flush);
    assert!(cursor_at_bottom_row(23, 24));
    assert!(!cursor_at_bottom_row(22, 24));
    assert!(!cursor_at_bottom_row(0, 0));
    assert_eq!(term_mode(true), vec![TermOp::RawMode(true), TermOp::CursorVisible(false)]);
    assert_eq!(term_mode(false), vec![TermOp::RawMode(false), TermOp::CursorVisible(true)]);
}

#[test]
fn selection_index_wraps() {
    let mut s = 2usize;
    inc_or_dec_selection_item(&mut s, 3, true);
    assert_eq!(s, 0);
    inc_or_dec_selection_item(&mut s, 3, false);
    assert_eq!(s, 2);
    inc_or_dec_selection_item(&mut s, 3, false);
    assert_eq!(s, 1);
}

#[test]
fn inline_print_lines() {
    let mut m = menu(vec![scroll("Color", vec!["Red", "Green"]), list("L", vec!["a", "b"]), button("Exit")]);
    m.longest_name = 5;
    let ops = handle_resize(&mut m, 24);
    assert_eq!(m.mode, RenderMode::Normal);
    assert_eq!(
        ops,
        vec![
            p("> Color    Red"),
            TermOp::NewLine,
            TermOp::MoveToColumn0,
            p("  L       [a] b "),
            TermOp::NewLine,
            TermOp::MoveToColumn0,
            p("  Exit    "),
            TermOp::MoveToColumn0,
        ]
    );
    assert_eq!(m.items[0].last_print_len, 4);
    assert_eq!(m.items[1].last_print_len, 6);
}

#[test]
fn marker_moves_in_place() {
    let mut m = menu(vec![button("a"), button("b"), button("c")]);
    m.mode = RenderMode::Normal;
    let ops = change_active_item(&mut m, 2, 24);
    assert_eq!(m.selected, 2);
    assert_eq!(
        ops,
        vec![
            TermOp::SavePosition,
            TermOp::MoveUp(2),
            p(" \u{8}"),
            TermOp::RestorePosition,
            p(">"),
            TermOp::RestorePosition,
        ]
    );
}

#[test]
fn value_repaint_pads_shorter_text() {
    let mut m = menu(vec![scroll("S", vec!["Green", "Red"]), button("Exit")]);
    m.mode = RenderMode::Normal;
    m.longest_name = 4;
    m.items[0].last_print_len = 6;
    m.items[0].advance(true);
    let ops = update_item_value(&mut m, 24);
    assert_eq!(
        ops,
        vec![TermOp::SavePosition, TermOp::MoveUp(1), TermOp::MoveRight(9), p(" Red  "), TermOp::RestorePosition]
    );
    assert_eq!(m.items[0].last_print_len, 4);
}

#[test]
fn unprint_erases() {
    let mut m = menu(vec![button("a"), button("b"), button("c")]);
    m.mode = RenderMode::Normal;
    assert_eq!(unprint(&mut m), vec![TermOp::MoveUp(2), TermOp::ClearFromCursorDown]);
    assert_eq!(m.mode, RenderMode::Inactive);
    m.mode = RenderMode::Altscreen { topmost: 0, normal_not_printed: true, modified: false };
    assert_eq!(unprint(&mut m), vec![TermOp::AltScreen(false)]);
}

#[test]
fn viewport_print_has_ellipses() {
    let items = (0..6).map(|n| button(&format!("{}", n))).collect();
    let mut m = menu(items);
    m.mode = RenderMode::Altscreen { topmost: 1, normal_not_printed: true, modified: false };
    m.selected = 2;
    let ops = print(&mut m, 4);
    assert_eq!(
        ops,
        vec![
            TermOp::ClearScreen,
            TermOp::MoveTo(0, 0),
            p("  ..."),
            TermOp::NewLine,
            TermOp::MoveToColumn0,
            p("  1   "),
            TermOp::NewLine,
            TermOp::MoveToColumn0,
            p("> 2   "),
            TermOp::NewLine,
            TermOp::MoveToColumn0,
            p("  ..."),
            TermOp::MoveToColumn0,
        ]
    );
}

#[test]
fn topmost_clamps() {
    assert_eq!(calc_topmost(0, 50, 20, 0), 0);
    assert_eq!(calc_topmost(40, 50, 20, 0), 24);
    assert_eq!(calc_topmost(49, 50, 20, 0), 32);
    assert_eq!(calc_topmost(10, 50, 20, 5), 5);
    assert_eq!(calc_topmost(30, 50, 20, 5), 14);
}
