//! Terminal output as a list of operations, and the repaints of a menu.
//!
//! Nothing here writes to a terminal: each function returns the operations
//! that bring the screen in step with the menu, and the caller performs them.
//! `run_ops` interprets operations over a cursor, which lets the contracts say
//! which text lands on which row and column.
use vstd::prelude::*;
use crate::decimal::{shortest_text, format_units};
use crate::item::{ItemKind, TerminalMenuItem};
use crate::menu::{TerminalMenuStruct, RenderMode, menu_wf};
use crate::text::{push_char, push_spaces, spaces};

verus! {

/// One operation on the terminal.
#[derive(Clone, Debug, PartialEq, Eq)]
pub enum TermOp {
    MoveUp(usize),
    MoveDown(usize),
    MoveLeft(usize),
    MoveRight(usize),
    /// Move to column `.0`, row `.1` of the screen.
    MoveTo(usize, usize),
    MoveToColumn0,
    SavePosition,
    RestorePosition,
    ClearFromCursorDown,
    ClearRestOfLine,
    ClearScreen,
    Print(String),
    /// A line feed: one row down, same column.
    NewLine,
    /// Continue on the next line, scrolling when the cursor is on the bottom row.
    AppendLine,
    RawMode(bool),
    CursorVisible(bool),
    AltScreen(bool),
    Flush,
}

/// Where the cursor is, where it was saved, and what was printed where.
pub struct Cursor {
    pub row: int,
    pub col: int,
    pub saved_row: int,
    pub saved_col: int,
    pub log: Seq<(int, int, Seq<char>)>,
}

/// The cursor at row 0, column 0, with nothing printed.
pub open spec fn origin() -> Cursor {
    Cursor { row: 0, col: 0, saved_row: 0, saved_col: 0, log: Seq::empty() }
}

/// The effect of one operation on the cursor.
pub open spec fn apply_op(c: Cursor, op: TermOp) -> Cursor {
    match op {
        TermOp::MoveUp(n) => Cursor { row: c.row - n, ..c },
        TermOp::MoveDown(n) => Cursor { row: c.row + n, ..c },
        TermOp::MoveLeft(n) => Cursor { col: c.col - n, ..c },
        TermOp::MoveRight(n) => Cursor { col: c.col + n, ..c },
        TermOp::MoveTo(x, y) => Cursor { row: y as int, col: x as int, ..c },
        TermOp::MoveToColumn0 => Cursor { col: 0, ..c },
        TermOp::SavePosition => Cursor { saved_row: c.row, saved_col: c.col, ..c },
        TermOp::RestorePosition => Cursor { row: c.saved_row, col: c.saved_col, ..c },
        TermOp::Print(s) => Cursor { col: c.col + s@.len(), log: c.log.push((c.row, c.col, s@)), ..c },
        TermOp::NewLine => Cursor { row: c.row + 1, ..c },
        TermOp::AppendLine => Cursor { row: c.row + 1, col: 0, ..c },
        _ => c,
    }
}

/// The effect of a list of operations, in order.
pub open spec fn run_ops(ops: Seq<TermOp>, c: Cursor) -> Cursor
    decreases ops.len(),
{
    if ops.len() == 0 {
        c
    } else {
        apply_op(run_ops(ops.drop_last(), c), ops.last())
    }
}

/// Appends `op` to `ops`.
pub(crate) fn emit(ops: &mut Vec<TermOp>, op: TermOp)
    ensures
        final(ops)@ == old(ops)@.push(op),
        forall|c: Cursor| #[trigger] run_ops(final(ops)@, c) == apply_op(run_ops(old(ops)@, c), op),
{
    let ghost before = ops@;
    ops.push(op);
    proof {
        assert forall|c: Cursor| #[trigger] run_ops(ops@, c) == apply_op(run_ops(before, c), op) by {
            assert(ops@.drop_last() =~= before);
        }
    }
}

/// Moves the cursor up `n` rows; nothing for zero.
pub fn move_cursor_up(ops: &mut Vec<TermOp>, n: usize)
    ensures
        forall|c: Cursor| #[trigger] run_ops(final(ops)@, c) == apply_op(run_ops(old(ops)@, c), TermOp::MoveUp(n)),
{
    if n != 0 {
        emit(ops, TermOp::MoveUp(n));
    } else {
        proof {
            assert forall|c: Cursor| #[trigger] run_ops(ops@, c) == apply_op(run_ops(ops@, c), TermOp::MoveUp(0)) by {
                let d = run_ops(ops@, c);
                assert(apply_op(d, TermOp::MoveUp(0)) == d);
            }
        }
    }
}

/// Moves the cursor right `n` columns; nothing for zero.
pub fn move_cursor_right(ops: &mut Vec<TermOp>, n: usize)
    ensures
        forall|c: Cursor| #[trigger] run_ops(final(ops)@, c) == apply_op(run_ops(old(ops)@, c), TermOp::MoveRight(n)),
{
    if n != 0 {
        emit(ops, TermOp::MoveRight(n));
    } else {
        proof {
            assert forall|c: Cursor| #[trigger] run_ops(ops@, c) == apply_op(run_ops(ops@, c), TermOp::MoveRight(0)) by {
                let d = run_ops(ops@, c);
                assert(apply_op(d, TermOp::MoveRight(0)) == d);
            }
        }
    }
}

/// Moves the cursor left `n` columns; nothing for zero.
pub fn move_cursor_left(ops: &mut Vec<TermOp>, n: usize)
    ensures
        forall|c: Cursor| #[trigger] run_ops(final(ops)@, c) == apply_op(run_ops(old(ops)@, c), TermOp::MoveLeft(n)),
{
    if n != 0 {
        emit(ops, TermOp::MoveLeft(n));
    } else {
        proof {
            assert forall|c: Cursor| #[trigger] run_ops(ops@, c) == apply_op(run_ops(ops@, c), TermOp::MoveLeft(0)) by {
                let d = run_ops(ops@, c);
                assert(apply_op(d, TermOp::MoveLeft(0)) == d);
            }
        }
    }
}

/// The operation that moves the cursor to the start of screen row `row`.
pub fn move_cursor_to_row(row: usize) -> (r: TermOp)
    ensures
        r == TermOp::MoveTo(0, row),
{
    TermOp::MoveTo(0, row)
}

/// The operation that flushes what was written.
pub fn flush() -> (r: TermOp)
    ensures
        r == TermOp::Flush,
{
    TermOp::Flush
}

/// Whether a cursor on row `row` is on the bottom row of a terminal
/// `term_height` rows high.
pub fn cursor_at_bottom_row(row: usize, term_height: usize) -> (r: bool)
    ensures
        r == (row as int == term_height as int - 1),
{
    term_height > 0 && row == term_height - 1
}

/// The operations that switch raw input on and hide the cursor (`on`), or
/// switch raw input off and show the cursor.
pub fn term_mode(on: bool) -> (r: Vec<TermOp>)
    ensures
        r@ == seq![TermOp::RawMode(on), TermOp::CursorVisible(!on)],
{
    let mut r: Vec<TermOp> = Vec::new();
    r.push(TermOp::RawMode(on));
    r.push(TermOp::CursorVisible(!on));
    proof {
        assert(r@ =~= seq![TermOp::RawMode(on), TermOp::CursorVisible(!on)]);
    }
    r
}

/// All values of a list item, the selected one in brackets and the others
/// between spaces: the first `k` of them.
pub open spec fn list_text(values: Seq<String>, selected: int, k: int) -> Seq<char>
    decreases k,
{
    if k <= 0 {
        Seq::empty()
    } else {
        let open = if k - 1 == selected { '[' } else { ' ' };
        let close = if k - 1 == selected { ']' } else { ' ' };
        list_text(values, selected, k - 1) + seq![open] + values[k - 1]@ + seq![close]
    }
}

/// What an item shows after its name: the selected value of a scroll, all
/// values of a list, a number, or a text; nothing for the other kinds.
pub open spec fn value_text(kind: ItemKind) -> Seq<char> {
    match kind {
        ItemKind::Scroll { values, selected } => seq![' '] + values@[selected as int]@,
        ItemKind::List { values, selected } => list_text(values@, selected as int, values@.len() as int),
        ItemKind::Numeric { value, .. } => seq![' '] + shortest_text(value@),
        ItemKind::Text { value, .. } => seq![' '] + value@,
        _ => Seq::empty(),
    }
}

/// Spaces that pad a name of `len` characters to `longest`.
pub open spec fn name_padding(len: nat, longest: nat) -> nat {
    if longest > len { (longest - len) as nat } else { 0 }
}

/// The line of item `i`: a `>` for the highlighted item (else a space), a
/// space, the name, three spaces, padding to the longest name, the value.
pub open spec fn line_text(m: TerminalMenuStruct, i: int) -> Seq<char> {
    let item = m.items@[i];
    seq![if i == m.selected { '>' } else { ' ' }, ' '] + item.name@ + spaces(3) + spaces(
        name_padding(item.name@.len(), m.longest_name as nat),
    ) + value_text(item.kind)
}

/// The column an item's value starts in.
pub open spec fn value_column(m: TerminalMenuStruct) -> int {
    m.longest_name + 5
}

/// The items of `a` and `b` agree but for what was last printed.
pub open spec fn same_items(a: Seq<TerminalMenuItem>, b: Seq<TerminalMenuItem>) -> bool {
    &&& a.len() == b.len()
    &&& forall|k: int| 0 <= k < a.len() ==> (#[trigger] a[k]).name == b[k].name && a[k].kind == b[k].kind
        && a[k].color == b[k].color
}

/// `a` and `b` are the same menu but for what was last printed.
pub open spec fn same_menu(a: TerminalMenuStruct, b: TerminalMenuStruct) -> bool {
    &&& same_items(a.items@, b.items@)
    &&& a.selected == b.selected
    &&& a.active == b.active
    &&& a.exited == b.exited
    &&& a.canceled == b.canceled
    &&& a.longest_name == b.longest_name
}

fn value_string(kind: &ItemKind) -> (r: String)
    requires
        match kind {
            ItemKind::Scroll { values, selected } => *selected < values@.len(),
            ItemKind::List { values, selected } => *selected < values@.len(),
            _ => true,
        },
    ensures
        r@ == value_text(*kind),
{
    let mut s = String::new();
    match kind {
        ItemKind::Scroll { values, selected } => {
            push_char(&mut s, ' ');
            s.append(values[*selected].as_str());
        },
        ItemKind::List { values, selected } => {
            let mut j: usize = 0;
            while j < values.len()
                invariant
                    j <= values@.len(),
                    s@ == list_text(values@, *selected as int, j as int),
                decreases values@.len() - j,
            {
                push_char(&mut s, if j == *selected { '[' } else { ' ' });
                s.append(values[j].as_str());
                push_char(&mut s, if j == *selected { ']' } else { ' ' });
                j = j + 1;
            }
        },
        ItemKind::Numeric { value, .. } => {
            push_char(&mut s, ' ');
            let t = format_units(value.units as i128);
            s.append(t.as_str());
        },
        ItemKind::Text { value, .. } => {
            push_char(&mut s, ' ');
            s.append(value.as_str());
        },
        _ => {},
    }
    s
}

/// `c` after printing `t`.
pub open spec fn print_at(c: Cursor, t: Seq<char>) -> Cursor {
    Cursor { col: c.col + t.len(), log: c.log.push((c.row, c.col, t)), ..c }
}

/// Prints the line of item `i` where the cursor is.
fn print_item(m: &mut TerminalMenuStruct, i: usize, ops: &mut Vec<TermOp>)
    requires
        menu_wf(*old(m)),
        i < old(m).items@.len(),
    ensures
        same_menu(*final(m), *old(m)),
        final(m).mode == old(m).mode,
        menu_wf(*final(m)),
        final(m).items@[i as int].last_print_len == value_text(old(m).items@[i as int].kind).len(),
        forall|k: int| 0 <= k < old(m).items@.len() && k != i ==> #[trigger] final(m).items@[k].last_print_len
            == old(m).items@[k].last_print_len,
        forall|c: Cursor| #[trigger] run_ops(final(ops)@, c) == print_at(run_ops(old(ops)@, c), line_text(*old(m), i as int)),
{
    let ghost m0 = *m;
    proof {
        assert(crate::item::item_wf(m.items@[i as int]));
    }
    let mut line = String::new();
    push_char(&mut line, if i == m.selected { '>' } else { ' ' });
    push_char(&mut line, ' ');
    line.append(m.items[i].name.as_str());
    let len = m.items[i].name.as_str().unicode_len();
    let pad: usize = if m.longest_name > len { m.longest_name - len } else { 0 };
    push_spaces(&mut line, 3);
    push_spaces(&mut line, pad);
    let v = value_string(&m.items[i].kind);
    line.append(v.as_str());
    let n = v.as_str().unicode_len();
    m.items[i].last_print_len = n;
    proof {
        assert(line@ =~= line_text(m0, i as int));
        assert forall|k: int| 0 <= k < m.items@.len() implies crate::item::item_wf(#[trigger] m.items@[k]) by {
            assert(m.items@[k].kind == m0.items@[k].kind);
            assert(crate::item::item_wf(m0.items@[k]));
        }
    }
    emit(ops, TermOp::Print(line));
}

/// What printing a menu in place leaves: line `k` of every item on row `k`.
pub open spec fn inline_log(m: TerminalMenuStruct) -> Seq<(int, int, Seq<char>)> {
    Seq::new(m.items@.len(), |k: int| (k, 0int, line_text(m, k)))
}

/// The text that marks more items above or below the shown ones.
pub open spec fn ellipsis() -> Seq<char> {
    seq![' ', ' ', '.', '.', '.']
}

/// What printing a menu on the alternate screen leaves: an ellipsis on the
/// top and bottom rows, and between them the lines of the items from `top` on.
pub open spec fn viewport_log(m: TerminalMenuStruct, top: int, h: int) -> Seq<(int, int, Seq<char>)> {
    seq![(0int, 0int, ellipsis())] + Seq::new((h - 2) as nat, |k: int| (k + 1, 0int, line_text(m, top + k))) + seq![
        ((h - 1) as int, 0int, ellipsis()),
    ]
}

/// The items shown on the alternate screen fit: the highlighted one is on a
/// row from `1` to `h - 2`, and the `h - 2` rows from `top` on hold items.
pub open spec fn viewport_fits(selected: int, len: int, top: int, h: int) -> bool {
    &&& 4 <= h
    &&& 0 <= top <= selected
    &&& selected <= top + h - 3
    &&& top + h - 2 <= len
}

/// The menu's display state agrees with a terminal `h` rows high.
pub open spec fn mode_fits(m: TerminalMenuStruct, h: int) -> bool {
    match m.mode {
        RenderMode::Altscreen { topmost, .. } => viewport_fits(m.selected as int, m.items@.len() as int, topmost as int, h),
        _ => true,
    }
}

fn ellipsis_string() -> (r: String)
    ensures
        r@ == ellipsis(),
{
    let mut s = String::new();
    push_spaces(&mut s, 2);
    push_char(&mut s, '.');
    push_char(&mut s, '.');
    push_char(&mut s, '.');
    proof {
        assert(s@ =~= ellipsis());
    }
    s
}

/// Prints the whole menu: in place, one line per item with the cursor left
/// at the start of the last one; or on the alternate screen, the items from
/// the topmost shown one on, between two ellipses.
pub fn print(m: &mut TerminalMenuStruct, h: usize) -> (r: Vec<TermOp>)
    requires
        menu_wf(*old(m)),
        mode_fits(*old(m), h as int),
    ensures
        same_menu(*final(m), *old(m)),
        final(m).mode == old(m).mode,
        menu_wf(*final(m)),
        old(m).mode is Normal ==> forall|k: int| 0 <= k < old(m).items@.len() ==> #[trigger] final(m).items@[k].last_print_len
            == value_text(old(m).items@[k].kind).len(),
        old(m).mode matches RenderMode::Altscreen { topmost, .. } ==> forall|k: int| 0 <= k < old(m).items@.len() ==> #[trigger] final(m).items@[k].last_print_len
            == if topmost <= k < topmost + h - 2 {
            value_text(old(m).items@[k].kind).len()
        } else {
            old(m).items@[k].last_print_len as nat
        },
        old(m).mode is Inactive ==> *final(m) == *old(m),
        old(m).mode is Normal ==> run_ops(r@, origin()).log == inline_log(*old(m)) && run_ops(r@, origin()).row
            == old(m).items@.len() - 1 && run_ops(r@, origin()).col == 0,
        old(m).mode matches RenderMode::Altscreen { topmost, .. } ==> run_ops(r@, origin()).log == viewport_log(
            *old(m),
            topmost as int,
            h as int,
        ),
        old(m).mode is Inactive ==> r@.len() == 0,
{
    let ghost m0 = *m;
    let mut ops: Vec<TermOp> = Vec::new();
    match m.mode {
        RenderMode::Normal => {
            let n = m.items.len();
            let mut i: usize = 0;
            while i < n
                invariant
                    n == m.items@.len() == m0.items@.len(),
                    i <= n,
                    same_menu(*m, m0),
                    m.mode == m0.mode,
                    menu_wf(*m),
                    m0.mode is Normal,
                    forall|k: int| 0 <= k < n ==> #[trigger] m.items@[k].last_print_len == if k < i {
                        value_text(m0.items@[k].kind).len()
                    } else {
                        m0.items@[k].last_print_len as nat
                    },
                    i == 0 ==> ops@.len() == 0,
                    i > 0 ==> run_ops(ops@, origin()).row == i - 1,
                    run_ops(ops@, origin()).log =~= inline_log(m0).take(i as int),
                decreases n - i,
            {
                if i != 0 {
                    emit(&mut ops, TermOp::NewLine);
                    emit(&mut ops, TermOp::MoveToColumn0);
                }
                proof {
                    assert(line_text(*m, i as int) == line_text(m0, i as int));
                }
                print_item(m, i, &mut ops);
                proof {
                    assert(inline_log(m0).take(i as int + 1) =~= inline_log(m0).take(i as int).push(
                        (i as int, 0int, line_text(m0, i as int)),
                    ));
                }
                i = i + 1;
            }
            emit(&mut ops, TermOp::MoveToColumn0);
            proof {
                assert(inline_log(m0).take(n as int) =~= inline_log(m0));
            }
        },
        RenderMode::Altscreen { topmost, .. } => {
            emit(&mut ops, TermOp::ClearScreen);
            emit(&mut ops, move_cursor_to_row(0));
            emit(&mut ops, TermOp::Print(ellipsis_string()));
            emit(&mut ops, TermOp::NewLine);
            emit(&mut ops, TermOp::MoveToColumn0);
            let rows = h - 2;
            let len = m.items.len();
            let mut k: usize = 0;
            while k < rows
                invariant
                    len == m0.items@.len(),
                    rows == h - 2,
                    4 <= h,
                    topmost + h - 2 <= m0.items@.len(),
                    m0.items@.len() == m.items@.len(),
                    k <= rows,
                    same_menu(*m, m0),
                    m.mode == m0.mode,
                    menu_wf(*m),
                    forall|j: int| 0 <= j < m0.items@.len() ==> #[trigger] m.items@[j].last_print_len == if topmost <= j
                        < topmost + k {
                        value_text(m0.items@[j].kind).len()
                    } else {
                        m0.items@[j].last_print_len as nat
                    },
                    run_ops(ops@, origin()).row == k + 1,
                    run_ops(ops@, origin()).col == 0,
                    run_ops(ops@, origin()).log =~= viewport_log(m0, topmost as int, h as int).take(k + 1),
                decreases rows - k,
            {
                proof {
                    assert(line_text(*m, (topmost + k) as int) == line_text(m0, (topmost + k) as int));
                }
                print_item(m, topmost + k, &mut ops);
                emit(&mut ops, TermOp::NewLine);
                emit(&mut ops, TermOp::MoveToColumn0);
                proof {
                    assert(viewport_log(m0, topmost as int, h as int).take(k + 2) =~= viewport_log(
                        m0,
                        topmost as int,
                        h as int,
                    ).take(k + 1).push(((k + 1) as int, 0int, line_text(m0, (topmost + k) as int))));
                }
                k = k + 1;
            }
            emit(&mut ops, TermOp::Print(ellipsis_string()));
            emit(&mut ops, TermOp::MoveToColumn0);
            proof {
                assert(viewport_log(m0, topmost as int, h as int) =~= viewport_log(m0, topmost as int, h as int).take(
                    rows + 1,
                ).push(((h - 1) as int, 0int, ellipsis())));
            }
        },
        RenderMode::Inactive => {},
    }
    ops
}

/// A move up by `n` rows, or nothing for zero.
pub open spec fn up_ops(n: int) -> Seq<TermOp> {
    if n == 0 { Seq::empty() } else { seq![TermOp::MoveUp(n as usize)] }
}

/// The operations that erase a menu of `len` items shown in `mode`.
pub open spec fn unprint_ops(mode: RenderMode, len: int) -> Seq<TermOp> {
    match mode {
        RenderMode::Normal => up_ops(len - 1).push(TermOp::ClearFromCursorDown),
        RenderMode::Altscreen { normal_not_printed, .. } => if normal_not_printed {
            seq![TermOp::AltScreen(false)]
        } else {
            seq![TermOp::AltScreen(false)] + up_ops(len - 1).push(TermOp::ClearFromCursorDown)
        },
        RenderMode::Inactive => Seq::empty(),
    }
}

/// Erases the menu: in place, from the top line of the menu down; on the
/// alternate screen, by leaving it (and erasing what was printed in place
/// before it was entered). The menu is then not shown.
pub fn unprint(m: &mut TerminalMenuStruct) -> (r: Vec<TermOp>)
    requires
        menu_wf(*old(m)),
    ensures
        same_menu(*final(m), *old(m)),
        final(m).items == old(m).items,
        final(m).mode is Inactive,
        menu_wf(*final(m)),
        r@ == unprint_ops(old(m).mode, old(m).items@.len() as int),
{
    let ghost mode0 = m.mode;
    let mut ops: Vec<TermOp> = Vec::new();
    let n = m.items.len();
    match m.mode {
        RenderMode::Normal => {
            if n > 1 {
                ops.push(TermOp::MoveUp(n - 1));
            }
            ops.push(TermOp::ClearFromCursorDown);
        },
        RenderMode::Altscreen { normal_not_printed, .. } => {
            ops.push(TermOp::AltScreen(false));
            if !normal_not_printed {
                if n > 1 {
                    ops.push(TermOp::MoveUp(n - 1));
                }
                ops.push(TermOp::ClearFromCursorDown);
            }
        },
        RenderMode::Inactive => {},
    }
    m.mode = RenderMode::Inactive;
    proof {
        assert(ops@ =~= unprint_ops(mode0, n as int));
    }
    ops
}

/// The topmost item shown on the alternate screen after a resize: the old one
/// moved as little as keeps the highlighted item off the last two rows, and
/// no further down than fills the screen.
pub open spec fn clamped_topmost(selected: int, len: int, h: int, topmost: int) -> int {
    let lo = if selected < h - 4 { 0 } else { selected - (h - 4) };
    let hi = (len - 1) - (h - 3);
    let t = if topmost < lo { lo } else { topmost };
    if t > hi { hi } else { t }
}

/// The topmost item to show on the alternate screen for a terminal `h` rows
/// high, starting from `topmost`.
pub fn calc_topmost(selected: usize, len: usize, h: usize, topmost: usize) -> (r: usize)
    requires
        4 <= h <= len,
        topmost <= selected < len,
    ensures
        r as int == clamped_topmost(selected as int, len as int, h as int, topmost as int),
        viewport_fits(selected as int, len as int, r as int, h as int),
{
    let lo: usize = if selected < h - 4 { 0 } else { selected - (h - 4) };
    let hi: usize = (len - 1) - (h - 3);
    let mut t = topmost;
    if t < lo {
        t = lo;
    }
    if t > hi {
        t = hi;
    }
    t
}

/// The topmost item shown on the alternate screen once item `i` is
/// highlighted: the first item for the first, the last screenful for the
/// last, else the old one moved as little as keeps one item shown on each
/// side of the highlighted one.
pub open spec fn scrolled_topmost(i: int, top: int, len: int, h: int) -> int {
    let on_screen = h - 2;
    if i == 0 {
        0
    } else if i == len - 1 {
        len - on_screen
    } else if i <= top {
        i - 1
    } else if i - top > on_screen - 2 {
        i - (on_screen - 2)
    } else {
        top
    }
}

/// What moving the highlight of `a` to item `i` repaints, with `b` the menu
/// after: in place, the old marker erased and the new one drawn (when the
/// menu fits the terminal), the cursor back at the start of the last line;
/// on the alternate screen, the two markers when the shown items stay, else
/// the whole screen from the new topmost item. Only a full repaint touches
/// what was last printed of the items.
pub open spec fn marker_repaint(r: Seq<TermOp>, a: TerminalMenuStruct, b: TerminalMenuStruct, i: int, h: int) -> bool {
    let c = run_ops(r, origin());
    let len = a.items@.len() as int;
    match a.mode {
        RenderMode::Normal => {
            &&& b.mode is Normal
            &&& b.items == a.items
            &&& c.row == 0 && c.col == 0
            &&& c.log == if len <= h {
                seq![(a.selected - (len - 1), 0int, seq![' ', '\u{8}']), (i - (len - 1), 0int, seq!['>'])]
            } else {
                seq![(a.selected - (len - 1), 0int, seq![' ', '\u{8}'])]
            }
        },
        RenderMode::Altscreen { topmost, normal_not_printed, .. } => {
            let t = scrolled_topmost(i, topmost as int, len, h);
            &&& b.mode == (RenderMode::Altscreen { topmost: t as usize, normal_not_printed, modified: true })
            &&& (t == topmost ==> b.items == a.items && c.log == seq![
                (1 + a.selected - topmost, 0int, seq![' ']),
                (1 + i - topmost, 0int, seq!['>']),
            ])
            &&& (t != topmost ==> c.log == viewport_log(b, t, h))
        },
        RenderMode::Inactive => b.mode is Inactive && b.items == a.items && r.len() == 0,
    }
}

proof fn lemma_same_menu_logs(a: TerminalMenuStruct, b: TerminalMenuStruct, top: int, h: int)
    requires
        same_menu(a, b),
        2 <= h,
        0 <= top,
        top + h - 2 <= a.items@.len(),
    ensures
        viewport_log(a, top, h) == viewport_log(b, top, h),
        inline_log(a) == inline_log(b),
{
    assert forall|j: int| 0 <= j < a.items@.len() implies line_text(a, j) == line_text(b, j) by {
        assert(a.items@[j].name == b.items@[j].name);
        assert(a.items@[j].kind == b.items@[j].kind);
    }
    let ma = Seq::new((h - 2) as nat, |k: int| (k + 1, 0int, line_text(a, top + k)));
    let mb = Seq::new((h - 2) as nat, |k: int| (k + 1, 0int, line_text(b, top + k)));
    assert forall|k: int| 0 <= k < ma.len() implies ma[k] == mb[k] by {
        let j = top + k;
        assert(a.items@[j].name == b.items@[j].name);
        assert(a.items@[j].kind == b.items@[j].kind);
        assert(line_text(a, j) == line_text(b, j));
    }
    assert(ma =~= mb);
    assert(viewport_log(a, top, h) =~= viewport_log(b, top, h));
    assert(inline_log(a) =~= inline_log(b));
}

/// Moves the highlight to item `i` and repaints what that changes: in place,
/// the marker of the old and of the new row, with the cursor back at the
/// start of the last line; on the alternate screen, the two markers when the
/// shown items stay, else the whole screen.
pub fn change_active_item(m: &mut TerminalMenuStruct, i: usize, h: usize) -> (r: Vec<TermOp>)
    requires
        menu_wf(*old(m)),
        i < old(m).items@.len(),
        crate::item::selectable(old(m).items@[i as int]),
        mode_fits(*old(m), h as int),
    ensures
        final(m).selected == i,
        same_items(final(m).items@, old(m).items@),
        final(m).active == old(m).active,
        final(m).exited == old(m).exited,
        final(m).canceled == old(m).canceled,
        final(m).longest_name == old(m).longest_name,
        menu_wf(*final(m)),
        mode_fits(*final(m), h as int),
        marker_repaint(r@, *old(m), *final(m), i as int, h as int),
{
    let prev = m.selected;
    m.selected = i;
    let n = m.items.len();
    let mut ops: Vec<TermOp> = Vec::new();
    match m.mode {
        RenderMode::Normal => {
            emit(&mut ops, TermOp::SavePosition);
            move_cursor_up(&mut ops, n - prev - 1);
            let mut clear = String::new();
            push_char(&mut clear, ' ');
            push_char(&mut clear, '\u{8}');
            proof {
                assert(clear@ =~= seq![' ', '\u{8}']);
            }
            emit(&mut ops, TermOp::Print(clear));
            emit(&mut ops, TermOp::RestorePosition);
            if n <= h {
                move_cursor_up(&mut ops, n - i - 1);
                let mut mark = String::new();
                push_char(&mut mark, '>');
                proof {
                    assert(mark@ =~= seq!['>']);
                }
                emit(&mut ops, TermOp::Print(mark));
            }
            emit(&mut ops, TermOp::RestorePosition);
            proof {
                let c = run_ops(ops@, origin());
                if n <= h {
                    assert(c.log =~= seq![
                        (prev - (n - 1), 0int, seq![' ', '\u{8}']),
                        (i - (n - 1), 0int, seq!['>']),
                    ]);
                } else {
                    assert(c.log =~= seq![(prev - (n - 1), 0int, seq![' ', '\u{8}'])]);
                }
            }
        },
        RenderMode::Altscreen { topmost, normal_not_printed, .. } => {
            let on_screen = h - 2;
            let t: usize = if i == 0 {
                0
            } else if i == n - 1 {
                n - on_screen
            } else if i <= topmost {
                i - 1
            } else if i - topmost > on_screen - 2 {
                i - (on_screen - 2)
            } else {
                topmost
            };
            m.mode = RenderMode::Altscreen { topmost: t, normal_not_printed, modified: true };
            if t == topmost {
                emit(&mut ops, move_cursor_to_row(1 + prev - topmost));
                let mut clear = String::new();
                push_char(&mut clear, ' ');
                proof {
                    assert(clear@ =~= seq![' ']);
                }
                emit(&mut ops, TermOp::Print(clear));
                emit(&mut ops, move_cursor_to_row(1 + i - topmost));
                let mut mark = String::new();
                push_char(&mut mark, '>');
                proof {
                    assert(mark@ =~= seq!['>']);
                }
                emit(&mut ops, TermOp::Print(mark));
                emit(&mut ops, flush());
                proof {
                    assert(run_ops(ops@, origin()).log =~= seq![
                        (1 + prev - topmost, 0int, seq![' ']),
                        (1 + i - topmost, 0int, seq!['>']),
                    ]);
                }
            } else {
                let ghost mid = *m;
                ops = print(m, h);
                proof {
                    lemma_same_menu_logs(*m, mid, t as int, h as int);
                }
            }
        },
        RenderMode::Inactive => {},
    }
    ops
}

/// What repainting a value `v` of item `sel` (of `len`, shown in `mode`)
/// leaves: `v`, padded with spaces over the `prev` characters printed there
/// before, at column `col` of the item's row; the cursor back where it was.
pub open spec fn value_repaint(r: Seq<TermOp>, mode: RenderMode, len: int, sel: int, col: int, v: Seq<char>, prev: int) -> bool {
    let pad: nat = if prev > v.len() { (prev - v.len()) as nat } else { 0 };
    let c = run_ops(r, origin());
    match mode {
        RenderMode::Normal => c.log == seq![(sel - (len - 1), col, v + spaces(pad))] && c.row == 0 && c.col == 0,
        RenderMode::Altscreen { topmost, .. } => c.log == seq![(1 + sel - topmost, col, v + spaces(pad))] && c.row == 0
            && c.col == 0,
        RenderMode::Inactive => r.len() == 0,
    }
}

/// Repaints the value of the highlighted item after it changed: the new value
/// at the value column of its row, padded with spaces over what the previous
/// print of it left, with the cursor put back.
pub fn update_item_value(m: &mut TerminalMenuStruct, h: usize) -> (r: Vec<TermOp>)
    requires
        menu_wf(*old(m)),
        mode_fits(*old(m), h as int),
    ensures
        same_menu(*final(m), *old(m)),
        menu_wf(*final(m)),
        mode_fits(*final(m), h as int),
        value_repaint(
            r@,
            old(m).mode,
            old(m).items@.len() as int,
            old(m).selected as int,
            value_column(*old(m)),
            value_text(old(m).items@[old(m).selected as int].kind),
            old(m).items@[old(m).selected as int].last_print_len as int,
        ),
        !(old(m).mode is Inactive) ==> final(m).items@[old(m).selected as int].last_print_len == value_text(
            old(m).items@[old(m).selected as int].kind,
        ).len(),
        forall|k: int| 0 <= k < old(m).items@.len() && k != old(m).selected ==> #[trigger] final(m).items@[k]
            == old(m).items@[k],
        old(m).mode is Normal ==> final(m).mode is Normal,
        old(m).mode matches RenderMode::Altscreen { topmost, normal_not_printed, .. } ==> final(m).mode == (
        RenderMode::Altscreen { topmost, normal_not_printed, modified: true }),
        old(m).mode is Inactive ==> final(m).mode is Inactive && r@.len() == 0,
{
    let ghost m0 = *m;
    let mut ops: Vec<TermOp> = Vec::new();
    let sel = m.selected;
    let n = m.items.len();
    match m.mode {
        RenderMode::Normal => {
            emit(&mut ops, TermOp::SavePosition);
            move_cursor_up(&mut ops, n - sel - 1);
        },
        RenderMode::Altscreen { topmost, normal_not_printed, .. } => {
            emit(&mut ops, TermOp::SavePosition);
            emit(&mut ops, move_cursor_to_row(1 + sel - topmost));
            m.mode = RenderMode::Altscreen { topmost, normal_not_printed, modified: true };
        },
        RenderMode::Inactive => {
            return ops;
        },
    }
    if m.longest_name <= usize::MAX - 5 {
        move_cursor_right(&mut ops, m.longest_name + 5);
    } else {
        move_cursor_right(&mut ops, m.longest_name);
        move_cursor_right(&mut ops, 5);
    }
    proof {
        assert(crate::item::item_wf(m.items@[sel as int]));
    }
    let mut text = value_string(&m.items[sel].kind);
    let new_len = text.as_str().unicode_len();
    let old_len = m.items[sel].last_print_len;
    let pad: usize = if old_len > new_len { old_len - new_len } else { 0 };
    push_spaces(&mut text, pad);
    emit(&mut ops, TermOp::Print(text));
    m.items[sel].last_print_len = new_len;
    emit(&mut ops, TermOp::RestorePosition);
    proof {
        assert forall|k: int| 0 <= k < m.items@.len() implies crate::item::item_wf(#[trigger] m.items@[k]) by {
            assert(m.items@[k].kind == m0.items@[k].kind);
            assert(crate::item::item_wf(m0.items@[k]));
        }
        let c = run_ops(ops@, origin());
        if m0.mode is Normal {
            assert(c.log =~= seq![(sel - (n - 1), value_column(m0), text@)]);
        } else {
            assert(c.log =~= seq![(1 + sel - m0.mode->topmost, value_column(m0), text@)]);
        }
    }
    ops
}

/// Appends all of `more` to `ops`.
pub(crate) fn append_ops(ops: &mut Vec<TermOp>, more: Vec<TermOp>)
    ensures
        final(ops)@ == old(ops)@ + more@,
{
    let mut more = more;
    ops.append(&mut more);
}

/// The menu needs the alternate screen on a terminal `h` rows high: it has
/// more items than the terminal has rows, and there are rows enough for a
/// highlighted item and an ellipsis on either side.
pub open spec fn needs_viewport(len: int, h: int) -> bool {
    4 <= h && len > h
}

/// Shows the menu as fits a terminal `h` rows high: on the alternate screen
/// when it needs it, else in place; an unshown menu is shown.
pub fn handle_resize(m: &mut TerminalMenuStruct, h: usize) -> (r: Vec<TermOp>)
    requires
        menu_wf(*old(m)),
    ensures
        same_menu(*final(m), *old(m)),
        menu_wf(*final(m)),
        mode_fits(*final(m), h as int),
        needs_viewport(old(m).items@.len() as int, h as int) ==> final(m).mode is Altscreen,
        !needs_viewport(old(m).items@.len() as int, h as int) ==> final(m).mode is Normal,
        old(m).mode is Inactive && needs_viewport(old(m).items@.len() as int, h as int) ==> final(m).mode == (
        RenderMode::Altscreen {
            topmost: clamped_topmost(old(m).selected as int, old(m).items@.len() as int, h as int, 0) as usize,
            normal_not_printed: true,
            modified: false,
        }),
        old(m).mode is Inactive && !needs_viewport(old(m).items@.len() as int, h as int) ==> run_ops(r@, origin()).log
            == inline_log(*final(m)) && run_ops(r@, origin()).row == old(m).items@.len() - 1,
        old(m).mode is Normal && !needs_viewport(old(m).items@.len() as int, h as int) ==> r@.len() == 0 && *final(m)
            == *old(m),
        !(old(m).mode is Altscreen) && needs_viewport(old(m).items@.len() as int, h as int) ==> r@.len() > 0 && r@[0]
            == TermOp::AltScreen(true) && run_ops(r@.skip(1), origin()).log == viewport_log(
            *final(m),
            final(m).mode->topmost as int,
            h as int,
        ),
        old(m).mode is Altscreen && needs_viewport(old(m).items@.len() as int, h as int) ==> run_ops(r@, origin()).log
            == viewport_log(*final(m), final(m).mode->topmost as int, h as int),
{
    let ghost m0 = *m;
    let n = m.items.len();
    let big = 4 <= h && n > h;
    let mut ops: Vec<TermOp> = Vec::new();
    if big {
        match m.mode {
            RenderMode::Inactive => {
                let t = calc_topmost(m.selected, n, h, 0);
                m.mode = RenderMode::Altscreen { topmost: t, normal_not_printed: true, modified: false };
                ops.push(TermOp::AltScreen(true));
                let ghost mid = *m;
                let ghost first = ops@;
                let p = print(m, h);
                let ghost pv = p@;
                append_ops(&mut ops, p);
                proof {
                    assert(ops@.skip(1) =~= pv);
                    lemma_same_menu_logs(*m, mid, t as int, h as int);
                }
            },
            RenderMode::Normal => {
                let t = calc_topmost(m.selected, n, h, 0);
                m.mode = RenderMode::Altscreen { topmost: t, normal_not_printed: false, modified: false };
                ops.push(TermOp::AltScreen(true));
                let ghost mid = *m;
                let p = print(m, h);
                let ghost pv = p@;
                append_ops(&mut ops, p);
                proof {
                    assert(ops@.skip(1) =~= pv);
                    lemma_same_menu_logs(*m, mid, t as int, h as int);
                }
            },
            RenderMode::Altscreen { topmost, normal_not_printed, modified } => {
                let t = calc_topmost(m.selected, n, h, if topmost <= m.selected { topmost } else { 0 });
                m.mode = RenderMode::Altscreen { topmost: t, normal_not_printed, modified };
                let ghost mid = *m;
                ops = print(m, h);
                proof {
                    lemma_same_menu_logs(*m, mid, t as int, h as int);
                }
            },
        }
    } else {
        match m.mode {
            RenderMode::Inactive => {
                m.mode = RenderMode::Normal;
                let ghost mid = *m;
                ops = print(m, h);
                proof {
                    lemma_same_menu_logs(*m, mid, 0, 2);
                }
            },
            RenderMode::Normal => {},
            RenderMode::Altscreen { normal_not_printed, modified, .. } => {
                if modified && !normal_not_printed {
                    ops = unprint(m);
                } else {
                    ops.push(TermOp::AltScreen(false));
                }
                m.mode = RenderMode::Normal;
                if modified || normal_not_printed {
                    let p = print(m, h);
                    append_ops(&mut ops, p);
                }
            },
        }
    }
    ops
}

} // verus!
