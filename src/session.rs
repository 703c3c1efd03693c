//! The interaction state machine: key and resize events drive a menu, its
//! nested menus and the number editor, and each step returns the terminal
//! operations that show the result.
//!
//! A `Session` owns the menu tree while it runs. The menu receiving input is
//! `current`; the menus it was opened from wait in `parents`, innermost last,
//! each with a placeholder where the open submenu belongs.
use vstd::prelude::*;
use crate::decimal::{Decimal, parse_decimal, parsed_decimal, spec_value_valid, value_valid, number_range_indicator};
use crate::item::{ItemKind, TerminalMenuItem, item_wf, selectable, advanced_kind, advance_shows, scroll, button};
use crate::menu::{TerminalMenuStruct, RenderMode, menu_wf, menu, next_selectable, inc_or_dec_active_item};
use crate::render::{
    TermOp, same_items, mode_fits, unprint_ops, needs_viewport, clamped_topmost, inline_log, viewport_log, run_ops, origin, value_repaint, value_text, value_column, marker_repaint, term_mode, handle_resize, unprint, change_active_item, update_item_value, print,
    move_cursor_right, move_cursor_left, flush, append_ops,
};
use crate::text::{push_char, push_spaces};

verus! {

/// A key as the menu reads it.
#[derive(Clone, Copy, Debug, PartialEq, Eq, Structural)]
pub enum Key {
    Up,
    Down,
    Left,
    Right,
    Enter,
    Esc,
    Backspace,
    Char(char),
    Other,
}

/// Something that happened at the terminal.
#[derive(Clone, Copy, Debug, PartialEq, Eq, Structural)]
pub enum Event {
    Key(Key),
    /// The terminal is now `.0` columns wide and `.1` rows high.
    Resize(usize, usize),
}

/// How a waiting menu is linked to the one above it.
#[derive(Clone, Copy, Debug, PartialEq, Eq, Structural)]
pub enum Link {
    /// The menu above is the submenu at the waiting menu's highlighted item.
    Submenu,
    /// The menu above lists the values of the waiting menu's highlighted
    /// selection, for picking one directly.
    Reselector,
}

/// A menu waiting for the one opened from it to close.
pub struct Parent {
    pub menu: TerminalMenuStruct,
    pub link: Link,
}

/// A number being typed in for the highlighted numeric item.
pub struct NumberEditor {
    pub input: Vec<char>,
    pub prefix_len: usize,
}

/// A running menu tree.
pub struct Session {
    pub current: TerminalMenuStruct,
    pub parents: Vec<Parent>,
    pub width: usize,
    pub height: usize,
    pub editor: Option<NumberEditor>,
    pub finished: bool,
}

/// `up` for Up and `w`, not `up` for Down and `s`.
pub open spec fn vertical(k: Key) -> Option<bool> {
    match k {
        Key::Up | Key::Char('w') => Some(true),
        Key::Down | Key::Char('s') => Some(false),
        _ => None,
    }
}

/// `to_right` for Right and `d`, not `to_right` for Left and `a`.
pub open spec fn horizontal(k: Key) -> Option<bool> {
    match k {
        Key::Right | Key::Char('d') => Some(true),
        Key::Left | Key::Char('a') => Some(false),
        _ => None,
    }
}

/// Enter and space press the highlighted item.
pub open spec fn is_press(k: Key) -> bool {
    k == Key::Enter || k == Key::Char(' ')
}

/// Esc and `q` cancel.
pub open spec fn is_cancel(k: Key) -> bool {
    k == Key::Esc || k == Key::Char('q')
}

/// The value list of a selection item.
pub open spec fn selection_values(kind: ItemKind) -> Option<(Seq<String>, usize)> {
    match kind {
        ItemKind::Scroll { values, selected } => Some((values@, selected)),
        ItemKind::List { values, selected } => Some((values@, selected)),
        _ => None,
    }
}

/// An entry of a value list: a button for another value, or the selected
/// value as a selection of one.
pub open spec fn value_entry(kind: ItemKind) -> bool {
    kind is Button || (kind matches ItemKind::Scroll { values, .. } && values@.len() == 1)
}

/// The values of a selection item.
pub open spec fn values_of(kind: ItemKind) -> Seq<String> {
    match kind {
        ItemKind::Scroll { values, .. } => values@,
        ItemKind::List { values, .. } => values@,
        _ => Seq::empty(),
    }
}

/// The selected index of a selection item.
pub open spec fn selected_index(kind: ItemKind) -> int {
    match kind {
        ItemKind::Scroll { selected, .. } => selected as int,
        ItemKind::List { selected, .. } => selected as int,
        _ => 0,
    }
}

/// A waiting menu is well formed, and holds a placeholder (a button) where
/// its open submenu belongs, or the selection whose values are listed above.
pub open spec fn parent_wf(p: Parent, above_len: int) -> bool {
    &&& menu_wf(p.menu)
    &&& match p.link {
        Link::Submenu => p.menu.items@[p.menu.selected as int].kind is Button,
        Link::Reselector => selection_values(p.menu.items@[p.menu.selected as int].kind) matches Some((vs, _))
            && vs.len() == above_len,
    }
}

/// The length of the menu above waiting menu `i`.
pub open spec fn above_len(s: Session, i: int) -> int {
    if i + 1 < s.parents@.len() {
        s.parents@[i + 1].menu.items@.len() as int
    } else {
        s.current.items@.len() as int
    }
}

/// The menu that the session was started on: the outermost waiting menu,
/// or the current one when none waits.
pub open spec fn outermost(a: Session) -> TerminalMenuStruct {
    if a.parents@.len() == 0 { a.current } else { a.parents@[0].menu }
}

/// Item `x` shows the same as item `y`: same name, kind and color.
pub open spec fn same_item(x: TerminalMenuItem, y: TerminalMenuItem) -> bool {
    x.name == y.name && x.kind == y.kind && x.color == y.color
}

/// In `b` the session's outermost menu of `a` receives input again, none
/// waiting: its highlighted item and its items as they were, but that an
/// open submenu is back in its slot.
pub open spec fn restored_root(a: Session, b: Session) -> bool {
    let o = outermost(a);
    let k = o.selected as int;
    let slot = a.parents@.len() > 0 && a.parents@[0].link is Submenu;
    &&& b.parents@.len() == 0
    &&& b.current.selected == o.selected
    &&& b.current.items@.len() == o.items@.len()
    &&& forall|i: int| 0 <= i < o.items@.len() && !(slot && i == k) ==> same_item(#[trigger] b.current.items@[i], o.items@[i])
    &&& slot ==> b.current.items@[k].name == o.items@[k].name && b.current.items@[k].color == o.items@[k].color
        && b.current.items@[k].kind is Submenu
}

/// In `b` the menu that waited last in `a` receives input again, the menu
/// opened from it closed: a submenu is back in its slot, marked exited, and
/// leaving a value list with `pick` selects that value; nothing else changes.
pub open spec fn returned(a: Session, b: Session, pick: Option<usize>) -> bool {
    let p = a.parents@.last();
    let pm = p.menu;
    let k = pm.selected as int;
    &&& !b.finished
    &&& b.parents@ == a.parents@.drop_last()
    &&& b.current.active && !b.current.exited
    &&& b.current.selected == pm.selected
    &&& b.current.items@.len() == pm.items@.len()
    &&& forall|i: int| 0 <= i < pm.items@.len() && i != k ==> same_item(#[trigger] b.current.items@[i], pm.items@[i])
    &&& b.current.items@[k].name == pm.items@[k].name
    &&& b.current.items@[k].color == pm.items@[k].color
    &&& match p.link {
        Link::Submenu => b.current.items@[k].kind is Submenu && ({
            let c = b.current.items@[k].kind->Submenu_0;
            &&& c.exited
            &&& !c.active
            &&& c.selected == a.current.selected
            &&& c.items == a.current.items
        }),
        Link::Reselector => b.current.items@[k].kind == match pick {
            Some(j) => crate::menu::kind_with_selected(pm.items@[k].kind, j),
            None => pm.items@[k].kind,
        },
    }
}

/// In `b` the menu that received input in `a` waits, closed, with a
/// placeholder where its submenu was, and that submenu receives input.
pub open spec fn descended(a: Session, b: Session) -> bool {
    let k = a.current.selected as int;
    let sub = a.current.items@[k].kind->Submenu_0;
    let w = b.parents@.last();
    &&& b.parents@.len() == a.parents@.len() + 1
    &&& b.parents@.drop_last() == a.parents@
    &&& w.link is Submenu
    &&& w.menu.selected == a.current.selected
    &&& !w.menu.active
    &&& w.menu.exited == a.current.exited
    &&& w.menu.items@.len() == a.current.items@.len()
    &&& forall|i: int| 0 <= i < a.current.items@.len() && i != k ==> #[trigger] w.menu.items@[i] == a.current.items@[i]
    &&& w.menu.items@[k].name == a.current.items@[k].name
    &&& w.menu.items@[k].kind is Button
    &&& !b.finished
    &&& b.current.active
    &&& !b.current.exited
    &&& b.current.selected == sub.selected
    &&& same_items(b.current.items@, sub.items@)
}

/// The items of a value list for `values` with `sel` selected: one entry per
/// value, named by it, each a button but the selected value's, which is a
/// selection of one.
pub open spec fn value_list(items: Seq<TerminalMenuItem>, values: Seq<String>, sel: int) -> bool {
    &&& items.len() == values.len()
    &&& forall|j: int| 0 <= j < values.len() ==> (#[trigger] items[j]).name@ == values[j]@
    &&& forall|j: int| 0 <= j < values.len() && j != sel ==> (#[trigger] items[j]).kind is Button
    &&& value_entry(items[sel].kind) && items[sel].kind is Scroll
}

/// In `b` the menu that received input in `a` waits, closed and otherwise
/// as it was, and the value list of its highlighted selection receives
/// input with the selected value highlighted.
pub open spec fn listed(a: Session, b: Session) -> bool {
    let k = a.current.selected as int;
    let kind = a.current.items@[k].kind;
    let w = b.parents@.last();
    &&& b.parents@.len() == a.parents@.len() + 1
    &&& b.parents@.drop_last() == a.parents@
    &&& w.link is Reselector
    &&& w.menu.items == a.current.items
    &&& w.menu.selected == a.current.selected
    &&& !w.menu.active
    &&& !b.finished
    &&& b.in_reselector()
    &&& b.current.active
    &&& b.current.selected as int == selected_index(kind)
    &&& value_list(b.current.items@, values_of(kind), selected_index(kind))
}

/// `r` shows menu `m`, which was not shown, on a terminal `h` rows high:
/// raw mode on and the cursor hidden, then the menu printed in place or, when
/// it is taller than the terminal, on the alternate screen from the topmost
/// item that keeps the highlighted one in view.
pub open spec fn opened(r: Seq<TermOp>, m: TerminalMenuStruct, h: int) -> bool {
    let len = m.items@.len() as int;
    &&& r.len() >= 2
    &&& r.take(2) == seq![TermOp::RawMode(true), TermOp::CursorVisible(false)]
    &&& (needs_viewport(len, h) <==> m.mode is Altscreen)
    &&& !needs_viewport(len, h) ==> m.mode is Normal && run_ops(r.skip(2), origin()).log == inline_log(m)
    &&& needs_viewport(len, h) ==> r.len() > 2 && r[2] == TermOp::AltScreen(true) && m.mode->topmost as int
        == clamped_topmost(m.selected as int, len, h, 0) && run_ops(r.skip(3), origin()).log == viewport_log(
        m,
        m.mode->topmost as int,
        h,
    )
}

/// The operations that close menu `m`: erase it, then leave raw mode and
/// show the cursor.
pub open spec fn close_ops(m: TerminalMenuStruct) -> Seq<TermOp> {
    unprint_ops(m.mode, m.items@.len() as int) + seq![TermOp::RawMode(false), TermOp::CursorVisible(true)]
}

impl Session {
    /// The session's state is consistent: every menu is well formed, the one
    /// receiving input fits the terminal, only the topmost menu may list
    /// values, the editor edits a numeric item with a step, and a finished
    /// session has closed every menu.
    pub open spec fn wf(&self) -> bool {
        &&& menu_wf(self.current)
        &&& mode_fits(self.current, self.height as int)
        &&& forall|i: int| 0 <= i < self.parents@.len() ==> parent_wf(#[trigger] self.parents@[i], above_len(*self, i))
        &&& forall|i: int| 0 <= i < self.parents@.len() - 1 ==> (#[trigger] self.parents@[i]).link is Submenu
        &&& (self.editor is Some ==> self.current.items@[self.current.selected as int].kind matches ItemKind::Numeric {
            step: Some(_),
            ..
        })
        &&& (self.finished ==> self.parents@.len() == 0 && self.editor is None && self.current.exited
            && !self.current.active)
        &&& (self.in_reselector() ==> forall|i: int| 0 <= i < self.current.items@.len() ==> value_entry(
            #[trigger] self.current.items@[i].kind,
        ))
    }

    /// The menu receiving input lists the values of a selection.
    pub open spec fn in_reselector(&self) -> bool {
        self.parents@.len() > 0 && self.parents@.last().link is Reselector
    }
}

/// Length of the longest name among `items`.
pub open spec fn longest_name_of(items: Seq<TerminalMenuItem>) -> nat
    decreases items.len(),
{
    if items.len() == 0 {
        0
    } else {
        let rest = longest_name_of(items.drop_last());
        let n = items.last().name@.len();
        if n > rest { n } else { rest }
    }
}

fn longest_name(items: &Vec<TerminalMenuItem>) -> (r: usize)
    ensures
        r == longest_name_of(items@),
{
    let mut best: usize = 0;
    let mut i: usize = 0;
    while i < items.len()
        invariant
            i <= items@.len(),
            best == longest_name_of(items@.take(i as int)),
        decreases items@.len() - i,
    {
        let n = items[i].name.as_str().unicode_len();
        proof {
            assert(items@.take(i as int + 1).drop_last() =~= items@.take(i as int));
        }
        if n > best {
            best = n;
        }
        i = i + 1;
    }
    proof {
        assert(items@.take(items@.len() as int) =~= items@);
    }
    best
}

/// The throwaway menu that lists `values` for picking one: the selected
/// value marked `(Selected)`, each other value a button.
fn reselector(values: &Vec<String>, selected: usize) -> (r: TerminalMenuStruct)
    requires
        selected < values@.len(),
    ensures
        menu_wf(r),
        r.items@.len() == values@.len(),
        r.selected == selected,
        forall|j: int| 0 <= j < values@.len() && j != selected ==> (#[trigger] r.items@[j]).kind is Button
            && r.items@[j].name@ == values@[j]@,
        forall|j: int| 0 <= j < r.items@.len() ==> value_entry(#[trigger] r.items@[j].kind),
        r.items@[selected as int].name@ == values@[selected as int]@,
        r.items@[selected as int].kind matches ItemKind::Scroll { values: vs, .. } && vs@.len() == 1,
        !r.active,
        r.exited,
{
    let mut items: Vec<TerminalMenuItem> = Vec::new();
    let mut j: usize = 0;
    while j < values.len()
        invariant
            j <= values@.len(),
            selected < values@.len(),
            items@.len() == j,
            forall|k: int| 0 <= k < j ==> item_wf(#[trigger] items@[k]),
            forall|k: int| 0 <= k < j && k != selected ==> (#[trigger] items@[k]).kind is Button
                && items@[k].name@ == values@[k]@,
            selected < j ==> items@[selected as int].name@ == values@[selected as int]@
                && (items@[selected as int].kind matches ItemKind::Scroll { values: vs, .. } && vs@.len() == 1),
        decreases values@.len() - j,
    {
        if j == selected {
            let mut marks: Vec<&str> = Vec::new();
            marks.push("(Selected)");
            let it = scroll(values[j].as_str(), marks);
            proof {
                let k = it.kind;
                assert(crate::item::strings_view(k->Scroll_values@).len() == k->Scroll_values@.len());
            }
            items.push(it);
        } else {
            items.push(button(values[j].as_str()));
        }
        j = j + 1;
    }
    proof {
        assert(selectable(items@[selected as int]));
    }
    let mut m = menu(items);
    m.selected = selected;
    m
}

fn reselector_placeholder() -> (r: TerminalMenuStruct)
    ensures
        menu_wf(r),
{
    let mut items: Vec<TerminalMenuItem> = Vec::new();
    items.push(button(""));
    proof {
        assert(selectable(items@[0]));
    }
    menu(items)
}

impl Session {
    /// Shows the menu receiving input and lets it take input.
    fn open_current(&mut self) -> (r: Vec<TermOp>)
        requires
            menu_wf(old(self).current),
        ensures
            menu_wf(final(self).current),
            mode_fits(final(self).current, final(self).height as int),
            same_items(final(self).current.items@, old(self).current.items@),
            final(self).current.selected == old(self).current.selected,
            final(self).current.active,
            !final(self).current.exited,
            final(self).current.canceled == old(self).current.canceled,
            final(self).parents == old(self).parents,
            final(self).height == old(self).height,
            final(self).width == old(self).width,
            final(self).editor == old(self).editor,
            final(self).finished == old(self).finished,
            final(self).current.longest_name == longest_name_of(old(self).current.items@),
            old(self).current.mode is Inactive ==> opened(r@, final(self).current, final(self).height as int),
    {
        self.current.active = true;
        self.current.exited = false;
        self.current.longest_name = longest_name(&self.current.items);
        let mut ops = term_mode(true);
        let more = handle_resize(&mut self.current, self.height);
        let ghost mv = more@;
        append_ops(&mut ops, more);
        proof {
            assert(ops@.skip(2) =~= mv);
            assert(ops@.take(2) =~= seq![TermOp::RawMode(true), TermOp::CursorVisible(false)]);
            if mv.len() > 0 {
                assert(ops@.skip(3) =~= mv.skip(1));
                assert(ops@[2] == mv[0]);
            }
        }
        ops
    }

    /// Erases the menu receiving input and stops it taking input.
    fn close_current(&mut self) -> (r: Vec<TermOp>)
        requires
            menu_wf(old(self).current),
        ensures
            menu_wf(final(self).current),
            final(self).current.items == old(self).current.items,
            final(self).current.selected == old(self).current.selected,
            !final(self).current.active,
            final(self).current.exited == old(self).current.exited,
            final(self).current.canceled == old(self).current.canceled,
            final(self).current.mode is Inactive,
            r@ == close_ops(old(self).current),
            final(self).parents == old(self).parents,
            final(self).height == old(self).height,
            final(self).width == old(self).width,
            final(self).editor == old(self).editor,
            final(self).finished == old(self).finished,
    {
        self.current.active = false;
        let mut ops = unprint(&mut self.current);
        append_ops(&mut ops, term_mode(false));
        proof {
            assert(ops@ =~= close_ops(old(self).current));
        }
        ops
    }
}

/// A key typed into the number editor is taken: the cursor is not on the last
/// column, and it is a digit, the first point, or a leading minus.
pub open spec fn accepts(input: Seq<char>, c: char, column: int, width: int) -> bool {
    &&& column != width - 1
    &&& ('0' <= c <= '9' || (c == '.' && !input.contains('.')) || (c == '-' && input.len() == 0))
}

fn contains_point(input: &Vec<char>) -> (r: bool)
    ensures
        r == input@.contains('.'),
{
    let mut i: usize = 0;
    while i < input.len()
        invariant
            i <= input@.len(),
            forall|j: int| 0 <= j < i ==> input@[j] != '.',
        decreases input@.len() - i,
    {
        if input[i] == '.' {
            return true;
        }
        i = i + 1;
    }
    false
}

fn text_string(t: &str) -> (r: String)
    ensures
        r@ == t@,
{
    String::from_str(t)
}

impl Session {
    /// Starts running `root` on a terminal `width` columns wide and `height`
    /// rows high, and returns the operations that show it.
    pub fn start(root: TerminalMenuStruct, width: usize, height: usize) -> (r: (Session, Vec<TermOp>))
        requires
            menu_wf(root),
        ensures
            r.0.wf(),
            !r.0.finished,
            r.0.parents@.len() == 0,
            r.0.editor is None,
            r.0.width == width,
            r.0.height == height,
            same_items(r.0.current.items@, root.items@),
            r.0.current.selected == root.selected,
            r.0.current.active,
            !r.0.current.exited,
            !r.0.current.canceled,
            r.0.current.longest_name == longest_name_of(root.items@),
            opened(r.1@, r.0.current, height as int),
    {
        let mut m = root;
        m.mode = RenderMode::Inactive;
        m.canceled = false;
        let mut s = Session { current: m, parents: Vec::new(), width, height, editor: None, finished: false };
        let ops = s.open_current();
        (s, ops)
    }

    /// Whether every menu of the tree has closed.
    pub fn is_finished(&self) -> (r: bool)
        ensures
            r == self.finished,
    {
        self.finished
    }

    /// The menu receiving input.
    pub fn current(&self) -> (r: &TerminalMenuStruct)
        ensures
            r == &self.current,
    {
        &self.current
    }

    /// The menu tree of a finished session.
    pub fn into_menu(self) -> (r: TerminalMenuStruct)
        requires
            self.wf(),
            self.finished,
        ensures
            r == self.current,
            menu_wf(r),
    {
        self.current
    }

    /// Closes the menu receiving input and every menu it was opened from,
    /// marking each exited (and canceled, with `canceled`).
    fn finish_chain(&mut self, canceled: bool) -> (r: Vec<TermOp>)
        requires
            old(self).wf(),
            !old(self).in_reselector(),
            old(self).editor is None,
            !old(self).finished,
        ensures
            final(self).wf(),
            final(self).finished,
            final(self).current.exited,
            final(self).current.canceled == canceled,
            !final(self).current.active,
            restored_root(*old(self), *final(self)),
            old(self).parents@.len() == 0 ==> final(self).current.items == old(self).current.items,
            r@ == close_ops(old(self).current),
    {
        let mut ops = self.close_current();
        self.current.exited = true;
        self.current.canceled = canceled;
        while self.parents.len() > 0
            invariant
                menu_wf(self.current),
                self.current.mode is Inactive,
                !self.current.active,
                self.current.exited,
                self.current.canceled == canceled,
                self.editor is None,
                forall|i: int| 0 <= i < self.parents@.len() ==> parent_wf(#[trigger] self.parents@[i], above_len(*self, i)),
                forall|i: int| 0 <= i < self.parents@.len() ==> (#[trigger] self.parents@[i]).link is Submenu,
                self.parents@.len() <= old(self).parents@.len(),
                self.parents@ == old(self).parents@.take(self.parents@.len() as int),
                old(self).parents@.len() == 0 ==> self.parents@.len() == 0 && self.current.items == old(self).current.items
                    && self.current.selected == old(self).current.selected,
                old(self).parents@.len() > 0 && self.parents@.len() == 0 ==> restored_root(*old(self), *self),
                old(self).parents@.len() > 0 ==> old(self).parents@[0].link is Submenu,
                ops@ == close_ops(old(self).current),
                self.finished == old(self).finished,
            decreases self.parents@.len(),
        {
            let ghost ps = self.parents@;
            let p = self.parents.pop().unwrap();
            let Parent { menu: pm, .. } = p;
            let mut child = pm;
            std::mem::swap(&mut self.current, &mut child);
            let sel = self.current.selected;
            self.current.items[sel].kind = ItemKind::Submenu(child);
            self.current.exited = true;
            self.current.canceled = canceled;
            self.current.active = false;
            self.current.mode = RenderMode::Inactive;
            proof {
                assert forall|i: int| 0 <= i < self.current.items@.len() implies item_wf(#[trigger] self.current.items@[i]) by {
                    if i != sel {
                        assert(self.current.items@[i] == pm.items@[i]);
                    }
                }
                assert forall|i: int| 0 <= i < self.parents@.len() implies parent_wf(#[trigger] self.parents@[i], above_len(*self, i)) by {
                    assert(self.parents@[i] == ps[i]);
                    assert(parent_wf(ps[i], if i + 1 < ps.len() { ps[i + 1].menu.items@.len() as int } else { 0 }));
                }
                assert(self.parents@ == ps.drop_last());
                assert(ps == old(self).parents@.take(ps.len() as int));
                assert(self.parents@ =~= old(self).parents@.take(self.parents@.len() as int));
                if self.parents@.len() == 0 {
                    assert(pm == old(self).parents@[0].menu);
                    assert forall|i: int| 0 <= i < pm.items@.len() && i != sel implies same_item(
                        #[trigger] self.current.items@[i],
                        pm.items@[i],
                    ) by {
                        assert(self.current.items@[i] == pm.items@[i]);
                    }
                }
            }
        }
        proof {
            if old(self).parents@.len() == 0 {
                assert forall|i: int| 0 <= i < self.current.items@.len() implies same_item(
                    #[trigger] self.current.items@[i],
                    old(self).current.items@[i],
                ) by {}
            }
        }
        self.finished = true;
        ops
    }
}

impl Session {
    /// Closes the menu receiving input and resumes the one it was opened from,
    /// or finishes when there is none. Leaving a value list with `pick`
    /// selects that value in the waiting selection.
    fn go_back(&mut self, pick: Option<usize>) -> (r: Vec<TermOp>)
        requires
            old(self).wf(),
            old(self).editor is None,
            !old(self).finished,
            pick matches Some(j) ==> j < old(self).current.items@.len(),
        ensures
            final(self).wf(),
            final(self).editor is None,
            old(self).parents@.len() == 0 ==> final(self).finished && final(self).current.exited
                && !final(self).current.active && final(self).current.items == old(self).current.items
                && final(self).current.selected == old(self).current.selected && r@ == close_ops(old(self).current),
            old(self).parents@.len() > 0 ==> returned(*old(self), *final(self), pick),
    {
        let mut ops = self.close_current();
        if self.parents.len() == 0 {
            self.current.exited = true;
            self.finished = true;
            return ops;
        }
        let ghost ps = self.parents@;
        let p = self.parents.pop().unwrap();
        let Parent { menu: pm, link } = p;
        let mut child = pm;
        std::mem::swap(&mut self.current, &mut child);
        let sel = self.current.selected;
        match link {
            Link::Submenu => {
                child.exited = true;
                self.current.items[sel].kind = ItemKind::Submenu(child);
            },
            Link::Reselector => {
                if let Some(j) = pick {
                    match &mut self.current.items[sel].kind {
                        ItemKind::Scroll { selected, .. } => {
                            *selected = j;
                        },
                        ItemKind::List { selected, .. } => {
                            *selected = j;
                        },
                        _ => {},
                    }
                }
            },
        }
        proof {
            assert forall|i: int| 0 <= i < self.current.items@.len() implies item_wf(#[trigger] self.current.items@[i]) by {
                if i != sel {
                    assert(self.current.items@[i] == pm.items@[i]);
                }
            }
            assert forall|i: int| 0 <= i < self.parents@.len() implies parent_wf(#[trigger] self.parents@[i], above_len(*self, i)) by {
                assert(self.parents@[i] == ps[i]);
            }
        }
        let ghost mid = self.current;
        let more = self.open_current();
        append_ops(&mut ops, more);
        proof {
            assert forall|i: int| 0 <= i < pm.items@.len() && i != sel implies same_item(
                #[trigger] self.current.items@[i],
                pm.items@[i],
            ) by {
                assert(mid.items@[i] == pm.items@[i]);
            }
        }
        ops
    }

    /// Opens the submenu at the highlighted item.
    fn descend(&mut self) -> (r: Vec<TermOp>)
        requires
            old(self).wf(),
            old(self).editor is None,
            !old(self).finished,
            !old(self).in_reselector(),
            old(self).current.items@[old(self).current.selected as int].kind is Submenu,
        ensures
            final(self).wf(),
            !final(self).finished,
            final(self).editor is None,
            final(self).parents@.len() == old(self).parents@.len() + 1,
            final(self).parents@.last().link is Submenu,
            descended(*old(self), *final(self)),
    {
        let mut ops = self.close_current();
        let sel = self.current.selected;
        let mut k = ItemKind::Button;
        std::mem::swap(&mut self.current.items[sel].kind, &mut k);
        let ghost parent_menu = self.current;
        proof {
            assert(item_wf(old(self).current.items@[sel as int]));
            assert(k == old(self).current.items@[sel as int].kind);
            assert forall|i: int| 0 <= i < self.current.items@.len() implies item_wf(#[trigger] self.current.items@[i]) by {
                if i != sel {
                    assert(self.current.items@[i] == old(self).current.items@[i]);
                }
            }
        }
        match k {
            ItemKind::Submenu(sub) => {
                let mut child = sub;
                std::mem::swap(&mut self.current, &mut child);
                self.parents.push(Parent { menu: child, link: Link::Submenu });
                proof {
                    assert forall|i: int| 0 <= i < self.parents@.len() implies parent_wf(#[trigger] self.parents@[i], above_len(*self, i)) by {
                        if i < self.parents@.len() - 1 {
                            assert(self.parents@[i] == old(self).parents@[i]);
                        }
                    }
                }
                self.current.mode = RenderMode::Inactive;
                let ghost before = self.current;
                let more = self.open_current();
                append_ops(&mut ops, more);
                proof {
                    let w = self.parents@.last();
                    assert(self.parents@.drop_last() =~= old(self).parents@);
                    assert(w.menu == parent_menu);
                    assert(before.items == sub.items && before.selected == sub.selected);
                    assert forall|i: int| 0 <= i < old(self).current.items@.len() && i != sel implies #[trigger] w.menu.items@[i]
                        == old(self).current.items@[i] by {
                        assert(parent_menu.items@[i] == old(self).current.items@[i]);
                    }
                }
            },
            _ => {},
        }
        ops
    }

    /// Opens the list of the highlighted selection's values.
    fn open_reselector(&mut self) -> (r: Vec<TermOp>)
        requires
            old(self).wf(),
            old(self).editor is None,
            !old(self).finished,
            !old(self).in_reselector(),
            selection_values(old(self).current.items@[old(self).current.selected as int].kind) is Some,
        ensures
            final(self).wf(),
            !final(self).finished,
            final(self).editor is None,
            final(self).in_reselector(),
            final(self).parents@.len() == old(self).parents@.len() + 1,
            listed(*old(self), *final(self)),
    {
        let mut ops = self.close_current();
        let sel = self.current.selected;
        proof {
            assert(item_wf(self.current.items@[sel as int]));
        }
        let mut temp = match &self.current.items[sel].kind {
            ItemKind::Scroll { values, selected } => reselector(values, *selected),
            ItemKind::List { values, selected } => reselector(values, *selected),
            _ => reselector_placeholder(),
        };
        let ghost list = temp;
        let ghost waiting = self.current;
        std::mem::swap(&mut self.current, &mut temp);
        self.parents.push(Parent { menu: temp, link: Link::Reselector });
        proof {
            assert forall|i: int| 0 <= i < self.parents@.len() implies parent_wf(#[trigger] self.parents@[i], above_len(*self, i)) by {
                if i < self.parents@.len() - 1 {
                    assert(self.parents@[i] == old(self).parents@[i]);
                }
            }
        }
        let more = self.open_current();
        append_ops(&mut ops, more);
        proof {
            assert(self.parents@.drop_last() =~= old(self).parents@);
            let kind = old(self).current.items@[sel as int].kind;
            let vs = values_of(kind);
            assert(self.current.items@.len() == list.items@.len());
            assert forall|j: int| 0 <= j < vs.len() implies (#[trigger] self.current.items@[j]).name@ == vs[j]@ by {
                assert(self.current.items@[j].name == list.items@[j].name);
            }
            assert forall|j: int| 0 <= j < vs.len() && j != selected_index(kind) implies (
            #[trigger] self.current.items@[j]).kind is Button by {
                assert(self.current.items@[j].kind == list.items@[j].kind);
            }
            let si = selected_index(kind);
            assert(self.current.items@[si].kind == list.items@[si].kind);
        }
        ops
    }
}

/// What an Enter (or space) press on an item of kind `kind` does, with no
/// number being typed in.
pub enum Press {
    /// Close every menu.
    CloseAll,
    /// Close this menu and return to the one it was opened from.
    Back,
    /// Open the nested menu.
    Descend,
    /// List the values for picking one.
    ListValues,
    /// Start typing in a number.
    EditNumber,
    /// Nothing.
    Nothing,
}

/// The effect of pressing an item of kind `kind`. In a value list a button
/// picks its value and returns, and so does the entry of the selected value.
pub open spec fn press_effect(kind: ItemKind, in_reselector: bool) -> Press {
    match kind {
        ItemKind::Button => if in_reselector { Press::Back } else { Press::CloseAll },
        ItemKind::BackButton => Press::Back,
        ItemKind::Submenu(_) => Press::Descend,
        ItemKind::Scroll { values, .. } => if in_reselector && values@.len() == 1 {
            Press::Back
        } else {
            Press::ListValues
        },
        ItemKind::List { values, .. } => if in_reselector && values@.len() == 1 {
            Press::Back
        } else {
            Press::ListValues
        },
        ItemKind::Numeric { step: Some(_), .. } => Press::EditNumber,
        _ => Press::Nothing,
    }
}


/// `x` and `y` are the same menu: same items, highlight, flags and display.
pub open spec fn unchanged_menu(x: TerminalMenuStruct, y: TerminalMenuStruct) -> bool {
    &&& x.items@ == y.items@
    &&& x.selected == y.selected
    &&& x.active == y.active
    &&& x.exited == y.exited
    &&& x.canceled == y.canceled
    &&& x.longest_name == y.longest_name
    &&& x.mode == y.mode
}

/// What a right (or left) key press on session `a` leads to in `b`, with
/// operations `r`: the highlighted item advances and its value is repainted
/// when what it shows changed; else nothing changes and nothing is repainted.
pub open spec fn stepped_item(a: Session, b: Session, to_right: bool, r: Seq<TermOp>) -> bool {
    let k = a.current.selected as int;
    let old_item = a.current.items@[k];
    let kind = advanced_kind(old_item.kind, to_right);
    &&& b.wf()
    &&& b.parents == a.parents
    &&& b.editor == a.editor
    &&& b.finished == a.finished
    &&& b.height == a.height
    &&& b.width == a.width
    &&& b.current.selected == a.current.selected
    &&& b.current.active == a.current.active
    &&& b.current.exited == a.current.exited
    &&& b.current.canceled == a.current.canceled
    &&& b.current.longest_name == a.current.longest_name
    &&& b.current.items@.len() == a.current.items@.len()
    &&& forall|i: int| 0 <= i < a.current.items@.len() && i != k ==> #[trigger] b.current.items@[i] == a.current.items@[i]
    &&& b.current.items@[k].kind == kind
    &&& b.current.items@[k].name == old_item.name
    &&& b.current.items@[k].color == old_item.color
    &&& advance_shows(old_item.kind, to_right) ==> (!(a.current.mode is Inactive) ==> b.current.items@[k].last_print_len
        == value_text(kind).len()) && value_repaint(
        r,
        a.current.mode,
        a.current.items@.len() as int,
        k,
        value_column(a.current),
        value_text(kind),
        old_item.last_print_len as int,
    )
    &&& !advance_shows(old_item.kind, to_right) ==> unchanged_menu(b.current, a.current) && r.len() == 0
}

/// What Up (`up`) or Down on session `a` leads to in `b`, with operations
/// `r`: the highlight moves to the next selectable item, the markers are
/// repainted, and nothing else changes.
pub open spec fn moved_highlight(a: Session, b: Session, up: bool, r: Seq<TermOp>) -> bool {
    let i = next_selectable(a.current.items@, a.current.selected as int, up);
    &&& b.wf()
    &&& b.current.selected as int == i
    &&& same_items(b.current.items@, a.current.items@)
    &&& marker_repaint(r, a.current, b.current, i, a.height as int)
    &&& b.parents == a.parents
    &&& b.editor == a.editor
    &&& b.finished == a.finished
    &&& b.height == a.height
    &&& b.current.active == a.current.active
    &&& b.current.exited == a.current.exited
    &&& b.current.canceled == a.current.canceled
    &&& b.current.longest_name == a.current.longest_name
}

/// What cancelling session `a` leads to in `b`, with operations `r`: a
/// value list closes without picking; any other menu closes with all it was
/// opened from, marked canceled, the outermost menu current again.
pub open spec fn canceled_step(a: Session, b: Session, r: Seq<TermOp>) -> bool {
    &&& b.wf()
    &&& a.in_reselector() ==> returned(a, b, None)
    &&& !a.in_reselector() ==> b.finished && b.current.exited && !b.current.active && b.current.canceled
        && restored_root(a, b) && r == close_ops(a.current)
}

/// What pressing the highlighted item of session `a` (Enter or space) leads
/// to in session `b`, with operations `r`.
pub open spec fn pressed(a: Session, b: Session, r: Seq<TermOp>) -> bool {
    let kind = a.current.items@[a.current.selected as int].kind;
    &&& b.wf()
    &&& match press_effect(kind, a.in_reselector()) {
        Press::CloseAll => b.finished && b.current.exited && !b.current.active && !b.current.canceled
            && restored_root(a, b) && r == close_ops(a.current),
        Press::Back => if a.parents@.len() == 0 {
            b.finished && b.current.exited && !b.current.active && b.current.items == a.current.items
                && b.current.selected == a.current.selected && r == close_ops(a.current)
        } else {
            returned(a, b, if kind is Button { Some(a.current.selected) } else { None })
        },
        Press::Descend => descended(a, b),
        Press::ListValues => listed(a, b),
        Press::EditNumber => typed(b.editor) == Some(Seq::<char>::empty()) && b.current == a.current && b.parents
            == a.parents && !b.finished,
        Press::Nothing => b == a && r.len() == 0,
    }
}

impl Session {
    /// Applies a right (or left) key press to the highlighted item and
    /// repaints its value when it changed.
    pub fn inc_or_dec_item(&mut self, to_right: bool) -> (r: Vec<TermOp>)
        requires
            old(self).wf(),
        ensures
            stepped_item(*old(self), *final(self), to_right, r@),
    {
        let sel = self.current.selected;
        proof {
            assert(item_wf(self.current.items@[sel as int]));
        }
        let shows = self.current.items[sel].advance(to_right);
        proof {
            assert forall|i: int| 0 <= i < self.current.items@.len() implies item_wf(#[trigger] self.current.items@[i]) by {
                if i != sel {
                    assert(self.current.items@[i] == old(self).current.items@[i]);
                }
            }
        }
        let ghost mid = self.current;
        proof {
            assert(mid.items@ == old(self).current.items@.update(sel as int, mid.items@[sel as int]));
        }
        if shows {
            let r = update_item_value(&mut self.current, self.height);
            proof {
                assert(value_column(mid) == value_column(old(self).current));
                assert(mid.items@[sel as int].last_print_len == old(self).current.items@[sel as int].last_print_len);
                assert forall|i: int| 0 <= i < old(self).current.items@.len() && i != sel implies #[trigger] self.current.items@[i]
                    == old(self).current.items@[i] by {
                    assert(self.current.items@[i] == mid.items@[i]);
                }
                assert(mid.mode == old(self).current.mode);
                assert(self.wf());
                assert(advance_shows(old(self).current.items@[sel as int].kind, to_right));
                assert(value_repaint(
                    r@,
                    old(self).current.mode,
                    old(self).current.items@.len() as int,
                    sel as int,
                    value_column(old(self).current),
                    value_text(advanced_kind(old(self).current.items@[sel as int].kind, to_right)),
                    old(self).current.items@[sel as int].last_print_len as int,
                ));
            }
            r
        } else {
            proof {
                let k = old(self).current.items@[sel as int].kind;
                assert(advanced_kind(k, to_right) == k);
                assert(mid.items@[sel as int] == old(self).current.items@[sel as int]);
                assert(mid.items@ =~= old(self).current.items@);
            }
            Vec::new()
        }
    }

    /// Presses the highlighted item (Enter or space).
    pub fn handle_enter(&mut self) -> (r: Vec<TermOp>)
        requires
            old(self).wf(),
            old(self).editor is None,
            !old(self).finished,
        ensures
            final(self).wf(),
            pressed(*old(self), *final(self), r@),
    {
        let sel = self.current.selected;
        let in_reselector = self.parents.len() > 0 && matches!(self.parents[self.parents.len() - 1].link, Link::Reselector);
        proof {
            assert(item_wf(self.current.items@[sel as int]));
        }
        match &self.current.items[sel].kind {
            ItemKind::Button => {
                if in_reselector {
                    self.go_back(Some(sel))
                } else {
                    self.finish_chain(false)
                }
            },
            ItemKind::BackButton => self.go_back(None),
            ItemKind::Submenu(_) => self.descend(),
            ItemKind::Scroll { values, .. } => {
                if in_reselector && values.len() == 1 {
                    self.go_back(None)
                } else {
                    self.open_reselector()
                }
            },
            ItemKind::List { values, .. } => {
                if in_reselector && values.len() == 1 {
                    self.go_back(None)
                } else {
                    self.open_reselector()
                }
            },
            ItemKind::Numeric { step: Some(st), min, max, .. } => {
                let mut ops: Vec<TermOp> = Vec::new();
                if let RenderMode::Altscreen { .. } = self.current.mode {
                    ops.push(TermOp::MoveTo(0, self.height - 1));
                }
                ops.push(TermOp::AppendLine);
                let prefix = number_range_indicator(Some(*st), *min, *max);
                let prefix_len = prefix.as_str().unicode_len();
                ops.push(TermOp::Print(prefix));
                ops.push(flush());
                ops.push(TermOp::CursorVisible(true));
                self.editor = Some(NumberEditor { input: Vec::new(), prefix_len });
                ops
            },
            _ => Vec::new(),
        }
    }

    /// Cancels: a value list closes without picking; any other menu closes
    /// together with every menu it was opened from, all marked canceled.
    pub fn cancel(&mut self) -> (r: Vec<TermOp>)
        requires
            old(self).wf(),
            old(self).editor is None,
            !old(self).finished,
        ensures
            canceled_step(*old(self), *final(self), r@),
    {
        let in_reselector = self.parents.len() > 0 && matches!(self.parents[self.parents.len() - 1].link, Link::Reselector);
        if in_reselector {
            self.go_back(None)
        } else {
            self.finish_chain(true)
        }
    }
}

/// The text typed into the number editor, if one is open.
pub open spec fn typed(e: Option<NumberEditor>) -> Option<Seq<char>> {
    match e {
        Some(ed) => Some(ed.input@),
        None => None,
    }
}

/// The numeric item's kind with value `v`.
pub open spec fn kind_with_value(kind: ItemKind, v: Decimal) -> ItemKind {
    match kind {
        ItemKind::Numeric { step, min, max, .. } => ItemKind::Numeric { value: v, step, min, max },
        _ => kind,
    }
}

/// The typed text is a number that the numeric item of kind `kind` accepts.
pub open spec fn accepted_number(kind: ItemKind, input: Seq<char>) -> Option<Decimal> {
    match (kind, parsed_decimal(input)) {
        (ItemKind::Numeric { step, min, max, .. }, Some(v)) => if spec_value_valid(v, step, min, max) {
            Some(v)
        } else {
            None
        },
        _ => None,
    }
}

/// What a key typed into the number editor of session `a` leads to in `b`.
pub open spec fn typed_step(a: Session, b: Session, key: Key) -> bool {
    &&& (b.wf())
    &&& (b.parents == a.parents)
    &&& (b.finished == a.finished)
    &&& (b.current.active == a.current.active)
    &&& (b.current.exited == a.current.exited)
    &&& (b.current.selected == a.current.selected)
    &&& (b.current.items@.len() == a.current.items@.len())
    &&& (forall|i: int| 0 <= i < a.current.items@.len() && i != a.current.selected ==> (
            #[trigger] b.current.items@[i]).kind == a.current.items@[i].kind)
    &&& ({
                let e = a.editor->Some_0;
                let kind = a.current.items@[a.current.selected as int].kind;
                let fkind = b.current.items@[a.current.selected as int].kind;
                match key {
                    Key::Enter => if e.input@.len() == 0 {
                        b.editor is None && fkind == kind
                    } else {
                        match accepted_number(kind, e.input@) {
                            Some(v) => b.editor is None && fkind == kind_with_value(kind, v),
                            None => typed(b.editor) == Some(Seq::<char>::empty()) && fkind == kind,
                        }
                    },
                    Key::Char(c) => fkind == kind && typed(b.editor) == Some(
                        if accepts(e.input@, c, e.prefix_len + e.input@.len(), a.width as int) {
                            e.input@.push(c)
                        } else {
                            e.input@
                        },
                    ),
                    Key::Backspace => fkind == kind && typed(b.editor) == Some(
                        if e.input@.len() > 0 { e.input@.drop_last() } else { e.input@ },
                    ),
                    _ => fkind == kind && typed(b.editor) == Some(e.input@),
                }
            })
}

impl Session {
    /// Stops typing in a number, stores `value` in the highlighted item when
    /// given, and repaints.
    fn close_editor(&mut self, value: Option<Decimal>) -> (r: Vec<TermOp>)
        requires
            menu_wf(old(self).current),
            mode_fits(old(self).current, old(self).height as int),
            old(self).current.items@[old(self).current.selected as int].kind is Numeric,
            value matches Some(v) ==> ({
                let k = old(self).current.items@[old(self).current.selected as int].kind;
                spec_value_valid(v, k->Numeric_step, k->Numeric_min, k->Numeric_max)
            }),
        ensures
            menu_wf(final(self).current),
            mode_fits(final(self).current, final(self).height as int),
            final(self).editor is None,
            final(self).parents == old(self).parents,
            final(self).finished == old(self).finished,
            final(self).height == old(self).height,
            final(self).current.selected == old(self).current.selected,
            final(self).current.active == old(self).current.active,
            final(self).current.exited == old(self).current.exited,
            final(self).current.items@.len() == old(self).current.items@.len(),
            forall|i: int| 0 <= i < old(self).current.items@.len() && i != old(self).current.selected ==> (
            #[trigger] final(self).current.items@[i]).kind == old(self).current.items@[i].kind,
            value is None ==> forall|i: int| 0 <= i < old(self).current.items@.len() ==> same_item(
                #[trigger] final(self).current.items@[i],
                old(self).current.items@[i],
            ),
            final(self).current.items@[old(self).current.selected as int].kind == match value {
                Some(v) => kind_with_value(old(self).current.items@[old(self).current.selected as int].kind, v),
                None => old(self).current.items@[old(self).current.selected as int].kind,
            },
    {
        self.editor = None;
        let mut ops: Vec<TermOp> = Vec::new();
        ops.push(TermOp::CursorVisible(false));
        let sel = self.current.selected;
        if let Some(v) = value {
            match &mut self.current.items[sel].kind {
                ItemKind::Numeric { value: slot, .. } => {
                    *slot = v;
                },
                _ => {},
            }
            proof {
                assert forall|i: int| 0 <= i < self.current.items@.len() implies item_wf(#[trigger] self.current.items@[i]) by {
                    if i != sel {
                        assert(self.current.items@[i] == old(self).current.items@[i]);
                    } else {
                        assert(item_wf(old(self).current.items@[i]));
                    }
                }
            }
        }
        if let RenderMode::Altscreen { .. } = self.current.mode {
            let more = print(&mut self.current, self.height);
            append_ops(&mut ops, more);
        } else {
            ops.push(TermOp::MoveToColumn0);
            ops.push(TermOp::ClearFromCursorDown);
            ops.push(TermOp::MoveUp(1));
        }
        if value.is_some() {
            let more = update_item_value(&mut self.current, self.height);
            append_ops(&mut ops, more);
        }
        ops
    }

    /// Handles a key while a number is typed in: digits, a first point and a
    /// leading minus are taken (but not on the terminal's last column),
    /// Backspace removes the last character, and Enter submits. An empty
    /// submission cancels; a number the item accepts is stored; anything else
    /// is refused with a message and typed again.
    pub fn number_input(&mut self, key: Key) -> (r: Vec<TermOp>)
        requires
            old(self).wf(),
            old(self).editor is Some,
        ensures
            typed_step(*old(self), *final(self), key),
    {
        let mut slot: Option<NumberEditor> = None;
        std::mem::swap(&mut self.editor, &mut slot);
        let mut ed = match slot {
            Some(e) => e,
            None => NumberEditor { input: Vec::new(), prefix_len: 0 },
        };
        let mut ops: Vec<TermOp> = Vec::new();
        let sel = self.current.selected;
        match key {
            Key::Enter => {
                if ed.input.len() == 0 {
                    return self.close_editor(None);
                }
                let parsed = parse_decimal(&ed.input);
                let mut accepted: Option<Decimal> = None;
                let mut in_range = false;
                if let Some(v) = parsed {
                    if let ItemKind::Numeric { step, min, max, .. } = &self.current.items[sel].kind {
                        if value_valid(v, *step, *min, *max) {
                            accepted = Some(v);
                        }
                    }
                    in_range = accepted.is_some();
                }
                if let Some(v) = accepted {
                    return self.close_editor(Some(v));
                }
                ops.push(TermOp::AppendLine);
                if parsed.is_some() && !in_range {
                    ops.push(TermOp::Print(text_string("Number not in range! Press enter to cancel.")));
                } else {
                    ops.push(TermOp::Print(text_string("Not a valid number! Press enter to cancel. ")));
                }
                let n = ed.input.len();
                ops.push(TermOp::MoveUp(1));
                ops.push(TermOp::MoveToColumn0);
                move_cursor_right(&mut ops, ed.prefix_len);
                let mut blank = String::new();
                push_spaces(&mut blank, n);
                ops.push(TermOp::Print(blank));
                move_cursor_left(&mut ops, n);
                ed.input = Vec::new();
            },
            Key::Char(c) => {
                let column = ed.prefix_len as u128 + ed.input.len() as u128;
                let at_edge = column + 1 == self.width as u128;
                let taken = !at_edge && (('0' <= c && c <= '9') || (c == '.' && !contains_point(&ed.input)) || (c == '-'
                    && ed.input.len() == 0));
                if taken {
                    let mut t = String::new();
                    push_char(&mut t, c);
                    ops.push(TermOp::Print(t));
                    ops.push(flush());
                    ed.input.push(c);
                }
            },
            Key::Backspace => {
                if ed.input.len() > 0 {
                    let mut t = String::new();
                    push_char(&mut t, '\u{8}');
                    ops.push(TermOp::Print(t));
                    ops.push(TermOp::ClearRestOfLine);
                    ed.input.pop();
                }
            },
            _ => {},
        }
        self.editor = Some(ed);
        ops
    }
}

/// What key `key` does to session `a` when no number is being typed in,
/// leading to `b` with operations `r`.
pub open spec fn key_step(a: Session, b: Session, key: Key, r: Seq<TermOp>) -> bool {
    match (vertical(key), horizontal(key)) {
        (Some(up), _) => moved_highlight(a, b, up, r),
        (_, Some(to_right)) => stepped_item(a, b, to_right, r),
        _ => if is_press(key) {
            pressed(a, b, r)
        } else if is_cancel(key) {
            canceled_step(a, b, r)
        } else {
            b == a && r.len() == 0
        },
    }
}

/// What event `ev` does to session `a`, leading to `b`. A finished session
/// stays as it is; a resize while a number is typed in is ignored.
pub open spec fn event_step(a: Session, b: Session, ev: Event, r: Seq<TermOp>) -> bool {
    if a.finished {
        b == a && r.len() == 0
    } else {
        match ev {
            Event::Resize(w, h) => if a.editor is Some {
                b == a && r.len() == 0
            } else {
                &&& b.wf()
                &&& b.width == w && b.height == h
                &&& same_items(b.current.items@, a.current.items@)
                &&& b.current.selected == a.current.selected
                &&& b.parents == a.parents
                &&& b.editor is None
                &&& !b.finished
                &&& (crate::render::needs_viewport(a.current.items@.len() as int, h as int) <==> b.current.mode is Altscreen)
            },
            Event::Key(k) => if a.editor is Some {
                typed_step(a, b, k)
            } else {
                key_step(a, b, k, r)
            },
        }
    }
}

impl Session {
    /// Handles a key when no number is being typed in: Up/`w` and Down/`s`
    /// move the highlight, Left/`a` and Right/`d` change the highlighted
    /// value, Enter/space presses the highlighted item, Esc/`q` cancels.
    pub fn handle_key_event(&mut self, key: Key) -> (r: Vec<TermOp>)
        requires
            old(self).wf(),
            old(self).editor is None,
            !old(self).finished,
        ensures
            key_step(*old(self), *final(self), key, r@),
    {
        match key {
            Key::Up | Key::Char('w') => {
                let i = inc_or_dec_active_item(&self.current, true);
                change_active_item(&mut self.current, i, self.height)
            },
            Key::Down | Key::Char('s') => {
                let i = inc_or_dec_active_item(&self.current, false);
                change_active_item(&mut self.current, i, self.height)
            },
            Key::Left | Key::Char('a') => self.inc_or_dec_item(false),
            Key::Right | Key::Char('d') => self.inc_or_dec_item(true),
            Key::Enter | Key::Char(' ') => self.handle_enter(),
            Key::Esc | Key::Char('q') => self.cancel(),
            _ => Vec::new(),
        }
    }

    /// Handles one event and returns the operations that show its result.
    pub fn handle_event(&mut self, ev: Event) -> (r: Vec<TermOp>)
        requires
            old(self).wf(),
        ensures
            event_step(*old(self), *final(self), ev, r@),
    {
        if self.finished {
            return Vec::new();
        }
        match ev {
            Event::Resize(w, h) => {
                if self.editor.is_some() {
                    return Vec::new();
                }
                self.width = w;
                self.height = h;
                handle_resize(&mut self.current, h)
            },
            Event::Key(k) => {
                if self.editor.is_some() {
                    self.number_input(k)
                } else {
                    self.handle_key_event(k)
                }
            },
        }
    }

    /// Closes every menu of the tree at once, as when the caller stops it.
    pub fn deactivate(&mut self) -> (r: Vec<TermOp>)
        requires
            old(self).wf(),
        ensures
            final(self).wf(),
            final(self).finished,
            old(self).finished ==> *final(self) == *old(self) && r@.len() == 0,
            !old(self).finished ==> final(self).current.exited && !final(self).current.active
                && !final(self).current.canceled && restored_root(*old(self), *final(self)),
            !old(self).finished && old(self).editor is None && !old(self).in_reselector() ==> r@ == close_ops(
                old(self).current,
            ),
            !old(self).finished ==> r@.len() >= 2 && r@.skip(r@.len() - 2) == seq![
                TermOp::RawMode(false),
                TermOp::CursorVisible(true),
            ],
    {
        if self.finished {
            return Vec::new();
        }
        let ghost s0 = *self;
        let mut ops: Vec<TermOp> = Vec::new();
        if self.editor.is_some() {
            let more = self.close_editor(None);
            append_ops(&mut ops, more);
        }
        let ghost s1 = *self;
        proof {
            assert(self.wf());
            assert forall|i: int| 0 <= i < s1.current.items@.len() implies same_item(
                #[trigger] s1.current.items@[i],
                s0.current.items@[i],
            ) by {}
        }
        let in_reselector = self.parents.len() > 0 && matches!(self.parents[self.parents.len() - 1].link, Link::Reselector);
        if in_reselector {
            let more = self.go_back(None);
            append_ops(&mut ops, more);
        }
        let ghost s2 = *self;
        proof {
            if in_reselector && s1.parents@.len() == 1 {
                let pm = s1.parents@[0].menu;
                assert forall|i: int| 0 <= i < pm.items@.len() implies same_item(#[trigger] s2.current.items@[i], pm.items@[i]) by {}
            }
            if in_reselector && s1.parents@.len() > 1 {
                assert(s2.parents@[0] == s1.parents@[0]);
            }
        }
        let more = self.finish_chain(false);
        let ghost mv = more@;
        append_ops(&mut ops, more);
        proof {
            assert(ops@.skip(ops@.len() - 2) =~= mv.skip(mv.len() - 2));
            assert(mv.skip(mv.len() - 2) =~= seq![TermOp::RawMode(false), TermOp::CursorVisible(true)]);
            if s0.editor is None && !s0.in_reselector() {
                assert(ops@ =~= mv);
            }
            let o = outermost(s0);
            assert forall|i: int| 0 <= i < o.items@.len() && !(s0.parents@.len() > 0 && s0.parents@[0].link is Submenu
                && i == o.selected) implies same_item(#[trigger] self.current.items@[i], o.items@[i]) by {}
        }
        ops
    }
}

} // verus!
