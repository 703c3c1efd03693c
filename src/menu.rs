//! A menu: an ordered list of items with one of them highlighted.
use vstd::prelude::*;
use crate::item::{TerminalMenuItem, ItemKind, item_wf, selectable};
use crate::text::str_eq;
use vstd::arithmetic::div_mod::{lemma_add_mod_noop, lemma_small_mod, lemma_mod_add_multiples_vanish};
use crate::decimal::{Decimal, spec_value_valid, value_valid};

verus! {

/// How a menu is currently shown.
#[derive(Clone, Copy, Debug, PartialEq, Eq, Structural)]
pub enum RenderMode {
    /// Not shown.
    Inactive,
    /// Printed in place, one line per item, with the cursor under the last one.
    Normal,
    /// Shown on the alternate screen, from item `topmost` on. `normal_not_printed`
    /// tells that nothing was printed in place before; `modified` that the
    /// menu changed while shown there.
    Altscreen { topmost: usize, normal_not_printed: bool, modified: bool },
}

/// A menu and its state.
pub struct TerminalMenuStruct {
    pub items: Vec<TerminalMenuItem>,
    pub selected: usize,
    pub active: bool,
    pub exited: bool,
    pub canceled: bool,
    pub longest_name: usize,
    pub mode: RenderMode,
}

/// A menu is well formed: it has items, the highlighted one exists and is not
/// a label, and every item is well formed.
pub open spec fn menu_wf(m: TerminalMenuStruct) -> bool
    decreases m,
{
    &&& 0 < m.items@.len()
    &&& m.selected < m.items@.len()
    &&& selectable(m.items@[m.selected as int])
    &&& forall|i: int| 0 <= i < m.items@.len() ==> item_wf(#[trigger] m.items@[i])
}

/// A menu of `items`, with the first item that is not a label highlighted.
pub fn menu(items: Vec<TerminalMenuItem>) -> (r: TerminalMenuStruct)
    requires
        forall|i: int| 0 <= i < items@.len() ==> item_wf(#[trigger] items@[i]),
        exists|i: int| 0 <= i < items@.len() && selectable(#[trigger] items@[i]),
    ensures
        menu_wf(r),
        r.items@ == items@,
        selectable(r.items@[r.selected as int]),
        forall|j: int| 0 <= j < r.selected ==> !selectable(#[trigger] r.items@[j]),
        !r.active,
        r.exited,
        !r.canceled,
        r.mode is Inactive,
        r.longest_name == 0,
{
    let mut i: usize = 0;
    while i < items.len() && matches!(items[i].kind, ItemKind::Label)
        invariant
            i <= items@.len(),
            forall|j: int| 0 <= j < i ==> !selectable(#[trigger] items@[j]),
        decreases items@.len() - i,
    {
        i = i + 1;
    }
    proof {
        if i == items@.len() {
            let k = choose|k: int| 0 <= k < items@.len() && selectable(#[trigger] items@[k]);
            assert(!selectable(items@[k]));
        }
    }
    TerminalMenuStruct {
        items,
        selected: i,
        active: false,
        exited: true,
        canceled: false,
        longest_name: 0,
        mode: RenderMode::Inactive,
    }
}

/// Why a lookup or an update of a menu was refused.
#[derive(Clone, Copy, Debug, PartialEq, Eq, Structural)]
pub enum MenuError {
    /// No item has the given name.
    NotFound,
    /// The named item is not of a kind that the operation applies to.
    WrongKind,
    /// The index is not that of an item.
    IndexOutOfRange,
    /// The item is a label, which cannot be highlighted.
    NotSelectable,
    /// The value is not acceptable for the item.
    InvalidValue,
}

/// The first index at or after `i` of an item named `name`.
pub open spec fn find_from(items: Seq<TerminalMenuItem>, name: Seq<char>, i: int) -> Option<int>
    decreases items.len() - i,
{
    if i < 0 || i >= items.len() {
        None
    } else if items[i].name@ == name {
        Some(i)
    } else {
        find_from(items, name, i + 1)
    }
}

/// The index of the first item named `name`.
pub open spec fn find_name(items: Seq<TerminalMenuItem>, name: Seq<char>) -> Option<int> {
    find_from(items, name, 0)
}

proof fn lemma_find_from_range(items: Seq<TerminalMenuItem>, name: Seq<char>, i: int)
    requires
        0 <= i,
    ensures
        match find_from(items, name, i) {
            Some(k) => i <= k < items.len() && items[k].name@ == name,
            None => true,
        },
    decreases items.len() - i,
{
    if i < items.len() && items[i].name@ != name {
        lemma_find_from_range(items, name, i + 1);
    }
}

/// The text value of a scroll, list or text item.
pub open spec fn selection_of(kind: ItemKind) -> Option<Seq<char>> {
    match kind {
        ItemKind::Scroll { values, selected } => Some(values@[selected as int]@),
        ItemKind::List { values, selected } => Some(values@[selected as int]@),
        ItemKind::Text { value, .. } => Some(value@),
        _ => None,
    }
}

/// `kind` with its selected index set to `index`, for a scroll or a list.
pub open spec fn kind_with_selected(kind: ItemKind, index: usize) -> ItemKind {
    match kind {
        ItemKind::Scroll { values, .. } => ItemKind::Scroll { values, selected: index },
        ItemKind::List { values, .. } => ItemKind::List { values, selected: index },
        _ => kind,
    }
}

/// `item` with kind `kind`.
pub open spec fn item_with_kind(item: TerminalMenuItem, kind: ItemKind) -> TerminalMenuItem {
    TerminalMenuItem { kind, ..item }
}

impl TerminalMenuStruct {
    /// The items, in order.
    pub fn items(&self) -> (r: &Vec<TerminalMenuItem>)
        ensures
            r == &self.items,
    {
        &self.items
    }

    /// The name of the highlighted item.
    pub fn selected_item_name(&self) -> (r: &str)
        requires
            menu_wf(*self),
        ensures
            r@ == self.items@[self.selected as int].name@,
    {
        self.items[self.selected].name.as_str()
    }

    /// The index of the highlighted item.
    pub fn selected_item_index(&self) -> (r: usize)
        ensures
            r == self.selected,
    {
        self.selected
    }

    /// Whether the menu is receiving input.
    pub fn is_active(&self) -> (r: bool)
        ensures
            r == self.active,
    {
        self.active
    }

    /// Whether the menu is not running: true before its first run and after each.
    pub fn has_exited(&self) -> (r: bool)
        ensures
            r == self.exited,
    {
        self.exited
    }

    /// Whether the last run ended by cancelling rather than by a button.
    pub fn canceled(&self) -> (r: bool)
        ensures
            r == self.canceled,
    {
        self.canceled
    }

    /// The index of the first item named `name`.
    pub fn index_of(&self, name: &str) -> (r: Option<usize>)
        ensures
            r matches Some(i) ==> find_name(self.items@, name@) == Some(i as int),
            r is None ==> find_name(self.items@, name@) is None,
    {
        let mut i: usize = 0;
        while i < self.items.len()
            invariant
                i <= self.items@.len(),
                find_name(self.items@, name@) == find_from(self.items@, name@, i as int),
            decreases self.items@.len() - i,
        {
            if str_eq(self.items[i].name.as_str(), name) {
                return Some(i);
            }
            i = i + 1;
        }
        None
    }

    /// Highlights the item at `index`.
    pub fn set_selected_item_with_index(&mut self, index: usize) -> (r: Result<(), MenuError>)
        requires
            menu_wf(*old(self)),
        ensures
            menu_wf(*final(self)),
            final(self).items == old(self).items,
            index >= old(self).items@.len() ==> r == Err::<(), MenuError>(MenuError::IndexOutOfRange)
                && final(self).selected == old(self).selected,
            index < old(self).items@.len() && !selectable(old(self).items@[index as int]) ==> r == Err::<(), MenuError>(
                MenuError::NotSelectable,
            ) && final(self).selected == old(self).selected,
            index < old(self).items@.len() && selectable(old(self).items@[index as int]) ==> r is Ok
                && final(self).selected == index,
    {
        if index >= self.items.len() {
            return Err(MenuError::IndexOutOfRange);
        }
        if matches!(self.items[index].kind, ItemKind::Label) {
            return Err(MenuError::NotSelectable);
        }
        self.selected = index;
        Ok(())
    }

    /// Highlights the first item named `name`.
    pub fn set_selected_item_with_name(&mut self, name: &str) -> (r: Result<(), MenuError>)
        requires
            menu_wf(*old(self)),
        ensures
            menu_wf(*final(self)),
            final(self).items == old(self).items,
            match find_name(old(self).items@, name@) {
                None => r == Err::<(), MenuError>(MenuError::NotFound) && final(self).selected == old(self).selected,
                Some(i) => if selectable(old(self).items@[i]) {
                    r is Ok && final(self).selected == i
                } else {
                    r == Err::<(), MenuError>(MenuError::NotSelectable) && final(self).selected == old(self).selected
                },
            },
    {
        proof {
            lemma_find_from_range(self.items@, name@, 0);
        }
        match self.index_of(name) {
            None => Err(MenuError::NotFound),
            Some(i) => self.set_selected_item_with_index(i),
        }
    }

    /// The value of the first item named `name`: the selected value of a
    /// scroll or a list, or the text of a text item.
    pub fn selection_value(&self, name: &str) -> (r: Result<&str, MenuError>)
        requires
            menu_wf(*self),
        ensures
            match find_name(self.items@, name@) {
                None => r == Err::<&str, MenuError>(MenuError::NotFound),
                Some(i) => match selection_of(self.items@[i].kind) {
                    Some(v) => r matches Ok(s) && s@ == v,
                    None => r == Err::<&str, MenuError>(MenuError::WrongKind),
                },
            },
    {
        proof {
            lemma_find_from_range(self.items@, name@, 0);
        }
        match self.index_of(name) {
            None => Err(MenuError::NotFound),
            Some(i) => {
                proof {
                    assert(item_wf(self.items@[i as int]));
                }
                match &self.items[i].kind {
                    ItemKind::Scroll { values, selected } => Ok(values[*selected].as_str()),
                    ItemKind::List { values, selected } => Ok(values[*selected].as_str()),
                    ItemKind::Text { value, .. } => Ok(value.as_str()),
                    _ => Err(MenuError::WrongKind),
                }
            },
        }
    }

    /// The value of the first item named `name`, which must be numeric.
    pub fn numeric_value(&self, name: &str) -> (r: Result<Decimal, MenuError>)
        ensures
            match find_name(self.items@, name@) {
                None => r == Err::<Decimal, MenuError>(MenuError::NotFound),
                Some(i) => match self.items@[i].kind {
                    ItemKind::Numeric { value, .. } => r == Ok::<Decimal, MenuError>(value),
                    _ => r == Err::<Decimal, MenuError>(MenuError::WrongKind),
                },
            },
    {
        proof {
            lemma_find_from_range(self.items@, name@, 0);
        }
        match self.index_of(name) {
            None => Err(MenuError::NotFound),
            Some(i) => match &self.items[i].kind {
                ItemKind::Numeric { value, .. } => Ok(*value),
                _ => Err(MenuError::WrongKind),
            },
        }
    }

    /// The nested menu of the first item named `name`, which must be a submenu.
    pub fn get_submenu(&self, name: &str) -> (r: Result<&TerminalMenuStruct, MenuError>)
        ensures
            match find_name(self.items@, name@) {
                None => r == Err::<&TerminalMenuStruct, MenuError>(MenuError::NotFound),
                Some(i) => match self.items@[i].kind {
                    ItemKind::Submenu(m) => r == Ok::<&TerminalMenuStruct, MenuError>(&m),
                    _ => r == Err::<&TerminalMenuStruct, MenuError>(MenuError::WrongKind),
                },
            },
    {
        proof {
            lemma_find_from_range(self.items@, name@, 0);
        }
        match self.index_of(name) {
            None => Err(MenuError::NotFound),
            Some(i) => match &self.items[i].kind {
                ItemKind::Submenu(m) => Ok(m),
                _ => Err(MenuError::WrongKind),
            },
        }
    }
}

/// The index `k` places after (or, going up, before) `i` among `n`, wrapping around.
pub open spec fn offset(i: int, n: int, k: int, up: bool) -> int {
    if up {
        (i - k) % n
    } else {
        (i + k) % n
    }
}

/// The nearest selectable item from `i` on, `k` or more places away in the
/// given direction, wrapping around; `i` itself when no other is selectable.
pub open spec fn seek_from(items: Seq<TerminalMenuItem>, i: int, up: bool, k: int) -> int
    decreases items.len() - k,
{
    if k >= items.len() || k < 1 {
        i
    } else if selectable(items[offset(i, items.len() as int, k, up)]) {
        offset(i, items.len() as int, k, up)
    } else {
        seek_from(items, i, up, k + 1)
    }
}

/// The item that Up (or Down) moves the highlight to from `i`: the nearest
/// selectable one before (or after) it, wrapping around and skipping labels.
pub open spec fn next_selectable(items: Seq<TerminalMenuItem>, i: int, up: bool) -> int {
    seek_from(items, i, up, 1)
}

proof fn lemma_seek_from_selectable(items: Seq<TerminalMenuItem>, i: int, up: bool, k: int)
    requires
        0 <= i < items.len(),
        selectable(items[i]),
    ensures
        0 <= seek_from(items, i, up, k) < items.len(),
        selectable(items[seek_from(items, i, up, k)]),
    decreases items.len() - k,
{
    if k < items.len() && k >= 1 {
        if !selectable(items[offset(i, items.len() as int, k, up)]) {
            lemma_seek_from_selectable(items, i, up, k + 1);
        }
    }
}

proof fn lemma_offset_step(i: int, n: int, k: int, up: bool)
    requires
        0 <= i < n,
        0 <= k,
    ensures
        0 <= offset(i, n, k, up) < n,
        offset(i, n, k + 1, up) == if up {
            if offset(i, n, k, up) == 0 { n - 1 } else { offset(i, n, k, up) - 1 }
        } else {
            if offset(i, n, k, up) == n - 1 { 0 } else { offset(i, n, k, up) + 1 }
        },
{
    let o = offset(i, n, k, up);
    lemma_small_mod(0, n as nat);
    lemma_small_mod((n - 1) as nat, n as nat);
    lemma_mod_add_multiples_vanish(0, n);
    if up {
        lemma_add_mod_noop(i - k, -1, n);
        lemma_mod_add_multiples_vanish(-1, n);
        lemma_mod_add_multiples_vanish(o - 1, n);
        if o > 0 {
            lemma_small_mod((o - 1) as nat, n as nat);
        }
        assert((i - k - 1) % n == (o + (n - 1)) % n);
    } else {
        lemma_add_mod_noop(i + k, 1, n);
        if n > 1 {
            lemma_small_mod(1, n as nat);
            if o + 1 < n {
                lemma_small_mod((o + 1) as nat, n as nat);
            }
        } else {
            assert(1int % 1int == 0);
        }
        assert((i + k + 1) % n == (o + 1int % n) % n);
    }
}

/// The index that Up (`up`) or Down moves the highlight to from the
/// highlighted item of `m`.
pub fn inc_or_dec_active_item(m: &TerminalMenuStruct, up: bool) -> (r: usize)
    requires
        menu_wf(*m),
    ensures
        r as int == next_selectable(m.items@, m.selected as int, up),
        r < m.items@.len(),
        selectable(m.items@[r as int]),
{
    let n = m.items.len();
    let mut j: usize = m.selected;
    let mut k: usize = 0;
    proof {
        lemma_small_mod(m.selected as nat, n as nat);
        assert(offset(m.selected as int, n as int, 0, up) == m.selected);
    }
    loop
        invariant
            n == m.items@.len(),
            menu_wf(*m),
            0 <= k < n,
            j < n,
            j as int == offset(m.selected as int, n as int, k as int, up),
            next_selectable(m.items@, m.selected as int, up) == seek_from(m.items@, m.selected as int, up, k + 1),
        decreases n - k,
    {
        proof {
            lemma_offset_step(m.selected as int, n as int, k as int, up);
        }
        if up {
            if j == 0 {
                j = n - 1;
            } else {
                j = j - 1;
            }
        } else {
            if j == n - 1 {
                j = 0;
            } else {
                j = j + 1;
            }
        }
        k = k + 1;
        if k >= n {
            proof {
                lemma_seek_from_selectable(m.items@, m.selected as int, up, k as int);
            }
            return m.selected;
        }
        if !matches!(m.items[j].kind, ItemKind::Label) {
            return j;
        }
    }
}

impl TerminalMenuStruct {
    /// Selects value `index` of the first item named `name`, a scroll or a list.
    pub fn set_selection_index(&mut self, name: &str, index: usize) -> (r: Result<(), MenuError>)
        requires
            menu_wf(*old(self)),
        ensures
            menu_wf(*final(self)),
            final(self).selected == old(self).selected,
            final(self).items@.len() == old(self).items@.len(),
            r is Err ==> final(self).items@ == old(self).items@,
            match find_name(old(self).items@, name@) {
                None => r == Err::<(), MenuError>(MenuError::NotFound),
                Some(i) => match old(self).items@[i].kind {
                    ItemKind::Scroll { values, .. } | ItemKind::List { values, .. } => if index < values@.len() {
                        r is Ok && final(self).items@ == old(self).items@.update(
                            i,
                            item_with_kind(old(self).items@[i], kind_with_selected(old(self).items@[i].kind, index)),
                        )
                    } else {
                        r == Err::<(), MenuError>(MenuError::IndexOutOfRange)
                    },
                    _ => r == Err::<(), MenuError>(MenuError::WrongKind),
                },
            },
    {
        proof {
            lemma_find_from_range(self.items@, name@, 0);
        }
        let i = match self.index_of(name) {
            None => {
                return Err(MenuError::NotFound);
            },
            Some(i) => i,
        };
        let r = match &mut self.items[i].kind {
            ItemKind::Scroll { values, selected } => {
                if index < values.len() {
                    *selected = index;
                    Ok(())
                } else {
                    Err(MenuError::IndexOutOfRange)
                }
            },
            ItemKind::List { values, selected } => {
                if index < values.len() {
                    *selected = index;
                    Ok(())
                } else {
                    Err(MenuError::IndexOutOfRange)
                }
            },
            _ => Err(MenuError::WrongKind),
        };
        proof {
            assert(self.items@ =~= old(self).items@.update(i as int, self.items@[i as int]));
            assert forall|k: int| 0 <= k < self.items@.len() implies item_wf(#[trigger] self.items@[k]) by {
                if k != i {
                    assert(self.items@[k] == old(self).items@[k]);
                }
            }
            if r is Err {
                assert(self.items@ =~= old(self).items@);
            }
        }
        r
    }

    /// Sets the value of the first item named `name`, which must be numeric
    /// and accept the value.
    pub fn set_numeric_value(&mut self, name: &str, value: Decimal) -> (r: Result<(), MenuError>)
        requires
            menu_wf(*old(self)),
        ensures
            menu_wf(*final(self)),
            final(self).selected == old(self).selected,
            final(self).items@.len() == old(self).items@.len(),
            r is Err ==> final(self).items@ == old(self).items@,
            match find_name(old(self).items@, name@) {
                None => r == Err::<(), MenuError>(MenuError::NotFound),
                Some(i) => match old(self).items@[i].kind {
                    ItemKind::Numeric { step, min, max, .. } => if spec_value_valid(value, step, min, max) {
                        r is Ok && final(self).items@ == old(self).items@.update(
                            i,
                            item_with_kind(old(self).items@[i], ItemKind::Numeric { value, step, min, max }),
                        )
                    } else {
                        r == Err::<(), MenuError>(MenuError::InvalidValue)
                    },
                    _ => r == Err::<(), MenuError>(MenuError::WrongKind),
                },
            },
    {
        proof {
            lemma_find_from_range(self.items@, name@, 0);
        }
        let i = match self.index_of(name) {
            None => {
                return Err(MenuError::NotFound);
            },
            Some(i) => i,
        };
        let r = match &mut self.items[i].kind {
            ItemKind::Numeric { value: slot, step, min, max } => {
                if value_valid(value, *step, *min, *max) {
                    *slot = value;
                    Ok(())
                } else {
                    Err(MenuError::InvalidValue)
                }
            },
            _ => Err(MenuError::WrongKind),
        };
        proof {
            assert(self.items@ =~= old(self).items@.update(i as int, self.items@[i as int]));
            assert forall|k: int| 0 <= k < self.items@.len() implies item_wf(#[trigger] self.items@[k]) by {
                if k != i {
                    assert(self.items@[k] == old(self).items@[k]);
                } else {
                    assert(item_wf(old(self).items@[k]));
                }
            }
            if r is Err {
                assert(self.items@ =~= old(self).items@);
            }
        }
        r
    }

    /// Sets the text of the first item named `name`, which must be a text
    /// item; an empty text only where the item allows it.
    pub fn set_string_value(&mut self, name: &str, value: &str) -> (r: Result<(), MenuError>)
        requires
            menu_wf(*old(self)),
        ensures
            menu_wf(*final(self)),
            final(self).selected == old(self).selected,
            final(self).items@.len() == old(self).items@.len(),
            r is Err ==> final(self).items@ == old(self).items@,
            match find_name(old(self).items@, name@) {
                None => r == Err::<(), MenuError>(MenuError::NotFound),
                Some(i) => match old(self).items@[i].kind {
                    ItemKind::Text { allow_empty, .. } => if value@.len() == 0 && !allow_empty {
                        r == Err::<(), MenuError>(MenuError::InvalidValue)
                    } else {
                        &&& r is Ok
                        &&& final(self).items@[i].kind matches ItemKind::Text { value: v, allow_empty: ae }
                        &&& final(self).items@[i].kind->Text_value@ == value@
                        &&& final(self).items@[i].kind->Text_allow_empty == allow_empty
                        &&& final(self).items@[i].name == old(self).items@[i].name
                        &&& forall|k: int| 0 <= k < old(self).items@.len() && k != i ==> #[trigger] final(self).items@[k]
                            == old(self).items@[k]
                    },
                    _ => r == Err::<(), MenuError>(MenuError::WrongKind),
                },
            },
    {
        proof {
            lemma_find_from_range(self.items@, name@, 0);
        }
        let i = match self.index_of(name) {
            None => {
                return Err(MenuError::NotFound);
            },
            Some(i) => i,
        };
        let empty = value.unicode_len() == 0;
        let r = match &mut self.items[i].kind {
            ItemKind::Text { value: slot, allow_empty } => {
                if empty && !*allow_empty {
                    Err(MenuError::InvalidValue)
                } else {
                    *slot = String::from_str(value);
                    Ok(())
                }
            },
            _ => Err(MenuError::WrongKind),
        };
        proof {
            assert forall|k: int| 0 <= k < self.items@.len() implies item_wf(#[trigger] self.items@[k]) by {
                if k != i {
                    assert(self.items@[k] == old(self).items@[k]);
                }
            }
            if r is Err {
                assert(self.items@ =~= old(self).items@);
            }
        }
        r
    }
}

/// Whether `item` is well formed, as `item_wf` states it.
pub fn item_is_well_formed(item: &TerminalMenuItem) -> (r: bool)
    ensures
        r == item_wf(*item),
    decreases item,
{
    match &item.kind {
        ItemKind::Scroll { values, selected } => 0 < values.len() && *selected < values.len(),
        ItemKind::List { values, selected } => 0 < values.len() && *selected < values.len(),
        ItemKind::Numeric { value, step, min, max } => value_valid(*value, *step, *min, *max)
            && crate::decimal::step_valid(*step, *min, *max),
        ItemKind::Submenu(m) => menu_is_well_formed(m),
        _ => true,
    }
}

/// Whether `m` is well formed, as `menu_wf` states it: callers that edited a
/// menu's items directly test this before running it.
pub fn menu_is_well_formed(m: &TerminalMenuStruct) -> (r: bool)
    ensures
        r == menu_wf(*m),
    decreases m,
{
    let n = m.items.len();
    if n == 0 || m.selected >= n || matches!(m.items[m.selected].kind, ItemKind::Label) {
        return false;
    }
    let mut i: usize = 0;
    while i < n
        invariant
            n == m.items@.len(),
            i <= n,
            forall|j: int| 0 <= j < i ==> item_wf(#[trigger] m.items@[j]),
        decreases n - i,
    {
        proof {
            assert(decreases_to!(m => m.items));
            assert(decreases_to!(m.items => m.items@));
            assert(decreases_to!(m.items@ => m.items@[i as int]));
        }
        if !item_is_well_formed(&m.items[i]) {
            return false;
        }
        i = i + 1;
    }
    true
}

} // verus!
