//! Menu items: the kinds of row a menu can hold and their selection state.
use vstd::prelude::*;
use crate::decimal::{Decimal, spec_value_valid, spec_step_valid, step_base};
use vstd::arithmetic::div_mod::{lemma_mod_add_multiples_vanish, lemma_mod_sub_multiples_vanish, lemma_sub_mod_noop, lemma_fundamental_div_mod, lemma_small_mod};
use crate::menu::{TerminalMenuStruct, menu_wf, menu};
use crossterm::style::Color;

verus! {

/// The colors of `crossterm`, carried through unchanged for the caller's display.
#[verifier::external_type_specification]
#[verifier::external_body]
pub struct ExColor(Color);

/// What an item is, with its selection state.
pub enum ItemKind {
    /// Static text; never highlighted.
    Label,
    /// Closes the menu and every enclosing menu.
    Button,
    /// Closes the menu and returns to the enclosing one.
    BackButton,
    /// One value out of `values`, of which only the selected one is shown.
    Scroll { values: Vec<String>, selected: usize },
    /// One value out of `values`, all of them shown.
    List { values: Vec<String>, selected: usize },
    /// Free text.
    Text { value: String, allow_empty: bool },
    /// A number moved by `step` within `[min, max]`.
    Numeric { value: Decimal, step: Option<Decimal>, min: Option<Decimal>, max: Option<Decimal> },
    /// A nested menu.
    Submenu(TerminalMenuStruct),
}

/// One row of a menu.
pub struct TerminalMenuItem {
    pub name: String,
    pub kind: ItemKind,
    pub color: Color,
    pub last_print_len: usize,
}

/// An item's own state is consistent: a selection indexes its non-empty
/// values, a number is valid for its step and bounds, and a nested menu is
/// well formed.
pub open spec fn item_wf(item: TerminalMenuItem) -> bool
    decreases item,
{
    match item.kind {
        ItemKind::Scroll { values, selected } => 0 < values@.len() && selected < values@.len(),
        ItemKind::List { values, selected } => 0 < values@.len() && selected < values@.len(),
        ItemKind::Numeric { value, step, min, max } => spec_value_valid(value, step, min, max)
            && spec_step_valid(step, min, max),
        ItemKind::Submenu(m) => menu_wf(m),
        _ => true,
    }
}

/// The item can be highlighted: it is anything but a label.
pub open spec fn selectable(item: TerminalMenuItem) -> bool {
    !(item.kind is Label)
}

/// The view of a list of strings.
pub open spec fn strings_view(v: Seq<String>) -> Seq<Seq<char>> {
    v.map_values(|s: String| s@)
}

/// Relies on `crossterm::style::Color::White`, the color an item starts with.
#[verifier::external_body]
fn default_color() -> Color {
    Color::White
}

fn new_item(name: &str, kind: ItemKind) -> (r: TerminalMenuItem)
    ensures
        r.name@ == name@,
        r.kind == kind,
        r.last_print_len == 0,
{
    TerminalMenuItem { name: String::from_str(name), kind, color: default_color(), last_print_len: 0 }
}

fn to_strings(values: &Vec<&str>) -> (r: Vec<String>)
    ensures
        strings_view(r@) == values@.map_values(|s: &str| s@),
{
    let mut r: Vec<String> = Vec::new();
    let mut i: usize = 0;
    while i < values.len()
        invariant
            i <= values@.len(),
            strings_view(r@) == values@.take(i as int).map_values(|s: &str| s@),
        decreases values@.len() - i,
    {
        let ghost before = r@;
        let x = String::from_str(values[i]);
        r.push(x);
        proof {
            assert(strings_view(r@) =~= strings_view(before).push(x@));
            assert(values@.take(i as int + 1) =~= values@.take(i as int).push(values@[i as int]));
            assert(values@.take(i as int + 1).map_values(|s: &str| s@) =~= values@.take(i as int).map_values(
                |s: &str| s@,
            ).push(values@[i as int]@));
        }
        i = i + 1;
    }
    proof {
        assert(values@.take(values@.len() as int) =~= values@);
    }
    r
}

/// A label: static text that cannot be highlighted, for a title, a separator
/// or help text.
pub fn label(text: &str) -> (r: TerminalMenuItem)
    ensures
        r.name@ == text@,
        r.kind is Label,
        item_wf(r),
{
    new_item(text, ItemKind::Label)
}

/// A button: pressing it closes the menu together with every enclosing menu.
pub fn button(name: &str) -> (r: TerminalMenuItem)
    ensures
        r.name@ == name@,
        r.kind is Button,
        item_wf(r),
{
    new_item(name, ItemKind::Button)
}

/// A back button: pressing it returns to the enclosing menu, or closes the
/// menu when there is none.
pub fn back_button(name: &str) -> (r: TerminalMenuItem)
    ensures
        r.name@ == name@,
        r.kind is BackButton,
        item_wf(r),
{
    new_item(name, ItemKind::BackButton)
}

/// An item that selects one of `values` and shows only the selected one; the
/// first value starts selected.
pub fn scroll(name: &str, values: Vec<&str>) -> (r: TerminalMenuItem)
    requires
        values@.len() > 0,
    ensures
        r.name@ == name@,
        match r.kind {
            ItemKind::Scroll { values: vs, selected } => strings_view(vs@) == values@.map_values(|s: &str| s@)
                && selected == 0,
            _ => false,
        },
        item_wf(r),
{
    let vs = to_strings(&values);
    proof {
        assert(strings_view(vs@).len() == vs@.len());
    }
    new_item(name, ItemKind::Scroll { values: vs, selected: 0 })
}

/// An item that selects one of `values` and shows them all, the selected one
/// in brackets; the first value starts selected.
pub fn list(name: &str, values: Vec<&str>) -> (r: TerminalMenuItem)
    requires
        values@.len() > 0,
    ensures
        r.name@ == name@,
        match r.kind {
            ItemKind::List { values: vs, selected } => strings_view(vs@) == values@.map_values(|s: &str| s@)
                && selected == 0,
            _ => false,
        },
        item_wf(r),
{
    let vs = to_strings(&values);
    proof {
        assert(strings_view(vs@).len() == vs@.len());
    }
    new_item(name, ItemKind::List { values: vs, selected: 0 })
}

/// A free-text item holding `default`.
pub fn string(name: &str, default: &str, allow_empty: bool) -> (r: TerminalMenuItem)
    ensures
        r.name@ == name@,
        match r.kind {
            ItemKind::Text { value, allow_empty: ae } => value@ == default@ && ae == allow_empty,
            _ => false,
        },
        item_wf(r),
{
    new_item(name, ItemKind::Text { value: String::from_str(default), allow_empty })
}

/// A numeric item holding `default`, moved by `step` (when given) within the
/// given bounds.
pub fn numeric(
    name: &str,
    default: Decimal,
    step: Option<Decimal>,
    min: Option<Decimal>,
    max: Option<Decimal>,
) -> (r: TerminalMenuItem)
    requires
        spec_value_valid(default, step, min, max),
        spec_step_valid(step, min, max),
    ensures
        r.name@ == name@,
        r.kind == (ItemKind::Numeric { value: default, step, min, max }),
        item_wf(r),
{
    new_item(name, ItemKind::Numeric { value: default, step, min, max })
}

/// An item that opens a nested menu of `items`.
pub fn submenu(name: &str, items: Vec<TerminalMenuItem>) -> (r: TerminalMenuItem)
    requires
        forall|i: int| 0 <= i < items@.len() ==> item_wf(#[trigger] items@[i]),
        exists|i: int| 0 <= i < items@.len() && selectable(#[trigger] items@[i]),
    ensures
        r.name@ == name@,
        match r.kind {
            ItemKind::Submenu(m) => m.items@ == items@,
            _ => false,
        },
        item_wf(r),
{
    let m = menu(items);
    new_item(name, ItemKind::Submenu(m))
}

impl TerminalMenuItem {
    /// The item's name, which is also its label.
    pub fn name(&self) -> (r: &str)
        ensures
            r@ == self.name@,
    {
        self.name.as_str()
    }

    /// The item with `color` to print it in.
    pub fn colorize(self, color: Color) -> (r: Self)
        ensures
            r.name == self.name,
            r.kind == self.kind,
            r.color == color,
    {
        let mut s = self;
        s.color = color;
        s
    }

    /// The color to print the item in.
    pub fn color(&self) -> (r: Color)
        ensures
            r == self.color,
    {
        self.color
    }
}

/// The index one step to the right (or left) of `s` among `n` values, wrapping
/// around at both ends.
pub open spec fn cycled(s: int, n: int, to_right: bool) -> int {
    if to_right {
        (s + 1) % n
    } else {
        (s + n - 1) % n
    }
}

/// Moves a selected index one step right or left among `values_len` values,
/// wrapping around at both ends.
pub fn inc_or_dec_selection_item(selected: &mut usize, values_len: usize, to_right: bool)
    requires
        *old(selected) < values_len,
    ensures
        *final(selected) as int == cycled(*old(selected) as int, values_len as int, to_right),
        *final(selected) < values_len,
{
    proof {
        let s = *selected as int;
        let n = values_len as int;
        if s + 1 < n {
            lemma_small_mod((s + 1) as nat, n as nat);
        }
        lemma_mod_add_multiples_vanish(0, n);
        lemma_mod_add_multiples_vanish(s - 1, n);
        if s > 0 {
            lemma_small_mod((s - 1) as nat, n as nat);
        }
        lemma_small_mod((n - 1) as nat, n as nat);
    }
    if to_right {
        if *selected == values_len - 1 {
            *selected = 0;
        } else {
            *selected = *selected + 1;
        }
    } else {
        if *selected == 0 {
            *selected = values_len - 1;
        } else {
            *selected = *selected - 1;
        }
    }
}

/// A numeric value moved one step right (up) or left (down). It stops at a
/// given bound; with no bound on that side, a move that would leave the range
/// of `Decimal` does nothing.
pub open spec fn stepped(v: int, step: int, min: Option<Decimal>, max: Option<Decimal>, to_right: bool) -> int {
    if to_right {
        match max {
            Some(hi) => if v + step > hi@ { hi@ } else { v + step },
            None => if v + step > i64::MAX { v } else { v + step },
        }
    } else {
        match min {
            Some(lo) => if v - step < lo@ { lo@ } else { v - step },
            None => if v - step < i64::MIN { v } else { v - step },
        }
    }
}

/// What a right (or left) key press makes of an item's kind: a selection
/// cycles, a number with a step moves by it, everything else stays.
pub open spec fn advanced_kind(kind: ItemKind, to_right: bool) -> ItemKind {
    match kind {
        ItemKind::Scroll { values, selected } => ItemKind::Scroll {
            values,
            selected: cycled(selected as int, values@.len() as int, to_right) as usize,
        },
        ItemKind::List { values, selected } => ItemKind::List {
            values,
            selected: cycled(selected as int, values@.len() as int, to_right) as usize,
        },
        ItemKind::Numeric { value, step: Some(st), min, max } => ItemKind::Numeric {
            value: Decimal { units: stepped(value@, st@, min, max, to_right) as i64 },
            step: Some(st),
            min,
            max,
        },
        _ => kind,
    }
}

/// Whether a right (or left) key press changes what the item shows: always
/// for a selection, for a number when its value moves.
pub open spec fn advance_shows(kind: ItemKind, to_right: bool) -> bool {
    match kind {
        ItemKind::Scroll { .. } => true,
        ItemKind::List { .. } => true,
        ItemKind::Numeric { value, step: Some(st), min, max } => stepped(value@, st@, min, max, to_right) != value@,
        _ => false,
    }
}

proof fn lemma_multiple_at_least(x: int, s: int)
    requires
        0 < s,
        0 < x,
        x % s == 0,
    ensures
        s <= x,
{
    lemma_fundamental_div_mod(x, s);
    assert(x == s * (x / s));
    if x / s <= 0 {
        assert(s * (x / s) <= 0) by (nonlinear_arith)
            requires
                0 < s,
                x / s <= 0,
        ;
    } else {
        assert(s * (x / s) >= s) by (nonlinear_arith)
            requires
                0 < s,
                x / s >= 1,
        ;
    }
}

/// A step keeps a valid number valid.
proof fn lemma_stepped_valid(v: Decimal, st: Decimal, min: Option<Decimal>, max: Option<Decimal>, to_right: bool)
    requires
        spec_value_valid(v, Some(st), min, max),
        spec_step_valid(Some(st), min, max),
    ensures
        i64::MIN <= stepped(v@, st@, min, max, to_right) <= i64::MAX,
        spec_value_valid(
            Decimal { units: stepped(v@, st@, min, max, to_right) as i64 },
            Some(st),
            min,
            max,
        ),
{
    let s = st@;
    let base = step_base(min, max);
    let n = stepped(v@, s, min, max, to_right);
    lemma_mod_add_multiples_vanish(v@ - base, s);
    lemma_mod_sub_multiples_vanish(v@ - base, s);
    assert((v@ + s - base) % s == 0);
    assert((v@ - s - base) % s == 0);
    if let Some(hi) = max {
        // the maximum lies a whole number of steps from the base
        match min {
            None => {
                assert(hi@ - base == 0);
                lemma_small_mod(0, s as nat);
            },
            Some(lo) => {
                assert(base == lo@);
                assert((hi@ - lo@) % s == 0);
            },
        }
        assert((hi@ - base) % s == 0);
        if to_right && v@ < hi@ {
            lemma_sub_mod_noop(hi@ - base, v@ - base, s);
            assert((hi@ - v@) % s == 0);
            lemma_multiple_at_least(hi@ - v@, s);
        }
    }
    if let Some(lo) = min {
        if !to_right && v@ > lo@ {
            assert((lo@ - base) == 0);
            assert((v@ - lo@) % s == 0);
            lemma_multiple_at_least(v@ - lo@, s);
        }
    }
    if to_right && max is None {
        if min is Some {
            assert(base <= v@);
        }
    }
}

impl TerminalMenuItem {
    /// Applies a right (or left) key press to the item and tells whether what
    /// it shows changed.
    pub fn advance(&mut self, to_right: bool) -> (r: bool)
        requires
            item_wf(*old(self)),
        ensures
            final(self).kind == advanced_kind(old(self).kind, to_right),
            final(self).name == old(self).name,
            final(self).color == old(self).color,
            final(self).last_print_len == old(self).last_print_len,
            r == advance_shows(old(self).kind, to_right),
            item_wf(*final(self)),
    {
        match &mut self.kind {
            ItemKind::Scroll { values, selected } => {
                inc_or_dec_selection_item(selected, values.len(), to_right);
                true
            },
            ItemKind::List { values, selected } => {
                inc_or_dec_selection_item(selected, values.len(), to_right);
                true
            },
            ItemKind::Numeric { value, step, min, max } => {
                match step {
                    Some(st) => {
                        let ghost old_value = *value;
                        proof {
                            lemma_stepped_valid(*value, *st, *min, *max, to_right);
                        }
                        let v = value.units as i128;
                        let s = st.units as i128;
                        let n: i128 = if to_right {
                            match max {
                                Some(hi) => if v + s > hi.units as i128 { hi.units as i128 } else { v + s },
                                None => if v + s > i64::MAX as i128 { v } else { v + s },
                            }
                        } else {
                            match min {
                                Some(lo) => if v - s < lo.units as i128 { lo.units as i128 } else { v - s },
                                None => if v - s < i64::MIN as i128 { v } else { v - s },
                            }
                        };
                        let changed = n != v;
                        *value = Decimal { units: n as i64 };
                        changed
                    },
                    None => false,
                }
            },
            _ => false,
        }
    }
}

} // verus!
