//! Properties of the library that relate several calls or hold for all inputs.
use vstd::prelude::*;
use crate::decimal::{Decimal, spec_value_valid, spec_step_valid, step_base};
use crate::item::{ItemKind, advanced_kind, cycled};
use crate::render::{TermOp, same_items, line_text, value_text, value_column};
use crate::menu::TerminalMenuStruct;
use crate::session::longest_name_of;
use crate::item::TerminalMenuItem;
use crate::session::{Session, Key, key_step, vertical, is_press, values_of, selected_index};
use vstd::arithmetic::div_mod::{lemma_small_mod, lemma_add_mod_noop, lemma_mod_add_multiples_vanish};

verus! {

/// `kind` after `k` right (or left) key presses.
pub open spec fn advanced_times(kind: ItemKind, to_right: bool, k: nat) -> ItemKind
    decreases k,
{
    if k == 0 {
        kind
    } else {
        advanced_kind(advanced_times(kind, to_right, (k - 1) as nat), to_right)
    }
}

proof fn lemma_cycled_times(kind: ItemKind, to_right: bool, k: nat)
    requires
        kind is Scroll || kind is List,
        0 <= selected_index(kind) < values_of(kind).len() <= usize::MAX,
    ensures
        ({
            let adv = advanced_times(kind, to_right, k);
            let s = selected_index(kind);
            let n = values_of(kind).len() as int;
            &&& kind is Scroll ==> adv is Scroll && adv->Scroll_values == kind->Scroll_values
            &&& kind is List ==> adv is List && adv->List_values == kind->List_values
            &&& selected_index(adv) == if to_right { (s + k) % n } else { (s - k) % n }
        }),
    decreases k,
{
    let s = selected_index(kind);
    let n = values_of(kind).len() as int;
    if k > 0 {
        lemma_cycled_times(kind, to_right, (k - 1) as nat);
        let prev = if to_right { (s + k - 1) % n } else { (s - (k - 1)) % n };
        let target = if to_right { (s + k) % n } else { (s - k) % n };
        assert(0 <= prev < n);
        assert(0 <= target < n);
        if to_right {
            lemma_add_mod_noop(s + k - 1, 1, n);
            lemma_mod_add_multiples_vanish(prev - 1, n);
            if n > 1 {
                lemma_small_mod(1, n as nat);
            } else {
                assert(1int % 1int == 0);
            }
        } else {
            lemma_add_mod_noop(s - k + 1, -1, n);
            lemma_mod_add_multiples_vanish(-1, n);
            lemma_small_mod((n - 1) as nat, n as nat);
        }
        assert(cycled(prev, n, to_right) == target);
    } else {
        lemma_small_mod(s as nat, n as nat);
    }
}

/// Pressing Right (or Left) as many times as a scroll or list has values
/// brings its selection back to where it started.
pub proof fn lemma_selection_cycle(kind: ItemKind, to_right: bool)
    requires
        kind is Scroll || kind is List,
        crate::item::item_wf(crate::item::TerminalMenuItem {
            name: arbitrary(),
            kind,
            color: arbitrary(),
            last_print_len: 0,
        }),
    ensures
        advanced_times(kind, to_right, values_of(kind).len()) == kind,
{
    let n = values_of(kind).len() as int;
    let s = selected_index(kind);
    match kind {
        ItemKind::Scroll { values, .. } => {
            vstd::std_specs::vec::axiom_spec_len(&values);
        },
        ItemKind::List { values, .. } => {
            vstd::std_specs::vec::axiom_spec_len(&values);
        },
        _ => {},
    }
    lemma_cycled_times(kind, to_right, n as nat);
    lemma_mod_add_multiples_vanish(s, n);
    lemma_mod_add_multiples_vanish(s - n, n);
    lemma_small_mod(s as nat, n as nat);
}

proof fn lemma_numeric_right_times(kind: ItemKind, k: nat)
    requires
        kind matches ItemKind::Numeric { value, step: Some(st), max: Some(hi), .. } && value@ <= hi@ && 0 < st@,
    ensures
        advanced_times(kind, true, k) matches ItemKind::Numeric { value: w, step, min, max } && step == kind->Numeric_step
            && min == kind->Numeric_min && max == kind->Numeric_max && w@ == if kind->Numeric_value@ + k
            * kind->Numeric_step->Some_0@ >= kind->Numeric_max->Some_0@ {
            kind->Numeric_max->Some_0@
        } else {
            kind->Numeric_value@ + k * kind->Numeric_step->Some_0@
        },
    decreases k,
{
    if k > 0 {
        lemma_numeric_right_times(kind, (k - 1) as nat);
        let st = kind->Numeric_step->Some_0@;
        assert(k * st == (k - 1) * st + st) by (nonlinear_arith);
    }
}

proof fn lemma_numeric_left_times(kind: ItemKind, k: nat)
    requires
        kind matches ItemKind::Numeric { value, step: Some(st), min: Some(lo), .. } && lo@ <= value@ && 0 < st@,
    ensures
        advanced_times(kind, false, k) matches ItemKind::Numeric { value: w, step, min, max } && step == kind->Numeric_step
            && min == kind->Numeric_min && max == kind->Numeric_max && w@ == if kind->Numeric_value@ - k
            * kind->Numeric_step->Some_0@ <= kind->Numeric_min->Some_0@ {
            kind->Numeric_min->Some_0@
        } else {
            kind->Numeric_value@ - k * kind->Numeric_step->Some_0@
        },
    decreases k,
{
    if k > 0 {
        lemma_numeric_left_times(kind, (k - 1) as nat);
        let st = kind->Numeric_step->Some_0@;
        assert(k * st == (k - 1) * st + st) by (nonlinear_arith);
    }
}

/// Pressing Right on a numeric item with a step and both bounds at least
/// `(max - min) / step` times leaves it at its maximum, and Left as often at
/// its minimum; further presses keep it there.
pub proof fn lemma_numeric_clamps(kind: ItemKind, k: nat)
    requires
        kind matches ItemKind::Numeric { value, step: Some(st), min: Some(lo), max: Some(hi) } && spec_value_valid(
            value,
            Some(st),
            Some(lo),
            Some(hi),
        ) && spec_step_valid(Some(st), Some(lo), Some(hi)) && k * st@ >= hi@ - lo@,
    ensures
        advanced_times(kind, true, k)->Numeric_value == kind->Numeric_max->Some_0,
        advanced_times(kind, false, k)->Numeric_value == kind->Numeric_min->Some_0,
        advanced_times(kind, true, k + 1)->Numeric_value == kind->Numeric_max->Some_0,
        advanced_times(kind, false, k + 1)->Numeric_value == kind->Numeric_min->Some_0,
{
    lemma_numeric_right_times(kind, k);
    lemma_numeric_left_times(kind, k);
    lemma_numeric_right_times(kind, k + 1);
    lemma_numeric_left_times(kind, k + 1);
    let st = kind->Numeric_step->Some_0@;
    assert((k + 1) * st == k * st + st) by (nonlinear_arith);
}

/// `value_valid` refuses a value below the minimum, above the maximum, or
/// not a whole number of steps away from the step base.
pub proof fn lemma_value_valid_rejects(value: Decimal, step: Option<Decimal>, min: Option<Decimal>, max: Option<Decimal>)
    ensures
        min matches Some(lo) && value@ < lo@ ==> !spec_value_valid(value, step, min, max),
        max matches Some(hi) && value@ > hi@ ==> !spec_value_valid(value, step, min, max),
        step matches Some(st) && (value@ - step_base(min, max)) % st@ != 0 ==> !spec_value_valid(value, step, min, max),
{
}

proof fn lemma_navigation_prefix(run: Seq<Session>, keys: Seq<Key>, outs: Seq<Seq<TermOp>>, j: int)
    requires
        run.len() == keys.len() + 1,
        outs.len() == keys.len(),
        0 <= j < run.len(),
        forall|i: int| 0 <= i < keys.len() ==> key_step(#[trigger] run[i], run[i + 1], keys[i], outs[i]),
        forall|i: int| 0 <= i < j ==> (#[trigger] vertical(keys[i])) is Some,
        run[0].parents@.len() == 0,
    ensures
        run[j].parents@.len() == 0,
        same_items(run[j].current.items@, run[0].current.items@),
    decreases j,
{
    if j > 0 {
        lemma_navigation_prefix(run, keys, outs, j - 1);
        assert(key_step(run[j - 1], run[j], keys[j - 1], outs[j - 1]));
        assert(vertical(keys[j - 1]) is Some);
        let a = run[j - 1].current.items@;
        let b = run[j].current.items@;
        let z = run[0].current.items@;
        assert forall|k: int| 0 <= k < b.len() implies (#[trigger] b[k]).name == z[k].name && b[k].kind == z[k].kind
            && b[k].color == z[k].color by {
            assert(a[k].name == z[k].name);
        }
    }
}

/// Keys that only move the highlight, then a press of a button, close a menu
/// opened on its own with the value of every item as it was before.
pub proof fn lemma_navigation_keeps_values(run: Seq<Session>, keys: Seq<Key>, outs: Seq<Seq<TermOp>>)
    requires
        keys.len() >= 1,
        run.len() == keys.len() + 1,
        outs.len() == keys.len(),
        forall|i: int| 0 <= i < keys.len() ==> key_step(#[trigger] run[i], run[i + 1], keys[i], outs[i]),
        forall|i: int| 0 <= i < keys.len() - 1 ==> (#[trigger] vertical(keys[i])) is Some,
        is_press(keys.last()),
        run[0].parents@.len() == 0,
        run[keys.len() - 1].current.items@[run[keys.len() - 1].current.selected as int].kind is Button,
    ensures
        run.last().finished,
        run.last().current.exited,
        same_items(run.last().current.items@, run[0].current.items@),
{
    let n = keys.len() as int;
    lemma_navigation_prefix(run, keys, outs, n - 1);
    assert(key_step(run[n - 1], run[n], keys[n - 1], outs[n - 1]));
    assert(vertical(keys[n - 1]) is None);
    let a = run[n - 1].current.items@;
    let b = run[n].current.items@;
    let z = run[0].current.items@;
    assert forall|k: int| 0 <= k < b.len() implies (#[trigger] b[k]).name == z[k].name && b[k].kind == z[k].kind
        && b[k].color == z[k].color by {
        assert(a[k].name == z[k].name);
    }
}

/// On the alternate screen the highlighted item is on a row between the two
/// ellipses, from `1` to `height - 2`, in every well-formed session.
pub proof fn lemma_highlight_on_screen(s: Session)
    requires
        s.wf(),
        s.current.mode is Altscreen,
    ensures
        1 <= 1 + s.current.selected - s.current.mode->topmost <= s.height - 2,
        s.current.mode->topmost + s.height - 2 <= s.current.items@.len(),
{
}

proof fn lemma_longest_name_bounds(items: Seq<TerminalMenuItem>, i: int)
    requires
        0 <= i < items.len(),
    ensures
        items[i].name@.len() <= longest_name_of(items),
    decreases items.len(),
{
    if i < items.len() - 1 {
        lemma_longest_name_bounds(items.drop_last(), i);
    }
}

/// Once a menu has measured its longest name, the value of every item starts
/// at the value column in a full print, which is where a repaint of the value
/// alone writes it.
pub proof fn lemma_value_column_consistent(m: TerminalMenuStruct, i: int)
    requires
        0 <= i < m.items@.len(),
        m.longest_name as nat == longest_name_of(m.items@),
    ensures
        line_text(m, i).len() == value_column(m) + value_text(m.items@[i].kind).len(),
        line_text(m, i).skip(value_column(m)) == value_text(m.items@[i].kind),
{
    lemma_longest_name_bounds(m.items@, i);
    let l = line_text(m, i);
    let v = value_text(m.items@[i].kind);
    assert(l.skip(value_column(m)) =~= v);
}

} // verus!
