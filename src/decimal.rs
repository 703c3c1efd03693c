//! Fixed-point decimal numbers for numeric menu items.
//!
//! A `Decimal` holds an exact count of millionths, so stepping, range checks
//! and alignment checks are exact integer arithmetic.
use vstd::prelude::*;
use crate::text::push_char;

verus! {

/// Number of digits after the decimal point that a `Decimal` can hold.
pub const FRACTION_DIGITS: usize = 6;

/// Units of a `Decimal` in one whole number.
pub const UNITS_PER_ONE: i64 = 1000000;

/// A decimal number with six fractional digits, stored as a count of millionths.
#[derive(Clone, Copy, Debug, PartialEq, Eq, Structural)]
pub struct Decimal {
    pub units: i64,
}

impl View for Decimal {
    type V = int;

    open spec fn view(&self) -> int {
        self.units as int
    }
}

impl Decimal {
    /// The number `units / 1_000_000`.
    pub fn from_units(units: i64) -> (r: Decimal)
        ensures
            r@ == units as int,
    {
        Decimal { units }
    }

    /// The whole number `n`.
    pub fn from_int(n: i32) -> (r: Decimal)
        ensures
            r@ == n as int * UNITS_PER_ONE as int,
    {
        Decimal { units: n as i64 * UNITS_PER_ONE }
    }

    /// The count of millionths.
    pub fn units(&self) -> (r: i64)
        ensures
            r as int == self@,
    {
        self.units
    }
}

/// `10^k`.
pub open spec fn pow10(k: nat) -> int
    decreases k,
{
    if k == 0 {
        1
    } else {
        10 * pow10((k - 1) as nat)
    }
}

/// The digits after the point that a value of `u` millionths needs: the least
/// `p` such that `u` is a multiple of `10^(6 - p)`.
pub open spec fn needed_precision(u: int) -> nat {
    if u % 1000000 == 0 {
        0
    } else if u % 100000 == 0 {
        1
    } else if u % 10000 == 0 {
        2
    } else if u % 1000 == 0 {
        3
    } else if u % 100 == 0 {
        4
    } else if u % 10 == 0 {
        5
    } else {
        6
    }
}

/// Number of fractional digits to print `n` with: as many as its shortest exact
/// decimal form has, so `2.5` prints as `2.5`.
pub fn float_printing_precision(n: Decimal) -> (r: usize)
    ensures
        r as nat == needed_precision(n@),
        r <= FRACTION_DIGITS,
{
    precision_of(n.units as i128)
}

fn precision_of(u: i128) -> (r: usize)
    requires
        formattable(u as int),
    ensures
        r as nat == needed_precision(u as int),
        r <= FRACTION_DIGITS,
{
    if divides(u, 1000000) {
        0
    } else if divides(u, 100000) {
        1
    } else if divides(u, 10000) {
        2
    } else if divides(u, 1000) {
        3
    } else if divides(u, 100) {
        4
    } else if divides(u, 10) {
        5
    } else {
        6
    }
}

/// Whether `u` is a multiple of the positive number `d`.
fn divides(u: i128, d: i128) -> (r: bool)
    requires
        0 < d,
        formattable(u as int),
    ensures
        r == (u as int % d as int == 0),
{
    match u.checked_rem_euclid(d) {
        Some(rem) => rem == 0,
        None => false,
    }
}

/// Value of an optional decimal, or `d` when it is absent.
pub open spec fn opt_or(o: Option<Decimal>, d: int) -> int {
    match o {
        Some(x) => x@,
        None => d,
    }
}

/// The value a numeric item's steps count from: the minimum, else the
/// maximum, else zero.
pub open spec fn step_base(min: Option<Decimal>, max: Option<Decimal>) -> int {
    match min {
        Some(m) => m@,
        None => opt_or(max, 0),
    }
}

/// `value` lies within the given bounds and, when a step is given, is a whole
/// number of steps away from the step base.
pub open spec fn spec_value_valid(
    value: Decimal,
    step: Option<Decimal>,
    min: Option<Decimal>,
    max: Option<Decimal>,
) -> bool {
    &&& (min matches Some(lo) ==> lo@ <= value@)
    &&& (max matches Some(hi) ==> value@ <= hi@)
    &&& (step matches Some(s) ==> s@ != 0 && (value@ - step_base(min, max)) % s@ == 0)
}

/// A step is positive and, when both bounds are given, smaller than the range
/// and divides it evenly.
pub open spec fn spec_step_valid(step: Option<Decimal>, min: Option<Decimal>, max: Option<Decimal>) -> bool {
    match step {
        None => true,
        Some(s) => 0 < s@ && match (min, max) {
            (Some(lo), Some(hi)) => s@ < hi@ - lo@ && (hi@ - lo@) % s@ == 0,
            _ => true,
        },
    }
}

/// Whether `value` is acceptable for a numeric item with the given step and bounds.
pub fn value_valid(value: Decimal, step: Option<Decimal>, min: Option<Decimal>, max: Option<Decimal>) -> (r: bool)
    ensures
        r == spec_value_valid(value, step, min, max),
{
    if let Some(lo) = min {
        if value.units < lo.units {
            return false;
        }
    }
    if let Some(hi) = max {
        if value.units > hi.units {
            return false;
        }
    }
    if let Some(s) = step {
        if s.units == 0 {
            return false;
        }
        let base: i128 = match min {
            Some(lo) => lo.units as i128,
            None => match max {
                Some(hi) => hi.units as i128,
                None => 0,
            },
        };
        let diff: i128 = value.units as i128 - base;
        match diff.checked_rem_euclid(s.units as i128) {
            Some(rem) => {
                if rem != 0 {
                    return false;
                }
            },
            None => {
                return false;
            },
        }
    }
    true
}

/// Whether `step` is acceptable for a numeric item with the given bounds.
pub fn step_valid(step: Option<Decimal>, min: Option<Decimal>, max: Option<Decimal>) -> (r: bool)
    ensures
        r == spec_step_valid(step, min, max),
{
    match step {
        None => true,
        Some(s) => {
            if s.units <= 0 {
                return false;
            }
            match (min, max) {
                (Some(lo), Some(hi)) => {
                    let range: i128 = hi.units as i128 - lo.units as i128;
                    (s.units as i128) < range && range % (s.units as i128) == 0
                },
                _ => true,
            }
        },
    }
}

/// The decimal digit character for `d < 10`.
pub open spec fn digit_char(d: int) -> char {
    seq!['0', '1', '2', '3', '4', '5', '6', '7', '8', '9'][d]
}

/// The decimal digits of `n`, most significant first, without leading zeros.
pub open spec fn digits_of(n: nat) -> Seq<char>
    decreases n,
{
    if n < 10 {
        seq![digit_char(n as int)]
    } else {
        digits_of(n / 10).push(digit_char(n as int % 10))
    }
}

/// The first `p` digits of the six-digit fraction `f` (a count of millionths).
pub open spec fn fraction_digits(f: nat, p: nat) -> Seq<char> {
    Seq::new(p, |k: int| digit_char((f as int / pow10((5 - k) as nat)) % 10))
}

/// `u` millionths written with `p` digits after the point: a `-` for a
/// negative value, the whole part, then a point and the fraction if `p > 0`.
pub open spec fn decimal_text(u: int, p: nat) -> Seq<char> {
    let a = if u < 0 { -u } else { u };
    let sign = if u < 0 { seq!['-'] } else { Seq::<char>::empty() };
    let frac = if p == 0 { Seq::<char>::empty() } else { seq!['.'] + fraction_digits((a % 1000000) as nat, p) };
    sign + digits_of((a / 1000000) as nat) + frac
}

/// `u` millionths in its shortest exact decimal form.
pub open spec fn shortest_text(u: int) -> Seq<char> {
    decimal_text(u, needed_precision(u))
}

/// Bound on the magnitudes the formatter accepts: room for sums of two `i64`.
pub open spec fn formattable(u: int) -> bool {
    -0x2_0000_0000_0000_0000 < u < 0x2_0000_0000_0000_0000
}

fn digit(d: u128) -> (c: char)
    requires
        d < 10,
    ensures
        c == digit_char(d as int),
{
    if d == 0 { '0' } else if d == 1 { '1' } else if d == 2 { '2' } else if d == 3 { '3' }
    else if d == 4 { '4' } else if d == 5 { '5' } else if d == 6 { '6' } else if d == 7 { '7' }
    else if d == 8 { '8' } else { '9' }
}

/// Appends the digits of `n` to `s`.
fn push_digits(s: &mut String, n: u128)
    ensures
        final(s)@ == old(s)@ + digits_of(n as nat),
{
    let mut rev: Vec<char> = Vec::new();
    let mut q: u128 = n;
    while q >= 10
        invariant
            digits_of(n as nat) == digits_of(q as nat) + rev@.reverse(),
        decreases q,
    {
        let ghost old_rev = rev@;
        rev.push(digit(q % 10));
        proof {
            assert(rev@.reverse() =~= seq![digit_char(q as int % 10)] + old_rev.reverse());
            assert(digits_of(q as nat) == digits_of((q / 10) as nat).push(digit_char(q as int % 10)));
            assert(digits_of(q as nat) + old_rev.reverse() =~= digits_of((q / 10) as nat) + rev@.reverse());
        }
        q = q / 10;
    }
    rev.push(digit(q));
    proof {
        assert(digits_of(q as nat) == seq![digit_char(q as int)]);
        assert(digits_of(n as nat) =~= rev@.reverse());
    }
    let ghost start = s@;
    let mut i: usize = rev.len();
    while i > 0
        invariant
            i <= rev@.len(),
            s@ == start + rev@.reverse().take(rev@.len() - i),
        decreases i,
    {
        i = i - 1;
        push_char(s, rev[i]);
        proof {
            let r = rev@.reverse();
            assert(r.take(rev@.len() - i) =~= r.take(rev@.len() - i - 1).push(rev@[i as int]));
        }
    }
    proof {
        assert(rev@.reverse().take(rev@.len() as int) =~= rev@.reverse());
    }
}

/// Appends the first `p` digits of the six-digit fraction `f` to `s`.
fn push_fraction(s: &mut String, f: u128, p: usize)
    requires
        p <= FRACTION_DIGITS,
    ensures
        final(s)@ == old(s)@ + fraction_digits(f as nat, p as nat),
{
    let ghost start = s@;
    let mut k: usize = 0;
    let mut div: u128 = 100000;
    proof {
        reveal_with_fuel(pow10, 6);
    }
    while k < p
        invariant
            k <= p <= 6,
            k <= 5 ==> div as int == pow10((5 - k) as nat),
            s@ == start + fraction_digits(f as nat, k as nat),
        decreases p - k,
    {
        proof {
            reveal_with_fuel(pow10, 6);
        }
        push_char(s, digit((f / div) % 10));
        proof {
            assert(fraction_digits(f as nat, k as nat + 1) =~= fraction_digits(f as nat, k as nat).push(
                digit_char((f as int / pow10((5 - k) as nat)) % 10),
            ));
            reveal_with_fuel(pow10, 6);
        }
        div = div / 10;
        k = k + 1;
    }
}

/// `u` millionths in its shortest exact decimal form.
pub fn format_units(u: i128) -> (r: String)
    requires
        formattable(u as int),
    ensures
        r@ == shortest_text(u as int),
{
    let p = precision_of(u);
    let mut s = String::new();
    let a: u128 = if u < 0 { (-u) as u128 } else { u as u128 };
    if u < 0 {
        push_char(&mut s, '-');
    }
    push_digits(&mut s, a / 1000000);
    if p > 0 {
        push_char(&mut s, '.');
        push_fraction(&mut s, a % 1000000, p);
    }
    proof {
        let sign = if u < 0 { seq!['-'] } else { Seq::<char>::empty() };
        let frac = if p == 0 { Seq::<char>::empty() } else {
            seq!['.'] + fraction_digits((a as int % 1000000) as nat, p as nat)
        };
        assert(s@ =~= sign + digits_of((a as int / 1000000) as nat) + frac);
    }
    s
}

impl Decimal {
    /// The number in its shortest exact decimal form, such as `2.5` or `-3`.
    pub fn to_text(&self) -> (r: String)
        ensures
            r@ == shortest_text(self@),
    {
        format_units(self.units as i128)
    }
}

/// The hint shown before a number is typed in: the values a numeric item with
/// the given step and bounds accepts, as an interval or an inequality.
pub open spec fn range_indicator(step: Option<Decimal>, min: Option<Decimal>, max: Option<Decimal>) -> Seq<char> {
    match step {
        Some(st) => match (min, max) {
            (Some(lo), Some(hi)) => "["@ + shortest_text(lo@) + ", "@ + shortest_text(lo@ + st@) + ", .."@
                + ", "@ + shortest_text(hi@) + "] "@,
            (Some(lo), None) => "["@ + shortest_text(lo@) + ", "@ + shortest_text(lo@ + st@) + ", .."@ + "] "@,
            (None, Some(hi)) => "[.., "@ + shortest_text(hi@ - st@) + ", "@ + shortest_text(hi@) + "] "@,
            (None, None) => "[.., "@ + shortest_text(-st@) + ", 0, "@ + shortest_text(st@) + ", ..] "@,
        },
        None => match (min, max) {
            (Some(lo), Some(hi)) => "["@ + shortest_text(lo@) + ".."@ + shortest_text(hi@) + "] "@,
            (Some(lo), None) => "[> "@ + shortest_text(lo@) + "] "@,
            (None, Some(hi)) => "[< "@ + shortest_text(hi@) + "] "@,
            (None, None) => ": "@,
        },
    }
}

/// Appends `u` millionths in its shortest exact form to `s`.
fn push_units(s: &mut String, u: i128)
    requires
        formattable(u as int),
    ensures
        final(s)@ == old(s)@ + shortest_text(u as int),
{
    let t = format_units(u);
    s.append(t.as_str());
}

/// The hint shown before a number is typed in for a numeric item with the
/// given step and bounds, such as `[0, 0.5, .., 5] ` or `[> -5] `.
pub fn number_range_indicator(step: Option<Decimal>, min: Option<Decimal>, max: Option<Decimal>) -> (r: String)
    ensures
        r@ == range_indicator(step, min, max),
{
    let mut p = String::new();
    match step {
        Some(st) => {
            let sv = st.units as i128;
            match min {
                Some(lo) => {
                    p.append("[");
                    push_units(&mut p, lo.units as i128);
                    p.append(", ");
                    push_units(&mut p, lo.units as i128 + sv);
                    p.append(", ..");
                    match max {
                        Some(hi) => {
                            p.append(", ");
                            push_units(&mut p, hi.units as i128);
                            p.append("] ");
                        },
                        None => {
                            p.append("] ");
                        },
                    }
                },
                None => match max {
                    Some(hi) => {
                        p.append("[.., ");
                        push_units(&mut p, hi.units as i128 - sv);
                        p.append(", ");
                        push_units(&mut p, hi.units as i128);
                        p.append("] ");
                    },
                    None => {
                        p.append("[.., ");
                        push_units(&mut p, -sv);
                        p.append(", 0, ");
                        push_units(&mut p, sv);
                        p.append(", ..] ");
                    },
                },
            }
        },
        None => match min {
            Some(lo) => match max {
                Some(hi) => {
                    p.append("[");
                    push_units(&mut p, lo.units as i128);
                    p.append("..");
                    push_units(&mut p, hi.units as i128);
                    p.append("] ");
                },
                None => {
                    p.append("[> ");
                    push_units(&mut p, lo.units as i128);
                    p.append("] ");
                },
            },
            None => match max {
                Some(hi) => {
                    p.append("[< ");
                    push_units(&mut p, hi.units as i128);
                    p.append("] ");
                },
                None => {
                    p.append(": ");
                },
            },
        },
    }
    proof {
        assert(p@ =~= range_indicator(step, min, max));
    }
    p
}

/// `c` is one of the characters `0` to `9`.
pub open spec fn is_digit(c: char) -> bool {
    '0' <= c && c <= '9'
}

/// Every character of `s` is a decimal digit.
pub open spec fn all_digits(s: Seq<char>) -> bool {
    forall|i: int| 0 <= i < s.len() ==> is_digit(#[trigger] s[i])
}

/// The number that the digit string `s` spells.
pub open spec fn digits_value(s: Seq<char>) -> int
    decreases s.len(),
{
    if s.len() == 0 {
        0
    } else {
        10 * digits_value(s.drop_last()) + ((s.last() as u32) - ('0' as u32))
    }
}

/// The part of a number's text after an optional leading `-`.
pub open spec fn unsigned_part(s: Seq<char>) -> Seq<char> {
    if s.len() > 0 && s[0] == '-' {
        s.drop_first()
    } else {
        s
    }
}

/// Where the point stands in `b`, or its length when it has none.
pub open spec fn point_position(b: Seq<char>) -> int {
    match b.index_of_first('.') {
        Some(k) => k,
        None => b.len() as int,
    }
}

/// The millionths that the text `s` spells, if it is a number: an optional
/// `-`, then digits with at most one point among them, at least one digit and
/// at most six after the point (`12`, `-0.5`, `.25`, `3.`).
pub open spec fn text_units(s: Seq<char>) -> Option<int> {
    let b = unsigned_part(s);
    let k = point_position(b);
    let whole = b.take(k);
    let frac = if k < b.len() { b.skip(k + 1) } else { Seq::<char>::empty() };
    if all_digits(whole) && all_digits(frac) && whole.len() + frac.len() > 0 && frac.len() <= 6 {
        let mag = digits_value(whole) * 1000000 + digits_value(frac) * pow10((6 - frac.len()) as nat);
        Some(if s.len() > 0 && s[0] == '-' { -mag } else { mag })
    } else {
        None
    }
}

/// The `Decimal` that the text `s` spells, if it is a number within range.
pub open spec fn parsed_decimal(s: Seq<char>) -> Option<Decimal> {
    match text_units(s) {
        Some(u) => if i64::MIN <= u <= i64::MAX {
            Some(Decimal { units: u as i64 })
        } else {
            None
        },
        None => None,
    }
}

proof fn lemma_digits_value_prefix(s: Seq<char>, i: int)
    requires
        all_digits(s),
        0 <= i <= s.len(),
    ensures
        0 <= digits_value(s.take(i)) <= digits_value(s),
    decreases s.len(),
{
    if i == s.len() {
        assert(s.take(i) =~= s);
        if s.len() > 0 {
            lemma_digits_value_prefix(s.drop_last(), i - 1);
            assert(s.drop_last().take(i - 1) =~= s.drop_last());
        }
    } else {
        lemma_digits_value_prefix(s.drop_last(), i);
        assert(s.drop_last().take(i) =~= s.take(i));
        assert(is_digit(s[s.len() - 1]));
    }
}

proof fn lemma_pow10_positive(k: nat)
    ensures
        pow10(k) > 0,
    decreases k,
{
    if k > 0 {
        lemma_pow10_positive((k - 1) as nat);
    }
}

fn scale_for(len: usize) -> (r: u128)
    requires
        len <= 6,
    ensures
        r as int == pow10((6 - len) as nat),
        r <= 1000000,
{
    proof {
        reveal_with_fuel(pow10, 7);
    }
    if len == 0 { 1000000 } else if len == 1 { 100000 } else if len == 2 { 10000 }
    else if len == 3 { 1000 } else if len == 4 { 100 } else if len == 5 { 10 } else { 1 }
}

fn digit_of(c: char) -> (d: u128)
    requires
        is_digit(c),
    ensures
        d as int == (c as u32) - ('0' as u32),
        d < 10,
{
    ((c as u32) - ('0' as u32)) as u128
}

/// Reads the number that `input` spells, as in `text_units`; `None` when it
/// is not a number or does not fit.
pub fn parse_decimal(input: &Vec<char>) -> (r: Option<Decimal>)
    ensures
        r == parsed_decimal(input@),
{
    let n = input.len();
    let neg = n > 0 && input[0] == '-';
    let start: usize = if neg { 1 } else { 0 };
    let ghost b = unsigned_part(input@);
    proof {
        assert(b =~= input@.skip(start as int));
    }
    // whole part
    let mut k: usize = start;
    let mut whole: u128 = 0;
    while k < n && input[k] != '.'
        invariant
            start <= k <= n == input@.len(),
            b == input@.skip(start as int),
            b == unsigned_part(input@),
            neg == (n > 0 && input@[0] == '-'),
            start == (if neg { 1usize } else { 0usize }),
            forall|j: int| 0 <= j < k - start ==> b[j] != '.',
            all_digits(b.take(k - start)),
            whole as int == digits_value(b.take(k - start)),
            whole <= 10_000_000_000_000,
        decreases n - k,
    {
        if !('0' <= input[k] && input[k] <= '9') {
            proof {
                b.index_of_first_ensures('.');
                assert(b[k - start] == input@[k as int]);
                assert(point_position(b) > k - start) by {
                    if let Some(idx) = b.index_of_first('.') {
                        if idx < k - start {
                            assert(b[idx] != '.');
                        }
                    }
                }
                assert(b.take(point_position(b))[k - start] == input@[k as int]);
                assert(!is_digit(b.take(point_position(b))[k - start]));
                assert(!all_digits(b.take(point_position(b))));
                assert(unsigned_part(input@) == b);
                assert(text_units(input@) is None);
            }
            return None;
        }
        let d = digit_of(input[k]);
        proof {
            assert(b.take(k - start + 1).drop_last() =~= b.take(k - start));
        }
        whole = whole * 10 + d;
        k = k + 1;
        if whole > 10_000_000_000_000 {
            proof {
                b.index_of_first_ensures('.');
                let p = point_position(b);
                assert(p >= k - start);
                let w = b.take(p);
                assert(w.take(k - start) =~= b.take(k - start));
                if all_digits(w) {
                    lemma_digits_value_prefix(w, k - start);
                    let fr = if p < b.len() { b.skip(p + 1) } else { Seq::<char>::empty() };
                    if all_digits(fr) {
                        lemma_digits_value_prefix(fr, fr.len() as int);
                        assert(fr.take(fr.len() as int) =~= fr);
                        lemma_pow10_positive((6 - fr.len()) as nat);
                        assert(digits_value(fr) * pow10((6 - fr.len()) as nat) >= 0) by (nonlinear_arith)
                            requires
                                digits_value(fr) >= 0,
                                pow10((6 - fr.len()) as nat) > 0,
                        ;
                    }
                }
            }
            return None;
        }
    }
    proof {
        b.index_of_first_ensures('.');
        if k < n {
            assert(b[k - start] == input@[k as int]);
            assert(b.contains('.'));
            let idx = b.index_of_first('.').unwrap();
            if idx < k - start {
                assert(b[idx] != '.');
            }
            if idx > k - start {
                assert(b[k - start] != '.');
            }
        } else {
            assert forall|j: int| 0 <= j < b.len() implies b[j] != '.' by {}
        }
        assert(point_position(b) == k - start);
    }
    // fraction part
    let frac_start: usize = if k < n { k + 1 } else { k };
    if n - frac_start > 6 {
        return None;
    }
    let ghost frac = if k < n { b.skip(k - start + 1) } else { Seq::<char>::empty() };
    proof {
        assert(frac =~= input@.skip(frac_start as int));
    }
    let mut i: usize = frac_start;
    let mut part: u128 = 0;
    while i < n
        invariant
            frac_start <= i <= n == input@.len(),
            n - frac_start <= 6,
            frac == input@.skip(frac_start as int),
            b == unsigned_part(input@),
            b == input@.skip(start as int),
            frac == (if k < n { b.skip(k - start + 1) } else { Seq::<char>::empty() }),
            point_position(b) == k - start,
            frac_start == (if k < n { (k + 1) as usize } else { k }),
            start <= k <= n,
            all_digits(frac.take(i - frac_start)),
            part as int == digits_value(frac.take(i - frac_start)),
            part < pow10((i - frac_start) as nat),
        decreases n - i,
    {
        if !('0' <= input[i] && input[i] <= '9') {
            proof {
                assert(frac[i - frac_start] == input@[i as int]);
            }
            return None;
        }
        let d = digit_of(input[i]);
        proof {
            assert(frac.take(i - frac_start + 1).drop_last() =~= frac.take(i - frac_start));
            reveal_with_fuel(pow10, 7);
        }
        part = part * 10 + d;
        i = i + 1;
    }
    proof {
        assert(frac.take(frac.len() as int) =~= frac);
    }
    if k == start && n == frac_start {
        proof {
            assert(b.take(k - start).len() == 0);
            assert(frac.len() == 0);
        }
        return None;
    }
    let scale = scale_for(n - frac_start);
    proof {
        reveal_with_fuel(pow10, 7);
        assert(part < 1000000);
        assert(part * scale <= 1000000 * 1000000) by (nonlinear_arith)
            requires
                part < 1000000,
                scale <= 1000000,
        ;
    }
    let mag: i128 = (whole * 1000000 + part * scale) as i128;
    let u: i128 = if neg { -mag } else { mag };
    if u < i64::MIN as i128 || u > i64::MAX as i128 {
        return None;
    }
    Some(Decimal { units: u as i64 })
}

} // verus!
