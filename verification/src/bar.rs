//! Proportional bars for ranked counts.
//!
//! A share is kept as the two counts that it is the ratio of, so every
//! width is computed in exact arithmetic.

use crate::color::{Color, Colorizer};
use crate::strings::{
    decimal, decimal_bytes, digit, push_decimal, push_repeated, push_right_aligned, repeated,
    right_aligned,
};
use vstd::arithmetic::div_mod::{lemma_fundamental_div_mod, lemma_fundamental_div_mod_converse};
use vstd::prelude::*;

verus! {

/// How bars are drawn.
pub struct BarConfig {
    /// Width of the bar in cells; 0 draws no bar.
    pub size: usize,
    /// Whether the share of the item is filled in.
    pub show_percentage: bool,
    /// Whether the share of the items ranked below it is half filled in.
    pub show_cumulative: bool,
}

impl Default for BarConfig {
    fn default() -> (out: Self)
        ensures
            out.size == 25,
            out.show_percentage,
            out.show_cumulative,
    {
        BarConfig { size: 25, show_percentage: true, show_cumulative: true }
    }
}

/// One item to draw.
pub struct BarItem<'a> {
    pub label: &'a [u8],
    pub value: usize,
}

impl<'a> BarItem<'a> {
    /// An item with this label and value.
    pub fn new(label: &'a [u8], value: usize) -> (out: Self)
        ensures
            out.label@ == label@,
            out.value == value,
    {
        BarItem { label, value }
    }
}

/// The three runs of cells of one bar.
#[derive(Clone, Copy, Debug, PartialEq, Eq, Structural)]
pub struct BarSegments {
    pub unfilled: usize,
    pub semi: usize,
    pub filled: usize,
}

/// `part / whole * width`, rounded to the nearest integer, a half rounded up.
pub open spec fn rounded_share(part: nat, whole: nat, width: nat) -> nat {
    ((2 * part * width + whole) / (2 * whole)) as nat
}

/// The segments of the bar of an item that was counted `value` times, where
/// the item and all ranked below it were counted `remaining` times and all
/// items together `total` times. The filled run is the item's share of the
/// width. The half-filled run is the share of the items ranked below it, cut
/// back where rounding would make the bar too long. A run that is not shown
/// has no cells, and the unfilled run takes the rest.
pub open spec fn segments_of(
    value: nat,
    remaining: nat,
    total: nat,
    width: nat,
    show_cumulative: bool,
    show_percentage: bool,
) -> (nat, nat, nat) {
    let share = rounded_share(value, total, width);
    if show_cumulative && show_percentage {
        let below = rounded_share((remaining - value) as nat, total, width);
        let semi = if share + below > width {
            (width - share) as nat
        } else {
            below
        };
        ((width - share - semi) as nat, semi, share)
    } else if show_percentage {
        ((width - share) as nat, 0, share)
    } else if show_cumulative {
        let semi = rounded_share(remaining, total, width);
        ((width - semi) as nat, semi, 0)
    } else {
        (0, 0, 0)
    }
}

proof fn lemma_product_fits(a: usize, b: usize)
    ensures
        a * b <= u128::MAX,
{
    assert(a <= 0xffff_ffff_ffff_ffff);
    assert(b <= 0xffff_ffff_ffff_ffff);
    assert(a * b <= 0xffff_ffff_ffff_ffff * 0xffff_ffff_ffff_ffff) by (nonlinear_arith)
        requires
            0 <= a <= 0xffff_ffff_ffff_ffff,
            0 <= b <= 0xffff_ffff_ffff_ffff,
    ;
}

/// Rounding by quotient and remainder.
pub proof fn lemma_rounded_share(part: nat, whole: nat, width: nat)
    requires
        whole > 0,
    ensures
        rounded_share(part, whole, width) == (part * width) / whole + (if 2 * ((part * width)
            % whole) >= whole {
            1nat
        } else {
            0nat
        }),
{
    let x = (part * width) as int;
    let w = whole as int;
    let q = x / w;
    let r = x % w;
    lemma_fundamental_div_mod(x, w);
    vstd::arithmetic::div_mod::lemma_mod_bound(x, w);
    assert(2 * part * width == 2 * x) by (nonlinear_arith)
        requires
            x == part * width,
    ;
    assert(q >= 0) by {
        vstd::arithmetic::div_mod::lemma_div_pos_is_pos(x, w);
    }
    if 2 * r >= w {
        assert(2 * x + w == (q + 1) * (2 * w) + (2 * r - w)) by (nonlinear_arith)
            requires
                x == w * q + r,
        ;
        lemma_fundamental_div_mod_converse(2 * x + w, 2 * w, q + 1, 2 * r - w);
    } else {
        assert(2 * x + w == q * (2 * w) + (2 * r + w)) by (nonlinear_arith)
            requires
                x == w * q + r,
        ;
        lemma_fundamental_div_mod_converse(2 * x + w, 2 * w, q, 2 * r + w);
    }
}

/// A share of the width is no wider than the width.
pub proof fn lemma_rounded_share_fits(part: nat, whole: nat, width: nat)
    requires
        whole > 0,
        part <= whole,
    ensures
        rounded_share(part, whole, width) <= width,
{
    lemma_rounded_share(part, whole, width);
    let x = (part * width) as int;
    let w = whole as int;
    let q = x / w;
    let r = x % w;
    lemma_fundamental_div_mod(x, w);
    vstd::arithmetic::div_mod::lemma_mod_bound(x, w);
    assert(x <= w * width) by (nonlinear_arith)
        requires
            x == part * width,
            part <= w,
            0 <= width,
    ;
    assert(q <= width && (q == width ==> r == 0)) by (nonlinear_arith)
        requires
            x == w * q + r,
            x <= w * width,
            0 <= r,
            0 < w,
    ;
}

/// The whole is the whole width, and nothing is nothing.
pub proof fn lemma_rounded_share_ends(whole: nat, width: nat)
    requires
        whole > 0,
    ensures
        rounded_share(whole, whole, width) == width,
        rounded_share(0, whole, width) == 0,
{
    let w = whole as int;
    assert(2 * whole * width + whole == width * (2 * w) + w) by (nonlinear_arith)
        requires
            w == whole,
    ;
    lemma_fundamental_div_mod_converse((2 * whole * width + whole) as int, 2 * w, width as int, w);
    assert(2 * 0 * width + whole == w) by (nonlinear_arith)
        requires
            w == whole,
    ;
    lemma_fundamental_div_mod_converse(w, 2 * w, 0, w);
}

/// The runs of a bar that is drawn fill its width exactly.
pub proof fn lemma_segments_fill_width(
    value: nat,
    remaining: nat,
    total: nat,
    width: nat,
    show_cumulative: bool,
    show_percentage: bool,
)
    requires
        0 < total,
        value <= remaining <= total,
    ensures
        ({
            let s = segments_of(value, remaining, total, width, show_cumulative, show_percentage);
            if show_cumulative || show_percentage {
                s.0 + s.1 + s.2 == width
            } else {
                s.0 + s.1 + s.2 == 0
            }
        }),
{
    lemma_rounded_share_fits(value, total, width);
    lemma_rounded_share_fits(remaining, total, width);
    lemma_rounded_share_fits((remaining - value) as nat, total, width);
}

/// The bar of the only item, with both runs shown, is filled end to end.
pub proof fn lemma_single_item_fills_bar(total: nat, width: nat)
    requires
        0 < total,
    ensures
        segments_of(total, total, total, width, true, true) == (0nat, 0nat, width),
{
    lemma_rounded_share_ends(total, width);
}

fn share(part: usize, whole: usize, width: usize) -> (r: usize)
    requires
        0 < whole,
        part <= whole,
    ensures
        r == rounded_share(part as nat, whole as nat, width as nat),
        r <= width,
{
    proof {
        lemma_product_fits(part, width);
        lemma_rounded_share(part as nat, whole as nat, width as nat);
        lemma_rounded_share_fits(part as nat, whole as nat, width as nat);
        vstd::arithmetic::div_mod::lemma_mod_bound(part * width, whole as int);
    }
    let product: u128 = (part as u128) * (width as u128);
    let q: u128 = product / (whole as u128);
    let r: u128 = product % (whole as u128);
    if r >= (whole as u128) - r {
        (q + 1) as usize
    } else {
        q as usize
    }
}

/// Divides the bar of one item into its runs.
pub fn bar_segments(value: usize, remaining: usize, total: usize, config: &BarConfig) -> (r:
    BarSegments)
    requires
        0 < total,
        value <= remaining <= total,
    ensures
        (r.unfilled as nat, r.semi as nat, r.filled as nat) == segments_of(
            value as nat,
            remaining as nat,
            total as nat,
            config.size as nat,
            config.show_cumulative,
            config.show_percentage,
        ),
        config.show_cumulative || config.show_percentage ==> r.unfilled + r.semi + r.filled
            == config.size,
        !config.show_cumulative && !config.show_percentage ==> r.unfilled == 0 && r.semi == 0
            && r.filled == 0,
{
    let width = config.size;
    if config.show_cumulative && config.show_percentage {
        let filled = share(value, total, width);
        let below = share(remaining - value, total, width);
        let semi = if below > width - filled {
            width - filled
        } else {
            below
        };
        BarSegments { unfilled: width - filled - semi, semi, filled }
    } else if config.show_percentage {
        let filled = share(value, total, width);
        BarSegments { unfilled: width - filled, semi: 0, filled }
    } else if config.show_cumulative {
        let semi = share(remaining, total, width);
        BarSegments { unfilled: width - semi, semi, filled: 0 }
    } else {
        BarSegments { unfilled: 0, semi: 0, filled: 0 }
    }
}

/// The frame of a bar: U+2502, a light vertical line.
pub open spec fn frame() -> Seq<u8> {
    seq![0xe2u8, 0x94u8, 0x82u8]
}

/// An unfilled cell: U+2591, light shade.
pub open spec fn light_cell() -> Seq<u8> {
    seq![0xe2u8, 0x96u8, 0x91u8]
}

/// A half-filled cell: U+2593, dark shade.
pub open spec fn dark_cell() -> Seq<u8> {
    seq![0xe2u8, 0x96u8, 0x93u8]
}

/// A filled cell: U+2588, full block.
pub open spec fn full_cell() -> Seq<u8> {
    seq![0xe2u8, 0x96u8, 0x88u8]
}

/// The text of a bar: inside its frame, the unfilled run, the half-filled
/// run and the filled run. A bar without cells has no text.
pub open spec fn bar_text(unfilled: nat, semi: nat, filled: nat) -> Seq<u8> {
    if unfilled + semi + filled == 0 {
        Seq::empty()
    } else {
        frame() + repeated(light_cell(), unfilled) + repeated(dark_cell(), semi) + repeated(
            full_cell(),
            filled,
        ) + frame()
    }
}

/// Draws a bar.
pub fn bar_string(segments: BarSegments) -> (out: Vec<u8>)
    ensures
        out@ == bar_text(segments.unfilled as nat, segments.semi as nat, segments.filled as nat),
{
    let mut out: Vec<u8> = Vec::new();
    if segments.unfilled > 0 || segments.semi > 0 || segments.filled > 0 {
        let frame_bytes: [u8; 3] = [0xe2, 0x94, 0x82];
        let light: [u8; 3] = [0xe2, 0x96, 0x91];
        let dark: [u8; 3] = [0xe2, 0x96, 0x93];
        let full: [u8; 3] = [0xe2, 0x96, 0x88];
        proof {
            assert(frame_bytes@ =~= frame());
            assert(light@ =~= light_cell());
            assert(dark@ =~= dark_cell());
            assert(full@ =~= full_cell());
        }
        out.extend_from_slice(frame_bytes.as_slice());
        push_repeated(&mut out, light.as_slice(), segments.unfilled);
        push_repeated(&mut out, dark.as_slice(), segments.semi);
        push_repeated(&mut out, full.as_slice(), segments.filled);
        out.extend_from_slice(frame_bytes.as_slice());
        assert(out@ =~= bar_text(
            segments.unfilled as nat,
            segments.semi as nat,
            segments.filled as nat,
        ));
    }
    out
}

/// `part / whole` in hundredths of a percent, rounded to the nearest
/// integer, a half rounded to the even one.
pub open spec fn hundredths(part: nat, whole: nat) -> nat {
    let q = (part * 10000) / whole;
    let r = (part * 10000) % whole;
    if 2 * r > whole || (2 * r == whole && q % 2 == 1) {
        q + 1
    } else {
        q
    }
}

/// The share as a percentage with two decimals.
pub open spec fn percent_digits(part: nat, whole: nat) -> Seq<u8> {
    let h = hundredths(part, whole);
    decimal(h / 100) + seq!['.' as u8, digit((h / 10) % 10), digit(h % 10)]
}

/// The share as a percentage with two decimals and a percent sign.
pub open spec fn percent_text(part: nat, whole: nat) -> Seq<u8> {
    percent_digits(part, whole).push('%' as u8)
}

/// Appends a share as a percentage with two decimals.
pub fn push_percent(out: &mut Vec<u8>, part: usize, whole: usize)
    requires
        0 < whole,
    ensures
        final(out)@ == old(out)@ + percent_digits(part as nat, whole as nat),
{
    let ghost start = out@;
    let scaled: u128 = (part as u128) * 10000;
    let q: u128 = scaled / (whole as u128);
    let r: u128 = scaled % (whole as u128);
    let up = r > (whole as u128) - r || (r == (whole as u128) - r && q % 2 == 1);
    let h: u128 = if up {
        q + 1
    } else {
        q
    };
    assert(h == hundredths(part as nat, whole as nat));
    push_decimal(out, h / 100);
    out.push('.' as u8);
    out.push('0' as u8 + ((h / 10) % 10) as u8);
    out.push('0' as u8 + (h % 10) as u8);
    assert(out@ =~= start + percent_digits(part as nat, whole as nat));
}

/// Writes a share as a percentage with two decimals and a percent sign.
pub fn percent_string(part: usize, whole: usize) -> (out: Vec<u8>)
    requires
        0 < whole,
    ensures
        out@ == percent_text(part as nat, whole as nat),
{
    let mut out: Vec<u8> = Vec::new();
    push_percent(&mut out, part, whole);
    out.push('%' as u8);
    assert(out@ =~= percent_text(part as nat, whole as nat));
    out
}

/// One item to draw, as values.
pub ghost struct ItemText {
    pub label: Seq<u8>,
    pub value: nat,
}

impl<'a> View for BarItem<'a> {
    type V = ItemText;

    open spec fn view(&self) -> ItemText {
        ItemText { label: self.label@, value: self.value as nat }
    }
}

/// The items as values.
pub open spec fn item_texts(items: Seq<BarItem>) -> Seq<ItemText> {
    Seq::new(items.len(), |i: int| items[i]@)
}

/// The texts of one row.
pub ghost struct RowText {
    pub count: Seq<u8>,
    pub bar: Seq<u8>,
    pub percentage: Seq<u8>,
    pub label: Seq<u8>,
}

/// One row, ready to be written.
pub struct RenderedBar {
    pub count_str: Vec<u8>,
    pub bar_str: Vec<u8>,
    pub percentage_str: Vec<u8>,
    pub label: Vec<u8>,
}

impl View for RenderedBar {
    type V = RowText;

    open spec fn view(&self) -> RowText {
        RowText {
            count: self.count_str@,
            bar: self.bar_str@,
            percentage: self.percentage_str@,
            label: self.label@,
        }
    }
}

/// The rows as values.
pub open spec fn row_texts(bars: Seq<RenderedBar>) -> Seq<RowText> {
    Seq::new(bars.len(), |i: int| bars[i]@)
}

/// Sum of the values of the items.
pub open spec fn sum_values(items: Seq<ItemText>) -> nat
    decreases items.len(),
{
    if items.len() == 0 {
        0
    } else {
        sum_values(items.drop_last()) + items.last().value
    }
}

/// Number of digits of the longest value.
pub open spec fn count_width(items: Seq<ItemText>) -> nat
    decreases items.len(),
{
    if items.len() == 0 {
        0
    } else {
        let rest = count_width(items.drop_last());
        let here = decimal(items.last().value).len();
        if here > rest {
            here
        } else {
            rest
        }
    }
}

/// The row of the item at `i`. Its count is right-aligned under the longest
/// one, and its bar is drawn from its share and from what is left for it and
/// the items behind it.
pub open spec fn row_of(items: Seq<ItemText>, i: int, config: BarConfig) -> RowText {
    let total = sum_values(items);
    let before = sum_values(items.take(i));
    let value = items[i].value;
    let s = segments_of(
        value,
        (total - before) as nat,
        total,
        config.size as nat,
        config.show_cumulative,
        config.show_percentage,
    );
    RowText {
        count: right_aligned(decimal(value), count_width(items)),
        bar: if config.size > 0 {
            bar_text(s.0, s.1, s.2)
        } else {
            Seq::empty()
        },
        percentage: percent_text(value, total),
        label: items[i].label,
    }
}

/// The rows of ranked items: none where nothing was counted, else one for
/// each item.
pub open spec fn rows_of(items: Seq<ItemText>, config: BarConfig) -> Seq<RowText> {
    if sum_values(items) == 0 {
        Seq::empty()
    } else {
        Seq::new(items.len(), |i: int| row_of(items, i, config))
    }
}

/// The sum of the values grows item by item and stays within the sum of all.
pub proof fn lemma_sum_values_step(items: Seq<ItemText>, i: int)
    requires
        0 <= i < items.len(),
    ensures
        sum_values(items.take(i + 1)) == sum_values(items.take(i)) + items[i].value,
        sum_values(items.take(i + 1)) <= sum_values(items),
    decreases items.len() - i,
{
    assert(items.take(i + 1).drop_last() =~= items.take(i));
    if i + 1 < items.len() {
        lemma_sum_values_step(items, i + 1);
    } else {
        assert(items.take(i + 1) =~= items);
    }
}

/// The width of the counts grows item by item.
pub proof fn lemma_count_width_step(items: Seq<ItemText>, i: int)
    requires
        0 <= i < items.len(),
    ensures
        count_width(items.take(i + 1)) == (if decimal(items[i].value).len() > count_width(
            items.take(i),
        ) {
            decimal(items[i].value).len()
        } else {
            count_width(items.take(i))
        }),
{
    assert(items.take(i + 1).drop_last() =~= items.take(i));
}

/// Renders the rows of ranked items.
pub fn render_bars<'a>(items: &[BarItem<'a>], config: &BarConfig) -> (out: Vec<RenderedBar>)
    requires
        sum_values(item_texts(items@)) <= usize::MAX,
    ensures
        row_texts(out@) == rows_of(item_texts(items@), *config),
{
    let n = items.len();
    let ghost list = item_texts(items@);
    let mut total: usize = 0;
    let mut width: usize = 0;
    let mut i: usize = 0;
    assert(list.take(0) =~= Seq::<ItemText>::empty());
    while i < n
        invariant
            i <= n,
            n == items@.len(),
            list == item_texts(items@),
            sum_values(list) <= usize::MAX,
            total == sum_values(list.take(i as int)),
            width == count_width(list.take(i as int)),
        decreases n - i,
    {
        proof {
            lemma_sum_values_step(list, i as int);
            lemma_count_width_step(list, i as int);
            assert(list[i as int] == items@[i as int]@);
        }
        total = total + items[i].value;
        let digits = decimal_bytes(items[i].value).len();
        if digits > width {
            width = digits;
        }
        i += 1;
    }
    assert(list.take(n as int) =~= list);
    let mut out: Vec<RenderedBar> = Vec::new();
    if total == 0 {
        assert(row_texts(out@) =~= rows_of(list, *config));
        return out;
    }
    let mut before: usize = 0;
    let mut i: usize = 0;
    while i < n
        invariant
            i <= n,
            n == items@.len(),
            list == item_texts(items@),
            0 < total == sum_values(list),
            width == count_width(list),
            before == sum_values(list.take(i as int)),
            before <= total,
            out@.len() == i,
            forall|j: int| 0 <= j < i ==> (#[trigger] out@[j])@ == row_of(list, j, *config),
        decreases n - i,
    {
        proof {
            lemma_sum_values_step(list, i as int);
            assert(list[i as int] == items@[i as int]@);
        }
        let item = &items[i];
        let mut count_str: Vec<u8> = Vec::new();
        let digits = decimal_bytes(item.value);
        push_right_aligned(&mut count_str, digits.as_slice(), width);
        assert(count_str@ =~= right_aligned(decimal(item.value as nat), width as nat));
        let bar_str = if config.size > 0 {
            let segments = bar_segments(item.value, total - before, total, config);
            bar_string(segments)
        } else {
            Vec::new()
        };
        let row = RenderedBar {
            count_str,
            bar_str,
            percentage_str: percent_string(item.value, total),
            label: vstd::slice::slice_to_vec(item.label),
        };
        assert(row@ == row_of(list, i as int, *config));
        out.push(row);
        before = before + item.value;
        i += 1;
    }
    assert(row_texts(out@) =~= rows_of(list, *config));
    out
}

/// What `on` makes of painted text.
pub open spec fn painted(on: bool, color: Color, text: Seq<u8>) -> Seq<u8> {
    if on {
        color.sequence() + text + Color::Reset.sequence()
    } else {
        text
    }
}

/// Number of bytes of the longest percentage.
pub open spec fn percentage_width(rows: Seq<RowText>) -> nat
    decreases rows.len(),
{
    if rows.len() == 0 {
        0
    } else {
        let rest = percentage_width(rows.drop_last());
        let here = rows.last().percentage.len();
        if here > rest {
            here
        } else {
            rest
        }
    }
}

/// Three spaces: what stands between the columns.
pub open spec fn gap() -> Seq<u8> {
    seq![' ' as u8, ' ' as u8, ' ' as u8]
}

/// One written row: the count, a gap, the bar and a space where the bar is
/// shown and has text, the percentage right-aligned in `width`, a gap, the
/// label and a line feed. Count, percentage and label are painted.
pub open spec fn row_line(row: RowText, width: nat, show_bar: bool, on: bool) -> Seq<u8> {
    painted(on, Color::Cyan, row.count) + gap() + (if show_bar && row.bar.len() > 0 {
        row.bar.push(' ' as u8)
    } else {
        Seq::empty()
    }) + painted(on, Color::Yellow, right_aligned(row.percentage, width)) + gap() + painted(
        on,
        Color::BrightWhite,
        row.label,
    ).push('\n' as u8)
}

/// The written rows, one after the other.
pub open spec fn rows_text(rows: Seq<RowText>, width: nat, show_bar: bool, on: bool) -> Seq<u8>
    decreases rows.len(),
{
    if rows.len() == 0 {
        Seq::empty()
    } else {
        rows_text(rows.drop_last(), width, show_bar, on) + row_line(
            rows.last(),
            width,
            show_bar,
            on,
        )
    }
}

/// The rows as they are written, the percentages aligned under the longest
/// one.
pub open spec fn written(rows: Seq<RowText>, show_bar: bool, on: bool) -> Seq<u8> {
    rows_text(rows, percentage_width(rows), show_bar, on)
}

/// Writes the rows to `out`.
pub fn write_bars(out: &mut Vec<u8>, bars: &[RenderedBar], show_bar: bool, colorizer: &Colorizer)
    ensures
        final(out)@ == old(out)@ + written(row_texts(bars@), show_bar, colorizer.paints()),
{
    let n = bars.len();
    let ghost start = out@;
    let ghost on = colorizer.paints();
    let ghost rows = row_texts(bars@);
    let mut width: usize = 0;
    let mut i: usize = 0;
    assert(rows.take(0) =~= Seq::<RowText>::empty());
    while i < n
        invariant
            i <= n,
            n == bars@.len(),
            rows == row_texts(bars@),
            width == percentage_width(rows.take(i as int)),
        decreases n - i,
    {
        assert(rows.take(i + 1).drop_last() =~= rows.take(i as int));
        assert(rows.take(i + 1).last() == bars@[i as int]@);
        let here = bars[i].percentage_str.len();
        if here > width {
            width = here;
        }
        i += 1;
    }
    assert(rows.take(n as int) =~= rows);
    let mut i: usize = 0;
    assert(start + rows_text(rows.take(0), width as nat, show_bar, on) =~= start);
    while i < n
        invariant
            i <= n,
            n == bars@.len(),
            rows == row_texts(bars@),
            on == colorizer.paints(),
            width == percentage_width(rows),
            out@ == start + rows_text(rows.take(i as int), width as nat, show_bar, on),
        decreases n - i,
    {
        write_row(out, &bars[i], width, show_bar, colorizer);
        proof {
            assert(rows.take(i + 1).drop_last() =~= rows.take(i as int));
            assert(rows.take(i + 1).last() == bars@[i as int]@);
            let done = rows_text(rows.take(i as int), width as nat, show_bar, on);
            let line = row_line(bars@[i as int]@, width as nat, show_bar, on);
            assert(start + done + line =~= start + (done + line));
        }
        i += 1;
    }
    assert(rows.take(n as int) =~= rows);
}

/// Writes one row to `out`.
pub fn write_row(
    out: &mut Vec<u8>,
    bar: &RenderedBar,
    width: usize,
    show_bar: bool,
    colorizer: &Colorizer,
)
    ensures
        final(out)@ == old(out)@ + row_line(bar@, width as nat, show_bar, colorizer.paints()),
{
    let ghost on = colorizer.paints();
    let space: [u8; 3] = [' ' as u8, ' ' as u8, ' ' as u8];
    assert(space@ =~= gap());
    let mut line: Vec<u8> = Vec::new();
    let count = colorizer.paint(Color::Cyan, bar.count_str.as_slice());
    line.extend_from_slice(count.as_slice());
    line.extend_from_slice(space.as_slice());
    let ghost head = painted(on, Color::Cyan, bar.count_str@) + gap();
    assert(line@ =~= head);
    if show_bar && bar.bar_str.len() > 0 {
        line.extend_from_slice(bar.bar_str.as_slice());
        line.push(' ' as u8);
    }
    let ghost middle = head + (if show_bar && bar.bar_str@.len() > 0 {
        bar.bar_str@.push(' ' as u8)
    } else {
        Seq::empty()
    });
    assert(line@ =~= middle);
    let mut aligned: Vec<u8> = Vec::new();
    push_right_aligned(&mut aligned, bar.percentage_str.as_slice(), width);
    assert(aligned@ =~= right_aligned(bar.percentage_str@, width as nat));
    let percentage = colorizer.paint(Color::Yellow, aligned.as_slice());
    line.extend_from_slice(percentage.as_slice());
    line.extend_from_slice(space.as_slice());
    let ghost tail = middle + painted(
        on,
        Color::Yellow,
        right_aligned(bar.percentage_str@, width as nat),
    ) + gap();
    assert(line@ =~= tail);
    let label = colorizer.paint(Color::BrightWhite, bar.label.as_slice());
    line.extend_from_slice(label.as_slice());
    line.push('\n' as u8);
    assert(line@ =~= tail + painted(on, Color::BrightWhite, bar.label@).push('\n' as u8));
    assert(line@ == row_line(bar@, width as nat, show_bar, on));
    out.extend_from_slice(line.as_slice());
}

} // verus!
