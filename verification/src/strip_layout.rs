//! The strip on the page: where each label and each bar goes.
//!
//! Groups run left to right on one row: a label, then that group's bars, then a
//! wider gap before the next group. A group that would run past the right edge
//! is dropped, and all that follow it, rather than squeezed: a strip that
//! reflows or shrinks its bars stops being scannable at a glance.
//!
//! Laying the strip out as data rather than drawing it means that the places
//! can be reasoned about. They are whole numbers of whatever unit the caller
//! measures its labels in.
use crate::sequences::lemma_filter_all_or_none;
use crate::strip::{flat, grouping, well_formed, GroupView, Strip, StripView};
use vstd::prelude::*;

verus! {

/// The measures of the strip.
#[derive(Clone, Copy, Debug, PartialEq, Eq)]
pub struct Metrics {
    /// Between a label and its first bar.
    pub label_gap: u32,
    /// Behind each bar.
    pub bar_gap: u32,
    /// Between two groups, beside the gap behind the last bar.
    pub group_gap: u32,
    /// Of a bar that is not focused.
    pub bar_width: u32,
    /// Of the focused bar.
    pub focus_width: u32,
}

/// One drawable item in the strip: either a group's label or a session bar.
#[derive(Clone, Copy, Debug, PartialEq, Eq)]
pub enum Item {
    /// A group label, at this x. Which group it is indexes the strip's groups.
    Label { group: usize, x: i64 },
    /// A session bar. `focused` selects the wide solid form.
    Bar { group: usize, index: usize, x: i64, width: u32, focused: bool },
}

/// The view of an [`Item`].
pub enum Placed {
    Label { group: int, x: int },
    Bar { group: int, index: int, x: int, width: int, focused: bool },
}

impl View for Item {
    type V = Placed;

    open spec fn view(&self) -> Placed {
        match *self {
            Item::Label { group, x } => Placed::Label { group: group as int, x: x as int },
            Item::Bar { group, index, x, width, focused } => Placed::Bar {
                group: group as int,
                index: index as int,
                x: x as int,
                width: width as int,
                focused,
            },
        }
    }
}

/// The views of a sequence of items.
pub open spec fn places(items: Seq<Item>) -> Seq<Placed> {
    Seq::new(items.len(), |k: int| items[k]@)
}

/// The width of one bar.
pub open spec fn width_of_bar(strip: StripView, metrics: Metrics, group: int, index: int) -> int {
    if strip.group == group && strip.index == index {
        metrics.focus_width as int
    } else {
        metrics.bar_width as int
    }
}

/// What the first `upto` bars of a group take up, with the gap behind each.
pub open spec fn bars_width(strip: StripView, metrics: Metrics, group: int, upto: int) -> int
    decreases upto,
{
    if upto <= 0 {
        0
    } else {
        bars_width(strip, metrics, group, upto - 1) + width_of_bar(strip, metrics, group, upto - 1)
            + metrics.bar_gap
    }
}

/// What a group takes up, with its label.
pub open spec fn group_width(strip: StripView, metrics: Metrics, labels: Seq<u32>, group: int) -> int {
    labels[group] + metrics.label_gap + bars_width(
        strip,
        metrics,
        group,
        strip.groups[group].entries.len() as int,
    )
}

/// Where a group starts, on a strip that starts at `left`.
pub open spec fn group_start(
    strip: StripView,
    metrics: Metrics,
    labels: Seq<u32>,
    left: int,
    group: int,
) -> int
    decreases group,
{
    if group <= 0 {
        left
    } else {
        group_start(strip, metrics, labels, left, group - 1) + group_width(
            strip,
            metrics,
            labels,
            group - 1,
        ) + metrics.group_gap
    }
}

/// Whether a group ends before the right edge.
pub open spec fn fits(
    strip: StripView,
    metrics: Metrics,
    labels: Seq<u32>,
    left: int,
    right: int,
    group: int,
) -> bool {
    group_start(strip, metrics, labels, left, group) + group_width(strip, metrics, labels, group)
        <= right
}

/// How many groups are shown: those before the first that does not fit. Counted
/// from `group` on, where those before it fit.
pub open spec fn shown_from(
    strip: StripView,
    metrics: Metrics,
    labels: Seq<u32>,
    left: int,
    right: int,
    group: int,
) -> int
    decreases strip.groups.len() - group,
{
    if 0 <= group < strip.groups.len() && fits(strip, metrics, labels, left, right, group) {
        shown_from(strip, metrics, labels, left, right, group + 1)
    } else {
        group
    }
}

/// How many groups are shown.
pub open spec fn shown(
    strip: StripView,
    metrics: Metrics,
    labels: Seq<u32>,
    left: int,
    right: int,
) -> int {
    shown_from(strip, metrics, labels, left, right, 0)
}

/// The items of a group that starts at `x`: its label, then its bars.
pub open spec fn placed_group(
    strip: StripView,
    metrics: Metrics,
    labels: Seq<u32>,
    group: int,
    x: int,
) -> Seq<Placed> {
    seq![Placed::Label { group, x }] + Seq::new(
        strip.groups[group].entries.len(),
        |index: int|
            Placed::Bar {
                group,
                index,
                x: x + labels[group] + metrics.label_gap + bars_width(
                    strip,
                    metrics,
                    group,
                    index,
                ),
                width: width_of_bar(strip, metrics, group, index),
                focused: strip.group == group && strip.index == index,
            },
    )
}

/// The items of the first `upto` groups, from left to right.
pub open spec fn placed_groups(
    strip: StripView,
    metrics: Metrics,
    labels: Seq<u32>,
    left: int,
    upto: int,
) -> Seq<Placed>
    decreases upto,
{
    if upto <= 0 {
        Seq::empty()
    } else {
        placed_groups(strip, metrics, labels, left, upto - 1) + placed_group(
            strip,
            metrics,
            labels,
            upto - 1,
            group_start(strip, metrics, labels, left, upto - 1),
        )
    }
}

fn bar_width(strip: &Strip, metrics: Metrics, group: usize, index: usize) -> (width: u32)
    ensures
        width == width_of_bar(strip@, metrics, group as int, index as int),
{
    if strip.group_index() == group && strip.index() == index {
        metrics.focus_width
    } else {
        metrics.bar_width
    }
}

/// What all bars of a group take up.
fn measure_bars(strip: &Strip, metrics: Metrics, group: usize, bars: usize) -> (width: i128)
    ensures
        width == bars_width(strip@, metrics, group as int, bars as int),
        0 <= width <= bars * 0x2_0000_0000,
{
    let mut width: i128 = 0;
    let mut index: usize = 0;
    while index < bars
        invariant
            index <= bars,
            width == bars_width(strip@, metrics, group as int, index as int),
            0 <= width <= index * 0x2_0000_0000,
        decreases bars - index,
    {
        let one: u32 = bar_width(strip, metrics, group, index);
        width = width + one as i128 + metrics.bar_gap as i128;
        index = index + 1;
    }
    width
}

proof fn lemma_bars_width_grows(strip: StripView, metrics: Metrics, group: int, i: int, j: int)
    requires
        0 <= i <= j,
    ensures
        0 <= bars_width(strip, metrics, group, i) <= bars_width(strip, metrics, group, j),
        i < j ==> bars_width(strip, metrics, group, i) + width_of_bar(strip, metrics, group, i)
            + metrics.bar_gap <= bars_width(strip, metrics, group, j),
    decreases j,
{
    if i < j {
        lemma_bars_width_grows(strip, metrics, group, i, j - 1);
    } else if j > 0 {
        lemma_bars_width_grows(strip, metrics, group, i - 1, j - 1);
    }
}

/// Lay the strip out from `left`, with the widths of the groups' labels as they
/// were measured. Groups that would run past `right` are dropped.
pub fn layout_items(
    strip: &Strip,
    left: i64,
    right: i64,
    label_widths: &[u32],
    metrics: Metrics,
) -> (items: Vec<Item>)
    requires
        label_widths@.len() == strip@.groups.len(),
    ensures
        places(items@) == placed_groups(
            strip@,
            metrics,
            label_widths@,
            left as int,
            shown(strip@, metrics, label_widths@, left as int, right as int),
        ),
{
    let groups = strip.groups();
    let ghost view = strip@;
    let ghost labels = label_widths@;
    let mut items: Vec<Item> = Vec::new();
    let mut x: i128 = left as i128;
    let mut g: usize = 0;
    let len = groups.len();
    assert(places(items@) =~= placed_groups(view, metrics, labels, left as int, 0));
    while g < len
        invariant
            view == strip@,
            grouping(groups@) == view.groups,
            len == groups@.len(),
            labels == label_widths@,
            labels.len() == len,
            g <= len,
            x == group_start(view, metrics, labels, left as int, g as int),
            left <= x,
            x == left || x <= right + 0x1_0000_0000,
            shown(view, metrics, labels, left as int, right as int) == shown_from(
                view,
                metrics,
                labels,
                left as int,
                right as int,
                g as int,
            ),
            places(items@) == placed_groups(view, metrics, labels, left as int, g as int),
        decreases len - g,
    {
        let bars = groups[g].entries.len();
        assert(view.groups[g as int] == groups@[g as int]@);
        assert(view.groups[g as int].entries.len() == bars);
        let label: i128 = label_widths[g] as i128;
        let all: i128 = measure_bars(strip, metrics, g, bars);
        if x + label + metrics.label_gap as i128 + all > right as i128 {
            return items;
        }
        let ghost before = places(items@);
        let ghost made = placed_group(view, metrics, labels, g as int, x as int);
        let ghost start = x;
        items.push(Item::Label { group: g, x: x as i64 });
        assert(places(items@) =~= before + made.take(1));
        x = x + label + metrics.label_gap as i128;
        let mut index: usize = 0;
        while index < bars
            invariant
                view == strip@,
                view.groups[g as int].entries.len() == bars,
                index <= bars,
                label == labels[g as int],
                made == placed_group(view, metrics, labels, g as int, start as int),
                left <= start,
                x == start + label + metrics.label_gap + bars_width(
                    view,
                    metrics,
                    g as int,
                    index as int,
                ),
                start + label + metrics.label_gap + bars_width(view, metrics, g as int, bars as int)
                    <= right,
                places(items@) == before + made.take(1 + index as int),
            decreases bars - index,
        {
            let ghost earlier = places(items@);
            proof {
                lemma_bars_width_grows(view, metrics, g as int, index as int, bars as int);
            }
            let width: u32 = bar_width(strip, metrics, g, index);
            let focused = strip.group_index() == g && strip.index() == index;
            items.push(Item::Bar { group: g, index, x: x as i64, width, focused });
            proof {
                assert(places(items@) =~= earlier.push(items@.last()@));
                assert(items@.last()@ == made[1 + index as int]);
                assert(places(items@) =~= before + made.take(2 + index as int));
            }
            x = x + width as i128 + metrics.bar_gap as i128;
            index = index + 1;
        }
        assert(made.take(1 + bars as int) =~= made);
        x = x + metrics.group_gap as i128;
        g = g + 1;
    }
    items
}

/// One drawable item of the strip, without its place: a group's label or a
/// session's bar.
pub enum Slot {
    Label { group: int },
    Bar { group: int, index: int, focused: bool },
}

/// What an item is, whatever its place.
pub open spec fn slot_of(item: Placed) -> Slot {
    match item {
        Placed::Label { group, .. } => Slot::Label { group },
        Placed::Bar { group, index, focused, .. } => Slot::Bar { group, index, focused },
    }
}

/// The bar of one session.
pub open spec fn bar(strip: StripView, group: int, index: int) -> Slot {
    Slot::Bar { group, index, focused: strip.group == group && strip.index == index }
}

/// What is drawn of one group: its label, then its bars.
pub open spec fn slots_of_group(strip: StripView, group: int) -> Seq<Slot> {
    seq![Slot::Label { group }] + Seq::new(
        strip.groups[group].entries.len(),
        |index: int| bar(strip, group, index),
    )
}

/// What is drawn of the first `shown` groups, from left to right.
pub open spec fn slots(strip: StripView, shown: int) -> Seq<Slot>
    decreases shown,
{
    if shown <= 0 {
        Seq::empty()
    } else {
        slots(strip, shown - 1) + slots_of_group(strip, shown - 1)
    }
}

/// How many bars are among `slots`.
pub open spec fn bar_count(slots: Seq<Slot>) -> nat {
    slots.filter(|slot: Slot| slot is Bar).len()
}

/// How many labels are among `slots`.
pub open spec fn label_count(slots: Seq<Slot>) -> nat {
    slots.filter(|slot: Slot| slot is Label).len()
}

/// A bar in the focused form.
pub open spec fn is_focused_bar(slot: Slot) -> bool {
    slot matches Slot::Bar { focused: true, .. }
}

/// The items that are placed are the labels and bars of whole groups.
pub proof fn law_groups_are_placed_whole(
    strip: StripView,
    metrics: Metrics,
    labels: Seq<u32>,
    left: int,
    upto: int,
)
    ensures
        placed_groups(strip, metrics, labels, left, upto).map_values(|item: Placed| slot_of(item))
            == slots(strip, upto),
    decreases upto,
{
    if upto > 0 {
        law_groups_are_placed_whole(strip, metrics, labels, left, upto - 1);
        let x = group_start(strip, metrics, labels, left, upto - 1);
        let group = placed_group(strip, metrics, labels, upto - 1, x);
        assert(group.map_values(|item: Placed| slot_of(item)) =~= slots_of_group(strip, upto - 1));
        assert(placed_groups(strip, metrics, labels, left, upto).map_values(
            |item: Placed| slot_of(item),
        ) =~= slots(strip, upto));
    } else {
        assert(placed_groups(strip, metrics, labels, left, upto).map_values(
            |item: Placed| slot_of(item),
        ) =~= slots(strip, upto));
    }
}

/// Every group that is shown fits, and the first that is dropped does not:
/// groups are dropped from the right, and none that has room.
pub proof fn law_groups_that_do_not_fit_are_dropped(
    strip: StripView,
    metrics: Metrics,
    labels: Seq<u32>,
    left: int,
    right: int,
)
    ensures
        ({
            let shown = shown(strip, metrics, labels, left, right);
            &&& 0 <= shown <= strip.groups.len()
            &&& forall|g: int| 0 <= g < shown ==> fits(strip, metrics, labels, left, right, g)
            &&& shown < strip.groups.len() ==> !fits(strip, metrics, labels, left, right, shown)
        }),
{
    lemma_shown(strip, metrics, labels, left, right, 0);
}

proof fn lemma_shown(
    strip: StripView,
    metrics: Metrics,
    labels: Seq<u32>,
    left: int,
    right: int,
    group: int,
)
    requires
        0 <= group <= strip.groups.len(),
    ensures
        ({
            let shown = shown_from(strip, metrics, labels, left, right, group);
            &&& group <= shown <= strip.groups.len()
            &&& forall|g: int| group <= g < shown ==> fits(strip, metrics, labels, left, right, g)
            &&& shown < strip.groups.len() ==> !fits(strip, metrics, labels, left, right, shown)
        }),
    decreases strip.groups.len() - group,
{
    if group < strip.groups.len() && fits(strip, metrics, labels, left, right, group) {
        lemma_shown(strip, metrics, labels, left, right, group + 1);
    }
}

/// Where an item starts.
pub open spec fn item_start(item: Placed) -> int {
    match item {
        Placed::Label { x, .. } => x,
        Placed::Bar { x, .. } => x,
    }
}

/// Where an item ends.
pub open spec fn item_end(labels: Seq<u32>, item: Placed) -> int {
    match item {
        Placed::Label { group, x } => x + labels[group],
        Placed::Bar { x, width, .. } => x + width,
    }
}

/// An item lies between two places.
pub open spec fn lies_within(labels: Seq<u32>, item: Placed, from: int, to: int) -> bool {
    from <= item_start(item) <= item_end(labels, item) <= to
}

/// The items of a group lie one behind the other within its width.
proof fn lemma_group_in_order(
    strip: StripView,
    metrics: Metrics,
    labels: Seq<u32>,
    group: int,
    x: int,
)
    ensures
        ({
            let items = placed_group(strip, metrics, labels, group, x);
            &&& items.len() > 0
            &&& forall|k: int|
                0 <= k < items.len() ==> lies_within(
                    labels,
                    #[trigger] items[k],
                    x,
                    x + group_width(strip, metrics, labels, group),
                )
            &&& forall|j: int, k: int|
                0 <= j < k < items.len() ==> item_end(labels, #[trigger] items[j]) <= item_start(
                    #[trigger] items[k],
                )
        }),
{
    let items = placed_group(strip, metrics, labels, group, x);
    let bars = strip.groups[group].entries.len() as int;
    lemma_bars_width_grows(strip, metrics, group, 0, bars);
    assert forall|k: int| 0 <= k < items.len() implies lies_within(
        labels,
        #[trigger] items[k],
        x,
        x + group_width(strip, metrics, labels, group),
    ) by {
        if k > 0 {
            lemma_bars_width_grows(strip, metrics, group, k - 1, bars);
        }
    }
    assert forall|j: int, k: int| 0 <= j < k < items.len() implies item_end(
        labels,
        #[trigger] items[j],
    ) <= item_start(#[trigger] items[k]) by {
        if j > 0 {
            lemma_bars_width_grows(strip, metrics, group, j - 1, k - 1);
        } else {
            lemma_bars_width_grows(strip, metrics, group, 0, k - 1);
        }
    }
}

/// Items advance from left to right: each starts where the one before has ended,
/// or further on.
pub proof fn law_items_do_not_overlap(
    strip: StripView,
    metrics: Metrics,
    labels: Seq<u32>,
    left: int,
    upto: int,
)
    requires
        0 <= upto,
    ensures
        ({
            let items = placed_groups(strip, metrics, labels, left, upto);
            &&& forall|k: int|
                0 <= k < items.len() ==> lies_within(
                    labels,
                    #[trigger] items[k],
                    left,
                    group_start(strip, metrics, labels, left, upto),
                )
            &&& forall|j: int, k: int|
                0 <= j < k < items.len() ==> item_end(labels, #[trigger] items[j]) <= item_start(
                    #[trigger] items[k],
                )
        }),
        left <= group_start(strip, metrics, labels, left, upto),
    decreases upto,
{
    if upto > 0 {
        law_items_do_not_overlap(strip, metrics, labels, left, upto - 1);
        let x = group_start(strip, metrics, labels, left, upto - 1);
        let end = group_start(strip, metrics, labels, left, upto);
        let head = placed_groups(strip, metrics, labels, left, upto - 1);
        let last = placed_group(strip, metrics, labels, upto - 1, x);
        let items = placed_groups(strip, metrics, labels, left, upto);
        lemma_group_in_order(strip, metrics, labels, upto - 1, x);
        assert(lies_within(labels, last[0], x, x + group_width(strip, metrics, labels, upto - 1)));
        assert forall|k: int| 0 <= k < items.len() implies lies_within(
            labels,
            #[trigger] items[k],
            left,
            end,
        ) by {
            if k < head.len() {
                assert(items[k] == head[k]);
            } else {
                assert(items[k] == last[k - head.len()]);
            }
        }
        assert forall|j: int, k: int| 0 <= j < k < items.len() implies item_end(
            labels,
            #[trigger] items[j],
        ) <= item_start(#[trigger] items[k]) by {
            if k < head.len() {
                assert(items[j] == head[j] && items[k] == head[k]);
            } else if j < head.len() {
                assert(items[j] == head[j] && items[k] == last[k - head.len()]);
                assert(lies_within(labels, head[j], left, x));
                assert(lies_within(
                    labels,
                    last[k - head.len()],
                    x,
                    x + group_width(strip, metrics, labels, upto - 1),
                ));
            } else {
                assert(items[j] == last[j - head.len()] && items[k] == last[k - head.len()]);
            }
        }
    }
}

/// Nothing that is shown runs past the right edge, or starts before the left.
pub proof fn law_nothing_runs_off_the_page(
    strip: StripView,
    metrics: Metrics,
    labels: Seq<u32>,
    left: int,
    right: int,
)
    ensures
        forall|k: int|
            0 <= k < placed_groups(
                strip,
                metrics,
                labels,
                left,
                shown(strip, metrics, labels, left, right),
            ).len() ==> lies_within(
                labels,
                #[trigger] placed_groups(
                    strip,
                    metrics,
                    labels,
                    left,
                    shown(strip, metrics, labels, left, right),
                )[k],
                left,
                right,
            ),
{
    law_groups_that_do_not_fit_are_dropped(strip, metrics, labels, left, right);
    let upto = shown(strip, metrics, labels, left, right);
    if upto > 0 {
        let x = group_start(strip, metrics, labels, left, upto - 1);
        let head = placed_groups(strip, metrics, labels, left, upto - 1);
        let last = placed_group(strip, metrics, labels, upto - 1, x);
        let items = placed_groups(strip, metrics, labels, left, upto);
        law_items_do_not_overlap(strip, metrics, labels, left, upto - 1);
        lemma_group_in_order(strip, metrics, labels, upto - 1, x);
        assert(fits(strip, metrics, labels, left, right, upto - 1));
        let bars = strip.groups[upto - 1].entries.len() as int;
        lemma_bars_width_grows(strip, metrics, upto - 1, 0, bars);
        assert forall|k: int| 0 <= k < items.len() implies lies_within(
            labels,
            #[trigger] items[k],
            left,
            right,
        ) by {
            if k < head.len() {
                assert(items[k] == head[k]);
            } else {
                assert(items[k] == last[k - head.len()]);
            }
        }
    }
}

/// Drawn whole, the strip has one label for each group and one bar for each
/// session; drawn in part, it has the labels and bars of whole groups.
pub proof fn law_every_session_has_one_bar(strip: StripView, shown: int)
    requires
        0 <= shown <= strip.groups.len(),
    ensures
        bar_count(slots(strip, shown)) == flat(strip.groups.take(shown)).len(),
        label_count(slots(strip, shown)) == shown,
    decreases shown,
{
    let is_bar = |slot: Slot| slot is Bar;
    let is_label = |slot: Slot| slot is Label;
    if shown == 0 {
        reveal(Seq::filter);
        assert(strip.groups.take(0) =~= Seq::<GroupView>::empty());
    } else {
        law_every_session_has_one_bar(strip, shown - 1);
        let earlier = slots(strip, shown - 1);
        let group = slots_of_group(strip, shown - 1);
        Seq::filter_distributes_over_add(earlier, group, is_bar);
        Seq::filter_distributes_over_add(earlier, group, is_label);
        let label = seq![Slot::Label { group: shown - 1 }];
        let bars = Seq::new(
            strip.groups[shown - 1].entries.len(),
            |index: int| bar(strip, shown - 1, index),
        );
        Seq::filter_distributes_over_add(label, bars, is_bar);
        Seq::filter_distributes_over_add(label, bars, is_label);
        lemma_filter_all_or_none(label, is_bar);
        lemma_filter_all_or_none(label, is_label);
        lemma_filter_all_or_none(bars, is_bar);
        lemma_filter_all_or_none(bars, is_label);
        assert(strip.groups.take(shown).drop_last() =~= strip.groups.take(shown - 1));
    }
}

/// As soon as the focused group is drawn, exactly one bar is drawn focused: that
/// of the focused session.
pub proof fn law_exactly_one_bar_is_focused(strip: StripView, shown: int)
    requires
        well_formed(strip),
        0 <= shown <= strip.groups.len(),
    ensures
        slots(strip, shown).filter(|slot: Slot| is_focused_bar(slot)) == if strip.groups.len() > 0
            && strip.group < shown {
            seq![bar(strip, strip.group, strip.index)]
        } else {
            Seq::empty()
        },
    decreases shown,
{
    let focused = |slot: Slot| is_focused_bar(slot);
    if shown == 0 {
        reveal(Seq::filter);
        assert(slots(strip, 0).filter(focused) =~= Seq::<Slot>::empty());
    } else {
        law_exactly_one_bar_is_focused(strip, shown - 1);
        let earlier = slots(strip, shown - 1);
        let group = slots_of_group(strip, shown - 1);
        Seq::filter_distributes_over_add(earlier, group, focused);
        lemma_focused_in_group(strip, shown - 1);
        assert(earlier.filter(focused) + Seq::<Slot>::empty() =~= earlier.filter(focused));
        assert(Seq::<Slot>::empty() + group.filter(focused) =~= group.filter(focused));
    }
}

/// Of one group, only the bar of the focused session is drawn focused.
proof fn lemma_focused_in_group(strip: StripView, group: int)
    requires
        well_formed(strip),
        0 <= group < strip.groups.len(),
    ensures
        slots_of_group(strip, group).filter(|slot: Slot| is_focused_bar(slot)) == if strip.group
            == group {
            seq![bar(strip, strip.group, strip.index)]
        } else {
            Seq::empty()
        },
{
    let focused = |slot: Slot| is_focused_bar(slot);
    let all = slots_of_group(strip, group);
    if strip.group == group {
        let at = strip.index + 1;
        let head = all.take(at);
        let tail = all.skip(at + 1);
        let one = seq![bar(strip, strip.group, strip.index)];
        assert(all =~= head + one + tail);
        Seq::filter_distributes_over_add(head + one, tail, focused);
        Seq::filter_distributes_over_add(head, one, focused);
        assert forall|i: int| 0 <= i < head.len() implies !focused(#[trigger] head[i]) by {
            assert(head[i] == all[i]);
        }
        assert forall|i: int| 0 <= i < tail.len() implies !focused(#[trigger] tail[i]) by {
            assert(tail[i] == all[at + 1 + i]);
        }
        lemma_filter_all_or_none(head, focused);
        lemma_filter_all_or_none(tail, focused);
        assert(one.filter(focused) =~= one) by {
            reveal(Seq::filter);
            assert(one.drop_last() =~= Seq::<Slot>::empty());
            assert(one.drop_last().filter(focused) =~= Seq::<Slot>::empty());
        }
        assert(all.filter(focused) =~= one);
    } else {
        assert forall|i: int| 0 <= i < all.len() implies !focused(#[trigger] all[i]) by {}
        lemma_filter_all_or_none(all, focused);
        assert(all.filter(focused) =~= Seq::<Slot>::empty());
    }
}

/// Where the item behind another one goes. Behind a group's label comes its first
/// bar, a label gap behind the end of the label; behind a bar the next one of the
/// group, a bar gap behind its end; and behind the last bar of a group the label
/// of the next group, a bar gap and a group gap behind its end.
pub open spec fn comes_next(
    strip: StripView,
    metrics: Metrics,
    labels: Seq<u32>,
    item: Placed,
    next: Placed,
) -> bool {
    match item {
        Placed::Label { group, x } => {
            next matches Placed::Bar { group: g, index, x: at, .. } && {
                &&& g == group
                &&& index == 0
                &&& at == x + labels[group] + metrics.label_gap
            }
        },
        Placed::Bar { group, index, x, width, .. } => {
            if index + 1 < strip.groups[group].entries.len() {
                next matches Placed::Bar { group: g, index: i, x: at, .. } && {
                    &&& g == group
                    &&& i == index + 1
                    &&& at == x + width + metrics.bar_gap
                }
            } else {
                next matches Placed::Label { group: g, x: at } && {
                    &&& g == group + 1
                    &&& at == x + width + metrics.bar_gap + metrics.group_gap
                }
            }
        },
    }
}

/// The strip starts with the label of its first group at its left edge, ends with
/// the last bar of the last group shown, and each item stands exactly where it
/// comes next.
pub proof fn law_items_stand_exactly_behind_each_other(
    strip: StripView,
    metrics: Metrics,
    labels: Seq<u32>,
    left: int,
    upto: int,
)
    requires
        well_formed(strip),
        0 < upto <= strip.groups.len(),
    ensures
        ({
            let items = placed_groups(strip, metrics, labels, left, upto);
            &&& items.len() > 0
            &&& items[0] == (Placed::Label { group: 0, x: left })
            &&& forall|k: int, next: int|
                0 <= k && next == k + 1 && next < items.len() ==> comes_next(
                    strip,
                    metrics,
                    labels,
                    #[trigger] items[k],
                    #[trigger] items[next],
                )
            &&& items.last() matches Placed::Bar { group, index, x, width, .. } && {
                &&& group == upto - 1
                &&& index == strip.groups[upto - 1].entries.len() - 1
                &&& x + width + metrics.bar_gap + metrics.group_gap == group_start(
                    strip,
                    metrics,
                    labels,
                    left,
                    upto,
                )
            }
        }),
    decreases upto,
{
    let g = upto - 1;
    let x = group_start(strip, metrics, labels, left, g);
    let head = placed_groups(strip, metrics, labels, left, g);
    let group = placed_group(strip, metrics, labels, g, x);
    let items = placed_groups(strip, metrics, labels, left, upto);
    let bars = strip.groups[g].entries.len() as int;
    assert(strip.groups[g].entries.len() > 0);
    assert(group[bars] == items.last());
    assert(bars_width(strip, metrics, g, bars) == bars_width(strip, metrics, g, bars - 1)
        + width_of_bar(strip, metrics, g, bars - 1) + metrics.bar_gap);
    if g > 0 {
        law_items_stand_exactly_behind_each_other(strip, metrics, labels, left, g);
        assert(items[0] == head[0]);
    } else {
        assert(head.len() == 0);
        assert(items[0] == group[0]);
    }
    assert forall|k: int, next: int|
        0 <= k && next == k + 1 && next < items.len() implies comes_next(
        strip,
        metrics,
        labels,
        #[trigger] items[k],
        #[trigger] items[next],
    ) by {
        if next < head.len() {
            assert(items[k] == head[k] && items[next] == head[next]);
        } else if k < head.len() {
            assert(items[k] == head.last());
            assert(items[next] == group[0]);
        } else {
            let j = k - head.len();
            assert(items[k] == group[j] && items[next] == group[j + 1]);
            if j > 0 {
                assert(bars_width(strip, metrics, g, j) == bars_width(strip, metrics, g, j - 1)
                    + width_of_bar(strip, metrics, g, j - 1) + metrics.bar_gap);
            }
        }
    }
}

/// A bar is focused if and only if it is the focused bar of the focused group,
/// and then it has the width of focused bars, otherwise that of the others.
pub proof fn law_only_the_focused_bar_is_wide(
    strip: StripView,
    metrics: Metrics,
    labels: Seq<u32>,
    left: int,
    upto: int,
    k: int,
)
    requires
        0 <= k < placed_groups(strip, metrics, labels, left, upto).len(),
    ensures
        placed_groups(strip, metrics, labels, left, upto)[k] matches Placed::Bar {
            group,
            index,
            width,
            focused,
            ..
        } ==> {
            &&& focused <==> strip.group == group && strip.index == index
            &&& focused ==> width == metrics.focus_width
            &&& !focused ==> width == metrics.bar_width
        },
    decreases upto,
{
    let head = placed_groups(strip, metrics, labels, left, upto - 1);
    if k < head.len() {
        law_only_the_focused_bar_is_wide(strip, metrics, labels, left, upto - 1, k);
    }
}

/// A group fits if and only if the gap behind its last bar ends no further right
/// than the edge.
pub proof fn law_a_group_fits_up_to_the_right_edge(
    strip: StripView,
    metrics: Metrics,
    labels: Seq<u32>,
    left: int,
    right: int,
    group: int,
)
    requires
        well_formed(strip),
        0 <= group < strip.groups.len(),
    ensures
        placed_groups(strip, metrics, labels, left, group + 1).last() matches Placed::Bar {
            x,
            width,
            ..
        } && (fits(strip, metrics, labels, left, right, group) <==> x + width + metrics.bar_gap
            <= right),
        shown(strip, metrics, labels, left, right) > group ==> fits(
            strip,
            metrics,
            labels,
            left,
            right,
            group,
        ),
        (forall|g: int|
            0 <= g <= group ==> fits(strip, metrics, labels, left, right, g)) ==> shown(
            strip,
            metrics,
            labels,
            left,
            right,
        ) > group,
{
    law_items_stand_exactly_behind_each_other(strip, metrics, labels, left, group + 1);
    law_groups_that_do_not_fit_are_dropped(strip, metrics, labels, left, right);
}

/// The views of items say where they are.
pub proof fn law_views_say_where_items_are(item: Item, items: Seq<Item>, k: int)
    ensures
        item matches Item::Label { group, x } ==> item@ == (Placed::Label {
            group: group as int,
            x: x as int,
        }),
        item matches Item::Bar { group, index, x, width, focused } ==> item@ == (Placed::Bar {
            group: group as int,
            index: index as int,
            x: x as int,
            width: width as int,
            focused,
        }),
        places(items).len() == items.len(),
        0 <= k < items.len() ==> places(items)[k] == items[k]@,
{
}

/// The gaps between neighbouring items, measure by measure.
pub proof fn law_gaps_between_items(
    strip: StripView,
    metrics: Metrics,
    labels: Seq<u32>,
    left: int,
    upto: int,
    k: int,
)
    requires
        well_formed(strip),
        0 < upto <= strip.groups.len(),
        0 <= k < placed_groups(strip, metrics, labels, left, upto).len() - 1,
    ensures
        ({
            let items = placed_groups(strip, metrics, labels, left, upto);
            let next = items[k + 1];
            &&& items[k] matches Placed::Label { group, x } ==> next == (Placed::Bar {
                group,
                index: 0,
                x: x + labels[group] + metrics.label_gap,
                width: if strip.group == group && strip.index == 0 {
                    metrics.focus_width as int
                } else {
                    metrics.bar_width as int
                },
                focused: strip.group == group && strip.index == 0,
            })
            &&& items[k] matches Placed::Bar { group, index, x, width, .. } ==> (if index + 1
                < strip.groups[group].entries.len() {
                next == (Placed::Bar {
                    group,
                    index: index + 1,
                    x: x + width + metrics.bar_gap,
                    width: if strip.group == group && strip.index == index + 1 {
                        metrics.focus_width as int
                    } else {
                        metrics.bar_width as int
                    },
                    focused: strip.group == group && strip.index == index + 1,
                })
            } else {
                next == (Placed::Label {
                    group: group + 1,
                    x: x + width + metrics.bar_gap + metrics.group_gap,
                })
            })
        }),
{
    law_items_stand_exactly_behind_each_other(strip, metrics, labels, left, upto);
    law_only_the_focused_bar_is_wide(strip, metrics, labels, left, upto, k + 1);
    let items = placed_groups(strip, metrics, labels, left, upto);
    assert(comes_next(strip, metrics, labels, items[k], items[k + 1]));
}

} // verus!
