use jcode_surfaces::strip::{Entry, Strip};
use jcode_surfaces::strip_layout::{layout_items, Item, Metrics};

const METRICS: Metrics = Metrics {
    label_gap: 6,
    bar_gap: 3,
    group_gap: 14,
    bar_width: 4,
    focus_width: 14,
};

fn strip() -> Strip {
    Strip::build(
        vec![
            Entry::new("a1", Some("/home/j/jcode")),
            Entry::new("a2", Some("/home/j/jcode")),
            Entry::new("b1", Some("/home/j/site")),
        ],
        Some("a2"),
    )
}

/// One bar per session, one label per group, in reading order.
#[test]
fn every_session_gets_exactly_one_bar() {
    let items = layout_items(&strip(), 0, 400, &[20, 20], METRICS);
    let bars = items
        .iter()
        .filter(|item| matches!(item, Item::Bar { .. }))
        .count();
    let labels = items
        .iter()
        .filter(|item| matches!(item, Item::Label { .. }))
        .count();
    assert_eq!(bars, 3, "bars did not match the session count");
    assert_eq!(labels, 2, "labels did not match the group count");
}

/// The focused bar is the wide one, and it is the only wide one: that is the
/// whole visual signal the strip carries.
#[test]
fn exactly_one_bar_is_drawn_focused() {
    let items = layout_items(&strip(), 0, 400, &[20, 20], METRICS);
    let focused: Vec<_> = items
        .iter()
        .filter_map(|item| match item {
            Item::Bar {
                focused: true,
                width,
                index,
                ..
            } => Some((*index, *width)),
            _ => None,
        })
        .collect();
    assert_eq!(focused.len(), 1);
    assert_eq!(focused[0].0, 1, "the wrong bar was focused");
    assert!(
        focused[0].1 > METRICS.bar_width,
        "the focused bar was not wider than a tick"
    );
}

/// Items must advance strictly left to right and never overlap, or the bars
/// smear into one another.
#[test]
fn items_advance_left_to_right_without_overlapping() {
    let items = layout_items(&strip(), 10, 400, &[20, 20], METRICS);
    let mut cursor = 10i64;
    for item in &items {
        let (x, width) = match item {
            Item::Label { x, .. } => (*x, 20),
            Item::Bar { x, width, .. } => (*x, *width),
        };
        assert!(x >= cursor, "item at {x} overlapped {cursor}");
        cursor = x + i64::from(width);
    }
}

/// A narrow window drops whole groups rather than drawing a half group or
/// letting the strip run off the page.
#[test]
fn groups_that_do_not_fit_are_dropped_whole() {
    let items = layout_items(&strip(), 0, 60, &[20, 20], METRICS);
    let groups: std::collections::BTreeSet<usize> = items
        .iter()
        .map(|item| match item {
            Item::Label { group, .. } | Item::Bar { group, .. } => *group,
        })
        .collect();
    assert!(groups.len() < 2, "a group was drawn past the right edge");
    for item in &items {
        if let Item::Bar { x, width, .. } = item {
            assert!(x + i64::from(*width) <= 60, "a bar ran off the page");
        }
    }
}

#[test]
fn places_are_exact() {
    let items = layout_items(&strip(), 10, 400, &[20, 30], METRICS);
    assert_eq!(
        items,
        vec![
            Item::Label { group: 0, x: 10 },
            Item::Bar { group: 0, index: 0, x: 36, width: 4, focused: false },
            Item::Bar { group: 0, index: 1, x: 43, width: 14, focused: true },
            Item::Label { group: 1, x: 74 },
            Item::Bar { group: 1, index: 0, x: 110, width: 4, focused: false },
        ]
    );
}

/// The last group needs room for the gap behind its last bar as well.
#[test]
fn a_group_fits_up_to_the_right_edge_and_no_further() {
    assert_eq!(layout_items(&strip(), 10, 117, &[20, 30], METRICS).len(), 5);
    assert_eq!(layout_items(&strip(), 10, 116, &[20, 30], METRICS).len(), 3);
    assert_eq!(layout_items(&strip(), 10, 60, &[20, 30], METRICS).len(), 3);
    assert_eq!(layout_items(&strip(), 10, 59, &[20, 30], METRICS).len(), 0);
}

#[test]
fn a_strip_may_start_left_of_the_page() {
    let items = layout_items(&strip(), -50, 0, &[20, 20], METRICS);
    assert_eq!(items[0], Item::Label { group: 0, x: -50 });
    assert_eq!(items.len(), 3);
    assert!(layout_items(&strip(), i64::MIN, i64::MIN, &[20, 20], METRICS).is_empty());
    assert!(layout_items(&Strip::default(), 0, 10, &[], METRICS).is_empty());
}
