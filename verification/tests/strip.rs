use jcode_surfaces::strip::{label_for, Entry, Strip};

fn strip() -> Strip {
    Strip::build(
        vec![
            Entry::new("a1", Some("/home/j/jcode")),
            Entry::new("a2", Some("/home/j/jcode")),
            Entry::new("a3", Some("/home/j/jcode")),
            Entry::new("b1", Some("/home/j/site")),
        ],
        Some("a1"),
    )
}

fn ids(strip: &Strip) -> Vec<String> {
    strip
        .entries()
        .iter()
        .map(|entry| entry.session_id.clone())
        .collect()
}

/// Bars must bucket by directory and keep a stable order, or the strip
/// reshuffles under the user's fingers between polls.
#[test]
fn grouping_is_by_working_dir_and_is_stable() {
    let strip = strip();
    assert_eq!(strip.groups().len(), 2);
    assert_eq!(strip.groups()[0].label, "jcode");
    assert_eq!(strip.groups()[0].entries.len(), 3);
    assert_eq!(strip.groups()[1].label, "site");
    let again = strip.clone();
    assert_eq!(strip, again);
}

/// A session with no reported directory still gets a bar rather than vanishing.
#[test]
fn sessions_without_a_working_dir_are_still_grouped() {
    let strip = Strip::build(vec![Entry::new("x", None)], None);
    assert_eq!(strip.groups().len(), 1);
    assert_eq!(strip.groups()[0].label, "-");
}

#[test]
fn focus_right_wraps_within_the_group() {
    let mut strip = strip();
    assert_eq!(strip.focused_session(), Some("a1"));
    assert!(strip.focus_right());
    assert_eq!(strip.focused_session(), Some("a2"));
    assert!(strip.focus_right());
    assert_eq!(strip.focused_session(), Some("a3"));
    assert!(strip.focus_right());
    assert_eq!(strip.focused_session(), Some("a1"), "did not wrap");
    assert_eq!(strip.group_index(), 0, "left the group");
}

#[test]
fn focus_left_wraps_within_the_group() {
    let mut strip = strip();
    assert!(strip.focus_left());
    assert_eq!(strip.focused_session(), Some("a3"));
    assert_eq!(strip.group_index(), 0);
}

#[test]
fn focus_down_changes_group_and_clamps_index() {
    let mut strip = strip();
    strip.focus_right();
    strip.focus_right();
    assert_eq!(strip.index(), 2);
    assert!(strip.focus_down());
    assert_eq!(strip.group_index(), 1);
    assert_eq!(strip.index(), 0, "index was not clamped into the group");
    assert_eq!(strip.focused_session(), Some("b1"));
    assert!(strip.focus_up());
    assert_eq!(strip.group_index(), 0);
}

/// With nothing to move to, the keys must be quiet no-ops rather than appearing
/// to work.
#[test]
fn movement_is_a_no_op_when_there_is_nowhere_to_go() {
    let mut only = Strip::build(vec![Entry::new("solo", Some("/tmp"))], Some("solo"));
    assert!(!only.focus_left());
    assert!(!only.focus_right());
    assert!(!only.focus_up());
    assert!(!only.focus_down());

    let mut empty = Strip::default();
    assert!(!empty.focus_left());
    assert!(!empty.focus_down());
    assert_eq!(empty.focused_session(), None);
}

/// Focus must survive a refresh, or every poll would yank the user back to the
/// first bar.
#[test]
fn rebuilding_keeps_focus_on_the_same_session() {
    let entries = vec![
        Entry::new("a1", Some("/home/j/jcode")),
        Entry::new("a2", Some("/home/j/jcode")),
    ];
    let strip = Strip::build(entries, Some("a2"));
    assert_eq!(strip.focused_session(), Some("a2"));
}

/// A session that disappeared must not leave focus pointing at nothing.
#[test]
fn focus_falls_back_when_the_session_is_gone() {
    let strip = Strip::build(vec![Entry::new("a1", Some("/tmp"))], Some("vanished"));
    assert_eq!(strip.focused_session(), Some("a1"));
}

#[test]
fn label_uses_the_leaf_directory() {
    assert_eq!(label_for(Some("/home/j/jcode")), "jcode");
    assert_eq!(label_for(Some("/home/j/jcode/")), "jcode");
    assert_eq!(label_for(Some("/")), "/");
    assert_eq!(label_for(None), "-");
}

#[test]
fn label_of_odd_paths() {
    assert_eq!(label_for(Some("")), "/");
    assert_eq!(label_for(Some("///")), "/");
    assert_eq!(label_for(Some("plain")), "plain");
    assert_eq!(label_for(Some("a//b//")), "b");
    assert_eq!(label_for(Some("/tmp/ünïcödé")), "ünïcödé");
}

/// Checkouts with the same leaf in different places are different workspaces.
#[test]
fn directories_with_the_same_leaf_stay_apart() {
    let strip = Strip::build(
        vec![
            Entry::new("a", Some("/work/jcode")),
            Entry::new("b", Some("/home/jcode")),
            Entry::new("c", Some("/work/jcode/")),
        ],
        None,
    );
    assert_eq!(strip.groups().len(), 2);
    assert_eq!(strip.groups()[0].label, "jcode");
    assert_eq!(strip.groups()[1].label, "jcode");
    assert_eq!(ids(&strip), vec!["a", "c", "b"]);
}

#[test]
fn a_session_without_a_directory_shares_no_group_with_a_directory_called_hyphen() {
    let strip = Strip::build(
        vec![Entry::new("a", None), Entry::new("b", Some("/-"))],
        None,
    );
    assert_eq!(strip.groups().len(), 2);
    assert_eq!(strip.groups()[0].label, strip.groups()[1].label);
}

#[test]
fn grouping_loses_and_doubles_no_session() {
    let strip = Strip::build(
        vec![
            Entry::new("a", Some("/x")),
            Entry::new("b", Some("/y")),
            Entry::new("c", Some("/x")),
            Entry::new("d", None),
            Entry::new("e", Some("/y")),
        ],
        None,
    );
    assert_eq!(ids(&strip), vec!["a", "c", "b", "e", "d"]);
    assert_eq!(strip.len(), 5);
    assert!(!strip.is_empty());
    assert!(Strip::default().is_empty());
}

#[test]
fn rebuilding_from_the_strip_gives_the_same_strip() {
    let strip = strip();
    let again = Strip::build(strip.entries(), strip.focused_session());
    assert_eq!(strip, again);
}

#[test]
fn one_more_session_moves_no_bar() {
    let before = Strip::build(
        vec![Entry::new("a", Some("/x")), Entry::new("b", Some("/y"))],
        None,
    );
    let after = Strip::build(
        vec![
            Entry::new("a", Some("/x")),
            Entry::new("b", Some("/y")),
            Entry::new("c", Some("/x")),
        ],
        None,
    );
    assert_eq!(before.groups()[0].entries[0], after.groups()[0].entries[0]);
    assert_eq!(before.groups()[1], after.groups()[1]);
    assert_eq!(after.groups()[0].entries[1].session_id, "c");
}

#[test]
fn left_undoes_right() {
    let mut strip = strip();
    let before = strip.clone();
    strip.focus_right();
    strip.focus_left();
    assert_eq!(strip, before);
}

#[test]
fn up_and_down_wrap_around_the_strip() {
    let mut strip = strip();
    assert!(strip.focus_up());
    assert_eq!(strip.group_index(), 1);
    assert!(strip.focus_down());
    assert_eq!(strip.group_index(), 0);
    assert_eq!(strip.focused_session(), Some("a1"));
}

#[test]
fn focus_lands_on_the_first_of_two_sessions_with_one_id() {
    let mut strip = Strip::build(
        vec![
            Entry::new("a", Some("/x")),
            Entry::new("twin", Some("/y")),
            Entry::new("twin", Some("/x")),
        ],
        Some("twin"),
    );
    assert_eq!((strip.group_index(), strip.index()), (0, 1));
    assert!(!strip.focus_session("nobody"));
    assert_eq!((strip.group_index(), strip.index()), (0, 1));
    assert!(strip.focus_session("a"));
    assert_eq!(strip.index(), 0);
}

#[test]
fn the_focused_directory_is_the_reported_one() {
    let strip = Strip::build(vec![Entry::new("a", Some("/x/y/"))], None);
    assert_eq!(strip.focused_working_dir(), Some("/x/y/"));
    assert_eq!(strip.focused_group().map(|group| group.label.as_str()), Some("y"));
    let nowhere = Strip::build(vec![Entry::new("a", None)], None);
    assert_eq!(nowhere.focused_working_dir(), None);
    assert!(Strip::default().focused_group().is_none());
}
