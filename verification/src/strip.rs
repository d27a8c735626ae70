//! The session strip: sessions as bars, grouped by working directory.
//!
//! A *group* is a working directory and a *bar* is a session in it. Left and
//! right walk the bars of the current group and wrap around; up and down walk
//! the groups. This module owns the grouping, the focus and the wrapping rules.
//!
//! A directory is the same with and without slashes at its end. Two directories
//! with the same leaf are two groups with the same label.
use crate::strings::{
    same_text, string_of, text_of, trim_end_of, without_suffix, CharClass,
};
use vstd::prelude::*;
use vstd::string::StrSliceExecFns;

verus! {

/// One session, as the strip and the overview need to know it.
#[derive(Debug, PartialEq)]
pub struct Entry {
    pub session_id: String,
    /// Working directory, which is what the strip groups on.
    pub working_dir: Option<String>,
    /// Whether the session is currently generating.
    pub busy: bool,
    /// How much conversation the session holds, in characters of transcript.
    /// The strip ignores it; the overview sizes its blobs by it.
    pub weight: u64,
}

/// What an [`Entry`] says.
pub struct EntryView {
    pub session_id: Seq<char>,
    pub working_dir: Option<Seq<char>>,
    pub busy: bool,
    pub weight: u64,
}

impl View for Entry {
    type V = EntryView;

    open spec fn view(&self) -> EntryView {
        EntryView {
            session_id: self.session_id@,
            working_dir: string_of(self.working_dir),
            busy: self.busy,
            weight: self.weight,
        }
    }
}

impl Clone for Entry {
    fn clone(&self) -> (same: Self)
        ensures
            same == *self,
    {
        Entry {
            session_id: self.session_id.clone(),
            working_dir: self.working_dir.clone(),
            busy: self.busy,
            weight: self.weight,
        }
    }
}

impl Entry {
    /// An idle session without any conversation yet.
    pub fn new(session_id: &str, working_dir: Option<&str>) -> (entry: Self)
        ensures
            entry@ == (EntryView {
                session_id: session_id@,
                working_dir: text_of(working_dir),
                busy: false,
                weight: 0,
            }),
    {
        let working_dir = match working_dir {
            Some(dir) => Some(dir.to_owned()),
            None => None,
        };
        Entry { session_id: session_id.to_owned(), working_dir, busy: false, weight: 0 }
    }
}

/// A group of sessions sharing a working directory: one "workspace".
#[derive(Debug, PartialEq)]
pub struct Group {
    /// Short label shown before the bars: the leaf of the working directory,
    /// because the full path is far too wide for a strip.
    pub label: String,
    pub entries: Vec<Entry>,
}

/// What a [`Group`] says.
pub struct GroupView {
    pub label: Seq<char>,
    pub entries: Seq<EntryView>,
}

/// What a sequence of entries says, one by one.
pub open spec fn listed(entries: Seq<Entry>) -> Seq<EntryView> {
    entries.map_values(|entry: Entry| entry@)
}

impl View for Group {
    type V = GroupView;

    open spec fn view(&self) -> GroupView {
        GroupView { label: self.label@, entries: listed(self.entries@) }
    }
}

/// What a sequence of groups says, one by one.
pub open spec fn grouping(groups: Seq<Group>) -> Seq<GroupView> {
    groups.map_values(|group: Group| group@)
}

/// The part of a path behind its last slash.
pub open spec fn leaf(path: Seq<char>) -> Seq<char>
    decreases path.len(),
{
    if path.len() == 0 || path.last() == '/' {
        Seq::empty()
    } else {
        leaf(path.drop_last()).push(path.last())
    }
}

/// The label of a working directory: its leaf, a slash for the root, and a
/// hyphen where none was reported.
pub open spec fn label_of(working_dir: Option<Seq<char>>) -> Seq<char> {
    match working_dir {
        Some(dir) => {
            let name = leaf(without_suffix(dir, CharClass::Only('/')));
            if name.len() == 0 {
                "/"@
            } else {
                name
            }
        },
        None => "-"@,
    }
}

/// A working directory, whether or not it was reported with slashes at its end.
pub open spec fn directory(working_dir: Option<Seq<char>>) -> Option<Seq<char>> {
    match working_dir {
        Some(dir) => Some(without_suffix(dir, CharClass::Only('/'))),
        None => None,
    }
}

/// The directory that an entry is grouped under.
pub open spec fn entry_dir(entry: EntryView) -> Option<Seq<char>> {
    directory(entry.working_dir)
}

/// The directories of `entries`, in order.
pub open spec fn directories(entries: Seq<EntryView>) -> Seq<Option<Seq<char>>> {
    entries.map_values(|entry: EntryView| entry_dir(entry))
}

/// The items of `items` without repetition, each where it first appears.
pub open spec fn first_appearances(items: Seq<Option<Seq<char>>>) -> Seq<Option<Seq<char>>>
    decreases items.len(),
{
    if items.len() == 0 {
        items
    } else {
        let earlier = first_appearances(items.drop_last());
        if earlier.contains(items.last()) {
            earlier
        } else {
            earlier.push(items.last())
        }
    }
}

/// The entries in one directory, in order.
pub open spec fn members_of(entries: Seq<EntryView>, dir: Option<Seq<char>>) -> Seq<EntryView> {
    entries.filter(|entry: EntryView| entry_dir(entry) == dir)
}

/// `entries` in groups: one group for each directory, in the order in which the
/// directories first appear, each with its entries in order.
pub open spec fn grouped(entries: Seq<EntryView>) -> Seq<GroupView> {
    first_appearances(directories(entries)).map_values(
        |dir: Option<Seq<char>>|
            GroupView { label: label_of(dir), entries: members_of(entries, dir) },
    )
}

/// Label for a working directory: the leaf component, or a placeholder when none
/// was reported.
pub fn label_for(working_dir: Option<&str>) -> (label: String)
    ensures
        label@ == label_of(text_of(working_dir)),
{
    let dir = match working_dir {
        Some(dir) => dir,
        None => return "-".to_owned(),
    };
    let path = trim_end_of(dir, CharClass::Only('/'));
    let chars = crate::strings::chars_of(path);
    let len = chars.len();
    let mut start: usize = len;
    proof {
        assert(path@.take(len as int) =~= path@);
        assert(leaf(path@) =~= leaf(path@) + path@.skip(len as int));
    }
    while start > 0 && chars[start - 1] != '/'
        invariant
            chars@ == path@,
            len == chars.len(),
            start <= len,
            leaf(path@) == leaf(path@.take(start as int)) + path@.skip(start as int),
        decreases start,
    {
        proof {
            let head = path@.take(start as int);
            assert(head.drop_last() =~= path@.take(start - 1));
            assert(leaf(path@) =~= leaf(path@.take(start - 1)) + path@.skip(start - 1));
        }
        start = start - 1;
    }
    assert(leaf(path@) =~= path@.skip(start as int)) by {
        assert(leaf(path@.take(start as int)).len() == 0);
    }
    if start == len {
        "/".to_owned()
    } else {
        path.substring_char(start, len).to_owned()
    }
}

/// All entries of `groups`, group by group.
pub open spec fn flat(groups: Seq<GroupView>) -> Seq<EntryView>
    decreases groups.len(),
{
    if groups.len() == 0 {
        Seq::empty()
    } else {
        flat(groups.drop_last()) + groups.last().entries
    }
}

/// The directory of a group: that of its first entry.
pub open spec fn group_dir(group: GroupView) -> Option<Seq<char>> {
    entry_dir(group.entries[0])
}

/// Groups as grouping makes them: no directory twice, no group without entries,
/// every entry in its own directory, and every group labelled by its own.
pub open spec fn proper(groups: Seq<GroupView>) -> bool {
    &&& forall|g: int, h: int|
        0 <= g < h < groups.len() ==> group_dir(#[trigger] groups[g]) != group_dir(
            #[trigger] groups[h],
        )
    &&& forall|g: int| 0 <= g < groups.len() ==> (#[trigger] groups[g]).entries.len() > 0
    &&& forall|g: int|
        0 <= g < groups.len() ==> (#[trigger] groups[g]).label == label_of(group_dir(groups[g]))
    &&& forall|g: int, i: int|
        0 <= g < groups.len() && 0 <= i < groups[g].entries.len() ==> entry_dir(
            #[trigger] groups[g].entries[i],
        ) == group_dir(groups[g])
}

/// What a [`Strip`] says: the grouped sessions and where focus sits.
pub struct StripView {
    pub groups: Seq<GroupView>,
    pub group: int,
    pub index: int,
}

/// What holds of every strip: its groups are proper, and focus is on a session
/// unless there is none.
pub open spec fn well_formed(strip: StripView) -> bool {
    &&& proper(strip.groups)
    &&& flat(strip.groups).len() <= usize::MAX
    &&& if strip.groups.len() == 0 {
        strip.group == 0 && strip.index == 0
    } else {
        &&& 0 <= strip.group < strip.groups.len()
        &&& 0 <= strip.index < strip.groups[strip.group].entries.len()
    }
}

/// The focused session.
pub open spec fn focused_entry(strip: StripView) -> Option<EntryView> {
    if 0 <= strip.group < strip.groups.len() && 0 <= strip.index
        < strip.groups[strip.group].entries.len() {
        Some(strip.groups[strip.group].entries[strip.index])
    } else {
        None
    }
}

/// A session with this id is among `groups`.
pub open spec fn has_session(groups: Seq<GroupView>, id: Seq<char>) -> bool {
    exists|g: int, i: int|
        0 <= g < groups.len() && 0 <= i < groups[g].entries.len() && (
        #[trigger] groups[g].entries[i]).session_id == id
}

/// The first session with this id, in strip order, is bar `index` of `group`.
pub open spec fn first_at(groups: Seq<GroupView>, id: Seq<char>, group: int, index: int) -> bool {
    &&& 0 <= group < groups.len()
    &&& 0 <= index < groups[group].entries.len()
    &&& groups[group].entries[index].session_id == id
    &&& forall|g: int, i: int|
        0 <= g < groups.len() && 0 <= i < groups[g].entries.len() && (g < group || (g == group && i
            < index)) ==> (#[trigger] groups[g].entries[i]).session_id != id
}

/// Focus is on the first session with the id asked for, and on the first of all
/// where none is asked for or the strip has none of that id.
pub open spec fn focus_is_kept(strip: StripView, focused: Option<Seq<char>>) -> bool {
    match focused {
        Some(id) if has_session(strip.groups, id) => first_at(
            strip.groups,
            id,
            strip.group,
            strip.index,
        ),
        _ => strip.group == 0 && strip.index == 0,
    }
}

/// How many bars the focused group has.
pub open spec fn bars_beside(strip: StripView) -> int {
    if 0 <= strip.group < strip.groups.len() {
        strip.groups[strip.group].entries.len() as int
    } else {
        0
    }
}

/// The strip after focus moved `delta` bars to the right, around its group.
pub open spec fn stepped_within(strip: StripView, delta: int) -> StripView {
    if bars_beside(strip) <= 1 {
        strip
    } else {
        StripView { index: (strip.index + delta) % bars_beside(strip), ..strip }
    }
}

/// The strip after focus moved `delta` groups down, around the strip. The bar
/// position is kept where it still exists.
pub open spec fn stepped_between(strip: StripView, delta: int) -> StripView {
    if strip.groups.len() <= 1 {
        strip
    } else {
        let group = (strip.group + delta) % strip.groups.len() as int;
        let last = strip.groups[group].entries.len() - 1;
        StripView {
            group,
            index: if strip.index <= last {
                strip.index
            } else {
                last
            },
            ..strip
        }
    }
}

/// The strip's state: the grouped sessions plus where focus sits.
#[derive(Debug, PartialEq)]
pub struct Strip {
    groups: Vec<Group>,
    group: usize,
    index: usize,
}

impl View for Strip {
    type V = StripView;

    closed spec fn view(&self) -> StripView {
        StripView {
            groups: grouping(self.groups@),
            group: self.group as int,
            index: self.index as int,
        }
    }
}

impl Default for Strip {
    fn default() -> (strip: Self)
        ensures
            well_formed(strip@),
            strip@.groups.len() == 0,
    {
        let strip = Strip { groups: Vec::new(), group: 0, index: 0 };
        assert(strip@.groups.len() == 0);
        strip
    }
}

/// Trimming the slashes at the end once is enough.
proof fn lemma_trimmed_once(path: Seq<char>)
    ensures
        without_suffix(without_suffix(path, CharClass::Only('/')), CharClass::Only('/'))
            == without_suffix(path, CharClass::Only('/')),
    decreases path.len(),
{
    if path.len() > 0 && path.last() == '/' {
        lemma_trimmed_once(path.drop_last());
    }
}

/// A directory has the same label with and without slashes at its end.
proof fn lemma_label_of_directory(working_dir: Option<Seq<char>>)
    ensures
        label_of(directory(working_dir)) == label_of(working_dir),
{
    if let Some(dir) = working_dir {
        lemma_trimmed_once(dir);
    }
}

/// Every directory is kept where it first appears, once.
proof fn lemma_first_appearances(items: Seq<Option<Seq<char>>>)
    ensures
        forall|item: Option<Seq<char>>| #[trigger]
            first_appearances(items).contains(item) <==> items.contains(item),
        forall|g: int, h: int|
            0 <= g < h < first_appearances(items).len() ==> #[trigger] first_appearances(items)[g]
                != #[trigger] first_appearances(items)[h],
    decreases items.len(),
{
    if items.len() > 0 {
        let shorter = items.drop_last();
        let earlier = first_appearances(shorter);
        lemma_first_appearances(shorter);
        let all = first_appearances(items);
        assert forall|item: Option<Seq<char>>| #[trigger]
            all.contains(item) <==> items.contains(item) by {
            if items.contains(item) {
                let k = choose|k: int| 0 <= k < items.len() && items[k] == item;
                if k < shorter.len() {
                    assert(shorter[k] == item);
                    assert(earlier.contains(item));
                    let j = choose|j: int| 0 <= j < earlier.len() && earlier[j] == item;
                    assert(all[j] == item);
                } else {
                    if earlier.contains(item) {
                    } else {
                        assert(all[all.len() - 1] == item);
                    }
                }
            }
            if all.contains(item) {
                let j = choose|j: int| 0 <= j < all.len() && all[j] == item;
                if j < earlier.len() {
                    assert(earlier[j] == item);
                    assert(earlier.contains(item));
                    assert(shorter.contains(item));
                    let k = choose|k: int| 0 <= k < shorter.len() && shorter[k] == item;
                    assert(items[k] == item);
                } else {
                    assert(items[items.len() - 1] == item);
                }
            }
        }
        assert forall|g: int, h: int| 0 <= g < h < all.len() implies #[trigger] all[g]
            != #[trigger] all[h] by {
            if h == earlier.len() {
                assert(earlier[g] == all[g]);
                assert(earlier.contains(earlier[g]));
            }
        }
    } else {
        assert(first_appearances(items) =~= items);
    }
}

/// One more entry adds to its own directory's entries and to no other's.
proof fn lemma_members_push(entries: Seq<EntryView>, entry: EntryView, dir: Option<Seq<char>>)
    ensures
        members_of(entries.push(entry), dir) == if entry_dir(entry) == dir {
            members_of(entries, dir).push(entry)
        } else {
            members_of(entries, dir)
        },
{
    reveal(Seq::filter);
    assert(entries.push(entry).drop_last() =~= entries);
}

/// A directory that no entry is in has no entries.
proof fn lemma_no_members(entries: Seq<EntryView>, dir: Option<Seq<char>>)
    requires
        !directories(entries).contains(dir),
    ensures
        members_of(entries, dir).len() == 0,
    decreases entries.len(),
{
    reveal(Seq::filter);
    if entries.len() > 0 {
        let shorter = entries.drop_last();
        assert forall|i: int| 0 <= i < shorter.len() implies directories(shorter)[i] != dir by {
            assert(directories(entries)[i] == directories(shorter)[i]);
        }
        assert(directories(entries)[entries.len() - 1] == entry_dir(entries.last()));
        lemma_no_members(shorter, dir);
    }
}

/// The group that was made for a directory is in that directory.
proof fn lemma_group_dir(entries: Seq<EntryView>, g: int)
    requires
        0 <= g < grouped(entries).len(),
    ensures
        grouped(entries)[g].entries.len() > 0,
        group_dir(grouped(entries)[g]) == first_appearances(directories(entries))[g],
        forall|i: int|
            0 <= i < grouped(entries)[g].entries.len() ==> entry_dir(
                #[trigger] grouped(entries)[g].entries[i],
            ) == group_dir(grouped(entries)[g]),
{
    let dirs = directories(entries);
    let kept = first_appearances(dirs);
    let dir = kept[g];
    let keep = |entry: EntryView| entry_dir(entry) == dir;
    lemma_first_appearances(dirs);
    assert(kept.contains(dir));
    let k = choose|k: int| 0 <= k < dirs.len() && dirs[k] == dir;
    assert(entry_dir(entries[k]) == dir);
    entries.lemma_filter_contains(keep, k);
    assert(members_of(entries, dir).contains(entries[k]));
    let made = grouped(entries)[g].entries;
    assert(made == members_of(entries, dir));
    assert forall|i: int| 0 <= i < made.len() implies entry_dir(#[trigger] made[i]) == dir by {
        entries.lemma_filter_pred(keep, i);
    }
    assert(entry_dir(made[0]) == dir);
}

/// One more entry in a directory that is there joins that directory's group.
proof fn lemma_grouped_joins(entries: Seq<EntryView>, entry: EntryView, at: int)
    requires
        0 <= at < grouped(entries).len(),
        group_dir(grouped(entries)[at]) == entry_dir(entry),
    ensures
        grouped(entries.push(entry)) == grouped(entries).update(
            at,
            GroupView {
                label: grouped(entries)[at].label,
                entries: grouped(entries)[at].entries.push(entry),
            },
        ),
{
    let more = entries.push(entry);
    let dir = entry_dir(entry);
    let kept = first_appearances(directories(entries));
    lemma_first_appearances(directories(entries));
    lemma_group_dir(entries, at);
    assert(directories(more).drop_last() =~= directories(entries));
    assert(directories(more).last() == dir);
    assert(kept[at] == dir);
    assert(kept.contains(dir));
    assert(first_appearances(directories(more)) == kept);
    let joined = grouped(entries).update(
        at,
        GroupView {
            label: grouped(entries)[at].label,
            entries: grouped(entries)[at].entries.push(entry),
        },
    );
    assert forall|g: int| 0 <= g < joined.len() implies #[trigger] grouped(more)[g]
        == joined[g] by {
        lemma_members_push(entries, entry, kept[g]);
    }
    assert(grouped(more) =~= joined);
}

/// The group that an entry opens.
spec fn opened(entry: EntryView) -> GroupView {
    GroupView { label: label_of(entry_dir(entry)), entries: seq![entry] }
}

/// One more entry in a directory that is not there opens a group at the end.
proof fn lemma_grouped_opens(entries: Seq<EntryView>, entry: EntryView)
    requires
        forall|g: int|
            0 <= g < grouped(entries).len() ==> group_dir(#[trigger] grouped(entries)[g])
                != entry_dir(entry),
    ensures
        grouped(entries.push(entry)) == grouped(entries).push(opened(entry)),
{
    let more = entries.push(entry);
    let dir = entry_dir(entry);
    let kept = first_appearances(directories(entries));
    lemma_first_appearances(directories(entries));
    assert(directories(more).drop_last() =~= directories(entries));
    assert(directories(more).last() == dir);
    assert(!kept.contains(dir)) by {
        if kept.contains(dir) {
            let g = choose|g: int| 0 <= g < kept.len() && kept[g] == dir;
            lemma_group_dir(entries, g);
            assert(group_dir(grouped(entries)[g]) == dir);
        }
    }
    lemma_no_members(entries, dir);
    lemma_members_push(entries, entry, dir);
    assert(members_of(more, dir) =~= seq![entry]);
    assert forall|g: int| 0 <= g < kept.len() implies #[trigger] grouped(more)[g] == grouped(
        entries,
    )[g] by {
        assert(kept.contains(kept[g]));
        lemma_members_push(entries, entry, kept[g]);
    }
    assert(grouped(more) =~= grouped(entries).push(opened(entry)));
}

/// Grouping makes proper groups.
proof fn lemma_grouped_is_proper(entries: Seq<EntryView>)
    ensures
        proper(grouped(entries)),
{
    let groups = grouped(entries);
    lemma_first_appearances(directories(entries));
    assert forall|g: int| 0 <= g < groups.len() implies (#[trigger] groups[g]).entries.len() > 0
        && groups[g].label == label_of(group_dir(groups[g])) by {
        lemma_group_dir(entries, g);
    }
    assert forall|g: int, h: int| 0 <= g < h < groups.len() implies group_dir(#[trigger] groups[g])
        != group_dir(#[trigger] groups[h]) by {
        lemma_group_dir(entries, g);
        lemma_group_dir(entries, h);
    }
    assert forall|g: int, i: int|
        0 <= g < groups.len() && 0 <= i < groups[g].entries.len() implies entry_dir(
        #[trigger] groups[g].entries[i],
    ) == group_dir(groups[g]) by {
        lemma_group_dir(entries, g);
    }
}

/// Putting one more entry at the end of a group adds that entry to the whole.
proof fn lemma_flat_join(groups: Seq<GroupView>, at: int, entry: EntryView)
    requires
        0 <= at < groups.len(),
    ensures
        ({
            let longer = GroupView {
                label: groups[at].label,
                entries: groups[at].entries.push(entry),
            };
            flat(groups.update(at, longer)).to_multiset() == flat(groups).to_multiset().insert(
                entry,
            )
        }),
    decreases groups.len(),
{
    let longer = GroupView { label: groups[at].label, entries: groups[at].entries.push(entry) };
    let updated = groups.update(at, longer);
    let last = groups.last().entries;
    broadcast use vstd::seq_lib::group_to_multiset_ensures;

    if at == groups.len() - 1 {
        assert(updated.drop_last() =~= groups.drop_last());
        assert(flat(updated) =~= flat(groups).push(entry));
    } else {
        lemma_flat_join(groups.drop_last(), at, entry);
        assert(updated.drop_last() =~= groups.drop_last().update(at, longer));
        let shorter = flat(groups.drop_last());
        let grown = flat(groups.drop_last().update(at, longer));
        vstd::seq_lib::lemma_multiset_commutative(shorter, last);
        vstd::seq_lib::lemma_multiset_commutative(grown, last);
        assert(grown.to_multiset().add(last.to_multiset()) =~= shorter.to_multiset().add(
            last.to_multiset(),
        ).insert(entry));
    }
}

/// Every session has exactly one place on the strip: the groups put together
/// hold each entry as often as the list does.
pub proof fn law_grouping_keeps_every_session(entries: Seq<EntryView>)
    ensures
        flat(grouped(entries)).to_multiset() == entries.to_multiset(),
    decreases entries.len(),
{
    broadcast use vstd::seq_lib::group_to_multiset_ensures;

    if entries.len() == 0 {
        assert(directories(entries) =~= Seq::<Option<Seq<char>>>::empty());
        assert(flat(grouped(entries)) =~= entries);
    } else {
        let shorter = entries.drop_last();
        let entry = entries.last();
        let groups = grouped(shorter);
        law_grouping_keeps_every_session(shorter);
        assert(shorter.push(entry) =~= entries);
        if exists|g: int| 0 <= g < groups.len() && group_dir(#[trigger] groups[g]) == entry_dir(
            entry,
        ) {
            let at = choose|g: int|
                0 <= g < groups.len() && group_dir(#[trigger] groups[g]) == entry_dir(entry);
            lemma_grouped_joins(shorter, entry, at);
            lemma_flat_join(groups, at, entry);
        } else {
            lemma_grouped_opens(shorter, entry);
            assert(grouped(entries).drop_last() =~= groups);
            assert(flat(grouped(entries)) =~= flat(groups).push(entry));
        }
    }
}

/// The groups put together are as long as the list.
proof fn lemma_same_multiset_same_length(entries: Seq<EntryView>)
    ensures
        flat(grouped(entries)).len() == entries.len(),
{
    broadcast use vstd::seq_lib::group_to_multiset_ensures;

    law_grouping_keeps_every_session(entries);
    assert(flat(grouped(entries)).to_multiset().len() == flat(grouped(entries)).len());
    assert(entries.to_multiset().len() == entries.len());
}

/// Whether two working directories are the same.
fn same_directory(a: Option<&str>, b: Option<&str>) -> (same: bool)
    ensures
        same == (directory(text_of(a)) == directory(text_of(b))),
{
    match (a, b) {
        (Some(a), Some(b)) => same_text(
            trim_end_of(a, CharClass::Only('/')),
            trim_end_of(b, CharClass::Only('/')),
        ),
        (None, None) => true,
        _ => false,
    }
}

/// A borrow of an optional text.
fn as_text(text: &Option<String>) -> (borrowed: Option<&str>)
    ensures
        text_of(borrowed) == string_of(*text),
{
    match text {
        Some(text) => Some(text.as_str()),
        None => None,
    }
}

/// The position of the group in the directory `working_dir`, if there is one.
fn find_group(groups: &Vec<Group>, working_dir: Option<&str>) -> (found: Option<usize>)
    requires
        forall|g: int| 0 <= g < groups@.len() ==> (#[trigger] groups@[g]).entries@.len() > 0,
    ensures
        match found {
            Some(g) => g < groups@.len() && group_dir(groups@[g as int]@) == directory(
                text_of(working_dir),
            ),
            None => forall|g: int|
                0 <= g < groups@.len() ==> group_dir((#[trigger] groups@[g])@) != directory(
                    text_of(working_dir),
                ),
        },
{
    let mut g: usize = 0;
    while g < groups.len()
        invariant
            g <= groups.len(),
            forall|k: int| 0 <= k < groups@.len() ==> (#[trigger] groups@[k]).entries@.len() > 0,
            forall|k: int|
                0 <= k < g ==> group_dir((#[trigger] groups@[k])@) != directory(
                    text_of(working_dir),
                ),
        decreases groups.len() - g,
    {
        let first = &groups[g].entries[0];
        assert(groups@[g as int]@.entries[0] == first@);
        if same_directory(as_text(&first.working_dir), working_dir) {
            return Some(g);
        }
        g = g + 1;
    }
    None
}

impl Strip {
    /// Builds the strip from a session list, keeping focus on `focused` when it
    /// is still present. Grouping keeps the order of first appearance, so bars
    /// stay put from one refresh to the next.
    pub fn build(entries: Vec<Entry>, focused: Option<&str>) -> (strip: Self)
        ensures
            well_formed(strip@),
            strip@.groups == grouped(listed(entries@)),
            match focused {
                Some(id) => if has_session(strip@.groups, id@) {
                    first_at(strip@.groups, id@, strip@.group, strip@.index)
                } else {
                    strip@.group == 0 && strip@.index == 0
                },
                None => strip@.group == 0 && strip@.index == 0,
            },
            focus_is_kept(strip@, text_of(focused)),
    {
        let ghost views = listed(entries@);
        let mut groups: Vec<Group> = Vec::new();
        let mut i: usize = 0;
        proof {
            assert(views.take(0) =~= Seq::<EntryView>::empty());
            assert(directories(views.take(0)) =~= Seq::<Option<Seq<char>>>::empty());
            assert(grouping(groups@) =~= grouped(views.take(0)));
        }
        while i < entries.len()
            invariant
                i <= entries.len(),
                views == listed(entries@),
                grouping(groups@) == grouped(views.take(i as int)),
            decreases entries.len() - i,
        {
            let entry = entries[i].clone();
            let ghost seen = views.take(i as int);
            let ghost before = groups@;
            let ghost shown = entry@;
            assert(views.take(i + 1) =~= seen.push(shown));
            let label = label_for(as_text(&entry.working_dir));
            proof {
                lemma_label_of_directory(shown.working_dir);
                assert forall|g: int| 0 <= g < before.len() implies (
                #[trigger] before[g]).entries@.len() > 0 by {
                    lemma_group_dir(seen, g);
                    assert(grouping(before)[g] == before[g]@);
                }
            }
            match find_group(&groups, as_text(&entry.working_dir)) {
                Some(g) => {
                    let group = &mut groups[g];
                    group.entries.push(entry);
                    proof {
                        assert(grouping(before)[g as int] == before[g as int]@);
                        lemma_grouped_joins(seen, shown, g as int);
                        assert(listed(groups@[g as int].entries@) =~= listed(
                            before[g as int].entries@,
                        ).push(shown));
                        assert(grouping(groups@) =~= grouped(views.take(i + 1)));
                    }
                },
                None => {
                    let mut bars: Vec<Entry> = Vec::new();
                    bars.push(entry);
                    groups.push(Group { label, entries: bars });
                    proof {
                        assert forall|g: int| 0 <= g < grouped(seen).len() implies (
                        #[trigger] group_dir(grouped(seen)[g])) != entry_dir(shown) by {
                            assert(grouping(before)[g] == before[g]@);
                        }
                        lemma_grouped_opens(seen, shown);
                        assert(listed(bars@) =~= seq![shown]);
                        assert(groups@.last()@ == opened(shown));
                        assert(grouping(groups@) =~= grouped(views.take(i + 1)));
                    }
                },
            }
            i = i + 1;
        }
        assert(views.take(i as int) =~= views);
        proof {
            lemma_grouped_is_proper(views);
            law_grouping_keeps_every_session(views);
            lemma_same_multiset_same_length(views);
        }
        let mut strip = Strip { groups, group: 0, index: 0 };
        if let Some(id) = focused {
            strip.focus_session(id);
        }
        strip
    }

    /// Points focus at a session id, if the strip still has it.
    pub fn focus_session(&mut self, session_id: &str) -> (found: bool)
        requires
            well_formed(old(self)@),
        ensures
            well_formed(final(self)@),
            final(self)@.groups == old(self)@.groups,
            found == has_session(old(self)@.groups, session_id@),
            found ==> first_at(
                old(self)@.groups,
                session_id@,
                final(self)@.group,
                final(self)@.index,
            ),
            !found ==> final(self)@ == old(self)@,
    {
        let mut g: usize = 0;
        while g < self.groups.len()
            invariant
                *self == *old(self),
                well_formed(self@),
                g <= self.groups.len(),
                forall|h: int, i: int|
                    0 <= h < g && 0 <= i < self@.groups[h].entries.len() ==> (
                    #[trigger] self@.groups[h].entries[i]).session_id != session_id@,
            decreases self.groups.len() - g,
        {
            assert(self@.groups[g as int] == self.groups@[g as int]@);
            let bars = &self.groups[g].entries;
            let mut i: usize = 0;
            while i < bars.len()
                invariant
                    *self == *old(self),
                    well_formed(self@),
                    g < self.groups.len(),
                    *bars == self.groups@[g as int].entries,
                    self@.groups[g as int].entries == listed(bars@),
                    i <= bars.len(),
                    forall|h: int, k: int|
                        0 <= h < g && 0 <= k < self@.groups[h].entries.len() ==> (
                        #[trigger] self@.groups[h].entries[k]).session_id != session_id@,
                    forall|k: int|
                        0 <= k < i ==> (
                        #[trigger] self@.groups[g as int].entries[k]).session_id != session_id@,
                decreases bars.len() - i,
            {
                assert(self@.groups[g as int].entries[i as int] == bars@[i as int]@);
                if same_text(bars[i].session_id.as_str(), session_id) {
                    self.group = g;
                    self.index = i;
                    return true;
                }
                i = i + 1;
            }
            g = g + 1;
        }
        false
    }

    pub fn groups(&self) -> (groups: &[Group])
        ensures
            grouping(groups@) == self@.groups,
    {
        self.groups.as_slice()
    }

    /// Every session, flat, in strip order.
    pub fn entries(&self) -> (entries: Vec<Entry>)
        ensures
            listed(entries@) == flat(self@.groups),
    {
        let mut entries: Vec<Entry> = Vec::new();
        let mut g: usize = 0;
        assert(listed(entries@) =~= flat(self@.groups.take(0)));
        while g < self.groups.len()
            invariant
                g <= self.groups.len(),
                listed(entries@) == flat(self@.groups.take(g as int)),
            decreases self.groups.len() - g,
        {
            let bars = &self.groups[g].entries;
            let ghost before = entries@;
            let mut i: usize = 0;
            assert(listed(bars@).take(0) =~= Seq::<EntryView>::empty());
            while i < bars.len()
                invariant
                    i <= bars.len(),
                    listed(entries@) == listed(before) + listed(bars@).take(i as int),
                decreases bars.len() - i,
            {
                let ghost sofar = entries@;
                entries.push(bars[i].clone());
                assert(listed(entries@) =~= listed(sofar).push(bars@[i as int]@));
                assert(listed(bars@).take(i + 1) =~= listed(bars@).take(i as int).push(
                    bars@[i as int]@,
                ));
                assert(listed(entries@) =~= listed(before) + listed(bars@).take(i + 1));
                i = i + 1;
            }
            assert(listed(bars@).take(i as int) =~= listed(bars@));
            assert(self@.groups.take(g + 1).drop_last() =~= self@.groups.take(g as int));
            assert(self@.groups.take(g + 1).last().entries == listed(bars@));
            g = g + 1;
        }
        assert(self@.groups.take(g as int) =~= self@.groups);
        entries
    }

    pub fn group_index(&self) -> (group: usize)
        ensures
            group == self@.group,
    {
        self.group
    }

    pub fn index(&self) -> (index: usize)
        ensures
            index == self@.index,
    {
        self.index
    }

    /// Total sessions across all groups.
    pub fn len(&self) -> (len: usize)
        requires
            well_formed(self@),
        ensures
            len == flat(self@.groups).len(),
    {
        let mut len: usize = 0;
        let mut g: usize = 0;
        while g < self.groups.len()
            invariant
                g <= self.groups.len(),
                well_formed(self@),
                len == flat(self@.groups.take(g as int)).len(),
            decreases self.groups.len() - g,
        {
            proof {
                let more = self@.groups.take(g + 1);
                assert(more.drop_last() =~= self@.groups.take(g as int));
                assert(more.last().entries == listed(self.groups@[g as int].entries@));
                lemma_flat_grows(self@.groups, g + 1);
            }
            len = len + self.groups[g].entries.len();
            g = g + 1;
        }
        assert(self@.groups.take(g as int) =~= self@.groups);
        len
    }

    /// Whether there is no session.
    pub fn is_empty(&self) -> (empty: bool)
        requires
            well_formed(self@),
        ensures
            empty == (flat(self@.groups).len() == 0),
    {
        self.len() == 0
    }

    /// The focused group, if any.
    pub fn focused_group(&self) -> (group: Option<&Group>)
        ensures
            match group {
                Some(group) => 0 <= self@.group < self@.groups.len() && group@
                    == self@.groups[self@.group],
                None => self@.group >= self@.groups.len(),
            },
    {
        if self.group < self.groups.len() {
            Some(&self.groups[self.group])
        } else {
            None
        }
    }

    fn focused(&self) -> (entry: Option<&Entry>)
        ensures
            match entry {
                Some(entry) => focused_entry(self@) == Some(entry@),
                None => focused_entry(self@) is None,
            },
    {
        match self.focused_group() {
            Some(group) => if self.index < group.entries.len() {
                Some(&group.entries[self.index])
            } else {
                None
            },
            None => None,
        }
    }

    /// The focused session's id, if any.
    pub fn focused_session(&self) -> (id: Option<&str>)
        ensures
            text_of(id) == match focused_entry(self@) {
                Some(entry) => Some(entry.session_id),
                None => None,
            },
    {
        match self.focused() {
            Some(entry) => Some(entry.session_id.as_str()),
            None => None,
        }
    }

    /// The focused session's working directory, if the strip knows one.
    pub fn focused_working_dir(&self) -> (dir: Option<&str>)
        ensures
            text_of(dir) == match focused_entry(self@) {
                Some(entry) => entry.working_dir,
                None => None,
            },
    {
        match self.focused() {
            Some(entry) => as_text(&entry.working_dir),
            None => None,
        }
    }

    /// Moves focus one bar left, wrapping within the group. Wrapping rather than
    /// stopping because hitting an invisible wall reads as the key being broken.
    pub fn focus_left(&mut self) -> (moved: bool)
        requires
            well_formed(old(self)@),
        ensures
            well_formed(final(self)@),
            final(self)@ == stepped_within(old(self)@, -1),
            bars_beside(old(self)@) > 1 ==> final(self)@.index == if old(self)@.index > 0 {
                old(self)@.index - 1
            } else {
                bars_beside(old(self)@) - 1
            },
            moved == (bars_beside(old(self)@) > 1),
    {
        let len = self.bars_in_group();
        if len <= 1 {
            return false;
        }
        proof {
            lemma_wrap(self.index as int, -1, len as int);
        }
        if self.index == 0 {
            self.index = len - 1;
        } else {
            self.index = self.index - 1;
        }
        true
    }

    /// Moves focus one bar right, wrapping within the group.
    pub fn focus_right(&mut self) -> (moved: bool)
        requires
            well_formed(old(self)@),
        ensures
            well_formed(final(self)@),
            final(self)@ == stepped_within(old(self)@, 1),
            bars_beside(old(self)@) > 1 ==> final(self)@.index == if old(self)@.index + 1
                < bars_beside(old(self)@) {
                old(self)@.index + 1
            } else {
                0
            },
            moved == (bars_beside(old(self)@) > 1),
    {
        let len = self.bars_in_group();
        if len <= 1 {
            return false;
        }
        proof {
            lemma_wrap(self.index as int, 1, len as int);
        }
        if self.index == len - 1 {
            self.index = 0;
        } else {
            self.index = self.index + 1;
        }
        true
    }

    fn bars_in_group(&self) -> (len: usize)
        ensures
            len == bars_beside(self@),
    {
        match self.focused_group() {
            Some(group) => group.entries.len(),
            None => 0,
        }
    }

    /// Moves focus to the previous group, keeping the bar position where it still
    /// exists.
    pub fn focus_up(&mut self) -> (moved: bool)
        requires
            well_formed(old(self)@),
        ensures
            well_formed(final(self)@),
            final(self)@ == stepped_between(old(self)@, -1),
            old(self)@.groups.len() > 1 ==> final(self)@.group == if old(self)@.group > 0 {
                old(self)@.group - 1
            } else {
                old(self)@.groups.len() - 1
            },
            moved == (old(self)@.groups.len() > 1),
    {
        let len = self.groups.len();
        if len <= 1 {
            return false;
        }
        proof {
            lemma_wrap(self.group as int, -1, len as int);
        }
        let next: usize = if self.group == 0 {
            len - 1
        } else {
            self.group - 1
        };
        self.enter_group(next);
        true
    }

    /// Moves focus to the next group.
    pub fn focus_down(&mut self) -> (moved: bool)
        requires
            well_formed(old(self)@),
        ensures
            well_formed(final(self)@),
            final(self)@ == stepped_between(old(self)@, 1),
            old(self)@.groups.len() > 1 ==> final(self)@.group == if old(self)@.group + 1
                < old(self)@.groups.len() {
                old(self)@.group + 1
            } else {
                0
            },
            moved == (old(self)@.groups.len() > 1),
    {
        let len = self.groups.len();
        if len <= 1 {
            return false;
        }
        proof {
            lemma_wrap(self.group as int, 1, len as int);
        }
        let next: usize = if self.group == len - 1 {
            0
        } else {
            self.group + 1
        };
        self.enter_group(next);
        true
    }

    /// Moves focus to a group, at the bar position or at the last bar.
    fn enter_group(&mut self, next: usize)
        requires
            well_formed(old(self)@),
            next < old(self)@.groups.len(),
        ensures
            well_formed(final(self)@),
            final(self)@.groups == old(self)@.groups,
            final(self)@.group == next,
            final(self)@.index == if old(self)@.index < old(self)@.groups[next as int].entries.len() {
                old(self)@.index
            } else {
                old(self)@.groups[next as int].entries.len() - 1
            },
    {
        let len = self.groups[next].entries.len();
        assert(self@.groups[next as int] == self.groups@[next as int]@);
        assert(self@.groups[next as int].entries.len() == len);
        self.group = next;
        if self.index >= len {
            self.index = len - 1;
        }
    }
}

impl Clone for Group {
    fn clone(&self) -> (same: Self)
        ensures
            same@ == self@,
    {
        let mut entries: Vec<Entry> = Vec::new();
        let mut i: usize = 0;
        while i < self.entries.len()
            invariant
                i <= self.entries.len(),
                entries@ == self.entries@.take(i as int),
            decreases self.entries.len() - i,
        {
            entries.push(self.entries[i].clone());
            assert(entries@ =~= self.entries@.take(i + 1));
            i = i + 1;
        }
        assert(self.entries@.take(i as int) =~= self.entries@);
        Group { label: self.label.clone(), entries }
    }
}

impl Clone for Strip {
    fn clone(&self) -> (same: Self)
        ensures
            same@ == self@,
    {
        let mut groups: Vec<Group> = Vec::new();
        let mut g: usize = 0;
        while g < self.groups.len()
            invariant
                g <= self.groups.len(),
                grouping(groups@) == grouping(self.groups@).take(g as int),
            decreases self.groups.len() - g,
        {
            let ghost before = groups@;
            groups.push(self.groups[g].clone());
            assert(grouping(groups@) =~= grouping(before).push(self.groups@[g as int]@));
            assert(grouping(groups@) =~= grouping(self.groups@).take(g + 1));
            g = g + 1;
        }
        assert(grouping(self.groups@).take(g as int) =~= grouping(self.groups@));
        Strip { groups, group: self.group, index: self.index }
    }
}

/// The first groups hold no more entries than all of them.
proof fn lemma_flat_grows(groups: Seq<GroupView>, upto: int)
    requires
        0 <= upto <= groups.len(),
    ensures
        flat(groups.take(upto)).len() <= flat(groups).len(),
    decreases groups.len(),
{
    if upto == groups.len() {
        assert(groups.take(upto) =~= groups);
    } else {
        lemma_flat_grows(groups.drop_last(), upto);
        assert(groups.drop_last().take(upto) =~= groups.take(upto));
    }
}

/// One step around a ring of `len` places.
proof fn lemma_wrap(at: int, delta: int, len: int)
    requires
        0 <= at < len,
        delta == 1 || delta == -1,
    ensures
        (at + delta) % len == if at + delta == len {
            0
        } else if at + delta < 0 {
            len - 1
        } else {
            at + delta
        },
{
    if at + delta == len {
        assert((at + delta) % len == 0) by (nonlinear_arith)
            requires
                at + delta == len,
                len > 0,
        ;
    } else if at + delta < 0 {
        assert((at + delta) % len == len - 1) by (nonlinear_arith)
            requires
                at + delta == -1,
                len > 0,
        ;
    } else {
        assert((at + delta) % len == at + delta) by (nonlinear_arith)
            requires
                0 <= at + delta < len,
        ;
    }
}

/// Two sessions are in one group if and only if they share their working
/// directory, and each is under the label of its own.
pub proof fn law_a_group_is_a_directory(strip: StripView, g: int, i: int, h: int, j: int)
    requires
        well_formed(strip),
        0 <= g < strip.groups.len(),
        0 <= i < strip.groups[g].entries.len(),
        0 <= h < strip.groups.len(),
        0 <= j < strip.groups[h].entries.len(),
    ensures
        g == h <==> directory(strip.groups[g].entries[i].working_dir) == directory(
            strip.groups[h].entries[j].working_dir,
        ),
        strip.groups[g].label == label_of(strip.groups[g].entries[i].working_dir),
{
    let one = strip.groups[g].entries[i];
    let other = strip.groups[h].entries[j];
    assert(entry_dir(one) == group_dir(strip.groups[g]));
    assert(entry_dir(other) == group_dir(strip.groups[h]));
    lemma_label_of_directory(one.working_dir);
}

/// One more session moves no bar: every group keeps its place and label and
/// every bar its place in its group. A new bar comes last in its group, a new
/// group last on the strip.
pub proof fn law_one_more_session_moves_no_bar(entries: Seq<EntryView>, entry: EntryView)
    ensures
        grouped(entries).len() <= grouped(entries.push(entry)).len() <= grouped(entries).len() + 1,
        forall|g: int|
            0 <= g < grouped(entries).len() ==> {
                &&& (#[trigger] grouped(entries)[g]).label == grouped(entries.push(entry))[g].label
                &&& grouped(entries)[g].entries.is_prefix_of(
                    grouped(entries.push(entry))[g].entries,
                )
            },
{
    let groups = grouped(entries);
    if exists|g: int| 0 <= g < groups.len() && group_dir(#[trigger] groups[g]) == entry_dir(entry) {
        let at = choose|g: int|
            0 <= g < groups.len() && group_dir(#[trigger] groups[g]) == entry_dir(entry);
        lemma_grouped_joins(entries, entry, at);
        let longer = groups[at].entries.push(entry);
        assert(groups[at].entries =~= longer.subrange(0, groups[at].entries.len() as int));
        assert forall|g: int| 0 <= g < groups.len() implies (#[trigger] groups[g]).label == grouped(
            entries.push(entry),
        )[g].label && groups[g].entries.is_prefix_of(grouped(entries.push(entry))[g].entries) by {
            if g != at {
                assert(groups[g].entries =~= groups[g].entries.subrange(
                    0,
                    groups[g].entries.len() as int,
                ));
            }
        }
    } else {
        lemma_grouped_opens(entries, entry);
        assert forall|g: int| 0 <= g < groups.len() implies (#[trigger] groups[g]).label == grouped(
            entries.push(entry),
        )[g].label && groups[g].entries.is_prefix_of(grouped(entries.push(entry))[g].entries) by {
            assert(groups[g].entries =~= groups[g].entries.subrange(
                0,
                groups[g].entries.len() as int,
            ));
        }
    }
}

/// Building a strip from the sessions of a strip, in strip order, gives the same
/// groups again.
pub proof fn law_rebuilding_gives_the_same_groups(groups: Seq<GroupView>)
    requires
        proper(groups),
    ensures
        grouped(flat(groups)) == groups,
    decreases groups.len(),
{
    if groups.len() == 0 {
        assert(directories(flat(groups)) =~= Seq::<Option<Seq<char>>>::empty());
        assert(grouped(flat(groups)) =~= groups);
    } else {
        let shorter = groups.drop_last();
        let last = groups.last();
        let dir = group_dir(last);
        lemma_proper_prefix(groups);
        law_rebuilding_gives_the_same_groups(shorter);
        assert forall|g: int| 0 <= g < shorter.len() implies group_dir(#[trigger] shorter[g])
            != dir by {
            assert(group_dir(groups[g]) != group_dir(groups[groups.len() - 1]));
        }
        assert forall|i: int| 0 <= i < last.entries.len() implies entry_dir(
            #[trigger] last.entries[i],
        ) == dir by {
            assert(entry_dir(groups[groups.len() - 1].entries[i]) == dir);
        }
        assert(groups[groups.len() - 1].entries.len() > 0);
        assert(groups[groups.len() - 1].label == label_of(dir));
        lemma_grouping_a_run(flat(shorter), dir, last.entries);
        assert(last == run_group(dir, last.entries));
        assert(shorter.push(last) =~= groups);
    }
}

proof fn lemma_proper_prefix(groups: Seq<GroupView>)
    requires
        proper(groups),
        groups.len() > 0,
    ensures
        proper(groups.drop_last()),
{
    let shorter = groups.drop_last();
    assert forall|g: int, h: int| 0 <= g < h < shorter.len() implies group_dir(
        #[trigger] shorter[g],
    ) != group_dir(#[trigger] shorter[h]) by {
        assert(group_dir(groups[g]) != group_dir(groups[h]));
    }
    assert forall|g: int| 0 <= g < shorter.len() implies (#[trigger] shorter[g]).entries.len() > 0
        && shorter[g].label == label_of(group_dir(shorter[g])) by {
        assert(groups[g].entries.len() > 0);
    }
    assert forall|g: int, i: int|
        0 <= g < shorter.len() && 0 <= i < shorter[g].entries.len() implies entry_dir(
        #[trigger] shorter[g].entries[i],
    ) == group_dir(shorter[g]) by {
        assert(entry_dir(groups[g].entries[i]) == group_dir(groups[g]));
    }
}

/// The group of a run of entries in one directory.
spec fn run_group(dir: Option<Seq<char>>, run: Seq<EntryView>) -> GroupView {
    GroupView { label: label_of(dir), entries: run }
}

/// A run of entries in one directory that was not there before becomes one group
/// at the end.
proof fn lemma_grouping_a_run(
    entries: Seq<EntryView>,
    dir: Option<Seq<char>>,
    run: Seq<EntryView>,
)
    requires
        run.len() > 0,
        forall|i: int| 0 <= i < run.len() ==> entry_dir(#[trigger] run[i]) == dir,
        forall|g: int|
            0 <= g < grouped(entries).len() ==> group_dir(#[trigger] grouped(entries)[g]) != dir,
    ensures
        grouped(entries + run) == grouped(entries).push(run_group(dir, run)),
    decreases run.len(),
{
    let entry = run.last();
    assert(entry_dir(run[run.len() - 1]) == dir);
    if run.len() == 1 {
        assert(entries + run =~= entries.push(entry));
        lemma_grouped_opens(entries, entry);
        assert(run =~= seq![entry]);
    } else {
        let shorter = run.drop_last();
        assert forall|i: int| 0 <= i < shorter.len() implies entry_dir(#[trigger] shorter[i])
            == dir by {
            assert(shorter[i] == run[i]);
        }
        lemma_grouping_a_run(entries, dir, shorter);
        assert(entry_dir(shorter[0]) == dir);
        lemma_run_grows(entries, dir, shorter, entry);
        assert(shorter.push(entry) =~= run);
    }
}

/// One more entry at the end of a run joins the group that the run became.
proof fn lemma_run_grows(
    entries: Seq<EntryView>,
    dir: Option<Seq<char>>,
    run: Seq<EntryView>,
    entry: EntryView,
)
    requires
        grouped(entries + run) == grouped(entries).push(run_group(dir, run)),
        run.len() > 0,
        entry_dir(run[0]) == dir,
        entry_dir(entry) == dir,
    ensures
        grouped(entries + run.push(entry)) == grouped(entries).push(
            run_group(dir, run.push(entry)),
        ),
{
    let sofar = entries + run;
    let at = grouped(entries).len() as int;
    assert(entries + run.push(entry) =~= sofar.push(entry));
    assert(grouped(sofar)[at] == run_group(dir, run));
    lemma_grouped_joins(sofar, entry, at);
    lemma_replace_last(grouped(entries), run_group(dir, run), run_group(dir, run.push(entry)));
}

proof fn lemma_replace_last(groups: Seq<GroupView>, last: GroupView, other: GroupView)
    ensures
        groups.push(last).update(groups.len() as int, other) == groups.push(other),
{
    assert(groups.push(last).update(groups.len() as int, other) =~= groups.push(other));
}

/// Focus is on a session whenever there is one.
pub proof fn law_focus_is_on_a_session(strip: StripView)
    requires
        well_formed(strip),
    ensures
        focused_entry(strip) is Some <==> flat(strip.groups).len() > 0,
{
    if strip.groups.len() > 0 {
        let last = strip.groups[strip.groups.len() - 1];
        assert(last.entries.len() > 0);
    }
}

/// Whatever is among the entries of the groups stands in one of them.
proof fn lemma_flat_comes_from(groups: Seq<GroupView>, entry: EntryView)
    requires
        flat(groups).contains(entry),
    ensures
        has_session(groups, entry.session_id),
    decreases groups.len(),
{
    if groups.len() > 0 {
        let shorter = groups.drop_last();
        let last = groups.last();
        let k = choose|k: int| 0 <= k < flat(groups).len() && flat(groups)[k] == entry;
        if k < flat(shorter).len() {
            assert(flat(shorter)[k] == entry);
            lemma_flat_comes_from(shorter, entry);
            let (g, i) = choose|g: int, i: int|
                0 <= g < shorter.len() && 0 <= i < shorter[g].entries.len() && (
                #[trigger] shorter[g].entries[i]).session_id == entry.session_id;
            assert(groups[g].entries[i].session_id == entry.session_id);
        } else {
            let i = k - flat(shorter).len();
            assert(groups[groups.len() - 1].entries[i] == entry);
        }
    }
}

/// A refresh keeps focus on the session it was on, as long as that session is
/// in the list: the strip has it, and a strip focused on where it stands first
/// is focused on it.
pub proof fn law_refresh_keeps_focus(entries: Seq<EntryView>, at: int, strip: StripView)
    requires
        0 <= at < entries.len(),
        strip.groups == grouped(entries),
        first_at(strip.groups, entries[at].session_id, strip.group, strip.index),
    ensures
        has_session(grouped(entries), entries[at].session_id),
        focused_entry(strip) matches Some(entry) && entry.session_id == entries[at].session_id,
{
    law_listed_session_is_on_the_strip(entries, at);
}

/// A session stands first in one place only.
pub proof fn law_first_place_is_one_place(
    groups: Seq<GroupView>,
    id: Seq<char>,
    group: int,
    index: int,
    other_group: int,
    other_index: int,
)
    requires
        first_at(groups, id, group, index),
        first_at(groups, id, other_group, other_index),
    ensures
        group == other_group,
        index == other_index,
{
    assert(groups[group].entries[index].session_id == id);
    assert(groups[other_group].entries[other_index].session_id == id);
}

/// Every listed session is on the strip.
pub proof fn law_listed_session_is_on_the_strip(entries: Seq<EntryView>, at: int)
    requires
        0 <= at < entries.len(),
    ensures
        has_session(grouped(entries), entries[at].session_id),
{
    broadcast use vstd::seq_lib::group_to_multiset_ensures;

    law_grouping_keeps_every_session(entries);
    assert(entries.contains(entries[at]));
    assert(entries.to_multiset().count(entries[at]) > 0);
    assert(flat(grouped(entries)).to_multiset().count(entries[at]) > 0);
    assert(flat(grouped(entries)).contains(entries[at]));
    lemma_flat_comes_from(grouped(entries), entries[at]);
}

/// A step to one side is undone by a step to the other, and neither leaves the
/// group.
pub proof fn law_left_and_right_undo_each_other(strip: StripView)
    requires
        well_formed(strip),
    ensures
        stepped_within(stepped_within(strip, 1), -1) == strip,
        stepped_within(stepped_within(strip, -1), 1) == strip,
        stepped_within(strip, 1).group == strip.group,
        stepped_within(strip, -1).group == strip.group,
        well_formed(stepped_within(strip, 1)),
        well_formed(stepped_within(strip, -1)),
{
    let len = bars_beside(strip);
    if len > 1 {
        lemma_wrap(strip.index, 1, len);
        lemma_wrap(strip.index, -1, len);
        lemma_wrap(stepped_within(strip, 1).index, -1, len);
        lemma_wrap(stepped_within(strip, -1).index, 1, len);
    }
}

/// The strip after `steps` steps to the right.
pub open spec fn walked_right(strip: StripView, steps: nat) -> StripView
    decreases steps,
{
    if steps == 0 {
        strip
    } else {
        stepped_within(walked_right(strip, (steps - 1) as nat), 1)
    }
}

/// As many steps to the right as the group has bars lead back to the start.
pub proof fn law_a_walk_around_the_group_ends_where_it_began(strip: StripView)
    requires
        well_formed(strip),
        strip.groups.len() > 0,
    ensures
        walked_right(strip, bars_beside(strip) as nat) == strip,
{
    let len = bars_beside(strip);
    if len > 1 {
        lemma_walk(strip, len as nat);
        assert((strip.index + len) % len == strip.index) by (nonlinear_arith)
            requires
                0 <= strip.index < len,
        ;
    } else {
        assert(walked_right(strip, 0) == strip);
        assert(walked_right(strip, 1) == stepped_within(walked_right(strip, 0), 1));
    }
}

proof fn lemma_walk(strip: StripView, steps: nat)
    requires
        well_formed(strip),
        bars_beside(strip) > 1,
    ensures
        walked_right(strip, steps) == (StripView {
            index: (strip.index + steps) % bars_beside(strip),
            ..strip
        }),
    decreases steps,
{
    let len = bars_beside(strip);
    if steps == 0 {
        assert(strip.index % len == strip.index) by (nonlinear_arith)
            requires
                0 <= strip.index < len,
        ;
    } else {
        lemma_walk(strip, (steps - 1) as nat);
        let before = strip.index + steps - 1;
        vstd::arithmetic::div_mod::lemma_add_mod_noop(before, 1, len);
        assert(1int % len == 1) by (nonlinear_arith)
            requires
                len > 1,
        ;
    }
}

/// A step to a neighbouring group and back ends in the group it began in, at the
/// same bar where the neighbour has one at that position, and no further right
/// otherwise.
pub proof fn law_up_and_down_return_to_the_group(strip: StripView, delta: int)
    requires
        well_formed(strip),
        delta == 1 || delta == -1,
    ensures
        ({
            let there = stepped_between(strip, delta);
            let back = stepped_between(there, -delta);
            &&& well_formed(there)
            &&& well_formed(back)
            &&& back.group == strip.group
            &&& back.index <= strip.index
            &&& there.index == strip.index ==> back == strip
        }),
{
    let len = strip.groups.len() as int;
    if len > 1 {
        lemma_wrap(strip.group, delta, len);
        let there = stepped_between(strip, delta);
        assert(strip.groups[there.group].entries.len() > 0);
        lemma_wrap(there.group, -delta, len);
    }
}

/// A key that reports no move leaves the strip as it is, and one that reports a
/// move changes where focus is.
pub proof fn law_keys_report_whether_focus_moved(strip: StripView, delta: int)
    requires
        well_formed(strip),
        delta == 1 || delta == -1,
    ensures
        bars_beside(strip) > 1 <==> stepped_within(strip, delta) != strip,
        strip.groups.len() > 1 <==> stepped_between(strip, delta) != strip,
{
    if bars_beside(strip) > 1 {
        lemma_wrap(strip.index, delta, bars_beside(strip));
    }
    if strip.groups.len() > 1 {
        lemma_wrap(strip.group, delta, strip.groups.len() as int);
    }
}

/// Down leads to the next group and up to the previous one, around the ends: from
/// group `g` of `n` down leads to `g + 1`, and from the last to the first; up
/// leads to `g - 1`, and from the first to the last. The bar position stays, or
/// becomes the last one where the group is shorter. A strip of one group stays.
pub proof fn law_down_is_the_next_group_and_up_the_previous(strip: StripView)
    requires
        well_formed(strip),
    ensures
        ({
            let n = strip.groups.len() as int;
            let g = strip.group;
            let down = stepped_between(strip, 1);
            let up = stepped_between(strip, -1);
            &&& down.groups == strip.groups && up.groups == strip.groups
            &&& n <= 1 ==> down == strip && up == strip
            &&& n > 1 && g + 1 < n ==> down.group == g + 1
            &&& n > 1 && g + 1 == n ==> down.group == 0
            &&& n > 1 && g > 0 ==> up.group == g - 1
            &&& n > 1 && g == 0 ==> up.group == n - 1
            &&& n > 1 && strip.index < strip.groups[down.group].entries.len() ==> down.index
                == strip.index
            &&& n > 1 && strip.index >= strip.groups[down.group].entries.len() ==> down.index
                == strip.groups[down.group].entries.len() - 1
            &&& n > 1 && strip.index < strip.groups[up.group].entries.len() ==> up.index
                == strip.index
            &&& n > 1 && strip.index >= strip.groups[up.group].entries.len() ==> up.index
                == strip.groups[up.group].entries.len() - 1
        }),
{
    if strip.groups.len() > 1 {
        lemma_wrap(strip.group, 1, strip.groups.len() as int);
        lemma_wrap(strip.group, -1, strip.groups.len() as int);
    }
}

/// Right leads to the next bar of the group and left to the previous one, around
/// the ends: from bar `i` of `n` right leads to `i + 1`, and from the last to the
/// first; left leads to `i - 1`, and from the first to the last.
pub proof fn law_right_is_the_next_bar_and_left_the_previous(strip: StripView)
    requires
        well_formed(strip),
    ensures
        ({
            let right = stepped_within(strip, 1);
            let left = stepped_within(strip, -1);
            let i = strip.index;
            &&& right.groups == strip.groups && left.groups == strip.groups
            &&& right.group == strip.group && left.group == strip.group
            &&& strip.groups.len() == 0 ==> right == strip && left == strip
            &&& strip.groups.len() > 0 ==> {
                let n = strip.groups[strip.group].entries.len() as int;
                &&& n == 1 ==> right.index == i && left.index == i
                &&& i + 1 < n ==> right.index == i + 1
                &&& n > 1 && i + 1 == n ==> right.index == 0
                &&& n > 1 && i > 0 ==> left.index == i - 1
                &&& n > 1 && i == 0 ==> left.index == n - 1
            }
        }),
{
    if strip.groups.len() > 0 && strip.groups[strip.group].entries.len() > 1 {
        lemma_wrap(strip.index, 1, strip.groups[strip.group].entries.len() as int);
        lemma_wrap(strip.index, -1, strip.groups[strip.group].entries.len() as int);
    }
}

/// A directory is labelled by the last name in its path, whatever stands before
/// that name and however many slashes behind it; a path of nothing but slashes by
/// one slash, and none by a hyphen.
pub proof fn law_the_label_is_the_last_name(
    parent: Seq<char>,
    name: Seq<char>,
    slashes: Seq<char>,
)
    requires
        forall|i: int| 0 <= i < slashes.len() ==> #[trigger] slashes[i] == '/',
        !name.contains('/'),
        parent.len() > 0 ==> parent.last() == '/',
    ensures
        name.len() > 0 ==> label_of(Some(parent + name + slashes)) == name,
        label_of(Some(slashes)) == "/"@,
        label_of(None) == "-"@,
{
    lemma_trailing_slashes(Seq::empty(), slashes);
    assert(Seq::<char>::empty() + slashes =~= slashes);
    if name.len() > 0 {
        let path = parent + name;
        assert(path.last() == name.last());
        assert(name.contains(name.last()));
        lemma_trailing_slashes(path, slashes);
        assert(path + slashes =~= parent + name + slashes);
        lemma_leaf_is(parent, name);
    }
}

/// Slashes at the end of a path that does not end in one are all taken off.
proof fn lemma_trailing_slashes(path: Seq<char>, slashes: Seq<char>)
    requires
        forall|i: int| 0 <= i < slashes.len() ==> #[trigger] slashes[i] == '/',
        path.len() > 0 ==> path.last() != '/',
    ensures
        without_suffix(path + slashes, CharClass::Only('/')) == path,
    decreases slashes.len(),
{
    let all = path + slashes;
    if slashes.len() > 0 {
        assert(all.last() == slashes[slashes.len() - 1]);
        assert(all.drop_last() =~= path + slashes.drop_last());
        assert forall|i: int| 0 <= i < slashes.drop_last().len() implies #[trigger] slashes
            .drop_last()[i] == '/' by {
            assert(slashes.drop_last()[i] == slashes[i]);
        }
        lemma_trailing_slashes(path, slashes.drop_last());
    } else {
        assert(all =~= path);
    }
}

proof fn lemma_leaf_is(parent: Seq<char>, name: Seq<char>)
    requires
        !name.contains('/'),
        parent.len() > 0 ==> parent.last() == '/',
    ensures
        leaf(parent + name) == name,
    decreases name.len(),
{
    let path = parent + name;
    if name.len() == 0 {
        assert(path =~= parent);
        assert(leaf(path) =~= name);
    } else {
        assert(path.last() == name.last());
        assert(name.contains(name.last()));
        assert(path.drop_last() =~= parent + name.drop_last());
        assert(!name.drop_last().contains('/')) by {
            if name.drop_last().contains('/') {
                let k = choose|k: int|
                    0 <= k < name.drop_last().len() && name.drop_last()[k] == '/';
                assert(name[k] == '/');
            }
        }
        lemma_leaf_is(parent, name.drop_last());
        assert(name.drop_last().push(name.last()) =~= name);
    }
}

/// Two directories are the same if and only if they differ in nothing but the
/// slashes at their ends, and none is the same as a missing one.
pub proof fn law_directories_are_the_same_but_for_slashes(
    a: Seq<char>,
    b: Seq<char>,
    slashes: Seq<char>,
    more: Seq<char>,
)
    requires
        forall|i: int| 0 <= i < slashes.len() ==> #[trigger] slashes[i] == '/',
        forall|i: int| 0 <= i < more.len() ==> #[trigger] more[i] == '/',
        a.len() > 0 ==> a.last() != '/',
        b.len() > 0 ==> b.last() != '/',
    ensures
        directory(Some(a + slashes)) == directory(Some(b + more)) <==> a == b,
        directory(Some(a)) != directory(None),
        directory(None) == directory(None),
{
    lemma_trailing_slashes(a, slashes);
    lemma_trailing_slashes(b, more);
}

/// Where one more session goes: to the end of the group whose sessions are in its
/// directory, and where there is none, into a group of its own at the end of the
/// strip, under its label. Nothing else changes, and a strip starts out empty.
pub proof fn law_a_session_joins_its_directory(entries: Seq<EntryView>, entry: EntryView, g: int)
    ensures
        grouped(Seq::empty()) == Seq::<GroupView>::empty(),
        0 <= g < grouped(entries).len() && directory(grouped(entries)[g].entries[0].working_dir)
            == directory(entry.working_dir) ==> grouped(entries.push(entry)) == grouped(
            entries,
        ).update(
            g,
            GroupView {
                label: grouped(entries)[g].label,
                entries: grouped(entries)[g].entries.push(entry),
            },
        ),
        (forall|h: int|
            0 <= h < grouped(entries).len() ==> directory(
                (#[trigger] grouped(entries)[h]).entries[0].working_dir,
            ) != directory(entry.working_dir)) ==> grouped(entries.push(entry)) == grouped(
            entries,
        ).push(GroupView { label: label_of(entry.working_dir), entries: seq![entry] }),
{
    assert(directories(Seq::empty()) =~= Seq::<Option<Seq<char>>>::empty());
    assert(grouped(Seq::empty()) =~= Seq::<GroupView>::empty());
    lemma_label_of_directory(entry.working_dir);
    if 0 <= g < grouped(entries).len() && directory(grouped(entries)[g].entries[0].working_dir)
        == directory(entry.working_dir) {
        lemma_grouped_joins(entries, entry, g);
    }
    if forall|h: int|
        0 <= h < grouped(entries).len() ==> directory(
            (#[trigger] grouped(entries)[h]).entries[0].working_dir,
        ) != directory(entry.working_dir) {
        assert forall|h: int| 0 <= h < grouped(entries).len() implies group_dir(
            #[trigger] grouped(entries)[h],
        ) != entry_dir(entry) by {}
        lemma_grouped_opens(entries, entry);
    }
}

/// All sessions are listed group by group, each group's in order.
pub proof fn law_sessions_are_listed_group_by_group(a: Seq<GroupView>, b: Seq<GroupView>)
    ensures
        flat(Seq::empty()) == Seq::<EntryView>::empty(),
        a.len() == 1 ==> flat(a) == a[0].entries,
        flat(a + b) == flat(a) + flat(b),
    decreases b.len(),
{
    if a.len() == 1 {
        assert(flat(a.drop_last()) =~= Seq::<EntryView>::empty());
        assert(flat(a) =~= a[0].entries);
    }
    if b.len() == 0 {
        assert(a + b =~= a);
        assert(flat(a) + flat(b) =~= flat(a));
    } else {
        law_sessions_are_listed_group_by_group(a, b.drop_last());
        assert((a + b).drop_last() =~= a + b.drop_last());
        assert(flat(a + b) =~= flat(a) + flat(b));
    }
}

/// The first place of an id holds a session of that id, and no place before it
/// does, neither in an earlier group nor at an earlier bar of its own; and an id
/// that any session has is on the strip.
pub proof fn law_the_first_place_is_the_first(
    groups: Seq<GroupView>,
    id: Seq<char>,
    group: int,
    index: int,
    g: int,
    i: int,
)
    requires
        0 <= g < groups.len(),
        0 <= i < groups[g].entries.len(),
    ensures
        first_at(groups, id, group, index) ==> 0 <= group < groups.len() && 0 <= index
            < groups[group].entries.len() && groups[group].entries[index].session_id == id,
        first_at(groups, id, group, index) && groups[g].entries[i].session_id == id ==> group < g
            || (group == g && index <= i),
        groups[g].entries[i].session_id == id ==> has_session(groups, id),
        has_session(groups, id) ==> flat(groups).len() > 0,
{
    if has_session(groups, id) {
        let (h, k) = choose|h: int, k: int|
            0 <= h < groups.len() && 0 <= k < groups[h].entries.len() && (
            #[trigger] groups[h].entries[k]).session_id == id;
        lemma_flat_grows(groups, h + 1);
        assert(groups.take(h + 1).last() == groups[h]);
    }
}

/// Focus is on the session at the focused bar of the focused group.
pub proof fn law_the_focused_session_is_at_the_focused_bar(strip: StripView)
    requires
        well_formed(strip),
    ensures
        strip.groups.len() > 0 ==> focused_entry(strip) == Some(
            strip.groups[strip.group].entries[strip.index],
        ),
        strip.groups.len() == 0 ==> focused_entry(strip) is None,
        strip.groups.len() > 0 ==> bars_beside(strip)
            == strip.groups[strip.group].entries.len(),
        strip.groups.len() == 0 ==> bars_beside(strip) == 0,
{
}

/// The views of entries and groups say what they hold, one by one.
pub proof fn law_views_say_what_the_strip_holds(
    entry: Entry,
    group: Group,
    entries: Seq<Entry>,
    groups: Seq<Group>,
    i: int,
)
    ensures
        entry@.session_id == entry.session_id@,
        entry@.working_dir == string_of(entry.working_dir),
        entry@.busy == entry.busy,
        entry@.weight == entry.weight,
        group@.label == group.label@,
        group@.entries == listed(group.entries@),
        listed(entries).len() == entries.len(),
        0 <= i < entries.len() ==> listed(entries)[i] == entries[i]@,
        grouping(groups).len() == groups.len(),
        0 <= i < groups.len() ==> grouping(groups)[i] == groups[i]@,
{
}

/// A rebuilt strip is focused on a session with the id asked for wherever any
/// session has it, and on the first bar of the first group otherwise.
pub proof fn law_a_rebuilt_strip_keeps_its_focus(
    strip: StripView,
    id: Seq<char>,
    g: int,
    i: int,
)
    requires
        0 <= g < strip.groups.len(),
        0 <= i < strip.groups[g].entries.len(),
    ensures
        focus_is_kept(strip, Some(id)) && strip.groups[g].entries[i].session_id == id ==> 0
            <= strip.group < strip.groups.len() && 0 <= strip.index
            < strip.groups[strip.group].entries.len()
            && strip.groups[strip.group].entries[strip.index].session_id == id && (strip.group < g
            || (strip.group == g && strip.index <= i)),
        focus_is_kept(strip, Some(id)) && (forall|h: int, k: int|
            0 <= h < strip.groups.len() && 0 <= k < strip.groups[h].entries.len() ==> (
            #[trigger] strip.groups[h].entries[k]).session_id != id) ==> strip.group == 0
            && strip.index == 0,
        focus_is_kept(strip, None) ==> strip.group == 0 && strip.index == 0,
{
    law_the_first_place_is_the_first(strip.groups, id, strip.group, strip.index, g, i);
}

} // verus!
