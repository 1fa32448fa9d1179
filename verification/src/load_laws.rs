//! Laws of reading what tmux lists and what the group file holds.

use vstd::prelude::*;

use crate::document::NodeView;
use crate::group_file;
use crate::groups;
use crate::groups::{GroupView, StateView};
use crate::names;
use crate::sessions;
use crate::sessions::SessionView;
use crate::text;

verus! {

/// The line in which tmux lists a session.
pub open spec fn listing_line(name: Seq<char>, last_activity: u64) -> Seq<char> {
    name + seq!['\t'] + text::digits(last_activity as nat)
}

/// What tmux lists for sessions with these names and these times of their last activity.
pub open spec fn listing_text(list: Seq<(Seq<char>, u64)>) -> Seq<char> {
    sessions::name_lines(list.map_values(|x: (Seq<char>, u64)| listing_line(x.0, x.1)), 0)
}

/// The session that such a line describes.
pub open spec fn described(x: (Seq<char>, u64), current: Seq<char>, pinned: Seq<Seq<char>>) -> SessionView {
    SessionView { name: x.0, last_activity: x.1, pinned: pinned.contains(x.0), is_current: x.0 == current }
}

/// Whether a name can stand in what tmux lists: it is not empty and breaks no field and no line.
pub open spec fn is_listable(name: Seq<char>) -> bool {
    name.len() > 0 && !name.contains('\t') && !name.contains('\n')
}

proof fn lemma_line(name: Seq<char>, last_activity: u64, current: Seq<char>, pinned: Seq<Seq<char>>)
    requires
        is_listable(name),
    ensures
        sessions::fits_line(listing_line(name, last_activity)),
        sessions::parsed_line(listing_line(name, last_activity), current, pinned) == Some(
            Ok::<SessionView, Seq<char>>(described((name, last_activity), current, pinned)),
        ),
{
    let line = listing_line(name, last_activity);
    let digits = text::digits(last_activity as nat);
    text::lemma_digits(last_activity as nat);
    text::number_round_trip(last_activity as nat, u64::MAX as nat);
    let at = name.len() as int;
    assert(line[at] == '\t');
    assert forall|j: int| 0 <= j < at implies line[j] != '\t' && line[j] != '\n' by {
        assert(line[j] == name[j]);
        assert(name.contains(name[j]));
    }
    assert forall|j: int| at < j < line.len() implies text::is_digit(#[trigger] line[j]) by {
        assert(line[j] == digits[j - at - 1]);
    }
    assert(line.last() == digits.last());
    assert(text::is_digit(digits[digits.len() - 1]));
    if line.contains('\n') {
        let j = line.index_of('\n');
        assert(line[j] == '\n');
    }
    sessions::lemma_find_skips(line, '\t', 0, at);
    text::lemma_find_from(line, '\t', at + 1);
    let k = text::find_from(line, '\t', at + 1);
    assert(k == line.len()) by {
        if k < line.len() {
            assert(line[k] == '\t');
            assert(text::is_digit(line[k]));
        }
    }
    reveal_with_fuel(text::split_from, 3);
    assert(line.subrange(0, at) =~= name);
    assert(line.subrange(at + 1, line.len() as int) =~= digits);
    let fields = text::split_from(line, '\t', 0);
    assert(fields =~= seq![name, digits]);
}

proof fn lemma_parsed(list: Seq<(Seq<char>, u64)>, lines: Seq<Seq<char>>, current: Seq<char>, pinned: Seq<Seq<char>>, i: int)
    requires
        0 <= i <= list.len() == lines.len(),
        forall|j: int|
            0 <= j < list.len() ==> is_listable((#[trigger] list[j]).0) && lines[j] == listing_line(
                list[j].0,
                list[j].1,
            ),
    ensures
        sessions::parsed_from(lines, current, pinned, i) == Ok::<Seq<SessionView>, Seq<char>>(
            list.skip(i).map_values(|x: (Seq<char>, u64)| described(x, current, pinned)),
        ),
    decreases list.len() - i,
{
    let f = |x: (Seq<char>, u64)| described(x, current, pinned);
    if i < list.len() {
        lemma_parsed(list, lines, current, pinned, i + 1);
        assert(is_listable(list[i].0));
        lemma_line(list[i].0, list[i].1, current, pinned);
        assert(list.skip(i).map_values(f) =~= seq![f(list[i])] + list.skip(i + 1).map_values(f));
    } else {
        assert(list.skip(i).map_values(f) =~= Seq::empty());
    }
}

/// What tmux lists is read as it was: each session with its name, its last activity,
/// pinned if and only if its name is among the pinned names, and current if and
/// only if it is called what the current one is.
pub proof fn listing_is_read_back(list: Seq<(Seq<char>, u64)>, current: Seq<char>, pinned: Seq<Seq<char>>)
    requires
        list.len() > 0,
        forall|j: int| 0 <= j < list.len() ==> is_listable((#[trigger] list[j]).0),
    ensures
        sessions::parsed(listing_text(list), current, pinned) == Ok::<Seq<SessionView>, Seq<char>>(
            list.map_values(|x: (Seq<char>, u64)| described(x, current, pinned)),
        ),
{
    let lines = list.map_values(|x: (Seq<char>, u64)| listing_line(x.0, x.1));
    let raw = listing_text(list);
    assert forall|j: int| 0 <= j < lines.len() implies sessions::fits_line(#[trigger] lines[j]) by {
        assert(is_listable(list[j].0));
        lemma_line(list[j].0, list[j].1, current, pinned);
    }
    assert(raw.skip(0) =~= raw);
    sessions::lemma_name_lines(lines, 0, raw, 0);
    assert(lines.skip(0) =~= lines);
    lemma_parsed(list, lines, current, pinned, 0);
    assert(list.skip(0) =~= list);
}

/// A session that was active later has to stand before one that was active earlier.
/// Of two with the same time that one has to whose name comes first: where the
/// names first differ it has the lower character, or it has ended.
pub proof fn later_activity_comes_first(a: SessionView, b: SessionView, k: int)
    requires
        0 <= k <= a.name.len(),
        k < b.name.len(),
        forall|i: int| 0 <= i < k ==> a.name[i] == b.name[i],
        k == a.name.len() || a.name[k] < b.name[k],
    ensures
        a.last_activity == b.last_activity ==> sessions::before(a, b) && !sessions::before(b, a),
        a.last_activity < b.last_activity ==> sessions::before(b, a) && !sessions::before(a, b),
        a.last_activity > b.last_activity ==> sessions::before(a, b) && !sessions::before(b, a),
{
    reveal(sessions::before);
    lemma_text_before(a.name, b.name, 0, k);
    sessions::order_is_strict(a, b, a);
}

proof fn lemma_text_before(a: Seq<char>, b: Seq<char>, i: int, k: int)
    requires
        0 <= i <= k <= a.len(),
        k < b.len(),
        forall|j: int| 0 <= j < k ==> a[j] == b[j],
        k == a.len() || a[k] < b[k],
    ensures
        sessions::text_before(a, b, i),
    decreases k - i,
{
    if i < k {
        lemma_text_before(a, b, i + 1, k);
    }
}

/// The names in a pin file are those of its lines that are not empty, each once.
pub proof fn pin_file_has_its_lines(contents: Seq<char>, name: Seq<char>)
    ensures
        sessions::pin_file_names(contents).no_duplicates(),
        sessions::pin_file_names(contents).contains(name) <==> name.len() > 0 && text::lines_from(contents, 0).contains(
            name,
        ),
{
    broadcast use vstd::seq_lib::group_filter_ensures;

    let lines = text::lines_from(contents, 0);
    let filled = |line: Seq<char>| line.len() > 0;
    let kept = lines.filter(filled);
    names::lemma_fresh(kept, Set::empty());
    if kept.contains(name) {
        let k = kept.index_of(name);
        assert(filled(kept[k]));
        lines.lemma_filter_contains_rev(filled, name);
    }
    if lines.contains(name) && name.len() > 0 {
        let k = lines.index_of(name);
        assert(filled(lines[k]));
        assert(kept.contains(lines[k]));
    }
}

/// Whether the name of the group at `i` is empty, or the same, as names are
/// compared, as the reserved one or as that of a group before it.
pub open spec fn cannot_be_kept(g: Seq<GroupView>, keys: Seq<Seq<char>>, reserved: Seq<char>, i: int) -> bool {
    text::trimmed(g[i].name).len() == 0 || keys[i] == reserved || keys.take(i).contains(keys[i])
}

proof fn lemma_cannot_be_kept(g: Seq<GroupView>, keys: Seq<Seq<char>>, reserved: Seq<char>, i: int)
    requires
        0 <= i < g.len() == keys.len(),
    ensures
        cannot_be_kept(g, keys, reserved, i) == group_file::name_refused(g, keys, reserved, i),
{
    let front = keys.take(i);
    if front.contains(keys[i]) {
        let j = front.index_of(keys[i]);
        assert(keys[j] == keys[i]);
    }
    if exists|j: int| 0 <= j < i && #[trigger] keys[j] == keys[i] {
        let j = choose|j: int| 0 <= j < i && #[trigger] keys[j] == keys[i];
        assert(front[j] == keys[i]);
    }
}

/// Groups from a file are kept as they are written there, with their names
/// trimmed. A session that several groups list stays in the first of them only,
/// once. The file is refused if and only if a name is empty, or is the same, as
/// names are compared, as the reserved one or as that of a group before it.
pub proof fn file_keeps_groups(state: StateView, keys: Seq<Seq<char>>, reserved: Seq<char>)
    requires
        keys.len() == state.groups.len(),
    ensures
        group_file::normalized_by(state, keys, reserved) is Err <==> exists|i: int|
            0 <= i < state.groups.len() && #[trigger] cannot_be_kept(state.groups, keys, reserved, i),
        group_file::normalized_by(state, keys, reserved) matches Ok(made) ==> {
            &&& made.version == state.version
            &&& made.groups.len() == state.groups.len()
            &&& forall|i: int|
                0 <= i < state.groups.len() ==> (#[trigger] made.groups[i]).name == text::trimmed(state.groups[i].name)
                    && made.groups[i].collapsed == state.groups[i].collapsed && made.groups[i].sessions.no_duplicates()
            &&& forall|i: int, n: Seq<char>|
                0 <= i < state.groups.len() ==> (#[trigger] made.groups[i].sessions.contains(n) <==> groups::group_of(
                    state.groups,
                    n,
                ) == Some(i))
        },
{
    let old = state.groups;
    if let Ok(made) = group_file::normalized_by(state, keys, reserved) {
        assert forall|i: int| 0 <= i < old.len() implies !#[trigger] cannot_be_kept(old, keys, reserved, i) by {
            group_file::lemma_first_refused(old, keys, reserved, 0, i);
            lemma_cannot_be_kept(old, keys, reserved, i);
        }
        assert forall|i: int| 0 <= i < old.len() implies (#[trigger] made.groups[i]).name == text::trimmed(old[i].name)
            && made.groups[i].collapsed == old[i].collapsed && made.groups[i].sessions.no_duplicates() by {
            names::lemma_fresh(old[i].sessions, group_file::listed_before(old, i));
        }
        assert forall|i: int, n: Seq<char>| 0 <= i < old.len() implies (#[trigger] made.groups[i].sessions.contains(n)
            <==> groups::group_of(old, n) == Some(i)) by {
            names::lemma_fresh(old[i].sessions, group_file::listed_before(old, i));
            groups::lemma_group_from(old, n, 0);
            assert(made.groups[i] == group_file::tidy_group(old, i));
            if group_file::listed_before(old, i).contains(n) {
                let g = choose|g: int| 0 <= g < i && (#[trigger] old[g]).sessions.contains(n);
                assert(old[g].sessions.contains(n));
            }
            if let Some(g) = groups::group_of(old, n) {
                if g < i {
                    assert(old[g].sessions.contains(n));
                }
            }
        }
    } else {
        lemma_refused_exists(state.groups, keys, reserved, 0);
        let i = group_file::first_refused(old, keys, reserved, 0)->0;
        lemma_cannot_be_kept(old, keys, reserved, i);
    }
}

proof fn lemma_refused_exists(g: Seq<GroupView>, keys: Seq<Seq<char>>, reserved: Seq<char>, i: int)
    requires
        0 <= i <= g.len(),
    ensures
        group_file::first_refused(g, keys, reserved, i) matches Some(k) ==> i <= k < g.len()
            && group_file::name_refused(g, keys, reserved, k),
    decreases g.len() - i,
{
    if i < g.len() && !group_file::name_refused(g, keys, reserved, i) {
        lemma_refused_exists(g, keys, reserved, i + 1);
    }
}

proof fn lemma_entry(entries: Seq<(Seq<char>, NodeView)>, key: Seq<char>, i: int)
    requires
        0 <= i <= entries.len(),
    ensures
        match group_file::entry_from(entries, key, i) {
            Some(v) => exists|k: int| i <= k < entries.len() && #[trigger] entries[k] == (key, v),
            None => forall|k: int| i <= k < entries.len() ==> (#[trigger] entries[k]).0 != key,
        },
    decreases entries.len() - i,
{
    if i < entries.len() {
        if entries[i].0 == key {
            assert(entries[i] == (key, entries[i].1));
        } else {
            lemma_entry(entries, key, i + 1);
        }
    }
}

/// Whether a table has the value under the key.
pub open spec fn has_entry(entries: Seq<(Seq<char>, NodeView)>, key: Seq<char>, v: NodeView) -> bool {
    exists|k: int| 0 <= k < entries.len() && #[trigger] entries[k] == (key, v)
}

pub open spec fn has_no_entry(entries: Seq<(Seq<char>, NodeView)>, key: Seq<char>) -> bool {
    forall|k: int| 0 <= k < entries.len() ==> (#[trigger] entries[k]).0 != key
}

proof fn lemma_found(entries: Seq<(Seq<char>, NodeView)>, key: Seq<char>, v: NodeView)
    requires
        crate::document::distinct_keys(entries),
    ensures
        has_entry(entries, key, v) ==> group_file::entry_from(entries, key, 0) == Some(v),
        has_no_entry(entries, key) ==> group_file::entry_from(entries, key, 0) is None,
{
    lemma_entry(entries, key, 0);
    if has_entry(entries, key, v) {
        let k = choose|k: int| 0 <= k < entries.len() && #[trigger] entries[k] == (key, v);
        if let Some(w) = group_file::entry_from(entries, key, 0) {
            let j = choose|j: int| 0 <= j < entries.len() && #[trigger] entries[j] == (key, w);
            if j < k {
                assert(entries[j].0 != entries[k].0);
            } else if k < j {
                assert(entries[k].0 != entries[j].0);
            }
        }
    }
    if has_no_entry(entries, key) {
        if let Some(w) = group_file::entry_from(entries, key, 0) {
            let j = choose|j: int| 0 <= j < entries.len() && #[trigger] entries[j] == (key, w);
            assert(entries[j].0 == key);
        }
    }
}

/// Whether a table stands for a group: it has its name, and where it says nothing
/// of them the group is open and has no sessions. Other entries do not matter.
pub open spec fn stands_for_group(entries: Seq<(Seq<char>, NodeView)>, g: GroupView) -> bool {
    &&& crate::document::distinct_keys(entries)
    &&& has_entry(entries, "name"@, NodeView::Text(g.name))
    &&& has_entry(entries, "collapsed"@, NodeView::Boolean(g.collapsed)) || has_no_entry(entries, "collapsed"@)
        && !g.collapsed
    &&& has_entry(
        entries,
        "sessions"@,
        NodeView::Array(g.sessions.map_values(|s: Seq<char>| NodeView::Text(s))),
    ) || has_no_entry(entries, "sessions"@) && g.sessions.len() == 0
}

proof fn lemma_group_is_read(entries: Seq<(Seq<char>, NodeView)>, g: GroupView)
    requires
        stands_for_group(entries, g),
    ensures
        group_file::decoded_group(NodeView::Table(entries)) == Ok::<GroupView, Seq<char>>(g),
{
    let items = g.sessions.map_values(|s: Seq<char>| NodeView::Text(s));
    lemma_found(entries, "name"@, NodeView::Text(g.name));
    lemma_found(entries, "collapsed"@, NodeView::Boolean(g.collapsed));
    lemma_found(entries, "sessions"@, NodeView::Array(items));
    assert(group_file::texts_of(items) =~= g.sessions);
    if g.sessions.len() == 0 {
        assert(g.sessions =~= Seq::empty());
    }
}

proof fn lemma_groups_are_read(items: Seq<NodeView>, g: Seq<GroupView>, i: int)
    requires
        0 <= i <= items.len() == g.len(),
        forall|k: int|
            0 <= k < items.len() ==> (#[trigger] items[k] matches NodeView::Table(entries) && stands_for_group(
                entries,
                g[k],
            )),
    ensures
        group_file::decoded_groups(items, i) == Ok::<Seq<GroupView>, Seq<char>>(g.skip(i)),
    decreases items.len() - i,
{
    if i < items.len() {
        lemma_groups_are_read(items, g, i + 1);
        if let NodeView::Table(entries) = items[i] {
            lemma_group_is_read(entries, g[i]);
        }
        assert(seq![g[i]] + g.skip(i + 1) =~= g.skip(i));
    } else {
        assert(g.skip(i) =~= Seq::empty());
    }
}

/// A document is read as what it says: its version, or the current one where it
/// says none, and its groups, in their order. Entries may stand in any order, and
/// others than these do not matter.
pub proof fn document_is_read(
    entries: Seq<(Seq<char>, NodeView)>,
    items: Seq<NodeView>,
    state: StateView,
)
    requires
        crate::document::distinct_keys(entries),
        has_entry(entries, "version"@, NodeView::Integer(state.version as int)) || has_no_entry(entries, "version"@)
            && state.version == 1,
        has_entry(entries, "groups"@, NodeView::Array(items)) || has_no_entry(entries, "groups"@) && items.len() == 0,
        items.len() == state.groups.len(),
        forall|k: int|
            0 <= k < items.len() ==> (#[trigger] items[k] matches NodeView::Table(e) && stands_for_group(
                e,
                state.groups[k],
            )),
    ensures
        group_file::decoded(NodeView::Table(entries)) == Ok::<StateView, Seq<char>>(state),
        group_file::accepted(NodeView::Table(entries)) == (if state.version != 1 {
            Err("unsupported group file version: "@ + text::digits(state.version as nat))
        } else {
            group_file::normalized(state)
        }),
{
    lemma_found(entries, "version"@, NodeView::Integer(state.version as int));
    lemma_found(entries, "groups"@, NodeView::Array(items));
    lemma_groups_are_read(items, state.groups, 0);
    assert(state.groups.skip(0) =~= state.groups);
    if items.len() == 0 {
        assert(state.groups =~= Seq::empty());
    }
}

} // verus!
