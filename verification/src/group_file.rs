//! The file that keeps the groups: a TOML document with a version and a list of groups.

use vstd::prelude::*;
use vstd::string::*;

use crate::document;
use crate::document::{Node, NodeView};
use crate::groups;
use crate::groups::{Group, GroupState, GroupView, StateView, CURRENT_VERSION, UNGROUPED_NAME};
use crate::names;
use crate::names::NameSet;
use crate::text;

verus! {

/// The entry of `entries` at or after `i` under `key`.
pub open spec fn entry_from(entries: Seq<(Seq<char>, NodeView)>, key: Seq<char>, i: int) -> Option<NodeView>
    decreases entries.len() - i,
{
    if i >= entries.len() {
        None
    } else if entries[i].0 == key {
        Some(entries[i].1)
    } else {
        entry_from(entries, key, i + 1)
    }
}

/// Whether every item is a text.
pub open spec fn all_texts(items: Seq<NodeView>) -> bool {
    forall|i: int| 0 <= i < items.len() ==> (#[trigger] items[i]) is Text
}

/// The texts of a list of texts.
pub open spec fn texts_of(items: Seq<NodeView>) -> Seq<Seq<char>> {
    items.map_values(|v: NodeView| v->Text_0)
}

/// A group from its three parts, of which only the name is required.
pub open spec fn group_from_parts(
    name: Option<NodeView>,
    collapsed: Option<NodeView>,
    sessions: Option<NodeView>,
) -> Result<GroupView, Seq<char>> {
    if name is None {
        Err("missing field `name`"@)
    } else if !(name->0 is Text) {
        Err("invalid `name`, expected a string"@)
    } else if collapsed is Some && !(collapsed->0 is Boolean) {
        Err("invalid `collapsed`, expected a boolean"@)
    } else if sessions is Some && !(sessions->0 is Array && all_texts(sessions->0->Array_0)) {
        Err("invalid `sessions`, expected a list of strings"@)
    } else {
        Ok(
            GroupView {
                name: name->0->Text_0,
                collapsed: collapsed is Some && collapsed->0->Boolean_0,
                sessions: if sessions is Some {
                    texts_of(sessions->0->Array_0)
                } else {
                    Seq::empty()
                },
            },
        )
    }
}

pub open spec fn item_at(items: Seq<NodeView>, i: int) -> Option<NodeView> {
    if i < items.len() {
        Some(items[i])
    } else {
        None
    }
}

/// A group from a table with its parts by name, or from a list with its parts in order.
pub open spec fn decoded_group(v: NodeView) -> Result<GroupView, Seq<char>> {
    match v {
        NodeView::Table(entries) => group_from_parts(
            entry_from(entries, "name"@, 0),
            entry_from(entries, "collapsed"@, 0),
            entry_from(entries, "sessions"@, 0),
        ),
        NodeView::Array(items) => group_from_parts(item_at(items, 0), item_at(items, 1), item_at(items, 2)),
        _ => Err("invalid group, expected a table"@),
    }
}

/// The groups from index `i` on, or what is wrong with the first that is wrong.
pub open spec fn decoded_groups(items: Seq<NodeView>, i: int) -> Result<Seq<GroupView>, Seq<char>>
    decreases items.len() - i,
{
    if i >= items.len() {
        Ok(Seq::empty())
    } else {
        match decoded_group(items[i]) {
            Err(why) => Err(why),
            Ok(group) => match decoded_groups(items, i + 1) {
                Err(why) => Err(why),
                Ok(rest) => Ok(seq![group] + rest),
            },
        }
    }
}

pub open spec fn decoded_version(v: Option<NodeView>) -> Result<u8, Seq<char>> {
    match v {
        None => Ok(CURRENT_VERSION),
        Some(NodeView::Integer(n)) => if 0 <= n <= 255 {
            Ok(n as u8)
        } else {
            Err("invalid `version`, expected an integer from 0 to 255"@)
        },
        Some(_) => Err("invalid `version`, expected an integer from 0 to 255"@),
    }
}

/// The state that a document holds, as it stands there.
pub open spec fn decoded(v: NodeView) -> Result<StateView, Seq<char>> {
    match v {
        NodeView::Table(entries) => match decoded_version(entry_from(entries, "version"@, 0)) {
            Err(why) => Err(why),
            Ok(version) => match entry_from(entries, "groups"@, 0) {
                None => Ok(StateView { version, groups: Seq::empty() }),
                Some(NodeView::Array(items)) => match decoded_groups(items, 0) {
                    Err(why) => Err(why),
                    Ok(groups) => Ok(StateView { version, groups }),
                },
                Some(_) => Err("invalid `groups`, expected a list"@),
            },
        },
        _ => Err("invalid document, expected a table"@),
    }
}

/// The sessions that the groups before index `n` list.
pub open spec fn listed_before(groups: Seq<GroupView>, n: int) -> Set<Seq<char>> {
    Set::new(|s: Seq<char>| exists|g: int| 0 <= g < n && (#[trigger] groups[g]).sessions.contains(s))
}

/// The trimmed names of the groups, in lowercase.
pub open spec fn lowered_names(groups: Seq<GroupView>) -> Seq<Seq<char>> {
    groups.map_values(|g: GroupView| text::lowercase(text::trimmed(g.name)))
}

/// The trimmed names of the groups, with ASCII letters in lowercase.
pub open spec fn folded_names(groups: Seq<GroupView>) -> Seq<Seq<char>> {
    groups.map_values(|g: GroupView| text::ascii_folded(text::trimmed(g.name)))
}

/// Whether the name of the group at `i` is empty, reserved, or that of a group
/// before it. Names are compared by what `lowered` has for them.
pub open spec fn name_refused(
    groups: Seq<GroupView>,
    lowered: Seq<Seq<char>>,
    reserved: Seq<char>,
    i: int,
) -> bool {
    ||| text::trimmed(groups[i].name).len() == 0
    ||| lowered[i] == reserved
    ||| exists|j: int| 0 <= j < i && #[trigger] lowered[j] == lowered[i]
}

/// The first group at or after `i` whose name is refused.
pub open spec fn first_refused(
    groups: Seq<GroupView>,
    lowered: Seq<Seq<char>>,
    reserved: Seq<char>,
    i: int,
) -> Option<int>
    decreases groups.len() - i,
{
    if i >= groups.len() {
        None
    } else if name_refused(groups, lowered, reserved, i) {
        Some(i)
    } else {
        first_refused(groups, lowered, reserved, i + 1)
    }
}

/// The group at `i` with its name trimmed, and without sessions that are listed further in front.
pub open spec fn tidy_group(groups: Seq<GroupView>, i: int) -> GroupView {
    GroupView {
        name: text::trimmed(groups[i].name),
        sessions: names::fresh(groups[i].sessions, listed_before(groups, i)),
        ..groups[i]
    }
}

/// The state with tidy groups, or the words for the first group whose name is
/// refused, where names are compared by what `lowered` has for them.
pub open spec fn normalized_by(state: StateView, lowered: Seq<Seq<char>>, reserved: Seq<char>) -> Result<
    StateView,
    Seq<char>,
> {
    match first_refused(state.groups, lowered, reserved, 0) {
        Some(i) => Err("invalid or duplicate group name: "@ + text::trimmed(state.groups[i].name)),
        None => Ok(
            StateView {
                groups: Seq::new(state.groups.len(), |i: int| tidy_group(state.groups, i)),
                ..state
            },
        ),
    }
}

/// The state with tidy groups, or the words for the first group whose name is refused.
pub open spec fn normalized(state: StateView) -> Result<StateView, Seq<char>> {
    normalized_by(state, lowered_names(state.groups), text::lowercase(UNGROUPED_NAME@))
}

/// The same for groups whose names are ASCII texts.
pub open spec fn ascii_normalized(state: StateView) -> Result<StateView, Seq<char>> {
    normalized_by(state, folded_names(state.groups), text::ascii_folded(UNGROUPED_NAME@))
}

/// Whether the trimmed names of the groups are ASCII texts.
pub open spec fn names_are_ascii(groups: Seq<GroupView>) -> bool {
    forall|i: int| 0 <= i < groups.len() ==> text::is_ascii_text(text::trimmed((#[trigger] groups[i]).name))
}

/// Whether the groups' names are as a group file can have them: trimmed, not
/// empty, not reserved, and no two the same but for the case of ASCII letters,
/// unless both have a character beyond ASCII.
pub open spec fn file_names_are_sound(groups: Seq<GroupView>) -> bool {
    &&& forall|i: int|
        0 <= i < groups.len() ==> (#[trigger] groups[i]).name.len() > 0 && text::trimmed(groups[i].name)
            == groups[i].name && text::ascii_folded(groups[i].name) != text::ascii_folded(UNGROUPED_NAME@)
    &&& forall|i: int, j: int|
        0 <= i < j < groups.len() && (text::is_ascii_text((#[trigger] groups[i]).name) || text::is_ascii_text(
            (#[trigger] groups[j]).name,
        )) ==> text::ascii_folded(groups[i].name) != text::ascii_folded(groups[j].name)
}

/// Names from a group file are sound where all of them are ASCII texts.
pub proof fn ascii_file_names_are_sound(groups: Seq<GroupView>)
    requires
        file_names_are_sound(groups),
        names_are_ascii(groups),
    ensures
        groups::names_are_sound(groups),
{
    assert forall|i: int, j: int| 0 <= i < j < groups.len() implies text::ascii_folded((#[trigger] groups[i]).name)
        != text::ascii_folded((#[trigger] groups[j]).name) by {
        assert(text::is_ascii_text(text::trimmed(groups[i].name)));
    }
}

/// The state that a document stands for.
pub open spec fn accepted(v: NodeView) -> Result<StateView, Seq<char>> {
    match decoded(v) {
        Err(why) => Err(why),
        Ok(state) => if state.version != CURRENT_VERSION {
            Err("unsupported group file version: "@ + text::digits(state.version as nat))
        } else {
            normalized(state)
        },
    }
}

/// The state that the text of a group file stands for. A blank file holds no groups.
pub open spec fn loaded(contents: Seq<char>) -> Result<StateView, Seq<char>> {
    if text::trimmed(contents).len() == 0 {
        Ok(groups::no_groups())
    } else {
        match document::toml_document(contents) {
            Err(why) => Err(why),
            Ok(v) => accepted(v),
        }
    }
}

/// What came of reading a file.
#[derive(Debug)]
pub enum FileRead {
    Contents(String),
    Missing,
    Failed(String),
}

/// The state that a group file holds. Without a file there are no groups; a file
/// that could not be read, or whose text is refused, is an error.
pub open spec fn state_from(read: FileRead) -> Result<StateView, Seq<char>> {
    match read {
        FileRead::Contents(contents) => loaded(contents@),
        FileRead::Missing => Ok(groups::no_groups()),
        FileRead::Failed(why) => Err(why@),
    }
}

pub open spec fn encoded_group(g: GroupView) -> NodeView {
    NodeView::Table(
        seq![
            ("name"@, NodeView::Text(g.name)),
            ("collapsed"@, NodeView::Boolean(g.collapsed)),
            ("sessions"@, NodeView::Array(g.sessions.map_values(|s: Seq<char>| NodeView::Text(s)))),
        ],
    )
}

/// The document that keeps a state.
pub open spec fn encoded(state: StateView) -> NodeView {
    NodeView::Table(
        seq![
            ("version"@, NodeView::Integer(state.version as int)),
            ("groups"@, NodeView::Array(state.groups.map_values(|g: GroupView| encoded_group(g)))),
        ],
    )
}

/// Whether no text in the state repeats a quotation mark more often than the file's writer can count.
pub open spec fn writable(state: StateView) -> bool {
    forall|i: int|
        0 <= i < state.groups.len() ==> document::quotes_fit((#[trigger] state.groups[i]).name) && forall|j: int|
            0 <= j < state.groups[i].sessions.len() ==> document::quotes_fit(#[trigger] state.groups[i].sessions[j])
}

/// Whether a result is the expected one, where values are taken by their views.
pub open spec fn is_state_result(r: Result<GroupState, String>, expected: Result<StateView, Seq<char>>) -> bool {
    match expected {
        Ok(state) => r matches Ok(s) && s@ == state,
        Err(why) => r matches Err(e) && e@ == why,
    }
}

/// The value under `key`.
fn entry<'a>(entries: &'a Vec<(String, Node)>, key: &str) -> (r: Option<&'a Node>)
    ensures
        match r {
            Some(v) => entry_from(Node::Table(*entries)@->Table_0, key@, 0) == Some(v@),
            None => entry_from(Node::Table(*entries)@->Table_0, key@, 0) is None,
        },
{
    let ghost all = Node::Table(*entries)@->Table_0;
    let mut i: usize = 0;
    while i < entries.len()
        invariant
            i <= entries.len(),
            all == Node::Table(*entries)@->Table_0,
            entry_from(all, key@, 0) == entry_from(all, key@, i as int),
        decreases entries.len() - i,
    {
        assert(all[i as int] == (entries@[i as int].0@, entries@[i as int].1@));
        if text::same(&entries[i].0, key) {
            return Some(&entries[i].1);
        }
        i += 1;
    }
    None
}

fn item<'a>(items: &'a Vec<Node>, i: usize) -> (r: Option<&'a Node>)
    ensures
        match r {
            Some(v) => item_at(Node::Array(*items)@->Array_0, i as int) == Some(v@),
            None => item_at(Node::Array(*items)@->Array_0, i as int) is None,
        },
{
    if i < items.len() {
        Some(&items[i])
    } else {
        None
    }
}

/// The texts of a list, if it holds nothing else.
fn text_list(items: &Vec<Node>) -> (r: Option<Vec<String>>)
    ensures
        match r {
            Some(texts) => all_texts(Node::Array(*items)@->Array_0) && text::views(texts@) == texts_of(
                Node::Array(*items)@->Array_0,
            ),
            None => !all_texts(Node::Array(*items)@->Array_0),
        },
{
    let ghost all = Node::Array(*items)@->Array_0;
    let mut out: Vec<String> = Vec::new();
    let mut i: usize = 0;
    while i < items.len()
        invariant
            i <= items.len(),
            all == Node::Array(*items)@->Array_0,
            out.len() == i,
            forall|j: int| 0 <= j < i ==> (#[trigger] all[j]) is Text && all[j]->Text_0 == out@[j]@,
        decreases items.len() - i,
    {
        assert(all[i as int] == items@[i as int]@);
        match &items[i] {
            Node::Text(s) => {
                out.push(s.clone());
            },
            _ => {
                return None;
            },
        }
        i += 1;
    }
    assert(text::views(out@) =~= texts_of(all));
    Some(out)
}

pub open spec fn part_view(p: Option<&Node>) -> Option<NodeView> {
    match p {
        Some(v) => Some(v@),
        None => None,
    }
}

pub open spec fn is_group_result(r: Result<Group, String>, expected: Result<GroupView, Seq<char>>) -> bool {
    match expected {
        Ok(group) => r matches Ok(g) && g@ == group,
        Err(why) => r matches Err(e) && e@ == why,
    }
}

fn parts_to_group(name: Option<&Node>, collapsed: Option<&Node>, sessions: Option<&Node>) -> (r: Result<Group, String>)
    ensures
        is_group_result(r, group_from_parts(part_view(name), part_view(collapsed), part_view(sessions))),
{
    let name = match name {
        None => {
            return Err("missing field `name`".to_owned());
        },
        Some(Node::Text(s)) => s.clone(),
        Some(_) => {
            return Err("invalid `name`, expected a string".to_owned());
        },
    };
    let collapsed = match collapsed {
        None => false,
        Some(Node::Boolean(b)) => *b,
        Some(_) => {
            return Err("invalid `collapsed`, expected a boolean".to_owned());
        },
    };
    let sessions = match sessions {
        None => {
            let none: Vec<String> = Vec::new();
            assert(text::views(none@) =~= Seq::empty());
            none
        },
        Some(Node::Array(items)) => match text_list(items) {
            Some(texts) => texts,
            None => {
                return Err("invalid `sessions`, expected a list of strings".to_owned());
            },
        },
        Some(_) => {
            return Err("invalid `sessions`, expected a list of strings".to_owned());
        },
    };
    Ok(Group { name, collapsed, sessions })
}

fn decode_group(value: &Node) -> (r: Result<Group, String>)
    ensures
        is_group_result(r, decoded_group(value@)),
{
    match value {
        Node::Table(entries) => parts_to_group(
            entry(entries, "name"),
            entry(entries, "collapsed"),
            entry(entries, "sessions"),
        ),
        Node::Array(items) => parts_to_group(item(items, 0), item(items, 1), item(items, 2)),
        _ => Err("invalid group, expected a table".to_owned()),
    }
}

fn decode_groups(items: &Vec<Node>) -> (r: Result<Vec<Group>, String>)
    ensures
        match decoded_groups(Node::Array(*items)@->Array_0, 0) {
            Ok(groups) => r matches Ok(gs) && groups::group_views(gs@) == groups,
            Err(why) => r matches Err(e) && e@ == why,
        },
{
    let ghost all = Node::Array(*items)@->Array_0;
    let mut out: Vec<Group> = Vec::new();
    let mut i: usize = 0;
    assert(groups::group_views(out@) =~= Seq::empty());
    proof {
        if decoded_groups(all, 0) is Ok {
            assert(decoded_groups(all, 0)->Ok_0 =~= Seq::empty() + decoded_groups(all, 0)->Ok_0);
        }
    }
    while i < items.len()
        invariant
            i <= items.len(),
            all == Node::Array(*items)@->Array_0,
            match decoded_groups(all, i as int) {
                Ok(rest) => decoded_groups(all, 0) == Ok::<Seq<GroupView>, Seq<char>>(
                    groups::group_views(out@) + rest,
                ),
                Err(why) => decoded_groups(all, 0) == Err::<Seq<GroupView>, Seq<char>>(why),
            },
        decreases items.len() - i,
    {
        assert(all[i as int] == items@[i as int]@);
        let ghost before = groups::group_views(out@);
        match decode_group(&items[i]) {
            Err(why) => {
                return Err(why);
            },
            Ok(group) => {
                out.push(group);
                proof {
                    assert(groups::group_views(out@) =~= before.push(group@));
                    if decoded_groups(all, i + 1) is Ok {
                        let rest = decoded_groups(all, i + 1)->Ok_0;
                        assert(before + (seq![group@] + rest) =~= groups::group_views(out@) + rest);
                    }
                }
            },
        }
        i += 1;
    }
    assert(groups::group_views(out@) + Seq::<GroupView>::empty() =~= groups::group_views(out@));
    Ok(out)
}

/// The state that a document holds, as it stands there.
fn decode(value: &Node) -> (r: Result<GroupState, String>)
    ensures
        is_state_result(r, decoded(value@)),
{
    let entries = match value {
        Node::Table(entries) => entries,
        _ => {
            return Err("invalid document, expected a table".to_owned());
        },
    };
    let version: u8 = match entry(entries, "version") {
        None => CURRENT_VERSION,
        Some(Node::Integer(n)) => {
            if *n < 0 || *n > 255 {
                return Err("invalid `version`, expected an integer from 0 to 255".to_owned());
            }
            *n as u8
        },
        Some(_) => {
            return Err("invalid `version`, expected an integer from 0 to 255".to_owned());
        },
    };
    match entry(entries, "groups") {
        None => {
            let state = GroupState { version, groups: Vec::new() };
            assert(state@.groups =~= Seq::empty());
            Ok(state)
        },
        Some(Node::Array(items)) => match decode_groups(items) {
            Err(why) => Err(why),
            Ok(groups) => Ok(GroupState { version, groups }),
        },
        Some(_) => Err("invalid `groups`, expected a list".to_owned()),
    }
}

proof fn lemma_listed_next(groups: Seq<GroupView>, i: int)
    requires
        0 <= i < groups.len(),
    ensures
        listed_before(groups, i + 1) == listed_before(groups, i).union(groups[i].sessions.to_set()),
{
    assert forall|s: Seq<char>|
        listed_before(groups, i + 1).contains(s) == listed_before(groups, i).union(
            groups[i].sessions.to_set(),
        ).contains(s) by {
        if groups[i].sessions.contains(s) {
            assert(0 <= i < i + 1 && groups[i].sessions.contains(s));
        }
        if listed_before(groups, i).contains(s) {
            let g = choose|g: int| 0 <= g < i && (#[trigger] groups[g]).sessions.contains(s);
            assert(0 <= g < i + 1 && groups[g].sessions.contains(s));
        }
    }
    assert(listed_before(groups, i + 1) =~= listed_before(groups, i).union(groups[i].sessions.to_set()));
}

/// The trimmed names of the groups, in lowercase.
fn lower_names(groups: &Vec<Group>) -> (r: Vec<String>)
    ensures
        text::views(r@) == lowered_names(groups::group_views(groups@)),
        names_are_ascii(groups::group_views(groups@)) ==> text::views(r@) == folded_names(
            groups::group_views(groups@),
        ),
        forall|j: int|
            0 <= j < groups.len() && text::is_ascii_text(text::trimmed(groups@[j].name@)) ==> (#[trigger] r@[j])@
                == text::ascii_folded(text::trimmed(groups@[j].name@)),
{
    let ghost all = groups::group_views(groups@);
    let mut out: Vec<String> = Vec::new();
    let mut i: usize = 0;
    while i < groups.len()
        invariant
            i <= groups.len(),
            all == groups::group_views(groups@),
            out.len() == i,
            forall|j: int| 0 <= j < i ==> (#[trigger] out@[j])@ == text::lowercase(text::trimmed(all[j].name)),
            forall|j: int|
                0 <= j < i && text::is_ascii_text(text::trimmed(all[j].name)) ==> (#[trigger] out@[j])@
                    == text::ascii_folded(text::trimmed(all[j].name)),
        decreases groups.len() - i,
    {
        assert(all[i as int] == groups@[i as int]@);
        out.push(text::to_lowercase(&text::trim(&groups[i].name)));
        i += 1;
    }
    assert(text::views(out@) =~= lowered_names(all));
    proof {
        if names_are_ascii(all) {
            assert forall|j: int| 0 <= j < all.len() implies text::views(out@)[j] == folded_names(all)[j] by {
                assert(text::is_ascii_text(text::trimmed(all[j].name)));
                assert(out@[j]@ == text::ascii_folded(text::trimmed(all[j].name)));
            }
            assert(text::views(out@) =~= folded_names(all));
        }
        assert forall|j: int|
            0 <= j < groups.len() && text::is_ascii_text(text::trimmed(groups@[j].name@)) implies (#[trigger] out@[j])@
            == text::ascii_folded(text::trimmed(groups@[j].name@)) by {
            assert(all[j] == groups@[j]@);
        }
    }
    out
}

/// The state with tidy groups, or the words for the first group whose name is
/// refused. `lowered` has the name of each group by which it is compared.
pub fn normalize(state: GroupState, lowered: &Vec<String>, reserved: &str) -> (r: Result<GroupState, String>)
    requires
        lowered.len() == state@.groups.len(),
    ensures
        is_state_result(r, normalized_by(state@, text::views(lowered@), reserved@)),
{
    let ghost all = state@.groups;
    let ghost keys = text::views(lowered@);
    let mut earlier = NameSet::new();
    let mut seen = NameSet::new();
    let mut out: Vec<Group> = Vec::new();
    let mut i: usize = 0;
    assert(seen@ =~= listed_before(all, 0));
    assert(earlier@ =~= keys.take(0).to_set());
    while i < state.groups.len()
        invariant
            i <= state.groups.len(),
            all == state@.groups,
            keys == text::views(lowered@),
            lowered.len() == state.groups.len(),
            first_refused(all, keys, reserved@, 0) == first_refused(all, keys, reserved@, i as int),
            earlier@ == keys.take(i as int).to_set(),
            seen@ == listed_before(all, i as int),
            out.len() == i,
            forall|j: int| 0 <= j < i ==> (#[trigger] out@[j])@ == tidy_group(all, j),
        decreases state.groups.len() - i,
    {
        assert(all[i as int] == state.groups@[i as int]@);
        assert(keys[i as int] == lowered@[i as int]@);
        let name = text::trim(&state.groups[i].name);
        let taken = earlier.contains(&lowered[i]);
        proof {
            if taken {
                let j = keys.take(i as int).index_of(keys[i as int]);
                assert(keys.take(i as int)[j] == keys[i as int]);
                assert(0 <= j < i && keys[j] == keys[i as int]);
            }
            if exists|j: int| 0 <= j < i && #[trigger] keys[j] == keys[i as int] {
                let j = choose|j: int| 0 <= j < i && #[trigger] keys[j] == keys[i as int];
                assert(keys.take(i as int)[j] == keys[i as int]);
            }
        }
        if name.as_str().is_empty() || text::same(&lowered[i], reserved) || taken {
            assert(name_refused(all, keys, reserved@, i as int));
            let mut why = "invalid or duplicate group name: ".to_owned();
            why.append(&name);
            return Err(why);
        }
        assert(!name_refused(all, keys, reserved@, i as int));
        let sessions = names::keep_fresh(&state.groups[i].sessions, &mut seen);
        earlier.insert(lowered[i].clone());
        proof {
            lemma_listed_next(all, i as int);
            assert(keys.take(i + 1) =~= keys.take(i as int).push(keys[i as int]));
            names::lemma_push_to_set(keys.take(i as int), keys[i as int]);
        }
        out.push(Group { name, collapsed: state.groups[i].collapsed, sessions });
        i += 1;
    }
    let r = GroupState { version: state.version, groups: out };
    assert(r@.groups =~= Seq::new(all.len(), |j: int| tidy_group(all, j)));
    Ok(r)
}

/// The names as a list of texts.
fn encode_names(list: &Vec<String>) -> (r: Node)
    ensures
        r@ == NodeView::Array(text::views(list@).map_values(|s: Seq<char>| NodeView::Text(s))),
{
    let mut items: Vec<Node> = Vec::new();
    let mut i: usize = 0;
    while i < list.len()
        invariant
            i <= list.len(),
            items.len() == i,
            forall|j: int| 0 <= j < i ==> (#[trigger] items@[j])@ == NodeView::Text(list@[j]@),
        decreases list.len() - i,
    {
        items.push(Node::Text(list[i].clone()));
        i += 1;
    }
    let r = Node::Array(items);
    assert(r@->Array_0 =~= text::views(list@).map_values(|s: Seq<char>| NodeView::Text(s)));
    r
}

fn encode_group(group: &Group) -> (r: Node)
    ensures
        r@ == encoded_group(group@),
{
    let mut entries: Vec<(String, Node)> = Vec::new();
    entries.push(("name".to_owned(), Node::Text(group.name.clone())));
    entries.push(("collapsed".to_owned(), Node::Boolean(group.collapsed)));
    entries.push(("sessions".to_owned(), encode_names(&group.sessions)));
    let r = Node::Table(entries);
    proof {
        reveal_with_fuel(document::node_view, 2);
        assert(r@->Table_0 =~= encoded_group(group@)->Table_0);
    }
    r
}

/// The document that keeps a state.
fn encode(state: &GroupState) -> (r: Node)
    ensures
        r@ == encoded(state@),
{
    let mut items: Vec<Node> = Vec::new();
    let mut i: usize = 0;
    while i < state.groups.len()
        invariant
            i <= state.groups.len(),
            items.len() == i,
            forall|j: int| 0 <= j < i ==> (#[trigger] items@[j])@ == encoded_group(state.groups@[j]@),
        decreases state.groups.len() - i,
    {
        items.push(encode_group(&state.groups[i]));
        i += 1;
    }
    let list = Node::Array(items);
    assert(list@->Array_0 =~= state@.groups.map_values(|g: GroupView| encoded_group(g)));
    let mut entries: Vec<(String, Node)> = Vec::new();
    entries.push(("version".to_owned(), Node::Integer(state.version as i64)));
    entries.push(("groups".to_owned(), list));
    let r = Node::Table(entries);
    proof {
        reveal_with_fuel(document::node_view, 2);
        assert(r@->Table_0 =~= encoded(state@)->Table_0);
    }
    r
}

proof fn lemma_keys()
    ensures
        document::is_bare_key("name"@),
        document::is_bare_key("collapsed"@),
        document::is_bare_key("sessions"@),
        document::is_bare_key("version"@),
        document::is_bare_key("groups"@),
        "name"@ != "collapsed"@,
        "name"@ != "sessions"@,
        "collapsed"@ != "sessions"@,
        "version"@ != "groups"@,
{
    reveal_strlit("name");
    reveal_strlit("collapsed");
    reveal_strlit("sessions");
    reveal_strlit("version");
    reveal_strlit("groups");
    assert("name"@.len() == 4 && "collapsed"@.len() == 9 && "sessions"@.len() == 8);
    assert("version"@.len() == 7 && "groups"@.len() == 6);
}

proof fn lemma_group_document(g: GroupView)
    requires
        document::quotes_fit(g.name),
        forall|j: int| 0 <= j < g.sessions.len() ==> document::quotes_fit(#[trigger] g.sessions[j]),
    ensures
        document::is_record(encoded_group(g)),
        document::texts_fit(encoded_group(g)),
{
    lemma_keys();
    reveal_with_fuel(document::texts_fit, 3);
    let entries = encoded_group(g)->Table_0;
    let items = entries[2].1->Array_0;
    assert forall|j: int| 0 <= j < items.len() implies document::texts_fit(#[trigger] items[j]) by {
        assert(document::quotes_fit(g.sessions[j]));
    }
    assert forall|i: int| 0 <= i < entries.len() implies document::texts_fit((#[trigger] entries[i]).1) by {}
}

proof fn lemma_state_document(state: StateView)
    requires
        writable(state),
    ensures
        document::is_record_file(encoded(state)),
        document::texts_fit(encoded(state)),
{
    lemma_keys();
    reveal_with_fuel(document::texts_fit, 2);
    let entries = encoded(state)->Table_0;
    let items = entries[1].1->Array_0;
    assert forall|j: int| 0 <= j < items.len() implies document::is_record(#[trigger] items[j])
        && document::texts_fit(items[j]) by {
        assert(document::quotes_fit(state.groups[j].name));
        lemma_group_document(state.groups[j]);
    }
    assert(document::texts_fit(entries[1].1));
    assert forall|i: int| 0 <= i < entries.len() implies document::texts_fit((#[trigger] entries[i]).1) by {}
}

proof fn lemma_group_decodes(g: GroupView)
    ensures
        decoded_group(encoded_group(g)) == Ok::<GroupView, Seq<char>>(g),
{
    lemma_keys();
    reveal_with_fuel(entry_from, 4);
    let entries = encoded_group(g)->Table_0;
    let items = entries[2].1->Array_0;
    assert(entry_from(entries, "name"@, 0) == Some(entries[0].1));
    assert(entry_from(entries, "collapsed"@, 0) == Some(entries[1].1));
    assert(entry_from(entries, "sessions"@, 0) == Some(entries[2].1));
    assert(texts_of(items) =~= g.sessions);
}

proof fn lemma_groups_decode(groups: Seq<GroupView>, i: int)
    requires
        0 <= i <= groups.len(),
    ensures
        decoded_groups(groups.map_values(|g: GroupView| encoded_group(g)), i) == Ok::<
            Seq<GroupView>,
            Seq<char>,
        >(groups.skip(i)),
    decreases groups.len() - i,
{
    if i < groups.len() {
        lemma_group_decodes(groups[i]);
        lemma_groups_decode(groups, i + 1);
        assert(seq![groups[i]] + groups.skip(i + 1) =~= groups.skip(i));
    } else {
        assert(groups.skip(i) =~= Seq::empty());
    }
}

/// A state comes out of its document as it went in.
pub proof fn document_holds_state(state: StateView)
    ensures
        decoded(encoded(state)) == Ok::<StateView, Seq<char>>(state),
{
    lemma_keys();
    reveal_with_fuel(entry_from, 3);
    let entries = encoded(state)->Table_0;
    assert(entry_from(entries, "version"@, 0) == Some(entries[0].1));
    assert(entry_from(entries, "groups"@, 0) == Some(entries[1].1));
    lemma_groups_decode(state.groups, 0);
    assert(state.groups.skip(0) =~= state.groups);
}

/// Whether a state is tidy: of the current version, every group's name trimmed,
/// not empty, not reserved and not used twice, and no session listed twice.
pub open spec fn is_tidy(state: StateView) -> bool {
    &&& state.version == CURRENT_VERSION
    &&& forall|i: int|
        0 <= i < state.groups.len() ==> !name_refused(
            state.groups,
            lowered_names(state.groups),
            text::lowercase(UNGROUPED_NAME@),
            i,
        ) && text::trimmed((#[trigger] state.groups[i]).name) == state.groups[i].name
    &&& forall|i: int| 0 <= i < state.groups.len() ==> (#[trigger] state.groups[i]).sessions.no_duplicates()
    &&& forall|i: int, s: Seq<char>|
        0 <= i < state.groups.len() && #[trigger] state.groups[i].sessions.contains(s) ==> !listed_before(
            state.groups,
            i,
        ).contains(s)
}

proof fn lemma_none_refused(groups: Seq<GroupView>, lowered: Seq<Seq<char>>, reserved: Seq<char>, i: int)
    requires
        0 <= i <= groups.len(),
        forall|j: int| 0 <= j < groups.len() ==> !#[trigger] name_refused(groups, lowered, reserved, j),
    ensures
        first_refused(groups, lowered, reserved, i) is None,
    decreases groups.len() - i,
{
    if i < groups.len() {
        lemma_none_refused(groups, lowered, reserved, i + 1);
    }
}

/// Reading what a tidy state's document holds gives the same state back.
pub proof fn tidy_state_is_accepted(state: StateView)
    requires
        is_tidy(state),
    ensures
        accepted(encoded(state)) == Ok::<StateView, Seq<char>>(state),
{
    document_holds_state(state);
    let lowered = lowered_names(state.groups);
    let reserved = text::lowercase(UNGROUPED_NAME@);
    assert forall|j: int| 0 <= j < state.groups.len() implies !#[trigger] name_refused(
        state.groups,
        lowered,
        reserved,
        j,
    ) by {
        assert(text::trimmed(state.groups[j].name) == state.groups[j].name);
    }
    lemma_none_refused(state.groups, lowered, reserved, 0);
    assert forall|i: int| 0 <= i < state.groups.len() implies tidy_group(state.groups, i)
        == #[trigger] state.groups[i] by {
        names::lemma_fresh_keeps(state.groups[i].sessions, listed_before(state.groups, i));
    }
    assert(Seq::new(state.groups.len(), |i: int| tidy_group(state.groups, i)) =~= state.groups);
}

/// Whether no text in the state repeats a quotation mark more often than the file's writer can count.
pub fn is_writable(state: &GroupState) -> (r: bool)
    ensures
        r == writable(state@),
{
    let mut i: usize = 0;
    while i < state.groups.len()
        invariant
            i <= state.groups.len(),
            forall|k: int|
                0 <= k < i ==> document::quotes_fit((#[trigger] state@.groups[k]).name) && forall|j: int|
                    0 <= j < state@.groups[k].sessions.len() ==> document::quotes_fit(
                        #[trigger] state@.groups[k].sessions[j],
                    ),
        decreases state.groups.len() - i,
    {
        assert(state@.groups[i as int] == state.groups@[i as int]@);
        if !document::quotes_are_short(&state.groups[i].name) {
            return false;
        }
        let mut j: usize = 0;
        while j < state.groups[i].sessions.len()
            invariant
                i < state.groups.len(),
                j <= state.groups@[i as int].sessions.len(),
                state@.groups[i as int] == state.groups@[i as int]@,
                forall|k: int|
                    0 <= k < j ==> document::quotes_fit(#[trigger] state@.groups[i as int].sessions[k]),
            decreases state.groups@[i as int].sessions.len() - j,
        {
            assert(state@.groups[i as int].sessions[j as int] == state.groups@[i as int].sessions@[j as int]@);
            if !document::quotes_are_short(&state.groups[i].sessions[j]) {
                return false;
            }
            j += 1;
        }
        i += 1;
    }
    true
}

impl GroupState {
    /// The state that a parsed document stands for.
    pub fn from_document(document: &Node) -> (r: Result<GroupState, String>)
        ensures
            is_state_result(r, accepted(document@)),
            decoded(document@) matches Ok(state) ==> (state.version == CURRENT_VERSION && names_are_ascii(
                state.groups,
            ) ==> is_state_result(r, ascii_normalized(state))),
            r matches Ok(s) ==> file_names_are_sound(s@.groups),
            r matches Ok(s) ==> (names_are_ascii(s@.groups) ==> groups::names_are_sound(s@.groups)),
    {
        let state = match decode(document) {
            Err(why) => {
                return Err(why);
            },
            Ok(state) => state,
        };
        if state.version != CURRENT_VERSION {
            let mut why = "unsupported group file version: ".to_owned();
            why.append(&text::decimal(state.version as u64));
            return Err(why);
        }
        let lowered = lower_names(&state.groups);
        let reserved = text::to_lowercase(UNGROUPED_NAME);
        proof {
            reveal_strlit("Ungrouped");
            assert(text::is_ascii_text(UNGROUPED_NAME@));
            assert(lowered.len() == text::views(lowered@).len());
        }
        let ghost raw = state@;
        let ghost keys = text::views(lowered@);
        proof {
            assert forall|i: int|
                0 <= i < raw.groups.len() && text::is_ascii_text(
                    text::trimmed((#[trigger] raw.groups[i]).name),
                ) implies keys[i] == text::ascii_folded(text::trimmed(raw.groups[i].name)) by {
                assert(raw.groups[i] == state.groups@[i]@);
                assert(keys[i] == lowered@[i]@);
            }
        }
        let r = normalize(state, &lowered, &reserved);
        proof {
            if r is Ok {
                let made = r->Ok_0@;
                lemma_file_names(raw, keys, made);
                if names_are_ascii(made.groups) {
                    ascii_file_names_are_sound(made.groups);
                }
            }
        }
        r
    }

    /// The state that the text of a group file stands for. A blank file holds no groups.
    ///
    /// What is wrong with a text that is no TOML is said in the words of the `toml`
    /// crate, and what is wrong with the shape of one that is, in words of this
    /// module. A field that no group has is passed over, if the `toml` crate can read it.
    pub fn from_toml(contents: &str) -> (r: Result<GroupState, String>)
        ensures
            is_state_result(r, loaded(contents@)),
            r matches Ok(s) ==> file_names_are_sound(s@.groups),
            r matches Ok(s) ==> (names_are_ascii(s@.groups) ==> groups::names_are_sound(s@.groups)),
    {
        if text::trim(contents).as_str().is_empty() {
            return Ok(GroupState::default());
        }
        match document::parse_toml(contents) {
            Err(why) => Err(why),
            Ok(document) => GroupState::from_document(&document),
        }
    }

    /// The text of the file that keeps the state. Reading it gives back what its
    /// document stands for, so a tidy state comes back as it was. Where there
    /// are groups it has a `[[groups]]` header.
    pub fn to_toml(&self) -> (r: Result<String, String>)
        requires
            writable(self@),
        ensures
            r matches Ok(contents) && {
                &&& contents@ == document::toml_text(encoded(self@))
                &&& loaded(contents@) == accepted(encoded(self@))
                &&& is_tidy(self@) ==> loaded(contents@) == Ok::<StateView, Seq<char>>(self@)
                &&& self@.groups.len() > 0 ==> text::occurs_in("[[groups]]"@, contents@)
            },
    {
        proof {
            lemma_state_document(self@);
            reveal_strlit("[[");
            reveal_strlit("groups");
            reveal_strlit("]]");
            reveal_strlit("[[groups]]");
            assert("[["@ + "groups"@ + "]]"@ =~= "[[groups]]"@);
            if is_tidy(self@) {
                tidy_state_is_accepted(self@);
            }
        }
        document::print_toml(&encode(self))
    }

    /// The state that a group file holds, from what came of reading it.
    pub fn load(read: FileRead) -> (r: Result<GroupState, String>)
        ensures
            is_state_result(r, state_from(read)),
            r matches Ok(s) ==> file_names_are_sound(s@.groups),
            r matches Ok(s) ==> (names_are_ascii(s@.groups) ==> groups::names_are_sound(s@.groups)),
    {
        match read {
            FileRead::Contents(contents) => GroupState::from_toml(&contents),
            FileRead::Missing => Ok(GroupState::default()),
            FileRead::Failed(why) => Err(why),
        }
    }

    /// What is to be written to the group file. Loading it gives a tidy state back
    /// as it was. A state that the file's writer cannot write is an error.
    pub fn save(&self) -> (r: Result<String, String>)
        ensures
            match r {
                Ok(contents) => {
                    &&& writable(self@)
                    &&& contents@ == document::toml_text(encoded(self@))
                    &&& state_from(FileRead::Contents(contents)) == accepted(encoded(self@))
                    &&& is_tidy(self@) ==> state_from(FileRead::Contents(contents)) == Ok::<StateView, Seq<char>>(
                        self@,
                    )
                    &&& self@.groups.len() > 0 ==> text::occurs_in("[[groups]]"@, contents@)
                },
                Err(why) => !writable(self@) && why@ == "a name repeats a quotation mark too often"@,
            },
    {
        if !is_writable(self) {
            return Err("a name repeats a quotation mark too often".to_owned());
        }
        self.to_toml()
    }
}

pub(crate) proof fn lemma_first_refused(
    groups: Seq<GroupView>,
    lowered: Seq<Seq<char>>,
    reserved: Seq<char>,
    i: int,
    j: int,
)
    requires
        0 <= i <= j < groups.len(),
        first_refused(groups, lowered, reserved, i) is None,
    ensures
        !name_refused(groups, lowered, reserved, j),
    decreases j - i,
{
    if i < j {
        lemma_first_refused(groups, lowered, reserved, i + 1, j);
    }
}

proof fn lemma_folded_ascii(a: Seq<char>, b: Seq<char>)
    requires
        text::ascii_folded(a) == text::ascii_folded(b),
        text::is_ascii_text(a),
    ensures
        text::is_ascii_text(b),
{
    assert(a.len() == text::ascii_folded(a).len() && b.len() == text::ascii_folded(b).len());
    assert forall|i: int| 0 <= i < b.len() implies (#[trigger] b[i] as u32) < 128 by {
        assert(text::ascii_folded(a)[i] == text::ascii_lower(a[i]));
        assert(text::ascii_folded(b)[i] == text::ascii_lower(b[i]));
        assert((a[i] as u32) < 128);
    }
}

/// Names that were not refused are as a group file can have them, where ASCII
/// names were compared with their letters in lowercase.
proof fn lemma_file_names(raw: StateView, keys: Seq<Seq<char>>, state: StateView)
    requires
        keys.len() == raw.groups.len(),
        normalized_by(raw, keys, text::ascii_folded(UNGROUPED_NAME@)) == Ok::<StateView, Seq<char>>(state),
        forall|i: int|
            0 <= i < raw.groups.len() && text::is_ascii_text(text::trimmed((#[trigger] raw.groups[i]).name))
                ==> keys[i] == text::ascii_folded(text::trimmed(raw.groups[i].name)),
    ensures
        file_names_are_sound(state.groups),
{
    let old = raw.groups;
    let new = state.groups;
    let reserved = text::ascii_folded(UNGROUPED_NAME@);
    reveal_strlit("Ungrouped");
    assert(text::is_ascii_text(UNGROUPED_NAME@));
    assert forall|i: int| 0 <= i < new.len() implies (#[trigger] new[i]).name.len() > 0 && text::trimmed(new[i].name)
        == new[i].name && text::ascii_folded(new[i].name) != reserved by {
        assert(new[i] == tidy_group(old, i));
        text::trimming_is_done_once(old[i].name);
        lemma_first_refused(old, keys, reserved, 0, i);
        if text::ascii_folded(new[i].name) == reserved {
            lemma_folded_ascii(UNGROUPED_NAME@, new[i].name);
        }
    }
    assert forall|i: int, j: int|
        0 <= i < j < new.len() && (text::is_ascii_text((#[trigger] new[i]).name) || text::is_ascii_text(
            (#[trigger] new[j]).name,
        )) implies text::ascii_folded(new[i].name) != text::ascii_folded(new[j].name) by {
        assert(new[i] == tidy_group(old, i) && new[j] == tidy_group(old, j));
        lemma_first_refused(old, keys, reserved, 0, j);
        if text::ascii_folded(new[i].name) == text::ascii_folded(new[j].name) {
            if text::is_ascii_text(new[i].name) {
                lemma_folded_ascii(new[i].name, new[j].name);
            } else {
                lemma_folded_ascii(new[j].name, new[i].name);
            }
            assert(keys[i] == keys[j]);
        }
    }
}

/// What a document stands for is tidy, whatever the document holds.
pub proof fn accepted_state_is_tidy(v: NodeView)
    ensures
        accepted(v) matches Ok(state) ==> is_tidy(state),
{
    if let Ok(state) = accepted(v) {
        let raw = decoded(v)->Ok_0;
        let old = raw.groups;
        let new = state.groups;
        assert forall|i: int| 0 <= i < new.len() implies #[trigger] new[i] == tidy_group(old, i) && text::trimmed(
            new[i].name,
        ) == new[i].name && new[i].sessions.no_duplicates() by {
            text::trimming_is_done_once(old[i].name);
            names::lemma_fresh(old[i].sessions, listed_before(old, i));
        }
        let reserved = text::lowercase(UNGROUPED_NAME@);
        assert(lowered_names(new) =~= lowered_names(old)) by {
            assert forall|i: int| 0 <= i < new.len() implies lowered_names(new)[i] == lowered_names(old)[i] by {
                assert(new[i] == tidy_group(old, i));
            }
        }
        assert forall|i: int| 0 <= i < new.len() implies !name_refused(new, lowered_names(new), reserved, i)
            && text::trimmed((#[trigger] new[i]).name) == new[i].name by {
            lemma_first_refused(old, lowered_names(old), reserved, 0, i);
        }
        assert forall|i: int, s: Seq<char>| 0 <= i < new.len() && #[trigger] new[i].sessions.contains(s) implies !listed_before(
            new,
            i,
        ).contains(s) by {
            names::lemma_fresh(old[i].sessions, listed_before(old, i));
            assert(!listed_before(old, i).contains(s));
            if listed_before(new, i).contains(s) {
                let g = choose|g: int| 0 <= g < i && (#[trigger] new[g]).sessions.contains(s);
                names::lemma_fresh(old[g].sessions, listed_before(old, g));
                assert(new[g] == tidy_group(old, g));
                assert(old[g].sessions.contains(s));
            }
        }
    }
}

/// What a group file holds is tidy, whatever its text.
pub proof fn loaded_state_is_tidy(contents: Seq<char>)
    ensures
        loaded(contents) matches Ok(state) ==> is_tidy(state),
{
    if text::trimmed(contents).len() > 0 {
        if let Ok(v) = document::toml_document(contents) {
            accepted_state_is_tidy(v);
        }
    }
}

/// What was read for a group file is tidy, also where there is no file.
pub proof fn read_state_is_tidy(read: FileRead)
    ensures
        state_from(read) matches Ok(state) ==> is_tidy(state),
{
    match read {
        FileRead::Contents(contents) => {
            loaded_state_is_tidy(contents@);
        },
        FileRead::Missing => {
            assert(is_tidy(groups::no_groups()));
        },
        FileRead::Failed(_) => {},
    }
}

/// A tidy state lists no session twice.
pub proof fn tidy_members_are_sound(state: StateView)
    requires
        is_tidy(state),
    ensures
        groups::members_are_sound(state.groups),
{
    let all = state.groups;
    assert forall|i: int, j: int, name: Seq<char>|
        0 <= i < all.len() && 0 <= j < all.len() && #[trigger] all[i].sessions.contains(name)
            && #[trigger] all[j].sessions.contains(name) implies i == j by {
        if i < j {
            assert(!listed_before(all, j).contains(name));
        } else if j < i {
            assert(!listed_before(all, i).contains(name));
        }
    }
}

} // verus!
