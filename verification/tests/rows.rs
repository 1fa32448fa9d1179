use tmux_session_picker::groups::{Group, GroupState};
use tmux_session_picker::marks::{
    bulk_pin_target_state, prune_selected_sessions, selected_count_for_group,
    toggle_selection_for_group, toggle_selection_for_rows, toggle_selection_for_session,
};
use tmux_session_picker::names::NameSet;
use tmux_session_picker::rows::{
    build_rows, build_visible_rows, find_hits, first_session_row_position, list_rows,
    session_indices_for_group, session_name_matches, Hits, RowRules, VisibleRow,
};
use tmux_session_picker::sessions::Session;

fn session(name: &str, last_activity: u64, pinned: bool) -> Session {
    Session {
        name: name.to_string(),
        last_activity,
        pinned,
        is_current: false,
    }
}

fn set(names: &[&str]) -> NameSet {
    let mut all = NameSet::new();
    for name in names {
        all.insert(name.to_string());
    }
    all
}

fn assert_set(actual: &NameSet, expected: &[&str]) {
    assert_eq!(actual.len(), expected.len());
    for name in expected {
        assert!(actual.contains(name), "missing {name}");
    }
}

#[test]
fn session_name_search_is_case_insensitive() {
    assert!(session_name_matches("Guide-Helper", "helper"));
    assert!(session_name_matches("Guide-Helper", "GUIDE"));
    assert!(!session_name_matches("Guide-Helper", "dashboard"));
}

#[test]
fn search_goes_by_unicode_lowercase() {
    assert!(session_name_matches("\u{c4}pfel", "\u{e4}PF"));
    assert!(session_name_matches("anything", ""));
    assert!(session_name_matches("", ""));
    assert!(!session_name_matches("", "a"));
}

#[test]
fn visible_rows_include_group_headers_and_ungrouped_sessions() {
    let sessions = vec![
        session("api", 0, false),
        session("notes", 0, false),
        session("scratch", 0, false),
    ];
    let groups = GroupState {
        version: 1,
        groups: vec![
            Group {
                name: "Work".to_string(),
                collapsed: false,
                sessions: vec!["api".to_string()],
            },
            Group {
                name: "Personal".to_string(),
                collapsed: false,
                sessions: vec!["notes".to_string()],
            },
        ],
    };

    assert_eq!(
        build_visible_rows(&sessions, &groups, "", false),
        vec![
            VisibleRow::Group(0),
            VisibleRow::Session(0),
            VisibleRow::Group(1),
            VisibleRow::Session(1),
            VisibleRow::Group(2),
            VisibleRow::Session(2),
        ]
    );
}

#[test]
fn collapsed_groups_hide_sessions_but_search_reveals_matches() {
    let sessions = vec![session("api", 0, false), session("database", 0, false)];
    let groups = GroupState {
        version: 1,
        groups: vec![Group {
            name: "Work".to_string(),
            collapsed: true,
            sessions: vec!["api".to_string(), "database".to_string()],
        }],
    };

    assert_eq!(
        build_visible_rows(&sessions, &groups, "", false),
        vec![VisibleRow::Group(0), VisibleRow::Group(1)]
    );
    assert_eq!(
        build_visible_rows(&sessions, &groups, "data", false),
        vec![VisibleRow::Group(0), VisibleRow::Session(1)]
    );
    assert!(groups.groups[0].collapsed);
}

#[test]
fn matching_a_group_name_reveals_all_of_its_sessions() {
    let sessions = vec![session("api", 0, false), session("database", 0, false)];
    let groups = GroupState {
        version: 1,
        groups: vec![Group {
            name: "Work".to_string(),
            collapsed: true,
            sessions: vec!["api".to_string(), "database".to_string()],
        }],
    };

    assert_eq!(
        build_visible_rows(&sessions, &groups, "work", false),
        vec![
            VisibleRow::Group(0),
            VisibleRow::Session(0),
            VisibleRow::Session(1),
        ]
    );
}

#[test]
fn searching_hides_the_empty_ungrouped_header() {
    let sessions = vec![session("api", 0, false)];
    let groups = GroupState {
        version: 1,
        groups: vec![Group {
            name: "Work".to_string(),
            collapsed: false,
            sessions: vec!["api".to_string()],
        }],
    };

    assert!(build_visible_rows(&sessions, &groups, "ungrouped", false).is_empty());
    assert_eq!(
        build_visible_rows(&sessions, &groups, "", false),
        vec![VisibleRow::Group(0), VisibleRow::Session(0), VisibleRow::Group(1)]
    );
    let sessions = vec![session("api", 0, false), session("notes", 0, false)];
    assert_eq!(
        build_visible_rows(&sessions, &groups, "ungrouped", true),
        vec![VisibleRow::Group(1), VisibleRow::Session(1)]
    );
}

#[test]
fn rules_hide_what_is_not_pinned_and_what_is_empty() {
    let sessions = vec![
        session("api", 0, true),
        session("database", 0, false),
        session("notes", 0, false),
        session("scratch", 0, true),
    ];
    let group = |name: &str, sessions: &[&str]| Group {
        name: name.to_string(),
        collapsed: false,
        sessions: sessions.iter().map(|name| name.to_string()).collect(),
    };
    let groups = GroupState {
        version: 1,
        groups: vec![
            group("Work", &["api", "database"]),
            group("Personal", &["notes"]),
            group("Nothing", &[]),
        ],
    };
    let pinned = RowRules { pinned_only: true, hide_empty_groups: true, hide_empty_ungrouped: true };
    let all = RowRules { pinned_only: false, hide_empty_groups: false, hide_empty_ungrouped: true };

    assert_eq!(
        build_rows(&sessions, &groups, "", false, pinned),
        vec![
            VisibleRow::Group(0),
            VisibleRow::Session(0),
            VisibleRow::Group(3),
            VisibleRow::Session(3),
        ]
    );
    assert_eq!(
        build_rows(&sessions[..3].to_vec(), &groups, "", false, all),
        vec![
            VisibleRow::Group(0),
            VisibleRow::Session(0),
            VisibleRow::Session(1),
            VisibleRow::Group(1),
            VisibleRow::Session(2),
            VisibleRow::Group(2),
        ]
    );
    assert!(build_rows(&sessions[..3].to_vec(), &groups, "ungrouped", false, all).is_empty());
}

#[test]
fn search_selection_skips_group_headers() {
    let rows = vec![
        VisibleRow::Group(0),
        VisibleRow::Session(3),
        VisibleRow::Session(4),
    ];

    assert_eq!(first_session_row_position(&rows), 1);
    assert_eq!(first_session_row_position(&vec![VisibleRow::Group(0)]), 0);
    assert_eq!(first_session_row_position(&vec![]), 0);
}

#[test]
fn group_selection_counts_live_sessions_only() {
    let sessions = vec![
        session("api", 0, false),
        session("database", 0, false),
        session("scratch", 0, false),
    ];
    let groups = GroupState {
        version: 1,
        groups: vec![Group {
            name: "Work".to_string(),
            collapsed: true,
            sessions: vec![
                "api".to_string(),
                "database".to_string(),
                "stale".to_string(),
            ],
        }],
    };
    let selected = set(&["api", "stale"]);

    assert_eq!(
        selected_count_for_group(&sessions, &groups, &selected, 0),
        (1, 2)
    );
    assert_eq!(
        selected_count_for_group(&sessions, &groups, &selected, 1),
        (0, 1)
    );
    assert_eq!(session_indices_for_group(&sessions, &groups, 0), [0, 1]);
    assert_eq!(session_indices_for_group(&sessions, &groups, 1), [2]);
}

#[test]
fn toggling_group_selects_all_then_clears_all_live_members() {
    let sessions = vec![
        session("api", 0, false),
        session("database", 0, false),
        session("scratch", 0, false),
    ];
    let groups = GroupState {
        version: 1,
        groups: vec![Group {
            name: "Work".to_string(),
            collapsed: false,
            sessions: vec!["api".to_string(), "database".to_string()],
        }],
    };
    let mut selected = set(&["api"]);

    toggle_selection_for_group(&mut selected, &sessions, &groups, 0);
    assert_set(&selected, &["api", "database"]);

    toggle_selection_for_group(&mut selected, &sessions, &groups, 0);
    assert!(selected.is_empty());
}

#[test]
fn toggling_visible_sessions_respects_search_results() {
    let sessions = vec![
        session("api", 0, false),
        session("database", 0, false),
        session("scratch", 0, false),
    ];
    let groups = GroupState::default();
    let rows = build_visible_rows(&sessions, &groups, "a", false);
    let mut selected = NameSet::new();

    toggle_selection_for_rows(&mut selected, &sessions, &rows);

    assert_set(&selected, &["api", "database", "scratch"]);
}

#[test]
fn toggling_a_session_twice_changes_nothing() {
    let mut selected = set(&["api"]);

    toggle_selection_for_session(&mut selected, "db");
    assert_set(&selected, &["api", "db"]);
    toggle_selection_for_session(&mut selected, "db");
    assert_set(&selected, &["api"]);
    toggle_selection_for_session(&mut selected, "api");
    assert!(selected.is_empty());
}

#[test]
fn stale_selected_sessions_are_pruned_after_reload() {
    let sessions = vec![session("api", 0, false), session("database", 0, false)];
    let mut selected = set(&["api", "gone"]);

    prune_selected_sessions(&mut selected, &sessions);

    assert_set(&selected, &["api"]);
}

#[test]
fn bulk_pin_pins_when_any_selected_session_is_unpinned() {
    let sessions = vec![
        session("api", 0, true),
        session("database", 0, false),
        session("scratch", 0, false),
    ];

    assert!(bulk_pin_target_state(&sessions, &set(&["api", "database"])));
    assert!(!bulk_pin_target_state(&sessions, &set(&["api"])));
}

#[test]
fn hits_decide_what_is_listed() {
    let sessions = vec![session("api", 0, false), session("web", 0, true), session("x", 0, false)];
    let groups = GroupState {
        version: 1,
        groups: vec![Group {
            name: "Work".to_string(),
            collapsed: true,
            sessions: vec!["api".to_string(), "web".to_string()],
        }],
    };
    let rules = RowRules { pinned_only: false, hide_empty_groups: false, hide_empty_ungrouped: false };
    let found = find_hits(&sessions, &groups, "W");
    assert!(found.searching);
    assert_eq!(found.titles, [true, false]);
    assert_eq!(found.sessions, [false, true, false]);

    assert_eq!(
        list_rows(&sessions, &groups, &found, false, rules),
        vec![VisibleRow::Group(0), VisibleRow::Session(0), VisibleRow::Session(1)]
    );
    let hits = Hits { searching: true, titles: vec![false, false], sessions: vec![false, false, true] };
    assert_eq!(
        list_rows(&sessions, &groups, &hits, false, rules),
        vec![VisibleRow::Group(1), VisibleRow::Session(2)]
    );
}

#[test]
fn name_sets_hold_each_name_once() {
    let mut all = NameSet::of(&vec!["a".to_string(), "b".to_string(), "a".to_string()]);
    assert_set(&all, &["a", "b"]);
    all.insert("b".to_string());
    assert!(all.remove("a"));
    assert!(!all.remove("a"));
    assert_set(&all, &["b"]);
    all.clear();
    assert!(all.is_empty());
}
