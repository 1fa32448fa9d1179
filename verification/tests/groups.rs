use tmux_session_picker::document::Node;
use tmux_session_picker::group_file::{is_writable, normalize, FileRead};
use tmux_session_picker::groups::{Group, GroupState};

fn group(name: &str, collapsed: bool, sessions: &[&str]) -> Group {
    Group {
        name: name.to_string(),
        collapsed,
        sessions: sessions.iter().map(|name| name.to_string()).collect(),
    }
}

#[test]
fn group_state_round_trips_as_toml() {
    let state = GroupState {
        version: 1,
        groups: vec![Group {
            name: "Work".to_string(),
            collapsed: true,
            sessions: vec!["api".to_string(), "database".to_string()],
        }],
    };

    let encoded = state.to_toml().unwrap();
    let decoded = GroupState::from_toml(&encoded).unwrap();

    assert_eq!(decoded, state);
    assert!(encoded.contains("[[groups]]"));
}

#[test]
fn moving_a_session_removes_it_from_other_groups() {
    let mut state = GroupState {
        version: 1,
        groups: vec![
            Group {
                name: "Work".to_string(),
                collapsed: false,
                sessions: vec!["api".to_string()],
            },
            Group {
                name: "Personal".to_string(),
                collapsed: false,
                sessions: Vec::new(),
            },
        ],
    };

    state.move_session("api", Some(1));

    assert!(state.groups[0].sessions.is_empty());
    assert_eq!(state.groups[1].sessions, ["api"]);
}

#[test]
fn moving_a_session_to_ungrouped_forgets_membership() {
    let mut state = GroupState {
        version: 1,
        groups: vec![Group {
            name: "Work".to_string(),
            collapsed: false,
            sessions: vec!["api".to_string(), "stale".to_string()],
        }],
    };

    state.move_session("api", None);

    assert_eq!(state.groups[0].sessions, ["stale"]);
    assert_eq!(state.group_for_session("api"), None);
}

#[test]
fn group_names_are_trimmed_and_unique_case_insensitively() {
    let mut state = GroupState::default();

    assert_eq!(state.add_group(" Work ").unwrap(), 0);
    assert!(state.add_group("work").is_err());
    assert!(state.add_group("Ungrouped").is_err());
    assert!(state.add_group("  ").is_err());
}

#[test]
fn deleting_a_group_keeps_other_groups_and_drops_membership() {
    let mut state = GroupState {
        version: 1,
        groups: vec![
            Group {
                name: "Work".to_string(),
                collapsed: false,
                sessions: vec!["api".to_string()],
            },
            Group {
                name: "Personal".to_string(),
                collapsed: false,
                sessions: vec!["notes".to_string()],
            },
        ],
    };

    state.delete_group(0).unwrap();

    assert_eq!(state.groups.len(), 1);
    assert_eq!(state.groups[0].name, "Personal");
    assert_eq!(state.group_for_session("api"), None);
}

#[test]
fn refused_names_say_why() {
    let mut state = GroupState { version: 1, groups: vec![group("Work", false, &[])] };

    assert_eq!(state.add_group(" \t ").unwrap_err(), "group name cannot be empty");
    assert_eq!(state.add_group("UNGROUPED").unwrap_err(), "Ungrouped is reserved");
    assert_eq!(state.add_group(" wORK").unwrap_err(), "group already exists: wORK");
    assert_eq!(state.groups.len(), 1);
}

#[test]
fn renaming_checks_the_other_groups_only() {
    let mut state = GroupState {
        version: 1,
        groups: vec![group("Work", true, &["api"]), group("Home", false, &[])],
    };

    assert!(state.rename_group(0, " WORK ").is_ok());
    assert_eq!(state.groups[0], group("WORK", true, &["api"]));
    assert_eq!(state.rename_group(0, "home").unwrap_err(), "group already exists: home");
    assert_eq!(state.rename_group(2, "Other").unwrap_err(), "group does not exist");
    assert_eq!(state.delete_group(2).unwrap_err(), "group does not exist");
}

#[test]
fn groups_move_there_and_back() {
    let names = |state: &GroupState| state.groups.iter().map(|g| g.name.clone()).collect::<Vec<_>>();
    let mut state = GroupState {
        version: 1,
        groups: vec![group("a", false, &[]), group("b", false, &[]), group("c", false, &[])],
    };

    assert_eq!(state.move_group(0, 1), Some(1));
    assert_eq!(names(&state), ["b", "a", "c"]);
    assert_eq!(state.move_group(1, -1), Some(0));
    assert_eq!(names(&state), ["a", "b", "c"]);
    assert_eq!(state.move_group(0, -1), None);
    assert_eq!(state.move_group(2, 1), None);
    assert_eq!(state.move_group(3, -1), None);
}

#[test]
fn blank_group_file_holds_no_groups() {
    assert_eq!(GroupState::from_toml(" \n\t\n").unwrap(), GroupState::default());
}

#[test]
fn group_file_has_defaults() {
    let state = GroupState::from_toml("[[groups]]\nname = \" Work \"\nextra = 1.5\n").unwrap();

    assert_eq!(state, GroupState { version: 1, groups: vec![group("Work", false, &[])] });
}

#[test]
fn groups_can_be_written_as_lists() {
    let state = GroupState::from_toml("groups = [[\"Work\", true, [\"api\"]], [\"Home\"]]\n").unwrap();

    assert_eq!(
        state,
        GroupState {
            version: 1,
            groups: vec![group("Work", true, &["api"]), group("Home", false, &[])],
        }
    );
}

#[test]
fn group_file_of_another_version_is_refused() {
    assert_eq!(
        GroupState::from_toml("version = 2\n").unwrap_err(),
        "unsupported group file version: 2"
    );
    assert!(GroupState::from_toml("version = 256\n").is_err());
    assert!(GroupState::from_toml("version = \"1\"\n").is_err());
}

#[test]
fn group_file_with_a_bad_name_is_refused() {
    let file = |names: &[&str]| {
        names
            .iter()
            .map(|name| format!("[[groups]]\nname = \"{name}\"\n"))
            .collect::<String>()
    };

    assert_eq!(
        GroupState::from_toml(&file(&["Work", " work "])).unwrap_err(),
        "invalid or duplicate group name: work"
    );
    assert_eq!(
        GroupState::from_toml(&file(&["\u{c9}t\u{e9}", "\u{e9}T\u{c9}"])).unwrap_err(),
        "invalid or duplicate group name: \u{e9}T\u{c9}"
    );
    assert_eq!(
        GroupState::from_toml(&file(&["ungrouped"])).unwrap_err(),
        "invalid or duplicate group name: ungrouped"
    );
    assert_eq!(
        GroupState::from_toml(&file(&["  "])).unwrap_err(),
        "invalid or duplicate group name: "
    );
}

#[test]
fn group_file_of_another_shape_is_refused() {
    assert_eq!(
        GroupState::from_toml("[[groups]]\ncollapsed = true\n").unwrap_err(),
        "missing field `name`"
    );
    assert_eq!(
        GroupState::from_toml("[[groups]]\nname = 1\n").unwrap_err(),
        "invalid `name`, expected a string"
    );
    assert_eq!(
        GroupState::from_toml("[[groups]]\nname = \"a\"\ncollapsed = 1\n").unwrap_err(),
        "invalid `collapsed`, expected a boolean"
    );
    assert_eq!(
        GroupState::from_toml("[[groups]]\nname = \"a\"\nsessions = [1]\n").unwrap_err(),
        "invalid `sessions`, expected a list of strings"
    );
    assert_eq!(
        GroupState::from_toml("groups = 1\n").unwrap_err(),
        "invalid `groups`, expected a list"
    );
    assert_eq!(
        GroupState::from_toml("groups = [1]\n").unwrap_err(),
        "invalid group, expected a table"
    );
    assert!(GroupState::from_toml("groups = [").is_err());
}

#[test]
fn sessions_are_loaded_into_their_first_group_only() {
    let state = GroupState::from_toml(
        "[[groups]]\nname = \"a\"\nsessions = [\"x\", \"y\", \"x\"]\n[[groups]]\nname = \"b\"\nsessions = [\"y\", \"z\"]\n",
    )
    .unwrap();

    assert_eq!(
        state.groups,
        vec![group("a", false, &["x", "y"]), group("b", false, &["z"])]
    );
}

#[test]
fn documents_are_read_without_their_text() {
    let text = |s: &str| Node::Text(s.to_string());
    let work = Node::Table(vec![
        ("name".to_string(), text("Work")),
        ("sessions".to_string(), Node::Array(vec![text("api")])),
    ]);
    let document = Node::Table(vec![
        ("version".to_string(), Node::Integer(1)),
        ("groups".to_string(), Node::Array(vec![work])),
    ]);

    assert_eq!(
        GroupState::from_document(&document).unwrap(),
        GroupState { version: 1, groups: vec![group("Work", false, &["api"])] }
    );
    assert_eq!(
        GroupState::from_document(&Node::Other(toml::Value::Float(1.5))).unwrap_err(),
        "invalid document, expected a table"
    );
}

#[test]
fn unusual_names_round_trip() {
    let state = GroupState {
        version: 1,
        groups: vec![
            group("quotes ' \" '' \"\"\" '''", true, &["a\\b", "tab\there", "line\nbreak", ""]),
            group("\u{fc}n\u{ef}c\u{f6}d\u{e9} \u{1f600}", false, &["\u{1}\u{7f}", "[x]", "#"]),
            group("empty", false, &[]),
        ],
    };

    assert!(is_writable(&state));
    assert_eq!(GroupState::from_toml(&state.to_toml().unwrap()).unwrap(), state);
}

#[test]
fn long_runs_of_quotes_are_not_writable() {
    let many = "'".repeat(256);

    assert!(!is_writable(&GroupState { version: 1, groups: vec![group(&many, false, &[])] }));
    assert!(!is_writable(&GroupState {
        version: 1,
        groups: vec![group("a", false, &["ok", &"\"".repeat(300)])],
    }));
    let state = GroupState {
        version: 1,
        groups: vec![group(&format!("{}x\"", "\"".repeat(255)), false, &[&many[1..]])],
    };
    assert!(is_writable(&state));
    assert_eq!(GroupState::from_toml(&state.to_toml().unwrap()).unwrap(), state);
}

#[test]
fn unwritable_groups_are_not_saved() {
    let many = "\"".repeat(256);
    let state = GroupState { version: 1, groups: vec![group(&many, false, &[])] };

    assert_eq!(state.save().unwrap_err(), "a name repeats a quotation mark too often");
    let state = GroupState { version: 1, groups: vec![group("a", false, &[&many])] };
    assert_eq!(state.save().unwrap_err(), "a name repeats a quotation mark too often");
}

#[test]
fn saved_groups_load_again() {
    let state = GroupState {
        version: 1,
        groups: vec![group("Work", true, &["api", "database"]), group("Personal", false, &[])],
    };

    let contents = state.save().unwrap();
    assert_eq!(contents, state.to_toml().unwrap());
    assert_eq!(contents.matches("[[groups]]").count(), 2);
    assert_eq!(GroupState::load(FileRead::Contents(contents)).unwrap(), state);
}

#[test]
fn group_file_is_loaded_as_it_was_read() {
    assert_eq!(GroupState::load(FileRead::Missing).unwrap(), GroupState::default());
    assert_eq!(
        GroupState::load(FileRead::Failed("permission denied".to_string())).unwrap_err(),
        "permission denied"
    );
    assert!(GroupState::load(FileRead::Contents("version = ".to_string())).is_err());
    assert_eq!(
        GroupState::load(FileRead::Contents("version = 2\n".to_string())).unwrap_err(),
        GroupState::from_toml("version = 2\n").unwrap_err()
    );
    assert_eq!(
        GroupState::load(FileRead::Contents("\n".to_string())).unwrap(),
        GroupState::default()
    );
}

#[test]
fn unknown_fields_are_passed_over() {
    let state = GroupState::from_toml(
        "version = 1\nsince = 2024-05-06\n\n[[groups]]\nname = \"Work\"\nweight = 1.5\n",
    )
    .unwrap();

    assert_eq!(state, GroupState { version: 1, groups: vec![group("Work", false, &[])] });
}

#[test]
fn group_file_text_is_plain() {
    let state = GroupState { version: 1, groups: vec![group("Work", true, &["api"])] };

    assert_eq!(
        state.to_toml().unwrap(),
        "version = 1\n\n[[groups]]\nname = \"Work\"\ncollapsed = true\nsessions = [\"api\"]\n"
    );
}

#[test]
fn names_are_compared_by_what_is_given_for_them() {
    let state = || GroupState {
        version: 1,
        groups: vec![group(" A ", false, &["x"]), group("B", true, &["x", "y"])],
    };
    let keys = |keys: &[&str]| keys.iter().map(|key| key.to_string()).collect::<Vec<_>>();

    assert_eq!(
        normalize(state(), &keys(&["1", "2"]), "3").unwrap().groups,
        vec![group("A", false, &["x"]), group("B", true, &["y"])]
    );
    assert_eq!(
        normalize(state(), &keys(&["1", "1"]), "3").unwrap_err(),
        "invalid or duplicate group name: B"
    );
    assert_eq!(
        normalize(state(), &keys(&["3", "2"]), "3").unwrap_err(),
        "invalid or duplicate group name: A"
    );
}

#[test]
fn clones_are_equal() {
    let state = GroupState { version: 1, groups: vec![group("Work", true, &["api", "db"])] };

    assert_eq!(state.clone(), state);
}

#[test]
fn all_short_names_round_trip() {
    let letters = ['a', '\'', '"', '\\', '\n', '\r', '\t', ' ', '\u{0}', '\u{e9}', '#', '\u{7f}'];
    let mut sessions = vec![String::new()];
    let mut longest = sessions.clone();
    for _ in 0..3 {
        longest = longest
            .iter()
            .flat_map(|start| letters.iter().map(move |letter| format!("{start}{letter}")))
            .collect();
        sessions.extend(longest.iter().cloned());
    }
    let state = GroupState {
        version: 1,
        groups: vec![Group { name: "All".to_string(), collapsed: false, sessions }],
    };

    assert_eq!(GroupState::from_toml(&state.to_toml().unwrap()).unwrap(), state);
}

#[test]
fn no_groups_round_trip() {
    let none = GroupState::default();

    assert_eq!(GroupState::from_toml(&none.to_toml().unwrap()).unwrap(), none);
}
