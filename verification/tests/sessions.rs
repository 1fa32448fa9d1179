use tmux_session_picker::sessions::{
    arrange_sessions, load_sessions, parse_pinned_names, parse_sessions, pin_file_contents,
    pinned_names_from_sessions, Session,
};

fn session(name: &str, last_activity: u64, pinned: bool) -> Session {
    Session {
        name: name.to_string(),
        last_activity,
        pinned,
        is_current: false,
    }
}

fn strings(names: &[&str]) -> Vec<String> {
    names.iter().map(|name| name.to_string()).collect()
}

fn names(sessions: &[Session]) -> Vec<&str> {
    sessions.iter().map(|session| session.name.as_str()).collect()
}

#[test]
fn arrange_sessions_keeps_pinned_first_and_sorts_unpinned_by_activity() {
    let mut sessions = vec![
        session("pin-a", 5, true),
        session("old", 10, false),
        session("new", 100, false),
        session("pin-b", 50, true),
        session("mid", 50, false),
    ];
    let pinned_names = vec!["pin-b".to_string(), "pin-a".to_string()];
    arrange_sessions(&mut sessions, &pinned_names);

    let names = sessions
        .iter()
        .map(|session| session.name.as_str())
        .collect::<Vec<_>>();
    assert_eq!(names, vec!["pin-b", "pin-a", "new", "mid", "old"]);
}

#[test]
fn pinned_names_follow_current_pinned_order() {
    let sessions = vec![
        session("pin-a", 0, true),
        session("pin-b", 0, true),
        session("free", 0, false),
    ];
    assert_eq!(
        pinned_names_from_sessions(&sessions),
        vec!["pin-a".to_string(), "pin-b".to_string()]
    );
}

#[test]
fn write_pinned_names_creates_plain_line_file() {
    let pins = vec!["config".to_string(), "dashboard".to_string()];
    assert_eq!(pin_file_contents(&pins), "config\ndashboard\n");
}

#[test]
fn pins_without_a_place_come_after_the_others() {
    let mut sessions = vec![
        session("z", 1, true),
        session("b", 7, false),
        session("a", 7, false),
        session("y", 2, true),
        session("ab", 7, false),
    ];
    arrange_sessions(&mut sessions, &strings(&["gone", "y", "b"]));
    assert_eq!(names(&sessions), ["y", "z", "a", "ab", "b"]);

    let again = pinned_names_from_sessions(&sessions);
    arrange_sessions(&mut sessions, &again);
    assert_eq!(names(&sessions), ["y", "z", "a", "ab", "b"]);
}

#[test]
fn arranging_twice_by_any_names_changes_nothing() {
    for order in [&["y", "gone", "x"][..], &["x", "x", "b"], &[], &["z", "y", "x"]] {
        let mut sessions = vec![
            session("x", 1, true),
            session("a", 3, false),
            session("y", 2, true),
            session("z", 9, true),
            session("b", 8, false),
        ];
        arrange_sessions(&mut sessions, &strings(order));
        let once = sessions.clone();
        arrange_sessions(&mut sessions, &strings(order));
        assert_eq!(sessions, once);
    }
}

#[test]
fn named_pins_come_in_the_order_of_their_names() {
    let mut sessions = vec![
        session("x", 1, true),
        session("a", 3, false),
        session("y", 2, true),
        session("z", 9, true),
    ];
    arrange_sessions(&mut sessions, &strings(&["z", "a", "x"]));
    assert_eq!(pinned_names_from_sessions(&sessions), ["z", "x", "y"]);
    assert_eq!(names(&sessions), ["z", "x", "y", "a"]);
}

#[test]
fn pin_file_gives_back_what_was_written() {
    let pins = strings(&["b", "a b", "\u{e4}"]);
    assert_eq!(parse_pinned_names(&pin_file_contents(&pins)), pins);
    assert_eq!(pin_file_contents(&Vec::new()), "\n");
    assert!(parse_pinned_names("\n").is_empty());
}

#[test]
fn pin_file_lines_are_cleaned() {
    assert_eq!(
        parse_pinned_names("b\n\na\r\nb\nc"),
        strings(&["b", "a", "c"])
    );
    assert!(parse_pinned_names("").is_empty());
}

#[test]
fn listing_is_parsed_line_by_line() {
    let sessions = parse_sessions("one\t12\n\t5\ntwo\t+7\textra\nthree\n", "two", &strings(&["three"])).unwrap();

    assert_eq!(
        sessions,
        vec![
            session("one", 12, false),
            Session { is_current: true, ..session("two", 7, false) },
            session("three", 0, true),
        ]
    );
}

#[test]
fn bad_activity_says_why() {
    let error = |raw: &str| parse_sessions(raw, "", &Vec::new()).unwrap_err();

    assert_eq!(error("a\t"), "invalid last activity for a: cannot parse integer from empty string");
    assert_eq!(error("a\tx"), "invalid last activity for a: invalid digit found in string");
    assert_eq!(error("a\t-1"), "invalid last activity for a: invalid digit found in string");
    assert_eq!(
        error("a\t18446744073709551616"),
        "invalid last activity for a: number too large to fit in target type"
    );
    assert_eq!(error(""), "no tmux sessions found");
    assert_eq!(error("\n\t3\n"), "no tmux sessions found");
    assert_eq!(
        parse_sessions("a\t18446744073709551615", "", &Vec::new()).unwrap()[0].last_activity,
        u64::MAX
    );
}

#[test]
fn loaded_sessions_are_in_order() {
    let sessions = load_sessions("a\t1\nb\t3\nc\t2\n", " b\n", &strings(&["c"])).unwrap();

    assert_eq!(names(&sessions), ["c", "b", "a"]);
    assert!(sessions[1].is_current);
    assert!(sessions[0].pinned);
    assert!(load_sessions("", "b", &Vec::new()).is_err());
}

#[test]
fn saved_pins_bring_the_order_back() {
    let mut sessions = vec![
        session("z", 1, true),
        session("m", 1, true),
        session("a", 9, false),
        session("b", 2, false),
    ];
    let saved = pin_file_contents(&pinned_names_from_sessions(&sessions));
    sessions.reverse();
    arrange_sessions(&mut sessions, &parse_pinned_names(&saved));

    assert_eq!(names(&sessions), ["z", "m", "a", "b"]);
}
