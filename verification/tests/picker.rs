use tmux_session_picker::effects::Effect;
use tmux_session_picker::group_file::FileRead;
use tmux_session_picker::groups::{Group, GroupState};
use tmux_session_picker::mouse::{InputEvent, MouseEvent};
use tmux_session_picker::names::NameSet;
use tmux_session_picker::picker::{App, Pane};
use tmux_session_picker::prompts::{NameAction, Prompt};
use tmux_session_picker::rows::VisibleRow;
use tmux_session_picker::sessions::{pin_file_contents, pinned_names_from_sessions, Session};

fn session(name: &str, last_activity: u64, pinned: bool) -> Session {
    Session {
        name: name.to_string(),
        last_activity,
        pinned,
        is_current: false,
    }
}

fn group(name: &str, collapsed: bool, sessions: &[&str]) -> Group {
    Group {
        name: name.to_string(),
        collapsed,
        sessions: sessions.iter().map(|name| name.to_string()).collect(),
    }
}

fn app_with_sessions(sessions: Vec<Session>) -> App {
    App {
        sessions,
        groups: GroupState::default(),
        selected_sessions: NameSet::new(),
        focus: Pane::All,
        selected: 0,
        top: 0,
        parked_selected: 0,
        parked_top: 0,
        rows: 24,
        cols: 80,
        status: String::new(),
        query: String::new(),
        searching: false,
        ungrouped_collapsed: false,
        prompt: None,
        last_click: None,
    }
}

fn app_with_groups(sessions: Vec<Session>, groups: Vec<Group>) -> App {
    let mut app = app_with_sessions(sessions);
    app.groups = GroupState { version: 1, groups };
    app
}

fn names(app: &App) -> Vec<&str> {
    app.sessions.iter().map(|session| session.name.as_str()).collect()
}

fn keys(app: &mut App, typed: &[u8]) {
    for key in typed {
        app.handle_key(*key);
    }
}

#[test]
fn show_help_opens_and_pages_shortcut_prompt() {
    let mut app = app_with_sessions(vec![session("api", 0, false)]);

    app.show_help();
    assert!(matches!(app.prompt, Some(Prompt::Help { index: 0 })));

    app.handle_prompt(b'j');
    assert!(matches!(app.prompt, Some(Prompt::Help { index: 1 })));

    app.handle_prompt(0x1b);
    assert!(app.prompt.is_none());
}

#[test]
fn empty_name_prompt_backspace_cancels_like_escape() {
    let mut app = app_with_sessions(vec![session("api", 0, false)]);
    app.begin_create_group();

    app.handle_prompt(0x7f);

    assert!(app.prompt.is_none());
    assert_eq!(app.status, "Cancelled");
}

#[test]
fn non_empty_name_prompt_backspace_deletes_character() {
    let mut app = app_with_sessions(vec![session("api", 0, false)]);
    app.prompt = Some(Prompt::Name {
        label: "NEW GROUP",
        value: "Work".to_string(),
        action: NameAction::Create,
    });

    app.handle_prompt(0x7f);

    assert!(matches!(
        app.prompt,
        Some(Prompt::Name {
            ref value,
            ..
        }) if value == "Wor"
    ));
}

#[test]
fn mouse_wheel_scrolls_visible_rows() {
    let sessions = (1..=20)
        .map(|index| session(&format!("s{index:02}"), 0, false))
        .collect::<Vec<_>>();
    let mut app = app_with_sessions(sessions);
    app.rows = 10;

    let row = app.layout().list_row_start + 1;
    let effect = app.handle_mouse(MouseEvent { button: 65, col: 5, row, pressed: true }, 0);

    assert!(matches!(effect, Effect::Continue));
    assert_eq!(app.top, 3);
    assert_eq!(app.selected, 3);
}

#[test]
fn right_click_pins_session_under_cursor() {
    let mut app = app_with_sessions(vec![session("api", 0, false)]);
    let layout = app.layout();

    let effect = app.handle_mouse(
        MouseEvent {
            button: 2,
            col: 5,
            row: layout.list_row_start + 1,
            pressed: true,
        },
        0,
    );

    assert!(app
        .sessions
        .iter()
        .any(|session| session.name == "api" && session.pinned));
    assert!(matches!(effect, Effect::SavePins));
    assert_eq!(pin_file_contents(&pinned_names_from_sessions(&app.sessions)), "api\n");
}

#[test]
fn left_drag_reorders_pinned_session_up() {
    let mut app = app_with_sessions(vec![session("api", 0, true), session("database", 0, true)]);
    let layout = app.layout();

    app.handle_mouse(
        MouseEvent {
            button: 0,
            col: 5,
            row: layout.list_row_start + 2,
            pressed: true,
        },
        0,
    );
    let effect = app.handle_mouse(
        MouseEvent {
            button: 32,
            col: 5,
            row: layout.list_row_start + 1,
            pressed: true,
        },
        0,
    );

    let names = app
        .sessions
        .iter()
        .map(|session| session.name.as_str())
        .collect::<Vec<_>>();
    assert_eq!(names, vec!["database", "api"]);
    assert!(matches!(effect, Effect::SavePins));
    assert_eq!(
        pin_file_contents(&pinned_names_from_sessions(&app.sessions)),
        "database\napi\n"
    );
}

#[test]
fn left_click_moves_cursor_to_visible_session() {
    let mut app = app_with_sessions(vec![
        session("api", 0, false),
        session("database", 0, false),
    ]);
    let layout = app.layout();

    let effect = app.handle_mouse(
        MouseEvent {
            button: 0,
            col: 10,
            row: layout.list_row_start + 2,
            pressed: true,
        },
        0,
    );

    assert!(matches!(effect, Effect::Continue));
    assert_eq!(app.selected_row(), Some(VisibleRow::Session(1)));
}

#[test]
fn checkbox_click_toggles_session_in_selection_mode() {
    let mut app = app_with_sessions(vec![session("api", 0, false)]);
    app.selected_sessions.insert("api".to_string());
    let layout = app.layout();

    app.handle_mouse(
        MouseEvent {
            button: 0,
            col: layout.table_col + 2,
            row: layout.list_row_start + 1,
            pressed: true,
        },
        0,
    );

    assert!(app.selected_sessions.is_empty());
}

#[test]
fn double_click_toggles_group() {
    let mut app = app_with_sessions(vec![session("api", 0, false)]);
    let layout = app.layout();
    let click = MouseEvent {
        button: 0,
        col: 4,
        row: layout.list_row_start,
        pressed: true,
    };

    app.handle_mouse(click, 1_000);
    app.handle_mouse(click, 400_001_000);

    assert!(app.ungrouped_collapsed);
}

#[test]
fn slow_clicks_are_no_double_click() {
    let mut app = app_with_sessions(vec![session("api", 0, false)]);
    let row = app.layout().list_row_start;
    let click = MouseEvent { button: 0, col: 4, row, pressed: true };

    app.handle_mouse(click, 1_000);
    app.handle_mouse(click, 400_001_001);
    assert!(!app.ungrouped_collapsed);
    app.handle_mouse(MouseEvent { row: row + 1, ..click }, 400_001_002);
    app.handle_mouse(click, 400_001_003);
    assert!(!app.ungrouped_collapsed);
    app.handle_mouse(click, 0);
    assert!(app.ungrouped_collapsed);
}

#[test]
fn popup_ignores_mouse_clicks() {
    let mut app = app_with_sessions(vec![session("api", 0, false)]);
    app.show_help();
    let layout = app.layout();

    app.handle_mouse(
        MouseEvent {
            button: 0,
            col: 10,
            row: layout.list_row_start + 1,
            pressed: true,
        },
        0,
    );

    assert_eq!(app.selected_row(), Some(VisibleRow::Group(0)));
    assert!(matches!(app.prompt, Some(Prompt::Help { .. })));
}

#[test]
fn picker_starts_on_the_current_session_of_active() {
    let mut sessions = vec![session("a", 0, true), session("b", 0, true), session("c", 0, false)];
    sessions[1].is_current = true;
    let app = App::new(sessions, GroupState::default(), 24, 80);

    assert_eq!(app.focus, Pane::Active);
    assert_eq!(app.selected_row(), Some(VisibleRow::Session(1)));
    assert_eq!(app.rows_in(Pane::Active).len(), 3);
    assert_eq!(app.rows_in(Pane::All).len(), 4);
    assert_eq!(app.parked_selected, 2);
}

#[test]
fn picker_starts_with_the_groups_that_were_read() {
    let sessions = vec![session("a", 0, true), session("b", 5, false)];
    let contents = "[[groups]]\nname = \" Work \"\nsessions = [\"b\", \"b\"]\n";

    let app = App::start(sessions.clone(), FileRead::Contents(contents.to_string()), 24, 80)
        .ok()
        .unwrap();
    assert_eq!(app.groups.groups, vec![group("Work", false, &["b"])]);
    assert_eq!(app.sessions, sessions);
    assert_eq!((app.focus, app.rows, app.cols), (Pane::Active, 24, 80));
    assert_eq!(app.selected_row(), Some(VisibleRow::Session(0)));
    let app = App::start(sessions, FileRead::Missing, 24, 80).ok().unwrap();
    assert_eq!(app.groups, GroupState::default());
}

#[test]
fn picker_does_not_start_on_a_refused_group_file() {
    let start = |read| App::start(vec![session("a", 0, true)], read, 24, 80).err().unwrap();

    assert_eq!(
        start(FileRead::Failed("permission denied".to_string())),
        "failed to load groups: permission denied"
    );
    assert_eq!(
        start(FileRead::Contents("version = 2\n".to_string())),
        "failed to load groups: unsupported group file version: 2"
    );
}

#[test]
fn names_from_a_group_file_can_be_given_once_only() {
    let contents = "[[groups]]\nname = \"Work\"\n[[groups]]\nname = \"\u{dc}ben\"\n";
    let read = FileRead::Contents(contents.to_string());
    let mut app = App::start(vec![session("a", 0, true)], read, 24, 80).ok().unwrap();

    assert_eq!(app.groups.add_group(" wORK ").unwrap_err(), "group already exists: wORK");
    assert_eq!(app.groups.add_group("\u{dc}BEN").unwrap_err(), "group already exists: \u{dc}BEN");
    for twice in ["work", "WORK", " Work"] {
        let contents = format!("[[groups]]\nname = \"Work\"\n[[groups]]\nname = \"{twice}\"\n");
        assert_eq!(
            GroupState::from_toml(&contents).unwrap_err(),
            format!("invalid or duplicate group name: {}", twice.trim())
        );
    }
}

#[test]
fn focus_moves_between_the_lists_and_back() {
    let mut app = App::new(
        vec![session("a", 0, true), session("b", 5, false), session("c", 3, false)],
        GroupState::default(),
        24,
        80,
    );

    keys(&mut app, b"\x0cG");
    assert_eq!(app.focus, Pane::All);
    assert_eq!(app.selected_row(), Some(VisibleRow::Session(2)));
    keys(&mut app, b"\x08");
    assert_eq!(app.focus, Pane::Active);
    assert_eq!(app.selected_row(), Some(VisibleRow::Session(0)));
    keys(&mut app, b"\x08\x0c");
    assert_eq!(app.selected_row(), Some(VisibleRow::Session(2)));
}

#[test]
fn cursor_keys_skip_headers() {
    let mut app = app_with_groups(
        vec![session("a", 0, false), session("b", 0, false), session("c", 0, false)],
        vec![group("one", false, &["a"]), group("none", false, &[]), group("two", false, &["b"])],
    );

    keys(&mut app, b"j");
    assert_eq!(app.selected_row(), Some(VisibleRow::Session(0)));
    keys(&mut app, b"j");
    assert_eq!(app.selected_row(), Some(VisibleRow::Session(1)));
    keys(&mut app, b"jj");
    assert_eq!(app.selected_row(), Some(VisibleRow::Session(2)));
    keys(&mut app, b"k");
    assert_eq!(app.selected_row(), Some(VisibleRow::Session(1)));
    keys(&mut app, b"\x0b");
    assert_eq!(app.selected_row(), Some(VisibleRow::Group(2)));
    keys(&mut app, b"\x0b");
    assert_eq!(app.selected_row(), Some(VisibleRow::Group(1)));
    keys(&mut app, b"\n\n\n");
    assert_eq!(app.selected_row(), Some(VisibleRow::Group(3)));
    keys(&mut app, b"g");
    assert_eq!(app.selected_row(), Some(VisibleRow::Session(0)));
    keys(&mut app, b"k");
    assert_eq!(app.selected_row(), Some(VisibleRow::Session(0)));
    keys(&mut app, b"G");
    assert_eq!(app.selected_row(), Some(VisibleRow::Session(2)));
}

#[test]
fn groups_are_created_and_saved() {
    let mut app = app_with_sessions(vec![session("api", 0, false)]);

    keys(&mut app, b"n Work");
    let Effect::SaveName(submission) = app.handle_key(b'\r') else {
        panic!("expected a name to save");
    };
    assert_eq!(submission.group_index, 0);
    assert_eq!(app.groups.groups, vec![group("Work", false, &[])]);
    app.finish_name(submission, Ok(()));

    assert!(app.prompt.is_none());
    assert_eq!(app.status, "Created Work");
    assert_eq!(app.selected_row(), Some(VisibleRow::Group(0)));
}

#[test]
fn name_prompt_comes_back_when_saving_fails() {
    let mut app = app_with_sessions(vec![session("api", 0, false)]);

    keys(&mut app, b"nWork");
    let Effect::SaveName(submission) = app.handle_key(b'\n') else {
        panic!("expected a name to save");
    };
    app.finish_name(submission, Err("disk full".to_string()));

    assert_eq!(app.status, "disk full");
    assert!(matches!(
        app.prompt,
        Some(Prompt::Name { label: "NEW GROUP", ref value, action: NameAction::Create }) if value == "Work"
    ));
}

#[test]
fn refused_name_keeps_the_prompt() {
    let mut app = app_with_groups(vec![session("api", 0, false)], vec![group("Work", false, &[])]);

    keys(&mut app, b"nwork");
    assert!(matches!(app.handle_key(b'\r'), Effect::Continue));
    assert_eq!(app.status, "group already exists: work");
    assert!(matches!(app.prompt, Some(Prompt::Name { .. })));
    keys(&mut app, b"\x01");
    assert!(matches!(app.prompt, Some(Prompt::Name { ref value, .. }) if value == "work"));
    keys(&mut app, b"\x1b");
    assert!(app.prompt.is_none());
    assert_eq!(app.status, "Cancelled");
}

#[test]
fn groups_are_renamed_collapsed_and_deleted() {
    let mut app = app_with_groups(
        vec![session("api", 0, false), session("db", 0, false)],
        vec![group("Work", false, &["api"])],
    );

    keys(&mut app, b"r");
    keys(&mut app, b"\x7f\x7f\x7f\x7fPlay");
    let Effect::SaveName(submission) = app.handle_key(b'\r') else {
        panic!("expected a name to save");
    };
    app.finish_name(submission, Ok(()));
    assert_eq!(app.status, "Renamed group to Play");
    assert_eq!(app.groups.groups[0].name, "Play");

    assert!(matches!(app.handle_key(b'h'), Effect::SaveGroups));
    assert!(app.groups.groups[0].collapsed);
    assert_eq!(app.visible_rows().len(), 3);
    assert!(matches!(app.handle_key(b'\r'), Effect::SaveGroups));
    assert!(!app.groups.groups[0].collapsed);

    assert!(matches!(app.handle_key(b'd'), Effect::SaveGroups));
    assert_eq!(app.status, "Deleted Play; sessions are ungrouped");
    assert_eq!(app.groups.group_for_session("api"), None);

    assert!(matches!(app.handle_key(b'd'), Effect::Continue));
    assert_eq!(app.status, "Ungrouped cannot be deleted");
    keys(&mut app, b"r");
    assert_eq!(app.status, "Ungrouped cannot be renamed");
    keys(&mut app, b"K");
    assert_eq!(app.status, "Ungrouped cannot be reordered");
    assert!(matches!(app.handle_key(b'h'), Effect::Continue));
    assert!(app.ungrouped_collapsed);
    keys(&mut app, b"l");
    assert!(!app.ungrouped_collapsed);
    keys(&mut app, b"jd");
    assert_eq!(app.status, "Select a group to delete it");
    keys(&mut app, b"r");
    assert_eq!(app.status, "Select a group to rename it");
}

#[test]
fn collapsing_a_session_selects_its_group() {
    let mut app = app_with_groups(
        vec![session("api", 0, false), session("db", 0, false)],
        vec![group("Work", false, &["db"])],
    );

    keys(&mut app, b"jh");
    assert!(app.groups.groups[0].collapsed);
    assert_eq!(app.selected_row(), Some(VisibleRow::Group(0)));
}

#[test]
fn sessions_move_to_groups_and_out_of_them() {
    let mut app = app_with_groups(
        vec![session("api", 0, false), session("db", 0, false)],
        vec![group("Work", true, &[])],
    );
    keys(&mut app, b"j");
    assert_eq!(app.selected_row(), Some(VisibleRow::Session(0)));

    keys(&mut app, b"m");
    assert!(matches!(app.prompt, Some(Prompt::Move { choice: 1, .. })));
    keys(&mut app, b"k");
    assert!(matches!(app.handle_key(b'\r'), Effect::SaveGroups));
    assert_eq!(app.status, "Moved api to Work");
    assert_eq!(app.groups.groups, vec![group("Work", false, &["api"])]);
    assert_eq!(app.selected_row(), Some(VisibleRow::Session(0)));

    keys(&mut app, b"A");
    assert_eq!(app.status, "Selected 2 sessions");
    keys(&mut app, b"mG");
    assert!(matches!(app.prompt, Some(Prompt::Move { choice: 2, .. })));
    keys(&mut app, b"jkk\r");
    assert_eq!(app.status, "Moved 2 sessions to Work");
    assert_eq!(app.groups.groups[0].sessions, ["api", "db"]);

    keys(&mut app, b"m\r");
    assert_eq!(app.status, "Moved 2 sessions to Ungrouped");
    assert!(app.groups.groups[0].sessions.is_empty());

    keys(&mut app, b"mG\rNew");
    let Effect::SaveName(submission) = app.handle_key(b'\r') else {
        panic!("expected a name to save");
    };
    app.finish_name(submission, Ok(()));
    assert_eq!(app.status, "Moved 2 sessions to New");
    assert_eq!(app.groups.groups[1].sessions, ["api", "db"]);
}

#[test]
fn nothing_to_move_pin_or_kill_is_said() {
    let mut app = app_with_groups(vec![session("api", 0, false)], vec![group("Work", false, &[])]);

    keys(&mut app, b"m");
    assert_eq!(app.status, "Select a session to move it");
    keys(&mut app, b"p");
    assert_eq!(app.status, "Select a session to pin it");
    keys(&mut app, b"x");
    assert_eq!(app.status, "Select a session to kill it");
    assert!(app.prompt.is_none());
}

#[test]
fn pinned_sessions_reorder_within_their_group() {
    let mut app = app_with_groups(
        vec![
            session("a", 0, true),
            session("b", 0, true),
            session("c", 0, true),
            session("d", 0, false),
        ],
        vec![group("Work", false, &["b"])],
    );
    app.select_session_by_name("a");

    assert!(matches!(app.handle_key(b'J'), Effect::SavePins));
    assert_eq!(names(&app), ["c", "b", "a", "d"]);
    assert_eq!(app.status, "Moved a down");
    assert_eq!(app.selected_row(), Some(VisibleRow::Session(2)));
    assert!(matches!(app.handle_key(b'J'), Effect::Continue));
    assert_eq!(app.status, "Pinned session is already last");
    assert!(matches!(app.handle_key(b'K'), Effect::SavePins));
    assert_eq!(names(&app), ["a", "b", "c", "d"]);
    keys(&mut app, b"K");
    assert_eq!(app.status, "Pinned session is already first");
    app.select_session_by_name("d");
    keys(&mut app, b"K");
    assert_eq!(app.status, "Pin session first");
}

#[test]
fn groups_reorder_up_and_down() {
    let mut app = app_with_groups(
        vec![session("a", 0, false)],
        vec![group("one", false, &[]), group("two", false, &[])],
    );

    assert!(matches!(app.handle_key(b'J'), Effect::SaveGroups));
    assert_eq!(app.groups.groups[0].name, "two");
    assert_eq!(app.status, "Moved group down");
    assert_eq!(app.selected_row(), Some(VisibleRow::Group(1)));
    keys(&mut app, b"J");
    assert_eq!(app.status, "Group is already last");
    keys(&mut app, b"K");
    assert_eq!(app.groups.groups[0].name, "one");
    keys(&mut app, b"K");
    assert_eq!(app.status, "Group is already first");
}

#[test]
fn pins_toggle_for_one_and_for_many() {
    let mut app = app_with_sessions(vec![session("a", 9, false), session("b", 5, false)]);
    app.select_session_by_name("b");

    assert!(matches!(app.handle_key(b'p'), Effect::SavePins));
    assert_eq!(app.status, "Pinned b");
    assert_eq!(names(&app), ["b", "a"]);
    assert_eq!(app.selected_row(), Some(VisibleRow::Session(0)));
    keys(&mut app, b"p");
    assert_eq!(app.status, "Unpinned b");
    assert_eq!(names(&app), ["a", "b"]);

    keys(&mut app, b"pAp");
    assert_eq!(app.status, "Pinned 2 sessions");
    assert!(app.sessions.iter().all(|session| session.pinned));
    keys(&mut app, b"p");
    assert_eq!(app.status, "Unpinned 2 sessions");
    assert!(app.sessions.iter().all(|session| !session.pinned));
}

#[test]
fn pinning_and_unpinning_restores_the_order() {
    let mut app = app_with_sessions(vec![
        session("x", 1, true),
        session("y", 2, true),
        session("a", 9, false),
        session("b", 7, false),
        session("c", 7, false),
    ]);
    let before = app.sessions.clone();
    app.select_session_by_name("b");

    keys(&mut app, b"p");
    assert_eq!(names(&app), ["x", "y", "b", "a", "c"]);
    assert_eq!(pinned_names_from_sessions(&app.sessions), ["x", "y", "b"]);
    keys(&mut app, b"p");
    assert_eq!(app.sessions, before);
    assert_eq!(pinned_names_from_sessions(&app.sessions), ["x", "y"]);
}

#[test]
fn killing_asks_tmux_and_goes_on_with_what_is_left() {
    let mut app = app_with_sessions(vec![
        session("a", 3, false),
        session("b", 2, false),
        session("c", 1, false),
    ]);
    app.select_session_by_name("b");

    let Effect::Kill { session_name, next_selected_name } = app.handle_key(b'x') else {
        panic!("expected a session to kill");
    };
    assert_eq!(session_name, "b");
    assert_eq!(next_selected_name.as_deref(), Some("c"));
    app.finish_kill(
        vec![session("a", 3, false), session("c", 1, false)],
        &session_name,
        next_selected_name,
    );
    assert_eq!(app.status, "Killed b");
    assert_eq!(app.selected_row(), Some(VisibleRow::Session(1)));

    let Effect::Kill { next_selected_name, .. } = app.handle_key(b'x') else {
        panic!("expected a session to kill");
    };
    assert_eq!(next_selected_name.as_deref(), Some("a"));

    app.sessions[1].is_current = true;
    assert!(matches!(app.handle_key(b'x'), Effect::Continue));
    assert_eq!(app.status, "Cannot kill current session");
}

#[test]
fn marked_sessions_are_killed_after_confirmation() {
    let mut app = app_with_sessions(vec![
        session("a", 3, false),
        session("b", 2, false),
        session("c", 1, false),
    ]);
    app.sessions[0].is_current = true;

    keys(&mut app, b" x");
    assert!(matches!(
        app.prompt,
        Some(Prompt::ConfirmKill { ref session_names, skipped_current: 1 }) if session_names.len() == 2
    ));
    keys(&mut app, b"zn");
    assert_eq!(app.status, "Cancelled");

    keys(&mut app, b"x");
    let Effect::KillAll { session_names, skipped_current } = app.handle_key(b'Y') else {
        panic!("expected sessions to kill");
    };
    assert_eq!(session_names, ["b", "c"]);
    app.finish_kill_all(vec![session("a", 3, false)], &session_names, skipped_current);
    assert_eq!(app.status, "Killed 2; skipped current");
    assert_eq!(app.selected_sessions.len(), 1);

    app.finish_kill_all(vec![session("a", 3, false)], &vec!["a".to_string()], 0);
    assert_eq!(app.status, "Killed 1 sessions");
    assert!(app.selected_sessions.is_empty());
}

#[test]
fn only_the_current_session_marked_is_not_killed() {
    let mut app = app_with_sessions(vec![session("a", 3, false)]);
    app.sessions[0].is_current = true;

    keys(&mut app, b" x");
    assert_eq!(app.status, "Cannot kill current session");
    app.sessions[0].name = "other".to_string();
    keys(&mut app, b"x");
    assert_eq!(app.status, "No selected sessions to kill");
}

#[test]
fn actions_on_marked_sessions_are_chosen() {
    let mut app = app_with_sessions(vec![session("a", 3, false), session("b", 2, false)]);

    keys(&mut app, b" \r");
    assert!(matches!(app.prompt, Some(Prompt::Action { choice: 0 })));
    keys(&mut app, b"jjjjj");
    assert!(matches!(app.prompt, Some(Prompt::Action { choice: 3 })));
    keys(&mut app, b"\r");
    assert_eq!(app.status, "Selection cleared");
    assert!(app.selected_sessions.is_empty());

    keys(&mut app, b" \rj\r");
    assert_eq!(app.status, "Pinned 2 sessions");
    keys(&mut app, b"\r\r");
    assert!(matches!(app.prompt, Some(Prompt::Move { .. })));
    keys(&mut app, b"\x1b\rjj\r");
    assert!(matches!(app.prompt, Some(Prompt::ConfirmKill { .. })));
    keys(&mut app, b"\x03v");
    assert!(app.selected_sessions.is_empty());
}

#[test]
fn enter_switches_to_the_session() {
    let mut app = app_with_sessions(vec![session("a", 0, false)]);

    keys(&mut app, b"j");
    assert!(matches!(app.handle_key(b'\r'), Effect::Switch(name) if name == "a"));
    assert!(matches!(app.handle_key(b'q'), Effect::Quit));
    assert!(matches!(app.handle_key(0x1b), Effect::Quit));
    assert!(matches!(app.handle_key(0x03), Effect::Quit));
    assert!(matches!(app.handle_key(b'z'), Effect::Continue));
}

#[test]
fn searching_finds_and_returns() {
    let mut app = app_with_groups(
        vec![session("api", 0, false), session("database", 0, false), session("web", 0, false)],
        vec![group("Work", true, &["database"])],
    );

    keys(&mut app, b"/DAT");
    assert_eq!(app.query, "DAT");
    assert_eq!(app.selected_row(), Some(VisibleRow::Session(1)));
    keys(&mut app, b"zz");
    assert!(!app.has_matches());
    keys(&mut app, b"\x7f\x08");
    assert!(app.has_matches());
    keys(&mut app, b" ");
    assert!(app.selected_sessions.contains("database"));
    keys(&mut app, b"v");
    assert_eq!(app.query, "DATv");
    keys(&mut app, b"\x7f\x1b");
    assert_eq!(app.query, "");
    assert!(!app.searching);

    keys(&mut app, b"v/web\x1b");
    assert_eq!(app.selected_row(), Some(VisibleRow::Session(2)));
    keys(&mut app, b"/");
    assert!(matches!(app.handle_key(b'\n'), Effect::Switch(name) if name == "web"));
    assert!(matches!(app.handle_key(0x03), Effect::Quit));
}

#[test]
fn marks_follow_rows_groups_and_lists() {
    let mut app = app_with_groups(
        vec![session("a", 0, false), session("b", 0, false), session("c", 0, false)],
        vec![group("Work", false, &["a", "b"])],
    );

    keys(&mut app, b"j ");
    assert_eq!(app.status, "Selected 1 sessions");
    keys(&mut app, b"a");
    assert_eq!(app.status, "Selected 2 sessions");
    keys(&mut app, b"a");
    assert_eq!(app.status, "Selection cleared");
    keys(&mut app, b"A");
    assert_eq!(app.status, "Selected 3 sessions");
    keys(&mut app, b"Gv");
    assert!(app.selected_sessions.is_empty());
}

#[test]
fn cursors_stay_on_visible_rows() {
    let mut app = app_with_sessions((0..30).map(|i| session(&format!("s{i:02}"), 0, i == 0)).collect());
    app.rows = 10;
    app.selected = 99;
    app.parked_selected = 7;
    app.ensure_visible();

    assert_eq!((app.selected, app.top), (30, 25));
    assert_eq!((app.parked_selected, app.parked_top), (1, 0));
    app.selected = 3;
    app.ensure_visible();
    assert_eq!((app.selected, app.top), (3, 3));
    app.query = "nothing".to_string();
    app.ensure_visible();
    assert_eq!((app.selected, app.top), (0, 0));
}

#[test]
fn drags_stay_in_their_list() {
    let mut app = app_with_sessions(vec![session("a", 0, true), session("b", 0, true), session("c", 0, true)]);
    let row = app.layout().list_row_start;
    let at = |button: u16, col: usize, row: usize| MouseEvent { button, col, row, pressed: true };

    app.handle_mouse(at(0, 45, row + 1), 0);
    assert_eq!(app.focus, Pane::All);
    assert!(matches!(app.handle_mouse(at(32, 5, row + 3), 0), Effect::Continue));
    assert_eq!(names(&app), ["a", "b", "c"]);
    assert!(matches!(app.handle_mouse(at(32, 45, row + 3), 0), Effect::SavePins));
    assert_eq!(names(&app), ["b", "c", "a"]);
    assert!(matches!(app.handle_mouse(at(32, 45, row), 0), Effect::Continue));
    assert_eq!(names(&app), ["b", "c", "a"]);
    assert!(matches!(app.handle_mouse(at(1, 45, row), 0), Effect::Continue));
}

#[test]
fn right_click_on_a_group_says_what_to_do() {
    let mut app = app_with_sessions(vec![session("a", 0, false)]);
    let row = app.layout().list_row_start;

    app.handle_mouse(MouseEvent { button: 2, col: 5, row, pressed: true }, 0);
    assert_eq!(app.status, "Right-click a session to pin it");
    app.handle_mouse(MouseEvent { button: 2, col: 5, row: 1, pressed: true }, 0);
    assert_eq!(app.selected, 0);
}

#[test]
fn ignored_input_changes_nothing() {
    let mut app = app_with_sessions(vec![session("a", 0, false)]);

    assert!(matches!(app.step(InputEvent::Ignore, 0), Effect::Continue));
    assert!(matches!(app.step(InputEvent::Key(b'j'), 0), Effect::Continue));
    assert_eq!(app.selected, 1);
}

#[test]
fn search_goes_on_in_all() {
    let mut app = App::new(
        vec![session("api", 0, true), session("web", 5, false)],
        GroupState::default(),
        24,
        80,
    );

    keys(&mut app, b"/a");
    assert_eq!(app.focus, Pane::Active);
    assert_eq!(app.selected_row(), Some(VisibleRow::Session(0)));
    keys(&mut app, b"\x7fw");
    assert_eq!(app.focus, Pane::All);
    assert_eq!(app.selected_row(), Some(VisibleRow::Session(1)));
    assert!(matches!(app.handle_key(b'\r'), Effect::Switch(name) if name == "web"));
}

#[test]
fn lists_lie_side_by_side() {
    let mut app = app_with_sessions(vec![session("a-very-long-session-name", 0, true), session("b", 0, false)]);

    assert_eq!(app.pane_at(40), Pane::Active);
    assert_eq!(app.pane_at(41), Pane::All);
    let all = app.layout_of(Pane::All);
    assert_eq!((all.table_col, all.name_width), (41, 16));
    assert_eq!((all.list_row_start, all.blank_row, all.status_row), (20, 23, 24));
    assert_eq!(app.layout_of(Pane::Active).table_col, 1);

    app.sessions[0].pinned = false;
    assert_eq!(app.pane_at(1), Pane::All);
    let all = app.layout_of(Pane::All);
    assert_eq!((all.table_col, all.name_width), (1, 24));
    app.cols = 53;
    assert_eq!(app.layout().name_width, 19);
    app.rows = 3;
    let all = app.layout_of(Pane::All);
    assert_eq!((all.list_row_start, all.blank_row, all.status_row), (1, 2, 3));
}

#[test]
fn active_rows_are_rows_of_all() {
    let mut app = app_with_groups(
        vec![session("a", 0, true), session("b", 0, false), session("c", 0, true)],
        vec![group("one", true, &["a", "b"]), group("two", false, &["b"]), group("none", false, &[])],
    );

    for query in ["", "a", "one", "two", "ungrouped", "none"] {
        app.query = query.to_string();
        let all = app.rows_in(Pane::All);
        assert!(app.rows_in(Pane::Active).iter().all(|row| all.contains(row)));
    }
    app.query = String::new();
    assert_eq!(
        app.rows_in(Pane::Active),
        [VisibleRow::Group(0), VisibleRow::Group(3), VisibleRow::Session(2)]
    );
}

#[test]
fn steps_keep_sessions_in_order_and_in_one_group() {
    let mut app = app_with_groups(
        vec![
            session("p", 1, true),
            session("q", 9, true),
            session("x", 8, false),
            session("y", 8, false),
            session("z", 2, false),
        ],
        vec![group("one", false, &["q", "x"]), group("two", true, &["y"])],
    );

    for key in b"jpjJKkpGmk\rApa v\nJ\nlhj mj\rv\x0cGpKxgpd" {
        app.handle_key(*key);
        app.ensure_visible();
        let rank = |session: &Session| {
            if session.pinned {
                (0, 0, String::new())
            } else {
                (1, u64::MAX - session.last_activity, session.name.clone())
            }
        };
        assert!(app.sessions.windows(2).all(|pair| rank(&pair[0]) <= rank(&pair[1])));
        let mut listed = app.groups.groups.iter().flat_map(|g| g.sessions.clone()).collect::<Vec<_>>();
        let count = listed.len();
        listed.sort();
        listed.dedup();
        assert_eq!(listed.len(), count);
    }
}
