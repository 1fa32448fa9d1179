use std::time::{SystemTime, UNIX_EPOCH};
use tmux_session_picker::groups::{Group, GroupState};
use tmux_session_picker::help::{
    help_popup_height, help_popup_lines, next_help_index, shortcuts, SHORTCUT_COUNT,
};
use tmux_session_picker::names::NameSet;
use tmux_session_picker::prompts::{
    format_relative_activity, mode_line, move_popup_lines, session_row_line, NameAction, Prompt,
};
use tmux_session_picker::sessions::Session;
use tmux_session_picker::text::{center, decimal, pad_left, pad_right, split, trim, truncate};

fn session(name: &str, last_activity: u64, pinned: bool) -> Session {
    Session {
        name: name.to_string(),
        last_activity,
        pinned,
        is_current: false,
    }
}

#[test]
fn format_relative_activity_renders_short_age() {
    let now = SystemTime::now()
        .duration_since(UNIX_EPOCH)
        .unwrap()
        .as_secs();

    assert_eq!(format_relative_activity(0, now), "-");
    assert_eq!(format_relative_activity(now, now), "now");
    assert_eq!(format_relative_activity(now.saturating_sub(12), now), "12s");
    assert_eq!(format_relative_activity(now.saturating_sub(180), now), "3m");
    assert_eq!(format_relative_activity(now.saturating_sub(7200), now), "2h");
}

#[test]
fn ages_change_their_unit_at_its_length() {
    let age = |delta: u64| format_relative_activity(1_000, 1_000 + delta);

    assert_eq!(age(4), "now");
    assert_eq!(age(5), "5s");
    assert_eq!(age(59), "59s");
    assert_eq!(age(60), "1m");
    assert_eq!(age(3_599), "59m");
    assert_eq!(age(3_600), "1h");
    assert_eq!(age(86_399), "23h");
    assert_eq!(age(86_400), "1d");
    assert_eq!(age(604_799), "6d");
    assert_eq!(age(604_800), "1w");
    assert_eq!(age(6_048_000), "10w");
    assert_eq!(format_relative_activity(1_000, 0), "now");
}

#[test]
fn shortcut_help_includes_question_mark_entry() {
    assert!(shortcuts().iter().any(|(key, _)| *key == "?"));
    assert_eq!(help_popup_lines(0, 4).first().unwrap(), "Shortcuts");
}

#[test]
fn shortcut_help_navigation_clamps_to_bounds() {
    assert_eq!(next_help_index(0, -1), 0);
    assert_eq!(next_help_index(0, 1), 1);
    assert_eq!(next_help_index(SHORTCUT_COUNT - 1, 1), SHORTCUT_COUNT - 1);
    assert_eq!(shortcuts().len(), SHORTCUT_COUNT);
}

#[test]
fn shortcut_help_popup_marks_current_entry() {
    let lines = help_popup_lines(1, 3);

    assert!(lines.iter().any(|line| line.starts_with("> g/G")));
    assert!(lines.last().unwrap().contains("Esc close"));
}

#[test]
fn shortcut_help_popup_uses_nearly_full_height() {
    assert_eq!(help_popup_height(24), 22);
    assert_eq!(help_popup_height(4), 5);

    let lines = help_popup_lines(0, help_popup_height(24).saturating_sub(4));
    let shortcut_rows = lines
        .iter()
        .filter(|line| line.starts_with("> ") || line.starts_with("  "))
        .count();
    assert!(shortcut_rows > 12);
}

#[test]
fn shortcut_help_scrolls_with_its_choice() {
    assert_eq!(
        help_popup_lines(10, 3),
        vec![
            "Shortcuts",
            "  a          toggle current group selection",
            "> A          toggle visible session selection",
            "  v          clear selected sessions",
            "11/24  j/k scroll  g/G first/last  Esc close",
        ]
    );
    assert_eq!(help_popup_lines(23, 2)[1], "  Wheel      scroll sessions");
    assert_eq!(help_popup_lines(23, 2)[2], "> q          quit");
    assert_eq!(help_popup_lines(0, 0).len(), 3);
    assert_eq!(help_popup_lines(5, usize::MAX).len(), 26);
}

#[test]
fn move_popup_lists_groups_and_special_targets() {
    let groups = GroupState {
        version: 1,
        groups: vec![Group {
            name: "Work".to_string(),
            collapsed: false,
            sessions: Vec::new(),
        }],
    };

    let lines = move_popup_lines(&groups, 1, 2);

    assert_eq!(lines[0], "Move 2 sessions to");
    assert!(lines.iter().any(|line| line == "  Work"));
    assert!(lines.iter().any(|line| line == "> Ungrouped"));
    assert!(lines.iter().any(|line| line == "  New group..."));
}

#[test]
fn mode_line_describes_current_mode() {
    assert!(mode_line(None, false, "", true, 0).starts_with("MODE normal"));
    assert!(mode_line(None, false, "", true, 2).starts_with("MODE selection"));
    assert_eq!(
        mode_line(None, true, "api", false, 0),
        "MODE search: /api  no matches"
    );
    assert!(
        mode_line(Some(&Prompt::Help { index: 0 }), false, "", true, 0).starts_with("MODE help")
    );
    assert!(mode_line(
        Some(&Prompt::Move {
            session_names: vec!["api".to_string(), "db".to_string()],
            choice: 0,
        }),
        false,
        "",
        true,
        2,
    )
    .starts_with("MODE move: 2 sessions"));
    assert_eq!(
        mode_line(
            Some(&Prompt::Name {
                label: "NEW GROUP",
                value: "Work".to_string(),
                action: NameAction::Create,
            }),
            false,
            "",
            true,
            0,
        ),
        "MODE input: NEW GROUP: Work_"
    );
}

#[test]
fn mode_line_has_words_for_every_question() {
    assert_eq!(mode_line(None, true, "api", true, 3), "MODE search: /api");
    assert_eq!(
        mode_line(None, false, "", true, 3),
        "MODE selection: 3 sessions  m move  p pin  x kill  v clear"
    );
    assert_eq!(
        mode_line(Some(&Prompt::Action { choice: 1 }), false, "", true, 3),
        "MODE selected actions: 3 sessions"
    );
    assert_eq!(
        mode_line(
            Some(&Prompt::ConfirmKill { session_names: vec!["a".to_string()], skipped_current: 1 }),
            false,
            "",
            true,
            2,
        ),
        "MODE confirm kill: 1 sessions  y/N"
    );
}

#[test]
fn session_row_hides_checkbox_until_selection_mode() {
    let api = session("api", 0, false);

    let normal = session_row_line(">", &api, &NameSet::new(), 16, 4, 100);
    assert!(!normal.contains("[ ]"));
    assert!(!normal.contains("[x]"));

    let mut selected = NameSet::new();
    selected.insert("api".to_string());
    let selected_line = session_row_line(">", &api, &selected, 16, 4, 100);
    assert!(selected_line.contains("[x]"));

    let db = session("db", 0, false);
    let unselected_line = session_row_line(" ", &db, &selected, 16, 4, 100);
    assert!(unselected_line.contains("[ ]"));
}

#[test]
fn session_row_has_all_its_columns() {
    let mut api = session("api", 40, true);
    api.is_current = true;

    assert_eq!(session_row_line(">", &api, &NameSet::new(), 6, 4, 100), ">   api       1m   *  !");
    assert_eq!(
        session_row_line(" ", &session("longer-name", 100, false), &NameSet::new(), 6, 4, 100),
        "    longer-name   now       "
    );
}

#[test]
fn texts_are_cut_and_filled() {
    assert_eq!(truncate("abc", 3), "abc");
    assert_eq!(truncate("abcd", 3), "ab\u{2026}");
    assert_eq!(truncate("abcd", 1), "\u{2026}");
    assert_eq!(truncate("abcd", 0), "\u{2026}");
    assert_eq!(truncate("", 0), "");
    assert_eq!(pad_right("\u{e4}", 3), "\u{e4}  ");
    assert_eq!(pad_left("ab", 1), "ab");
    assert_eq!(center("ab", 5), " ab  ");
    assert_eq!(trim("\u{a0} \u{2003}a b\u{3000}\n"), "a b");
    assert_eq!(split("a\t\tb", '\t'), ["a", "", "b"]);
    assert_eq!(decimal(0), "0");
    assert_eq!(decimal(u64::MAX), u64::MAX.to_string());
}
