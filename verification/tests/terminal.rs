use tmux_session_picker::effects::Effect;
use tmux_session_picker::groups::GroupState;
use tmux_session_picker::mouse::{decode_input, wants_more};
use tmux_session_picker::picker::App;
use tmux_session_picker::sessions::{
    load_sessions, parse_pinned_names, pin_file_contents, pinned_names_from_sessions,
};

const NOW: u64 = 1_700_000_000;

fn start(sessions: &[(&str, u64)], current: &str, pins: &str, groups: &str) -> App {
    let listing = sessions
        .iter()
        .map(|(name, activity)| format!("{name}\t{activity}\n"))
        .collect::<String>();
    let sessions = load_sessions(&listing, &format!("{current}\n"), &parse_pinned_names(pins)).unwrap();
    let mut app = App::new(sessions, GroupState::from_toml(groups).unwrap(), 24, 80);
    app.ensure_visible();
    app
}

/// Types bytes that arrive together, and hands back the last effect.
fn send(app: &mut App, bytes: &[u8]) -> Effect {
    let mut effect = Effect::Continue;
    let mut left = bytes;
    while let Some((first, rest)) = left.split_first() {
        let mut sequence = vec![*first];
        left = rest;
        while wants_more(&sequence) && !left.is_empty() {
            sequence.push(left[0]);
            left = &left[1..];
        }
        effect = app.step(decode_input(&sequence), 0);
        app.ensure_visible();
    }
    effect
}

#[test]
fn mouse_double_click_switches_session_in_terminal() {
    let mut app = start(&[("current", 100), ("clicked", 200)], "current", "", "");
    assert!(app.render_full(NOW).contains("clicked"));

    let effect = send(&mut app, b"\x1b[<0;45;21M\x1b[<0;45;21M");

    assert!(matches!(effect, Effect::Switch(name) if name == "clicked"));
}

#[test]
fn mouse_wheel_scrolls_session_list_in_terminal() {
    let names = (1..=30).map(|index| format!("s{index:02}")).collect::<Vec<_>>();
    let sessions = names
        .iter()
        .enumerate()
        .map(|(index, name)| (name.as_str(), 9_999 - index as u64))
        .collect::<Vec<_>>();
    let mut app = start(&sessions, "s01", "", "");
    assert!(app.render_full(NOW).contains("s18"));
    assert!(!app.render_full(NOW).contains("s21"));

    send(&mut app, b"\x1b[<65;45;10M");

    assert!(app.render_full(NOW).contains("s21"));
    assert!(matches!(send(&mut app, b"q"), Effect::Quit));
}

#[test]
fn right_click_pins_session_in_terminal() {
    let mut app = start(&[("current", 100), ("clicked", 200)], "current", "", "");

    let effect = send(&mut app, b"\x1b[<2;45;21M");

    assert!(matches!(effect, Effect::SavePins));
    assert_eq!(pin_file_contents(&pinned_names_from_sessions(&app.sessions)), "clicked\n");
}

#[test]
fn left_drag_reorders_pinned_session_in_terminal() {
    let mut app = start(&[("current", 100), ("clicked", 200)], "current", "current\nclicked\n", "");

    let effect = send(&mut app, b"\x1b[<0;5;22M\x1b[<32;5;21M");

    assert!(matches!(effect, Effect::SavePins));
    assert_eq!(
        pin_file_contents(&pinned_names_from_sessions(&app.sessions)),
        "clicked\ncurrent\n"
    );
}

#[test]
fn ctrl_j_selects_collapsed_group_for_expansion() {
    let mut app = start(
        &[("current", 100), ("clicked", 200)],
        "current",
        "",
        r#"version = 1

[[groups]]
name = "Work"
collapsed = true
sessions = ["current"]

[[groups]]
name = "Personal"
collapsed = true
sessions = ["clicked"]
"#,
    );
    assert!(app.render_full(NOW).contains("Personal"));
    assert!(!app.render_full(NOW).contains("clicked"));

    send(&mut app, b"\x0c\n\r");

    assert!(app.render_full(NOW).contains("clicked"));
    assert!(matches!(send(&mut app, b"q"), Effect::Quit));
}

#[test]
fn screen_shows_both_lists() {
    let mut app = start(&[("one", NOW - 60), ("two", NOW - 120)], "one", "two\n", "");
    app.rows = 6;

    let expected = [
        "\x1b[H\x1b[2J",
        "\x1b[2;1H\x1b[2K\x1b[2;1HMODE normal: j/k move  Space select  / search  ? help",
        "\x1b[3;1H\x1b[2K\x1b[3;1H\x1b[7m> \u{25bc} Ungrouped (2)\x1b[0m\x1b[3;41H  \u{25bc} Ungrouped (2)",
        "\x1b[4;1H\x1b[2K\x1b[4;1H    two                 2m      !\x1b[4;41H    two                 2m      !",
        "\x1b[5;1H\x1b[2K",
        "\x1b[6;1H\x1b[2K",
        "\x1b[7;1H\x1b[J",
    ];
    assert_eq!(app.render_full(NOW), expected.concat());
}

#[test]
fn screen_shows_questions() {
    let mut app = start(&[("one", NOW), ("two", 0)], "one", "", "");
    send(&mut app, b"\x0cjm");
    let frame = app.render_full(NOW);

    assert!(frame.contains("MODE move: 1 sessions  j/k choose  Enter confirm"));
    assert!(frame.contains("MOVE 1 sessions -> [Ungrouped]  j/k choose  Enter confirm  Esc cancel"));
    assert!(frame.contains("| > Ungrouped                           |"));
    assert!(frame.contains("\x1b[10;20H+---------------------------------------+"));

    send(&mut app, b"\x1b");
    send(&mut app, b"?");
    let frame = app.render_full(NOW);
    assert!(frame.contains("Shortcut help open"));
    assert!(frame.contains("| > j/k        move cursor"));
    assert!(frame.contains("1/24  j/k scroll  g/G first/last  Esc close"));

    send(&mut app, b"\x1b");
    send(&mut app, b"/zzz");
    assert!(app.render_full(NOW).contains("SEARCH /zzz  No matching sessions"));
    send(&mut app, b"\x1b");
    send(&mut app, b" \r");
    assert!(app
        .render_full(NOW)
        .contains("SELECTED 2 sessions: [move]  j/k choose  Enter confirm  Esc cancel"));
    send(&mut app, b"jj\r");
    assert!(app.render_full(NOW).contains("KILL 1 sessions (current skipped)? y/N"));
}

#[test]
fn headers_count_marked_sessions() {
    let mut app = start(&[("one", 20), ("two", 10), ("three", 5)], "one", "", "");
    send(&mut app, b"\x0cg ");

    let frame = app.render_full(NOW);
    assert!(frame.contains("\u{25bc} Ungrouped (1/3)"));
    assert!(frame.contains("> [x] one"));
    assert!(frame.contains("  [ ] two"));
    send(&mut app, b"\x0bh");
    assert!(app.render_full(NOW).contains("> \u{25b8} Ungrouped (1/3)"));
}

#[test]
fn narrow_screens_cut_their_lines() {
    let mut app = start(&[("one", 20), ("two", 10)], "one", "one\n", "");
    app.cols = 20;
    let frame = app.render_full(NOW);

    assert!(frame.contains(
        "\x1b[20;1H\x1b[2K\x1b[20;1H  \u{25bc} Ungr\u{2026}\x1b[20;11H  \u{25bc} Ungro\u{2026}"
    ));
    assert!(frame.contains("MODE normal: j/k mo\u{2026}"));
    send(&mut app, b"?");
    let frame = app.render_full(NOW);
    assert!(frame.contains("H+------------------+"));
    assert!(frame.contains("| Shortcuts        |"));
}
