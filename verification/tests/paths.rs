use tmux_session_picker::paths::{group_file_path, pin_file_path, state_file};

fn some(text: &str) -> Option<String> {
    Some(text.to_string())
}

#[test]
fn set_files_come_first() {
    assert_eq!(state_file(some("/tmp/pins"), some("/home/me"), "below"), "/tmp/pins");
    assert_eq!(state_file(some(""), some("/home/me"), "below"), "");
    assert_eq!(pin_file_path(some("pins"), None), "pins");
    assert_eq!(group_file_path(some("groups"), None), "groups");
}

#[test]
fn files_stand_below_the_home_directory() {
    assert_eq!(state_file(None, some("/home/me"), "below"), "/home/me/below");
    assert_eq!(state_file(None, some("/home/me/"), "below"), "/home/me/below");
    assert_eq!(state_file(None, some(""), "below"), "below");
    assert_eq!(state_file(None, some("/home/me"), "/below"), "/below");
    assert_eq!(state_file(None, None, "below"), "./below");
    assert_eq!(pin_file_path(None, some("/home/me")), "/home/me/.config/tmux/session-pins");
    assert_eq!(
        group_file_path(None, some("/home/me")),
        "/home/me/.config/tmux/session-groups.toml"
    );
    assert_eq!(pin_file_path(None, None), "./.config/tmux/session-pins");
}

#[test]
fn files_are_joined_as_paths_are() {
    for home in ["/home/me", "/home/me/", "", ".", "/"] {
        for below in ["below", "/below", ".config/tmux/session-pins"] {
            assert_eq!(
                state_file(None, some(home), below),
                std::path::PathBuf::from(home).join(below).to_str().unwrap()
            );
        }
    }
}
