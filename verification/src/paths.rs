//! Where the picker keeps its files.

use vstd::prelude::*;
use vstd::string::*;

verus! {

/// A path below a directory. An absolute path stands for itself.
pub open spec fn joined(dir: Seq<char>, below: Seq<char>) -> Seq<char> {
    if below.len() > 0 && below[0] == '/' {
        below
    } else if dir.len() == 0 || dir.last() == '/' {
        dir + below
    } else {
        dir + "/"@ + below
    }
}

/// The file that is set, or else the one below the home directory. Without a home
/// directory that is the one below the working directory.
pub open spec fn chosen_file(set: Option<Seq<char>>, home: Option<Seq<char>>, below_home: Seq<char>) -> Seq<char> {
    match set {
        Some(path) => path,
        None => match home {
            Some(dir) => joined(dir, below_home),
            None => joined("."@, below_home),
        },
    }
}

/// A path below a directory.
fn join(dir: &str, below: &str) -> (r: String)
    ensures
        r@ == joined(dir@, below@),
{
    let dir_len: usize = dir.unicode_len();
    if !below.is_empty() && below.get_char(0) == '/' {
        return below.to_owned();
    }
    let mut out = dir.to_owned();
    if dir_len > 0 && dir.get_char(dir_len - 1) != '/' {
        out.append("/");
    }
    out.append(below);
    out
}

/// The file that is set, or else the one below the home directory.
pub fn state_file(set: Option<String>, home: Option<String>, below_home: &str) -> (r: String)
    ensures
        r@ == chosen_file(
            crate::effects::text_view(set),
            crate::effects::text_view(home),
            below_home@,
        ),
{
    match set {
        Some(path) => path,
        None => match home {
            Some(dir) => join(&dir, below_home),
            None => join(".", below_home),
        },
    }
}

/// The pin file: the one that `TMUX_SESSION_PIN_FILE` has set, or else the one below `HOME`.
pub fn pin_file_path(set: Option<String>, home: Option<String>) -> (r: String)
    ensures
        r@ == chosen_file(
            crate::effects::text_view(set),
            crate::effects::text_view(home),
            ".config/tmux/session-pins"@,
        ),
{
    state_file(set, home, ".config/tmux/session-pins")
}

/// The group file: the one that `TMUX_SESSION_GROUP_FILE` has set, or else the one below `HOME`.
pub fn group_file_path(set: Option<String>, home: Option<String>) -> (r: String)
    ensures
        r@ == chosen_file(
            crate::effects::text_view(set),
            crate::effects::text_view(home),
            ".config/tmux/session-groups.toml"@,
        ),
{
    state_file(set, home, ".config/tmux/session-groups.toml")
}

/// A file below a directory is the directory's path, one slash, and the file's.
/// Without a home directory it is below the working directory. A file that is set
/// is taken as it is.
pub proof fn files_are_below_home(home: Seq<char>, below: Seq<char>, set: Seq<char>)
    requires
        home.len() > 0,
        home.last() != '/',
        below.len() > 0,
        below[0] != '/',
    ensures
        chosen_file(None, Some(home), below) == home + seq!['/'] + below,
        chosen_file(None, Some(home.push('/')), below) == home + seq!['/'] + below,
        chosen_file(None, None, below) == seq!['.', '/'] + below,
        chosen_file(Some(set), Some(home), below) == set,
        chosen_file(Some(set), None, below) == set,
{
    reveal_strlit("/");
    reveal_strlit(".");
    assert(home.push('/') + below =~= home + seq!['/'] + below);
    assert(home + "/"@ + below =~= home + seq!['/'] + below);
    assert("."@ + "/"@ + below =~= seq!['.', '/'] + below);
}

} // verus!
