# tmux-session-picker

Small terminal session picker for tmux, verified with Verus.

Sessions are shown in two side-by-side lists: `Active` on the left has the
pinned sessions, `All` on the right has every session. The picker starts focused
on `Active`. Sessions can be organized into named, collapsible groups.

## Layout

- `src/` is the library. All of its own logic is verified; trusted, by contracts
  that are stated and not proved, are three functions of `String` and `str` in
  `text` (`push`, `pop` and `to_lowercase`) and the calls into the `toml` crate in
  `document` (its value type and the conversions to and from it, reading a text,
  writing one). `picker` holds the state and its
  mathematical model; `keys`, `answers`, `pointer`, `navigation` and `organize`
  are what keys, questions, the mouse, the cursor and actions do to it; `layout`
  and `screen` say what is shown. `rows` builds the lists, `marks` keeps marked
  sessions, `sessions` reads and orders sessions, `groups`, `group_file` and
  `document` hold groups and their TOML file, `paths` says where files are,
  `mouse` decodes input, and `text`, `names` and `lists` are the ground they stand
  on. Laws are public proof functions beside what they speak of; `pins` has those
  of the order of sessions, and `soundness` has what every step keeps.
- `app/` is the program around it: the terminal, tmux and files. It hands the
  library what the user did, and does what the library hands back.
- `tests/` runs the library.

## Keys

| Key | Action |
| --- | --- |
| `j` / `k` | Move to the next / previous session |
| `Ctrl+h` / `Ctrl+l` | Focus `Active` / `All` |
| `Ctrl+j` / `Ctrl+k` | Move to the next / previous group header |
| `g` / `G` | Jump to the first / last session |
| `/` | Search sessions and groups by name |
| `Enter` | Switch session, toggle group, or act on marked sessions |
| `h` / `l` | Collapse / expand group |
| `n` / `r` / `d` | Create / rename / delete group |
| `Space` / `a` / `A` / `v` | Mark session or group / current group / whole list / nothing |
| `m` | Move sessions to a group |
| `p` | Pin or unpin sessions |
| `J` / `K` | Reorder group or pinned session |
| `x` | Kill sessions |
| `?` | Show shortcuts |
| `q` | Quit |

Group membership is kept in `~/.config/tmux/session-groups.toml`, or in the file
that `TMUX_SESSION_GROUP_FILE` names; pins are kept in
`~/.config/tmux/session-pins`, or in the file that `TMUX_SESSION_PIN_FILE` names.
