# keydviz

The logic behind a visual face for [keyd](https://github.com/rvaiya/keyd), verified with
Verus: a library that decides, and a thin program around it that reads, writes and runs
processes.

- `src/` is the library. Every function states what it returns or changes, and Verus proves
  it. What the library promises as a whole stands in public proof functions beside the
  functions that they speak of.
- `app/` is the program: the privileged apply tool, and the viewer's side of files,
  processes, sockets and the tray. The window and the parser of keyd configs belong to a
  front end; what they know reaches the library as plain values.
- `tests/` runs the library.

The library in groups:

| Modules | What they decide |
| --- | --- |
| `names`, `scan`, `txn`, `runs`, `backups`, `deadman`, `fdio`, `tool` | the privileged tool: what it accepts, how it writes, keeps and reverts |
| `applying`, `apply_ctx` | the other end of that conversation, and the state of the apply panel |
| `editing`, `diff`, `drafts`, `edit_rows`, `edit_ui`, `edit_actions` | edit sessions, drafts, and the forms of edit mode |
| `devices`, `detect`, `create`, `sheets`, `prefs` | keyboards, the configs that govern them, and what is shown of them |
| `boards`, `glow`, `monitor`, `layer`, `helper`, `picker`, `ui_data`, `tray`, `probe`, `snapshot` | the live view |
| `text`, `strings`, `paths`, `order`, `fault` | texts, paths and errors |

A run of the tool, a transaction or a wait is a value: it says what it wants done, is told
what came of it, and goes on from there. So its contract holds whatever the system answers.
