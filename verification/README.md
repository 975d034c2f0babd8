# cmd_core

The verified core of `_cmd`, a workspace that watches an agent mesh and runs
local shell sessions side by side.

- `src/` is the library, verified with Verus: the agent registry and its
  summaries, terminal sessions and their pane tree, shell-output parsing
  (ANSI cleanup, OSC 7 / OSC 1337 reports, base64), command and directory
  history, transcript blocks and search, the views' state and keyboard
  shortcuts, the engine's step function, the mesh listener's record
  handling and demo data, and the management of the `~/.zshrc` block (with
  its laws: installing twice is installing once, and resetting right after
  installing gives the user's text back).
- `tests/` exercises the library on concrete values.
- `app/` is the program around it: the command line, files, processes, the
  async engine loop, JSON records, floating-point layout, and a console
  front end.
