# open_mouse_gesture

The settings and decision logic of a mouse-gesture utility, verified with
Verus.

- `src/` is the verified library:
  - `text`: string and character helpers with their specifications (Unicode
    trimming, ASCII case, decimal numbers).
  - `keys`: key codes (`KeyboardEvent.code` names) to display labels and
    Windows virtual-key codes.
  - `binding`: trigger bindings (`mouse:<button>`, `key:<modifiers>+<code>`):
    parsing, canonical text, normalization, with round-trip and idempotence
    laws.
  - `config`: gesture templates, actions, action groups and the
    configuration, with their normalization and validation.
  - `groups`: the group-resolution pass of normalization.
  - `actions`: trigger slots, action keys, gesture lookup and action labels.
  - `commands`: adding, replacing and removing actions and gesture templates,
    with the laws those edits keep.
  - `manager`: the checks made when settings are read, written, imported.
  - `hook`: the state machine the input hooks drive during a gesture (slot
    priority, no left-button start, Escape cancellation, the 120 ms release
    confirmation, one idempotent teardown) and the decisions at its end.
- `tests/` runs the library on concrete values.
- `app/` is the command-line front end: files on disk (with a backup before
  a reset or a sanitizing rewrite), JSON, process state, and a replay driver
  that feeds hook events to the session.
