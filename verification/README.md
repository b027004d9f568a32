# picky

A keyboard-driven launcher for the niri compositor: one search field over
installed applications, open windows, workspaces and mako notifications.

- `src/` is the verified library.
  - `text.rs`: characters, whitespace, trimming, words, lower-casing, decimal
    numbers, byte order of strings.
  - `fuzzy.rs`: scoring a query against one text or against weighted fields.
  - `module.rs`: the result type, the `Module` trait and the registry that asks
    every module and ranks the results.
  - `modules/`: applications (desktop entry files), niri windows, niri
    workspaces, mako notifications. Each module reaches the outside world
    through a small backend trait; the decisions around it are verified.
    The `Module` and backend traits record each call in a relation
    (`answers_search`, `focuses`, `runs`, ...), so that a contract can say
    which module or backend was asked what, and that its answer is what came
    back.
  - `picker.rs`: the picker window as a state machine from events to a new
    state and commands.
  - `icons.rs`: icon files, their scores, and the index from icon names to files.
  - `thumbnails.rs`: the thumbnail request and the PNG bytes of a reply.
- `app/` is the program: the iced window, the processes, files, sockets and
  JSON replies behind the backends.
- `tests/` runs the library on concrete values.
