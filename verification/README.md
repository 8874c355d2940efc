# medit

A small modeless terminal text editor, with its core written in Verus and
proved against its contracts.

- `src/` is the library: the gap buffer with its line index and undo/redo,
  incremental search, key bindings, configuration, the fuzzy file picker,
  the language-server session (requests, responses, diagnostics, code
  actions, workspace edits, message framing), the highlighted-line cache,
  the layout of every frame as a list of terminal commands, and the editor
  itself, whose actions are stated over an abstract model of its state.
  Work outside the process is asked for as effects and reported back.
- `app/` is the program around it: the terminal, files, the clipboard, the
  language-server process and its threads, reading a `.tmTheme` file, and
  the look at a file that picks its grammar.
- `tests/` exercise the library on concrete values.
