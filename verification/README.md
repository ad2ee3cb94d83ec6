# ccpark

Which terminal hosts a session, and how to bring it to the front: a library whose decisions are
proved with Verus, and the thin layer of an app around it that talks to the system.

- `src/` is the verified library.
  - `terminal`: terminals, processes, and the way from a process up to its terminal.
  - `session`, `walk`: session files and session logs in a directory tree.
  - `script`, `vscode`: the AppleScript for a window, and VS Code's own command line tool.
  - `focus`, `focus_mac`, `focus_win`: the flow of a request as a state machine per platform.
  - `ps`, `windows`: what the system says about processes and windows.
  - `native_path`: the two calls that depend on the platform's rules for paths.
  - `text`, `error`: texts as sequences of characters, and the answers to a request.
- `tests/` runs the library.
- `app/` reads files, runs commands, calls Win32, and offers the command to the front end.

A state machine says what to do (`action`) and takes what came of it (`advance`). Functions
that look things up take a closure for it (`read_dir`, `on_disk`, `read_entry`); their contracts
speak of whatever that closure may answer.

What is taken on trust: `String::push`, `char::from_u32`, `std::path::MAIN_SEPARATOR`,
`Path::parent` and `Path::join`, each as its documentation has it.
