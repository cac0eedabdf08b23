# Som

The logic of a terminal with tabs that outlive its window: what is remembered between sessions, how
tabs come back, how the relay on other machines is kept up to date, what of a terminal is drawn, how
settings become keys and settings of the parts, and how workspaces are stored.

- `src/` is the library. Its functions have contracts that Verus proves. The few calls into other
  crates (`uuid`, `regex`, `indexmap`, `chrono`, `urlencoding`, `url`) and into std stand behind small
  functions. Their contracts are stated beside them and not proved; of the text that quotes a
  path nothing is stated.
- `tests/` runs the library on concrete values.
- `app/` is the program around it: arguments, files, processes, and a front end without a screen.

Work that waits for something outside, such as restoring tabs, deploying the relay, connecting a tab or
leaving the program, is a run: a value with a `next` that takes what came back and says what to do.
