# kbmd

A Markdown-native kanban. Cards are Markdown files with YAML frontmatter under `.kbmd/cards`; a
command line and a live terminal board read and write them.

The library in `src/` holds the rules and touches no file, no clock-driven loop and no terminal. Its
functions carry contracts that Verus proves:

- `frontmatter`, `markdown`, `comments` (with `source`, `outline`, `record` and `document`): card
  files, sections, checklists and managed comments;
- `properties`, `edits`, `adding`, `appending`, `registry`: what holds of the sections, the checklist
  items and the comments of every body, and what is read back of a body that was changed;
- `config`, `fields`, `model`, `change`, `store`: boards, cards, and what a new or changed card
  becomes;
- `cli`: what the commands make of their arguments, and what they print;
- `tui`: the state of the terminal board, its keys and mouse, its picture, and when it reads files
  again;
- `text`, `error`: texts and the wording of errors;
- `outside`: the calls into other crates, each with what is believed of it.

`app/` is the program around the library: arguments, files, locks, Git, and the terminal. `tests/`
holds the tests.
