# universal_gui

The library behind a graphical front end for command-line tools. A tool is
described by a `CommandSpec`: its program, its arguments (flags and
positionals, with their kinds) and how it uses its standard streams.

- `src/help_parser.rs` reads a tool's `--help` text into a `CommandSpec`: the
  usage line gives the program and positionals, flag lines give the flags
  with their placeholders and help.
- `src/import.rs` decides which probes (`--help`, `-h`, `--version`, `-V`) to
  run on a tool and what to make of their output, and the default id and title
  of an imported tool.
- `src/registry.rs` holds the built-in commands, merges in the user's saved
  commands (which override built-in ones by id), and names the files they are
  saved in.
- `src/runner.rs` builds the command line of an invocation and the plan that
  the process launcher carries out.
- `src/spec.rs` has the data types, `src/text.rs` the text primitives.

The functions in `src/` are verified with Verus against their contracts,
except five small trusted wrappers whose contracts are taken on trust: the
calls `String::push`, `str::to_uppercase`, `str::to_lowercase`,
`String::from_utf8_lossy` and `regex_syntax::is_word_character` (the Unicode
table behind `\w`).
`app/` holds the program around it: the JSON forms of the types, the data
folder, and running processes.
