# thunderclap

A command-line framework over [clap]: an application describes its argument set
(`CommandArgs`), its values (`CommandArgsValue`) and the functions of its commands and
arguments (`CommandHandlerSet`); `CommandSet` then executes command lines, batch files and
interactive input, with variables (`set x 3`, `${x}`), a stack of results (`${0}` is the
latest) and builtin commands (`echo`, `show`, `set`, `stack_show`, `stack_push`,
`stack_pop`, `stack_clear`).

The library is written in Verus and its behaviour is stated in contracts:

- `src/text.rs`, `src/tokens.rs`: characters, numbers, lines and the splitting of a command
  line into words (quotes, backslash escapes);
- `src/store.rs`: variables, the result stack and the substitution of `${name}[key]...`
  references, with the laws that a variable and the latest result read back as `${name}` and
  `${0}`, and that text without `$` is left alone;
- `src/command_set.rs`: the builtins and the execution engine; input and output are requests
  (`IoRequest`) answered by the application (`IoReply`);
- `src/command.rs`: a command and its arguments as plain values (`CommandSpec`, `ArgSpec`),
  from which clap's command is made, with the conditions under which clap accepts it;
- `src/handler.rs`, `src/matches.rs`: routing of parsed command lines to handler functions,
  with the law that a subcommand runs the handler set registered under its name;
- `src/interactive.rs`: the interactive shell as a state machine (`ShellState::step`), with
  the law that the application is told `Finish` at most once;
- `src/arg_count.rs`, `src/json.rs`, `src/property.rs`, `src/traits.rs`: argument counts,
  JSON values, named properties and the application's traits;
- `src/clap_glue.rs`: the calls into clap, as small trusted wrappers; the parse of a command
  line is named (`clap_parse`) as a function of the command, its name and the words.

`app/` holds what touches the process: standard streams, files, the environment, exiting,
the loop of the interactive shell, and the error type with `Display`.
