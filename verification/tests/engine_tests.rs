use std::cell::RefCell;
use std::collections::HashMap;

use thunderclap::command::{ArgSpec, CommandSpec, ValueAction};
use thunderclap::{
    CommandArgs, CommandHandlerSet, CommandSet, ExecError, IoReply, IoRequest, Matches,
};

#[derive(Debug, Default)]
struct Calc {
    value: isize,
    args: Vec<isize>,
    sub: bool,
}

impl CommandArgs for Calc {
    type Error = String;
    type Value = isize;

    fn value_from_str(s: &str) -> Result<isize, String> {
        s.parse::<isize>().map_err(|e| e.to_string())
    }

    fn reset_args(&mut self) {
        self.args.clear();
        self.sub = false;
    }

    fn keys(&self) -> Vec<String> {
        vec!["acc".to_string(), "missing".to_string()]
    }

    fn value_str(&self, key: &str) -> Option<isize> {
        if key == "acc" {
            Some(self.value)
        } else {
            None
        }
    }
}

impl Calc {
    fn calc(&mut self) -> Result<isize, String> {
        for v in self.args.drain(..) {
            if self.sub {
                self.value -= v;
            } else {
                self.value += v;
            }
        }
        Ok(self.value)
    }
}

type CmdF = Box<dyn Fn(&mut Calc) -> Result<isize, String>>;
type ArgF = Box<dyn Fn(&mut Calc, &Matches) -> Result<(), ExecError<Calc>>>;
type ResetF = Box<dyn Fn(&mut Calc)>;
type Calculator = CommandSet<Calc, CmdF, ArgF, ResetF>;

fn calc_command() -> CommandSpec {
    CommandSpec::new("calc")
        .arg(ArgSpec::new("clear").long("clear").short('c').action(ValueAction::SetTrue))
        .arg(ArgSpec::new("sub").long("sub").short('s').action(ValueAction::SetTrue))
        .arg(ArgSpec::new("value").help("Values to add").num_args(0, usize::MAX).action(ValueAction::Append))
}

fn calc_handlers() -> CommandHandlerSet<Calc, CmdF, ArgF, ResetF> {
    let mut hs: CommandHandlerSet<Calc, CmdF, ArgF, ResetF> =
        CommandHandlerSet::new(Some(Box::new(|c: &mut Calc| c.calc())));
    hs.add_arg(
        "clear".to_string(),
        Box::new(|c: &mut Calc, m: &Matches| {
            if m.get_flag("clear") {
                c.value = 0;
            }
            Ok(())
        }),
    );
    hs.add_arg(
        "sub".to_string(),
        Box::new(|c: &mut Calc, m: &Matches| {
            c.sub = m.get_flag("sub");
            Ok(())
        }),
    );
    hs.add_arg(
        "value".to_string(),
        Box::new(|c: &mut Calc, m: &Matches| {
            if let Some(vs) = m.get_many("value") {
                for v in vs {
                    let n = v.parse::<isize>().map_err(|e| ExecError::SetArg(e.to_string()))?;
                    c.args.push(n);
                }
            }
            Ok(())
        }),
    );
    hs
}

/// Records the requests; files are read from `files`
struct Host {
    log: RefCell<Vec<String>>,
    files: HashMap<String, String>,
    input: RefCell<Vec<String>>,
}

impl Host {
    fn new() -> Self {
        Host { log: RefCell::new(vec![]), files: HashMap::new(), input: RefCell::new(vec![]) }
    }

    fn io(&self) -> impl Fn(IoRequest) -> IoReply + '_ {
        move |q| match q {
            IoRequest::Print(l) => {
                self.log.borrow_mut().push(format!("out:{l}"));
                IoReply::Done
            }
            IoRequest::EPrint(l) => {
                self.log.borrow_mut().push(format!("err:{l}"));
                IoReply::Done
            }
            IoRequest::ReadFile(p) => match self.files.get(&p) {
                Some(t) => IoReply::Text(t.clone()),
                None => IoReply::Failed("no such file".to_string()),
            },
            IoRequest::WriteFile { path, append, lines } => {
                self.log.borrow_mut().push(format!("file:{path}:{append}:{}", lines.join("|")));
                IoReply::Done
            }
            IoRequest::Exit { code, message, .. } => {
                self.log.borrow_mut().push(format!("exit:{code}:{message}"));
                IoReply::Done
            }
            IoRequest::ReadLine(prompt) => {
                self.log.borrow_mut().push(format!("prompt:{prompt}"));
                let mut input = self.input.borrow_mut();
                if input.is_empty() {
                    IoReply::EndOfInput
                } else {
                    IoReply::Text(input.remove(0))
                }
            }
        }
    }

    fn lines(&self) -> Vec<String> {
        self.log.borrow().clone()
    }
}

fn argv(words: &[&str]) -> Vec<String> {
    words.iter().map(|w| w.to_string()).collect()
}

#[test]
fn command_line_adds_values() {
    let mut main: Calculator = CommandSet::main(calc_command(), calc_handlers(), false, false);
    let mut args = Calc::default();
    let host = Host::new();
    assert!(main.execute(&mut args, argv(&["2", "5", "8"]), false, &host.io()).is_ok());
    assert_eq!(args.value, 15);
    assert!(main.execute(&mut args, argv(&["2", "--sub"]), false, &host.io()).is_ok());
    assert_eq!(args.value, 13);
}

#[test]
fn bad_value_is_an_error_in_a_batch() {
    let mut main: Calculator = CommandSet::main(calc_command(), calc_handlers(), false, false);
    let mut args = Calc::default();
    let host = Host::new();
    assert!(main.execute(&mut args, argv(&["3.0"]), true, &host.io()).is_err());
    assert!(main.execute(&mut args, argv(&["3"]), false, &host.io()).is_ok());
    assert_eq!(args.value, 3);
}

#[test]
fn unknown_option_asks_to_exit_outside_a_batch() {
    let mut main: Calculator = CommandSet::main(calc_command(), calc_handlers(), false, false);
    let mut args = Calc::default();
    let host = Host::new();
    assert!(main.execute(&mut args, argv(&["--bogus"]), false, &host.io()).is_err());
    let log = host.lines();
    assert_eq!(log.len(), 1);
    assert!(log[0].starts_with("exit:2:"), "{log:?}");
    let host = Host::new();
    assert!(main.execute(&mut args, argv(&["--bogus"]), true, &host.io()).is_err());
    assert!(host.lines().is_empty());
}

#[test]
fn batch_session_with_stack_and_variables() {
    let mut main: Calculator = CommandSet::main(calc_command(), calc_handlers(), true, false);
    let mut args = Calc::default();
    let host = Host::new();
    let io = host.io();
    assert!(main.execute(&mut args, argv(&["3.0"]), true, &io).is_err());
    assert!(main.execute(&mut args, argv(&["3"]), false, &io).is_ok());
    assert_eq!(args.value, 3);
    assert!(main.execute_batch(&mut args, "session", "\n", &io).is_ok());
    assert_eq!(args.value, 3);
    assert!(main.execute_batch(&mut args, "session", "\n1 4 5\n", &io).is_ok());
    assert_eq!(args.value, 3 + 1 + 4 + 5);
    let script = "
stack_push ${0} 17
echo \"The top value is ${1}\"
echo \"The second value is ${2}\"
stack_show
-c ${1} ${2}
-s 1 2 3
5
set x ${0}
6
-c ${x}
";
    assert!(main.execute_batch(&mut args, "session", script, &io).is_ok());
    assert_eq!(args.value, 17 + 13 - 1 - 2 - 3 + 5);
    let log = host.lines();
    assert!(log.contains(&"out:The top value is 17".to_string()), "{log:?}");
    assert!(log.contains(&"out:The second value is 13".to_string()), "{log:?}");
    // each builtin's own (default) result replaces the top entry
    assert!(log.contains(&"out:   0 : 0".to_string()), "{log:?}");
    assert!(log.contains(&"out:   1 : 17".to_string()), "{log:?}");
    assert!(log.contains(&"out:   2 : 13".to_string()), "{log:?}");
    assert!(log.contains(&"err:Set variable 'x' to value '29'".to_string()), "{log:?}");
}

#[test]
fn comments_and_blank_lines_do_nothing() {
    let mut main: Calculator = CommandSet::main(calc_command(), calc_handlers(), true, false);
    let mut args = Calc::default();
    let host = Host::new();
    let io = host.io();
    assert!(main.execute_batch(&mut args, "c", "# 100\n\n   \n#x 5\n2\n", &io).is_ok());
    assert_eq!(args.value, 2);
    assert!(main.execute_str_line(&mut args, "  # nothing", &io, 1).is_ok());
    assert_eq!(args.value, 2);
}

#[test]
fn substitution_reads_variables_results_and_arguments() {
    let mut main: Calculator = CommandSet::main(calc_command(), calc_handlers(), true, false);
    let mut args = Calc::default();
    let host = Host::new();
    let io = host.io();
    assert!(main.execute_batch(&mut args, "s", "7\nset y 40\n", &io).is_ok());
    assert_eq!(main.substitute(&args, "no dollars here").unwrap(), "no dollars here");
    assert_eq!(main.substitute(&args, "y=${y}").unwrap(), "y=40");
    assert_eq!(main.substitute(&args, "acc=${acc}").unwrap(), "acc=7");
    // the result of `set` is the default value, which is the latest result
    assert_eq!(main.substitute(&args, "${0}").unwrap(), "0");
    assert_eq!(main.substitute(&args, "cost $5 ${y}").unwrap(), "cost $5 40");
    assert_eq!(
        main.substitute(&args, "${nope}").unwrap_err(),
        "Failed to evaluate ${nope}"
    );
    assert_eq!(
        main.substitute(&args, "${3}").unwrap_err(),
        "Result stack is only 1 deep but requested 3"
    );
    assert_eq!(
        main.substitute(&args, "${y").unwrap_err(),
        "Bad variable specification - no closing '}'"
    );
    let (rest, value) = main.substitute_var(&args, "{y}tail").unwrap();
    assert_eq!(rest, "tail");
    assert_eq!(value.map(|v| *v), Some(40));
    let (rest, value) = main.substitute_var(&args, "plain").unwrap();
    assert_eq!(rest, "plain");
    assert!(value.is_none());
}

#[test]
fn parse_str_substitutes_unless_single_quoted() {
    let mut main: Calculator = CommandSet::main(calc_command(), calc_handlers(), true, false);
    let mut args = Calc::default();
    let host = Host::new();
    let io = host.io();
    assert!(main.execute_batch(&mut args, "p", "set z 9\n", &io).is_ok());
    let words = main.parse_str(&args, "echo ${z} \"${z}!\" '${z}'").unwrap();
    assert_eq!(words, vec!["echo", "9", "9!", "${z}"]);
}

#[test]
fn stack_builtins() {
    let mut main: Calculator = CommandSet::main(calc_command(), calc_handlers(), true, false);
    let mut args = Calc::default();
    let host = Host::new();
    let io = host.io();
    assert!(main.execute_batch(&mut args, "st", "stack_pop\n", &io).is_err());
    assert!(main.execute_batch(&mut args, "st", "1\n", &io).is_ok());
    assert_eq!(main.stack_show_lines(), vec!["   0 : 1"]);
    // the values replace the top entry, the last is copied, and push's result replaces the copy
    assert!(main.execute_batch(&mut args, "st", "stack_push 2 3\n", &io).is_ok());
    assert_eq!(main.stack_show_lines(), vec!["   0 : 0", "   1 : 3", "   2 : 2"]);
    // the entry above the bottom is taken off and becomes the latest result
    assert!(main.execute_batch(&mut args, "st", "stack_pop\n", &io).is_ok());
    assert_eq!(main.stack_show_lines(), vec!["   0 : 3", "   1 : 2"]);
    assert!(main.execute_batch(&mut args, "st", "stack_clear\n", &io).is_ok());
    assert_eq!(main.stack_show_lines(), vec!["   0 : 0"]);
    assert!(main.execute_batch(&mut args, "st", "stack_clear\n", &io).is_ok());
    assert_eq!(main.stack_show_lines(), vec!["   0 : 0"]);
}

#[test]
fn show_and_echo_builtins() {
    let mut main: Calculator = CommandSet::main(calc_command(), calc_handlers(), true, false);
    let mut args = Calc::default();
    let host = Host::new();
    let io = host.io();
    assert!(main.execute_batch(&mut args, "e", "12\nshow acc\nshow\necho --file out.txt a b\necho -a -f out.txt c\n", &io).is_ok());
    let log = host.lines();
    let acc_line = format!("out:{:20}: 12", "acc");
    assert_eq!(log.iter().filter(|l| **l == acc_line).count(), 2, "{log:?}");
    assert!(log.contains(&"file:out.txt:false:a|b".to_string()), "{log:?}");
    assert!(log.contains(&"file:out.txt:true:c".to_string()), "{log:?}");
    let r = main.execute_batch(&mut args, "e", "show missing\n", &io);
    assert_eq!(r.unwrap_err(), "Argument set does not have a value for '{k}'");
}

#[test]
fn command_errors_are_located() {
    let cmd_handlers = calc_handlers();
    let failing: CommandHandlerSet<Calc, CmdF, ArgF, ResetF> =
        CommandHandlerSet::new(Some(Box::new(|_c: &mut Calc| Err("boom".to_string()))));
    let mut main: Calculator = CommandSet::main(
        CommandSpec::new("calc").subcommand_required(false).subcommand(CommandSpec::new("fail")),
        {
            let mut hs = cmd_handlers;
            hs.add_subcommand("fail".to_string(), failing);
            hs
        },
        true,
        false,
    );
    let mut args = Calc::default();
    let host = Host::new();
    let io = host.io();
    let r = main.execute_batch(&mut args, "script", "\n\nfail\n", &io);
    assert_eq!(r.unwrap_err(), "script:3 failed to execute command: boom");
}

#[test]
fn ignore_errors_in_a_batch() {
    let failing: CommandHandlerSet<Calc, CmdF, ArgF, ResetF> =
        CommandHandlerSet::new(Some(Box::new(|_c: &mut Calc| Err("boom".to_string()))));
    let mut hs = calc_handlers();
    hs.add_subcommand("fail".to_string(), failing);
    let mut main: Calculator = CommandSet::main(
        CommandSpec::new("calc")
            .arg(ArgSpec::new("clear").long("clear").short('c').action(ValueAction::SetTrue))
            .subcommand(CommandSpec::new("fail")),
        hs,
        true,
        false,
    );
    let mut args = Calc::default();
    let host = Host::new();
    let io = host.io();
    assert!(main.execute_batch(&mut args, "b", "--ignore_errors fail\n", &io).is_ok());
    assert!(main.execute_batch(&mut args, "b", "fail\n", &io).is_err());
}

#[test]
fn batch_files_from_the_command_line() {
    let mut main: Calculator = CommandSet::main(calc_command(), calc_handlers(), true, false);
    let mut args = Calc::default();
    let mut host = Host::new();
    host.files.insert("one.tc".to_string(), "10\n20\n".to_string());
    let io = host.io();
    // each batch line starts by resetting the arguments, so the 5 of the command line is lost
    assert!(main.execute(&mut args, argv(&["--batch", "one.tc", "5"]), false, &io).is_ok());
    assert_eq!(args.value, 30);
    let r = main.execute(&mut args, argv(&["--batch", "none.tc"]), false, &io);
    assert_eq!(r.unwrap_err(), "failed to load batch file none.tc: no such file");
}

#[test]
fn execute_env_returns_the_final_result() {
    let mut main: Calculator = CommandSet::main(calc_command(), calc_handlers(), true, true);
    let mut args = Calc::default();
    let host = Host::new();
    let io = host.io();
    let r = main.execute_env(
        &mut args,
        argv(&["calc", "4", "5"]),
        vec![("HOME".to_string(), "12".to_string())],
        &io,
    );
    assert_eq!(r.unwrap(), "9");
    let log = host.lines();
    assert_eq!(log, vec!["err:Set variable 'HOME' to value '12'".to_string(), "out:9".to_string()]);
}

#[test]
fn interactive_lines_are_executed_until_the_input_ends() {
    let mut main: Calculator = CommandSet::main(calc_command(), calc_handlers(), false, true);
    let mut args = Calc::default();
    let host = Host::new();
    host.input.borrow_mut().extend(["1 2\n".to_string(), "nonsense\n".to_string(), "3\n".to_string()]);
    let io = host.io();
    assert!(main.execute(&mut args, argv(&["--interactive"]), false, &io).is_ok());
    assert_eq!(args.value, 6);
    let log = host.lines();
    assert_eq!(log.iter().filter(|l| l.starts_with("prompt:")).count(), 4, "{log:?}");
    assert!(log.iter().any(|l| l.starts_with("out:Error: ")), "{log:?}");
}

#[test]
fn final_result_of_an_empty_stack() {
    let mut main: Calculator = CommandSet::main(calc_command(), calc_handlers(), true, false);
    // the value of the empty text does not parse as a number
    assert!(main.final_result().is_err());
}

#[test]
fn execute_env_reports_errors() {
    let mut main: Calculator = CommandSet::main(calc_command(), calc_handlers(), true, false);
    let mut args = Calc::default();
    let host = Host::new();
    let io = host.io();
    // an environment variable that is not a value of the arguments is an error
    let r = main.execute_env(
        &mut args,
        argv(&["calc", "1"]),
        vec![("PATH".to_string(), "/bin".to_string())],
        &io,
    );
    assert_eq!(r.unwrap_err(), "invalid digit found in string");
    // a command that fails asks to exit with code 4, after printing the error
    let host = Host::new();
    let io = host.io();
    let r = main.execute_env(&mut args, argv(&["calc", "x"]), vec![], &io);
    assert!(r.is_err());
    let log = host.lines();
    assert_eq!(log.len(), 2, "{log:?}");
    assert_eq!(log[0], "err:failed to set argument to command: invalid digit found in string");
    assert_eq!(log[1], "exit:4:");
}

#[test]
fn final_result_takes_the_bottom_entry() {
    let mut main: Calculator = CommandSet::main(calc_command(), calc_handlers(), true, false);
    let mut args = Calc::default();
    let host = Host::new();
    let io = host.io();
    assert!(main.execute_batch(&mut args, "f", "4\nstack_push 7 8\n", &io).is_ok());
    assert_eq!(main.stack_show_lines(), vec!["   0 : 0", "   1 : 8", "   2 : 7"]);
    assert_eq!(main.final_result().unwrap(), "7");
    assert_eq!(main.stack_show_lines(), vec!["   0 : 0", "   1 : 8"]);
}

#[test]
fn batch_files_nested_too_deeply() {
    let mut main: Calculator = CommandSet::main(calc_command(), calc_handlers(), true, false);
    let mut args = Calc::default();
    let host = Host::new();
    let io = host.io();
    let r = main.execute_str_line(&mut args, "--batch self.tc", &io, 0);
    assert_eq!(r.unwrap_err(), "Batch files nested too deeply");
    assert!(main.execute_str_line(&mut args, "# a comment", &io, 0).is_ok());
}

#[test]
fn batch_files_run_batch_files() {
    let mut main: Calculator = CommandSet::main(calc_command(), calc_handlers(), true, false);
    let mut args = Calc::default();
    let mut host = Host::new();
    host.files.insert("outer.tc".to_string(), "--batch inner.tc
1
".to_string());
    host.files.insert("inner.tc".to_string(), "2
3
".to_string());
    let io = host.io();
    assert!(main.execute(&mut args, argv(&["--batch", "outer.tc"]), false, &io).is_ok());
    assert_eq!(args.value, 6);
}

#[test]
fn subcommand_without_a_handler_is_an_error() {
    let mut main: Calculator = CommandSet::main(
        CommandSpec::new("calc").subcommand(CommandSpec::new("orphan")),
        calc_handlers(),
        false,
        false,
    );
    let mut args = Calc::default();
    let host = Host::new();
    let r = main.execute(&mut args, argv(&["orphan"]), true, &host.io());
    assert_eq!(r.unwrap_err(), "Subcommand has no handler");
}

#[test]
fn execute_parsed_reports_a_refused_command_line() {
    let mut main: Calculator = CommandSet::main(calc_command(), calc_handlers(), true, false);
    let mut args = Calc::default();
    let host = Host::new();
    let io = host.io();
    let refusal = thunderclap::ClapFailure {
        message: "error: bad".to_string(),
        exit_code: 2,
        use_stderr: true,
    };
    let r = main.execute_parsed(&mut args, Err(refusal), true, String::new(), &io, 1);
    assert_eq!(r.unwrap_err(), "error: bad");
    assert!(host.lines().is_empty());
    let mut m = Matches::new();
    m.args.push(thunderclap::MatchArg { id: "value".to_string(), values: vec!["5".to_string()] });
    assert!(main.execute_parsed(&mut args, Ok(m), true, String::new(), &io, 1).is_ok());
    assert_eq!(args.value, 5);
}

#[test]
fn add_builtins_keeps_the_command_and_adds_the_builtins() {
    let c = Calculator::add_builtins(calc_command());
    let ids: Vec<&str> = c.args.iter().map(|a| a.id).collect();
    assert_eq!(ids, vec!["clear", "sub", "value", "ignore_errors"]);
    assert_eq!(c.args[3].long, Some("ignore_errors"));
    assert_eq!(c.args[3].action, Some(ValueAction::SetTrue));
    let names: Vec<&str> = c.subcommands.iter().map(|s| s.name).collect();
    assert_eq!(
        names,
        vec!["set", "show", "echo", "stack_show", "stack_push", "stack_clear", "stack_pop"]
    );
    let echo = &c.subcommands[2];
    assert_eq!(echo.args[0].short, Some('f'));
    assert_eq!(echo.args[0].long, Some("file"));
    assert_eq!(echo.args[1].short, Some('a'));
    assert_eq!(echo.args[1].action, Some(ValueAction::SetTrue));
    assert!(echo.args[2].required);
    assert_eq!(echo.args[2].action, Some(ValueAction::Append));
    let set = &c.subcommands[0];
    assert!(set.args[0].required && set.args[1].required);
    let pop = &c.subcommands[6];
    assert_eq!(pop.args[0].id, "n");
    assert_eq!(pop.args[0].default_value, Some("1"));
}

#[test]
fn reset_runs_before_the_arguments_are_handled() {
    let mut main: Calculator = CommandSet::main(calc_command(), calc_handlers(), false, false);
    let mut args = Calc::default();
    args.args = vec![100];
    args.sub = true;
    let host = Host::new();
    assert!(main.execute(&mut args, argv(&["4"]), false, &host.io()).is_ok());
    assert_eq!(args.value, 4);
}

#[test]
fn stack_pop_on_a_short_stack_is_an_underflow() {
    let mut main: Calculator = CommandSet::main(calc_command(), calc_handlers(), true, false);
    let mut args = Calc::default();
    let host = Host::new();
    let io = host.io();
    let r = main.execute(&mut args, argv(&["stack_pop"]), true, &io);
    assert_eq!(r.unwrap_err(), "Value stack underflow in pop");
}

#[test]
fn error_of_the_command_without_a_batch_has_the_empty_location() {
    let cmd_handlers = calc_handlers();
    let failing: CommandHandlerSet<Calc, CmdF, ArgF, ResetF> =
        CommandHandlerSet::new(Some(Box::new(|_c: &mut Calc| Err("boom".to_string()))));
    let mut main: Calculator = CommandSet::main(
        CommandSpec::new("calc").subcommand_required(false).subcommand(CommandSpec::new("fail")),
        {
            let mut hs = cmd_handlers;
            hs.add_subcommand("fail".to_string(), failing);
            hs
        },
        false,
        false,
    );
    let mut args = Calc::default();
    let host = Host::new();
    let r = main.execute(&mut args, argv(&["fail"]), true, &host.io());
    assert_eq!(r.unwrap_err(), ":0 failed to execute command: boom");
}

#[test]
fn a_failing_argument_function_stops_the_command() {
    let mut main: Calculator = CommandSet::main(calc_command(), calc_handlers(), false, false);
    let mut args = Calc::default();
    let host = Host::new();
    let r = main.execute(&mut args, argv(&["1", "x"]), true, &host.io());
    assert!(r.unwrap_err().starts_with("failed to set argument to command: "));
    assert_eq!(args.value, 0);
}

#[test]
fn unreadable_batch_file_is_reported() {
    let mut main: Calculator = CommandSet::main(calc_command(), calc_handlers(), true, false);
    let mut args = Calc::default();
    let host = Host::new();
    let r = main.execute(&mut args, argv(&["--batch", "nope.tc"]), false, &host.io());
    assert_eq!(r.unwrap_err(), "failed to load batch file nope.tc: no such file");
    assert_eq!(args.value, 0);
}

#[test]
fn show_prints_the_keys_before_a_missing_one() {
    let mut main: Calculator = CommandSet::main(calc_command(), calc_handlers(), true, false);
    let mut args = Calc::default();
    let host = Host::new();
    let io = host.io();
    assert!(main.execute_batch(&mut args, "e", "12\n", &io).is_ok());
    let before = host.lines().len();
    let r = main.execute_batch(&mut args, "e", "show acc missing acc\n", &io);
    assert_eq!(r.unwrap_err(), "Argument set does not have a value for '{k}'");
    let log = host.lines();
    let acc_line = format!("out:{:20}: 12", "acc");
    assert_eq!(log[before..].to_vec(), vec![acc_line]);
}

#[test]
fn commands_that_clap_accepts() {
    assert!(thunderclap::command::accepts(&calc_command()));
    assert!(Calculator::main_accepted(&calc_command(), true, true));
    let twice = CommandSpec::new("c").arg(ArgSpec::new("a")).arg(ArgSpec::new("a"));
    assert!(!thunderclap::command::accepts(&twice));
    let help_tag = CommandSpec::new("c").arg(ArgSpec::new("x").short('h'));
    assert!(!thunderclap::command::accepts(&help_tag));
    let help_sub = CommandSpec::new("c").subcommand(CommandSpec::new("help"));
    assert!(!thunderclap::command::accepts(&help_sub));
    let same_subs = CommandSpec::new("c").subcommand(CommandSpec::new("s")).subcommand(CommandSpec::new("s"));
    assert!(!thunderclap::command::accepts(&same_subs));
    let batch_twice = CommandSpec::new("c").arg(ArgSpec::new("batch").long("batch"));
    assert!(!Calculator::main_accepted(&batch_twice, true, false));
    assert!(Calculator::main_accepted(&batch_twice, false, false));
}

#[test]
fn failing_batch_line_stops_the_later_files() {
    let mut main: Calculator = CommandSet::main(calc_command(), calc_handlers(), true, false);
    let mut args = Calc::default();
    let mut host = Host::new();
    host.files.insert("first.tc".to_string(), "2\nx\n4\n".to_string());
    host.files.insert("second.tc".to_string(), "100\n".to_string());
    let io = host.io();
    let r = main.execute(&mut args, argv(&["--batch", "first.tc", "--batch", "second.tc"]), false, &io);
    assert_eq!(r.unwrap_err(), "failed to set argument to command: invalid digit found in string");
    // neither the line after the failing one nor the second file was executed
    assert_ne!(args.value, 4);
    assert_ne!(args.value, 100);
}
