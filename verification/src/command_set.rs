//! A built command with its handlers: command-line, batch and interactive execution, with
//! variables and a stack of results.
use std::rc::Rc;
use vstd::prelude::*;
use vstd::string::StrSliceExecFns;

use crate::clap_glue;
use crate::command::{command_wf, ArgModel, ArgSpec, CommandModel, CommandSpec, ValueAction};
use crate::handler::{
    arg_called, in_run, lemma_run_concat, lemma_run_extend, run_error, run_shape, step_ensures, Call,
    CommandHandlerSet,
};
use crate::matches::Matches;
use crate::store::{
    after_result, drop_top, dup_top, fault_message, lookup_var, names_unique, parse_values,
    parsed_line, substituted, values_of, var_ref, VarError, VarFault, VarStore,
};
use crate::text;
use crate::{CommandArgs, CommandArgsValue, ExecError};

verus! {

/// How deeply batch files may execute batch files: as deeply as a count can go
pub const MAX_BATCH_DEPTH: usize = usize::MAX;

/// An input or output that the execution of commands needs; the application performs it
pub enum IoRequest {
    /// print a line to standard output
    Print(String),
    /// print a line to standard error
    EPrint(String),
    /// read the whole of a file
    ReadFile(String),
    /// write lines to a file: appending (creating it if missing), or replacing its contents
    WriteFile { path: String, append: bool, lines: Vec<String> },
    /// print the message (to standard error or standard output) and exit with the code
    Exit { code: i32, message: String, to_stderr: bool },
    /// show the prompt (with no newline), flush standard output, and read a line of input
    ReadLine(String),
}

/// The outcome of an input or output
pub enum IoReply {
    /// done
    Done,
    /// the text that was read
    Text(String),
    /// it failed, for this reason
    Failed(String),
    /// the file could not be opened, for this reason
    OpenFailed(String),
    /// writing to the file failed
    WriteFailed,
    /// there is no more input
    EndOfInput,
}

/// The error of the argument set made from a text
pub open spec fn error_from_text<C: CommandArgs>(e: C::Error, t: Seq<char>) -> bool {
    exists|m: String| m@ == t && #[trigger] call_ensures(C::Error::from, (m,), e)
}

/// The error of the argument set made from a text that starts with `p`
pub open spec fn error_from_prefix<C: CommandArgs>(e: C::Error, p: Seq<char>) -> bool {
    exists|m: String| p.is_prefix_of(m@) && #[trigger] call_ensures(C::Error::from, (m,), e)
}

proof fn lemma_error_prefix<C: CommandArgs>(e: C::Error, p: Seq<char>, t: Seq<char>)
    requires
        error_from_text::<C>(e, p + t),
    ensures
        error_from_prefix::<C>(e, p),
{
    let m = choose|m: String| m@ == p + t && call_ensures(C::Error::from, (m,), e);
    assert((p + t).subrange(0, p.len() as int) =~= p);
}

/// The error of the argument set made from a text
fn error_from<C: CommandArgs>(m: String) -> (e: C::Error)
    ensures
        error_from_text::<C>(e, m@),
{
    m.into()
}


/// The builtin commands of batch and interactive operation
#[derive(Debug, Clone, Copy, PartialEq, Eq, Structural)]
pub enum Builtin {
    Echo,
    Show,
    SetVar,
    StackShow,
    StackPush,
    StackPop,
    StackClear,
}

/// The builtin command of a subcommand name, if it names one
pub open spec fn builtin_named(name: Seq<char>) -> Option<Builtin> {
    if name == "echo"@ {
        Some(Builtin::Echo)
    } else if name == "show"@ {
        Some(Builtin::Show)
    } else if name == "set"@ {
        Some(Builtin::SetVar)
    } else if name == "stack_show"@ {
        Some(Builtin::StackShow)
    } else if name == "stack_push"@ {
        Some(Builtin::StackPush)
    } else if name == "stack_pop"@ {
        Some(Builtin::StackPop)
    } else if name == "stack_clear"@ {
        Some(Builtin::StackClear)
    } else {
        None
    }
}

/// The builtin command of a subcommand name, if it names one
pub fn builtin_of(name: &str) -> (r: Option<Builtin>)
    ensures
        r == builtin_named(name@),
{
    if text::str_eq(name, "echo") {
        Some(Builtin::Echo)
    } else if text::str_eq(name, "show") {
        Some(Builtin::Show)
    } else if text::str_eq(name, "set") {
        Some(Builtin::SetVar)
    } else if text::str_eq(name, "stack_show") {
        Some(Builtin::StackShow)
    } else if text::str_eq(name, "stack_push") {
        Some(Builtin::StackPush)
    } else if text::str_eq(name, "stack_pop") {
        Some(Builtin::StackPop)
    } else if text::str_eq(name, "stack_clear") {
        Some(Builtin::StackClear)
    } else {
        None
    }
}

/// The builtin command that matches give as their subcommand, if any
pub open spec fn builtin_of_matches(m: Matches) -> Option<Builtin> {
    match m.subcommand {
        Some((n, _)) => builtin_named(n@),
        None => None,
    }
}


/// Where in a batch file an error of a command comes from: "name:line " of the innermost batch
/// being executed (no name and line 0 when there is none)
pub open spec fn location(stack: Seq<(String, Option<usize>)>) -> Seq<char> {
    if stack.len() > 0 {
        stack.last().0@ + ":"@ + text::decimal(
            match stack.last().1 {
                Some(l) => l as nat,
                None => 0,
            },
        ) + " "@
    } else {
        ":0 "@
    }
}

/// The name that clap is to give the command: that of the innermost batch file, with its line
/// where it counts lines
pub open spec fn bin_name_of(stack: Seq<(String, Option<usize>)>) -> Option<Seq<char>> {
    if stack.len() > 0 {
        Some(
            match stack.last().1 {
                Some(l) => stack.last().0@ + " line "@ + text::decimal(l as nat),
                None => stack.last().0@,
            },
        )
    } else {
        None
    }
}

/// The name in the prompt of interactive input: that of the innermost batch file, with its
/// line, or nothing
pub open spec fn prompt_name_of(stack: Seq<(String, Option<usize>)>) -> Seq<char> {
    match bin_name_of(stack) {
        Some(b) => b,
        None => Seq::empty(),
    }
}

/// The stack of batch files after a line is read: the line number of the innermost batch (if
/// it counts lines) goes up by one
pub open spec fn next_line(stack: Seq<(String, Option<usize>)>) -> Seq<(String, Option<usize>)> {
    if stack.len() > 0 {
        let top = stack.last();
        stack.drop_last().push(
            (
                top.0,
                match top.1 {
                    Some(l) => Some(
                        if l < usize::MAX {
                            (l + 1) as usize
                        } else {
                            l
                        },
                    ),
                    None => None,
                },
            ),
        )
    } else {
        stack
    }
}

/// Whether a line of words is a comment: its first word starts with '#'
pub open spec fn is_comment(words: Seq<Seq<char>>) -> bool {
    words.len() > 0 && words[0].len() > 0 && words[0][0] == '#'
}

/// A line that does nothing when executed: it parses to no words, or to a comment
pub open spec fn inert_line<C: CommandArgs>(
    vars: Seq<(String, Rc<C::Value>)>,
    history: Seq<Rc<C::Value>>,
    args: C,
    l: Seq<char>,
) -> bool {
    parsed_line(vars, history, args, text::trimmed(l)) matches Ok(w) && (w.len() == 0
        || is_comment(w))
}

/// Every line of a text does nothing when executed
pub open spec fn inert_text<C: CommandArgs>(
    vars: Seq<(String, Rc<C::Value>)>,
    history: Seq<Rc<C::Value>>,
    args: C,
    s: Seq<char>,
) -> bool {
    forall|j: int|
        0 <= j < text::lines_of(s).len() ==> #[trigger] inert_line::<C>(
            vars,
            history,
            args,
            text::lines_of(s)[j],
        )
}

/// The first `k` lines of a text do nothing when executed
pub open spec fn inert_prefix<C: CommandArgs>(
    vars: Seq<(String, Rc<C::Value>)>,
    history: Seq<Rc<C::Value>>,
    args: C,
    s: Seq<char>,
    k: int,
) -> bool {
    forall|j: int|
        0 <= j < k ==> #[trigger] inert_line::<C>(vars, history, args, text::lines_of(s)[j])
}

/// The error with which a line fails before anything of it is executed, if it does: a fault
/// of its substitution, or a command when batch files are nested too deeply
pub open spec fn early_error<C: CommandArgs>(
    vars: Seq<(String, Rc<C::Value>)>,
    history: Seq<Rc<C::Value>>,
    args: C,
    l: Seq<char>,
    depth: usize,
) -> Option<Seq<char>> {
    match parsed_line(vars, history, args, text::trimmed(l)) {
        Err(f) => Some(fault_message(f)),
        Ok(w) => if w.len() > 0 && !is_comment(w) && depth == 0 {
            Some("Batch files nested too deeply"@)
        } else {
            None
        },
    }
}

proof fn lemma_inert_prefix_next<C: CommandArgs>(
    vars: Seq<(String, Rc<C::Value>)>,
    history: Seq<Rc<C::Value>>,
    args: C,
    s: Seq<char>,
    k: int,
)
    requires
        0 <= k,
    ensures
        inert_prefix::<C>(vars, history, args, s, k + 1) == (inert_prefix::<C>(vars, history, args, s, k)
            && inert_line::<C>(vars, history, args, text::lines_of(s)[k])),
{
    if inert_prefix::<C>(vars, history, args, s, k + 1) {
        assert(inert_line::<C>(vars, history, args, text::lines_of(s)[k]));
    }
}

proof fn lemma_inert_prefix_mono<C: CommandArgs>(
    vars: Seq<(String, Rc<C::Value>)>,
    history: Seq<Rc<C::Value>>,
    args: C,
    s: Seq<char>,
    k: int,
    j: int,
)
    requires
        0 <= k <= j,
        inert_prefix::<C>(vars, history, args, s, j),
    ensures
        inert_prefix::<C>(vars, history, args, s, k),
{
}

/// Two stacks of batch files are the same but for the line number of the innermost one
pub open spec fn same_but_line(a: Seq<(String, Option<usize>)>, b: Seq<(String, Option<usize>)>) -> bool {
    &&& a.len() == b.len()
    &&& a.len() > 0 ==> a.drop_last() == b.drop_last() && a.last().0 == b.last().0
}

/// The matches give the argument with the id a value
pub open spec fn has_value(m: Matches, id: Seq<char>) -> bool {
    m.values_of(id) matches Some(v) && v.len() > 0
}

/// The values that `echo` prints: those of its `values` argument
pub open spec fn echo_values(m: Matches) -> Seq<Seq<char>> {
    match m.texts_of("values"@) {
        Some(v) => v,
        None => Seq::empty(),
    }
}

/// The request writes the lines to the file, appending or replacing its contents
pub open spec fn writes_echo(q: IoRequest, file: Seq<char>, append: bool, lines: Seq<Seq<char>>) -> bool {
    q matches IoRequest::WriteFile { path, append: a, lines: l } && path@ == file && a == append
        && crate::store::strings_view(l@) == lines
}

/// The message of a file that `echo` cannot open
pub open spec fn echo_open_message(file: Seq<char>, e: Seq<char>) -> Seq<char> {
    "Failed to create '"@ + file + "' to echo output to ("@ + e + ")"@
}

/// What `echo` to a file gives for the reply to its write
pub open spec fn echo_outcome<C: CommandArgs>(
    file: Seq<char>,
    reply: IoReply,
    r: Result<Rc<C::Value>, C::Error>,
) -> bool {
    match reply {
        IoReply::OpenFailed(e) => r matches Err(x) && error_from_text::<C>(x, echo_open_message(file, e@)),
        IoReply::WriteFailed => r matches Err(x) && error_from_text::<C>(
            x,
            "Failed to write to echo output file"@,
        ),
        _ => exists|res: Result<C::Value, C::Error>|
            #![trigger call_ensures(C::cmd_ok, (), res)]
            call_ensures(C::cmd_ok, (), res) && cmd_ok_shared::<C>(res, r),
    }
}

/// A builtin's result, as the builtins give it: its value, or its error
pub open spec fn some_result<V, E>(r: Result<Rc<V>, E>) -> Result<Option<Rc<V>>, E> {
    match r {
        Ok(v) => Ok(Some(v)),
        Err(e) => Err(e),
    }
}

/// The result is the argument set's successful result (`cmd_ok`), shared, as a builtin's
pub open spec fn cmd_ok_builtin<C: CommandArgs>(r: Result<Option<Rc<C::Value>>, C::Error>) -> bool {
    exists|res: Result<C::Value, C::Error>, r1: Result<Rc<C::Value>, C::Error>|
        #![trigger call_ensures(C::cmd_ok, (), res), some_result(r1)]
        call_ensures(C::cmd_ok, (), res) && cmd_ok_shared::<C>(res, r1) && r == some_result(r1)
}

/// What `echo` gives for its matches: without a file, the argument set's result; with one,
/// the outcome of the request that writes the values to it (appending with `--append`)
pub open spec fn echo_result<C: CommandArgs, IO: Fn(IoRequest) -> IoReply>(
    io: &IO,
    m: Matches,
    r: Result<Rc<C::Value>, C::Error>,
) -> bool {
    &&& !has_value(m, "file"@) ==> exists|res: Result<C::Value, C::Error>|
        #![trigger call_ensures(C::cmd_ok, (), res)]
        call_ensures(C::cmd_ok, (), res) && cmd_ok_shared::<C>(res, r)
    &&& !has_value(m, "file"@) ==> forall|i: int|
        0 <= i < echo_values(m).len() ==> printed(io, #[trigger] echo_values(m)[i])
    &&& has_value(m, "file"@) ==> exists|q: IoRequest, reply: IoReply|
        #![trigger io.ensures((q,), reply)]
        io.ensures((q,), reply) && writes_echo(
            q,
            m.first_value("file"@),
            m.get_flag_spec("append"@),
            echo_values(m),
        ) && echo_outcome::<C>(m.first_value("file"@), reply, r)
}

/// What `show` gives for its matches: a key without a value in the arguments is an error;
/// otherwise the argument set's result
pub open spec fn show_result<C: CommandArgs, IO: Fn(IoRequest) -> IoReply>(
    io: &IO,
    args: C,
    m: Matches,
    r: Result<Rc<C::Value>, C::Error>,
) -> bool {
    &&& m.values_of("key"@) matches Some(ks) ==> forall|i: int|
        #![trigger ks[i]]
        0 <= i < ks.len() && (forall|j: int| 0 <= j <= i ==> args.spec_value_str(#[trigger] ks[j]@) is Some)
            ==> printed(io, key_line(ks[i]@, args.spec_value_str(ks[i]@)->Some_0.spec_value_string()))
    &&& (m.values_of("key"@) matches Some(ks) && !all_keys_have_values(args, ks)) ==> (
    r matches Err(e) && error_from_text::<C>(e, "Argument set does not have a value for '{k}'"@))
    &&& m.values_of("key"@) is None ==> exists|ks: Vec<String>|
        #![trigger call_ensures(C::keys, (&args,), ks)]
        call_ensures(C::keys, (&args,), ks) && forall|i: int|
            #![trigger ks@[i]]
            0 <= i < ks@.len() && args.spec_value_str(ks@[i]@) is Some ==> printed(
                io,
                key_line(ks@[i]@, args.spec_value_str(ks@[i]@)->Some_0.spec_value_string()),
            )
    &&& (m.values_of("key"@) matches Some(ks) ==> all_keys_have_values(args, ks)) ==> exists|
        res: Result<C::Value, C::Error>,
    |
        #![trigger call_ensures(C::cmd_ok, (), res)]
        call_ensures(C::cmd_ok, (), res) && cmd_ok_shared::<C>(res, r)
}

/// What the builtin `set` does after offering the value `x` of the key to the arguments, which
/// answered `t`: where they failed or took the key, the variables stay as they were; only
/// where they did not take it is the variable of the key set to the value
pub open spec fn set_answered<C: CommandArgs>(
    before: Seq<(String, Rc<C::Value>)>,
    after: Seq<(String, Rc<C::Value>)>,
    key: Seq<char>,
    x: C::Value,
    t: Result<bool, C::Error>,
) -> bool {
    match t {
        Err(e) => after == before,
        Ok(true) => after == before,
        Ok(false) => sets_variable(before, after, key, x),
    }
}

/// The values of the first `i` pairs parse as values of the arguments
pub open spec fn values_parse<C: CommandArgs>(vars: Seq<(String, String)>, i: int) -> bool {
    forall|j: int| 0 <= j < i ==> (#[trigger] C::spec_value_from_str(vars[j].1@)) is Ok
}

/// Every key has a value in the arguments
pub open spec fn all_keys_have_values<C: CommandArgs>(args: C, keys: Seq<String>) -> bool {
    forall|i: int| 0 <= i < keys.len() ==> args.spec_value_str(#[trigger] keys[i]@) is Some
}

/// A shared result is the argument set's result, shared
pub open spec fn cmd_ok_shared<C: CommandArgs>(
    res: Result<C::Value, C::Error>,
    r: Result<Rc<C::Value>, C::Error>,
) -> bool {
    match (res, r) {
        (Ok(v), Ok(rv)) => *rv == v,
        (Err(e), Err(re)) => re == e,
        _ => false,
    }
}

/// An argument with only an id and help text
pub open spec fn helped_arg(id: Seq<char>, help: Seq<char>) -> ArgModel {
    ArgModel {
        id,
        long: None,
        short: None,
        help: Some(help),
        required: false,
        action: None,
        num_args: None,
        default_value: None,
    }
}

/// A command with only a name and help text
pub open spec fn helped_command(name: Seq<char>, about: Seq<char>) -> CommandModel {
    CommandModel {
        name,
        about: Some(about),
        no_binary_name: false,
        subcommand_required: false,
        args: Seq::empty(),
        subcommands: Seq::empty(),
    }
}

/// The `--batch` argument of the command line: batch files, each given with its own tag
pub open spec fn batch_arg() -> ArgModel {
    ArgModel {
        long: Some("batch"@),
        action: Some(ValueAction::Append),
        ..helped_arg("batch"@, "Execute a batch set of commands"@)
    }
}

/// The `--interactive` flag of the command line
pub open spec fn interactive_arg() -> ArgModel {
    ArgModel {
        long: Some("interactive"@),
        action: Some(ValueAction::SetTrue),
        ..helped_arg(
            "interactive"@,
            "Run comamnds from stdin after executing any batches or other provided commands"@,
        )
    }
}

/// The `--ignore_errors` flag of batch lines
pub open spec fn ignore_errors_arg() -> ArgModel {
    ArgModel {
        long: Some("ignore_errors"@),
        action: Some(ValueAction::SetTrue),
        ..helped_arg(
            "ignore_errors"@,
            "Ignore errors - i.e. do not exit if an error occurs, but return an empty result"@,
        )
    }
}

/// The builtin `set`: a required key and a required value
pub open spec fn set_command() -> CommandModel {
    CommandModel {
        args: seq![
            ArgModel { required: true, ..helped_arg("key"@, "Variable name to set"@) },
            ArgModel { required: true, ..helped_arg("value"@, "Value to set the variable name to"@) },
        ],
        ..helped_command("set"@, "Set a thunderclap variable to a value"@)
    }
}

/// The builtin `show`: any number of keys
pub open spec fn show_command() -> CommandModel {
    CommandModel {
        args: seq![ArgModel { action: Some(ValueAction::Append), ..helped_arg("key"@, "Keys to show"@) }],
        ..helped_command("show"@, "Show a value from the command argument set"@)
    }
}

/// The builtin `echo`: an optional file (`-f`, `--file`), the flag `-a` / `--append`, and
/// one or more values
pub open spec fn echo_command() -> CommandModel {
    CommandModel {
        args: seq![
            ArgModel {
                long: Some("file"@),
                short: Some('f'),
                ..helped_arg("file"@, "File to write output to"@)
            },
            ArgModel {
                long: Some("append"@),
                short: Some('a'),
                action: Some(ValueAction::SetTrue),
                ..helped_arg("append"@, "If writing to file, then append, don't overwrite"@)
            },
            ArgModel {
                required: true,
                action: Some(ValueAction::Append),
                ..helped_arg("values"@, "Values to print out"@)
            },
        ],
        ..helped_command("echo"@, "Print to a file or stdout"@)
    }
}

/// The builtin `stack_show`
pub open spec fn stack_show_command() -> CommandModel {
    helped_command("stack_show"@, "Show the values on the value history stack"@)
}

/// The builtin `stack_push`: any number of values
pub open spec fn stack_push_command() -> CommandModel {
    CommandModel {
        args: seq![
            ArgModel {
                action: Some(ValueAction::Append),
                ..helped_arg(
                    "values"@,
                    "Values to push onto the stack; default is to push the last nonempty result"@,
                )
            },
        ],
        ..helped_command("stack_push"@, "Push values onto the value history stack"@)
    }
}

/// The builtin `stack_clear`
pub open spec fn stack_clear_command() -> CommandModel {
    helped_command("stack_clear"@, "Clear the value history stack"@)
}

/// The builtin `stack_pop`: a count `n`, 1 by default
pub open spec fn stack_pop_command() -> CommandModel {
    CommandModel {
        args: seq![
            ArgModel {
                action: Some(ValueAction::SetOne),
                default_value: Some("1"@),
                ..helped_arg("n"@, "Number of value to pop from the stacks"@)
            },
        ],
        ..helped_command("stack_pop"@, "Pop one (or more) values from the stack"@)
    }
}

/// A command with the builtins added after its own arguments and subcommands
pub open spec fn with_builtins(c: CommandModel) -> CommandModel {
    CommandModel {
        args: c.args.push(ignore_errors_arg()),
        subcommands: c.subcommands.push(set_command()).push(show_command()).push(echo_command()).push(
            stack_show_command(),
        ).push(stack_push_command()).push(stack_clear_command()).push(stack_pop_command()),
        ..c
    }
}

/// The user's command as `main` makes it ready for batches: taking no binary name, and with
/// batch operation taking `--batch` files
pub open spec fn main_base_command(c: CommandModel, allow_batch: bool) -> CommandModel {
    let c1 = CommandModel { no_binary_name: true, ..c };
    if allow_batch {
        CommandModel { subcommand_required: false, args: c1.args.push(batch_arg()), ..c1 }
    } else {
        c1
    }
}

/// The command of the command line that `main` makes: with interactive operation it also takes
/// `--interactive`
pub open spec fn main_line_command(c: CommandModel, allow_batch: bool, allow_interactive: bool) -> CommandModel {
    let c2 = main_base_command(c, allow_batch);
    if allow_interactive {
        CommandModel { subcommand_required: false, args: c2.args.push(interactive_arg()), ..c2 }
    } else {
        c2
    }
}

/// The command of batch lines that `main` makes: with batch or interactive operation, the
/// builtins are added
pub open spec fn main_batch_command(c: CommandModel, allow_batch: bool, allow_interactive: bool) -> CommandModel {
    let c2 = main_base_command(c, allow_batch);
    if allow_batch || allow_interactive {
        with_builtins(c2)
    } else {
        c2
    }
}

/// clap accepts both commands that `main` makes of the user's command
pub open spec fn main_accepts(c: CommandModel, allow_batch: bool, allow_interactive: bool) -> bool {
    &&& command_wf(main_line_command(c, allow_batch, allow_interactive))
    &&& command_wf(main_batch_command(c, allow_batch, allow_interactive))
}

/// The line that shows an entry of the result stack, counting from the top
pub open spec fn stack_line(i: nat, v: Seq<char>) -> Seq<char> {
    text::pad_left(text::decimal(i), 4) + " : "@ + v
}

/// The lines that show the result stack, the top (latest) first
pub open spec fn stack_lines<V: CommandArgsValue>(h: Seq<V>) -> Seq<Seq<char>> {
    Seq::new(h.len(), |i: int| stack_line(i as nat, h[h.len() - 1 - i].spec_value_string()))
}

/// The line that shows a key of the arguments and its value
pub open spec fn key_line(k: Seq<char>, v: Seq<char>) -> Seq<char> {
    text::pad_right(k, 20) + ": "@ + v
}

/// The variables after the one of the name is set to the value: it holds the value, and the
/// others are as they were
pub open spec fn sets_variable<V>(
    before: Seq<(String, Rc<V>)>,
    after: Seq<(String, Rc<V>)>,
    name: Seq<char>,
    x: V,
) -> bool {
    &&& lookup_var(after, name) == Some(x)
    &&& forall|n: Seq<char>| n != name ==> lookup_var(after, n) == lookup_var(before, n)
}

/// The value that the last pair of the name gives, parsed (none where it does not parse)
pub open spec fn env_lookup<C: CommandArgs>(vars: Seq<(String, String)>, name: Seq<char>) -> Option<C::Value>
    decreases vars.len(),
{
    if vars.len() == 0 {
        None
    } else if vars.last().0@ == name {
        match C::spec_value_from_str(vars.last().1@) {
            Ok(x) => Some(x),
            Err(_) => None,
        }
    } else {
        env_lookup::<C>(vars.drop_last(), name)
    }
}

/// The final result of a program, of its stack of results: the bottom entry as text, or the
/// value of the empty text when the stack is empty
pub open spec fn final_outcome<C: CommandArgs>(h: Seq<Rc<C::Value>>, r: Result<String, C::Error>) -> bool {
    if h.len() > 0 {
        r matches Ok(s) && s@ == (*h[0]).spec_value_string()
    } else {
        match C::spec_value_from_str(Seq::empty()) {
            Ok(v) => r matches Ok(s) && s@ == v.spec_value_string(),
            Err(e) => r == Err::<String, C::Error>(e),
        }
    }
}

/// A built command with its handlers, and handlers for the hierarchy of subcommands, with the
/// state of batch and interactive operation: the stack of batch files being executed (with
/// their line numbers), the variables, and the stack of results.
pub struct CommandSet<C: CommandArgs, F, A, R> {
    command: CommandSpec,
    /// Command, but with the extra stuff for batch/interactive mode
    batch_command: CommandSpec,
    handler_set: CommandHandlerSet<C, F, A, R>,
    cmd_stack: Vec<(String, Option<usize>)>,
    store: VarStore<C::Value>,
    use_builtins: bool,
    show_result: bool,
}

impl<C: CommandArgs, F, A, R> CommandSet<C, F, A, R> {
    /// The variables, by name
    pub closed spec fn variables(&self) -> Seq<(String, Rc<C::Value>)> {
        self.store.variables@
    }

    /// The stack of results, the latest last
    pub closed spec fn history(&self) -> Seq<Rc<C::Value>> {
        self.store.history@
    }

    /// The stack of batch files being executed, with their current line numbers
    pub closed spec fn batch_stack(&self) -> Seq<(String, Option<usize>)> {
        self.cmd_stack@
    }

    /// Whether the builtin commands are available
    pub closed spec fn has_builtins(&self) -> bool {
        self.use_builtins
    }

    /// Whether the final result is printed by `execute_env`
    pub closed spec fn shows_result(&self) -> bool {
        self.show_result
    }

    /// The handlers
    pub closed spec fn handlers(&self) -> CommandHandlerSet<C, F, A, R> {
        self.handler_set
    }

    /// The command of the command line
    pub closed spec fn line_command(&self) -> CommandModel {
        self.command@
    }

    /// The command of batch and interactive lines
    pub closed spec fn batch_spec(&self) -> CommandModel {
        self.batch_command@
    }

    /// The command set is well formed: no two variables share a name, and clap accepts both
    /// commands
    pub closed spec fn wf(&self) -> bool {
        &&& names_unique(self.store.variables@)
        &&& command_wf(self.command@)
        &&& command_wf(self.batch_command@)
    }

    /// Create a new command set from a command, the same command with the builtin commands
    /// added (for batch and interactive operation), and the handlers
    pub fn new(
        command: CommandSpec,
        batch_command: CommandSpec,
        handler_set: CommandHandlerSet<C, F, A, R>,
        use_builtins: bool,
    ) -> (r: Self)
        requires
            command_wf(command@),
            command_wf(batch_command@),
        ensures
            r.wf(),
            r.variables().len() == 0,
            r.history().len() == 0,
            r.batch_stack().len() == 0,
            r.has_builtins() == use_builtins,
            r.shows_result(),
            r.handlers() == handler_set,
            r.line_command() == command@,
            r.batch_spec() == batch_command@,
    {
        CommandSet {
            command,
            batch_command,
            handler_set,
            cmd_stack: Vec::new(),
            store: VarStore::new(),
            use_builtins,
            show_result: true,
        }
    }

    /// Create a new command set as a 'main' command handler: the command takes no binary name;
    /// with batch operation it takes `--batch` files, and with batch or interactive operation
    /// the builtin commands are available in batches; with interactive operation it takes
    /// `--interactive`
    pub fn main(
        command: CommandSpec,
        handler_set: CommandHandlerSet<C, F, A, R>,
        allow_batch: bool,
        allow_interactive: bool,
    ) -> (r: Self)
        requires
            main_accepts(command@, allow_batch, allow_interactive),
        ensures
            r.wf(),
            r.variables().len() == 0,
            r.history().len() == 0,
            r.batch_stack().len() == 0,
            r.has_builtins() == (allow_batch || allow_interactive),
            r.shows_result(),
            r.handlers() == handler_set,
            r.line_command() == main_line_command(command@, allow_batch, allow_interactive),
            r.batch_spec() == main_batch_command(command@, allow_batch, allow_interactive),
    {
        let (command, batch_command) = Self::main_commands(command, allow_batch, allow_interactive);
        Self::new(command, batch_command, handler_set, allow_interactive || allow_batch)
    }

    /// The commands that `main` makes of the user's command: that of the command line and that
    /// of batch lines (see `main_line_command` and `main_batch_command`)
    pub fn main_commands(command: CommandSpec, allow_batch: bool, allow_interactive: bool) -> (r: (
        CommandSpec,
        CommandSpec,
    ))
        ensures
            r.0@ == main_line_command(command@, allow_batch, allow_interactive),
            r.1@ == main_batch_command(command@, allow_batch, allow_interactive),
    {
        let mut command = command.no_binary_name(true);
        if allow_batch {
            command = command.subcommand_required(false);
            let a = ArgSpec::new("batch").long("batch").help("Execute a batch set of commands").action(
                ValueAction::Append,
            );
            command = command.arg(a);
        }
        let ghost with_batch = command@;
        let batch_command = if allow_interactive || allow_batch {
            Self::add_builtins(command.duplicate())
        } else {
            command.duplicate()
        };
        if allow_interactive {
            command = command.subcommand_required(false);
            let a = ArgSpec::new("interactive").long("interactive").help(
                "Run comamnds from stdin after executing any batches or other provided commands",
            ).action(ValueAction::SetTrue);
            command = command.arg(a);
        }
        (command, batch_command)
    }

    /// Whether clap accepts both commands that `main` makes of the user's command (what `main`
    /// requires)
    pub fn main_accepted(command: &CommandSpec, allow_batch: bool, allow_interactive: bool) -> (b: bool)
        ensures
            b == main_accepts(command@, allow_batch, allow_interactive),
    {
        let (l, bc) = Self::main_commands(command.duplicate(), allow_batch, allow_interactive);
        crate::command::accepts(&l) && crate::command::accepts(&bc)
    }

    /// The command with the builtin commands of batch and interactive operation added: the flag
    /// `--ignore_errors`, and the subcommands `set`, `show`, `echo`, `stack_show`, `stack_push`,
    /// `stack_clear` and `stack_pop`, after the command's own arguments and subcommands
    pub fn add_builtins(command: CommandSpec) -> (r: CommandSpec)
        ensures
            r@ == with_builtins(command@),
    {
        let a = ArgSpec::new("ignore_errors").long("ignore_errors").help(
            "Ignore errors - i.e. do not exit if an error occurs, but return an empty result",
        ).action(ValueAction::SetTrue);
        let command = command.arg(a);

        let s = CommandSpec::new("set").about("Set a thunderclap variable to a value");
        let s = s.arg(ArgSpec::new("key").help("Variable name to set").required(true));
        let s = s.arg(ArgSpec::new("value").help("Value to set the variable name to").required(true));
        assert(s@.args =~= set_command().args);
        assert(s@.subcommands =~= set_command().subcommands);
        let command = command.subcommand(s);

        let s = CommandSpec::new("show").about("Show a value from the command argument set");
        let s = s.arg(
            ArgSpec::new("key").help("Keys to show").required(false).action(ValueAction::Append),
        );
        assert(s@.args =~= show_command().args);
        assert(s@.subcommands =~= show_command().subcommands);
        let command = command.subcommand(s);

        let s = CommandSpec::new("echo").about("Print to a file or stdout");
        let s = s.arg(
            ArgSpec::new("file").long("file").short('f').help("File to write output to").required(
                false,
            ),
        );
        let s = s.arg(
            ArgSpec::new("append").long("append").short('a').help(
                "If writing to file, then append, don't overwrite",
            ).required(false).action(ValueAction::SetTrue),
        );
        let s = s.arg(
            ArgSpec::new("values").help("Values to print out").required(true).action(
                ValueAction::Append,
            ),
        );
        assert(s@.args =~= echo_command().args);
        assert(s@.subcommands =~= echo_command().subcommands);
        let command = command.subcommand(s);

        let s = CommandSpec::new("stack_show").about("Show the values on the value history stack");
        assert(s@.args =~= stack_show_command().args);
        assert(s@.subcommands =~= stack_show_command().subcommands);
        let command = command.subcommand(s);

        let s = CommandSpec::new("stack_push").about("Push values onto the value history stack");
        let s = s.arg(
            ArgSpec::new("values").help(
                "Values to push onto the stack; default is to push the last nonempty result",
            ).required(false).action(ValueAction::Append),
        );
        assert(s@.args =~= stack_push_command().args);
        assert(s@.subcommands =~= stack_push_command().subcommands);
        let command = command.subcommand(s);

        let s = CommandSpec::new("stack_clear").about("Clear the value history stack");
        assert(s@.args =~= stack_clear_command().args);
        assert(s@.subcommands =~= stack_clear_command().subcommands);
        let command = command.subcommand(s);

        let s = CommandSpec::new("stack_pop").about("Pop one (or more) values from the stack");
        let s = s.arg(
            ArgSpec::new("n").help("Number of value to pop from the stacks").default_value(
                "1",
            ).action(ValueAction::SetOne),
        );
        assert(s@.args =~= stack_pop_command().args);
        assert(s@.subcommands =~= stack_pop_command().subcommands);
        let r = command.subcommand(s);
        r
    }

    /// The value of a text, as the argument set reads it
    pub fn str_as_value(v: &str) -> (r: Result<C::Value, C::Error>)
        ensures
            r == C::spec_value_from_str(v@),
    {
        C::value_from_str(v)
    }

    /// Substitute a variable reference `{name}[key]...` at the start of `s`: the rest of `s`
    /// after it, and its value (see `var_ref`); text that does not start with `{` is returned
    /// whole, with no value
    pub fn substitute_var<'a>(&self, cmd_args: &C, s: &'a str) -> (r: Result<
        (&'a str, Option<Rc<C::Value>>),
        C::Error,
    >)
        ensures
            match var_ref(self.variables(), self.history(), *cmd_args, s@) {
                Ok((k, o)) => r matches Ok((rest, ro)) && rest@ == s@.skip(k as int) && (
                o matches Some(v) ==> ro matches Some(rv) && *rv == v) && (o is None
                    ==> ro is None),
                Err(f) => r matches Err(e) && error_from_text::<C>(e, fault_message(f)),
            },
    {
        let v = text::chars_of(s);
        assert(v@.skip(0) =~= v@);
        proof {
            crate::store::lemma_var_ref_bound(self.store.variables@, self.store.history@, *cmd_args, v@);
        }
        match self.store.resolve(cmd_args, &v, 0) {
            Ok((p, o)) => {
                let rest = s.substring_char(p, s.unicode_len());
                assert(s@.subrange(p as int, s@.len() as int) =~= s@.skip(p as int));
                Ok((rest, o))
            },
            Err(e) => Err(error_from::<C>(e.message())),
        }
    }

    /// Substitute the variable references `${...}` in a text
    pub fn substitute(&self, cmd_args: &C, s: &str) -> (r: Result<String, C::Error>)
        ensures
            match substituted(self.variables(), self.history(), *cmd_args, s@) {
                Ok(x) => r matches Ok(o) && o@ == x,
                Err(f) => r matches Err(e) && error_from_text::<C>(e, fault_message(f)),
            },
    {
        match self.store.substitute(cmd_args, s) {
            Ok(o) => Ok(o),
            Err(e) => Err(error_from::<C>(e.message())),
        }
    }

    /// Parse a line into words (see `words_of`), with the variable references substituted in
    /// the words that are not single-quoted
    pub fn parse_str(&self, cmd_args: &C, l: &str) -> (r: Result<Vec<String>, C::Error>)
        ensures
            match parsed_line(self.variables(), self.history(), *cmd_args, l@) {
                Ok(x) => r matches Ok(v) && crate::store::strings_view(v@) == x,
                Err(f) => r matches Err(e) && error_from_text::<C>(e, fault_message(f)),
            },
    {
        match self.store.parse_line(cmd_args, l) {
            Ok(v) => Ok(v),
            Err(e) => Err(error_from::<C>(e.message())),
        }
    }

    /// The lines that show the result stack, the top (latest) first
    pub fn stack_show_lines(&self) -> (r: Vec<String>)
        ensures
            crate::store::strings_view(r@) == stack_lines(values_of(self.history())),
    {
        let n = self.store.history.len();
        let mut r: Vec<String> = Vec::new();
        let mut i: usize = 0;
        while i < n
            invariant
                n == self.store.history@.len(),
                i <= n,
                crate::store::strings_view(r@) == stack_lines(values_of(self.store.history@)).take(i as int),
            decreases n - i,
        {
            let ghost before = crate::store::strings_view(r@);
            let mut l = String::new();
            let num = text::unsigned_to_string(i as u128);
            let w = text::chars_of(num.as_str()).len();
            if w < 4 {
                text::push_spaces(&mut l, 4 - w);
            }
            text::append_str(&mut l, num.as_str());
            text::append_str(&mut l, " : ");
            let vs = self.store.history[n - 1 - i].value_string();
            text::append_str(&mut l, vs.as_str());
            assert(l@ =~= stack_line(i as nat, (*self.store.history@[n - 1 - i]).spec_value_string()));
            r.push(l);
            assert(crate::store::strings_view(r@) =~= before.push(l@));
            assert(values_of(self.store.history@)[n - 1 - i] == *self.store.history@[n - 1 - i]);
            assert(crate::store::strings_view(r@) =~= stack_lines(values_of(self.store.history@)).take(i + 1));
            i += 1;
        }
        assert(stack_lines(values_of(self.store.history@)).take(n as int) =~= stack_lines(values_of(self.store.history@)));
        r
    }

    /// The lines that show keys of the arguments with their values; a key without a value is
    /// an error
    pub fn show_key_lines(&self, cmd_args: &C, keys: &Vec<String>) -> (r: Result<Vec<String>, C::Error>)
        ensures
            (forall|i: int| 0 <= i < keys@.len() ==> cmd_args.spec_value_str(#[trigger] keys@[i]@) is Some) ==> (r matches Ok(v) && crate::store::strings_view(v@) == Seq::new(keys@.len(), |i: int| key_line(keys@[i]@, cmd_args.spec_value_str(keys@[i]@)->Some_0.spec_value_string()))),
            !(forall|i: int| 0 <= i < keys@.len() ==> cmd_args.spec_value_str(#[trigger] keys@[i]@) is Some) ==> (r matches Err(e) && error_from_text::<C>(e, "Argument set does not have a value for '{k}'"@)),
    {
        let mut r: Vec<String> = Vec::new();
        let mut i: usize = 0;
        while i < keys.len()
            invariant
                i <= keys@.len(),
                forall|j: int| 0 <= j < i ==> cmd_args.spec_value_str(#[trigger] keys@[j]@) is Some,
                crate::store::strings_view(r@) == Seq::new(i as nat, |j: int| key_line(keys@[j]@, cmd_args.spec_value_str(keys@[j]@)->Some_0.spec_value_string())),
            decreases keys@.len() - i,
        {
            let k = &keys[i];
            match cmd_args.value_str(k.as_str()) {
                None => {
                    let mut m = String::new();
                    text::append_str(&mut m, "Argument set does not have a value for '{k}'");
                    return Err(error_from::<C>(m));
                },
                Some(v) => {
                    let mut l = String::new();
                    text::append_str(&mut l, k.as_str());
                    let w = text::chars_of(k.as_str()).len();
                    if w < 20 {
                        text::push_spaces(&mut l, 20 - w);
                    }
                    text::append_str(&mut l, ": ");
                    let vs = v.value_string();
                    text::append_str(&mut l, vs.as_str());
                    assert(l@ =~= key_line(k@, v.spec_value_string()));
                    let ghost before = crate::store::strings_view(r@);
                    r.push(l);
                    assert(crate::store::strings_view(r@) =~= before.push(l@));
                    assert(cmd_args.spec_value_str(keys@[i as int]@) == Some(v));
                    assert(crate::store::strings_view(r@) =~= Seq::new((i + 1) as nat, |j: int| key_line(keys@[j]@, cmd_args.spec_value_str(keys@[j]@)->Some_0.spec_value_string())));
                },
            }
            i += 1;
        }
        Ok(r)
    }
}

/// The application was asked to print the line to standard output
pub open spec fn printed<IO: Fn(IoRequest) -> IoReply>(io: &IO, line: Seq<char>) -> bool {
    exists|q: IoRequest, reply: IoReply|
        #![trigger io.ensures((q,), reply)]
        io.ensures((q,), reply) && (q matches IoRequest::Print(l) && l@ == line)
}

/// The application was asked for a line of input with the prompt and answered the line
pub open spec fn read_line<IO: Fn(IoRequest) -> IoReply>(io: &IO, prompt: Seq<char>, line: Seq<char>) -> bool {
    exists|q: IoRequest, reply: IoReply|
        #![trigger io.ensures((q,), reply)]
        io.ensures((q,), reply) && (q matches IoRequest::ReadLine(p) && p@ == prompt) && (
        reply matches IoReply::Text(t) && t@ == line)
}

/// The application was asked to print a line that reports an error (`Error: ...`)
pub open spec fn printed_error<IO: Fn(IoRequest) -> IoReply>(io: &IO) -> bool {
    exists|q: IoRequest, reply: IoReply|
        #![trigger io.ensures((q,), reply)]
        io.ensures((q,), reply) && (q matches IoRequest::Print(l) && "Error: "@.is_prefix_of(l@))
}

/// The application was asked for the whole of the file and answered the reply
pub open spec fn read_file<IO: Fn(IoRequest) -> IoReply>(io: &IO, name: Seq<char>, reply: IoReply) -> bool {
    exists|q: IoRequest|
        #![trigger io.ensures((q,), reply)]
        io.ensures((q,), reply) && (q matches IoRequest::ReadFile(n) && n@ == name)
}

/// A reply tells that reading the file failed
pub open spec fn read_failed(reply: IoReply) -> bool {
    reply is Failed || reply is OpenFailed
}

/// Why reading a file failed, as a reply tells it
pub open spec fn failure_text(reply: IoReply) -> Seq<char> {
    match reply {
        IoReply::Failed(e) => e@,
        IoReply::OpenFailed(e) => e@,
        _ => Seq::empty(),
    }
}

/// The text that a reply gives as read
pub open spec fn read_text(reply: IoReply) -> Seq<char> {
    match reply {
        IoReply::Text(t) => t@,
        _ => Seq::empty(),
    }
}

/// A batch stack with its top entry taken off, where it has one
pub open spec fn popped(st: Seq<(String, Option<usize>)>) -> Seq<(String, Option<usize>)> {
    if st.len() > 0 {
        st.drop_last()
    } else {
        st
    }
}

/// The texts that replies give as read
pub open spec fn read_texts(replies: Seq<IoReply>) -> Seq<Seq<char>> {
    replies.map_values(|q: IoReply| read_text(q))
}

/// The message of a batch file that could not be read
pub open spec fn load_message(name: Seq<char>, why: Seq<char>) -> Seq<char> {
    "failed to load batch file "@ + name + ": "@ + why
}

/// Every input and output may be requested of the application
pub open spec fn io_ready<IO: Fn(IoRequest) -> IoReply>(io: &IO) -> bool {
    forall|q: IoRequest| io.requires((q,))
}

/// Prints lines to standard output
fn print_lines<IO: Fn(IoRequest) -> IoReply>(io: &IO, lines: &Vec<String>)
    requires
        io_ready(io),
    ensures
        forall|i: int| 0 <= i < lines@.len() ==> printed(io, #[trigger] lines@[i]@),
{
    let mut i: usize = 0;
    while i < lines.len()
        invariant
            io_ready(io),
            i <= lines@.len(),
            forall|j: int| 0 <= j < i ==> printed(io, #[trigger] lines@[j]@),
        decreases lines@.len() - i,
    {
        let q = IoRequest::Print(lines[i].clone());
        let ghost gq = q;
        let reply = io(q);
        assert(io.ensures((gq,), reply));
        assert(printed(io, lines@[i as int]@));
        i += 1;
    }
}

impl<C, F, A, R> CommandSet<C, F, A, R> where
    C: CommandArgs,
    F: Fn(&mut C) -> Result<C::Value, C::Error>,
    A: Fn(&mut C, &Matches) -> Result<(), ExecError<C>>,
    R: Fn(&mut C),
 {
    /// Set a variable to the value of a text, telling so on standard error
    fn set_variable_value_str<IO: Fn(IoRequest) -> IoReply>(&mut self, k: &str, v: &str, io: &IO) -> (r: Result<(), C::Error>)
        requires
            old(self).wf(),
            io_ready(io),
        ensures
            final(self).wf(),
            final(self).history() == old(self).history(),
            final(self).handlers() == old(self).handlers(),
            final(self).batch_stack() == old(self).batch_stack(),
            final(self).shows_result() == old(self).shows_result(),
            final(self).has_builtins() == old(self).has_builtins(),
            final(self).line_command() == old(self).line_command(),
            match C::spec_value_from_str(v@) {
                Ok(x) => r is Ok && sets_variable(old(self).variables(), final(self).variables(), k@, x),
                Err(e) => r == Err::<(), C::Error>(e) && final(self).variables() == old(self).variables(),
            },
    {
        let mut line = String::new();
        text::append_str(&mut line, "Set variable '");
        text::append_str(&mut line, k);
        text::append_str(&mut line, "' to value '");
        text::append_str(&mut line, v);
        text::append_str(&mut line, "'");
        io(IoRequest::EPrint(line));
        let value = C::value_from_str(v)?;
        let mut name = String::new();
        text::append_str(&mut name, k);
        self.store.set_variable(name, Rc::new(value));
        Ok(())
    }

    /// The builtin `echo`: the values, printed to standard output or written to a file
    fn builtin_echo<IO: Fn(IoRequest) -> IoReply>(&self, m: &Matches, io: &IO) -> (r: Result<Rc<C::Value>, C::Error>)
        requires
            io_ready(io),
        ensures
            echo_result::<C, IO>(io, *m, r),
    {
        proof {
            reveal_strlit("values");
            reveal_strlit("file");
            reveal_strlit("append");
        }
        let values: Vec<String> = match m.get_many("values") {
            Some(v) => {
                let mut c: Vec<String> = Vec::new();
                let mut i: usize = 0;
                while i < v.len()
                    invariant
                        i <= v@.len(),
                        c@.len() == i,
                        forall|j: int| 0 <= j < i ==> (#[trigger] c@[j])@ == v@[j]@,
                    decreases v@.len() - i,
                {
                    c.push(v[i].clone());
                    i += 1;
                }
                assert(crate::store::strings_view(c@) =~= echo_values(*m));
                c
            },
            None => {
                let c: Vec<String> = Vec::new();
                assert(crate::store::strings_view(c@) =~= echo_values(*m));
                c
            },
        };
        match m.get_one("file") {
            Some(file) => {
                let append = m.get_flag("append");
                let q = IoRequest::WriteFile { path: file.clone(), append, lines: values };
                let ghost gq = q;
                let reply = io(q);
                assert(writes_echo(gq, m.first_value("file"@), m.get_flag_spec("append"@), echo_values(*m)));
                self.echo_written(file.as_str(), reply)
            },
            None => {
                print_lines(io, &values);
                proof {
                    assert forall|i: int| 0 <= i < echo_values(*m).len() implies printed(
                        io,
                        #[trigger] echo_values(*m)[i],
                    ) by {
                        assert(crate::store::strings_view(values@)[i] == values@[i]@);
                    }
                }
                Self::cmd_ok_rc()
            },
        }
    }

    /// The result of `echo` to a file, given the reply to the write: a file that could not be
    /// opened or written is an error, and otherwise the argument set's result
    fn echo_written(&self, file: &str, reply: IoReply) -> (r: Result<Rc<C::Value>, C::Error>)
        ensures
            echo_outcome::<C>(file@, reply, r),
    {
        match reply {
            IoReply::OpenFailed(e) => {
                let mut msg = String::new();
                text::append_str(&mut msg, "Failed to create '");
                text::append_str(&mut msg, file);
                text::append_str(&mut msg, "' to echo output to (");
                text::append_str(&mut msg, e.as_str());
                text::append_str(&mut msg, ")");
                assert(msg@ =~= echo_open_message(file@, e@));
                Err(error_from::<C>(msg))
            },
            IoReply::WriteFailed => {
                let mut msg = String::new();
                text::append_str(&mut msg, "Failed to write to echo output file");
                assert(msg@ =~= "Failed to write to echo output file"@);
                Err(error_from::<C>(msg))
            },
            _ => Self::cmd_ok_rc(),
        }
    }

    /// The argument set's successful result, shared
    fn cmd_ok_rc() -> (r: Result<Rc<C::Value>, C::Error>)
        ensures
            exists|res: Result<C::Value, C::Error>|
                #![trigger call_ensures(C::cmd_ok, (), res)]
                call_ensures(C::cmd_ok, (), res) && cmd_ok_shared::<C>(res, r),
    {
        match C::cmd_ok() {
            Ok(v) => Ok(Rc::new(v)),
            Err(e) => Err(e),
        }
    }

    /// The builtin `show`: the keys given (or all the keys of the arguments, without those
    /// with no value) with their values, printed
    fn builtin_show<IO: Fn(IoRequest) -> IoReply>(&self, cmd_args: &C, m: &Matches, io: &IO) -> (r: Result<Rc<C::Value>, C::Error>)
        requires
            io_ready(io),
        ensures
            show_result::<C, IO>(io, *cmd_args, *m, r),
    {
        proof {
            reveal_strlit("key");
        }
        match m.get_many("key") {
            Some(keys) => {
                let mut shown: Vec<String> = Vec::new();
                let mut i: usize = 0;
                while i < keys.len()
                    invariant
                        i <= keys@.len(),
                        shown@.len() == i,
                        forall|j: int| 0 <= j < i ==> (#[trigger] shown@[j])@ == keys@[j]@,
                        all_keys_have_values(*cmd_args, shown@),
                    ensures
                        i <= keys@.len(),
                        shown@.len() == i,
                        forall|j: int| 0 <= j < i ==> (#[trigger] shown@[j])@ == keys@[j]@,
                        all_keys_have_values(*cmd_args, shown@),
                        i < keys@.len() ==> cmd_args.spec_value_str(keys@[i as int]@) is None,
                    decreases keys@.len() - i,
                {
                    if cmd_args.value_str(keys[i].as_str()).is_none() {
                        break;
                    }
                    shown.push(keys[i].clone());
                    i += 1;
                }
                match self.show_key_lines(cmd_args, &shown) {
                    Ok(lines) => {
                        print_lines(io, &lines);
                        proof {
                            assert(crate::store::strings_view(lines@).len() == lines@.len());
                            assert(lines@.len() == shown@.len());
                            assert forall|k: int|
                                #![trigger keys@[k]]
                                0 <= k < keys@.len() && (forall|j: int|
                                    0 <= j <= k ==> cmd_args.spec_value_str(#[trigger] keys@[j]@) is Some)
                                    implies printed(
                                    io,
                                    key_line(
                                        keys@[k]@,
                                        cmd_args.spec_value_str(keys@[k]@)->Some_0.spec_value_string(),
                                    ),
                                ) by {
                                if k >= i {
                                    assert(cmd_args.spec_value_str(keys@[i as int]@) is Some);
                                }
                                assert(k < i);
                                assert(crate::store::strings_view(lines@)[k] == lines@[k]@);
                                assert(shown@[k]@ == keys@[k]@);
                                assert(printed(io, lines@[k]@));
                            }
                        }
                    },
                    Err(e) => {
                        return Err(e);
                    },
                }
                if i < keys.len() {
                    let mut msg = String::new();
                    let t = "Argument set does not have a value for '{k}'";
                    text::append_str(&mut msg, t);
                    proof {
                        reveal_strlit("Argument set does not have a value for '{k}'");
                        assert(msg@ =~= t@);
                    }
                    return Err(error_from::<C>(msg));
                }
                proof {
                    assert forall|j: int| 0 <= j < keys@.len() implies cmd_args.spec_value_str(
                        #[trigger] keys@[j]@,
                    ) is Some by {
                        assert(shown@[j]@ == keys@[j]@);
                    }
                }
            },
            None => {
                let keys = cmd_args.keys();
                let mut present: Vec<String> = Vec::new();
                let ghost mut at: Seq<int> = Seq::empty();
                let mut i: usize = 0;
                while i < keys.len()
                    invariant
                        i <= keys@.len(),
                        all_keys_have_values(*cmd_args, present@),
                        at.len() == present@.len(),
                        forall|j: int| 0 <= j < at.len() ==> (#[trigger] present@[j])@ == keys@[at[j]]@,
                        forall|k: int|
                            #![trigger keys@[k]]
                            0 <= k < i && cmd_args.spec_value_str(keys@[k]@) is Some ==> exists|j: int|
                                0 <= j < at.len() && #[trigger] at[j] == k,
                    decreases keys@.len() - i,
                {
                    let ghost at0 = at;
                    let has = cmd_args.value_str(keys[i].as_str()).is_some();
                    if has {
                        let k = keys[i].clone();
                        proof {
                            assert(k@ == keys@[i as int]@);
                            at = at.push(i as int);
                            assert(at[at.len() - 1] == i as int);
                        }
                        present.push(k);
                    }
                    proof {
                        assert forall|k: int|
                            #![trigger keys@[k]]
                            0 <= k < i + 1 && cmd_args.spec_value_str(keys@[k]@) is Some implies exists|j: int|
                                0 <= j < at.len() && #[trigger] at[j] == k by {
                            if k == i {
                                assert(at[at.len() - 1] == k);
                            } else {
                                let j0 = choose|j: int| 0 <= j < at0.len() && #[trigger] at0[j] == k;
                                assert(at[j0] == at0[j0]);
                            }
                        }
                    }
                    i += 1;
                }
                match self.show_key_lines(cmd_args, &present) {
                    Ok(lines) => {
                        print_lines(io, &lines);
                        proof {
                            assert(crate::store::strings_view(lines@).len() == lines@.len());
                            assert forall|k: int|
                                #![trigger keys@[k]]
                                0 <= k < keys@.len() && cmd_args.spec_value_str(keys@[k]@) is Some
                                    implies printed(
                                    io,
                                    key_line(
                                        keys@[k]@,
                                        cmd_args.spec_value_str(keys@[k]@)->Some_0.spec_value_string(),
                                    ),
                                ) by {
                                let j = choose|j: int| 0 <= j < at.len() && #[trigger] at[j] == k;
                                assert(present@[j]@ == keys@[k]@);
                                assert(crate::store::strings_view(lines@)[j] == lines@[j]@);
                                assert(printed(io, lines@[j]@));
                            }
                        }
                    },
                    Err(e) => {
                        return Err(e);
                    },
                }
            },
        }
        Self::cmd_ok_rc()
    }

    /// The end of the builtin `set`, given what the arguments answered to being set: an error
    /// is returned; where they took the key nothing more is done; otherwise a variable of the
    /// key is set to the value of the text
    pub fn set_unless_taken<IO: Fn(IoRequest) -> IoReply>(
        &mut self,
        k: &str,
        v: &str,
        taken: Result<bool, C::Error>,
        io: &IO,
    ) -> (r: Result<(), C::Error>)
        requires
            old(self).wf(),
            io_ready(io),
        ensures
            final(self).wf(),
            final(self).history() == old(self).history(),
            final(self).handlers() == old(self).handlers(),
            final(self).batch_stack() == old(self).batch_stack(),
            final(self).shows_result() == old(self).shows_result(),
            final(self).has_builtins() == old(self).has_builtins(),
            match taken {
                Err(e) => r == Err::<(), C::Error>(e) && final(self).variables() == old(self).variables(),
                Ok(true) => r is Ok && final(self).variables() == old(self).variables(),
                Ok(false) => match C::spec_value_from_str(v@) {
                    Ok(x) => r is Ok && sets_variable(old(self).variables(), final(self).variables(), k@, x),
                    Err(e) => r == Err::<(), C::Error>(e) && final(self).variables() == old(self).variables(),
                },
            },
    {
        match taken {
            Err(e) => Err(e),
            Ok(true) => Ok(()),
            Ok(false) => self.set_variable_value_str(k, v, io),
        }
    }

    /// The builtin `set`: the value of the text is offered to the arguments, and where they do
    /// not take the key, a variable is set to it
    fn builtin_set<IO: Fn(IoRequest) -> IoReply>(&mut self, cmd_args: &mut C, m: &Matches, io: &IO) -> (r: Result<Rc<C::Value>, C::Error>)
        requires
            old(self).wf(),
            io_ready(io),
        ensures
            final(self).wf(),
            final(self).history() == old(self).history(),
            final(self).handlers() == old(self).handlers(),
            final(self).batch_stack() == old(self).batch_stack(),
            final(self).has_builtins() == old(self).has_builtins(),
            match C::spec_value_from_str(m.first_value("value"@)) {
                Err(e) => r == Err::<Rc<C::Value>, C::Error>(e) && final(self).variables() == old(self).variables(),
                Ok(x) => final(self).variables() == old(self).variables() || sets_variable(
                    old(self).variables(),
                    final(self).variables(),
                    m.first_value("key"@),
                    x,
                ),
            },
            C::spec_value_from_str(m.first_value("value"@)) is Err ==> *final(cmd_args) == *old(cmd_args),
            C::spec_value_from_str(m.first_value("value"@)) matches Ok(x) ==> exists|
                c: &mut C,
                key: &str,
                t: Result<bool, C::Error>,
            |
                #![trigger call_ensures(C::value_set, (c, key, &x), t)]
                {
                    &&& *c == *old(cmd_args)
                    &&& *final(c) == *final(cmd_args)
                    &&& key@ == m.first_value("key"@)
                    &&& call_ensures(C::value_set, (c, key, &x), t)
                    &&& set_answered::<C>(old(self).variables(), final(self).variables(), key@, x, t)
                    &&& t matches Err(e) ==> r == Err::<Rc<C::Value>, C::Error>(e)
                },
    {
        let k: String = match m.get_one("key") {
            Some(k) => k.clone(),
            None => String::new(),
        };
        let v: String = match m.get_one("value") {
            Some(v) => v.clone(),
            None => String::new(),
        };
        proof {
            reveal_strlit("key");
            reveal_strlit("value");
            assert(k@ == m.first_value("key"@));
            assert(v@ == m.first_value("value"@));
        }
        let value = match C::value_from_str(v.as_str()) {
            Ok(x) => x,
            Err(e) => {
                return Err(e);
            },
        };
        let taken = cmd_args.value_set(k.as_str(), &value);
        self.set_unless_taken(k.as_str(), v.as_str(), taken, io)?;
        Self::cmd_ok_rc()
    }

    /// What the builtins give for the matches, from the command set `before` to `after` and
    /// from the arguments `a0` to `a1` (see `handle_builtins`): nothing, for matches that give
    /// no builtin; each builtin's result and changes otherwise; only `set` changes the
    /// arguments
    pub open spec fn builtins_outcome<IO: Fn(IoRequest) -> IoReply>(
        io: &IO,
        before: Self,
        after: Self,
        m: Matches,
        a0: C,
        a1: C,
        r: Result<Option<Rc<C::Value>>, C::Error>,
    ) -> bool {
        &&& builtin_of_matches(m) != Some(Builtin::SetVar) ==> a1 == a0
        &&& builtin_of_matches(m) is None ==> (r matches Ok(None) && after.variables()
            == before.variables() && after.history() == before.history())
        &&& builtin_of_matches(m) == Some(Builtin::StackClear) ==> values_of(after.history()) == (
        if before.history().len() > 1 {
            values_of(before.history()).take(1)
        } else {
            values_of(before.history())
        })
        &&& builtin_of_matches(m) is Some ==> !(r matches Ok(None))
        &&& builtin_of_matches(m) is Some && builtin_of_matches(m) != Some(Builtin::SetVar)
            ==> after.variables() == before.variables()
        &&& (builtin_of_matches(m) == Some(Builtin::Echo) || builtin_of_matches(m) == Some(
            Builtin::Show,
        ) || builtin_of_matches(m) == Some(Builtin::StackShow) || builtin_of_matches(m)
            == Some(Builtin::SetVar)) ==> after.history() == before.history()
        &&& builtin_of_matches(m) == Some(Builtin::SetVar) ==> ({
            let sub = *m.subcommand->Some_0.1;
            match C::spec_value_from_str(sub.first_value("value"@)) {
                Err(e) => r == Err::<Option<Rc<C::Value>>, C::Error>(e) && after.variables()
                    == before.variables(),
                Ok(x) => after.variables() == before.variables() || sets_variable(
                    before.variables(),
                    after.variables(),
                    sub.first_value("key"@),
                    x,
                ),
            }
        })
        &&& builtin_of_matches(m) == Some(Builtin::StackPush) ==> match (
        *m.subcommand->Some_0.1).texts_of("values"@) {
            None => values_of(after.history()) == dup_top(values_of(before.history())),
            Some(vs) => {
                let p = parse_values::<C>(vs);
                let base = drop_top(values_of(before.history())) + p.0;
                match p.1 {
                    None => values_of(after.history()) == dup_top(base),
                    Some(e) => r == Err::<Option<Rc<C::Value>>, C::Error>(e) && values_of(
                        after.history(),
                    ) == base,
                }
            },
        }
        &&& builtin_of_matches(m) == Some(Builtin::Echo) ==> exists|r1: Result<Rc<C::Value>, C::Error>|
            #![trigger echo_result::<C, IO>(io, *m.subcommand->Some_0.1, r1)]
            echo_result::<C, IO>(io, *m.subcommand->Some_0.1, r1) && r == some_result(r1)
        &&& builtin_of_matches(m) == Some(Builtin::Show) ==> exists|r1: Result<Rc<C::Value>, C::Error>|
            #![trigger show_result::<C, IO>(io, a0, *m.subcommand->Some_0.1, r1)]
            show_result::<C, IO>(io, a0, *m.subcommand->Some_0.1, r1) && r == some_result(r1)
        &&& (builtin_of_matches(m) == Some(Builtin::StackShow) || builtin_of_matches(m) == Some(
            Builtin::StackClear,
        )) ==> cmd_ok_builtin::<C>(r)
        &&& builtin_of_matches(m) == Some(Builtin::StackShow) ==> forall|i: int|
            0 <= i < before.history().len() ==> printed(
                io,
                #[trigger] stack_lines(values_of(before.history()))[i],
            )
        &&& builtin_of_matches(m) == Some(Builtin::StackPush) ==> (match (
        *m.subcommand->Some_0.1).texts_of("values"@) {
            None => true,
            Some(vs) => parse_values::<C>(vs).1 is None,
        } ==> cmd_ok_builtin::<C>(r))
        &&& builtin_of_matches(m) == Some(Builtin::StackPop) ==> (if before.history().len() > 1 {
            r matches Ok(Some(v)) && *v == *before.history()[1] && values_of(after.history())
                == values_of(before.history()).remove(1)
        } else {
            r matches Err(e) && error_from_text::<C>(e, "Value stack underflow in pop"@)
                && after.history() == before.history()
        })
    }

    /// The builtins of batch and interactive operation: when the matches give a subcommand that
    /// names one, it is executed and its value returned; otherwise nothing is done
    fn handle_builtins<IO: Fn(IoRequest) -> IoReply>(&mut self, cmd_args: &mut C, m: &Matches, io: &IO) -> (r: Result<Option<Rc<C::Value>>, C::Error>)
        requires
            old(self).wf(),
            io_ready(io),
        ensures
            final(self).wf(),
            final(self).handlers() == old(self).handlers(),
            final(self).batch_stack() == old(self).batch_stack(),
            final(self).has_builtins() == old(self).has_builtins(),
            Self::builtins_outcome(io, *old(self), *final(self), *m, *old(cmd_args), *final(cmd_args), r),
            builtin_of_matches(*m) == Some(Builtin::SetVar) ==> (C::spec_value_from_str(
                (*m.subcommand->Some_0.1).first_value("value"@),
            ) matches Ok(x) ==> exists|c: &mut C, key: &str, t: Result<bool, C::Error>|
                #![trigger call_ensures(C::value_set, (c, key, &x), t)]
                {
                    &&& *c == *old(cmd_args)
                    &&& *final(c) == *final(cmd_args)
                    &&& key@ == (*m.subcommand->Some_0.1).first_value("key"@)
                    &&& call_ensures(C::value_set, (c, key, &x), t)
                    &&& set_answered::<C>(old(self).variables(), final(self).variables(), key@, x, t)
                    &&& t matches Err(e) ==> r == Err::<Option<Rc<C::Value>>, C::Error>(e)
                }),
    {
        let (name, sub) = match m.subcommand() {
            Some(x) => x,
            None => {
                return Ok(None);
            },
        };
        match builtin_of(name) {
            None => Ok(None),
            Some(Builtin::Echo) => {
                let r1 = self.builtin_echo(sub, io);
                assert(echo_result::<C, IO>(io, *sub, r1));
                match r1 {
                    Ok(v) => Ok(Some(v)),
                    Err(e) => Err(e),
                }
            },
            Some(Builtin::Show) => {
                let r1 = self.builtin_show(cmd_args, sub, io);
                assert(show_result::<C, IO>(io, *cmd_args, *sub, r1));
                match r1 {
                    Ok(v) => Ok(Some(v)),
                    Err(e) => Err(e),
                }
            },
            Some(Builtin::SetVar) => {
                match self.builtin_set(cmd_args, sub, io) {
                    Ok(v) => Ok(Some(v)),
                    Err(e) => Err(e),
                }
            },
            Some(Builtin::StackShow) => {
                let lines = self.stack_show_lines();
                print_lines(io, &lines);
                proof {
                    assert forall|i: int| 0 <= i < old(self).history().len() implies printed(
                        io,
                        #[trigger] stack_lines(values_of(old(self).history()))[i],
                    ) by {
                        assert(values_of(old(self).history()).len() == old(self).history().len());
                        assert(crate::store::strings_view(lines@).len() == lines@.len());
                        assert(crate::store::strings_view(lines@)[i] == lines@[i]@);
                    }
                }
                let r1 = Self::cmd_ok_rc();
                assert(cmd_ok_builtin::<C>(some_result(r1)));
                match r1 {
                    Ok(v) => Ok(Some(v)),
                    Err(e) => Err(e),
                }
            },
            Some(Builtin::StackPush) => {
                let values = sub.get_many("values");
                proof {
                    reveal_strlit("values");
                    if let Some(vals) = values {
                        assert(crate::store::strings_view(vals@) =~= sub.texts_of("values"@)->Some_0);
                    }
                }
                match self.store.stack_push::<C>(values) {
                    Ok(()) => {},
                    Err(e) => {
                        return Err(e);
                    },
                }
                let r1 = Self::cmd_ok_rc();
                assert(cmd_ok_builtin::<C>(some_result(r1)));
                match r1 {
                    Ok(v) => Ok(Some(v)),
                    Err(e) => Err(e),
                }
            },
            Some(Builtin::StackPop) => {
                match self.store.stack_pop() {
                    Some(v) => Ok(Some(v)),
                    None => {
                        let mut msg = String::new();
                        let t = "Value stack underflow in pop";
                        text::append_str(&mut msg, t);
                        proof {
                            reveal_strlit("Value stack underflow in pop");
                            assert(msg@ =~= t@);
                        }
                        Err(error_from::<C>(msg))
                    },
                }
            },
            Some(Builtin::StackClear) => {
                self.store.stack_clear();
                let r1 = Self::cmd_ok_rc();
                assert(cmd_ok_builtin::<C>(some_result(r1)));
                match r1 {
                    Ok(v) => Ok(Some(v)),
                    Err(e) => Err(e),
                }
            },
        }
    }

    /// The location of the batch line being executed, as errors report it
    fn location_prefix(&self) -> (s: String)
        ensures
            s@ == location(self.batch_stack()),
    {
        let mut s = String::new();
        let n = self.cmd_stack.len();
        if n > 0 {
            text::append_str(&mut s, self.cmd_stack[n - 1].0.as_str());
            text::append_str(&mut s, ":");
            let line = match self.cmd_stack[n - 1].1 {
                Some(l) => l,
                None => 0,
            };
            text::push_decimal(&mut s, line as u128);
            text::append_str(&mut s, " ");
        } else {
            text::append_str(&mut s, ":0 ");
        }
        s
    }

    /// Count a line of the innermost batch file
    fn bump_line(&mut self)
        ensures
            final(self).batch_stack() == next_line(old(self).batch_stack()),
            final(self).variables() == old(self).variables(),
            final(self).history() == old(self).history(),
            final(self).handlers() == old(self).handlers(),
            final(self).has_builtins() == old(self).has_builtins(),
            final(self).shows_result() == old(self).shows_result(),
            final(self).wf() == old(self).wf(),
    {
        let ghost st = self.cmd_stack@;
        match self.cmd_stack.pop() {
            Some((name, line)) => {
                let line = match line {
                    Some(l) => Some(
                        if l < usize::MAX {
                            l + 1
                        } else {
                            l
                        },
                    ),
                    None => None,
                };
                self.cmd_stack.push((name, line));
                assert(self.cmd_stack@ =~= next_line(st));
            },
            None => {},
        }
    }

    /// The name that clap gives the command in its messages: that of the innermost batch file
    /// with its line, if any
    fn bin_name(&self) -> (r: Option<String>)
        ensures
            match bin_name_of(self.batch_stack()) {
                Some(b) => r matches Some(s) && s@ == b,
                None => r is None,
            },
    {
        let n = self.cmd_stack.len();
        if n > 0 {
            let mut s = String::new();
            text::append_str(&mut s, self.cmd_stack[n - 1].0.as_str());
            match self.cmd_stack[n - 1].1 {
                Some(line) => {
                    text::append_str(&mut s, " line ");
                    text::push_decimal(&mut s, line as u128);
                },
                None => {},
            }
            Some(s)
        } else {
            None
        }
    }

    /// Execute the lines of a batch text, counting them in the innermost batch file
    fn execute_str<IO: Fn(IoRequest) -> IoReply>(&mut self, cmd_args: &mut C, s: &str, io: &IO, depth: usize) -> (r: Result<(), C::Error>)
        requires
            old(self).wf(),
            old(self).handlers().callable(),
            io_ready(io),
        ensures
            final(self).wf(),
            final(self).handlers() == old(self).handlers(),
            final(self).has_builtins() == old(self).has_builtins(),
            inert_text::<C>(old(self).variables(), old(self).history(), *old(cmd_args), s@) ==> (r is Ok
                && final(self).variables() == old(self).variables()
                && final(self).history() == old(self).history()
                && *final(cmd_args) == *old(cmd_args)
                && same_but_line(final(self).batch_stack(), old(self).batch_stack())),
            forall|k: int|
                #![trigger inert_prefix::<C>(old(self).variables(), old(self).history(), *old(cmd_args), s@, k)]
                0 <= k < text::lines_of(s@).len() && inert_prefix::<C>(
                    old(self).variables(),
                    old(self).history(),
                    *old(cmd_args),
                    s@,
                    k,
                ) ==> (early_error::<C>(
                    old(self).variables(),
                    old(self).history(),
                    *old(cmd_args),
                    text::lines_of(s@)[k],
                    depth,
                ) matches Some(t) ==> (r matches Err(e) && error_from_text::<C>(e, t))),
            ({
                let tx = s@;
                exists|ss: Seq<Self>, ms: Seq<Self>, cs: Seq<C>, rs: Seq<Result<(), C::Error>>|
                    #![trigger Self::str_shape(tx, depth, ss, ms, cs, rs)]
                    {
                        &&& Self::str_shape(tx, depth, ss, ms, cs, rs)
                        &&& ss[0] == *old(self)
                        &&& ss.last() == *final(self)
                        &&& cs[0] == *old(cmd_args)
                        &&& cs.last() == *final(cmd_args)
                        &&& r == (if rs.len() > 0 && rs.last() is Err {
                            rs.last()
                        } else {
                            Ok(())
                        })
                        &&& forall|k: int|
                            #![trigger in_run(rs, k)]
                            in_run(rs, k) ==> (Self::command_line(ms[k], cs[k], text::lines_of(tx)[k], depth) ==> exists|c: &mut C|
                                #![trigger call_ensures(C::reset_args, (c,), ())]
                                *c == cs[k] && call_ensures(C::reset_args, (c,), ()) && ((Self::line_parse(ms[k], cs[k], text::lines_of(tx)[k]) is Ok) ==> exists|s: Seq<C>, outs: Seq<Result<Option<C::Value>, ExecError<C>>>|
                                    #![trigger run_shape(Self::line_plan(ms[k], Self::line_parse(ms[k], cs[k], text::lines_of(tx)[k])->Ok_0), s, outs)]
                                    {
                                        &&& run_shape(Self::line_plan(ms[k], Self::line_parse(ms[k], cs[k], text::lines_of(tx)[k])->Ok_0), s, outs)
                                        &&& s[0] == *final(c)
                                        &&& forall|i: int|
                                            #![trigger in_run(outs, i)]
                                            in_run(outs, i) ==> exists|c2: &mut C|
                                                #![trigger step_ensures(Self::line_plan(ms[k], Self::line_parse(ms[k], cs[k], text::lines_of(tx)[k])->Ok_0)[i], c2, outs[i])]
                                                *c2 == s[i] && *final(c2) == s[i + 1] && step_ensures(Self::line_plan(ms[k], Self::line_parse(ms[k], cs[k], text::lines_of(tx)[k])->Ok_0)[i], c2, outs[i])
                                        &&& Self::parsed_line_result(io, ms[k], ss[k + 1], Self::line_parse(ms[k], cs[k], text::lines_of(tx)[k])->Ok_0, s, outs, cs[k + 1], true, (depth - 1) as usize, rs[k])
                                    }))
                    }
            }),
        decreases depth, 1int,
    {
        let v = text::chars_of(s);
        let bounds = text::line_bounds(&v);
        let ghost vars0 = self.variables();
        let ghost hist0 = self.history();
        let ghost args0 = *cmd_args;
        let ghost stack0 = self.batch_stack();
        let ghost tx = s@;
        let ghost mut ss: Seq<Self> = seq![*self];
        let ghost mut ms: Seq<Self> = Seq::empty();
        let ghost mut cs: Seq<C> = seq![*cmd_args];
        let ghost mut rs: Seq<Result<(), C::Error>> = Seq::empty();
        let mut k: usize = 0;
        while k < bounds.len()
            invariant
                self.wf(),
                self.handlers().callable(),
                self.handlers() == old(self).handlers(),
                self.has_builtins() == old(self).has_builtins(),
                io_ready(io),
                v@ == s@,
                k <= bounds@.len(),
                bounds@.len() == text::lines_of(v@).len(),
                forall|j: int| 0 <= j < bounds@.len() ==> text::spans(v@, #[trigger] bounds@[j], text::lines_of(v@)[j]),
                vars0 == old(self).variables(),
                hist0 == old(self).history(),
                args0 == *old(cmd_args),
                stack0 == old(self).batch_stack(),
                inert_prefix::<C>(vars0, hist0, args0, s@, k as int) ==> (self.variables() == vars0
                    && self.history() == hist0
                    && *cmd_args == args0
                    && same_but_line(self.batch_stack(), stack0)),
                forall|j: int|
                    #![trigger inert_prefix::<C>(vars0, hist0, args0, s@, j)]
                    0 <= j < k && inert_prefix::<C>(vars0, hist0, args0, s@, j) ==> early_error::<C>(
                        vars0,
                        hist0,
                        args0,
                        text::lines_of(s@)[j],
                        depth,
                    ) is None,
                tx == s@,
                ss.len() == k + 1,
                ms.len() == k,
                cs.len() == k + 1,
                rs.len() == k,
                ss[0] == *old(self),
                cs[0] == *old(cmd_args),
                ss.last() == *self,
                cs.last() == *cmd_args,
                forall|j: int| 0 <= j < rs.len() ==> (#[trigger] rs[j]) is Ok,
                forall|j: int|
                    #![trigger ms[j]]
                    0 <= j < rs.len() ==> {
                        &&& ms[j].batch_stack() == next_line(ss[j].batch_stack())
                        &&& ms[j].variables() == ss[j].variables()
                        &&& ms[j].history() == ss[j].history()
                        &&& Self::line_effect(ms[j], ss[j + 1], cs[j], cs[j + 1], text::lines_of(s@)[j], depth, rs[j])
                    },
                forall|k: int|
                    #![trigger in_run(rs, k)]
                    in_run(rs, k) ==> (Self::command_line(ms[k], cs[k], text::lines_of(tx)[k], depth) ==> exists|c: &mut C|
                        #![trigger call_ensures(C::reset_args, (c,), ())]
                        *c == cs[k] && call_ensures(C::reset_args, (c,), ()) && ((Self::line_parse(ms[k], cs[k], text::lines_of(tx)[k]) is Ok) ==> exists|s: Seq<C>, outs: Seq<Result<Option<C::Value>, ExecError<C>>>|
                            #![trigger run_shape(Self::line_plan(ms[k], Self::line_parse(ms[k], cs[k], text::lines_of(tx)[k])->Ok_0), s, outs)]
                            {
                                &&& run_shape(Self::line_plan(ms[k], Self::line_parse(ms[k], cs[k], text::lines_of(tx)[k])->Ok_0), s, outs)
                                &&& s[0] == *final(c)
                                &&& forall|i: int|
                                    #![trigger in_run(outs, i)]
                                    in_run(outs, i) ==> exists|c2: &mut C|
                                        #![trigger step_ensures(Self::line_plan(ms[k], Self::line_parse(ms[k], cs[k], text::lines_of(tx)[k])->Ok_0)[i], c2, outs[i])]
                                        *c2 == s[i] && *final(c2) == s[i + 1] && step_ensures(Self::line_plan(ms[k], Self::line_parse(ms[k], cs[k], text::lines_of(tx)[k])->Ok_0)[i], c2, outs[i])
                                &&& Self::parsed_line_result(io, ms[k], ss[k + 1], Self::line_parse(ms[k], cs[k], text::lines_of(tx)[k])->Ok_0, s, outs, cs[k + 1], true, (depth - 1) as usize, rs[k])
                            })),
            decreases bounds@.len() - k,
        {
            let ghost pre = self.batch_stack();
            let ghost pre_self = *self;
            self.bump_line();
            proof {
                if pre.len() > 0 {
                    assert(self.batch_stack().drop_last() =~= pre.drop_last());
                }
                assert(same_but_line(self.batch_stack(), pre));
            }
            let (from, to) = bounds[k];
            assert(text::spans(v@, bounds@[k as int], text::lines_of(v@)[k as int]));
            let line = text::string_of_range(&v, from, to);
            assert(line@ == text::lines_of(s@)[k as int]);
            let ghost prefix = inert_prefix::<C>(vars0, hist0, args0, s@, k as int);
            let ghost this_inert = inert_line::<C>(vars0, hist0, args0, text::lines_of(s@)[k as int]);
            let ghost m1 = *self;
            let ghost c0 = *cmd_args;
            let res = self.execute_str_line(cmd_args, line.as_str(), io, depth);
            proof {
                assert(ss.last() == pre_self);
                Self::lemma_str_push(io, tx, depth, ss, ms, cs, rs, m1, *self, *cmd_args, res);
                let ghost oss = ss;
                let ghost oms = ms;
                let ghost ocs = cs;
                let ghost ors = rs;
                ss = ss.push(*self);
                ms = ms.push(m1);
                cs = cs.push(*cmd_args);
                rs = rs.push(res);
                assert forall|j: int|
                    #![trigger ms[j]]
                    0 <= j < rs.len() implies {
                        &&& ms[j].batch_stack() == next_line(ss[j].batch_stack())
                        &&& ms[j].variables() == ss[j].variables()
                        &&& ms[j].history() == ss[j].history()
                        &&& Self::line_effect(ms[j], ss[j + 1], cs[j], cs[j + 1], text::lines_of(s@)[j], depth, rs[j])
                    } by {
                    if j < ors.len() {
                        assert(oms[j] == ms[j] && oss[j] == ss[j] && oss[j + 1] == ss[j + 1]);
                        assert(ocs[j] == cs[j] && ocs[j + 1] == cs[j + 1] && ors[j] == rs[j]);
                    }
                }
                lemma_inert_prefix_next::<C>(vars0, hist0, args0, s@, k as int);
                if prefix && this_inert {
                    assert(early_error::<C>(vars0, hist0, args0, text::lines_of(s@)[k as int], depth) is None);
                }
            }
            match res {
                Ok(()) => {},
                Err(e) => {
                    proof {
                        assert forall|j: int|
                            0 <= j < text::lines_of(s@).len() && inert_prefix::<C>(vars0, hist0, args0, s@, j)
                            implies (early_error::<C>(vars0, hist0, args0, text::lines_of(s@)[j], depth) matches Some(t)
                                ==> (Err::<(), C::Error>(e) matches Err(x) && error_from_text::<C>(x, t))) by {
                            if j > k {
                                lemma_inert_prefix_mono::<C>(vars0, hist0, args0, s@, k as int + 1, j);
                            }
                        }
                        assert(rs.last() == Err::<(), C::Error>(e));
                        assert(Self::str_shape(tx, depth, ss, ms, cs, rs));
                    }
                    return Err(e);
                },
            }
            proof {
                if prefix && !this_inert {
                    assert(early_error::<C>(vars0, hist0, args0, text::lines_of(s@)[k as int], depth) is None);
                }
            }
            k += 1;
        }
        proof {
            if inert_text::<C>(vars0, hist0, args0, s@) {
                assert(inert_prefix::<C>(vars0, hist0, args0, s@, k as int));
            }
            assert(Self::str_shape(tx, depth, ss, ms, cs, rs));
        }
        Ok(())
    }

    /// What clap gives for the words of a batch line (substituted, from the command set and
    /// the arguments)
    pub open spec fn line_parse(before: Self, a0: C, l: Seq<char>) -> Result<Matches, clap_glue::ClapFailure> {
        Self::parse_of(
            before,
            true,
            parsed_line(before.variables(), before.history(), a0, text::trimmed(l))->Ok_0,
        )
    }

    proof fn lemma_str_push<IO: Fn(IoRequest) -> IoReply>(
        io: &IO,
        text: Seq<char>,
        depth: usize,
        ss: Seq<Self>,
        ms: Seq<Self>,
        cs: Seq<C>,
        rs: Seq<Result<(), C::Error>>,
        m1: Self,
        s1: Self,
        c1: C,
        r1: Result<(), C::Error>,
    )
        requires
            ss.len() == rs.len() + 1,
            ms.len() == rs.len(),
            cs.len() == rs.len() + 1,
            rs.len() < text::lines_of(text).len(),
            forall|k: int|
                #![trigger in_run(rs, k)]
                in_run(rs, k) ==> (Self::command_line(ms[k], cs[k], text::lines_of(text)[k], depth) ==> exists|c: &mut C|
                    #![trigger call_ensures(C::reset_args, (c,), ())]
                    *c == cs[k] && call_ensures(C::reset_args, (c,), ()) && ((Self::line_parse(ms[k], cs[k], text::lines_of(text)[k]) is Ok) ==> exists|s: Seq<C>, outs: Seq<Result<Option<C::Value>, ExecError<C>>>|
                        #![trigger run_shape(Self::line_plan(ms[k], Self::line_parse(ms[k], cs[k], text::lines_of(text)[k])->Ok_0), s, outs)]
                        {
                            &&& run_shape(Self::line_plan(ms[k], Self::line_parse(ms[k], cs[k], text::lines_of(text)[k])->Ok_0), s, outs)
                            &&& s[0] == *final(c)
                            &&& forall|i: int|
                                #![trigger in_run(outs, i)]
                                in_run(outs, i) ==> exists|c2: &mut C|
                                    #![trigger step_ensures(Self::line_plan(ms[k], Self::line_parse(ms[k], cs[k], text::lines_of(text)[k])->Ok_0)[i], c2, outs[i])]
                                    *c2 == s[i] && *final(c2) == s[i + 1] && step_ensures(Self::line_plan(ms[k], Self::line_parse(ms[k], cs[k], text::lines_of(text)[k])->Ok_0)[i], c2, outs[i])
                            &&& Self::parsed_line_result(io, ms[k], ss[k + 1], Self::line_parse(ms[k], cs[k], text::lines_of(text)[k])->Ok_0, s, outs, cs[k + 1], true, (depth - 1) as usize, rs[k])
                        })),
            (Self::command_line(m1, cs.last(), text::lines_of(text)[rs.len() as int], depth) ==> exists|c: &mut C|
                #![trigger call_ensures(C::reset_args, (c,), ())]
                *c == cs.last() && call_ensures(C::reset_args, (c,), ()) && ((Self::line_parse(m1, cs.last(), text::lines_of(text)[rs.len() as int]) is Ok) ==> exists|s: Seq<C>, outs: Seq<Result<Option<C::Value>, ExecError<C>>>|
                    #![trigger run_shape(Self::line_plan(m1, Self::line_parse(m1, cs.last(), text::lines_of(text)[rs.len() as int])->Ok_0), s, outs)]
                    {
                        &&& run_shape(Self::line_plan(m1, Self::line_parse(m1, cs.last(), text::lines_of(text)[rs.len() as int])->Ok_0), s, outs)
                        &&& s[0] == *final(c)
                        &&& forall|i: int|
                            #![trigger in_run(outs, i)]
                            in_run(outs, i) ==> exists|c2: &mut C|
                                #![trigger step_ensures(Self::line_plan(m1, Self::line_parse(m1, cs.last(), text::lines_of(text)[rs.len() as int])->Ok_0)[i], c2, outs[i])]
                                *c2 == s[i] && *final(c2) == s[i + 1] && step_ensures(Self::line_plan(m1, Self::line_parse(m1, cs.last(), text::lines_of(text)[rs.len() as int])->Ok_0)[i], c2, outs[i])
                        &&& Self::parsed_line_result(io, m1, s1, Self::line_parse(m1, cs.last(), text::lines_of(text)[rs.len() as int])->Ok_0, s, outs, c1, true, (depth - 1) as usize, r1)
                    })),
        ensures
            forall|k: int|
                #![trigger in_run(rs.push(r1), k)]
                in_run(rs.push(r1), k) ==> (Self::command_line(ms.push(m1)[k], cs.push(c1)[k], text::lines_of(text)[k], depth) ==> exists|c: &mut C|
                    #![trigger call_ensures(C::reset_args, (c,), ())]
                    *c == cs.push(c1)[k] && call_ensures(C::reset_args, (c,), ()) && ((Self::line_parse(ms.push(m1)[k], cs.push(c1)[k], text::lines_of(text)[k]) is Ok) ==> exists|s: Seq<C>, outs: Seq<Result<Option<C::Value>, ExecError<C>>>|
                        #![trigger run_shape(Self::line_plan(ms.push(m1)[k], Self::line_parse(ms.push(m1)[k], cs.push(c1)[k], text::lines_of(text)[k])->Ok_0), s, outs)]
                        {
                            &&& run_shape(Self::line_plan(ms.push(m1)[k], Self::line_parse(ms.push(m1)[k], cs.push(c1)[k], text::lines_of(text)[k])->Ok_0), s, outs)
                            &&& s[0] == *final(c)
                            &&& forall|i: int|
                                #![trigger in_run(outs, i)]
                                in_run(outs, i) ==> exists|c2: &mut C|
                                    #![trigger step_ensures(Self::line_plan(ms.push(m1)[k], Self::line_parse(ms.push(m1)[k], cs.push(c1)[k], text::lines_of(text)[k])->Ok_0)[i], c2, outs[i])]
                                    *c2 == s[i] && *final(c2) == s[i + 1] && step_ensures(Self::line_plan(ms.push(m1)[k], Self::line_parse(ms.push(m1)[k], cs.push(c1)[k], text::lines_of(text)[k])->Ok_0)[i], c2, outs[i])
                            &&& Self::parsed_line_result(io, ms.push(m1)[k], ss.push(s1)[k + 1], Self::line_parse(ms.push(m1)[k], cs.push(c1)[k], text::lines_of(text)[k])->Ok_0, s, outs, cs.push(c1)[k + 1], true, (depth - 1) as usize, rs.push(r1)[k])
                        })),
    {
        let ns = ss.push(s1);
        let nm = ms.push(m1);
        let nc = cs.push(c1);
        let nr = rs.push(r1);
        assert forall|k: int|
            #![trigger in_run(nr, k)]
            in_run(nr, k) implies (Self::command_line(nm[k], nc[k], text::lines_of(text)[k], depth) ==> exists|c: &mut C|
                    #![trigger call_ensures(C::reset_args, (c,), ())]
                    *c == nc[k] && call_ensures(C::reset_args, (c,), ()) && ((Self::line_parse(nm[k], nc[k], text::lines_of(text)[k]) is Ok) ==> exists|s: Seq<C>, outs: Seq<Result<Option<C::Value>, ExecError<C>>>|
                        #![trigger run_shape(Self::line_plan(nm[k], Self::line_parse(nm[k], nc[k], text::lines_of(text)[k])->Ok_0), s, outs)]
                        {
                            &&& run_shape(Self::line_plan(nm[k], Self::line_parse(nm[k], nc[k], text::lines_of(text)[k])->Ok_0), s, outs)
                            &&& s[0] == *final(c)
                            &&& forall|i: int|
                                #![trigger in_run(outs, i)]
                                in_run(outs, i) ==> exists|c2: &mut C|
                                    #![trigger step_ensures(Self::line_plan(nm[k], Self::line_parse(nm[k], nc[k], text::lines_of(text)[k])->Ok_0)[i], c2, outs[i])]
                                    *c2 == s[i] && *final(c2) == s[i + 1] && step_ensures(Self::line_plan(nm[k], Self::line_parse(nm[k], nc[k], text::lines_of(text)[k])->Ok_0)[i], c2, outs[i])
                            &&& Self::parsed_line_result(io, nm[k], ns[k + 1], Self::line_parse(nm[k], nc[k], text::lines_of(text)[k])->Ok_0, s, outs, nc[k + 1], true, (depth - 1) as usize, nr[k])
                        })) by {
            if k < rs.len() {
                assert(in_run(rs, k));
                assert(rs[k] == nr[k]);
                assert(ms[k] == nm[k] && ss[k + 1] == ns[k + 1] && cs[k] == nc[k] && cs[k + 1] == nc[k + 1]);
            } else {
                assert(nm[k] == m1 && ns[k + 1] == s1 && nc[k] == cs.last() && nc[k + 1] == c1 && nr[k] == r1);
            }
        }
    }

    /// The line is a command to execute at the depth: its words (substituted, from the command
    /// set and the arguments) are some, not a comment, and batch files may still nest
    pub open spec fn command_line(before: Self, a0: C, l: Seq<char>, depth: usize) -> bool {
        parsed_line(before.variables(), before.history(), a0, text::trimmed(l)) matches Ok(w)
            && w.len() > 0 && !is_comment(w) && depth > 0
    }

    /// The shape of executing the lines of a batch text: each line `k`, in turn, counts a line
    /// of the innermost batch file (from `ss[k]` to `ms[k]`) and is executed (from `ms[k]` and
    /// `cs[k]` to `ss[k + 1]` and `cs[k + 1]`, see `line_effect`) with the result `rs[k]`; the
    /// execution stops at the first error, and every line is executed where there is none
    pub open spec fn str_shape(
        text: Seq<char>,
        depth: usize,
        ss: Seq<Self>,
        ms: Seq<Self>,
        cs: Seq<C>,
        rs: Seq<Result<(), C::Error>>,
    ) -> bool {
        let lines = text::lines_of(text);
        &&& ss.len() == rs.len() + 1
        &&& ms.len() == rs.len()
        &&& cs.len() == rs.len() + 1
        &&& rs.len() <= lines.len()
        &&& forall|k: int| 0 <= k < rs.len() - 1 ==> (#[trigger] rs[k]) is Ok
        &&& rs.len() < lines.len() ==> rs.len() > 0 && rs.last() is Err
        &&& forall|k: int|
            #![trigger ms[k]]
            0 <= k < rs.len() ==> {
                &&& ms[k].batch_stack() == next_line(ss[k].batch_stack())
                &&& ms[k].variables() == ss[k].variables()
                &&& ms[k].history() == ss[k].history()
                &&& Self::line_effect(ms[k], ss[k + 1], cs[k], cs[k + 1], lines[k], depth, rs[k])
            }
    }

    /// What executing a line gives, from the command set `before` to `after` and from the
    /// arguments `a0` to `a1` (see `execute_str_line`): a fault of its substitution is an
    /// error; a line of no words or a comment does nothing; a command at depth 0 is an error
    pub open spec fn line_effect(
        before: Self,
        after: Self,
        a0: C,
        a1: C,
        l: Seq<char>,
        depth: usize,
        r: Result<(), C::Error>,
    ) -> bool {
        let words = parsed_line(before.variables(), before.history(), a0, text::trimmed(l));
        &&& words matches Err(f) ==> (r matches Err(e) && error_from_text::<C>(e, fault_message(f)))
        &&& (words matches Ok(w) && (w.len() == 0 || is_comment(w))) ==> (r is Ok
            && after.variables() == before.variables() && after.history() == before.history()
            && after.batch_stack() == before.batch_stack() && a1 == a0)
        &&& (words matches Ok(w) && w.len() > 0 && !is_comment(w) && depth == 0) ==> (
            r matches Err(e) && error_from_text::<C>(e, "Batch files nested too deeply"@))
    }

    /// A run of interactive input with the prompt: each line `lines[i]` was read in answer to
    /// the prompt, is not empty, and was executed from `selves[i]` and `args[i]` to
    /// `selves[i + 1]` and `args[i + 1]`, an error of it being printed as `Error: ...`
    pub open spec fn interactive_run<IO: Fn(IoRequest) -> IoReply>(
        io: &IO,
        prompt: Seq<char>,
        selves: Seq<Self>,
        args: Seq<C>,
        lines: Seq<Seq<char>>,
        depth: usize,
    ) -> bool {
        &&& selves.len() == lines.len() + 1
        &&& args.len() == lines.len() + 1
        &&& forall|i: int|
            #![trigger lines[i]]
            0 <= i < lines.len() ==> {
                &&& lines[i].len() > 0
                &&& read_line(io, prompt, lines[i])
                &&& exists|ri: Result<(), C::Error>|
                    #![trigger Self::line_effect(selves[i], selves[i + 1], args[i], args[i + 1], lines[i], depth, ri)]
                    Self::line_effect(selves[i], selves[i + 1], args[i], args[i + 1], lines[i], depth, ri)
                        && (ri is Err ==> printed_error(io))
            }
        &&& forall|i: int| 0 <= i < selves.len() ==> (#[trigger] selves[i]).wf()
    }

    /// What interactive input gives, from the command set `before` and the arguments `a0`: a
    /// run of lines read with the prompt and executed (see `interactive_run`), ending at
    /// `after` and `a1`
    pub open spec fn interactive_outcome<IO: Fn(IoRequest) -> IoReply>(
        io: &IO,
        prompt: Seq<char>,
        before: Self,
        after: Self,
        a0: C,
        a1: C,
        depth: usize,
    ) -> bool {
        exists|selves: Seq<Self>, args: Seq<C>, lines: Seq<Seq<char>>|
            #![trigger Self::interactive_run(io, prompt, selves, args, lines, depth)]
            Self::interactive_run(io, prompt, selves, args, lines, depth) && selves[0] == before
                && args[0] == a0 && selves.last() == after && args.last() == a1
    }

    /// What interactive operation gives after the matches of the command line gave `r0`, from
    /// `mid` and `a_mid`: their error, where they failed; otherwise the lines of input read
    /// with the prompt `name > ` and executed (see `interactive_outcome`)
    pub open spec fn interactive_after<IO: Fn(IoRequest) -> IoReply>(
        io: &IO,
        name: Seq<char>,
        mid: Self,
        after: Self,
        a_mid: C,
        a1: C,
        depth: usize,
        r0: Result<(), C::Error>,
        r: Result<(), C::Error>,
    ) -> bool {
        &&& r0 is Err ==> (r == r0 && after == mid && a1 == a_mid)
        &&& r0 is Ok ==> Self::interactive_outcome(io, name + " > "@, mid, after, a_mid, a1, depth)
    }

    proof fn lemma_interactive_push<IO: Fn(IoRequest) -> IoReply>(
        io: &IO,
        prompt: Seq<char>,
        selves: Seq<Self>,
        args: Seq<C>,
        lines: Seq<Seq<char>>,
        depth: usize,
        s1: Self,
        c1: C,
        l: Seq<char>,
        rl: Result<(), C::Error>,
    )
        requires
            Self::interactive_run(io, prompt, selves, args, lines, depth),
            l.len() > 0,
            read_line(io, prompt, l),
            Self::line_effect(selves.last(), s1, args.last(), c1, l, depth, rl),
            rl is Err ==> printed_error(io),
            s1.wf(),
        ensures
            Self::interactive_run(io, prompt, selves.push(s1), args.push(c1), lines.push(l), depth),
    {
        let ns = selves.push(s1);
        let na = args.push(c1);
        let nl = lines.push(l);
        assert forall|i: int|
            #![trigger nl[i]]
            0 <= i < nl.len() implies {
                &&& nl[i].len() > 0
                &&& read_line(io, prompt, nl[i])
                &&& exists|ri: Result<(), C::Error>|
                    #![trigger Self::line_effect(ns[i], ns[i + 1], na[i], na[i + 1], nl[i], depth, ri)]
                    Self::line_effect(ns[i], ns[i + 1], na[i], na[i + 1], nl[i], depth, ri) && (ri is Err
                        ==> printed_error(io))
            } by {
            if i < lines.len() {
                assert(lines[i] == nl[i]);
                assert(selves[i] == ns[i] && selves[i + 1] == ns[i + 1]);
                assert(args[i] == na[i] && args[i + 1] == na[i + 1]);
            } else {
                assert(ns[i] == selves.last() && ns[i + 1] == s1);
                assert(na[i] == args.last() && na[i + 1] == c1);
                assert(nl[i] == l);
                assert(Self::line_effect(ns[i], ns[i + 1], na[i], na[i + 1], nl[i], depth, rl));
            }
        }
        assert forall|i: int| 0 <= i < ns.len() implies (#[trigger] ns[i]).wf() by {
            if i < selves.len() {
                assert(ns[i] == selves[i]);
            }
        }
    }

    /// Execute a single line of a batch text (or of interactive input): it is trimmed and split
    /// into words, with variables substituted; a line with no words, or whose first word
    /// starts with '#', does nothing; otherwise the words are executed as a batch command
    pub fn execute_str_line<IO: Fn(IoRequest) -> IoReply>(&mut self, cmd_args: &mut C, l: &str, io: &IO, depth: usize) -> (r: Result<(), C::Error>)
        requires
            old(self).wf(),
            old(self).handlers().callable(),
            io_ready(io),
        ensures
            final(self).wf(),
            final(self).handlers() == old(self).handlers(),
            final(self).has_builtins() == old(self).has_builtins(),
            Self::line_effect(*old(self), *final(self), *old(cmd_args), *final(cmd_args), l@, depth, r),
            (Self::command_line(*old(self), *old(cmd_args), l@, depth) ==> exists|c: &mut C|
                #![trigger call_ensures(C::reset_args, (c,), ())]
                *c == *old(cmd_args) && call_ensures(C::reset_args, (c,), ()) && ((Self::line_parse(*old(self), *old(cmd_args), l@) is Ok) ==> exists|s: Seq<C>, outs: Seq<Result<Option<C::Value>, ExecError<C>>>|
                    #![trigger run_shape(Self::line_plan(*old(self), Self::line_parse(*old(self), *old(cmd_args), l@)->Ok_0), s, outs)]
                    {
                        &&& run_shape(Self::line_plan(*old(self), Self::line_parse(*old(self), *old(cmd_args), l@)->Ok_0), s, outs)
                        &&& s[0] == *final(c)
                        &&& forall|i: int|
                            #![trigger in_run(outs, i)]
                            in_run(outs, i) ==> exists|c2: &mut C|
                                #![trigger step_ensures(Self::line_plan(*old(self), Self::line_parse(*old(self), *old(cmd_args), l@)->Ok_0)[i], c2, outs[i])]
                                *c2 == s[i] && *final(c2) == s[i + 1] && step_ensures(Self::line_plan(*old(self), Self::line_parse(*old(self), *old(cmd_args), l@)->Ok_0)[i], c2, outs[i])
                        &&& Self::parsed_line_result(io, *old(self), *final(self), Self::line_parse(*old(self), *old(cmd_args), l@)->Ok_0, s, outs, *final(cmd_args), true, (depth - 1) as usize, r)
                    })),
        decreases depth, 0int,
    {
        let v = text::chars_of(l);
        let (from, to) = text::trim_bounds(&v);
        let trimmed = text::string_of_range(&v, from, to);
        let words = self.parse_str(cmd_args, trimmed.as_str())?;
        if words.len() > 0 {
            let first = text::chars_of(words[0].as_str());
            if first.len() > 0 && first[0] == '#' {
                return Ok(());
            }
            if depth == 0 {
                let mut msg = String::new();
                text::append_str(&mut msg, "Batch files nested too deeply");
                assert(msg@ =~= "Batch files nested too deeply"@);
                return Err(error_from::<C>(msg));
            }
            proof {
                assert(clap_glue::texts(words@) =~= crate::store::strings_view(words@));
            }
            self.execute_at(cmd_args, words, true, io, depth - 1)?;
        }
        Ok(())
    }

    /// Execute a batch text under a name: its lines are executed in turn, with errors located
    /// by the name and line number
    pub fn execute_batch<IO: Fn(IoRequest) -> IoReply>(&mut self, cmd_args: &mut C, name: &str, s: &str, io: &IO) -> (r: Result<(), C::Error>)
        requires
            old(self).wf(),
            old(self).handlers().callable(),
            io_ready(io),
        ensures
            final(self).wf(),
            final(self).handlers() == old(self).handlers(),
            final(self).has_builtins() == old(self).has_builtins(),
            inert_text::<C>(old(self).variables(), old(self).history(), *old(cmd_args), s@) ==> (r is Ok
                && final(self).variables() == old(self).variables()
                && final(self).history() == old(self).history()
                && *final(cmd_args) == *old(cmd_args)
                && final(self).batch_stack() == old(self).batch_stack()),
            forall|k: int|
                #![trigger inert_prefix::<C>(old(self).variables(), old(self).history(), *old(cmd_args), s@, k)]
                0 <= k < text::lines_of(s@).len() && inert_prefix::<C>(
                    old(self).variables(),
                    old(self).history(),
                    *old(cmd_args),
                    s@,
                    k,
                ) ==> (early_error::<C>(
                    old(self).variables(),
                    old(self).history(),
                    *old(cmd_args),
                    text::lines_of(s@)[k],
                    MAX_BATCH_DEPTH,
                ) matches Some(t) ==> (r matches Err(e) && error_from_text::<C>(e, t))),
            ({
                let tx = s@;
                let depth = MAX_BATCH_DEPTH;
                exists|ss: Seq<Self>, ms: Seq<Self>, cs: Seq<C>, rs: Seq<Result<(), C::Error>>|
                    #![trigger Self::str_shape(tx, depth, ss, ms, cs, rs)]
                    {
                        &&& Self::str_shape(tx, depth, ss, ms, cs, rs)
                        &&& ss[0].variables() == old(self).variables()
                        &&& ss[0].history() == old(self).history()
                        &&& ss[0].batch_stack().drop_last() == old(self).batch_stack()
                        &&& ss[0].batch_stack().last().0@ == name@
                        &&& ss[0].batch_stack().last().1 == Some(0usize)
                        &&& cs[0] == *old(cmd_args)
                        &&& cs.last() == *final(cmd_args)
                        &&& final(self).variables() == ss.last().variables()
                        &&& final(self).history() == ss.last().history()
                        &&& r == (if rs.len() > 0 && rs.last() is Err {
                            rs.last()
                        } else {
                            Ok(())
                        })
                        &&& forall|k: int|
                            #![trigger in_run(rs, k)]
                            in_run(rs, k) ==> (Self::command_line(ms[k], cs[k], text::lines_of(tx)[k], depth) ==> exists|c: &mut C|
                                #![trigger call_ensures(C::reset_args, (c,), ())]
                                *c == cs[k] && call_ensures(C::reset_args, (c,), ()) && ((Self::line_parse(ms[k], cs[k], text::lines_of(tx)[k]) is Ok) ==> exists|s: Seq<C>, outs: Seq<Result<Option<C::Value>, ExecError<C>>>|
                                    #![trigger run_shape(Self::line_plan(ms[k], Self::line_parse(ms[k], cs[k], text::lines_of(tx)[k])->Ok_0), s, outs)]
                                    {
                                        &&& run_shape(Self::line_plan(ms[k], Self::line_parse(ms[k], cs[k], text::lines_of(tx)[k])->Ok_0), s, outs)
                                        &&& s[0] == *final(c)
                                        &&& forall|i: int|
                                            #![trigger in_run(outs, i)]
                                            in_run(outs, i) ==> exists|c2: &mut C|
                                                #![trigger step_ensures(Self::line_plan(ms[k], Self::line_parse(ms[k], cs[k], text::lines_of(tx)[k])->Ok_0)[i], c2, outs[i])]
                                                *c2 == s[i] && *final(c2) == s[i + 1] && step_ensures(Self::line_plan(ms[k], Self::line_parse(ms[k], cs[k], text::lines_of(tx)[k])->Ok_0)[i], c2, outs[i])
                                        &&& Self::parsed_line_result(io, ms[k], ss[k + 1], Self::line_parse(ms[k], cs[k], text::lines_of(tx)[k])->Ok_0, s, outs, cs[k + 1], true, (depth - 1) as usize, rs[k])
                                    }))
                    }
            }),
    {
        let mut n = String::new();
        text::append_str(&mut n, name);
        let ghost before = self.cmd_stack@;
        self.cmd_stack.push((n, Some(0)));
        assert(self.batch_stack().drop_last() == before);
        match self.execute_str(cmd_args, s, io, MAX_BATCH_DEPTH) {
            Ok(()) => {},
            Err(e) => {
                return Err(e);
            },
        }
        let ghost mid = self.cmd_stack@;
        self.cmd_stack.pop();
        proof {
            if inert_text::<C>(old(self).variables(), old(self).history(), *old(cmd_args), s@) {
                assert(self.cmd_stack@ == mid.drop_last());
            }
        }
        Ok(())
    }

    /// What executing the matches of a command line may give, from the command set `before`
    /// to the command set `after` with the result `r`: success only when every argument
    /// function of the matches succeeded and the command was a builtin (where builtins are in
    /// use) or had handlers for its subcommands; `stack_pop` fails on a stack of one entry or
    /// none, and otherwise makes the entry above the bottom the latest result; builtins other
    /// than `set` leave the variables as they were
    pub open spec fn matches_outcome(before: Self, after: Self, m: Matches, r: Result<(), C::Error>) -> bool {
        &&& r is Ok ==> forall|k: int|
            #![trigger before.handlers().present_args(m)[k]]
            0 <= k < before.handlers().present_args(m).len() ==> arg_called(
                before.handlers().arg_fns()[before.handlers().present_args(m)[k]].1,
                m,
                Ok(()),
            )
        &&& r is Ok ==> (before.has_builtins() && builtin_of_matches(m) is Some)
            || before.handlers().routes(m)
        &&& (before.has_builtins() && builtin_of_matches(m) == Some(Builtin::StackPop)) ==> ((
        before.history().len() <= 1 ==> r is Err) && (r is Ok ==> values_of(after.history())
            == after_result(values_of(before.history()).remove(1), *before.history()[1])))
        &&& (before.has_builtins() && builtin_of_matches(m) is Some && builtin_of_matches(m)
            != Some(Builtin::SetVar) && r is Ok) ==> after.variables() == before.variables()
        &&& (before.has_builtins() && builtin_of_matches(m) == Some(Builtin::StackPop)
            && before.history().len() <= 1 && before.handlers().args_handled(m)) ==> (r matches Err(
            e) ==> (error_from_text::<C>(e, "Value stack underflow in pop"@) || exists|
            x: ExecError<C>,
        | before.handlers().args_failed(m, x)))
        &&& r matches Err(e) ==> Self::failure(before, after, m, e)
        &&& (r is Ok && !(before.has_builtins() && builtin_of_matches(m) is Some) && !m.has_id(
            "batch"@,
        )) ==> exists|v: C::Value|
            #![trigger before.handlers().cmd_outcome(m, Ok(v))]
            before.handlers().cmd_outcome(m, Ok(v)) && values_of(after.history()) == after_result(
                values_of(before.history()),
                v,
            ) && after.variables() == before.variables()
    }

    /// The matches give batch files, with their arguments handled and no builtin command
    pub open spec fn batch_stage(before: Self, m: Matches) -> bool {
        &&& before.handlers().args_handled(m)
        &&& !(before.has_builtins() && builtin_of_matches(m) is Some)
        &&& m.has_id("batch"@)
    }

    /// Executing the matches runs no batch file: none is given, or a builtin is executed
    pub open spec fn without_batches(before: Self, m: Matches) -> bool {
        !m.has_id("batch"@) || (before.has_builtins() && builtin_of_matches(m) is Some)
    }

    /// The calls on the arguments that executing the matches makes before any batch file:
    /// those of handling the arguments, then, unless batch files are to be executed first, a
    /// builtin is executed or the command has no handler set, those of handling the command
    pub open spec fn line_plan(before: Self, m: Matches) -> Seq<Call<F, A, R>> {
        let hs = before.handlers();
        if !Self::without_batches(before, m) || (before.has_builtins() && builtin_of_matches(m)
            is Some) || !hs.routes(m) {
            hs.args_plan(m)
        } else {
            hs.args_plan(m) + hs.cmd_plan(m)
        }
    }

    /// What executing the matches of a command line gives (see `line_plan`): with batch files
    /// given and no builtin command, `batch_result`; otherwise `direct_result`
    pub open spec fn line_result<IO: Fn(IoRequest) -> IoReply>(
        io: &IO,
        before: Self,
        after: Self,
        m: Matches,
        s: Seq<C>,
        outs: Seq<Result<Option<C::Value>, ExecError<C>>>,
        a1: C,
        depth: usize,
        r: Result<(), C::Error>,
    ) -> bool {
        if Self::without_batches(before, m) {
            Self::direct_result(io, before, after, m, s, outs, a1, r)
        } else {
            Self::batch_result(io, before, after, m, s, outs, a1, depth, r)
        }
    }

    /// What executing the matches (with no batch files) gives, from the command set `before`
    /// to `after`, of the argument sets `s` and the results `outs` of its calls (see
    /// `line_plan`), the arguments ending as `a1`, with the result `r`:
    /// - where an argument function fails, its error (as text);
    /// - where the handling of the command fails, its error, located by the batch line;
    /// - a builtin's error, or its value as the latest result;
    /// - for a command without a handler set, the error "Subcommand has no handler";
    /// - otherwise the command's value as the latest result
    pub open spec fn direct_result<IO: Fn(IoRequest) -> IoReply>(
        io: &IO,
        before: Self,
        after: Self,
        m: Matches,
        s: Seq<C>,
        outs: Seq<Result<Option<C::Value>, ExecError<C>>>,
        a1: C,
        r: Result<(), C::Error>,
    ) -> bool {
        let hs = before.handlers();
        let na: int = hs.args_plan(m).len() as int;
        let builtin = before.has_builtins() && builtin_of_matches(m) is Some;
        match run_error::<C>(outs) {
            Some(x) => {
                &&& a1 == s.last()
                &&& after.variables() == before.variables()
                &&& after.history() == before.history()
                &&& r matches Err(e)
                &&& outs.len() <= na ==> error_from_prefix::<C>(r->Err_0, x.kind_text())
                &&& outs.len() > na ==> error_from_prefix::<C>(
                    r->Err_0,
                    location(before.batch_stack()) + x.kind_text(),
                )
            },
            None => if builtin {
                exists|mid: Self, rb: Result<Option<Rc<C::Value>>, C::Error>|
                    #![trigger Self::builtins_outcome(io, before, mid, m, s.last(), a1, rb)]
                    {
                        &&& Self::builtins_outcome(io, before, mid, m, s.last(), a1, rb)
                        &&& rb matches Err(e) ==> r == Err::<(), C::Error>(e) && after.variables()
                            == mid.variables() && after.history() == mid.history()
                        &&& rb matches Ok(Some(v)) ==> r is Ok && after.variables() == mid.variables()
                            && values_of(after.history()) == after_result(values_of(mid.history()), *v)
                    }
            } else if !hs.routes(m) {
                &&& a1 == s.last()
                &&& after.variables() == before.variables()
                &&& after.history() == before.history()
                &&& r matches Err(e) && error_from_text::<C>(e, "Subcommand has no handler"@)
            } else {
                &&& a1 == s.last()
                &&& after.variables() == before.variables()
                &&& exists|rc: Result<C::Value, ExecError<C>>|
                    #![trigger hs.cmd_target(m).fn_run_result(outs.skip(na), rc)]
                    hs.cmd_target(m).fn_run_result(outs.skip(na), rc) && match rc {
                        Ok(v) => r is Ok && values_of(after.history()) == after_result(
                            values_of(before.history()),
                            v,
                        ),
                        Err(x) => r matches Err(e) && error_from_prefix::<C>(
                            e,
                            location(before.batch_stack()) + x.kind_text(),
                        ) && after.history() == before.history(),
                    }
            },
        }
    }

    /// The batch files that the matches give
    pub open spec fn batch_names(m: Matches) -> Seq<Seq<char>> {
        match m.texts_of("batch"@) {
            Some(v) => v,
            None => Seq::empty(),
        }
    }

    /// Executing a text line by line (see `str_shape`) took the command set from `before` to
    /// `after` and the arguments from `a0` to `a1`, with the result `r`: the error of the
    /// first line that failed, if one did
    pub open spec fn text_run(
        text: Seq<char>,
        depth: usize,
        before: Self,
        after: Self,
        a0: C,
        a1: C,
        r: Result<(), C::Error>,
    ) -> bool {
        exists|ss: Seq<Self>, ms: Seq<Self>, cs: Seq<C>, rs: Seq<Result<(), C::Error>>|
            #![trigger Self::str_shape(text, depth, ss, ms, cs, rs)]
            {
                &&& Self::str_shape(text, depth, ss, ms, cs, rs)
                &&& ss[0] == before
                &&& ss.last() == after
                &&& cs[0] == a0
                &&& cs.last() == a1
                &&& r == (if rs.len() > 0 && rs.last() is Err {
                    rs.last()
                } else {
                    Ok(())
                })
            }
    }

    /// A run of batch files `names` with the texts `texts`, in turn and up to the first that
    /// failed: `fs[k]` is the command set before file `k` and after file `k - 1`, `ends[k]`
    /// that at the end of file `k`, which was executed under its name, at line 0, by
    /// `text_run` from the arguments `fa[k]` to `fa[k + 1]` with the result `frs[k]`; after
    /// each file its name is taken off the batch stack again
    pub open spec fn files_run(
        names: Seq<Seq<char>>,
        texts: Seq<Seq<char>>,
        depth: usize,
        fs: Seq<Self>,
        ends: Seq<Self>,
        fa: Seq<C>,
        frs: Seq<Result<(), C::Error>>,
    ) -> bool {
        &&& fs.len() == frs.len() + 1
        &&& ends.len() == frs.len()
        &&& fa.len() == frs.len() + 1
        &&& frs.len() <= names.len()
        &&& texts.len() == names.len()
        &&& forall|k: int| 0 <= k < frs.len() - 1 ==> (#[trigger] frs[k]) is Ok
        &&& forall|k: int|
            #![trigger ends[k]]
            0 <= k < frs.len() ==> {
                &&& exists|start: Self|
                    #![trigger Self::text_run(texts[k], depth, start, ends[k], fa[k], fa[k + 1], frs[k])]
                    {
                        &&& start.variables() == fs[k].variables()
                        &&& start.history() == fs[k].history()
                        &&& start.batch_stack().drop_last() == fs[k].batch_stack()
                        &&& start.batch_stack().len() > 0
                        &&& start.batch_stack().last().0@ == names[k]
                        &&& start.batch_stack().last().1 == Some(0usize)
                        &&& Self::text_run(texts[k], depth, start, ends[k], fa[k], fa[k + 1], frs[k])
                    }
                &&& fs[k + 1].variables() == ends[k].variables()
                &&& fs[k + 1].history() == ends[k].history()
                &&& frs[k] is Ok ==> fs[k + 1].batch_stack() == popped(ends[k].batch_stack())
            }
    }

    proof fn lemma_files_push(
        names: Seq<Seq<char>>,
        texts: Seq<Seq<char>>,
        depth: usize,
        fs: Seq<Self>,
        ends: Seq<Self>,
        fa: Seq<C>,
        frs: Seq<Result<(), C::Error>>,
        start: Self,
        end: Self,
        next: Self,
        a: C,
        r: Result<(), C::Error>,
    )
        requires
            Self::files_run(names, texts, depth, fs, ends, fa, frs),
            frs.len() < names.len(),
            forall|k: int| 0 <= k < frs.len() ==> (#[trigger] frs[k]) is Ok,
            start.variables() == fs.last().variables(),
            start.history() == fs.last().history(),
            start.batch_stack().drop_last() == fs.last().batch_stack(),
            start.batch_stack().len() > 0,
            start.batch_stack().last().0@ == names[frs.len() as int],
            start.batch_stack().last().1 == Some(0usize),
            Self::text_run(texts[frs.len() as int], depth, start, end, fa.last(), a, r),
            next.variables() == end.variables(),
            next.history() == end.history(),
            r is Ok ==> next.batch_stack() == popped(end.batch_stack()),
        ensures
            Self::files_run(names, texts, depth, fs.push(next), ends.push(end), fa.push(a), frs.push(r)),
    {
        let n = frs.len() as int;
        let fs2 = fs.push(next);
        let ends2 = ends.push(end);
        let fa2 = fa.push(a);
        let frs2 = frs.push(r);
        assert forall|k: int| #![trigger ends2[k]] 0 <= k < frs2.len() implies {
            &&& exists|st: Self|
                #![trigger Self::text_run(texts[k], depth, st, ends2[k], fa2[k], fa2[k + 1], frs2[k])]
                {
                    &&& st.variables() == fs2[k].variables()
                    &&& st.history() == fs2[k].history()
                    &&& st.batch_stack().drop_last() == fs2[k].batch_stack()
                    &&& st.batch_stack().len() > 0
                    &&& st.batch_stack().last().0@ == names[k]
                    &&& st.batch_stack().last().1 == Some(0usize)
                    &&& Self::text_run(texts[k], depth, st, ends2[k], fa2[k], fa2[k + 1], frs2[k])
                }
            &&& fs2[k + 1].variables() == ends2[k].variables()
            &&& fs2[k + 1].history() == ends2[k].history()
            &&& frs2[k] is Ok ==> fs2[k + 1].batch_stack() == popped(ends2[k].batch_stack())
        } by {
            if k < n {
                assert(ends2[k] == ends[k]);
                assert(fs2[k] == fs[k] && fs2[k + 1] == fs[k + 1]);
                assert(fa2[k] == fa[k] && fa2[k + 1] == fa[k + 1]);
                assert(frs2[k] == frs[k]);
            } else {
                assert(k == n);
                assert(Self::text_run(texts[k], depth, start, ends2[k], fa2[k], fa2[k + 1], frs2[k]));
            }
        }
        assert forall|k: int| 0 <= k < frs2.len() - 1 implies (#[trigger] frs2[k]) is Ok by {
            assert(frs2[k] == frs[k]);
        }
    }

    /// What executing matches with batch files gives, of the argument sets `s` and the results
    /// `outs` of handling the arguments: where an argument function fails, its error; otherwise
    /// every batch file is read in turn, and where one cannot be read, the first such is the
    /// error ("failed to load batch file {name}: {why}") and no batch line or command is
    /// executed: the arguments and the variables and results are as the arguments' handling
    /// left them. Where all were read, their texts are executed in turn (see `files_run`) from
    /// the arguments that the arguments' handling left; the error of a file that failed is
    /// the error, and nothing is executed after it; where none failed, the command is handled:
    /// a command without a handler set is the error "Subcommand has no handler", a failure of
    /// its handling is located by the batch stack, and a success makes its value the latest
    /// result after those that the batch lines left.
    pub open spec fn batch_result<IO: Fn(IoRequest) -> IoReply>(
        io: &IO,
        before: Self,
        after: Self,
        m: Matches,
        s: Seq<C>,
        outs: Seq<Result<Option<C::Value>, ExecError<C>>>,
        a1: C,
        depth: usize,
        r: Result<(), C::Error>,
    ) -> bool {
        let names = Self::batch_names(m);
        match run_error::<C>(outs) {
            Some(x) => {
                &&& a1 == s.last()
                &&& after.variables() == before.variables()
                &&& after.history() == before.history()
                &&& r matches Err(e) && error_from_prefix::<C>(e, x.kind_text())
            },
            None => exists|replies: Seq<IoReply>|
                #![trigger replies.len()]
                {
                    &&& replies.len() == names.len()
                    &&& forall|i: int| 0 <= i < names.len() ==> read_file(io, names[i], #[trigger] replies[i])
                    &&& forall|j: int|
                        #![trigger replies[j]]
                        0 <= j < replies.len() && read_failed(replies[j]) && (forall|k: int|
                            0 <= k < j ==> !read_failed(#[trigger] replies[k])) ==> {
                            &&& a1 == s.last()
                            &&& after.variables() == before.variables()
                            &&& after.history() == before.history()
                            &&& r matches Err(e) && error_from_text::<C>(
                                e,
                                load_message(names[j], failure_text(replies[j])),
                            )
                        }
                    &&& (forall|k: int| 0 <= k < replies.len() ==> !read_failed(#[trigger] replies[k]))
                        ==> exists|fs: Seq<Self>, ends: Seq<Self>, fa: Seq<C>, frs: Seq<Result<(), C::Error>>|
                        #![trigger Self::files_run(names, read_texts(replies), depth, fs, ends, fa, frs)]
                        {
                            &&& Self::files_run(names, read_texts(replies), depth, fs, ends, fa, frs)
                            &&& fs[0].variables() == before.variables()
                            &&& fs[0].history() == before.history()
                            &&& fs[0].batch_stack() == before.batch_stack()
                            &&& fa[0] == s.last()
                            &&& (frs.len() > 0 && frs.last() is Err) ==> {
                                &&& r == frs.last()
                                &&& a1 == fa.last()
                                &&& after.variables() == ends.last().variables()
                                &&& after.history() == ends.last().history()
                            }
                            &&& !(frs.len() > 0 && frs.last() is Err) ==> {
                                &&& frs.len() == names.len()
                                &&& r is Ok ==> exists|v: C::Value|
                                    #![trigger before.handlers().cmd_outcome(m, Ok(v))]
                                    {
                                        &&& before.handlers().cmd_outcome(m, Ok(v))
                                        &&& after.variables() == fs.last().variables()
                                        &&& values_of(after.history()) == after_result(values_of(fs.last().history()), v)
                                    }
                                &&& r matches Err(e) ==> {
                                    ||| !before.handlers().routes(m) && error_from_text::<C>(e, "Subcommand has no handler"@)
                                    ||| before.handlers().routes(m) && exists|x: ExecError<C>|
                                        #![trigger before.handlers().cmd_outcome(m, Err(x))]
                                        before.handlers().cmd_outcome(m, Err(x)) && error_from_prefix::<C>(
                                            e,
                                            location(fs.last().batch_stack()) + x.kind_text(),
                                        )
                                }
                            }
                        }
                },
        }
    }

    /// Where an error of executing the matches of a command line comes from: a function of an
    /// argument (the error's text is that of its error); a builtin command; a batch file that
    /// could not be read or a line of one; a subcommand without a handler set ("Subcommand has
    /// no handler"); or the command's handling, the error's text being the location of the
    /// innermost batch line being executed when it failed (with no batch files given, that of
    /// the command set) and that of its error
    pub open spec fn failure(before: Self, after: Self, m: Matches, e: C::Error) -> bool {
        let builtin = before.has_builtins() && builtin_of_matches(m) is Some;
        ||| exists|x: ExecError<C>, t: Seq<char>|
            #![trigger before.handlers().args_failed(m, x), error_from_text::<C>(e, x.kind_text() + t)]
            before.handlers().args_failed(m, x) && error_from_text::<C>(e, x.kind_text() + t)
        ||| before.handlers().args_handled(m) && builtin
        ||| before.handlers().args_handled(m) && !builtin && m.has_id("batch"@)
        ||| before.handlers().args_handled(m) && !builtin && !before.handlers().routes(m)
            && error_from_text::<C>(e, "Subcommand has no handler"@)
        ||| before.handlers().args_handled(m) && !builtin && before.handlers().routes(m) && exists|
            x: ExecError<C>,
            p: Seq<char>,
            t: Seq<char>,
        |
            #![trigger before.handlers().cmd_outcome(m, Err(x)), error_from_text::<C>(e, p + x.kind_text() + t)]
            before.handlers().cmd_outcome(m, Err(x)) && error_from_text::<C>(e, p + x.kind_text() + t)
                && p == location(after.batch_stack()) && (!m.has_id("batch"@) ==> after.batch_stack()
                == before.batch_stack())
    }

    /// Execute the matches of a command line: the arguments are handled; a builtin command is
    /// executed (when builtins are in use); otherwise the batch files given are read and
    /// executed in turn, and then the command is handled. A command's value becomes the latest
    /// result.
    fn execute_given_matches<IO: Fn(IoRequest) -> IoReply>(&mut self, cmd_args: &mut C, matches: &Matches, io: &IO, depth: usize) -> (r: Result<(), C::Error>)
        requires
            old(self).wf(),
            old(self).handlers().callable(),
            io_ready(io),
        ensures
            final(self).wf(),
            final(self).handlers() == old(self).handlers(),
            final(self).has_builtins() == old(self).has_builtins(),
            Self::matches_outcome(*old(self), *final(self), *matches, r),
            exists|s: Seq<C>, outs: Seq<Result<Option<C::Value>, ExecError<C>>>|
                #![trigger run_shape(Self::line_plan(*old(self), *matches), s, outs)]
                {
                    &&& run_shape(Self::line_plan(*old(self), *matches), s, outs)
                    &&& s[0] == *old(cmd_args)
                    &&& forall|i: int|
                        #![trigger in_run(outs, i)]
                        in_run(outs, i) ==> exists|c: &mut C|
                            #![trigger step_ensures(Self::line_plan(*old(self), *matches)[i], c, outs[i])]
                            *c == s[i] && *final(c) == s[i + 1] && step_ensures(Self::line_plan(*old(self), *matches)[i], c, outs[i])
                    &&& Self::line_result(io, *old(self), *final(self), *matches, s, outs, *final(cmd_args), depth, r)
                },
        decreases depth, 2int,
    {
        proof {
            reveal_strlit("batch");
            reveal_strlit("Subcommand has no handler");
            reveal_strlit("Value stack underflow in pop");
        }
        let ghost a0 = *cmd_args;
        let ghost p1 = old(self).handlers().args_plan(*matches);
        let ghost p2 = old(self).handlers().cmd_plan(*matches);
        let ra = self.handler_set.handle_args(cmd_args, matches);
        let ghost a1 = *cmd_args;
        if let Err(e) = ra {
            let msg = e.message();
            let r = error_from::<C>(msg);
            proof {
                let t = msg@.skip(e.kind_text().len() as int);
                assert(msg@ =~= e.kind_text() + t);
                assert(self.handlers().args_failed(*matches, e));
                assert(error_from_text::<C>(r, e.kind_text() + t));
                let (s1, o1) = choose|s1: Seq<C>, o1: Seq<Result<Option<C::Value>, ExecError<C>>>| {
                &&& run_shape(p1, s1, o1)
                &&& s1[0] == a0
                &&& s1.last() == a1
                &&& forall|i: int|
                    #![trigger in_run(o1, i)]
                    in_run(o1, i) ==> exists|c: &mut C|
                        #![trigger step_ensures(p1[i], c, o1[i])]
                        *c == s1[i] && *final(c) == s1[i + 1] && step_ensures(p1[i], c, o1[i])
                &&& ra == match run_error::<C>(o1) {
                    Some(e) => Err::<(), ExecError<C>>(e),
                    None => Ok(()),
                }
            };
                lemma_run_extend(p1, p2, s1, o1);
                assert(run_error::<C>(o1) == Some(e));
                assert(o1.len() <= p1.len());
                lemma_error_prefix::<C>(r, e.kind_text(), t);
                assert(Self::direct_result(io, *old(self), *self, *matches, s1, o1, *cmd_args, Err(r)));
                if !Self::without_batches(*old(self), *matches) {
                    assert(Self::line_plan(*old(self), *matches) == p1);
                    assert(Self::batch_result(io, *old(self), *self, *matches, s1, o1, *cmd_args, depth, Err(r)));
                } else if (old(self).has_builtins() && builtin_of_matches(*matches) is Some) || !old(
                    self,
                ).handlers().routes(*matches) {
                    assert(Self::line_plan(*old(self), *matches) == p1);
                } else {
                    assert(Self::line_plan(*old(self), *matches) == p1 + p2);
                }
            }
            return Err(r);
        }
        let ghost before = *old(self);
        if self.use_builtins {
            let rb = self.handle_builtins(cmd_args, matches, io);
            let ghost mid = *self;
            let ghost a2 = *cmd_args;
            proof {
                let (s1, o1) = choose|s1: Seq<C>, o1: Seq<Result<Option<C::Value>, ExecError<C>>>| {
                &&& run_shape(p1, s1, o1)
                &&& s1[0] == a0
                &&& s1.last() == a1
                &&& forall|i: int|
                    #![trigger in_run(o1, i)]
                    in_run(o1, i) ==> exists|c: &mut C|
                        #![trigger step_ensures(p1[i], c, o1[i])]
                        *c == s1[i] && *final(c) == s1[i + 1] && step_ensures(p1[i], c, o1[i])
                &&& ra == match run_error::<C>(o1) {
                    Some(e) => Err::<(), ExecError<C>>(e),
                    None => Ok(()),
                }
            };
                assert(o1.len() == p1.len());
            }
            match rb {
                Err(e) => {
                    proof {
                        let (s1, o1) = choose|s1: Seq<C>, o1: Seq<Result<Option<C::Value>, ExecError<C>>>| {
                &&& run_shape(p1, s1, o1)
                &&& s1[0] == a0
                &&& s1.last() == a1
                &&& forall|i: int|
                    #![trigger in_run(o1, i)]
                    in_run(o1, i) ==> exists|c: &mut C|
                        #![trigger step_ensures(p1[i], c, o1[i])]
                        *c == s1[i] && *final(c) == s1[i + 1] && step_ensures(p1[i], c, o1[i])
                &&& ra == match run_error::<C>(o1) {
                    Some(e) => Err::<(), ExecError<C>>(e),
                    None => Ok(()),
                }
            };
                        assert(Self::builtins_outcome(io, before, mid, *matches, s1.last(), a2, rb));
                        assert(builtin_of_matches(*matches) is Some);
                        assert(Self::line_plan(*old(self), *matches) == p1);
                        assert(run_error::<C>(o1) is None);
                        assert(Self::direct_result(io, *old(self), *self, *matches, s1, o1, *cmd_args, Err(e)));
                    }
                    return Err(e);
                },
                Ok(Some(result)) => {
                    self.store.executed_result(result);
                    proof {
                        let (s1, o1) = choose|s1: Seq<C>, o1: Seq<Result<Option<C::Value>, ExecError<C>>>| {
                &&& run_shape(p1, s1, o1)
                &&& s1[0] == a0
                &&& s1.last() == a1
                &&& forall|i: int|
                    #![trigger in_run(o1, i)]
                    in_run(o1, i) ==> exists|c: &mut C|
                        #![trigger step_ensures(p1[i], c, o1[i])]
                        *c == s1[i] && *final(c) == s1[i + 1] && step_ensures(p1[i], c, o1[i])
                &&& ra == match run_error::<C>(o1) {
                    Some(e) => Err::<(), ExecError<C>>(e),
                    None => Ok(()),
                }
            };
                        assert(Self::builtins_outcome(io, before, mid, *matches, s1.last(), a2, rb));
                        assert(builtin_of_matches(*matches) is Some);
                        assert(Self::line_plan(*old(self), *matches) == p1);
                        assert(run_error::<C>(o1) is None);
                        assert(Self::direct_result(io, *old(self), *self, *matches, s1, o1, *cmd_args, Ok(())));
                    }
                    return Ok(());
                },
                Ok(None) => {},
            }
        }
        let ghost a2 = *cmd_args;
        assert(a2 == a1);
        assert(self.variables() == before.variables() && self.history() == before.history()
            && self.batch_stack() == before.batch_stack());
        let ghost mut replies: Seq<IoReply> = Seq::empty();
        let ghost mut fs: Seq<Self> = seq![*self];
        let ghost mut ends: Seq<Self> = Seq::empty();
        let ghost mut fa: Seq<C> = seq![*cmd_args];
        let ghost mut frs: Seq<Result<(), C::Error>> = Seq::empty();
        if matches.contains_id("batch") {
            assert(Self::batch_stage(*old(self), *matches));
            proof {
                let (s1, o1) = choose|s1: Seq<C>, o1: Seq<Result<Option<C::Value>, ExecError<C>>>| {
                &&& run_shape(p1, s1, o1)
                &&& s1[0] == a0
                &&& s1.last() == a1
                &&& forall|i: int|
                    #![trigger in_run(o1, i)]
                    in_run(o1, i) ==> exists|c: &mut C|
                        #![trigger step_ensures(p1[i], c, o1[i])]
                        *c == s1[i] && *final(c) == s1[i + 1] && step_ensures(p1[i], c, o1[i])
                &&& ra == match run_error::<C>(o1) {
                    Some(e) => Err::<(), ExecError<C>>(e),
                    None => Ok(()),
                }
            };
                assert(o1.len() == p1.len());
            }
            self.show_result = false;
            proof {
                fs = seq![*self];
            }
            let names: Vec<String> = match matches.get_many("batch") {
                Some(v) => v.clone(),
                None => Vec::new(),
            };
            assert(names@.len() == Self::batch_names(*matches).len());
            assert(forall|k: int| 0 <= k < names@.len() ==> names@[k]@ == Self::batch_names(*matches)[k]);
            let mut texts: Vec<Result<String, String>> = Vec::new();
            let mut i: usize = 0;
            while i < names.len()
                invariant
                    io_ready(io),
                    texts@.len() == i,
                    i <= names@.len(),
                    names@.len() == Self::batch_names(*matches).len(),
                    forall|k: int| 0 <= k < names@.len() ==> (#[trigger] names@[k])@ == Self::batch_names(*matches)[k],
                    Self::batch_stage(*old(self), *matches),
                    p1 == old(self).handlers().args_plan(*matches),
                    a0 == *old(cmd_args),
                    self.wf(),
                    self.handlers().callable(),
                    self.handlers() == old(self).handlers(),
                    self.has_builtins() == old(self).has_builtins(),
                    self.variables() == old(self).variables(),
                    self.history() == old(self).history(),
                    self.batch_stack() == old(self).batch_stack(),
                    fs == seq![*self],
                    fa == seq![a1],
                    ends.len() == 0,
                    frs.len() == 0,
                    *cmd_args == a1,
                    replies.len() == i,
                    forall|k: int| 0 <= k < i ==> read_file(io, names@[k]@, #[trigger] replies[k]),
                    forall|k: int|
                        #![trigger texts@[k]]
                        0 <= k < i ==> (read_failed(replies[k]) <==> texts@[k] is Err) && (
                        texts@[k] matches Err(e) ==> e@ == failure_text(replies[k])) && (
                        texts@[k] matches Ok(t) ==> t@ == read_text(replies[k])),
                    exists|s: Seq<C>, outs: Seq<Result<Option<C::Value>, ExecError<C>>>|
                        #![trigger run_shape(p1, s, outs)]
                        {
                            &&& run_shape(p1, s, outs)
                            &&& s[0] == a0
                            &&& forall|i: int|
                                #![trigger in_run(outs, i)]
                                in_run(outs, i) ==> exists|c: &mut C|
                                    #![trigger step_ensures(p1[i], c, outs[i])]
                                    *c == s[i] && *final(c) == s[i + 1] && step_ensures(p1[i], c, outs[i])
                            &&& run_error::<C>(outs) is None && s.last() == a1
                        },
                decreases names@.len() - i,
            {
                let q = IoRequest::ReadFile(names[i].clone());
                let ghost gq = q;
                let reply = io(q);
                proof {
                    assert(io.ensures((gq,), reply));
                    assert(read_file(io, names@[i as int]@, reply));
                    replies = replies.push(reply);
                }
                match reply {
                    IoReply::Text(t) => texts.push(Ok(t)),
                    IoReply::Failed(e) => texts.push(Err(e)),
                    IoReply::OpenFailed(e) => texts.push(Err(e)),
                    _ => texts.push(Ok(String::new())),
                }
                i += 1;
            }
            let mut i: usize = 0;
            while i < texts.len()
                invariant
                    self.wf(),
                    self.handlers() == old(self).handlers(),
                    self.has_builtins() == old(self).has_builtins(),
                    texts@.len() == names@.len(),
                    i <= texts@.len(),
                    names@.len() == Self::batch_names(*matches).len(),
                    forall|k: int| 0 <= k < names@.len() ==> (#[trigger] names@[k])@ == Self::batch_names(*matches)[k],
                    Self::batch_stage(*old(self), *matches),
                    p1 == old(self).handlers().args_plan(*matches),
                    a0 == *old(cmd_args),
                    self.variables() == old(self).variables(),
                    self.history() == old(self).history(),
                    self.batch_stack() == old(self).batch_stack(),
                    fs == seq![*self],
                    fa == seq![a1],
                    ends.len() == 0,
                    frs.len() == 0,
                    *cmd_args == a1,
                    replies.len() == names@.len(),
                    forall|k: int| 0 <= k < names@.len() ==> read_file(io, names@[k]@, #[trigger] replies[k]),
                    forall|k: int|
                        #![trigger texts@[k]]
                        0 <= k < names@.len() ==> (read_failed(replies[k]) <==> texts@[k] is Err) && (
                        texts@[k] matches Err(e) ==> e@ == failure_text(replies[k])) && (
                        texts@[k] matches Ok(t) ==> t@ == read_text(replies[k])),
                    forall|k: int| 0 <= k < i ==> !read_failed(#[trigger] replies[k]),
                    exists|s: Seq<C>, outs: Seq<Result<Option<C::Value>, ExecError<C>>>|
                        #![trigger run_shape(p1, s, outs)]
                        {
                            &&& run_shape(p1, s, outs)
                            &&& s[0] == a0
                            &&& forall|i: int|
                                #![trigger in_run(outs, i)]
                                in_run(outs, i) ==> exists|c: &mut C|
                                    #![trigger step_ensures(p1[i], c, outs[i])]
                                    *c == s[i] && *final(c) == s[i + 1] && step_ensures(p1[i], c, outs[i])
                            &&& run_error::<C>(outs) is None && s.last() == a1
                        },
                decreases texts@.len() - i,
            {
                if let Err(e) = &texts[i] {
                    let mut msg = String::new();
                    text::append_str(&mut msg, "failed to load batch file ");
                    text::append_str(&mut msg, names[i].as_str());
                    text::append_str(&mut msg, ": ");
                    text::append_str(&mut msg, e.as_str());
                    let r = error_from::<C>(msg);
                    proof {
                        reveal_strlit("failed to load batch file ");
                        reveal_strlit(": ");
                        assert(texts@[i as int] is Err);
                        assert(msg@ =~= load_message(Self::batch_names(*matches)[i as int], failure_text(replies[i as int])));
                        let (s1, o1) = choose|s1: Seq<C>, o1: Seq<Result<Option<C::Value>, ExecError<C>>>| {
                &&& run_shape(p1, s1, o1)
                &&& s1[0] == a0
                &&& s1.last() == a1
                &&& forall|i: int|
                    #![trigger in_run(o1, i)]
                    in_run(o1, i) ==> exists|c: &mut C|
                        #![trigger step_ensures(p1[i], c, o1[i])]
                        *c == s1[i] && *final(c) == s1[i + 1] && step_ensures(p1[i], c, o1[i])
                &&& run_error::<C>(o1) is None && s1.last() == a1
            };
                        assert(Self::batch_result(io, *old(self), *self, *matches, s1, o1, *cmd_args, depth, Err(r)));
                        assert(Self::line_plan(*old(self), *matches) == p1);
                        assert(Self::line_result(io, *old(self), *self, *matches, s1, o1, *cmd_args, depth, Err(r)));
                    }
                    return Err(r);
                }
                i += 1;
            }
            let mut i: usize = 0;
            while i < texts.len()
                invariant
                    self.wf(),
                    self.handlers().callable(),
                    self.handlers() == old(self).handlers(),
                    self.has_builtins() == old(self).has_builtins(),
                    io_ready(io),
                    texts@.len() == names@.len(),
                    i <= texts@.len(),
                    Self::batch_stage(*old(self), *matches),
                    p1 == old(self).handlers().args_plan(*matches),
                    a0 == *old(cmd_args),
                    replies.len() == names@.len(),
                    forall|k: int| 0 <= k < names@.len() ==> read_file(io, Self::batch_names(*matches)[k], #[trigger] replies[k]),
                    forall|k: int| 0 <= k < names@.len() ==> !read_failed(#[trigger] replies[k]),
                    names@.len() == Self::batch_names(*matches).len(),
                    forall|k: int| 0 <= k < names@.len() ==> (#[trigger] names@[k])@ == Self::batch_names(*matches)[k],
                    forall|k: int|
                        #![trigger texts@[k]]
                        0 <= k < names@.len() ==> texts@[k] is Ok && (texts@[k] matches Ok(t) ==> t@ == read_texts(replies)[k]),
                    Self::files_run(Self::batch_names(*matches), read_texts(replies), depth, fs, ends, fa, frs),
                    frs.len() == i,
                    forall|k: int| 0 <= k < frs.len() ==> (#[trigger] frs[k]) is Ok,
                    fs[0].variables() == old(self).variables(),
                    fs[0].history() == old(self).history(),
                    fs[0].batch_stack() == old(self).batch_stack(),
                    fa[0] == a1,
                    fa.last() == *cmd_args,
                    self.variables() == fs.last().variables(),
                    self.history() == fs.last().history(),
                    self.batch_stack() == fs.last().batch_stack(),
                    exists|s: Seq<C>, outs: Seq<Result<Option<C::Value>, ExecError<C>>>|
                        #![trigger run_shape(p1, s, outs)]
                        {
                            &&& run_shape(p1, s, outs)
                            &&& s[0] == a0
                            &&& forall|i: int|
                                #![trigger in_run(outs, i)]
                                in_run(outs, i) ==> exists|c: &mut C|
                                    #![trigger step_ensures(p1[i], c, outs[i])]
                                    *c == s[i] && *final(c) == s[i + 1] && step_ensures(p1[i], c, outs[i])
                            &&& run_error::<C>(outs) is None && s.last() == a1
                        },
                decreases texts@.len() - i,
            {
                let t: &str = match &texts[i] {
                    Ok(t) => t.as_str(),
                    Err(e) => e.as_str(),
                };
                let ghost f0 = *self;
                let ghost a_start = *cmd_args;
                self.cmd_stack.push((names[i].clone(), Some(0)));
                let ghost start = *self;
                proof {
                    assert(start.batch_stack().drop_last() =~= f0.batch_stack());
                    assert(texts@[i as int] is Ok);
                    assert(t@ == read_texts(replies)[i as int]);
                }
                match self.execute_str(cmd_args, t, io, depth) {
                    Err(e) => {
                        proof {
                            assert(Self::text_run(read_texts(replies)[i as int], depth, start, *self, a_start, *cmd_args, Err(e)));
                            Self::lemma_files_push(Self::batch_names(*matches), read_texts(replies), depth, fs, ends, fa, frs, start, *self, *self, *cmd_args, Err(e));
                            let fs2 = fs.push(*self);
                            let ends2 = ends.push(*self);
                            let fa2 = fa.push(*cmd_args);
                            let frs2 = frs.push(Err(e));
                            assert(Self::files_run(Self::batch_names(*matches), read_texts(replies), depth, fs2, ends2, fa2, frs2));
                            assert(fs2[0] == fs[0] && fa2[0] == fa[0]);
                            if !Self::without_batches(*old(self), *matches) {
                                let (s1, o1) = choose|s1: Seq<C>, o1: Seq<Result<Option<C::Value>, ExecError<C>>>| {
                &&& run_shape(p1, s1, o1)
                &&& s1[0] == a0
                &&& s1.last() == a1
                &&& forall|i: int|
                    #![trigger in_run(o1, i)]
                    in_run(o1, i) ==> exists|c: &mut C|
                        #![trigger step_ensures(p1[i], c, o1[i])]
                        *c == s1[i] && *final(c) == s1[i + 1] && step_ensures(p1[i], c, o1[i])
                &&& run_error::<C>(o1) is None && s1.last() == a1
            };
                                assert(Self::batch_result(io, *old(self), *self, *matches, s1, o1, *cmd_args, depth, Err(e)));
                                assert(Self::line_plan(*old(self), *matches) == p1);
                                assert(Self::line_result(io, *old(self), *self, *matches, s1, o1, *cmd_args, depth, Err(e)));
                            }
                        }
                        return Err(e);
                    },
                    Ok(()) => {},
                }
                let ghost end = *self;
                let ghost a_end = *cmd_args;
                self.cmd_stack.pop();
                proof {
                    assert(Self::text_run(read_texts(replies)[i as int], depth, start, end, a_start, a_end, Ok(())));
                    assert(self.batch_stack() =~= popped(end.batch_stack()));
                    Self::lemma_files_push(Self::batch_names(*matches), read_texts(replies), depth, fs, ends, fa, frs, start, end, *self, a_end, Ok(()));
                    fs = fs.push(*self);
                    ends = ends.push(end);
                    fa = fa.push(a_end);
                    frs = frs.push(Ok(()));
                }
                i += 1;
            }
        }
        if !self.handler_set.routes_matches(matches) {
            let mut msg = String::new();
            let t = "Subcommand has no handler";
            text::append_str(&mut msg, t);
            proof {
                assert(msg@ =~= t@);
                if !matches.has_id("batch"@) {
                    let (s1, o1) = choose|s1: Seq<C>, o1: Seq<Result<Option<C::Value>, ExecError<C>>>| {
                &&& run_shape(p1, s1, o1)
                &&& s1[0] == a0
                &&& s1.last() == a1
                &&& forall|i: int|
                    #![trigger in_run(o1, i)]
                    in_run(o1, i) ==> exists|c: &mut C|
                        #![trigger step_ensures(p1[i], c, o1[i])]
                        *c == s1[i] && *final(c) == s1[i + 1] && step_ensures(p1[i], c, o1[i])
                &&& ra == match run_error::<C>(o1) {
                    Some(e) => Err::<(), ExecError<C>>(e),
                    None => Ok(()),
                }
            };
                    assert(o1.len() == p1.len());
                    assert(!(old(self).has_builtins() && builtin_of_matches(*matches) is Some));
                    assert(Self::line_plan(*old(self), *matches) == p1);
                    assert(run_error::<C>(o1) is None);
                }
            }
            let r = error_from::<C>(msg);
            proof {
                if !Self::without_batches(*old(self), *matches) {
                    let (s1, o1) = choose|s1: Seq<C>, o1: Seq<Result<Option<C::Value>, ExecError<C>>>| {
                &&& run_shape(p1, s1, o1)
                &&& s1[0] == a0
                &&& s1.last() == a1
                &&& forall|i: int|
                    #![trigger in_run(o1, i)]
                    in_run(o1, i) ==> exists|c: &mut C|
                        #![trigger step_ensures(p1[i], c, o1[i])]
                        *c == s1[i] && *final(c) == s1[i + 1] && step_ensures(p1[i], c, o1[i])
                &&& ra == match run_error::<C>(o1) {
                    Some(e) => Err::<(), ExecError<C>>(e),
                    None => Ok(()),
                }
            };
                    assert(Self::batch_result(io, *old(self), *self, *matches, s1, o1, *cmd_args, depth, Err(r)));
                    assert(Self::line_plan(*old(self), *matches) == p1);
                    assert(Self::line_result(io, *old(self), *self, *matches, s1, o1, *cmd_args, depth, Err(r)));
                }
            }
            proof {
                if !matches.has_id("batch"@) {
                    let (s1, o1) = choose|s1: Seq<C>, o1: Seq<Result<Option<C::Value>, ExecError<C>>>| {
                &&& run_shape(p1, s1, o1)
                &&& s1[0] == a0
                &&& s1.last() == a1
                &&& forall|i: int|
                    #![trigger in_run(o1, i)]
                    in_run(o1, i) ==> exists|c: &mut C|
                        #![trigger step_ensures(p1[i], c, o1[i])]
                        *c == s1[i] && *final(c) == s1[i + 1] && step_ensures(p1[i], c, o1[i])
                &&& ra == match run_error::<C>(o1) {
                    Some(e) => Err::<(), ExecError<C>>(e),
                    None => Ok(()),
                }
            };
                    assert(Self::direct_result(io, *old(self), *self, *matches, s1, o1, *cmd_args, Err(r)));
                }
            }
            return Err(r);
        }
        let rc = self.handler_set.handle_cmd(cmd_args, matches);
        proof {
            if !matches.has_id("batch"@) {
                let (s1, o1) = choose|s1: Seq<C>, o1: Seq<Result<Option<C::Value>, ExecError<C>>>| {
                &&& run_shape(p1, s1, o1)
                &&& s1[0] == a0
                &&& s1.last() == a1
                &&& forall|i: int|
                    #![trigger in_run(o1, i)]
                    in_run(o1, i) ==> exists|c: &mut C|
                        #![trigger step_ensures(p1[i], c, o1[i])]
                        *c == s1[i] && *final(c) == s1[i + 1] && step_ensures(p1[i], c, o1[i])
                &&& ra == match run_error::<C>(o1) {
                    Some(e) => Err::<(), ExecError<C>>(e),
                    None => Ok(()),
                }
            };
                let (s2, o2) = choose|s2: Seq<C>, o2: Seq<Result<Option<C::Value>, ExecError<C>>>| {
                &&& run_shape(p2, s2, o2)
                &&& s2[0] == a1
                &&& s2.last() == *cmd_args
                &&& forall|i: int|
                    #![trigger in_run(o2, i)]
                    in_run(o2, i) ==> exists|c: &mut C|
                        #![trigger step_ensures(p2[i], c, o2[i])]
                        *c == s2[i] && *final(c) == s2[i + 1] && step_ensures(p2[i], c, o2[i])
                &&& old(self).handlers().cmd_run_result(*matches, o2, rc)
            };
                lemma_run_concat(p1, s1, o1, p2, s2, o2);
                assert((o1 + o2).skip(p1.len() as int) =~= o2);
            }
        }
        let result = match rc {
            Ok(v) => v,
            Err(e) => {
                let mut msg = self.location_prefix();
                let ghost p = msg@;
                let em = e.message();
                text::append_str(&mut msg, em.as_str());
                let r = error_from::<C>(msg);
                proof {
                    let t = em@.skip(e.kind_text().len() as int);
                    assert(em@ =~= e.kind_text() + t);
                    assert(msg@ =~= p + e.kind_text() + t);
                    assert(error_from_text::<C>(r, p + e.kind_text() + t));
                    lemma_error_prefix::<C>(r, p + e.kind_text(), t);
                    if !Self::without_batches(*old(self), *matches) {
                        let (s1, o1) = choose|s1: Seq<C>, o1: Seq<Result<Option<C::Value>, ExecError<C>>>| {
                &&& run_shape(p1, s1, o1)
                &&& s1[0] == a0
                &&& s1.last() == a1
                &&& forall|i: int|
                    #![trigger in_run(o1, i)]
                    in_run(o1, i) ==> exists|c: &mut C|
                        #![trigger step_ensures(p1[i], c, o1[i])]
                        *c == s1[i] && *final(c) == s1[i + 1] && step_ensures(p1[i], c, o1[i])
                &&& ra == match run_error::<C>(o1) {
                    Some(e) => Err::<(), ExecError<C>>(e),
                    None => Ok(()),
                }
            };
                        assert(Self::batch_result(io, *old(self), *self, *matches, s1, o1, *cmd_args, depth, Err(r)));
                        assert(Self::line_plan(*old(self), *matches) == p1);
                        assert(Self::line_result(io, *old(self), *self, *matches, s1, o1, *cmd_args, depth, Err(r)));
                    }
                    if !matches.has_id("batch"@) {
                        let (s1, o1) = choose|s1: Seq<C>, o1: Seq<Result<Option<C::Value>, ExecError<C>>>| {
                &&& run_shape(p1, s1, o1)
                &&& s1[0] == a0
                &&& s1.last() == a1
                &&& forall|i: int|
                    #![trigger in_run(o1, i)]
                    in_run(o1, i) ==> exists|c: &mut C|
                        #![trigger step_ensures(p1[i], c, o1[i])]
                        *c == s1[i] && *final(c) == s1[i + 1] && step_ensures(p1[i], c, o1[i])
                &&& ra == match run_error::<C>(o1) {
                    Some(e) => Err::<(), ExecError<C>>(e),
                    None => Ok(()),
                }
            };
                        let (s2, o2) = choose|s2: Seq<C>, o2: Seq<Result<Option<C::Value>, ExecError<C>>>| {
                &&& run_shape(p2, s2, o2)
                &&& s2[0] == a1
                &&& s2.last() == *cmd_args
                &&& forall|i: int|
                    #![trigger in_run(o2, i)]
                    in_run(o2, i) ==> exists|c: &mut C|
                        #![trigger step_ensures(p2[i], c, o2[i])]
                        *c == s2[i] && *final(c) == s2[i + 1] && step_ensures(p2[i], c, o2[i])
                &&& old(self).handlers().cmd_run_result(*matches, o2, rc)
            };
                        lemma_run_concat(p1, s1, o1, p2, s2, o2);
                        assert(!(old(self).has_builtins() && builtin_of_matches(*matches) is Some));
                        assert(Self::line_plan(*old(self), *matches) == p1 + p2);
                        assert(p == location(old(self).batch_stack()));
                        assert(Self::direct_result(io, *old(self), *self, *matches, s1 + s2.drop_first(), o1 + o2, *cmd_args, Err(r)));
                    }
                }
                return Err(r);
            },
        };
        let ghost a3 = *cmd_args;
        let ghost v = result;
        let ghost mid = *self;
        assert(old(self).handlers().cmd_outcome(*matches, Ok(v)));
        self.store.executed_result(Rc::new(result));
        proof {
            if !Self::without_batches(*old(self), *matches) {
                let (s1, o1) = choose|s1: Seq<C>, o1: Seq<Result<Option<C::Value>, ExecError<C>>>| {
                &&& run_shape(p1, s1, o1)
                &&& s1[0] == a0
                &&& s1.last() == a1
                &&& forall|i: int|
                    #![trigger in_run(o1, i)]
                    in_run(o1, i) ==> exists|c: &mut C|
                        #![trigger step_ensures(p1[i], c, o1[i])]
                        *c == s1[i] && *final(c) == s1[i + 1] && step_ensures(p1[i], c, o1[i])
                &&& ra == match run_error::<C>(o1) {
                    Some(e) => Err::<(), ExecError<C>>(e),
                    None => Ok(()),
                }
            };
                assert(values_of(self.history()) == after_result(values_of(mid.history()), v));
                assert(self.variables() == mid.variables());
                assert(old(self).handlers().cmd_outcome(*matches, Ok(v)));
                assert(replies.len() == Self::batch_names(*matches).len());
                assert(Self::batch_result(io, *old(self), *self, *matches, s1, o1, *cmd_args, depth, Ok(())));
                assert(Self::line_plan(*old(self), *matches) == p1);
                assert(Self::line_result(io, *old(self), *self, *matches, s1, o1, *cmd_args, depth, Ok(())));
            }
        }
        proof {
            if !matches.has_id("batch"@) {
                let (s1, o1) = choose|s1: Seq<C>, o1: Seq<Result<Option<C::Value>, ExecError<C>>>| {
                &&& run_shape(p1, s1, o1)
                &&& s1[0] == a0
                &&& s1.last() == a1
                &&& forall|i: int|
                    #![trigger in_run(o1, i)]
                    in_run(o1, i) ==> exists|c: &mut C|
                        #![trigger step_ensures(p1[i], c, o1[i])]
                        *c == s1[i] && *final(c) == s1[i + 1] && step_ensures(p1[i], c, o1[i])
                &&& ra == match run_error::<C>(o1) {
                    Some(e) => Err::<(), ExecError<C>>(e),
                    None => Ok(()),
                }
            };
                let (s2, o2) = choose|s2: Seq<C>, o2: Seq<Result<Option<C::Value>, ExecError<C>>>| {
                &&& run_shape(p2, s2, o2)
                &&& s2[0] == a1
                &&& s2.last() == a3
                &&& forall|i: int|
                    #![trigger in_run(o2, i)]
                    in_run(o2, i) ==> exists|c: &mut C|
                        #![trigger step_ensures(p2[i], c, o2[i])]
                        *c == s2[i] && *final(c) == s2[i + 1] && step_ensures(p2[i], c, o2[i])
                &&& old(self).handlers().cmd_run_result(*matches, o2, rc)
            };
                lemma_run_concat(p1, s1, o1, p2, s2, o2);
                assert((o1 + o2).skip(p1.len() as int) =~= o2);
                assert(!(old(self).has_builtins() && builtin_of_matches(*matches) is Some));
                assert(Self::line_plan(*old(self), *matches) == p1 + p2);
                assert(old(self).handlers().cmd_target(*matches).fn_run_result(o2, rc));
                assert(Self::direct_result(io, *old(self), *self, *matches, s1 + s2.drop_first(), o1 + o2, *cmd_args, Ok(())));
            }
        }
        Ok(())
    }

    /// Execute a command line at a batch nesting depth
    #[verifier::rlimit(100)]
    fn execute_at<IO: Fn(IoRequest) -> IoReply>(&mut self, cmd_args: &mut C, args: Vec<String>, in_batch: bool, io: &IO, depth: usize) -> (r: Result<(), C::Error>)
        requires
            old(self).wf(),
            old(self).handlers().callable(),
            io_ready(io),
        ensures
            final(self).wf(),
            final(self).handlers() == old(self).handlers(),
            final(self).has_builtins() == old(self).has_builtins(),
            exists|c: &mut C|
                #![trigger call_ensures(C::reset_args, (c,), ())]
                *c == *old(cmd_args) && call_ensures(C::reset_args, (c,), ()) && ((Self::parse_of(*old(self), in_batch, clap_glue::texts(args@)) is Ok) ==> exists|s: Seq<C>, outs: Seq<Result<Option<C::Value>, ExecError<C>>>|
                    #![trigger run_shape(Self::line_plan(*old(self), Self::parse_of(*old(self), in_batch, clap_glue::texts(args@))->Ok_0), s, outs)]
                    {
                        &&& run_shape(Self::line_plan(*old(self), Self::parse_of(*old(self), in_batch, clap_glue::texts(args@))->Ok_0), s, outs)
                        &&& s[0] == *final(c)
                        &&& forall|i: int|
                            #![trigger in_run(outs, i)]
                            in_run(outs, i) ==> exists|c: &mut C|
                                #![trigger step_ensures(Self::line_plan(*old(self), Self::parse_of(*old(self), in_batch, clap_glue::texts(args@))->Ok_0)[i], c, outs[i])]
                                *c == s[i] && *final(c) == s[i + 1] && step_ensures(Self::line_plan(*old(self), Self::parse_of(*old(self), in_batch, clap_glue::texts(args@))->Ok_0)[i], c, outs[i])
                        &&& Self::parsed_line_result(io, *old(self), *final(self), Self::parse_of(*old(self), in_batch, clap_glue::texts(args@))->Ok_0, s, outs, *final(cmd_args), in_batch, depth, r)
                    }),
            Self::parsed_outcome(
                *old(self),
                *final(self),
                clap_glue::clap_parse(
                    if in_batch {
                        old(self).batch_spec()
                    } else {
                        old(self).line_command()
                    },
                    bin_name_of(old(self).batch_stack()),
                    clap_glue::texts(args@),
                ),
                in_batch,
                r,
            ),
            (Self::parse_of(*old(self), in_batch, clap_glue::texts(args@)) matches Ok(m) && !in_batch
                && m.get_flag_spec("interactive"@)) ==> exists|mid: Self, a_mid: C, r0: Result<(), C::Error>|
                #![trigger Self::interactive_after(io, prompt_name_of(old(self).batch_stack()), mid, *final(self), a_mid, *final(cmd_args), depth, r0, r)]
                Self::matches_outcome(*old(self), mid, Self::parse_of(*old(self), in_batch, clap_glue::texts(args@))->Ok_0, r0)
                    && Self::interactive_after(
                    io,
                    prompt_name_of(old(self).batch_stack()),
                    mid,
                    *final(self),
                    a_mid,
                    *final(cmd_args),
                    depth,
                    r0,
                    r,
                ),
        decreases depth, 4int,
    {
        cmd_args.reset_args();
        let bin = self.bin_name();
        let prompt_name: String = match &bin {
            Some(b) => b.clone(),
            None => String::new(),
        };
        let ghost targs = clap_glue::texts(args@);
        let parsed = if in_batch {
            clap_glue::get_matches(&self.batch_command, bin, args)
        } else {
            clap_glue::get_matches(&self.command, bin, args)
        };
        proof {
            assert(parsed == Self::parse_of(*old(self), in_batch, targs));
            assert(prompt_name@ == prompt_name_of(old(self).batch_stack()));
        }
        self.execute_parsed(cmd_args, parsed, in_batch, prompt_name, io, depth)
    }

    /// What executing the parse of a command line may give, from the command set `before` to
    /// the command set `after` with the result `r`: a refusal is an error with clap's message,
    /// and nothing changes; matches are executed (see `matches_outcome`), an error of theirs
    /// being no error in a batch with `--ignore_errors`
    pub open spec fn parsed_outcome(
        before: Self,
        after: Self,
        parsed: Result<Matches, clap_glue::ClapFailure>,
        in_batch: bool,
        r: Result<(), C::Error>,
    ) -> bool {
        &&& parsed matches Err(f) ==> (r matches Err(e) && error_from_text::<C>(e, f.message@)
            && after == before)
        &&& parsed matches Ok(m) ==> ({
            let ignore = before.has_builtins() && in_batch && m.get_flag_spec("ignore_errors"@);
            let interactive = !in_batch && m.get_flag_spec("interactive"@);
            &&& (!ignore && !interactive) ==> Self::matches_outcome(before, after, m, r)
            &&& (ignore && !interactive) ==> r is Ok
            &&& interactive ==> exists|mid: Self, r0: Result<(), C::Error>|
                #![trigger Self::matches_outcome(before, mid, m, r0)]
                Self::matches_outcome(before, mid, m, r0) && (r0 is Err ==> (r == r0 && after
                    == mid))
        })
    }

    /// What clap gives for the words of a command line: matched by the batch command in a
    /// batch, otherwise by the command of the command line, named as the innermost batch line
    pub open spec fn parse_of(before: Self, in_batch: bool, args: Seq<Seq<char>>) -> Result<
        Matches,
        clap_glue::ClapFailure,
    > {
        clap_glue::clap_parse(
            if in_batch {
                before.batch_spec()
            } else {
                before.line_command()
            },
            bin_name_of(before.batch_stack()),
            args,
        )
    }

    /// What executing the parse of a command line gives, of the calls that executing its
    /// matches made (see `line_result`): in a batch with `--ignore_errors`, success whatever the
    /// matches gave; with `--interactive`, the matches' error where they failed; otherwise the
    /// matches' result
    pub open spec fn parsed_line_result<IO: Fn(IoRequest) -> IoReply>(
        io: &IO,
        before: Self,
        after: Self,
        m: Matches,
        s: Seq<C>,
        outs: Seq<Result<Option<C::Value>, ExecError<C>>>,
        a1: C,
        in_batch: bool,
        depth: usize,
        r: Result<(), C::Error>,
    ) -> bool {
        let ignore = before.has_builtins() && in_batch && m.get_flag_spec("ignore_errors"@);
        let interactive = !in_batch && m.get_flag_spec("interactive"@);
        &&& (!ignore && !interactive) ==> Self::line_result(io, before, after, m, s, outs, a1, depth, r)
        &&& (ignore && !interactive) ==> r is Ok && exists|r0: Result<(), C::Error>|
            #![trigger Self::line_result(io, before, after, m, s, outs, a1, depth, r0)]
            Self::line_result(io, before, after, m, s, outs, a1, depth, r0)
        &&& interactive ==> exists|mid: Self, a_mid: C, r0: Result<(), C::Error>|
            #![trigger Self::line_result(io, before, mid, m, s, outs, a_mid, depth, r0)]
            Self::line_result(io, before, mid, m, s, outs, a_mid, depth, r0) && (r0 is Err ==> (r == r0
                && after == mid && a1 == a_mid))
    }

    /// Execute what the parse of a command line gave. A refusal is an error with clap's
    /// message (outside a batch the application is first asked to exit). Matches are executed;
    /// in a batch with builtins, `--ignore_errors` makes an error of them no error; outside a
    /// batch, `--interactive` then reads lines of input with the prompt and executes each until
    /// the input ends, printing the error of each.
    #[verifier::rlimit(100)]
    pub fn execute_parsed<IO: Fn(IoRequest) -> IoReply>(
        &mut self,
        cmd_args: &mut C,
        parsed: Result<Matches, clap_glue::ClapFailure>,
        in_batch: bool,
        prompt_name: String,
        io: &IO,
        depth: usize,
    ) -> (r: Result<(), C::Error>)
        requires
            old(self).wf(),
            old(self).handlers().callable(),
            io_ready(io),
        ensures
            final(self).wf(),
            final(self).handlers() == old(self).handlers(),
            final(self).has_builtins() == old(self).has_builtins(),
            Self::parsed_outcome(*old(self), *final(self), parsed, in_batch, r),
            parsed is Err ==> *final(cmd_args) == *old(cmd_args),
            (parsed matches Ok(m) && !in_batch && m.get_flag_spec("interactive"@)) ==> exists|
                mid: Self,
                a_mid: C,
                r0: Result<(), C::Error>,
            |
                #![trigger Self::interactive_after(io, prompt_name@, mid, *final(self), a_mid, *final(cmd_args), depth, r0, r)]
                Self::matches_outcome(*old(self), mid, parsed->Ok_0, r0) && Self::interactive_after(
                    io,
                    prompt_name@,
                    mid,
                    *final(self),
                    a_mid,
                    *final(cmd_args),
                    depth,
                    r0,
                    r,
                ),
            parsed is Ok ==> exists|s: Seq<C>, outs: Seq<Result<Option<C::Value>, ExecError<C>>>|
                #![trigger run_shape(Self::line_plan(*old(self), parsed->Ok_0), s, outs)]
                {
                    &&& run_shape(Self::line_plan(*old(self), parsed->Ok_0), s, outs)
                    &&& s[0] == *old(cmd_args)
                    &&& forall|i: int|
                        #![trigger in_run(outs, i)]
                        in_run(outs, i) ==> exists|c: &mut C|
                            #![trigger step_ensures(Self::line_plan(*old(self), parsed->Ok_0)[i], c, outs[i])]
                            *c == s[i] && *final(c) == s[i + 1] && step_ensures(Self::line_plan(*old(self), parsed->Ok_0)[i], c, outs[i])
                    &&& Self::parsed_line_result(io, *old(self), *final(self), parsed->Ok_0, s, outs, *final(cmd_args), in_batch, depth, r)
                },
        decreases depth, 3int,
    {
        proof {
            reveal_strlit("ignore_errors");
            reveal_strlit("interactive");
        }
        let matches = match parsed {
            Err(f) => {
                if !in_batch {
                    io(IoRequest::Exit { code: f.exit_code, message: f.message.clone(), to_stderr: f.use_stderr });
                }
                return Err(error_from::<C>(f.message));
            },
            Ok(m) => m,
        };
        let ignore_errors = self.use_builtins && in_batch && matches.get_flag("ignore_errors");
        let be_interactive = !in_batch && matches.get_flag("interactive");
        let r0 = self.execute_given_matches(cmd_args, &matches, io, depth);
        let ghost mid = *self;
        let ghost a_mid = *cmd_args;
        let ghost pname = prompt_name@;
        match r0 {
            Err(e) => {
                if !ignore_errors {
                    proof {
                        assert(Self::interactive_after(io, pname, mid, *self, a_mid, *cmd_args, depth, r0, r0));
                    }
                    return Err(e);
                }
            },
            Ok(()) => {},
        }
        assert(be_interactive ==> Self::matches_outcome(*old(self), mid, matches, r0) && r0 is Ok);
        if be_interactive {
            let mut prompt = prompt_name;
            text::append_str(&mut prompt, " > ");
            let ghost mut selves: Seq<Self> = seq![*self];
            let ghost mut argss: Seq<C> = seq![*cmd_args];
            let ghost mut lines: Seq<Seq<char>> = Seq::empty();
            let mut count: usize = 0;
            while count < usize::MAX
                invariant
                    self.wf(),
                    self.handlers().callable(),
                    self.handlers() == old(self).handlers(),
                    self.has_builtins() == old(self).has_builtins(),
                    io_ready(io),
                    parsed is Ok,
                    !in_batch && (parsed->Ok_0).get_flag_spec("interactive"@),
                    parsed->Ok_0 == matches,
                    Self::matches_outcome(*old(self), mid, matches, r0),
                    r0 is Ok,
                    prompt@ == pname + " > "@,
                    pname == prompt_name@,
                    Self::interactive_run(io, prompt@, selves, argss, lines, depth),
                    selves[0] == mid,
                    argss[0] == a_mid,
                    selves.last() == *self,
                    argss.last() == *cmd_args,
                    exists|s: Seq<C>, outs: Seq<Result<Option<C::Value>, ExecError<C>>>|
                        #![trigger run_shape(Self::line_plan(*old(self), matches), s, outs)]
                        {
                            &&& run_shape(Self::line_plan(*old(self), matches), s, outs)
                            &&& s[0] == *old(cmd_args)
                            &&& forall|i: int|
                                #![trigger in_run(outs, i)]
                                in_run(outs, i) ==> exists|c: &mut C|
                                    #![trigger step_ensures(Self::line_plan(*old(self), matches)[i], c, outs[i])]
                                    *c == s[i] && *final(c) == s[i + 1] && step_ensures(Self::line_plan(*old(self), matches)[i], c, outs[i])
                            &&& Self::line_result(io, *old(self), mid, matches, s, outs, a_mid, depth, r0)
                        },
                decreases usize::MAX - count,
            {
                let q = IoRequest::ReadLine(prompt.clone());
                let ghost gq = q;
                let reply = io(q);
                let ghost greply = reply;
                match reply {
                    IoReply::Text(line) => {
                        if line.as_str().is_empty() {
                            break;
                        }
                        proof {
                            assert(io.ensures((gq,), greply));
                            assert(read_line(io, prompt@, line@));
                        }
                        let ghost s0 = *self;
                        let ghost c0 = *cmd_args;
                        let rl = self.execute_str_line(cmd_args, line.as_str(), io, depth);
                        match rl {
                            Err(e) => {
                                let mut l = String::new();
                                text::append_str(&mut l, "Error: ");
                                text::append_str(&mut l, e.to_string().as_str());
                                let pq = IoRequest::Print(l);
                                let ghost gpq = pq;
                                let preply = io(pq);
                                proof {
                                    reveal_strlit("Error: ");
                                    assert(io.ensures((gpq,), preply));
                                    assert("Error: "@.is_prefix_of(gpq->Print_0@));
                                    assert(printed_error(io));
                                }
                            },
                            Ok(()) => {},
                        }
                        proof {
                            assert(Self::line_effect(s0, *self, c0, *cmd_args, line@, depth, rl));
                            Self::lemma_interactive_push(io, prompt@, selves, argss, lines, depth, *self, *cmd_args, line@, rl);
                            selves = selves.push(*self);
                            argss = argss.push(*cmd_args);
                            lines = lines.push(line@);
                        }
                    },
                    IoReply::Failed(e) => {
                        let x = error_from::<C>(e);
                        proof {
                            assert(Self::interactive_outcome(io, pname + " > "@, mid, *self, a_mid, *cmd_args, depth));
                            assert(Self::interactive_after(io, pname, mid, *self, a_mid, *cmd_args, depth, r0, Err(x)));
                            assert(Self::matches_outcome(*old(self), mid, parsed->Ok_0, r0));
                            assert(pname == prompt_name@);
                        }
                        return Err(x);
                    },
                    _ => {
                        break;
                    },
                }
                count += 1;
            }
            proof {
                assert(Self::interactive_outcome(io, pname + " > "@, mid, *self, a_mid, *cmd_args, depth));
                assert(Self::interactive_after(io, pname, mid, *self, a_mid, *cmd_args, depth, r0, Ok(())));
            }
        }
        Ok(())
    }

    /// Execute a command line: its words are matched by the command (the batch command, with
    /// the builtins, when `in_batch`) and executed. A command line that does not match is an
    /// error; outside a batch the application is first asked to exit with clap's message. In a
    /// batch, `--ignore_errors` makes an error of the command no error. With `--interactive`,
    /// lines of input are then read and executed until the input ends, an error of each being
    /// printed.
    pub fn execute<IO: Fn(IoRequest) -> IoReply>(&mut self, cmd_args: &mut C, args: Vec<String>, in_batch: bool, io: &IO) -> (r: Result<(), C::Error>)
        requires
            old(self).wf(),
            old(self).handlers().callable(),
            io_ready(io),
        ensures
            final(self).wf(),
            final(self).handlers() == old(self).handlers(),
            final(self).has_builtins() == old(self).has_builtins(),
            exists|c: &mut C|
                #![trigger call_ensures(C::reset_args, (c,), ())]
                *c == *old(cmd_args) && call_ensures(C::reset_args, (c,), ()) && ((Self::parse_of(*old(self), in_batch, clap_glue::texts(args@)) is Ok) ==> exists|s: Seq<C>, outs: Seq<Result<Option<C::Value>, ExecError<C>>>|
                    #![trigger run_shape(Self::line_plan(*old(self), Self::parse_of(*old(self), in_batch, clap_glue::texts(args@))->Ok_0), s, outs)]
                    {
                        &&& run_shape(Self::line_plan(*old(self), Self::parse_of(*old(self), in_batch, clap_glue::texts(args@))->Ok_0), s, outs)
                        &&& s[0] == *final(c)
                        &&& forall|i: int|
                            #![trigger in_run(outs, i)]
                            in_run(outs, i) ==> exists|c: &mut C|
                                #![trigger step_ensures(Self::line_plan(*old(self), Self::parse_of(*old(self), in_batch, clap_glue::texts(args@))->Ok_0)[i], c, outs[i])]
                                *c == s[i] && *final(c) == s[i + 1] && step_ensures(Self::line_plan(*old(self), Self::parse_of(*old(self), in_batch, clap_glue::texts(args@))->Ok_0)[i], c, outs[i])
                        &&& Self::parsed_line_result(io, *old(self), *final(self), Self::parse_of(*old(self), in_batch, clap_glue::texts(args@))->Ok_0, s, outs, *final(cmd_args), in_batch, MAX_BATCH_DEPTH, r)
                    }),
            Self::parsed_outcome(
                *old(self),
                *final(self),
                clap_glue::clap_parse(
                    if in_batch {
                        old(self).batch_spec()
                    } else {
                        old(self).line_command()
                    },
                    bin_name_of(old(self).batch_stack()),
                    clap_glue::texts(args@),
                ),
                in_batch,
                r,
            ),
            (Self::parse_of(*old(self), in_batch, clap_glue::texts(args@)) matches Ok(m) && !in_batch
                && m.get_flag_spec("interactive"@)) ==> exists|mid: Self, a_mid: C, r0: Result<(), C::Error>|
                #![trigger Self::interactive_after(io, prompt_name_of(old(self).batch_stack()), mid, *final(self), a_mid, *final(cmd_args), MAX_BATCH_DEPTH, r0, r)]
                Self::matches_outcome(*old(self), mid, Self::parse_of(*old(self), in_batch, clap_glue::texts(args@))->Ok_0, r0)
                    && Self::interactive_after(
                    io,
                    prompt_name_of(old(self).batch_stack()),
                    mid,
                    *final(self),
                    a_mid,
                    *final(cmd_args),
                    MAX_BATCH_DEPTH,
                    r0,
                    r,
                ),
    {
        self.execute_at(cmd_args, args, in_batch, io, MAX_BATCH_DEPTH)
    }

    /// The final result of a program: the bottom entry of the result stack (taken off it), or
    /// the value of the empty text when the stack is empty, as text
    pub fn final_result(&mut self) -> (r: Result<String, C::Error>)
        ensures
            final(self).wf() == old(self).wf(),
            final(self).variables() == old(self).variables(),
            final(self).handlers() == old(self).handlers(),
            final(self).batch_stack() == old(self).batch_stack(),
            final(self).has_builtins() == old(self).has_builtins(),
            final(self).shows_result() == old(self).shows_result(),
            old(self).history().len() > 0 ==> (r matches Ok(s) && s@ == (*old(self).history()[0]).spec_value_string()
                && values_of(final(self).history()) == values_of(old(self).history()).drop_first()),
            old(self).history().len() == 0 ==> final(self).history() == old(self).history() && match C::spec_value_from_str(Seq::empty()) {
                Ok(v) => r matches Ok(s) && s@ == v.spec_value_string(),
                Err(e) => r == Err::<String, C::Error>(e),
            },
    {
        match self.store.take_bottom() {
            Some(v) => Ok(v.value_string()),
            None => match {
                let empty = "";
                proof {
                    reveal_strlit("");
                    assert(empty@ =~= Seq::<char>::empty());
                }
                C::value_from_str(empty)
            } {
                Ok(v) => Ok(v.value_string()),
                Err(e) => Err(e),
            },
        }
    }

    /// Execute a program's command line (`argv`, its first word the program's name) with its
    /// environment variables: the variables become those of the environment, the rest of the
    /// command line is executed, and the final result is returned (and printed, unless batch
    /// files were executed). An error is printed and the application asked to exit with code 4.
    pub fn execute_env<IO: Fn(IoRequest) -> IoReply>(&mut self, cmd_args: &mut C, argv: Vec<String>, vars: Vec<(String, String)>, io: &IO) -> (r: Result<String, C::Error>)
        requires
            old(self).wf(),
            old(self).handlers().callable(),
            io_ready(io),
            argv@.len() > 0,
        ensures
            final(self).wf(),
            final(self).handlers() == old(self).handlers(),
            forall|i: int|
                #![trigger vars@[i]]
                0 <= i < vars@.len() && values_parse::<C>(vars@, i) ==> (C::spec_value_from_str(
                    vars@[i].1@,
                ) matches Err(e) ==> (r == Err::<String, C::Error>(e) && *final(cmd_args) == *old(
                    cmd_args,
                ) && final(self).batch_stack() == old(self).batch_stack().push(
                    (argv@[0], None::<usize>),
                ) && final(self).history() == old(self).history())),
            values_parse::<C>(vars@, vars@.len() as int) ==> exists|
                mid: Self,
                after: Self,
                r0: Result<(), C::Error>,
            |
                #![trigger Self::parsed_outcome(mid, after, clap_glue::clap_parse(old(self).line_command(), bin_name_of(mid.batch_stack()), clap_glue::texts(argv@.drop_first())), false, r0)]
                {
                    &&& forall|n: Seq<char>|
                        #![trigger lookup_var(mid.variables(), n)]
                        lookup_var(mid.variables(), n) == env_lookup::<C>(vars@, n)
                    &&& mid.batch_stack() == old(self).batch_stack().push((argv@[0], None::<usize>))
                    &&& mid.history() == old(self).history()
                    &&& mid.has_builtins() == old(self).has_builtins()
                    &&& mid.handlers() == old(self).handlers()
                    &&& Self::parsed_outcome(
                        mid,
                        after,
                        clap_glue::clap_parse(
                            old(self).line_command(),
                            bin_name_of(mid.batch_stack()),
                            clap_glue::texts(argv@.drop_first()),
                        ),
                        false,
                        r0,
                    )
                    &&& r0 matches Err(e) ==> r == Err::<String, C::Error>(e)
                    &&& r0 is Err ==> exists|q: IoRequest, reply: IoReply|
                        #![trigger io.ensures((q,), reply)]
                        io.ensures((q,), reply) && (q matches IoRequest::Exit { code, .. } && code
                            == 4)
                    &&& r0 is Ok ==> final_outcome::<C>(after.history(), r)
                    &&& (r0 is Ok && after.shows_result()) ==> (r matches Ok(t) ==> printed(io, t@))
                },
    {
        let ghost argv0 = argv@;
        let mut rest = argv;
        let name = rest.remove(0);
        self.cmd_stack.push((name, None));
        self.store.clear_variables();
        proof {
            assert(vars@.take(0) =~= Seq::<(String, String)>::empty());
        }
        let mut i: usize = 0;
        while i < vars.len()
            invariant
                self.wf(),
                self.handlers().callable(),
                self.handlers() == old(self).handlers(),
                io_ready(io),
                i <= vars@.len(),
                values_parse::<C>(vars@, i as int),
                *cmd_args == *old(cmd_args),
                self.batch_stack() == old(self).batch_stack().push((argv0[0], None::<usize>)),
                self.history() == old(self).history(),
                argv0 == argv@,
                rest@ == argv@.drop_first(),
                self.line_command() == old(self).line_command(),
                self.has_builtins() == old(self).has_builtins(),
                forall|n: Seq<char>|
                    #![trigger lookup_var(self.variables(), n)]
                    lookup_var(self.variables(), n) == env_lookup::<C>(vars@.take(i as int), n),
            decreases vars@.len() - i,
        {
            let ghost pre = self.variables();
            match self.set_variable_value_str(vars[i].0.as_str(), vars[i].1.as_str(), io) {
                Ok(()) => {
                    proof {
                        let t = vars@.take(i as int + 1);
                        assert(t.drop_last() =~= vars@.take(i as int));
                        assert(t.last() == vars@[i as int]);
                        assert forall|n: Seq<char>|
                            #![trigger lookup_var(self.variables(), n)]
                            lookup_var(self.variables(), n) == env_lookup::<C>(t, n) by {
                            if n != vars@[i as int].0@ {
                                assert(lookup_var(pre, n) == env_lookup::<C>(vars@.take(i as int), n));
                            }
                        }
                    }
                },
                Err(e) => {
                    proof {
                        assert forall|j: int|
                            0 <= j < vars@.len() && values_parse::<C>(vars@, j) implies !(
                            C::spec_value_from_str(vars@[j].1@) is Err) || j == i by {
                            if j > i {
                                assert(C::spec_value_from_str(vars@[i as int].1@) is Ok);
                            }
                        }
                    }
                    return Err(e);
                },
            }
            i += 1;
        }
        let ghost mid = *self;
        proof {
            assert(vars@.take(vars@.len() as int) =~= vars@);
        }
        let r0 = self.execute(cmd_args, rest, false, io);
        let ghost after = *self;
        match r0 {
            Err(e) => {
                io(IoRequest::EPrint(e.to_string()));
                let q = IoRequest::Exit { code: 4, message: String::new(), to_stderr: true };
                let ghost gq = q;
                let reply = io(q);
                assert(io.ensures((gq,), reply));
                Err(e)
            },
            Ok(()) => {
                let s = self.final_result()?;
                if self.show_result {
                    let q = IoRequest::Print(s.clone());
                    let ghost gq = q;
                    let reply = io(q);
                    assert(io.ensures((gq,), reply));
                    assert(printed(io, s@));
                }
                Ok(s)
            },
        }
    }
}

} // verus!
