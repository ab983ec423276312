use std::marker::PhantomData;

use thunderclap::interactive::{CmdRequest, CmdResponse, ShellAction, ShellEvent, ShellPhase, ShellState};
use thunderclap::{
    bound, ArgActionKind, ArgCount, CmdProperty, CommandArgs, CommandArgsValue, CommandHandlerSet,
    ExecError, MatchArg, Matches,
};

#[derive(Debug, Default)]
struct Args {
    n: u32,
}

impl CommandArgs for Args {
    type Error = String;
    type Value = u32;

    fn value_from_str(s: &str) -> Result<u32, String> {
        s.parse::<u32>().map_err(|e| e.to_string())
    }

    fn value_str(&self, _key: &str) -> Option<u32> {
        None
    }
}

#[test]
fn arg_count_conversions() {
    assert_eq!(ArgCount::from((0usize,)), ArgCount::Any);
    assert_eq!(ArgCount::from((3usize,)), ArgCount::Min(3));
    assert_eq!(ArgCount::from(true), ArgCount::Required);
    assert_eq!(ArgCount::from(false), ArgCount::Optional);
    assert_eq!(ArgCount::from((None, true)), ArgCount::PositionalAny);
    assert_eq!(ArgCount::from((Some(0), true)), ArgCount::PositionalOptional);
    assert_eq!(ArgCount::from((Some(2), true)), ArgCount::PositionalRequired(2));
    assert_eq!(ArgCount::from((Some(0), false)), ArgCount::Max(0));
    assert!(!ArgCount::from((Some(0), false)).required());
    assert_eq!(ArgCount::from((Some(4), false)), ArgCount::Exactly(4));
    assert_eq!(ArgCount::from((None, false)), ArgCount::Any);
    assert_eq!(ArgCount::from_count(5), ArgCount::Exactly(5));
    assert_eq!(ArgCount::from_max(Some(2)), ArgCount::Max(2));
    assert_eq!(ArgCount::from_max(None), ArgCount::Any);
    assert_eq!(ArgCount::default(), ArgCount::Optional);
}

#[test]
fn arg_count_properties() {
    assert!(ArgCount::Optional.uses_tag());
    assert!(!ArgCount::PositionalAny.uses_tag());
    assert!(!ArgCount::PositionalRequired(1).uses_tag());
    assert!(ArgCount::Required.required());
    assert!(ArgCount::Min(0).required());
    assert!(!ArgCount::Max(3).required());
    assert!(!ArgCount::PositionalOptional.required());
    assert_eq!(ArgCount::Required.action_kind(), ArgActionKind::SetOne);
    assert_eq!(ArgCount::PositionalRequired(1).action_kind(), ArgActionKind::SetOne);
    assert_eq!(ArgCount::PositionalRequired(2).action_kind(), ArgActionKind::AppendAll);
    assert_eq!(ArgCount::Any.action_kind(), ArgActionKind::AppendAll);
    assert!(matches!(ArgCount::Optional.action(), clap::ArgAction::Set));
    assert!(matches!(ArgCount::Min(2).action(), clap::ArgAction::Append));
    assert_eq!(ArgCount::Exactly(3).num_args_bounds(), Some((3, 3)));
    assert_eq!(ArgCount::Min(2).num_args_bounds(), Some((2, usize::MAX)));
    assert_eq!(ArgCount::Max(4).num_args_bounds(), Some((0, 4)));
    assert_eq!(ArgCount::PositionalRequired(1).num_args_bounds(), None);
    assert_eq!(ArgCount::PositionalRequired(3).num_args_bounds(), Some((3, 3)));
    assert_eq!(ArgCount::Any.num_args_bounds(), None);
    let r = ArgCount::Max(4).num_args().unwrap();
    assert_eq!((r.min_values(), r.max_values()), (0, 4));
    let r = ArgCount::Min(2).num_args().unwrap();
    assert_eq!((r.min_values(), r.max_values()), (2, usize::MAX));
    assert!(ArgCount::Optional.num_args().is_none());
}

#[test]
fn bound_checks_min_then_max() {
    let msg = |v: i32, above: bool| format!("{v} {}", if above { "too big" } else { "too small" });
    assert_eq!(bound(5, Some(1), Some(9), msg), Ok(5));
    assert_eq!(bound(0, Some(1), Some(9), msg), Err("0 too small".to_string()));
    assert_eq!(bound(10, Some(1), Some(9), msg), Err("10 too big".to_string()));
    assert_eq!(bound(10, None, None, msg), Ok(10));
    assert_eq!(bound(1, Some(1), Some(1), msg), Ok(1));
    // an empty range reports the minimum first
    assert_eq!(bound(5, Some(6), Some(4), msg), Err("5 too small".to_string()));
}

#[test]
fn exec_error_messages() {
    assert_eq!(ExecError::<Args>::eval("x".to_string()).message(), "failed to evaluate string: x");
    assert_eq!(ExecError::<Args>::set_arg("y".to_string()).message(), "failed to set argument to command: y");
    assert_eq!(ExecError::<Args>::exec("z".to_string()).message(), "failed to execute command: z");
    assert_eq!(ExecError::<Args>::Builtin("b".to_string()).message(), "failed to execute builtin command: b");
    assert_eq!(ExecError::<Args>::from("m".to_string()).message(), "some message: m");
    let io = std::io::Error::new(std::io::ErrorKind::Other, "disk");
    assert_eq!(ExecError::<Args>::Io(io).message(), "failed to output: disk");
    assert!(matches!(ExecError::<Args>::cmd_ok(), Ok(0)));
}

#[test]
fn values_as_text() {
    assert_eq!(17u32.value_string(), "17");
    assert_eq!((-17i64).value_string(), "-17");
    assert_eq!(i8::MIN.value_string(), "-128");
    assert_eq!(usize::MAX.value_string(), usize::MAX.to_string());
    assert_eq!(true.value_string(), "true");
    assert_eq!("text".to_string().value_string(), "text");
    assert_eq!(().value_string(), "");
    assert!(().is_none());
    assert!(!0u8.is_none());
    assert_eq!(3u16.index(0), None);
    assert_eq!(3u16.get("k"), None);
    assert_eq!(Args::value_from_str("12"), Ok(12));
    assert!(Args::cmd_ok().is_ok());
}

fn matches_of(args: &[(&str, &[&str])], sub: Option<(&str, Matches)>) -> Matches {
    let mut m = Matches::new();
    for (id, vals) in args {
        m.args.push(MatchArg {
            id: id.to_string(),
            values: vals.iter().map(|v| v.to_string()).collect(),
        });
    }
    m.subcommand = sub.map(|(n, s)| (n.to_string(), Box::new(s)));
    m
}

#[test]
fn matches_lookups() {
    let inner = matches_of(&[("k", &["v"])], None);
    let m = matches_of(&[("flag", &["true"]), ("many", &["a", "b"]), ("off", &["false"])], Some(("sub", inner)));
    assert!(m.contains_id("flag"));
    assert!(!m.contains_id("nope"));
    assert!(m.get_flag("flag"));
    assert!(!m.get_flag("off"));
    assert!(!m.get_flag("nope"));
    assert_eq!(m.get_many("many").unwrap(), &vec!["a".to_string(), "b".to_string()]);
    assert_eq!(m.get_one("many").unwrap(), "a");
    assert_eq!(m.get_one("nope"), None);
    assert_eq!(m.subcommand_name(), Some("sub"));
    let (name, sm) = m.subcommand().unwrap();
    assert_eq!(name, "sub");
    assert_eq!(sm.get_one("k").unwrap(), "v");
}

type F = Box<dyn Fn(&mut Args) -> Result<u32, String>>;
type A = Box<dyn Fn(&mut Args, &Matches) -> Result<(), ExecError<Args>>>;
type R = Box<dyn Fn(&mut Args)>;

#[test]
fn handler_set_routes_to_subcommands() {
    let mut top: CommandHandlerSet<Args, F, A, R> = CommandHandlerSet::new(Some(Box::new(|a: &mut Args| Ok(a.n))));
    top.add_arg("n".to_string(), Box::new(|a: &mut Args, m: &Matches| {
        a.n = m.get_one("n").unwrap().parse().map_err(|_| ExecError::from("bad n".to_string()))?;
        Ok(())
    }));
    top.set_arg_reset(Box::new(|a: &mut Args| a.n = 100));
    let mut double: CommandHandlerSet<Args, F, A, R> = CommandHandlerSet::new(Some(Box::new(|a: &mut Args| Ok(a.n * 2))));
    double.add_arg("n".to_string(), Box::new(|a: &mut Args, m: &Matches| {
        a.n = m.get_one("n").unwrap().parse().map_err(|_| ExecError::from("bad n".to_string()))?;
        Ok(())
    }));
    top.add_subcommand("double".to_string(), double);
    let plain: CommandHandlerSet<Args, F, A, R> = CommandHandlerSet::new(None);
    top.add_subcommand("plain".to_string(), plain);
    assert!(top.find_subcommand("double").is_some());
    assert!(top.find_subcommand("triple").is_none());

    let mut a = Args::default();
    let m = matches_of(&[("n", &["4"])], None);
    assert!(top.handle_args(&mut a, &m).is_ok());
    assert!(matches!(top.handle_cmd(&mut a, &m), Ok(4)));

    let m = matches_of(&[], Some(("double", matches_of(&[("n", &["21"])], None))));
    assert!(top.routes_matches(&m));
    assert!(top.handle_args(&mut a, &m).is_ok());
    assert_eq!(a.n, 100);
    assert!(matches!(top.handle_cmd(&mut a, &m), Ok(42)));

    let m = matches_of(&[], Some(("plain", Matches::new())));
    assert!(matches!(top.handle_cmd(&mut a, &m), Ok(0)));

    let m = matches_of(&[], Some(("triple", Matches::new())));
    assert!(!top.routes_matches(&m));

    let m = matches_of(&[("n", &["x"])], None);
    match top.handle_args(&mut a, &m) {
        Err(e) => assert_eq!(e.message(), "some message: bad n"),
        Ok(()) => panic!("expected an error"),
    }
}

#[test]
fn handler_set_replaces_a_subcommand_of_the_same_name() {
    let mut top: CommandHandlerSet<Args, F, A, R> = CommandHandlerSet::new(None);
    top.add_subcommand("s".to_string(), CommandHandlerSet::new(Some(Box::new(|_a: &mut Args| Ok(1)))));
    top.add_subcommand("s".to_string(), CommandHandlerSet::new(Some(Box::new(|_a: &mut Args| Ok(2)))));
    let mut a = Args::default();
    let m = matches_of(&[], Some(("s", Matches::new())));
    assert!(matches!(top.handle_cmd(&mut a, &m), Ok(2)));
    let present = top.present_arg_positions(&m);
    assert!(present.is_empty());
}

#[test]
fn properties_are_found_by_name() {
    let get = |a: &Args| Some(a.n);
    let set = |a: &mut Args, v: &u32| -> Result<bool, String> {
        a.n = *v;
        Ok(true)
    };
    type P<'a> = CmdProperty<'a, Args, u32, String, dyn Fn(&Args) -> Option<u32>, dyn Fn(&mut Args, &u32) -> Result<bool, String>>;
    let props: Vec<P> = vec![
        CmdProperty { name: "a", get_fn: &get, set_value_fn: &set, marker: PhantomData },
        CmdProperty { name: "b", get_fn: &get, set_value_fn: &set, marker: PhantomData },
        CmdProperty { name: "a", get_fn: &get, set_value_fn: &set, marker: PhantomData },
    ];
    let found = P::find_property(&props, "a").unwrap();
    assert!(std::ptr::eq(found, &props[0]));
    let found = P::find_property(&props, "b").unwrap();
    assert!(std::ptr::eq(found, &props[1]));
    assert!(P::find_property(&props, "c").is_none());
    let mut args = Args::default();
    assert_eq!((found.set_value_fn)(&mut args, &7), Ok(true));
    assert_eq!((found.get_fn)(&args), Some(7));
}

#[test]
fn request_and_response_accessors() {
    assert!(CmdRequest::Finish.is_finish());
    assert!(CmdRequest::Prompt.is_prompt());
    let r = CmdRequest::Exec("ls".to_string());
    assert_eq!(r.exec().unwrap(), "ls");
    assert!(r.exec_vec().is_none());
    let r = CmdRequest::ExecVec(vec!["a".to_string()]);
    assert_eq!(r.exec_vec().unwrap(), &["a".to_string()]);
    let r = CmdRequest::ExecVecSubst(vec!["b".to_string()]);
    assert_eq!(r.exec_vec_subst().unwrap(), &["b".to_string()]);
    assert!(CmdResponse::Finish.is_finish());
    assert!(CmdResponse::Prompt("> ".to_string()).is_prompt());
    assert!(CmdResponse::ExecOk("x".to_string()).is_ok());
    assert!(CmdResponse::ExecError("e".to_string()).is_error());
    assert_eq!(CmdResponse::Prompt("p".to_string()).take(), Some("p".to_string()));
    assert_eq!(CmdResponse::Finish.take(), None);
    assert_eq!(CmdResponse::ExecOk("o".to_string()).exec_result().unwrap(), "o");
    assert_eq!(CmdResponse::ExecError("e".to_string()).exec_result().unwrap(), "e");
    assert!(CmdResponse::Finish.exec_result().is_none());
    assert_eq!(CmdResponse::Prompt("p".to_string()).prompt().unwrap(), "p");
    assert!(CmdResponse::ExecOk("o".to_string()).prompt().is_none());
}

fn step(st: ShellState, ev: ShellEvent) -> (ShellState, ShellAction) {
    st.step(ev)
}

#[test]
fn shell_runs_lines_until_the_input_ends() {
    let st = ShellState::new();
    let (st, a) = step(st, ShellEvent::Start);
    assert!(matches!(a, ShellAction::Request(CmdRequest::Prompt)));
    let (st, a) = step(st, ShellEvent::Responded(CmdResponse::Prompt("> ".to_string())));
    assert!(matches!(a, ShellAction::ShowPrompt(ref p) if p == "> "));
    let (st, a) = step(st, ShellEvent::Line("one\n".to_string()));
    assert!(matches!(a, ShellAction::Request(CmdRequest::Exec(ref l)) if l == "one\n"));
    let (st, a) = step(st, ShellEvent::Responded(CmdResponse::ExecError("bad".to_string())));
    assert!(matches!(a, ShellAction::PrintLine(ref l) if l == "Error: bad"));
    let (st, a) = step(st, ShellEvent::Printed);
    assert!(matches!(a, ShellAction::Request(CmdRequest::Prompt)));
    let (st, _) = step(st, ShellEvent::Responded(CmdResponse::Prompt("> ".to_string())));
    let (st, a) = step(st, ShellEvent::Line(String::new()));
    assert!(matches!(a, ShellAction::Request(CmdRequest::Finish)));
    assert_eq!(st.phase, ShellPhase::WaitFinish);
    let (st, a) = step(st, ShellEvent::Responded(CmdResponse::ExecOk(String::new())));
    assert!(matches!(a, ShellAction::Done));
    assert_eq!(st.phase, ShellPhase::Done);
    let (st2, a) = step(st, ShellEvent::Printed);
    assert!(matches!(a, ShellAction::Done));
    assert_eq!(st2, st);
}

#[test]
fn shell_is_not_told_finish_after_the_application_finishes() {
    let (st, _) = step(ShellState::new(), ShellEvent::Start);
    let (st, a) = step(st, ShellEvent::Responded(CmdResponse::Finish));
    assert!(matches!(a, ShellAction::Done));
    assert!(st.has_finished);
    assert_eq!(st.phase, ShellPhase::Done);
}

#[test]
fn shell_flush_failure_ends_the_loop() {
    let (st, _) = step(ShellState::new(), ShellEvent::Start);
    let (st, _) = step(st, ShellEvent::Responded(CmdResponse::Prompt("$ ".to_string())));
    let (st, a) = step(st, ShellEvent::FlushFailed("broken pipe".to_string()));
    assert!(matches!(a, ShellAction::PrintLine(ref l) if l == "Error: broken pipe"));
    let (st, a) = step(st, ShellEvent::Printed);
    assert!(matches!(a, ShellAction::Request(CmdRequest::Finish)));
    let (_, a) = step(st, ShellEvent::ReadFailed);
    assert!(matches!(a, ShellAction::Done));
}

#[test]
fn shell_executes_nothing_after_the_end_of_input() {
    let (st, _) = step(ShellState::new(), ShellEvent::Start);
    let (st, _) = step(st, ShellEvent::Responded(CmdResponse::Prompt("> ".to_string())));
    let (st, a) = step(st, ShellEvent::Line(String::new()));
    assert!(matches!(a, ShellAction::Request(CmdRequest::Finish)));
    let (st, a) = step(st, ShellEvent::Line("late\n".to_string()));
    assert!(matches!(a, ShellAction::Done));
    let (_, a) = step(st, ShellEvent::Line("later\n".to_string()));
    assert!(!matches!(a, ShellAction::Request(CmdRequest::Exec(_))));
}

#[test]
fn shell_makes_no_request_after_finish() {
    let (st, _) = step(ShellState::new(), ShellEvent::Start);
    let (st, _) = step(st, ShellEvent::Responded(CmdResponse::Prompt("> ".to_string())));
    let (st, a) = step(st, ShellEvent::ReadFailed);
    assert!(matches!(a, ShellAction::Request(CmdRequest::Finish)));
    let (st, a) = step(st, ShellEvent::Responded(CmdResponse::Prompt("> ".to_string())));
    assert!(matches!(a, ShellAction::Done));
    let (_, a) = step(st, ShellEvent::Line("x\n".to_string()));
    assert!(!matches!(a, ShellAction::Request(_)));
}

#[test]
fn argument_functions_run_once_each_in_the_order_added() {
    let mut hs: CommandHandlerSet<Args, F, A, R> = CommandHandlerSet::new(Some(Box::new(|a: &mut Args| Ok(a.n))));
    hs.set_arg_reset(Box::new(|a: &mut Args| a.n = 1));
    hs.add_arg("x".to_string(), Box::new(|a: &mut Args, _m: &Matches| {
        a.n = a.n * 10 + 2;
        Ok(())
    }));
    hs.add_arg("y".to_string(), Box::new(|a: &mut Args, _m: &Matches| {
        a.n = a.n * 10 + 3;
        Ok(())
    }));
    hs.add_arg("z".to_string(), Box::new(|a: &mut Args, _m: &Matches| {
        a.n = a.n * 10 + 4;
        Err(ExecError::from("stop".to_string()))
    }));
    let mut a = Args { n: 7 };
    // the matches list y before x; the functions still run in the order they were added
    let m = matches_of(&[("y", &["1"]), ("x", &["1"])], None);
    assert!(hs.handle_args(&mut a, &m).is_ok());
    assert_eq!(a.n, 123);
    // a later command sees the arguments as the earlier one left them
    assert!(matches!(hs.handle_cmd(&mut a, &m), Ok(123)));
    let m = matches_of(&[("z", &["1"]), ("x", &["1"])], None);
    match hs.handle_args(&mut a, &m) {
        Err(e) => assert_eq!(e.message(), "some message: stop"),
        Ok(()) => panic!("expected an error"),
    }
    assert_eq!(a.n, 124);
}
