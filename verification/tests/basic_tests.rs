use thunderclap::command::{ArgSpec, CommandSpec, ValueAction};
use thunderclap::{
    CommandArgs, CommandArgsValue, CommandHandlerSet, CommandSet, ExecError, IoReply, IoRequest,
    Matches,
};

trait Num:
    std::str::FromStr + CommandArgsValue + 'static + std::ops::AddAssign + std::ops::SubAssign + Copy
{
}

impl<V> Num for V where
    V: std::str::FromStr
        + CommandArgsValue
        + 'static
        + std::ops::AddAssign
        + std::ops::SubAssign
        + Copy
{
}

#[derive(Debug)]
enum Op {
    Add,
    Sub,
}

impl Default for Op {
    fn default() -> Self {
        Op::Add
    }
}

#[derive(Debug, Default)]
struct CmdArgs<V: Num> {
    op: Op,
    value: V,
    args: Vec<V>,
}

impl<V: Num> CommandArgs for CmdArgs<V> {
    type Error = String;
    type Value = V;

    fn value_from_str(s: &str) -> Result<V, String> {
        s.parse().map_err(|_| format!("invalid value '{s}'"))
    }

    fn reset_args(&mut self) {
        self.args.clear();
        self.op = Op::Add;
    }

    fn value_str(&self, _key: &str) -> Option<V> {
        None
    }
}

impl<V: Num> CmdArgs<V> {
    fn push_arg(&mut self, value: V) -> Result<(), String> {
        self.args.push(value);
        Ok(())
    }

    fn clear(&mut self, f: bool) -> Result<(), String> {
        if f {
            self.value = V::default();
        }
        Ok(())
    }

    fn set_sub(&mut self, f: bool) -> Result<(), String> {
        self.op = if f { Op::Sub } else { Op::Add };
        Ok(())
    }

    fn calc(&mut self) -> Result<V, String> {
        for v in self.args.drain(..) {
            match self.op {
                Op::Add => self.value += v,
                Op::Sub => self.value -= v,
            }
        }
        Ok(self.value)
    }
}

type CmdF<V> = Box<dyn Fn(&mut CmdArgs<V>) -> Result<V, String>>;
type ArgF<V> = Box<dyn Fn(&mut CmdArgs<V>, &Matches) -> Result<(), ExecError<CmdArgs<V>>>>;
type ResetF<V> = Box<dyn Fn(&mut CmdArgs<V>)>;
type Main<V> = CommandSet<CmdArgs<V>, CmdF<V>, ArgF<V>, ResetF<V>>;

/// The calculator with the flags `-c` (clear) and `-s` (subtract), whose functions are always
/// invoked, and the positional values to add
fn test_build<V: Num>(allow_batch: bool) -> Main<V> {
    let command = CommandSpec::new("calc")
        .arg(
            ArgSpec::new("clear")
                .long("clear")
                .short('c')
                .help("If provided will clear the accumulator before using the new values")
                .action(ValueAction::SetTrue),
        )
        .arg(
            ArgSpec::new("sub")
                .long("sub")
                .short('s')
                .help("If provided will subtract, not add")
                .action(ValueAction::SetTrue),
        )
        .arg(
            ArgSpec::new("value")
                .help("Values to add")
                .num_args(0, usize::MAX)
                .action(ValueAction::Append),
        );
    let mut handlers: CommandHandlerSet<CmdArgs<V>, CmdF<V>, ArgF<V>, ResetF<V>> =
        CommandHandlerSet::new(Some(Box::new(|x: &mut CmdArgs<V>| x.calc())));
    handlers.add_arg(
        "clear".to_string(),
        Box::new(|x: &mut CmdArgs<V>, m: &Matches| x.clear(m.get_flag("clear")).map_err(ExecError::SetArg)),
    );
    handlers.add_arg(
        "sub".to_string(),
        Box::new(|x: &mut CmdArgs<V>, m: &Matches| x.set_sub(m.get_flag("sub")).map_err(ExecError::SetArg)),
    );
    handlers.add_arg(
        "value".to_string(),
        Box::new(|x: &mut CmdArgs<V>, m: &Matches| {
            if let Some(vs) = m.get_many("value") {
                for v in vs {
                    let n = CmdArgs::<V>::value_from_str(v).map_err(ExecError::SetArg)?;
                    x.push_arg(n).map_err(ExecError::SetArg)?;
                }
            }
            Ok(())
        }),
    );
    CommandSet::main(command, handlers, allow_batch, false)
}

fn words(w: &[&str]) -> Vec<String> {
    w.iter().map(|s| s.to_string()).collect()
}

fn quiet(_q: IoRequest) -> IoReply {
    IoReply::Done
}

#[test]
fn test_usize() -> Result<(), Box<dyn std::error::Error>> {
    let mut main: Main<usize> = test_build(false);
    let mut args = CmdArgs::default();
    main.execute(&mut args, words(&["3"]), false, &quiet)?;
    assert_eq!(args.value, 3);
    Ok(())
}

#[test]
fn test_u64() -> Result<(), Box<dyn std::error::Error>> {
    let mut main: Main<u64> = test_build(false);
    let mut args = CmdArgs::default();
    main.execute(&mut args, words(&["2"]), false, &quiet)?;
    assert_eq!(args.value, 2);
    Ok(())
}

#[test]
fn test_u32() -> Result<(), Box<dyn std::error::Error>> {
    let mut main: Main<u32> = test_build(false);
    let mut args = CmdArgs::default();
    main.execute(&mut args, words(&["2", "5", "8"]), false, &quiet)?;
    assert_eq!(args.value, 15);
    Ok(())
}

#[test]
fn test_isize() -> Result<(), Box<dyn std::error::Error>> {
    let mut main: Main<isize> = test_build(false);
    let mut args = CmdArgs::default();
    assert!(main.execute(&mut args, words(&["3.0"]), true, &quiet).is_err());
    main.execute(&mut args, words(&["3"]), false, &quiet)?;
    assert_eq!(args.value, 3);
    Ok(())
}

#[test]
fn test_i64() -> Result<(), Box<dyn std::error::Error>> {
    let mut main: Main<i64> = test_build(false);
    let mut args = CmdArgs::default();
    main.execute(&mut args, words(&["2", "--sub"]), false, &quiet)?;
    assert_eq!(args.value, -2);
    Ok(())
}

#[test]
fn test_i32() -> Result<(), Box<dyn std::error::Error>> {
    let mut main: Main<i32> = test_build(false);
    let mut args = CmdArgs::default();
    main.execute(&mut args, words(&["2", "5", "8"]), false, &quiet)?;
    assert_eq!(args.value, 15);
    Ok(())
}

#[test]
fn test_isize_batch() -> Result<(), Box<dyn std::error::Error>> {
    let mut main: Main<isize> = test_build(true);
    let mut args = CmdArgs::default();
    assert!(main.execute(&mut args, words(&["3.0"]), true, &quiet).is_err());
    main.execute(&mut args, words(&["3"]), false, &quiet)?;
    assert_eq!(args.value, 3);
    main.execute_batch(&mut args, "test_isize_batch", "\n", &quiet)?;
    assert_eq!(args.value, 3);
    main.execute_batch(&mut args, "test_isize_batch", "\n1 4 5\n", &quiet)?;
    assert_eq!(args.value, 3 + 1 + 4 + 5);
    main.execute_batch(
        &mut args,
        "test_isize_batch",
        r#"
stack_push ${0} 17
echo "The top value is ${1}"
echo "The second value is ${2}"
stack_show
-c ${1} ${2}
-s 1 2 3
5
set x ${0}
6
-c ${x}
"#,
        &quiet,
    )?;
    assert_eq!(args.value, 17 + 13 - 1 - 2 - 3 + 5);
    Ok(())
}
