use thunderclap::command::{ArgSpec, CommandSpec, ValueAction};
use thunderclap::json::{json_value_of_text, Json, JsonValueConvert};
use thunderclap::{CommandArgs, CommandArgsValue, CommandHandlerSet, CommandSet, ExecError, IoReply, IoRequest, Matches};

fn parse(s: &str) -> Json {
    <Json as JsonValueConvert>::value_from_str(s).unwrap()
}

fn num(t: &str) -> Json {
    Json::Number(t.to_string())
}

#[test]
fn json_text_is_parsed() {
    assert_eq!(parse("[1, 2.5, \"x\"]"), Json::Array(vec![num("1"), num("2.5"), Json::Str("x".to_string())]));
    assert_eq!(parse("null"), Json::Null);
    assert_eq!(parse(" true "), Json::Bool(true));
    assert_eq!(
        parse("{\"b\": 1, \"a\": [null]}"),
        Json::Object(vec![
            ("a".to_string(), Json::Array(vec![Json::Null])),
            ("b".to_string(), num("1")),
        ])
    );
}

#[test]
fn other_text_becomes_a_string() {
    assert_eq!(parse("hello world"), Json::Str("hello world".to_string()));
    assert_eq!(parse("[1,"), Json::Str("[1,".to_string()));
    assert_eq!(parse(""), Json::Str(String::new()));
    assert_eq!(json_value_of_text(None, "x").unwrap(), Json::Str("x".to_string()));
    assert_eq!(json_value_of_text(Some(Json::Null), "x").unwrap(), Json::Null);
}

#[test]
fn json_values_as_text() {
    assert_eq!(parse("[1, 2.5, \"x\"]").value_string(), "[1,2.5,\"x\"]");
    assert_eq!(parse("{\"b\": {}, \"a\": \"q\\\"\"}").value_string(), "{\"a\":\"q\\\"\",\"b\":{}}");
    assert_eq!(parse("plain").value_string(), "\"plain\"");
    assert_eq!(Json::Null.value_string(), "null");
    assert_eq!(Json::Number("not a number".to_string()).value_string(), "null");
    assert_eq!(Json::default(), Json::Null);
}

#[test]
fn json_structure_queries() {
    let a = parse("[10, [20], 30]");
    assert_eq!(a.len(), Some(3));
    assert!(!a.is_empty());
    assert!(a.is_array());
    assert!(!a.is_map());
    assert_eq!(a.index(1), Some(Json::Array(vec![num("20")])));
    assert_eq!(a.index(3), None);
    assert_eq!(a.get("0"), None);
    assert_eq!(a.key(0), None);
    let o = parse("{\"z\": 1, \"y\": 2}");
    assert_eq!(o.len(), Some(2));
    assert!(o.is_map());
    assert_eq!(o.key(0), Some("y"));
    assert_eq!(o.key(1), Some("z"));
    assert_eq!(o.key(2), None);
    assert_eq!(o.index(0), None);
    assert!(parse("[]").is_empty());
    assert!(parse("{}").is_empty());
    assert!(parse("3").is_empty());
    assert_eq!(parse("3").len(), None);
    assert!(Json::Null.is_none());
    assert!(!parse("0").is_none());
    let d = o.duplicate();
    assert_eq!(d, o);
}

#[derive(Default)]
struct JsArgs {
    last: Json,
}

impl CommandArgs for JsArgs {
    type Error = String;
    type Value = Json;

    fn value_from_str(s: &str) -> Result<Json, String> {
        <Json as JsonValueConvert>::value_from_str(s).map_err(|e| e.to_string())
    }

    fn value_str(&self, _key: &str) -> Option<Json> {
        None
    }
}

type F = Box<dyn Fn(&mut JsArgs) -> Result<Json, String>>;
type A = Box<dyn Fn(&mut JsArgs, &Matches) -> Result<(), ExecError<JsArgs>>>;
type R = Box<dyn Fn(&mut JsArgs)>;

#[test]
fn json_values_in_batches() {
    let mut hs: CommandHandlerSet<JsArgs, F, A, R> =
        CommandHandlerSet::new(Some(Box::new(|a: &mut JsArgs| Ok(a.last.duplicate()))));
    hs.add_arg(
        "value".to_string(),
        Box::new(|a: &mut JsArgs, m: &Matches| {
            if let Some(v) = m.get_one("value") {
                a.last = JsArgs::value_from_str(v).map_err(ExecError::SetArg)?;
            }
            Ok(())
        }),
    );
    let command = CommandSpec::new("js").arg(ArgSpec::new("value").action(ValueAction::SetOne));
    let mut main: CommandSet<JsArgs, F, A, R> = CommandSet::main(command, hs, true, false);
    let mut args = JsArgs::default();
    let io = |_q: IoRequest| IoReply::Done;
    assert!(main.execute_batch(&mut args, "j", "set v [5,6,7]\n'[1,2]'\n", &io).is_ok());
    assert_eq!(main.substitute(&args, "${v}").unwrap(), "[5,6,7]");
    assert_eq!(main.substitute(&args, "${0}").unwrap(), "[1,2]");
    // an index is checked, but the whole value is substituted
    assert_eq!(main.substitute(&args, "${v}[2]!").unwrap(), "[5,6,7]!");
    assert_eq!(
        main.substitute(&args, "${v}[3]").unwrap_err(),
        "Failed to get value at index 3 of value in script"
    );
    assert_eq!(
        main.substitute(&args, "${v}[key]").unwrap_err(),
        "Failed to get key 'key' of value in script"
    );
    assert_eq!(
        main.substitute(&args, "${v}[1").unwrap_err(),
        "Unterminated index (no ']') in variable substitution in script"
    );
}

#[test]
fn object_keys_are_ordered_and_unique() {
    assert_eq!(
        parse("{\"a\": 1, \"a\": 2, \"Z\": 0, \"ab\": 3}"),
        Json::Object(vec![
            ("Z".to_string(), num("0")),
            ("a".to_string(), num("2")),
            ("ab".to_string(), num("3")),
        ])
    );
}
