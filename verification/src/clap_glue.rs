//! The calls into clap that the library makes, each behind a small trusted wrapper.
use vstd::prelude::*;

verus! {

#[verifier::external_type_specification]
#[verifier::external_body]
pub struct ExArgAction(clap::ArgAction);

#[verifier::external_type_specification]
#[verifier::external_body]
pub struct ExValueRange(clap::builder::ValueRange);

/// `clap::ArgAction::Set`: store one value per argument (nothing is claimed of the opaque value)
#[verifier::external_body]
pub(crate) fn action_set() -> clap::ArgAction {
    clap::ArgAction::Set
}

/// `clap::ArgAction::Append`: store every occurrence (nothing is claimed of the opaque value)
#[verifier::external_body]
pub(crate) fn action_append() -> clap::ArgAction {
    clap::ArgAction::Append
}

/// `clap::builder::ValueRange::new(min..=max)`; clap debug-asserts `min <= max`.
/// The range is opaque here: nothing is claimed of it.
#[verifier::external_body]
pub(crate) fn value_range(min: usize, max: usize) -> clap::builder::ValueRange
    requires
        min <= max,
{
    clap::builder::ValueRange::new(min..=max)
}

} // verus!

verus! {

#[verifier::external_type_specification]
#[verifier::external_body]
pub struct ExCommand(clap::Command);

#[verifier::external_type_specification]
#[verifier::external_body]
pub struct ExArg(clap::Arg);

#[verifier::external_type_specification]
#[verifier::external_body]
pub struct ExArgMatches(clap::ArgMatches);

/// Why clap refused a command line, as plain values: its rendered message, the exit code that
/// `clap::Error::exit` would use, and whether that message goes to standard error
pub struct ClapFailure {
    pub message: String,
    pub exit_code: i32,
    pub use_stderr: bool,
}

/// clap's action of a model's action, variant for variant
#[verifier::external_body]
fn clap_action(a: crate::command::ValueAction) -> clap::ArgAction {
    match a {
        crate::command::ValueAction::SetOne => clap::ArgAction::Set,
        crate::command::ValueAction::Append => clap::ArgAction::Append,
        crate::command::ValueAction::SetTrue => clap::ArgAction::SetTrue,
    }
}

/// clap's argument for an argument of the model, field for field (`clap::Arg::new`, `long`,
/// `short`, `help`, `required`, `action`, `num_args`, `default_value`; a field left out resets
/// clap's own)
#[verifier::external_body]
fn clap_arg(a: &crate::command::ArgSpec) -> clap::Arg {
    let range = a.num_args.map(|(lo, hi)| clap::builder::ValueRange::new(lo..=hi));
    clap::Arg::new(a.id)
        .long(a.long)
        .short(a.short)
        .help(a.help)
        .required(a.required)
        .action(a.action.map(clap_action))
        .num_args(clap::builder::Resettable::from(range))
        .default_value(a.default_value)
}

/// clap's command for a command of the model, field for field (`clap::Command::new`, `about`,
/// `no_binary_name`, `subcommand_required`, `args`, `subcommands`)
#[verifier::external_body]
fn clap_command(c: &crate::command::CommandSpec) -> clap::Command {
    clap::Command::new(c.name)
        .about(c.about)
        .no_binary_name(c.no_binary_name)
        .subcommand_required(c.subcommand_required)
        .args(c.args.iter().map(clap_arg))
        .subcommands(c.subcommands.iter().map(clap_command))
}

/// What clap's `try_get_matches_from_mut` gives for a command of the model, named with the bin
/// name, on the words: the matches as plain values, or the refusal's message, exit code and
/// stream. It is a function of the command, the bin name and the words alone (with clap's
/// default features no terminal width or colour enters the message).
pub uninterp spec fn clap_parse(
    cmd: crate::command::CommandModel,
    bin_name: Option<Seq<char>>,
    args: Seq<Seq<char>>,
) -> Result<crate::Matches, ClapFailure>;

/// The texts of strings
pub open spec fn texts(v: Seq<String>) -> Seq<Seq<char>> {
    Seq::new(v.len(), |i: int| v[i]@)
}

/// The text of an optional string
pub open spec fn opt_string(s: Option<String>) -> Option<Seq<char>> {
    match s {
        Some(t) => Some(t@),
        None => None,
    }
}

/// `clap::Command::try_get_matches_from_mut` on clap's command for the model, with the bin name
/// (`clap::Command::bin_name`), on the words: the parse named by `clap_parse`. The model must
/// be one that clap accepts (`command_wf`): clap's debug checks panic on duplicate ids or tags,
/// on tags of its own and on misplaced positional arguments.
#[verifier::external_body]
pub(crate) fn get_matches(
    cmd: &crate::command::CommandSpec,
    bin_name: Option<String>,
    args: Vec<String>,
) -> (r: Result<crate::Matches, ClapFailure>)
    requires
        crate::command::command_wf(cmd@),
    ensures
        r == clap_parse(cmd@, opt_string(bin_name), texts(args@)),
{
    let mut c = clap_command(cmd).bin_name(clap::builder::Resettable::from(bin_name));
    match c.try_get_matches_from_mut(args) {
        Ok(m) => Ok(matches_of(&m)),
        Err(e) => Err(ClapFailure { message: e.to_string(), exit_code: e.exit_code(), use_stderr: e.use_stderr() }),
    }
}

/// The plain values of clap's matches: `ArgMatches::ids`, `ArgMatches::get_raw` of each (as
/// lossy UTF-8 text) and `ArgMatches::subcommand`, recursively
#[verifier::external_body]
fn matches_of(m: &clap::ArgMatches) -> crate::Matches {
    crate::Matches {
        args: m.ids().map(|id| crate::MatchArg {
            id: id.as_str().to_string(),
            values: m.get_raw(id.as_str()).map(|vs| vs.map(|v| v.to_string_lossy().into_owned()).collect()).unwrap_or_default(),
        }).collect(),
        subcommand: m.subcommand().map(|(name, sub)| (name.to_string(), Box::new(matches_of(sub)))),
    }
}

} // verus!
