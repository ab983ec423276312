//! A command-line framework over clap, with batch and interactive execution of commands.
mod arg_count;
mod clap_glue;
pub mod command;
mod command_set;
pub mod text;
mod handler;
pub mod json;
pub mod interactive;
mod matches;
mod property;
pub mod store;
pub mod tokens;
mod traits;

use core::cmp::Ordering;
use vstd::prelude::*;

pub use arg_count::{ArgActionKind, ArgCount};
pub use traits::{ArgFn, ArgResetFn, CommandArgs, CommandArgsValue, CommandFn};

verus! {

#[verifier::external_type_specification]
#[verifier::external_body]
pub struct ExIoError(std::io::Error);

/// Check that a value lies within optional bounds; out of bounds, the error is the message
/// that `f` makes of the value and of whether the maximum (`true`) or the minimum (`false`)
/// was broken. The minimum is checked first.
///
/// Whatever `V`'s ordering does, an `Ok` holds `v` itself; for a type whose `PartialOrd`
/// follows its specification the result is fixed exactly.
pub fn bound<F, V>(v: V, min: Option<V>, max: Option<V>, f: F) -> (r: Result<V, String>) where
    V: PartialOrd,
    F: FnOnce(V, bool) -> String,

    requires
        f.requires((v, false)),
        f.requires((v, true)),
    ensures
        r matches Ok(x) ==> x == v,
        r matches Err(e) ==> f.ensures((v, false), e) || f.ensures((v, true), e),
        traits::obeys_order::<V>() ==> {
            let below = min matches Some(m) && vstd::std_specs::cmp::PartialOrdSpec::partial_cmp_spec(&v, &m) == Some(Ordering::Less);
            let above = max matches Some(m) && vstd::std_specs::cmp::PartialOrdSpec::partial_cmp_spec(&v, &m) == Some(
                Ordering::Greater,
            );
            &&& below ==> (r matches Err(e) && f.ensures((v, false), e))
            &&& !below && above ==> (r matches Err(e) && f.ensures((v, true), e))
            &&& !below && !above ==> r == Ok::<V, String>(v)
        },
{
    if let Some(min) = min {
        if v < min {
            return Err(f(v, false));
        }
    }
    if let Some(max) = max {
        if v > max {
            return Err(f(v, true));
        }
    }
    Ok(v)
}

/// The errors of executing commands
pub enum ExecError<C> where C: CommandArgs {
    /// failed to evaluate string
    Eval(C::Error),
    /// failed to set argument to command
    SetArg(C::Error),
    /// failed to output
    Io(std::io::Error),
    /// failed to execute command
    Exec(C::Error),
    /// failed to execute builtin command
    Builtin(String),
    /// some message
    Msg(String),
}

impl<C> From<String> for ExecError<C> where C: CommandArgs {
    fn from(s: String) -> (r: Self) {
        ExecError::Msg(s)
    }
}

impl<C> vstd::std_specs::convert::FromSpecImpl<String> for ExecError<C> where C: CommandArgs {
    open spec fn obeys_from_spec() -> bool {
        true
    }

    open spec fn from_spec(s: String) -> Self {
        ExecError::Msg(s)
    }
}

impl<C> ExecError<C> where C: CommandArgs {
    pub fn eval(e: C::Error) -> (r: Self)
        ensures
            r == ExecError::<C>::Eval(e),
    {
        Self::Eval(e)
    }

    pub fn exec(e: C::Error) -> (r: Self)
        ensures
            r == ExecError::<C>::Exec(e),
    {
        Self::Exec(e)
    }

    pub fn set_arg(e: C::Error) -> (r: Self)
        ensures
            r == ExecError::<C>::SetArg(e),
    {
        Self::SetArg(e)
    }

    /// The description of the kind of the error, with which its text starts
    pub open spec fn kind_text(&self) -> Seq<char> {
        match self {
            ExecError::Eval(_) => "failed to evaluate string: "@,
            ExecError::SetArg(_) => "failed to set argument to command: "@,
            ExecError::Io(_) => "failed to output: "@,
            ExecError::Exec(_) => "failed to execute command: "@,
            ExecError::Builtin(_) => "failed to execute builtin command: "@,
            ExecError::Msg(_) => "some message: "@,
        }
    }

    /// The text of the error, as it is reported: a description of its kind and the text of
    /// the underlying error (for a builtin's error or a message, the message itself)
    pub fn message(&self) -> (s: String)
        ensures
            s@.len() >= self.kind_text().len(),
            s@.take(self.kind_text().len() as int) == self.kind_text(),
            self matches ExecError::Builtin(m) ==> s@ == self.kind_text() + m@,
            self matches ExecError::Msg(m) ==> s@ == self.kind_text() + m@,
    {
        let mut s = String::new();
        match self {
            ExecError::Eval(e) => {
                text::append_str(&mut s, "failed to evaluate string: ");
                text::append_str(&mut s, e.to_string().as_str());
            },
            ExecError::SetArg(e) => {
                text::append_str(&mut s, "failed to set argument to command: ");
                text::append_str(&mut s, e.to_string().as_str());
            },
            ExecError::Io(e) => {
                text::append_str(&mut s, "failed to output: ");
                text::append_str(&mut s, e.to_string().as_str());
            },
            ExecError::Exec(e) => {
                text::append_str(&mut s, "failed to execute command: ");
                text::append_str(&mut s, e.to_string().as_str());
            },
            ExecError::Builtin(m) => {
                text::append_str(&mut s, "failed to execute builtin command: ");
                text::append_str(&mut s, m.as_str());
            },
            ExecError::Msg(m) => {
                text::append_str(&mut s, "some message: ");
                text::append_str(&mut s, m.as_str());
            },
        }
        s
    }

    /// The argument set's successful result, with an error taken as a command error
    pub fn cmd_ok() -> (r: Result<C::Value, Self>)
        ensures
            r is Err ==> r->Err_0 is Exec,
            exists|res: Result<C::Value, C::Error>|
                #![trigger call_ensures(C::cmd_ok, (), res)]
                call_ensures(C::cmd_ok, (), res) && r == match res {
                    Ok(v) => Ok::<C::Value, Self>(v),
                    Err(e) => Err::<C::Value, Self>(ExecError::Exec(e)),
                },
    {
        match C::cmd_ok() {
            Ok(v) => Ok(v),
            Err(e) => Err(Self::Exec(e)),
        }
    }
}

} // verus!
pub use matches::{MatchArg, Matches};
pub use handler::CommandHandlerSet;
pub use property::CmdProperty;
pub use command_set::{CommandSet, IoReply, IoRequest, MAX_BATCH_DEPTH};
pub use clap_glue::ClapFailure;
pub use clap;
pub use clap::{Arg, Command};
