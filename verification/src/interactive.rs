//! Requests to and responses from an application that is driven by an interactive shell,
//! and the decisions of that shell.
use vstd::prelude::*;

use crate::text;

verus! {

/// A request that the shell makes of the application
#[derive(Debug)]
pub enum CmdRequest {
    /// give the prompt to show
    Prompt,
    /// execute a line of input
    Exec(String),
    /// execute a list of arguments
    ExecVec(Vec<String>),
    /// execute a list of arguments after substituting variables
    ExecVecSubst(Vec<String>),
    /// the shell is finishing
    Finish,
}

impl CmdRequest {
    pub fn is_finish(&self) -> (r: bool)
        ensures
            r == self is Finish,
    {
        matches!(self, CmdRequest::Finish)
    }

    pub fn is_prompt(&self) -> (r: bool)
        ensures
            r == self is Prompt,
    {
        matches!(self, CmdRequest::Prompt)
    }

    pub fn exec(&self) -> (r: Option<&String>)
        ensures
            match self {
                CmdRequest::Exec(s) => r == Some(s),
                _ => r is None,
            },
    {
        if let CmdRequest::Exec(s) = self {
            Some(s)
        } else {
            None
        }
    }

    pub fn exec_vec(&self) -> (r: Option<&[String]>)
        ensures
            match self {
                CmdRequest::ExecVec(s) => r matches Some(x) && x@ == s@,
                _ => r is None,
            },
    {
        if let CmdRequest::ExecVec(s) = self {
            Some(s.as_slice())
        } else {
            None
        }
    }

    pub fn exec_vec_subst(&self) -> (r: Option<&[String]>)
        ensures
            match self {
                CmdRequest::ExecVecSubst(s) => r matches Some(x) && x@ == s@,
                _ => r is None,
            },
    {
        if let CmdRequest::ExecVecSubst(s) = self {
            Some(s.as_slice())
        } else {
            None
        }
    }
}

/// The application's response to a request of the shell
#[derive(Debug)]
pub enum CmdResponse {
    /// the prompt to show
    Prompt(String),
    /// the line was executed, with this output
    ExecOk(String),
    /// the line failed, with this message
    ExecError(String),
    /// the application has finished
    Finish,
}

impl CmdResponse {
    pub fn is_finish(&self) -> (r: bool)
        ensures
            r == self is Finish,
    {
        matches!(self, CmdResponse::Finish)
    }

    pub fn is_prompt(&self) -> (r: bool)
        ensures
            r == self is Prompt,
    {
        matches!(self, CmdResponse::Prompt(_))
    }

    pub fn is_ok(&self) -> (r: bool)
        ensures
            r == self is ExecOk,
    {
        matches!(self, CmdResponse::ExecOk(_))
    }

    pub fn is_error(&self) -> (r: bool)
        ensures
            r == self is ExecError,
    {
        matches!(self, CmdResponse::ExecError(_))
    }

    /// The text that the response carries, if any
    pub fn take(self) -> (r: Option<String>)
        ensures
            match self {
                CmdResponse::Prompt(s) => r == Some(s),
                CmdResponse::ExecOk(s) => r == Some(s),
                CmdResponse::ExecError(s) => r == Some(s),
                CmdResponse::Finish => r is None,
            },
    {
        match self {
            CmdResponse::Prompt(s) => Some(s),
            CmdResponse::ExecOk(s) => Some(s),
            CmdResponse::ExecError(s) => Some(s),
            _ => None,
        }
    }

    /// The output or message of an executed line
    pub fn exec_result(&self) -> (r: Option<&String>)
        ensures
            match self {
                CmdResponse::ExecOk(s) => r == Some(s),
                CmdResponse::ExecError(s) => r == Some(s),
                _ => r is None,
            },
    {
        match self {
            CmdResponse::ExecOk(s) => Some(s),
            CmdResponse::ExecError(s) => Some(s),
            _ => None,
        }
    }

    /// The prompt, if the response gives one
    pub fn prompt(&self) -> (r: Option<&String>)
        ensures
            match self {
                CmdResponse::Prompt(s) => r == Some(s),
                _ => r is None,
            },
    {
        if let CmdResponse::Prompt(s) = self {
            Some(s)
        } else {
            None
        }
    }
}

/// Where the shell is in its loop
#[derive(Debug, Clone, Copy, PartialEq, Eq, Structural)]
pub enum ShellPhase {
    /// nothing has happened yet
    Start,
    /// the application was asked for a prompt
    WaitPrompt,
    /// the prompt was shown and a line of input is awaited
    WaitInput,
    /// the application was asked to execute a line
    WaitExec,
    /// an error line was printed after a failed flush; the loop ends
    EndAfterPrint,
    /// an error line was printed after a failed command; the loop goes on
    LoopAfterPrint,
    /// the application was told that the shell is finishing
    WaitFinish,
    /// the shell has returned
    Done,
}

/// The state of the shell: its phase and whether the application has answered `Finish`
#[derive(Debug, Clone, Copy, PartialEq, Eq, Structural)]
pub struct ShellState {
    pub phase: ShellPhase,
    pub has_finished: bool,
}

/// What happened since the shell's last action
#[derive(Debug)]
pub enum ShellEvent {
    /// the shell is started
    Start,
    /// the application responded to the request
    Responded(CmdResponse),
    /// flushing the prompt failed, with this message
    FlushFailed(String),
    /// reading a line of input failed
    ReadFailed,
    /// a line of input was read; at the end of input it is empty
    Line(String),
    /// the line was printed
    Printed,
}

/// What the shell does next
#[derive(Debug)]
pub enum ShellAction {
    /// make a request of the application
    Request(CmdRequest),
    /// show the prompt (with no newline), flush, and read a line of input
    ShowPrompt(String),
    /// print a line
    PrintLine(String),
    /// return the application's data
    Done,
}

/// The text of a line that reports an error
pub open spec fn error_line(e: Seq<char>) -> Seq<char> {
    "Error: "@ + e
}

/// The action asks the application for a prompt
pub open spec fn asks_prompt(a: ShellAction) -> bool {
    a matches ShellAction::Request(q) && q is Prompt
}

/// The action prints an error line for the message
pub open spec fn prints_error(a: ShellAction, e: Seq<char>) -> bool {
    a matches ShellAction::PrintLine(l) && l@ == error_line(e)
}

/// The shell's loop has ended: the application is told that the shell finishes, unless it
/// answered `Finish` itself, in which case the shell returns
pub open spec fn ends_loop(r: (ShellState, ShellAction), has_finished: bool) -> bool {
    &&& r.0.has_finished == has_finished
    &&& has_finished ==> r.0.phase == ShellPhase::Done && r.1 is Done
    &&& !has_finished ==> r.0.phase == ShellPhase::WaitFinish && (r.1 matches ShellAction::Request(
        q,
    ) && q is Finish)
}

/// The shell's next state and action
pub open spec fn shell_next(st: ShellState, event: ShellEvent, r: (ShellState, ShellAction)) -> bool {
    match (st.phase, event) {
        (ShellPhase::Start, ShellEvent::Start) => r.0 == ShellState {
            phase: ShellPhase::WaitPrompt,
            ..st
        } && asks_prompt(r.1),
        (ShellPhase::WaitPrompt, ShellEvent::Responded(resp)) => match resp {
            CmdResponse::Prompt(p) => r.0 == ShellState {
                phase: ShellPhase::WaitInput,
                has_finished: false,
            } && r.1 == ShellAction::ShowPrompt(p),
            _ => ends_loop(r, resp is Finish),
        },
        (ShellPhase::WaitInput, ShellEvent::FlushFailed(e)) => r.0 == ShellState {
            phase: ShellPhase::EndAfterPrint,
            ..st
        } && prints_error(r.1, e@),
        (ShellPhase::WaitInput, ShellEvent::ReadFailed) => ends_loop(r, st.has_finished),
        (ShellPhase::WaitInput, ShellEvent::Line(l)) => if l@.len() == 0 {
            ends_loop(r, st.has_finished)
        } else {
            r.0 == ShellState { phase: ShellPhase::WaitExec, ..st } && r.1 == ShellAction::Request(
                CmdRequest::Exec(l),
            )
        },
        (ShellPhase::WaitExec, ShellEvent::Responded(resp)) => match resp {
            CmdResponse::ExecOk(_) => r.0 == ShellState {
                phase: ShellPhase::WaitPrompt,
                has_finished: false,
            } && asks_prompt(r.1),
            CmdResponse::ExecError(e) => r.0 == ShellState {
                phase: ShellPhase::LoopAfterPrint,
                has_finished: false,
            } && prints_error(r.1, e@),
            _ => ends_loop(r, resp is Finish),
        },
        (ShellPhase::EndAfterPrint, ShellEvent::Printed) => ends_loop(r, st.has_finished),
        (ShellPhase::LoopAfterPrint, ShellEvent::Printed) => r.0 == ShellState {
            phase: ShellPhase::WaitPrompt,
            ..st
        } && asks_prompt(r.1),
        (ShellPhase::WaitFinish, ShellEvent::Responded(_)) => r.0 == ShellState {
            phase: ShellPhase::Done,
            ..st
        } && r.1 is Done,
        _ => r.0 == st && r.1 is Done,
    }
}

impl ShellState {
    /// The state before the shell starts
    pub fn new() -> (r: Self)
        ensures
            r.phase == ShellPhase::Start,
            !r.has_finished,
    {
        ShellState { phase: ShellPhase::Start, has_finished: false }
    }

    /// The shell's loop ends here
    fn end_loop(&self) -> (r: (ShellState, ShellAction))
        ensures
            ends_loop(r, self.has_finished),
    {
        if self.has_finished {
            (ShellState { phase: ShellPhase::Done, has_finished: true }, ShellAction::Done)
        } else {
            (
                ShellState { phase: ShellPhase::WaitFinish, has_finished: false },
                ShellAction::Request(CmdRequest::Finish),
            )
        }
    }

    /// The next step of the shell, given what happened since its last action.
    ///
    /// The shell asks the application for a prompt; a `Prompt` response is shown and a line of
    /// input read; a non-empty line is given to the application to execute; an `ExecOk`
    /// response continues the loop, an `ExecError` response is printed as an error and
    /// continues it. Any other response, a failure to flush (printed as an error) or to read,
    /// or the end of input ends the loop. At its end the application is told `Finish`, unless
    /// it answered `Finish` itself; then the shell returns. An event that does not fit the
    /// phase leaves the state as it is and ends the shell.
    pub fn step(self, event: ShellEvent) -> (r: (ShellState, ShellAction))
        ensures
            shell_next(self, event, r),
    {
        match (self.phase, event) {
            (ShellPhase::Start, ShellEvent::Start) => (
                ShellState { phase: ShellPhase::WaitPrompt, has_finished: self.has_finished },
                ShellAction::Request(CmdRequest::Prompt),
            ),
            (ShellPhase::WaitPrompt, ShellEvent::Responded(resp)) => {
                let has_finished = resp.is_finish();
                match resp {
                    CmdResponse::Prompt(p) => (
                        ShellState { phase: ShellPhase::WaitInput, has_finished },
                        ShellAction::ShowPrompt(p),
                    ),
                    _ => ShellState { phase: self.phase, has_finished }.end_loop(),
                }
            },
            (ShellPhase::WaitInput, ShellEvent::FlushFailed(e)) => {
                let mut l = String::new();
                text::append_str(&mut l, "Error: ");
                text::append_str(&mut l, e.as_str());
                (
                    ShellState { phase: ShellPhase::EndAfterPrint, has_finished: self.has_finished },
                    ShellAction::PrintLine(l),
                )
            },
            (ShellPhase::WaitInput, ShellEvent::ReadFailed) => self.end_loop(),
            (ShellPhase::WaitInput, ShellEvent::Line(l)) => {
                if l.as_str().is_empty() {
                    self.end_loop()
                } else {
                    (
                        ShellState { phase: ShellPhase::WaitExec, has_finished: self.has_finished },
                        ShellAction::Request(CmdRequest::Exec(l)),
                    )
                }
            },
            (ShellPhase::WaitExec, ShellEvent::Responded(resp)) => {
                let has_finished = resp.is_finish();
                match resp {
                    CmdResponse::ExecOk(_) => (
                        ShellState { phase: ShellPhase::WaitPrompt, has_finished },
                        ShellAction::Request(CmdRequest::Prompt),
                    ),
                    CmdResponse::ExecError(e) => {
                        let mut l = String::new();
                        text::append_str(&mut l, "Error: ");
                        text::append_str(&mut l, e.as_str());
                        (
                            ShellState { phase: ShellPhase::LoopAfterPrint, has_finished },
                            ShellAction::PrintLine(l),
                        )
                    },
                    _ => ShellState { phase: self.phase, has_finished }.end_loop(),
                }
            },
            (ShellPhase::EndAfterPrint, ShellEvent::Printed) => self.end_loop(),
            (ShellPhase::LoopAfterPrint, ShellEvent::Printed) => (
                ShellState { phase: ShellPhase::WaitPrompt, has_finished: self.has_finished },
                ShellAction::Request(CmdRequest::Prompt),
            ),
            (ShellPhase::WaitFinish, ShellEvent::Responded(_)) => (
                ShellState { phase: ShellPhase::Done, has_finished: self.has_finished },
                ShellAction::Done,
            ),
            _ => (self, ShellAction::Done),
        }
    }
}


/// The action tells the application that the shell is finishing
pub open spec fn requests_finish(a: ShellAction) -> bool {
    a matches ShellAction::Request(q) && q is Finish
}

/// A run of the shell: each state steps to the next on its event, with its action
pub open spec fn is_run(
    states: Seq<ShellState>,
    events: Seq<ShellEvent>,
    actions: Seq<ShellAction>,
) -> bool {
    &&& states.len() == events.len() + 1
    &&& actions.len() == events.len()
    &&& forall|i: int|
        0 <= i < events.len() ==> #[trigger] shell_next(states[i], events[i], (states[i + 1], actions[i]))
}

/// The shell has told the application that it finishes, or has returned
pub open spec fn finishing(st: ShellState) -> bool {
    st.phase == ShellPhase::WaitFinish || st.phase == ShellPhase::Done
}

/// The application is never told `Finish` in answer to its own `Finish`
pub proof fn lemma_no_finish_after_finish(st: ShellState, r: (ShellState, ShellAction))
    requires
        shell_next(st, ShellEvent::Responded(CmdResponse::Finish), r),
    ensures
        !requests_finish(r.1),
{
}

/// Once the shell has returned, it stays returned and does nothing more
pub proof fn lemma_done_is_final(st: ShellState, event: ShellEvent, r: (ShellState, ShellAction))
    requires
        st.phase == ShellPhase::Done,
        shell_next(st, event, r),
    ensures
        r.0 == st,
        r.1 is Done,
{
}

/// The action gives the application a line to execute
pub open spec fn requests_exec(a: ShellAction) -> bool {
    a matches ShellAction::Request(q) && q is Exec
}

/// A step that tells the application `Finish` leaves the shell finishing; a finishing shell
/// stays finishing and tells it nothing more, nor gives it a line to execute
proof fn lemma_finishing_step(st: ShellState, event: ShellEvent, r: (ShellState, ShellAction))
    requires
        shell_next(st, event, r),
    ensures
        requests_finish(r.1) ==> finishing(r.0),
        finishing(st) ==> finishing(r.0) && !requests_finish(r.1) && !requests_exec(r.1) && !(
        r.1 is Request),
{
}

/// In every run of the shell, the end of input (an empty line read at the prompt) ends it:
/// no line is given to the application to execute after it
pub proof fn lemma_end_of_input_ends_the_shell(
    states: Seq<ShellState>,
    events: Seq<ShellEvent>,
    actions: Seq<ShellAction>,
    i: int,
    j: int,
)
    requires
        is_run(states, events, actions),
        0 <= i < j < actions.len(),
        states[i].phase == ShellPhase::WaitInput,
        events[i] matches ShellEvent::Line(l) && l@.len() == 0,
    ensures
        !requests_exec(actions[j]),
{
    assert(shell_next(states[i], events[i], (states[i + 1], actions[i])));
    assert(finishing(states[i + 1]));
    lemma_finishing_from(states, events, actions, i + 1, j);
}

/// In every run of the shell, a line given to the application to execute is the non-empty
/// line just read at the prompt
pub proof fn lemma_executes_the_line_read(
    states: Seq<ShellState>,
    events: Seq<ShellEvent>,
    actions: Seq<ShellAction>,
    i: int,
)
    requires
        is_run(states, events, actions),
        0 <= i < actions.len(),
        requests_exec(actions[i]),
    ensures
        states[i].phase == ShellPhase::WaitInput,
        events[i] matches ShellEvent::Line(l) && l@.len() > 0 && actions[i] == ShellAction::Request(
            CmdRequest::Exec(l),
        ),
        states[i + 1].phase == ShellPhase::WaitExec,
{
    assert(shell_next(states[i], events[i], (states[i + 1], actions[i])));
}

/// In every run of the shell, the application is told `Finish` at most once
pub proof fn lemma_finish_told_once(
    states: Seq<ShellState>,
    events: Seq<ShellEvent>,
    actions: Seq<ShellAction>,
    i: int,
    j: int,
)
    requires
        is_run(states, events, actions),
        0 <= i < j < actions.len(),
        requests_finish(actions[i]),
    ensures
        !requests_finish(actions[j]),
    decreases j - i,
{
    assert(shell_next(states[i], events[i], (states[i + 1], actions[i])));
    lemma_finishing_step(states[i], events[i], (states[i + 1], actions[i]));
    lemma_finishing_from(states, events, actions, i + 1, j);
}

/// In every run of the shell, telling the application `Finish` is its last request: no
/// request follows it
pub proof fn lemma_finish_is_the_last_request(
    states: Seq<ShellState>,
    events: Seq<ShellEvent>,
    actions: Seq<ShellAction>,
    i: int,
    j: int,
)
    requires
        is_run(states, events, actions),
        0 <= i < j < actions.len(),
        requests_finish(actions[i]),
    ensures
        !(actions[j] is Request),
{
    assert(shell_next(states[i], events[i], (states[i + 1], actions[i])));
    lemma_finishing_step(states[i], events[i], (states[i + 1], actions[i]));
    lemma_finishing_from(states, events, actions, i + 1, j);
}

/// In every run of the shell, where the application answers `Finish` to a request of the
/// loop (a prompt or a line to execute), it is never told `Finish`, before or after
pub proof fn lemma_no_finish_when_the_application_finishes(
    states: Seq<ShellState>,
    events: Seq<ShellEvent>,
    actions: Seq<ShellAction>,
    k: int,
    j: int,
)
    requires
        is_run(states, events, actions),
        0 <= k < actions.len(),
        0 <= j < actions.len(),
        states[k].phase == ShellPhase::WaitPrompt || states[k].phase == ShellPhase::WaitExec,
        events[k] matches ShellEvent::Responded(CmdResponse::Finish),
    ensures
        !requests_finish(actions[j]),
{
    assert(shell_next(states[k], events[k], (states[k + 1], actions[k])));
    if j < k {
        if requests_finish(actions[j]) {
            assert(shell_next(states[j], events[j], (states[j + 1], actions[j])));
            lemma_finishing_step(states[j], events[j], (states[j + 1], actions[j]));
            lemma_finishing_from(states, events, actions, j + 1, k);
        }
    } else if j > k {
        assert(finishing(states[k + 1]));
        lemma_finishing_from(states, events, actions, k + 1, j);
    }
}

proof fn lemma_finishing_from(
    states: Seq<ShellState>,
    events: Seq<ShellEvent>,
    actions: Seq<ShellAction>,
    k: int,
    j: int,
)
    requires
        is_run(states, events, actions),
        0 <= k <= j < actions.len(),
        finishing(states[k]),
    ensures
        finishing(states[j]),
        !requests_finish(actions[j]),
        !requests_exec(actions[j]),
        !(actions[j] is Request),
    decreases j - k,
{
    assert(shell_next(states[k], events[k], (states[k + 1], actions[k])));
    lemma_finishing_step(states[k], events[k], (states[k + 1], actions[k]));
    if k < j {
        lemma_finishing_from(states, events, actions, k + 1, j);
    }
}

} // verus!
