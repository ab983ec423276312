//! The functions that handle a command and its arguments, and the subcommands' handlers.
use core::marker::PhantomData;
use vstd::prelude::*;

use crate::matches::Matches;
use crate::text;
use crate::{CommandArgs, ExecError};

verus! {

/// The handlers of a command: its command function, a function that resets the arguments
/// before they are handled, the functions of its arguments (by argument id, in the order in
/// which they are applied), and the handlers of its subcommands (by name).
///
/// `F` is the type of command functions, `A` that of argument functions and `R` that of reset
/// functions (boxed closures, for an application with several of them).
pub struct CommandHandlerSet<C, F, A, R> {
    handler: Option<F>,
    sub_cmds: Vec<(String, CommandHandlerSet<C, F, A, R>)>,
    arg_reset: Option<R>,
    args: Vec<(String, A)>,
    marker: PhantomData<C>,
}

/// The position of the first occurrence of a name
pub open spec fn first_index(names: Seq<Seq<char>>, name: Seq<char>) -> Option<int>
    decreases names.len(),
{
    if names.len() == 0 {
        None
    } else if names[0] == name {
        Some(0)
    } else {
        match first_index(names.drop_first(), name) {
            Some(i) => Some(i + 1),
            None => None,
        }
    }
}

/// The names of named entries
pub open spec fn names_of<T>(subs: Seq<(String, T)>) -> Seq<Seq<char>> {
    Seq::new(subs.len(), |i: int| subs[i].0@)
}

/// The position of the first subcommand handler of the name
pub open spec fn sub_pos<T>(subs: Seq<(String, T)>, name: Seq<char>) -> Option<int> {
    first_index(names_of(subs), name)
}

proof fn lemma_first_index(names: Seq<Seq<char>>, name: Seq<char>)
    ensures
        match first_index(names, name) {
            Some(i) => 0 <= i < names.len() && names[i] == name && forall|j: int|
                0 <= j < i ==> names[j] != name,
            None => forall|j: int| 0 <= j < names.len() ==> names[j] != name,
        },
    decreases names.len(),
{
    if names.len() > 0 {
        lemma_first_index(names.drop_first(), name);
        if names[0] != name {
            assert forall|j: int| 1 <= j < names.len() implies names[j] == names.drop_first()[j
                - 1] by {}
        }
    }
}

proof fn lemma_first_index_at(names: Seq<Seq<char>>, name: Seq<char>, i: int)
    requires
        0 <= i < names.len(),
        names[i] == name,
        forall|j: int| 0 <= j < i ==> names[j] != name,
    ensures
        first_index(names, name) == Some(i),
{
    lemma_first_index(names, name);
    match first_index(names, name) {
        Some(k) => {
            if k < i {
                assert(names[k] != name);
            } else if k > i {
                assert(names[i] != name);
            }
        },
        None => {
            assert(names[i] != name);
        },
    }
}

proof fn lemma_first_index_push(names: Seq<Seq<char>>, x: Seq<char>, name: Seq<char>)
    requires
        name != x,
    ensures
        first_index(names.push(x), name) == first_index(names, name),
{
    lemma_first_index(names, name);
    lemma_first_index(names.push(x), name);
    match first_index(names, name) {
        Some(i) => {
            assert(names.push(x)[i] == names[i]);
            assert forall|j: int| 0 <= j < i implies names.push(x)[j] != name by {
                assert(names.push(x)[j] == names[j]);
            }
            lemma_first_index_at(names.push(x), name, i);
        },
        None => {
            match first_index(names.push(x), name) {
                Some(k) => {
                    if k < names.len() {
                        assert(names.push(x)[k] == names[k]);
                    }
                },
                None => {},
            }
        },
    }
}

/// The positions, in order, of the arguments among `args[from..]` whose ids the matches hold
pub open spec fn present_from<A>(args: Seq<(String, A)>, m: Matches, from: int) -> Seq<int>
    decreases args.len() - from,
{
    if from < 0 || from >= args.len() {
        Seq::empty()
    } else if m.has_id(args[from].0@) {
        seq![from] + present_from(args, m, from + 1)
    } else {
        present_from(args, m, from + 1)
    }
}

proof fn lemma_present_from_bounds<A>(args: Seq<(String, A)>, m: Matches, from: int)
    requires
        0 <= from,
    ensures
        forall|k: int|
            0 <= k < present_from(args, m, from).len() ==> from <= #[trigger] present_from(
                args,
                m,
                from,
            )[k] < args.len(),
    decreases args.len() - from,
{
    if from < args.len() {
        lemma_present_from_bounds(args, m, from + 1);
        let rest = present_from(args, m, from + 1);
        if m.has_id(args[from].0@) {
            assert forall|k: int|
                0 <= k < present_from(args, m, from).len() implies from
                <= #[trigger] present_from(args, m, from)[k] < args.len() by {
                if k > 0 {
                    assert(present_from(args, m, from)[k] == rest[k - 1]);
                }
            }
        }
    }
}

proof fn lemma_present_from_order<A>(args: Seq<(String, A)>, m: Matches, from: int)
    requires
        0 <= from,
    ensures
        forall|i: int, j: int|
            0 <= i < j < present_from(args, m, from).len() ==> #[trigger] present_from(args, m, from)[i]
                < #[trigger] present_from(args, m, from)[j],
        forall|k: int|
            from <= k < args.len() ==> (m.has_id((#[trigger] args[k]).0@) <==> present_from(
                args,
                m,
                from,
            ).contains(k)),
    decreases args.len() - from,
{
    lemma_present_from_bounds(args, m, from);
    if from < args.len() {
        lemma_present_from_order(args, m, from + 1);
        lemma_present_from_bounds(args, m, from + 1);
        let rest = present_from(args, m, from + 1);
        let p = present_from(args, m, from);
        if m.has_id(args[from].0@) {
            assert(p == seq![from] + rest);
            assert forall|i: int, j: int| 0 <= i < j < p.len() implies #[trigger] p[i] < #[trigger] p[j] by {
                if i > 0 {
                    assert(p[i] == rest[i - 1] && p[j] == rest[j - 1]);
                } else {
                    assert(p[j] == rest[j - 1]);
                }
            }
            assert forall|k: int| from <= k < args.len() implies (m.has_id((#[trigger] args[k]).0@)
                <==> p.contains(k)) by {
                if k == from {
                    assert(p[0] == from);
                } else {
                    if rest.contains(k) {
                        let t = choose|t: int| 0 <= t < rest.len() && rest[t] == k;
                        assert(p[t + 1] == k);
                    }
                    if p.contains(k) {
                        let t = choose|t: int| 0 <= t < p.len() && p[t] == k;
                        assert(t > 0);
                        assert(rest[t - 1] == k);
                    }
                }
            }
        } else {
            assert forall|k: int| from <= k < args.len() implies (m.has_id((#[trigger] args[k]).0@)
                <==> p.contains(k)) by {
                if k == from {
                    if p.contains(k) {
                        let t = choose|t: int| 0 <= t < p.len() && p[t] == k;
                        assert(rest[t] >= from + 1);
                    }
                }
            }
        }
    }
}

impl<C, F, A, R> CommandHandlerSet<C, F, A, R> {
    /// The handler set of the subcommand of the name
    pub closed spec fn sub_handler(self, name: Seq<char>) -> Option<Self> {
        match sub_pos(self.sub_cmds@, name) {
            Some(i) => Some(self.sub_cmds@[i].1),
            None => None,
        }
    }

    /// The command function, if any
    pub closed spec fn handler_fn(self) -> Option<F> {
        self.handler
    }

    /// The function that resets the arguments, if any
    pub closed spec fn reset_fn(self) -> Option<R> {
        self.arg_reset
    }

    /// The functions of the arguments with their ids, in the order in which they were added
    pub closed spec fn arg_fns(self) -> Seq<(String, A)> {
        self.args@
    }

    /// Whether there is a command function
    pub closed spec fn has_handler(self) -> bool {
        self.handler is Some
    }

    /// Whether there is a reset function
    pub closed spec fn has_reset(self) -> bool {
        self.arg_reset is Some
    }

    /// The ids of the arguments with functions, in order
    pub closed spec fn arg_ids(self) -> Seq<Seq<char>> {
        Seq::new(self.args@.len(), |i: int| self.args@[i].0@)
    }

    /// The subcommand names with handlers, in order
    pub closed spec fn sub_names(self) -> Seq<Seq<char>> {
        Seq::new(self.sub_cmds@.len(), |i: int| self.sub_cmds@[i].0@)
    }

    /// The positions, in order, of the arguments with functions that the matches hold
    pub closed spec fn present_args(self, m: Matches) -> Seq<int> {
        present_from(self.args@, m, 0)
    }

    /// Every subcommand in the chain that the matches hold has a handler set
    pub open spec fn routes(self, m: Matches) -> bool
        decreases m,
    {
        match m.subcommand {
            None => true,
            Some((name, sm)) => match self.sub_handler(name@) {
                Some(h) => h.routes(*sm),
                None => false,
            },
        }
    }

    /// The positions of the arguments with functions that the matches hold, in order
    pub fn present_arg_positions(&self, matches: &Matches) -> (r: Vec<usize>)
        ensures
            r@.len() == self.present_args(*matches).len(),
            forall|i: int| 0 <= i < r@.len() ==> r@[i] as int == self.present_args(*matches)[i],
    {
        let mut r: Vec<usize> = Vec::new();
        let mut i: usize = 0;
        while i < self.args.len()
            invariant
                i <= self.args@.len(),
                present_from(self.args@, *matches, 0) == Seq::new(
                    r@.len(),
                    |k: int| r@[k] as int,
                ) + present_from(self.args@, *matches, i as int),
            decreases self.args@.len() - i,
        {
            let ghost before = Seq::new(r@.len(), |k: int| r@[k] as int);
            if matches.contains_id(self.args[i].0.as_str()) {
                r.push(i);
                assert(Seq::new(r@.len(), |k: int| r@[k] as int) =~= before.push(i as int));
                assert(before + (seq![i as int] + present_from(self.args@, *matches, i + 1))
                    =~= before.push(i as int) + present_from(self.args@, *matches, i + 1));
            }
            i += 1;
        }
        assert(present_from(self.args@, *matches, i as int) =~= Seq::<int>::empty());
        assert(Seq::new(r@.len(), |k: int| r@[k] as int) + Seq::<int>::empty() =~= Seq::new(
            r@.len(),
            |k: int| r@[k] as int,
        ));
        r
    }

    /// Whether every subcommand in the chain that the matches hold has a handler set
    pub fn routes_matches(&self, m: &Matches) -> (r: bool)
        ensures
            r == self.routes(*m),
        decreases *m,
    {
        match m.subcommand() {
            None => true,
            Some((name, sm)) => match self.find_subcommand(name) {
                Some(h) => h.routes_matches(sm),
                None => false,
            },
        }
    }

    /// The handler set of the subcommand of a name
    pub fn find_subcommand(&self, name: &str) -> (r: Option<&Self>)
        ensures
            match self.sub_handler(name@) {
                Some(h) => r == Some(&h),
                None => r is None,
            },
    {
        proof {
            lemma_first_index(names_of(self.sub_cmds@), name@);
        }
        let mut i: usize = 0;
        while i < self.sub_cmds.len()
            invariant
                i <= self.sub_cmds@.len(),
                forall|j: int| 0 <= j < i ==> self.sub_cmds@[j].0@ != name@,
            decreases self.sub_cmds@.len() - i,
        {
            if text::str_eq(self.sub_cmds[i].0.as_str(), name) {
                proof {
                    lemma_first_index_at(names_of(self.sub_cmds@), name@, i as int);
                }
                return Some(&self.sub_cmds[i].1);
            }
            i += 1;
        }
        None
    }
}


impl<C, F, A, R> Default for CommandHandlerSet<C, F, A, R> where
    C: CommandArgs,
    F: Fn(&mut C) -> Result<C::Value, C::Error>,
    A: Fn(&mut C, &Matches) -> Result<(), ExecError<C>>,
    R: Fn(&mut C),
 {
    /// A handler set with no functions and no subcommands
    fn default() -> (r: Self)
        ensures
            r.callable(),
            !r.has_handler(),
            !r.has_reset(),
            r.arg_ids().len() == 0,
            r.sub_names().len() == 0,
    {
        Self::new(None)
    }
}

/// The function of an argument was called with the matches (on some value of the arguments)
/// and returned `r`
pub open spec fn arg_called<C: CommandArgs, A: Fn(&mut C, &Matches) -> Result<(), ExecError<C>>>(
    f: A,
    m: Matches,
    r: Result<(), ExecError<C>>,
) -> bool {
    exists|c: &mut C| #[trigger] f.ensures((c, &m), r)
}

/// A call that handling a command line makes on the argument set: the reset function of a
/// handler set, the function of an argument (with the matches that hold it), or a command
/// function
pub enum Call<F, A, R> {
    Reset(R),
    Arg(A, Matches),
    Command(F),
}

/// What a call gives: nothing for a reset or an argument function that succeeded, the value of
/// a command function, or an error (a command function's as a command error)
pub open spec fn step_ensures<C, F, A, R>(
    call: Call<F, A, R>,
    c: &mut C,
    out: Result<Option<C::Value>, ExecError<C>>,
) -> bool where
    C: CommandArgs,
    F: Fn(&mut C) -> Result<C::Value, C::Error>,
    A: Fn(&mut C, &Matches) -> Result<(), ExecError<C>>,
    R: Fn(&mut C),
 {
    match call {
        Call::Reset(g) => g.ensures((c,), ()) && out == Ok::<Option<C::Value>, ExecError<C>>(None),
        Call::Arg(f, m) => match out {
            Ok(None) => f.ensures((c, &m), Ok(())),
            Ok(Some(_)) => false,
            Err(e) => f.ensures((c, &m), Err(e)),
        },
        Call::Command(h) => match out {
            Ok(Some(v)) => h.ensures((c,), Ok::<C::Value, C::Error>(v)),
            Err(ExecError::Exec(e)) => h.ensures((c,), Err::<C::Value, C::Error>(e)),
            _ => false,
        },
    }
}

/// What an argument function's result gives as a call's
pub open spec fn unit_out<C: CommandArgs>(r: Result<(), ExecError<C>>) -> Result<Option<C::Value>, ExecError<C>> {
    match r {
        Ok(()) => Ok(None),
        Err(e) => Err(e),
    }
}

/// What a command function's result gives as a call's
pub open spec fn value_out<C: CommandArgs>(r: Result<C::Value, C::Error>) -> Result<Option<C::Value>, ExecError<C>> {
    match r {
        Ok(v) => Ok(Some(v)),
        Err(e) => Err(ExecError::Exec(e)),
    }
}

/// The shape of a run of calls: the argument sets `s` before and after each call, and what
/// each call gave; the calls are those of the plan, in order, and the run stops at the first
/// error (all of the plan runs when there is none)
pub open spec fn run_shape<C: CommandArgs, F, A, R>(
    plan: Seq<Call<F, A, R>>,
    s: Seq<C>,
    outs: Seq<Result<Option<C::Value>, ExecError<C>>>,
) -> bool {
    &&& s.len() == outs.len() + 1
    &&& outs.len() <= plan.len()
    &&& forall|i: int| 0 <= i < outs.len() - 1 ==> (#[trigger] outs[i]) is Ok
    &&& outs.len() < plan.len() ==> outs.len() > 0 && outs.last() is Err
}

/// The index is that of a call of the run
pub open spec fn in_run<T>(outs: Seq<T>, i: int) -> bool {
    0 <= i < outs.len()
}

/// The error with which a run stopped, if it did
pub open spec fn run_error<C: CommandArgs>(outs: Seq<Result<Option<C::Value>, ExecError<C>>>) -> Option<ExecError<C>> {
    if outs.len() > 0 && outs.last() is Err {
        Some(outs.last()->Err_0)
    } else {
        None
    }
}

/// Two runs one after the other, the first having made all of its calls with success, are a
/// run of the two plans one after the other
pub proof fn lemma_run_concat<C, F, A, R>(
    p1: Seq<Call<F, A, R>>,
    s1: Seq<C>,
    o1: Seq<Result<Option<C::Value>, ExecError<C>>>,
    p2: Seq<Call<F, A, R>>,
    s2: Seq<C>,
    o2: Seq<Result<Option<C::Value>, ExecError<C>>>,
) where
    C: CommandArgs,
    F: Fn(&mut C) -> Result<C::Value, C::Error>,
    A: Fn(&mut C, &Matches) -> Result<(), ExecError<C>>,
    R: Fn(&mut C),

    requires
        run_shape(p1, s1, o1),
        run_shape(p2, s2, o2),
        o1.len() == p1.len(),
        run_error::<C>(o1) is None,
        s2[0] == s1.last(),
        forall|i: int|
            #![trigger in_run(o1, i)]
            in_run(o1, i) ==> exists|c: &mut C|
                #![trigger step_ensures(p1[i], c, o1[i])]
                *c == s1[i] && *final(c) == s1[i + 1] && step_ensures(p1[i], c, o1[i]),
        forall|i: int|
            #![trigger in_run(o2, i)]
            in_run(o2, i) ==> exists|c: &mut C|
                #![trigger step_ensures(p2[i], c, o2[i])]
                *c == s2[i] && *final(c) == s2[i + 1] && step_ensures(p2[i], c, o2[i]),
    ensures
        run_shape(p1 + p2, s1 + s2.drop_first(), o1 + o2),
        (s1 + s2.drop_first())[0] == s1[0],
        (s1 + s2.drop_first()).last() == s2.last(),
        run_error::<C>(o1 + o2) == run_error::<C>(o2),
        o2.len() > 0 ==> (o1 + o2).last() == o2.last(),
        forall|i: int|
            #![trigger in_run(o1 + o2, i)]
            in_run(o1 + o2, i) ==> exists|c: &mut C|
                #![trigger step_ensures((p1 + p2)[i], c, (o1 + o2)[i])]
                *c == (s1 + s2.drop_first())[i] && *final(c) == (s1 + s2.drop_first())[i + 1]
                    && step_ensures((p1 + p2)[i], c, (o1 + o2)[i]),
{
    let s = s1 + s2.drop_first();
    let o = o1 + o2;
    let p = p1 + p2;
    assert forall|i: int| 0 <= i < o.len() - 1 implies (#[trigger] o[i]) is Ok by {
        if i < o1.len() {
            assert(o[i] == o1[i]);
            if i == o1.len() - 1 {
                assert(o1.last() is Ok);
            }
        } else {
            assert(o[i] == o2[i - o1.len()]);
        }
    }
    if o2.len() == 0 {
        assert(o =~= o1);
    }
    assert forall|i: int|
        #![trigger in_run(o, i)]
        in_run(o, i) implies exists|c: &mut C|
            #![trigger step_ensures(p[i], c, o[i])]
            *c == s[i] && *final(c) == s[i + 1] && step_ensures(p[i], c, o[i]) by {
        if i < o1.len() {
            assert(in_run(o1, i));
            assert(o[i] == o1[i] && p[i] == p1[i] && s[i] == s1[i] && s[i + 1] == s1[i + 1]);
        } else {
            let j = i - o1.len();
            assert(in_run(o2, j));
            assert(o[i] == o2[j] && p[i] == p2[j] && s[i] == s2[j] && s[i + 1] == s2[j + 1]);
        }
    }
}

/// A run that stopped at an error is a run of any plan that starts with its own
pub proof fn lemma_run_extend<C, F, A, R>(
    p1: Seq<Call<F, A, R>>,
    p2: Seq<Call<F, A, R>>,
    s: Seq<C>,
    o: Seq<Result<Option<C::Value>, ExecError<C>>>,
) where
    C: CommandArgs,
    F: Fn(&mut C) -> Result<C::Value, C::Error>,
    A: Fn(&mut C, &Matches) -> Result<(), ExecError<C>>,
    R: Fn(&mut C),

    requires
        run_shape(p1, s, o),
        run_error::<C>(o) is Some,
        forall|i: int|
            #![trigger in_run(o, i)]
            in_run(o, i) ==> exists|c: &mut C|
                #![trigger step_ensures(p1[i], c, o[i])]
                *c == s[i] && *final(c) == s[i + 1] && step_ensures(p1[i], c, o[i]),
    ensures
        run_shape(p1 + p2, s, o),
        forall|i: int|
            #![trigger in_run(o, i)]
            in_run(o, i) ==> exists|c: &mut C|
                #![trigger step_ensures((p1 + p2)[i], c, o[i])]
                *c == s[i] && *final(c) == s[i + 1] && step_ensures((p1 + p2)[i], c, o[i]),
{
    assert forall|i: int|
        #![trigger in_run(o, i)]
        in_run(o, i) implies exists|c: &mut C|
            #![trigger step_ensures((p1 + p2)[i], c, o[i])]
            *c == s[i] && *final(c) == s[i + 1] && step_ensures((p1 + p2)[i], c, o[i]) by {
        assert((p1 + p2)[i] == p1[i]);
    }
}

impl<C, F, A, R> CommandHandlerSet<C, F, A, R> where
    C: CommandArgs,
    F: Fn(&mut C) -> Result<C::Value, C::Error>,
    A: Fn(&mut C, &Matches) -> Result<(), ExecError<C>>,
    R: Fn(&mut C),
 {
    /// Every function of the handler set, and of its subcommands' handler sets, may be called
    /// with any arguments
    pub closed spec fn callable(self) -> bool
        decreases self,
    {
        &&& (self.handler matches Some(f) ==> forall|c: &mut C| f.requires((c,)))
        &&& (self.arg_reset matches Some(f) ==> forall|c: &mut C| f.requires((c,)))
        &&& forall|i: int|
            0 <= i < self.args@.len() ==> forall|c: &mut C, m: &Matches|
                (#[trigger] self.args@[i]).1.requires((c, m))
        &&& forall|i: int| 0 <= i < self.sub_cmds@.len() ==> (#[trigger] self.sub_cmds@[i]).1.callable()
    }

    /// Create a new [CommandHandlerSet] with an optional command function
    pub fn new(handler: Option<F>) -> (r: Self)
        ensures
            (handler matches Some(f) ==> forall|c: &mut C| f.requires((c,))) ==> r.callable(),
            r.handler_fn() == handler,
            r.has_handler() == handler is Some,
            !r.has_reset(),
            r.arg_ids().len() == 0,
            r.sub_names().len() == 0,
    {
        CommandHandlerSet {
            handler,
            sub_cmds: Vec::new(),
            arg_reset: None,
            args: Vec::new(),
            marker: PhantomData,
        }
    }

    /// Set the function that resets the arguments before they are handled
    pub fn set_arg_reset(&mut self, handler: R)
        ensures
            (old(self).callable() && forall|c: &mut C| handler.requires((c,)))
                ==> final(self).callable(),
            final(self).reset_fn() == Some(handler),
            final(self).handler_fn() == old(self).handler_fn(),
            final(self).arg_fns() == old(self).arg_fns(),
            final(self).has_reset(),
            final(self).has_handler() == old(self).has_handler(),
            final(self).arg_ids() == old(self).arg_ids(),
            final(self).sub_names() == old(self).sub_names(),
            forall|n: Seq<char>| final(self).sub_handler(n) == old(self).sub_handler(n),
    {
        self.arg_reset = Some(handler);
    }

    /// Add the function of an argument; it is applied after those added before it
    pub fn add_arg(&mut self, name: String, handler: A)
        ensures
            (old(self).callable() && forall|c: &mut C, m: &Matches| handler.requires((c, m)))
                ==> final(self).callable(),
            final(self).arg_fns() == old(self).arg_fns().push((name, handler)),
            final(self).handler_fn() == old(self).handler_fn(),
            final(self).reset_fn() == old(self).reset_fn(),
            final(self).arg_ids() == old(self).arg_ids().push(name@),
            final(self).has_handler() == old(self).has_handler(),
            final(self).has_reset() == old(self).has_reset(),
            final(self).sub_names() == old(self).sub_names(),
            forall|n: Seq<char>| final(self).sub_handler(n) == old(self).sub_handler(n),
    {
        self.args.push((name, handler));
        assert(self.arg_ids() =~= old(self).arg_ids().push(name@));
    }

    /// Add the handler set of a subcommand, replacing any of the same name
    pub fn add_subcommand(&mut self, name: String, handler_set: Self)
        ensures
            (old(self).callable() && handler_set.callable()) ==> final(self).callable(),
            final(self).sub_handler(name@) == Some(handler_set),
            forall|n: Seq<char>|
                n != name@ ==> final(self).sub_handler(n) == old(self).sub_handler(n),
            old(self).sub_names().contains(name@) ==> final(self).sub_names() == old(
                self,
            ).sub_names(),
            !old(self).sub_names().contains(name@) ==> final(self).sub_names() == old(
                self,
            ).sub_names().push(name@),
            final(self).arg_fns() == old(self).arg_fns(),
            final(self).handler_fn() == old(self).handler_fn(),
            final(self).reset_fn() == old(self).reset_fn(),
            final(self).arg_ids() == old(self).arg_ids(),
            final(self).has_handler() == old(self).has_handler(),
            final(self).has_reset() == old(self).has_reset(),
    {
        let ghost old_subs = self.sub_cmds@;
        let mut i: usize = 0;
        while i < self.sub_cmds.len()
            invariant
                self.sub_cmds@ == old_subs,
                old_subs == old(self).sub_cmds@,
                self.args@ == old(self).args@,
                self.handler == old(self).handler,
                self.arg_reset == old(self).arg_reset,
                i <= old_subs.len(),
                forall|j: int| 0 <= j < i ==> old_subs[j].0@ != name@,
            decreases old_subs.len() - i,
        {
            if text::str_eq(self.sub_cmds[i].0.as_str(), name.as_str()) {
                let ghost entry = (name, handler_set);
                self.sub_cmds.set(i, (name, handler_set));
                proof {
                    assert(names_of(self.sub_cmds@) =~= names_of(old_subs));
                    lemma_first_index_at(names_of(self.sub_cmds@), name@, i as int);
                    assert forall|n: Seq<char>| n != name@ implies self.sub_handler(n) == old(
                        self,
                    ).sub_handler(n) by {
                        lemma_first_index(names_of(old_subs), n);
                    }
                    assert(old(self).sub_names().contains(name@)) by {
                        assert(old(self).sub_names()[i as int] == name@);
                    }
                    assert(self.sub_names() =~= old(self).sub_names());
                }
                return;
            }
            i += 1;
        }
        let ghost entry = (name, handler_set);
        self.sub_cmds.push((name, handler_set));
        proof {
            assert(names_of(self.sub_cmds@) =~= names_of(old_subs).push(name@));
            lemma_first_index_at(names_of(self.sub_cmds@), name@, old_subs.len() as int);
            assert forall|n: Seq<char>| n != name@ implies #[trigger] sub_pos(self.sub_cmds@, n)
                == sub_pos(old_subs, n) by {
                lemma_first_index_push(names_of(old_subs), name@, n);
            }
            assert forall|n: Seq<char>| n != name@ implies self.sub_handler(n) == old(
                self,
            ).sub_handler(n) by {
                lemma_first_index_push(names_of(old_subs), name@, n);
                lemma_first_index(names_of(old_subs), n);
            }
            assert(!old(self).sub_names().contains(name@)) by {
                if old(self).sub_names().contains(name@) {
                    let k = choose|k: int|
                        0 <= k < old(self).sub_names().len() && old(self).sub_names()[k]
                            == name@;
                    assert(old_subs[k].0@ == name@);
                }
            }
            assert(self.sub_names() =~= old(self).sub_names().push(name@));
        }
    }

    /// Handle all of the arguments in the application-specified order
    ///
    /// The reset function (if any) is called first; then the function of each argument that the
    /// matches hold, in the order in which they were added. If an argument's function returns an
    /// error then all processing is stopped and that error is returned.
    pub fn handle_args(&self, cmd_args: &mut C, matches: &Matches) -> (r: Result<(), ExecError<C>>)
        requires
            self.callable(),
        ensures
            (!self.has_reset() && self.present_args(*matches).len() == 0) ==> (r is Ok
                && *final(cmd_args) == *old(cmd_args)),
            self.present_args(*matches).len() == 0 ==> (self.reset_fn() matches Some(g) ==> (r is Ok
                && exists|c: &mut C|
                #![trigger g.ensures((c,), ())]
                *c == *old(cmd_args) && *final(c) == *final(cmd_args) && g.ensures((c,), ()))),
            self.reset_fn() matches Some(g) ==> exists|c: &mut C|
                #![trigger g.ensures((c,), ())]
                *c == *old(cmd_args) && g.ensures((c,), ()),
            r is Ok ==> self.args_handled(*matches),
            r matches Err(e) ==> self.args_failed(*matches, e),
            exists|s: Seq<C>, outs: Seq<Result<Option<C::Value>, ExecError<C>>>|
                #![trigger run_shape(self.args_plan(*matches), s, outs)]
                {
                    &&& run_shape(self.args_plan(*matches), s, outs)
                    &&& s[0] == *old(cmd_args)
                    &&& s.last() == *final(cmd_args)
                    &&& forall|i: int|
                        #![trigger in_run(outs, i)]
                        in_run(outs, i) ==> exists|c: &mut C|
                            #![trigger step_ensures(self.args_plan(*matches)[i], c, outs[i])]
                            *c == s[i] && *final(c) == s[i + 1] && step_ensures(
                                self.args_plan(*matches)[i],
                                c,
                                outs[i],
                            )
                    &&& r == match run_error::<C>(outs) {
                        Some(e) => Err::<(), ExecError<C>>(e),
                        None => Ok(()),
                    }
                },
    {
        let ghost plan = self.args_plan(*matches);
        let ghost o: int = if self.has_reset() { 1 } else { 0 };
        let ghost mut s: Seq<C> = seq![*cmd_args];
        let ghost mut outs: Seq<Result<Option<C::Value>, ExecError<C>>> = Seq::empty();
        if let Some(arg_reset_fn) = &self.arg_reset {
            let ghost pre = *cmd_args;
            arg_reset_fn(cmd_args);
            proof {
                assert(plan[0] == Call::<F, A, R>::Reset(self.reset_fn()->Some_0));
                let g = self.reset_fn()->Some_0;
                assert(exists|c: &mut C|
                    #![trigger g.ensures((c,), ())]
                    *c == pre && *final(c) == *cmd_args && step_ensures(
                        plan[0],
                        c,
                        Ok::<Option<C::Value>, ExecError<C>>(None),
                    ));
                s = s.push(*cmd_args);
                outs = outs.push(Ok(None));
                assert forall|i: int|
                    #![trigger in_run(outs, i)]
                    in_run(outs, i) implies exists|c: &mut C|
                        #![trigger step_ensures(plan[i], c, outs[i])]
                        *c == s[i] && *final(c) == s[i + 1] && step_ensures(plan[i], c, outs[i]) by {
                    assert(i == 0);
                    assert(s[0] == pre && s[1] == *cmd_args);
                    assert(outs[0] == Ok::<Option<C::Value>, ExecError<C>>(None));
                }
            }
        }
        let ghost after_reset = *cmd_args;
        let present = self.present_arg_positions(matches);
        proof {
            lemma_present_from_bounds(self.args@, *matches, 0);
        }
        let ghost ps = self.present_args(*matches);
        let mut k: usize = 0;
        while k < present.len()
            invariant
                self.callable(),
                ps == self.present_args(*matches),
                present@.len() == ps.len(),
                k <= present@.len(),
                forall|i: int| 0 <= i < present@.len() ==> present@[i] as int == ps[i],
                forall|i: int| 0 <= i < present@.len() ==> 0 <= #[trigger] present@[i] < self.args@.len(),
                (!self.has_reset() && present@.len() == 0) ==> *cmd_args == *old(cmd_args),
                present@.len() == 0 ==> *cmd_args == after_reset,
                forall|j: int|
                    #![trigger ps[j]]
                    0 <= j < k ==> arg_called(self.arg_fns()[ps[j]].1, *matches, Ok(())),
                self.reset_fn() matches Some(g) ==> exists|c: &mut C|
                    #![trigger g.ensures((c,), ())]
                    *c == *old(cmd_args) && g.ensures((c,), ()),
                plan == self.args_plan(*matches),
                o == (if self.has_reset() { 1int } else { 0 }),
                outs.len() == o + k,
                s.len() == outs.len() + 1,
                s[0] == *old(cmd_args),
                s.last() == *cmd_args,
                forall|i: int| 0 <= i < outs.len() ==> (#[trigger] outs[i]) is Ok,
                forall|i: int|
                    #![trigger in_run(outs, i)]
                    in_run(outs, i) ==> exists|c: &mut C|
                        #![trigger step_ensures(plan[i], c, outs[i])]
                        *c == s[i] && *final(c) == s[i + 1] && step_ensures(plan[i], c, outs[i]),
            decreases present@.len() - k,
        {
            let i = present[k];
            let f = &self.args[i].1;
            let ghost pre = *cmd_args;
            let res = f(cmd_args, matches);
            assert(arg_called(self.arg_fns()[ps[k as int]].1, *matches, res));
            let ghost out = unit_out::<C>(res);
            let ghost s0 = s;
            let ghost outs0 = outs;
            proof {
                assert(plan.len() == o + ps.len());
                assert(plan[o + k] == Call::<F, A, R>::Arg(self.arg_fns()[ps[k as int]].1, *matches));
                let g = self.arg_fns()[ps[k as int]].1;
                let jk = o + k;
                assert(exists|c: &mut C|
                    #![trigger g.ensures((c, matches), res)]
                    *c == pre && *final(c) == *cmd_args && step_ensures(plan[jk], c, out));
                s = s.push(*cmd_args);
                outs = outs.push(out);
            }
            proof {
                let jk = o + k;
                assert forall|j: int|
                    #![trigger in_run(outs, j)]
                    in_run(outs, j) implies exists|c: &mut C|
                        #![trigger step_ensures(plan[j], c, outs[j])]
                        *c == s[j] && *final(c) == s[j + 1] && step_ensures(plan[j], c, outs[j]) by {
                    if j < outs0.len() {
                        assert(in_run(outs0, j));
                        assert(outs0[j] == outs[j]);
                        assert(s0[j] == s[j] && s0[j + 1] == s[j + 1]);
                    } else {
                        assert(j == jk);
                        assert(s[j] == pre && s[j + 1] == *cmd_args && outs[j] == out);
                    }
                }
            }
            if res.is_err() {
                proof {
                    assert(run_shape(plan, s, outs));
                }
                return res;
            }
            assert(res is Ok);
            assert(res->Ok_0 == ());
            assert(res == Ok::<(), ExecError<C>>(()));
            k += 1;
        }
        proof {
            assert(run_shape(plan, s, outs));
        }
        Ok(())
    }

    /// The result of a command: a value, or the command's error as a command error
    pub open spec fn command_result(res: Result<C::Value, C::Error>) -> Result<C::Value, ExecError<C>> {
        match res {
            Ok(v) => Ok(v),
            Err(e) => Err(ExecError::Exec(e)),
        }
    }

    /// The calls that handling the arguments of the matches makes: the reset function, where
    /// there is one, then the function of each argument that the matches hold, in the order in
    /// which they were added
    pub open spec fn args_plan(self, m: Matches) -> Seq<Call<F, A, R>> {
        let p = self.present_args(m);
        let args = Seq::new(p.len(), |i: int| Call::Arg(self.arg_fns()[p[i]].1, m));
        match self.reset_fn() {
            Some(g) => seq![Call::Reset(g)] + args,
            None => args,
        }
    }

    /// Handling the arguments calls the reset function first, where there is one, and then the
    /// function of every argument that the matches hold, each once, in the order in which the
    /// functions were added
    pub proof fn lemma_args_in_order(self, m: Matches)
        ensures
            ({
                let p = self.present_args(m);
                let o: int = if self.has_reset() { 1 } else { 0 };
                &&& self.args_plan(m).len() == o + p.len()
                &&& self.reset_fn() matches Some(g) ==> self.args_plan(m)[0] == Call::<F, A, R>::Reset(g)
                &&& forall|i: int|
                    0 <= i < p.len() ==> self.args_plan(m)[o + i] == Call::<F, A, R>::Arg(
                        self.arg_fns()[#[trigger] p[i]].1,
                        m,
                    )
                &&& forall|i: int, j: int| 0 <= i < j < p.len() ==> #[trigger] p[i] < #[trigger] p[j]
                &&& forall|k: int|
                    0 <= k < self.arg_fns().len() ==> (m.has_id((#[trigger] self.arg_fns()[k]).0@)
                        <==> p.contains(k))
            }),
    {
        lemma_present_from_order(self.args@, m, 0);
        lemma_present_from_bounds(self.args@, m, 0);
    }

    /// The handler set whose command the matches reach along their subcommands
    pub open spec fn cmd_target(self, m: Matches) -> Self
        decreases m,
    {
        match m.subcommand {
            None => self,
            Some((name, sm)) => match self.sub_handler(name@) {
                Some(h) => h.cmd_target(*sm),
                None => self,
            },
        }
    }

    /// The calls that handling the command of the matches makes: along the subcommands, the
    /// calls of each subcommand's handler set for its arguments, then the command function of
    /// the handler set reached, where it has one
    pub open spec fn cmd_plan(self, m: Matches) -> Seq<Call<F, A, R>>
        decreases m,
    {
        match m.subcommand {
            None => self.fn_plan(),
            Some((name, sm)) => match self.sub_handler(name@) {
                Some(h) => h.args_plan(*sm) + h.cmd_plan(*sm),
                None => Seq::empty(),
            },
        }
    }

    /// The call of this handler set's command function, where it has one
    pub open spec fn fn_plan(self) -> Seq<Call<F, A, R>> {
        match self.handler_fn() {
            Some(h) => seq![Call::Command(h)],
            None => Seq::empty(),
        }
    }

    /// The result of handling the command of the matches, of what its calls gave (see
    /// `fn_run_result` of the handler set reached)
    pub open spec fn cmd_run_result(
        self,
        m: Matches,
        outs: Seq<Result<Option<C::Value>, ExecError<C>>>,
        r: Result<C::Value, ExecError<C>>,
    ) -> bool {
        self.cmd_target(m).fn_run_result(outs, r)
    }

    /// The result of a command of this handler set, of what its calls gave: the error with
    /// which they stopped; otherwise the value of its command function, or, where it has none,
    /// the arguments' `cmd_ok`
    pub open spec fn fn_run_result(
        self,
        outs: Seq<Result<Option<C::Value>, ExecError<C>>>,
        r: Result<C::Value, ExecError<C>>,
    ) -> bool {
        match run_error::<C>(outs) {
            Some(e) => r == Err::<C::Value, ExecError<C>>(e),
            None => if self.handler_fn() is Some {
                outs.len() > 0 && (outs.last() matches Ok(Some(v)) && r == Ok::<C::Value, ExecError<C>>(v))
            } else {
                exists|res: Result<C::Value, C::Error>|
                    #![trigger call_ensures(C::cmd_ok, (), res)]
                    call_ensures(C::cmd_ok, (), res) && r == Self::command_result(res)
            },
        }
    }

    /// The arguments of the matches that have functions were all handled: each function
    /// returned success
    pub open spec fn args_handled(self, m: Matches) -> bool {
        forall|k: int|
            #![trigger self.present_args(m)[k]]
            0 <= k < self.present_args(m).len() ==> arg_called(
                self.arg_fns()[self.present_args(m)[k]].1,
                m,
                Ok(()),
            )
    }

    /// The handling of the arguments of the matches stopped at a function that returned the
    /// error, all those before it having returned success
    pub open spec fn args_failed(self, m: Matches, e: ExecError<C>) -> bool {
        exists|k: int|
            #![trigger self.present_args(m)[k]]
            0 <= k < self.present_args(m).len() && arg_called(
                self.arg_fns()[self.present_args(m)[k]].1,
                m,
                Err(e),
            ) && forall|j: int| 0 <= j < k ==> arg_called(
                self.arg_fns()[self.present_args(m)[j]].1,
                m,
                Ok(()),
            )
    }

    /// What handling the command of the matches may give: without a subcommand, the result of
    /// the command function (or the arguments' `cmd_ok` where there is none); with one, the
    /// subcommand's handler set handles its arguments, an error of theirs being the result, and
    /// then the command of the subcommand's matches in the same way
    pub open spec fn cmd_outcome(self, m: Matches, r: Result<C::Value, ExecError<C>>) -> bool
        decreases m,
    {
        match m.subcommand {
            None => match self.handler_fn() {
                Some(h) => exists|c: &mut C, res: Result<C::Value, C::Error>|
                    #![trigger h.ensures((c,), res)]
                    h.ensures((c,), res) && r == Self::command_result(res),
                None => exists|res: Result<C::Value, C::Error>|
                    #![trigger call_ensures(C::cmd_ok, (), res)]
                    call_ensures(C::cmd_ok, (), res) && r == Self::command_result(res),
            },
            Some((name, sm)) => match self.sub_handler(name@) {
                Some(h) => (r matches Err(e) && h.args_failed(*sm, e)) || (h.args_handled(*sm)
                    && h.cmd_outcome(*sm, r)),
                None => false,
            },
        }
    }

    /// A subcommand is handled by the handler set registered under its name: where the matches
    /// give the subcommand, with no subcommand of its own and none of its arguments having
    /// functions there, handling the matches gives what the registered command function gives
    pub proof fn lemma_subcommand_runs_its_handler(self, m: Matches, h: Self, r: Result<C::Value, ExecError<C>>)
        requires
            m.subcommand matches Some((n, sm)) && self.sub_handler(n@) == Some(h)
                && sm.subcommand is None && h.present_args(*sm).len() == 0,
            h.handler_fn() is Some,
            self.cmd_outcome(m, r),
        ensures
            exists|c: &mut C, res: Result<C::Value, C::Error>|
                #![trigger h.handler_fn()->Some_0.ensures((c,), res)]
                h.handler_fn()->Some_0.ensures((c,), res) && r == Self::command_result(res),
    {
        let sm = *m.subcommand->Some_0.1;
        assert(!h.args_failed(sm, r->Err_0));
        assert(h.cmd_outcome(sm, r));
    }

    /// Execute the command function of this handler set; without one, the arguments' `cmd_ok`
    fn execute_cmd(&self, cmd_args: &mut C) -> (r: Result<C::Value, ExecError<C>>)
        requires
            self.callable(),
        ensures
            r matches Err(e) ==> e is Exec,
            self.handler_fn() matches Some(h) ==> exists|c: &mut C, res: Result<C::Value, C::Error>|
                #![trigger h.ensures((c,), res)]
                *c == *old(cmd_args) && *final(c) == *final(cmd_args) && h.ensures((c,), res)
                    && r == Self::command_result(res),
            self.handler_fn() is None ==> *final(cmd_args) == *old(cmd_args),
            self.handler_fn() is None ==> exists|res: Result<C::Value, C::Error>|
                #![trigger call_ensures(C::cmd_ok, (), res)]
                call_ensures(C::cmd_ok, (), res) && r == Self::command_result(res),
            exists|s: Seq<C>, outs: Seq<Result<Option<C::Value>, ExecError<C>>>|
                #![trigger run_shape(self.fn_plan(), s, outs)]
                {
                    &&& run_shape(self.fn_plan(), s, outs)
                    &&& s[0] == *old(cmd_args)
                    &&& s.last() == *final(cmd_args)
                    &&& forall|i: int|
                        #![trigger in_run(outs, i)]
                        in_run(outs, i) ==> exists|c: &mut C|
                            #![trigger step_ensures(self.fn_plan()[i], c, outs[i])]
                            *c == s[i] && *final(c) == s[i + 1] && step_ensures(self.fn_plan()[i], c, outs[i])
                    &&& self.fn_run_result(outs, r)
                },
    {
        let ghost pre = *cmd_args;
        let ghost plan = self.fn_plan();
        let res = match &self.handler {
            Some(handler) => {
                let res = handler(cmd_args);
                proof {
                    let h = self.handler_fn()->Some_0;
                    assert(plan[0] == Call::<F, A, R>::Command(h));
                    assert(exists|c: &mut C|
                        #![trigger h.ensures((c,), res)]
                        *c == pre && *final(c) == *cmd_args && h.ensures((c,), res));
                    assert forall|c: &mut C|
                        #![trigger h.ensures((c,), res)]
                        h.ensures((c,), res) implies step_ensures(plan[0], c, value_out::<C>(res)) by {
                    }
                }
                res
            },
            None => C::cmd_ok(),
        };
        let ghost out = value_out::<C>(res);
        proof {
            if self.handler_fn() is Some {
                let h = self.handler_fn()->Some_0;
                assert(plan[0] == Call::<F, A, R>::Command(h));
                assert(exists|c: &mut C|
                    #![trigger h.ensures((c,), res)]
                    *c == pre && *final(c) == *cmd_args && step_ensures(plan[0], c, out));
                let s: Seq<C> = seq![pre, *cmd_args];
                let outs: Seq<Result<Option<C::Value>, ExecError<C>>> = seq![out];
                assert forall|i: int|
                    #![trigger in_run(outs, i)]
                    in_run(outs, i) implies exists|c: &mut C|
                        #![trigger step_ensures(plan[i], c, outs[i])]
                        *c == s[i] && *final(c) == s[i + 1] && step_ensures(plan[i], c, outs[i]) by {
                    assert(i == 0);
                    assert(s[0] == pre && s[1] == *cmd_args && outs[0] == out);
                }
                assert(run_shape(plan, s, outs));
                assert(outs.last() == out);
            } else {
                let s: Seq<C> = seq![pre];
                let outs: Seq<Result<Option<C::Value>, ExecError<C>>> = Seq::empty();
                assert(run_shape(plan, s, outs));
            }
        }
        match res {
            Ok(v) => Ok(v),
            Err(e) => Err(ExecError::Exec(e)),
        }
    }

    /// Execute a named subcommand of this handler set: its handler set handles the arguments
    /// and then the command of the subcommand's matches
    fn execute_sub_cmd(&self, subcommand: &str, cmd_args: &mut C, sub_matches: &Matches) -> (r: Result<C::Value, ExecError<C>>)
        requires
            self.callable(),
            self.sub_handler(subcommand@) matches Some(h) && h.routes(*sub_matches),
        ensures
            ({
                let h = self.sub_handler(subcommand@)->Some_0;
                &&& r is Ok ==> forall|k: int|
                    #![trigger h.present_args(*sub_matches)[k]]
                    0 <= k < h.present_args(*sub_matches).len() ==> arg_called(
                        h.arg_fns()[h.present_args(*sub_matches)[k]].1,
                        *sub_matches,
                        Ok(()),
                    )
                &&& (sub_matches.subcommand is None && !h.has_reset() && h.present_args(
                    *sub_matches,
                ).len() == 0 && h.handler_fn() is Some) ==> exists|
                    c: &mut C,
                    res: Result<C::Value, C::Error>,
                |
                    #![trigger h.handler_fn()->Some_0.ensures((c,), res)]
                    *c == *old(cmd_args) && *final(c) == *final(cmd_args) && h.handler_fn()->Some_0.ensures(
                        (c,),
                        res,
                    ) && r == Self::command_result(res)
                &&& (sub_matches.subcommand is None && !h.has_reset() && h.present_args(
                    *sub_matches,
                ).len() == 0 && h.handler_fn() is None) ==> *final(cmd_args) == *old(cmd_args)
                &&& (r matches Err(e) && h.args_failed(*sub_matches, e)) || (h.args_handled(
                    *sub_matches,
                ) && h.cmd_outcome(*sub_matches, r))
            }),
            exists|s: Seq<C>, outs: Seq<Result<Option<C::Value>, ExecError<C>>>|
                #![trigger run_shape((self.sub_handler(subcommand@)->Some_0.args_plan(*sub_matches) + self.sub_handler(subcommand@)->Some_0.cmd_plan(*sub_matches)), s, outs)]
                {
                    &&& run_shape((self.sub_handler(subcommand@)->Some_0.args_plan(*sub_matches) + self.sub_handler(subcommand@)->Some_0.cmd_plan(*sub_matches)), s, outs)
                    &&& s[0] == *old(cmd_args)
                    &&& s.last() == *final(cmd_args)
                    &&& forall|i: int|
                        #![trigger in_run(outs, i)]
                        in_run(outs, i) ==> exists|c: &mut C|
                            #![trigger step_ensures((self.sub_handler(subcommand@)->Some_0.args_plan(*sub_matches) + self.sub_handler(subcommand@)->Some_0.cmd_plan(*sub_matches))[i], c, outs[i])]
                            *c == s[i] && *final(c) == s[i + 1] && step_ensures((self.sub_handler(subcommand@)->Some_0.args_plan(*sub_matches) + self.sub_handler(subcommand@)->Some_0.cmd_plan(*sub_matches))[i], c, outs[i])
                    &&& self.sub_handler(subcommand@)->Some_0.cmd_run_result(*sub_matches, outs, r)
                },
        decreases *sub_matches, 2int,
    {
        let sub = match self.find_subcommand(subcommand) {
            Some(sub) => sub,
            None => vstd::pervasive::unreached(),
        };
        proof {
            lemma_first_index(names_of(self.sub_cmds@), subcommand@);
        }
        let ghost a0 = *cmd_args;
        let ghost p1 = sub.args_plan(*sub_matches);
        let ghost p2 = sub.cmd_plan(*sub_matches);
        let ra = sub.handle_args(cmd_args, sub_matches);
        let ghost a1 = *cmd_args;
        match ra {
            Ok(()) => {},
            Err(e) => {
                proof {
                    let (s1, o1) = choose|s1: Seq<C>, o1: Seq<Result<Option<C::Value>, ExecError<C>>>| {
                        &&& run_shape(p1, s1, o1)
                        &&& s1[0] == a0
                        &&& s1.last() == a1
                        &&& forall|i: int|
                            #![trigger in_run(o1, i)]
                            in_run(o1, i) ==> exists|c: &mut C|
                                #![trigger step_ensures(p1[i], c, o1[i])]
                                *c == s1[i] && *final(c) == s1[i + 1] && step_ensures(p1[i], c, o1[i])
                        &&& ra == match run_error::<C>(o1) {
                            Some(e) => Err::<(), ExecError<C>>(e),
                            None => Ok(()),
                        }
                    };
                    let p = p1 + p2;
                    assert forall|i: int|
                        #![trigger in_run(o1, i)]
                        in_run(o1, i) implies exists|c: &mut C|
                            #![trigger step_ensures(p[i], c, o1[i])]
                            *c == s1[i] && *final(c) == s1[i + 1] && step_ensures(p[i], c, o1[i]) by {
                        assert(p[i] == p1[i]);
                    }
                    assert(run_shape(p, s1, o1));
                }
                return Err(e);
            },
        }
        let r = sub.handle_cmd(cmd_args, sub_matches);
        proof {
            let (s1, o1) = choose|s1: Seq<C>, o1: Seq<Result<Option<C::Value>, ExecError<C>>>| {
                &&& run_shape(p1, s1, o1)
                &&& s1[0] == a0
                &&& s1.last() == a1
                &&& forall|i: int|
                    #![trigger in_run(o1, i)]
                    in_run(o1, i) ==> exists|c: &mut C|
                        #![trigger step_ensures(p1[i], c, o1[i])]
                        *c == s1[i] && *final(c) == s1[i + 1] && step_ensures(p1[i], c, o1[i])
                &&& ra == match run_error::<C>(o1) {
                    Some(e) => Err::<(), ExecError<C>>(e),
                    None => Ok(()),
                }
            };
            let (s2, o2) = choose|s2: Seq<C>, o2: Seq<Result<Option<C::Value>, ExecError<C>>>| {
                &&& run_shape(p2, s2, o2)
                &&& s2[0] == a1
                &&& s2.last() == *cmd_args
                &&& forall|i: int|
                    #![trigger in_run(o2, i)]
                    in_run(o2, i) ==> exists|c: &mut C|
                        #![trigger step_ensures(p2[i], c, o2[i])]
                        *c == s2[i] && *final(c) == s2[i + 1] && step_ensures(p2[i], c, o2[i])
                &&& sub.cmd_run_result(*sub_matches, o2, r)
            };
            assert(o1.len() == p1.len());
            lemma_run_concat(p1, s1, o1, p2, s2, o2);
        }
        r
    }

    /// Handle the matches for this command: when a subcommand was given, its handler set
    /// handles its arguments and then its command, else this command function is executed
    pub fn handle_cmd(&self, cmd_args: &mut C, matches: &Matches) -> (r: Result<C::Value, ExecError<C>>)
        requires
            self.callable(),
            self.routes(*matches),
        ensures
            matches.subcommand is None ==> (self.handler_fn() matches Some(h) ==> exists|
                c: &mut C,
                res: Result<C::Value, C::Error>,
            |
                #![trigger h.ensures((c,), res)]
                *c == *old(cmd_args) && *final(c) == *final(cmd_args) && h.ensures((c,), res)
                    && r == Self::command_result(res)),
            (matches.subcommand is None && self.handler_fn() is None) ==> *final(cmd_args)
                == *old(cmd_args),
            self.cmd_outcome(*matches, r),
            exists|s: Seq<C>, outs: Seq<Result<Option<C::Value>, ExecError<C>>>|
                #![trigger run_shape(self.cmd_plan(*matches), s, outs)]
                {
                    &&& run_shape(self.cmd_plan(*matches), s, outs)
                    &&& s[0] == *old(cmd_args)
                    &&& s.last() == *final(cmd_args)
                    &&& forall|i: int|
                        #![trigger in_run(outs, i)]
                        in_run(outs, i) ==> exists|c: &mut C|
                            #![trigger step_ensures(self.cmd_plan(*matches)[i], c, outs[i])]
                            *c == s[i] && *final(c) == s[i + 1] && step_ensures(self.cmd_plan(*matches)[i], c, outs[i])
                    &&& self.cmd_run_result(*matches, outs, r)
                },
        decreases *matches, 1int,
    {
        match matches.subcommand() {
            Some((subcommand, sub_matches)) => {
                proof {
                    let h = self.sub_handler(subcommand@)->Some_0;
                    assert(self.cmd_plan(*matches) == h.args_plan(*sub_matches) + h.cmd_plan(*sub_matches));
                    assert(self.cmd_target(*matches) == h.cmd_target(*sub_matches));
                }
                self.execute_sub_cmd(subcommand, cmd_args, sub_matches)
            },
            None => {
                proof {
                    assert(self.cmd_plan(*matches) == self.fn_plan());
                    assert(self.cmd_target(*matches) == self);
                }
                self.execute_cmd(cmd_args)
            },
        }
    }
}

} // verus!
