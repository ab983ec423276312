//! A command-line command as plain values: its name, arguments and subcommands, from which
//! clap's command is made to parse a command line.
use vstd::prelude::*;

use crate::text;

verus! {

/// How clap keeps the values of an argument
#[derive(Debug, Clone, Copy, PartialEq, Eq, Structural)]
pub enum ValueAction {
    /// one value, the last given
    SetOne,
    /// every value of every occurrence
    Append,
    /// a flag: `true` when given, `false` otherwise
    SetTrue,
}

/// An argument of a command (as `clap::Arg` describes it)
#[derive(Debug, Clone, Copy)]
pub struct ArgSpec {
    pub id: &'static str,
    pub long: Option<&'static str>,
    pub short: Option<char>,
    pub help: Option<&'static str>,
    pub required: bool,
    /// the action, where one is given (otherwise clap picks one)
    pub action: Option<ValueAction>,
    /// the inclusive bounds on the number of values, where they are given
    pub num_args: Option<(usize, usize)>,
    pub default_value: Option<&'static str>,
}

/// An argument of a command, as plain values
pub struct ArgModel {
    pub id: Seq<char>,
    pub long: Option<Seq<char>>,
    pub short: Option<char>,
    pub help: Option<Seq<char>>,
    pub required: bool,
    pub action: Option<ValueAction>,
    pub num_args: Option<(usize, usize)>,
    pub default_value: Option<Seq<char>>,
}

/// The text of an optional string
pub open spec fn opt_text(s: Option<&str>) -> Option<Seq<char>> {
    match s {
        Some(t) => Some(t@),
        None => None,
    }
}

impl View for ArgSpec {
    type V = ArgModel;

    open spec fn view(&self) -> ArgModel {
        ArgModel {
            id: self.id@,
            long: opt_text(self.long),
            short: self.short,
            help: opt_text(self.help),
            required: self.required,
            action: self.action,
            num_args: self.num_args,
            default_value: opt_text(self.default_value),
        }
    }
}

impl ArgSpec {
    /// An argument with the id: not required, with no tags, help, count or default, and the
    /// action that clap picks
    pub fn new(id: &'static str) -> (r: ArgSpec)
        ensures
            r@ == (ArgModel {
                id: id@,
                long: None,
                short: None,
                help: None,
                required: false,
                action: None,
                num_args: None,
                default_value: None,
            }),
    {
        ArgSpec {
            id,
            long: None,
            short: None,
            help: None,
            required: false,
            action: None,
            num_args: None,
            default_value: None,
        }
    }

    /// The argument with the long tag (`--long`)
    pub fn long(self, long: &'static str) -> (r: ArgSpec)
        ensures
            r@ == (ArgModel { long: Some(long@), ..self@ }),
    {
        ArgSpec { long: Some(long), ..self }
    }

    /// The argument with the short tag (`-c`)
    pub fn short(self, short: char) -> (r: ArgSpec)
        ensures
            r@ == (ArgModel { short: Some(short), ..self@ }),
    {
        ArgSpec { short: Some(short), ..self }
    }

    /// The argument with the help text
    pub fn help(self, help: &'static str) -> (r: ArgSpec)
        ensures
            r@ == (ArgModel { help: Some(help@), ..self@ }),
    {
        ArgSpec { help: Some(help), ..self }
    }

    /// The argument, required or not
    pub fn required(self, yes: bool) -> (r: ArgSpec)
        ensures
            r@ == (ArgModel { required: yes, ..self@ }),
    {
        ArgSpec { required: yes, ..self }
    }

    /// The argument with the action
    pub fn action(self, action: ValueAction) -> (r: ArgSpec)
        ensures
            r@ == (ArgModel { action: Some(action), ..self@ }),
    {
        ArgSpec { action: Some(action), ..self }
    }

    /// The argument taking from `min` to `max` values
    pub fn num_args(self, min: usize, max: usize) -> (r: ArgSpec)
        requires
            min <= max,
        ensures
            r@ == (ArgModel { num_args: Some((min, max)), ..self@ }),
    {
        ArgSpec { num_args: Some((min, max)), ..self }
    }

    /// The argument with a default value
    pub fn default_value(self, value: &'static str) -> (r: ArgSpec)
        ensures
            r@ == (ArgModel { default_value: Some(value@), ..self@ }),
    {
        ArgSpec { default_value: Some(value), ..self }
    }
}

/// A command (as `clap::Command` describes it): its name, help, settings, arguments and
/// subcommands
pub struct CommandSpec {
    pub name: &'static str,
    pub about: Option<&'static str>,
    pub no_binary_name: bool,
    pub subcommand_required: bool,
    pub args: Vec<ArgSpec>,
    pub subcommands: Vec<CommandSpec>,
}

/// A command, as plain values
pub struct CommandModel {
    pub name: Seq<char>,
    pub about: Option<Seq<char>>,
    pub no_binary_name: bool,
    pub subcommand_required: bool,
    pub args: Seq<ArgModel>,
    pub subcommands: Seq<CommandModel>,
}

impl CommandSpec {
    /// The command as plain values
    pub open spec fn model(self) -> CommandModel
        decreases self,
    {
        CommandModel {
            name: self.name@,
            about: opt_text(self.about),
            no_binary_name: self.no_binary_name,
            subcommand_required: self.subcommand_required,
            args: Seq::new(self.args@.len(), |i: int| self.args@[i]@),
            subcommands: Seq::new(
                self.subcommands@.len(),
                |i: int|
                    {
                        if 0 <= i < self.subcommands@.len() {
                            proof {
                                vstd::std_specs::vec::axiom_vec_index_decreases(self.subcommands, i);
                            }
                            self.subcommands@[i].model()
                        } else {
                            CommandModel {
                                name: Seq::empty(),
                                about: None,
                                no_binary_name: false,
                                subcommand_required: false,
                                args: Seq::empty(),
                                subcommands: Seq::empty(),
                            }
                        }
                    },
            ),
        }
    }
}

impl View for CommandSpec {
    type V = CommandModel;

    open spec fn view(&self) -> CommandModel {
        self.model()
    }
}

/// The name is one of clap's own (its help and version)
pub open spec fn clap_reserved_name(n: Seq<char>) -> bool {
    n == "help"@ || n == "version"@
}

/// An argument that clap accepts in a command: a long tag that is not clap's own and does not
/// start with `-`; a short tag that is not `-`, `h` or `V`; an ordered count; a flag is tagged
/// and takes no count; an untagged (positional) argument takes values
pub open spec fn arg_wf(a: ArgModel) -> bool {
    &&& !clap_reserved_name(a.id)
    &&& a.long matches Some(l) ==> !clap_reserved_name(l) && !(l.len() > 0 && l[0] == '-')
    &&& a.short matches Some(c) ==> c != '-' && c != 'h' && c != 'V'
    &&& a.num_args matches Some((lo, hi)) ==> lo <= hi
    &&& a.action == Some(ValueAction::SetTrue) ==> (a.num_args is None && (a.long is Some
        || a.short is Some))
    &&& (a.long is None && a.short is None) ==> (a.num_args matches Some((lo, hi)) ==> hi > 0)
}

/// The argument is positional: it has no tag
pub open spec fn is_positional(a: ArgModel) -> bool {
    a.long is None && a.short is None
}

/// Arguments that clap accepts together: each is accepted; ids, long tags and short tags are
/// not shared; of the positional arguments, a required one follows only required ones, and
/// only the last may take several values
pub open spec fn args_wf(args: Seq<ArgModel>) -> bool {
    &&& forall|i: int| 0 <= i < args.len() ==> #[trigger] arg_wf(args[i])
    &&& forall|i: int, j: int|
        #![trigger args[i], args[j]]
        0 <= i < args.len() && 0 <= j < args.len() && i != j ==> {
            &&& args[i].id != args[j].id
            &&& args[i].long is Some ==> args[i].long != args[j].long
            &&& args[i].short is Some ==> args[i].short != args[j].short
        }
    &&& forall|i: int, j: int|
        #![trigger args[i], args[j]]
        0 <= i < j < args.len() && is_positional(args[i]) && is_positional(args[j]) ==> {
            &&& args[j].required ==> args[i].required
            &&& args[i].action is None || args[i].action == Some(ValueAction::SetOne)
            &&& args[i].num_args is None
        }
}

/// A command that clap accepts (its debug checks pass): its arguments are accepted together,
/// its subcommands have distinct names other than `help`, and each is accepted in turn
pub open spec fn command_wf(c: CommandModel) -> bool
    decreases c,
{
    &&& args_wf(c.args)
    &&& forall|i: int, j: int|
        #![trigger c.subcommands[i], c.subcommands[j]]
        0 <= i < c.subcommands.len() && 0 <= j < c.subcommands.len() && i != j
            ==> c.subcommands[i].name != c.subcommands[j].name
    &&& forall|i: int|
        0 <= i < c.subcommands.len() ==> !clap_reserved_name((#[trigger] c.subcommands[i]).name)
            && command_wf(c.subcommands[i])
}

impl CommandSpec {
    /// A command of the name, with no help, settings, arguments or subcommands
    pub fn new(name: &'static str) -> (r: CommandSpec)
        ensures
            r@ == (CommandModel {
                name: name@,
                about: None,
                no_binary_name: false,
                subcommand_required: false,
                args: Seq::empty(),
                subcommands: Seq::empty(),
            }),
    {
        let r = CommandSpec {
            name,
            about: None,
            no_binary_name: false,
            subcommand_required: false,
            args: Vec::new(),
            subcommands: Vec::new(),
        };
        assert(r@.args =~= Seq::<ArgModel>::empty());
        assert(r@.subcommands =~= Seq::<CommandModel>::empty());
        r
    }

    /// The command with the help text
    pub fn about(self, about: &'static str) -> (r: CommandSpec)
        ensures
            r@ == (CommandModel { about: Some(about@), ..self@ }),
    {
        let r = CommandSpec { about: Some(about), ..self };
        assert(r@.args =~= self@.args);
        assert(r@.subcommands =~= self@.subcommands);
        r
    }

    /// The command, taking no binary name as its first word or taking one
    pub fn no_binary_name(self, yes: bool) -> (r: CommandSpec)
        ensures
            r@ == (CommandModel { no_binary_name: yes, ..self@ }),
    {
        let r = CommandSpec { no_binary_name: yes, ..self };
        assert(r@.args =~= self@.args);
        assert(r@.subcommands =~= self@.subcommands);
        r
    }

    /// The command, requiring a subcommand or not
    pub fn subcommand_required(self, yes: bool) -> (r: CommandSpec)
        ensures
            r@ == (CommandModel { subcommand_required: yes, ..self@ }),
    {
        let r = CommandSpec { subcommand_required: yes, ..self };
        assert(r@.args =~= self@.args);
        assert(r@.subcommands =~= self@.subcommands);
        r
    }

    /// The command with the argument added after its others
    pub fn arg(self, a: ArgSpec) -> (r: CommandSpec)
        ensures
            r@ == (CommandModel { args: self@.args.push(a@), ..self@ }),
    {
        let mut r = self;
        r.args.push(a);
        assert(r@.args =~= self@.args.push(a@));
        assert(r@.subcommands =~= self@.subcommands);
        r
    }

    /// The command with the subcommand added after its others
    pub fn subcommand(self, s: CommandSpec) -> (r: CommandSpec)
        ensures
            r@ == (CommandModel { subcommands: self@.subcommands.push(s@), ..self@ }),
    {
        let ghost m = s@;
        let mut r = self;
        r.subcommands.push(s);
        assert(r@.args =~= self@.args);
        assert(r@.subcommands =~= self@.subcommands.push(m));
        r
    }

    /// A copy of the command, with the same plain values
    pub fn duplicate(&self) -> (r: CommandSpec)
        ensures
            r@ == self@,
        decreases self,
    {
        let mut args: Vec<ArgSpec> = Vec::new();
        let mut i: usize = 0;
        while i < self.args.len()
            invariant
                i <= self.args@.len(),
                args@.len() == i,
                forall|j: int| 0 <= j < i ==> (#[trigger] args@[j])@ == self.args@[j]@,
            decreases self.args@.len() - i,
        {
            args.push(self.args[i]);
            i += 1;
        }
        let mut subs: Vec<CommandSpec> = Vec::new();
        let mut i: usize = 0;
        while i < self.subcommands.len()
            invariant
                i <= self.subcommands@.len(),
                subs@.len() == i,
                forall|j: int| 0 <= j < i ==> (#[trigger] subs@[j])@ == self.subcommands@[j]@,
            decreases self.subcommands@.len() - i,
        {
            proof {
                vstd::std_specs::vec::axiom_vec_index_decreases(self.subcommands, i as int);
                assert(decreases_to!(*self => self.subcommands));
            }
            subs.push(self.subcommands[i].duplicate());
            i += 1;
        }
        let r = CommandSpec {
            name: self.name,
            about: self.about,
            no_binary_name: self.no_binary_name,
            subcommand_required: self.subcommand_required,
            args,
            subcommands: subs,
        };
        assert(r@.args =~= self@.args);
        assert(r@.subcommands =~= self@.subcommands);
        r
    }
}


/// Whether the name is one of clap's own (its help and version)
fn reserved(n: &str) -> (b: bool)
    ensures
        b == clap_reserved_name(n@),
{
    proof {
        reveal_strlit("help");
        reveal_strlit("version");
    }
    text::str_eq(n, "help") || text::str_eq(n, "version")
}

/// Whether clap accepts the argument in a command (see `arg_wf`)
pub fn arg_accepted(a: &ArgSpec) -> (b: bool)
    ensures
        b == arg_wf(a@),
{
    if reserved(a.id) {
        return false;
    }
    match a.long {
        Some(l) => {
            if reserved(l) {
                return false;
            }
            let v = text::chars_of(l);
            if v.len() > 0 && v[0] == '-' {
                return false;
            }
        },
        None => {},
    }
    match a.short {
        Some(c) => {
            if c == '-' || c == 'h' || c == 'V' {
                return false;
            }
        },
        None => {},
    }
    match a.num_args {
        Some((lo, hi)) => {
            if lo > hi {
                return false;
            }
        },
        None => {},
    }
    match a.action {
        Some(ValueAction::SetTrue) => {
            if a.num_args.is_some() || (a.long.is_none() && a.short.is_none()) {
                return false;
            }
        },
        _ => {},
    }
    if a.long.is_none() && a.short.is_none() {
        match a.num_args {
            Some((_, hi)) => {
                if hi == 0 {
                    return false;
                }
            },
            None => {},
        }
    }
    true
}

/// Two optional texts are the same
fn same_opt_text(a: Option<&str>, b: Option<&str>) -> (r: bool)
    ensures
        r == (opt_text(a) == opt_text(b)),
{
    match (a, b) {
        (Some(x), Some(y)) => text::str_eq(x, y),
        (None, None) => true,
        _ => false,
    }
}

/// The arguments of the two positions do not share an id or tag, and, where both are
/// positional, the later one is required only if the earlier is, and the earlier takes one
/// value
fn pair_accepted(args: &Vec<ArgSpec>, i: usize, j: usize) -> (b: bool)
    requires
        i < j < args@.len(),
    ensures
        b == ({
            let x = args@[i as int]@;
            let y = args@[j as int]@;
            &&& x.id != y.id
            &&& x.long is Some ==> x.long != y.long
            &&& x.short is Some ==> x.short != y.short
            &&& y.long is Some ==> y.long != x.long
            &&& y.short is Some ==> y.short != x.short
            &&& (is_positional(x) && is_positional(y)) ==> {
                &&& y.required ==> x.required
                &&& x.action is None || x.action == Some(ValueAction::SetOne)
                &&& x.num_args is None
            }
        }),
{
    let x = &args[i];
    let y = &args[j];
    if text::str_eq(x.id, y.id) {
        return false;
    }
    if x.long.is_some() || y.long.is_some() {
        if same_opt_text(x.long, y.long) {
            return false;
        }
    }
    match (x.short, y.short) {
        (Some(c), Some(d)) => {
            if c == d {
                return false;
            }
        },
        _ => {},
    }
    if x.long.is_none() && x.short.is_none() && y.long.is_none() && y.short.is_none() {
        if y.required && !x.required {
            return false;
        }
        match x.action {
            Some(ValueAction::Append) => {
                return false;
            },
            Some(ValueAction::SetTrue) => {
                return false;
            },
            _ => {},
        }
        if x.num_args.is_some() {
            return false;
        }
    }
    true
}

/// The arguments as plain values
pub open spec fn arg_models(args: Seq<ArgSpec>) -> Seq<ArgModel> {
    Seq::new(args.len(), |i: int| args[i]@)
}

/// Whether clap accepts the arguments together (see `args_wf`)
pub fn args_accepted(args: &Vec<ArgSpec>) -> (b: bool)
    ensures
        b == args_wf(arg_models(args@)),
{
    let ghost m = arg_models(args@);
    let mut i: usize = 0;
    while i < args.len()
        invariant
            i <= args@.len(),
            m == arg_models(args@),
            forall|k: int| 0 <= k < i ==> arg_wf(#[trigger] m[k]),
        decreases args@.len() - i,
    {
        if !arg_accepted(&args[i]) {
            assert(!arg_wf(m[i as int]));
            return false;
        }
        i += 1;
    }
    let mut i: usize = 0;
    while i < args.len()
        invariant
            i <= args@.len(),
            m == arg_models(args@),
            forall|k: int| 0 <= k < args@.len() ==> arg_wf(#[trigger] m[k]),
            forall|p: int, q: int|
                #![trigger m[p], m[q]]
                0 <= p < i && p < q < args@.len() ==> {
                    &&& m[p].id != m[q].id
                    &&& m[p].long is Some ==> m[p].long != m[q].long
                    &&& m[p].short is Some ==> m[p].short != m[q].short
                    &&& m[q].long is Some ==> m[q].long != m[p].long
                    &&& m[q].short is Some ==> m[q].short != m[p].short
                    &&& (is_positional(m[p]) && is_positional(m[q])) ==> {
                        &&& m[q].required ==> m[p].required
                        &&& m[p].action is None || m[p].action == Some(ValueAction::SetOne)
                        &&& m[p].num_args is None
                    }
                },
        decreases args@.len() - i,
    {
        let mut j: usize = i + 1;
        while j < args.len()
            invariant
                i < args@.len(),
                i + 1 <= j <= args@.len(),
                m == arg_models(args@),
                forall|k: int| 0 <= k < args@.len() ==> arg_wf(#[trigger] m[k]),
                forall|p: int, q: int|
                    #![trigger m[p], m[q]]
                    0 <= p < i && p < q < args@.len() ==> {
                        &&& m[p].id != m[q].id
                        &&& m[p].long is Some ==> m[p].long != m[q].long
                        &&& m[p].short is Some ==> m[p].short != m[q].short
                        &&& m[q].long is Some ==> m[q].long != m[p].long
                        &&& m[q].short is Some ==> m[q].short != m[p].short
                        &&& (is_positional(m[p]) && is_positional(m[q])) ==> {
                            &&& m[q].required ==> m[p].required
                            &&& m[p].action is None || m[p].action == Some(ValueAction::SetOne)
                            &&& m[p].num_args is None
                        }
                    },
                forall|q: int|
                    #![trigger m[q]]
                    i < q < j ==> {
                        let p = i as int;
                        &&& m[p].id != m[q].id
                        &&& m[p].long is Some ==> m[p].long != m[q].long
                        &&& m[p].short is Some ==> m[p].short != m[q].short
                        &&& m[q].long is Some ==> m[q].long != m[p].long
                        &&& m[q].short is Some ==> m[q].short != m[p].short
                        &&& (is_positional(m[p]) && is_positional(m[q])) ==> {
                            &&& m[q].required ==> m[p].required
                            &&& m[p].action is None || m[p].action == Some(ValueAction::SetOne)
                            &&& m[p].num_args is None
                        }
                    },
            decreases args@.len() - j,
        {
            if !pair_accepted(args, i, j) {
                proof {
                    let x = m[i as int];
                    let y = m[j as int];
                    assert(!args_wf(m));
                }
                return false;
            }
            j += 1;
        }
        i += 1;
    }
    true
}

/// Whether clap accepts the command (see `command_wf`): its arguments together, its
/// subcommands' names distinct and not clap's own, and each subcommand in turn
pub fn accepts(c: &CommandSpec) -> (b: bool)
    ensures
        b == command_wf(c@),
    decreases c,
{
    proof {
        assert(c@.args =~= arg_models(c.args@));
    }
    if !args_accepted(&c.args) {
        return false;
    }
    let n = c.subcommands.len();
    let mut i: usize = 0;
    while i < n
        invariant
            n == c.subcommands@.len(),
            i <= n,
            c@.subcommands.len() == n,
            forall|k: int|
                0 <= k < i ==> !clap_reserved_name((#[trigger] c@.subcommands[k]).name) && command_wf(
                    c@.subcommands[k],
                ),
            forall|p: int, q: int|
                #![trigger c@.subcommands[p], c@.subcommands[q]]
                0 <= p < i && 0 <= q < n && p != q ==> c@.subcommands[p].name != c@.subcommands[q].name,
        decreases n - i,
    {
        proof {
            vstd::std_specs::vec::axiom_vec_index_decreases(c.subcommands, i as int);
            assert(decreases_to!(*c => c.subcommands));
        }
        let sub = &c.subcommands[i];
        assert(c@.subcommands[i as int] == sub@);
        if reserved(sub.name) || !accepts(sub) {
            return false;
        }
        let mut j: usize = 0;
        while j < n
            invariant
                n == c.subcommands@.len(),
                i < n,
                j <= n,
                c@.subcommands.len() == n,
                sub@ == c@.subcommands[i as int],
                forall|q: int|
                    #![trigger c@.subcommands[q]]
                    0 <= q < j && q != i ==> c@.subcommands[i as int].name != c@.subcommands[q].name,
            decreases n - j,
        {
            assert(c@.subcommands[j as int] == c.subcommands@[j as int]@);
            if j != i && text::str_eq(c.subcommands[j].name, sub.name) {
                return false;
            }
            j += 1;
        }
        i += 1;
    }
    true
}

} // verus!
