//! The arguments that a parse of a command line found: which argument ids are present with
//! which raw values, and which subcommand was given with its own arguments.
use vstd::prelude::*;

use crate::text;

verus! {

/// One argument found on a command line: its id and its raw values, in order
pub struct MatchArg {
    pub id: String,
    pub values: Vec<String>,
}

/// The arguments found on a command line (as clap's `ArgMatches` holds them)
pub struct Matches {
    pub args: Vec<MatchArg>,
    pub subcommand: Option<(String, Box<Matches>)>,
}

/// The position of the first argument with the id
pub open spec fn arg_pos(args: Seq<MatchArg>, id: Seq<char>) -> Option<int> {
    if exists|i: int| 0 <= i < args.len() && #[trigger] args[i].id@ == id {
        let i = choose|i: int|
            0 <= i < args.len() && #[trigger] args[i].id@ == id && forall|j: int|
                0 <= j < i ==> args[j].id@ != id;
        Some(i)
    } else {
        None
    }
}

proof fn lemma_first_exists(args: Seq<MatchArg>, id: Seq<char>)
    requires
        exists|i: int| 0 <= i < args.len() && #[trigger] args[i].id@ == id,
    ensures
        exists|i: int|
            0 <= i < args.len() && #[trigger] args[i].id@ == id && forall|j: int|
                0 <= j < i ==> args[j].id@ != id,
    decreases args.len(),
{
    let k = choose|i: int| 0 <= i < args.len() && #[trigger] args[i].id@ == id;
    if args[0].id@ == id {
        assert(forall|j: int| 0 <= j < 0 ==> args[j].id@ != id);
    } else {
        let t = args.drop_first();
        assert(t[k - 1].id@ == id);
        lemma_first_exists(t, id);
        let m = choose|i: int|
            0 <= i < t.len() && #[trigger] t[i].id@ == id && forall|j: int|
                0 <= j < i ==> t[j].id@ != id;
        assert(args[m + 1].id@ == id);
        assert forall|j: int| 0 <= j < m + 1 implies args[j].id@ != id by {
            if j > 0 {
                assert(args[j] == t[j - 1]);
            }
        }
    }
}

impl Matches {
    /// The argument ids are present
    pub open spec fn has_id(self, id: Seq<char>) -> bool {
        arg_pos(self.args@, id) is Some
    }

    /// The raw values of the first argument with the id
    pub open spec fn values_of(self, id: Seq<char>) -> Option<Seq<String>> {
        match arg_pos(self.args@, id) {
            Some(i) => Some(self.args@[i].values@),
            None => None,
        }
    }

    /// The first raw value of the argument with the id, or the empty text where it has none
    pub open spec fn first_value(self, id: Seq<char>) -> Seq<char> {
        match self.values_of(id) {
            Some(v) => if v.len() > 0 {
                v[0]@
            } else {
                Seq::empty()
            },
            None => Seq::empty(),
        }
    }

    /// Whether the flag with the id is set: its first value is the text "true"
    pub open spec fn get_flag_spec(self, id: Seq<char>) -> bool {
        self.values_of(id) matches Some(v) && v.len() > 0 && v[0]@ == "true"@
    }

    /// The raw values of the argument with the id, as texts
    pub open spec fn texts_of(self, id: Seq<char>) -> Option<Seq<Seq<char>>> {
        match self.values_of(id) {
            Some(v) => Some(Seq::new(v.len(), |i: int| v[i]@)),
            None => None,
        }
    }

    /// An empty set of matches
    pub fn new() -> (r: Self)
        ensures
            r.args@.len() == 0,
            r.subcommand is None,
    {
        Matches { args: Vec::new(), subcommand: None }
    }

    fn find(&self, id: &str) -> (r: Option<usize>)
        ensures
            r matches Some(i) ==> i < self.args@.len() && arg_pos(self.args@, id@) == Some(
                i as int,
            ),
            r is None ==> arg_pos(self.args@, id@) is None,
    {
        let mut i: usize = 0;
        while i < self.args.len()
            invariant
                i <= self.args@.len(),
                forall|j: int| 0 <= j < i ==> self.args@[j].id@ != id@,
            decreases self.args@.len() - i,
        {
            if text::str_eq(self.args[i].id.as_str(), id) {
                proof {
                    lemma_first_exists(self.args@, id@);
                    let m = choose|k: int|
                        0 <= k < self.args@.len() && #[trigger] self.args@[k].id@ == id@
                            && forall|j: int| 0 <= j < k ==> self.args@[j].id@ != id@;
                    if m < i {
                    } else if m > i {
                        assert(self.args@[i as int].id@ == id@);
                    }
                    assert(m == i);
                }
                return Some(i);
            }
            i += 1;
        }
        None
    }

    /// Whether an argument with the id is present
    pub fn contains_id(&self, id: &str) -> (r: bool)
        ensures
            r == self.has_id(id@),
    {
        self.find(id).is_some()
    }

    /// All the raw values of the argument with the id, where it is present
    pub fn get_many(&self, id: &str) -> (r: Option<&Vec<String>>)
        ensures
            match self.values_of(id@) {
                Some(v) => r matches Some(x) && x@ == v,
                None => r is None,
            },
    {
        match self.find(id) {
            Some(i) => Some(&self.args[i].values),
            None => None,
        }
    }

    /// The first raw value of the argument with the id, where it is present with one
    pub fn get_one(&self, id: &str) -> (r: Option<&String>)
        ensures
            match self.values_of(id@) {
                Some(v) => if v.len() > 0 {
                    r == Some(&v[0])
                } else {
                    r is None
                },
                None => r is None,
            },
    {
        match self.find(id) {
            Some(i) => {
                if self.args[i].values.len() > 0 {
                    Some(&self.args[i].values[0])
                } else {
                    None
                }
            },
            None => None,
        }
    }

    /// Whether the flag with the id is set: its first value is the text "true"
    pub fn get_flag(&self, id: &str) -> (r: bool)
        ensures
            r == self.get_flag_spec(id@),
    {
        match self.get_one(id) {
            Some(v) => text::str_eq(v.as_str(), "true"),
            None => false,
        }
    }

    /// The name and matches of the subcommand that was given, if one was
    pub fn subcommand(&self) -> (r: Option<(&str, &Matches)>)
        ensures
            match self.subcommand {
                Some((n, m)) => r matches Some((rn, rm)) && rn@ == n@ && *rm == *m,
                None => r is None,
            },
    {
        match &self.subcommand {
            Some((n, m)) => Some((n.as_str(), &**m)),
            None => None,
        }
    }

    /// The name of the subcommand that was given, if one was
    pub fn subcommand_name(&self) -> (r: Option<&str>)
        ensures
            match self.subcommand {
                Some((n, m)) => r matches Some(rn) && rn@ == n@,
                None => r is None,
            },
    {
        match &self.subcommand {
            Some((n, m)) => Some(n.as_str()),
            None => None,
        }
    }
}

} // verus!
