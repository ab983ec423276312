//! The variables and the result stack of batch and interactive operation, and the substitution
//! of `${...}` references to them in command text.
use std::rc::Rc;
use vstd::prelude::*;

use crate::text;
use crate::text::{first_from, parse_usize_spec};
use crate::{CommandArgs, CommandArgsValue};

verus! {

/// Why a variable reference could not be evaluated
pub enum VarFault {
    /// `{` with no closing `}`
    NoClosingBrace,
    /// a result stack of the first depth had no entry of the second number
    StackTooShallow(nat, nat),
    /// a name that is neither a variable, a key of the arguments, nor a stack depth
    Unknown(Seq<char>),
    /// `[` with no closing `]`
    Unterminated,
    /// the value has no element at the index
    NoIndex(nat),
    /// the value has no element at the key
    NoKey(Seq<char>),
}

/// Why a variable reference could not be evaluated (executable form)
pub enum VarError {
    NoClosingBrace,
    StackTooShallow(usize, usize),
    Unknown(String),
    Unterminated,
    NoIndex(usize),
    NoKey(String),
}

impl View for VarError {
    type V = VarFault;

    open spec fn view(&self) -> VarFault {
        match self {
            VarError::NoClosingBrace => VarFault::NoClosingBrace,
            VarError::StackTooShallow(d, r) => VarFault::StackTooShallow(*d as nat, *r as nat),
            VarError::Unknown(n) => VarFault::Unknown(n@),
            VarError::Unterminated => VarFault::Unterminated,
            VarError::NoIndex(n) => VarFault::NoIndex(*n as nat),
            VarError::NoKey(k) => VarFault::NoKey(k@),
        }
    }
}

/// The text of a fault, as it is reported
pub open spec fn fault_message(f: VarFault) -> Seq<char> {
    match f {
        VarFault::NoClosingBrace => "Bad variable specification - no closing '}'"@,
        VarFault::StackTooShallow(d, r) => "Result stack is only "@ + text::decimal(d)
            + " deep but requested "@ + text::decimal(r),
        VarFault::Unknown(n) => "Failed to evaluate ${"@ + n + "}"@,
        VarFault::Unterminated => "Unterminated index (no ']') in variable substitution in script"@,
        VarFault::NoIndex(n) => "Failed to get value at index "@ + text::decimal(n)
            + " of value in script"@,
        VarFault::NoKey(k) => "Failed to get key '"@ + k + "' of value in script"@,
    }
}

impl VarError {
    /// The text of the error, as it is reported
    pub fn message(&self) -> (s: String)
        ensures
            s@ == fault_message(self@),
    {
        let mut s = String::new();
        match self {
            VarError::NoClosingBrace => {
                text::append_str(&mut s, "Bad variable specification - no closing '}'");
            },
            VarError::StackTooShallow(d, r) => {
                text::append_str(&mut s, "Result stack is only ");
                text::push_decimal(&mut s, *d as u128);
                text::append_str(&mut s, " deep but requested ");
                text::push_decimal(&mut s, *r as u128);
            },
            VarError::Unknown(n) => {
                text::append_str(&mut s, "Failed to evaluate ${");
                text::append_str(&mut s, n.as_str());
                text::append_str(&mut s, "}");
            },
            VarError::Unterminated => {
                text::append_str(
                    &mut s,
                    "Unterminated index (no ']') in variable substitution in script",
                );
            },
            VarError::NoIndex(n) => {
                text::append_str(&mut s, "Failed to get value at index ");
                text::push_decimal(&mut s, *n as u128);
                text::append_str(&mut s, " of value in script");
            },
            VarError::NoKey(k) => {
                text::append_str(&mut s, "Failed to get key '");
                text::append_str(&mut s, k.as_str());
                text::append_str(&mut s, "' of value in script");
            },
        }
        assert(s@ =~= fault_message(self@));
        s
    }
}

/// The value of the first variable of the name
pub open spec fn lookup_var<V>(vars: Seq<(String, Rc<V>)>, name: Seq<char>) -> Option<V>
    decreases vars.len(),
{
    if vars.len() == 0 {
        None
    } else if vars[0].0@ == name {
        Some(*vars[0].1)
    } else {
        lookup_var(vars.drop_first(), name)
    }
}

/// No two variables share a name
pub open spec fn names_unique<V>(vars: Seq<(String, Rc<V>)>) -> bool {
    forall|i: int, j: int|
        0 <= i < vars.len() && 0 <= j < vars.len() && i != j ==> #[trigger] vars[i].0@
            != #[trigger] vars[j].0@
}

/// The variables and the stack of results
pub(crate) struct VarStore<V> {
    pub(crate) variables: Vec<(String, Rc<V>)>,
    pub(crate) history: Vec<Rc<V>>,
}

/// What a name in `${name}` stands for: a variable, else a key of the arguments, else a depth
/// into the result stack (0 being the latest result)
pub open spec fn base_value<C: CommandArgs>(
    vars: Seq<(String, Rc<C::Value>)>,
    history: Seq<Rc<C::Value>>,
    args: C,
    name: Seq<char>,
) -> Result<C::Value, VarFault> {
    match lookup_var(vars, name) {
        Some(v) => Ok(v),
        None => match args.spec_value_str(name) {
            Some(v) => Ok(v),
            None => match parse_usize_spec(name) {
                Some(k) => if k >= history.len() {
                    Err(VarFault::StackTooShallow(history.len(), k as nat))
                } else {
                    Ok(*history[history.len() - 1 - k])
                },
                None => Err(VarFault::Unknown(name)),
            },
        },
    }
}

/// Whether a key of an index group `[key]` finds an element of the value
pub open spec fn key_check<V: CommandArgsValue>(value: V, key: Seq<char>) -> Option<VarFault> {
    match parse_usize_spec(key) {
        Some(n) => if value.spec_has_index(n) {
            None
        } else {
            Some(VarFault::NoIndex(n as nat))
        },
        None => if value.spec_has_key(key) {
            None
        } else {
            Some(VarFault::NoKey(key))
        },
    }
}

/// How many characters of the index groups `[key][key]...` at the start of `t` are consumed,
/// where each key finds an element of the value; values that can be neither indexed nor keyed
/// consume none
pub open spec fn index_groups<V: CommandArgsValue>(value: V, t: Seq<char>) -> Result<
    nat,
    VarFault,
>
    decreases t.len(),
{
    if !(V::CAN_GET || V::CAN_INDEX) || t.len() == 0 || t[0] != '[' {
        Ok(0)
    } else {
        match first_from(t, 1, ']') {
            None => Err(VarFault::Unterminated),
            Some(j) => match key_check(value, t.subrange(1, j)) {
                Some(f) => Err(f),
                None => if 0 < j < t.len() {
                    match index_groups(value, t.skip(j + 1)) {
                        Ok(k) => Ok(k + (j + 1) as nat),
                        Err(f) => Err(f),
                    }
                } else {
                    Ok(0)
                },
            },
        }
    }
}

/// A variable reference `{name}[key]...` at the start of `s`: the number of characters it takes
/// and its value; text that does not start with `{` is no reference (zero characters, no value).
/// The index groups are checked but the value is that of the name itself.
pub open spec fn var_ref<C: CommandArgs>(
    vars: Seq<(String, Rc<C::Value>)>,
    history: Seq<Rc<C::Value>>,
    args: C,
    s: Seq<char>,
) -> Result<(nat, Option<C::Value>), VarFault> {
    if s.len() == 0 || s[0] != '{' {
        Ok((0, None))
    } else {
        match first_from(s, 1, '}') {
            None => Err(VarFault::NoClosingBrace),
            Some(j) => match base_value(vars, history, args, s.subrange(1, j)) {
                Err(f) => Err(f),
                Ok(v) => if 0 < j < s.len() {
                    match index_groups(v, s.skip(j + 1)) {
                        Err(f) => Err(f),
                        Ok(k) => Ok(((j + 1) as nat + k, Some(v))),
                    }
                } else {
                    Ok((0, None))
                },
            },
        }
    }
}

/// Text with each `$` that starts a variable reference replaced by the text of its value;
/// a `$` that starts no reference is kept
pub open spec fn substituted<C: CommandArgs>(
    vars: Seq<(String, Rc<C::Value>)>,
    history: Seq<Rc<C::Value>>,
    args: C,
    t: Seq<char>,
) -> Result<Seq<char>, VarFault>
    decreases t.len(),
{
    if t.len() == 0 {
        Ok(Seq::empty())
    } else if t[0] != '$' {
        match substituted(vars, history, args, t.skip(1)) {
            Ok(r) => Ok(seq![t[0]] + r),
            Err(f) => Err(f),
        }
    } else {
        match var_ref(vars, history, args, t.skip(1)) {
            Err(f) => Err(f),
            Ok((k, None)) => match substituted(vars, history, args, t.skip(1)) {
                Ok(r) => Ok(seq!['$'] + r),
                Err(f) => Err(f),
            },
            Ok((k, Some(v))) => if k <= t.len() - 1 {
                match substituted(vars, history, args, t.skip(1).skip(k as int)) {
                    Ok(r) => Ok(v.spec_value_string() + r),
                    Err(f) => Err(f),
                }
            } else {
                Err(VarFault::Unterminated)
            },
        }
    }
}



/// The characters of strings
pub open spec fn strings_view(v: Seq<String>) -> Seq<Seq<char>> {
    Seq::new(v.len(), |i: int| v[i]@)
}

/// Words with substitution applied to those marked for it, the first fault ending it
pub open spec fn substituted_words<C: CommandArgs>(
    vars: Seq<(String, Rc<C::Value>)>,
    history: Seq<Rc<C::Value>>,
    args: C,
    ws: Seq<(Seq<char>, bool)>,
) -> Result<Seq<Seq<char>>, VarFault>
    decreases ws.len(),
{
    if ws.len() == 0 {
        Ok(Seq::empty())
    } else {
        let first = if ws[0].1 {
            substituted(vars, history, args, ws[0].0)
        } else {
            Ok(ws[0].0)
        };
        match first {
            Err(f) => Err(f),
            Ok(x) => match substituted_words(vars, history, args, ws.drop_first()) {
                Ok(r) => Ok(seq![x] + r),
                Err(f) => Err(f),
            },
        }
    }
}

/// What parsing a command line gives: its words (see `words_of`), substituted
pub open spec fn parsed_line<C: CommandArgs>(
    vars: Seq<(String, Rc<C::Value>)>,
    history: Seq<Rc<C::Value>>,
    args: C,
    l: Seq<char>,
) -> Result<Seq<Seq<char>>, VarFault> {
    substituted_words(vars, history, args, crate::tokens::words_of(l))
}


/// The values that a stack of shared values holds
pub open spec fn values_of<V>(h: Seq<Rc<V>>) -> Seq<V> {
    Seq::new(h.len(), |i: int| *h[i])
}

/// The stack after a command's result: a result that is not 'NULL' replaces the top entry
/// (or becomes the only one)
pub open spec fn after_result<V: CommandArgsValue>(h: Seq<V>, result: V) -> Seq<V> {
    if result.spec_is_none() {
        h
    } else if h.len() > 0 {
        h.drop_last().push(result)
    } else {
        seq![result]
    }
}

/// The stack with its top entry copied onto it, where it has one
pub open spec fn dup_top<V>(h: Seq<V>) -> Seq<V> {
    if h.len() > 0 {
        h.push(h.last())
    } else {
        h
    }
}

/// The stack without its top entry, where it has one
pub open spec fn drop_top<V>(h: Seq<V>) -> Seq<V> {
    if h.len() > 0 {
        h.drop_last()
    } else {
        h
    }
}

/// The values that a list of texts parses to, up to the first that does not parse, and the
/// error of that one
pub open spec fn parse_values<C: CommandArgs>(vals: Seq<Seq<char>>) -> (Seq<C::Value>, Option<
    C::Error,
>)
    decreases vals.len(),
{
    if vals.len() == 0 {
        (Seq::empty(), None)
    } else {
        match C::spec_value_from_str(vals[0]) {
            Err(e) => (Seq::empty(), Some(e)),
            Ok(v) => {
                let rest = parse_values::<C>(vals.drop_first());
                (seq![v] + rest.0, rest.1)
            },
        }
    }
}

/// Whether `v[from..to]` spells `name`
pub fn chars_equal(name: &str, v: &Vec<char>, from: usize, to: usize) -> (b: bool)
    requires
        from <= to <= v@.len(),
    ensures
        b == (name@ == v@.subrange(from as int, to as int)),
{
    let n = text::chars_of(name);
    if n.len() != to - from {
        return false;
    }
    let mut i: usize = 0;
    while i < n.len()
        invariant
            n@ == name@,
            n@.len() == to - from,
            from <= to <= v@.len(),
            i <= n@.len(),
            forall|j: int| 0 <= j < i ==> n@[j] == v@[from + j],
        decreases n@.len() - i,
    {
        if n[i] != v[from + i] {
            assert(n@[i as int] != v@.subrange(from as int, to as int)[i as int]);
            return false;
        }
        i += 1;
    }
    assert(n@ =~= v@.subrange(from as int, to as int));
    true
}

/// Checks that the key `s[from..to]` of an index group finds an element of the value
fn check_key<V: CommandArgsValue>(value: &V, s: &Vec<char>, from: usize, to: usize) -> (r: Result<
    (),
    VarError,
>)
    requires
        from <= to <= s@.len(),
    ensures
        match key_check(*value, s@.subrange(from as int, to as int)) {
            None => r is Ok,
            Some(f) => r matches Err(e) && e@ == f,
        },
{
    match text::parse_usize(s, from, to) {
        Some(n) => {
            if value.index(n).is_none() {
                return Err(VarError::NoIndex(n));
            }
        },
        None => {
            let key = text::string_of_range(s, from, to);
            if value.get(key.as_str()).is_none() {
                return Err(VarError::NoKey(key));
            }
        },
    }
    Ok(())
}

impl<V> VarStore<V> {
    /// An empty store
    pub(crate) fn new() -> (r: Self)
        ensures
            r.variables@.len() == 0,
            r.history@.len() == 0,
    {
        VarStore { variables: Vec::new(), history: Vec::new() }
    }

    /// The value of the variable named `name`
    pub(crate) fn lookup(&self, name: &str) -> (r: Option<Rc<V>>)
        ensures
            r matches Some(v) ==> lookup_var(self.variables@, name@) == Some(*v),
            r is None ==> lookup_var(self.variables@, name@) is None,
    {
        let mut i: usize = 0;
        assert(self.variables@.skip(0) =~= self.variables@);
        while i < self.variables.len()
            invariant
                i <= self.variables@.len(),
                lookup_var(self.variables@, name@) == lookup_var(
                    self.variables@.skip(i as int),
                    name@,
                ),
            decreases self.variables@.len() - i,
        {
            let ghost rest = self.variables@.skip(i as int);
            assert(rest[0] == self.variables@[i as int]);
            assert(rest.drop_first() =~= self.variables@.skip(i + 1));
            if text::str_eq(self.variables[i].0.as_str(), name) {
                return Some(self.variables[i].1.clone());
            }
            i += 1;
        }
        None
    }

    /// Evaluates the variable reference that starts at `s[from]`, if one does: the position
    /// after it and its value (see `var_ref`)
    pub(crate) fn resolve<C: CommandArgs<Value = V>>(
        &self,
        args: &C,
        s: &Vec<char>,
        from: usize,
    ) -> (r: Result<(usize, Option<Rc<V>>), VarError>)
        where V: CommandArgsValue,
        requires
            from <= s@.len(),
        ensures
            match var_ref(self.variables@, self.history@, *args, s@.skip(from as int)) {
                Ok((k, o)) => r matches Ok((p, ro)) && p == from + k && (o matches Some(v)
                    ==> ro matches Some(rv) && *rv == v) && (o is None ==> ro is None),
                Err(f) => r matches Err(e) && e@ == f,
            },
    {
        let ghost t = s@.skip(from as int);
        if from >= s.len() || s[from] != '{' {
            return Ok((from, None));
        }
        assert(t[0] == s@[from as int]);
        proof {
            text::lemma_first_from_skip(s@, from as int, 1, '}');
            text::lemma_first_from(s@, from + 1, '}');
        }
        let j = match text::find_from(s, from + 1, '}') {
            None => {
                return Err(VarError::NoClosingBrace);
            },
            Some(j) => j,
        };
        let ghost jr = j - from;
        assert(t.subrange(1, jr) =~= s@.subrange(from + 1, j as int));
        let name = text::string_of_range(s, from + 1, j);
        let value: Rc<V> = match self.lookup(name.as_str()) {
            Some(v) => v,
            None => match args.value_str(name.as_str()) {
                Some(v) => Rc::new(v),
                None => match text::parse_usize(s, from + 1, j) {
                    Some(k) => {
                        let n = self.history.len();
                        if k >= n {
                            return Err(VarError::StackTooShallow(n, k));
                        }
                        self.history[n - 1 - k].clone()
                    },
                    None => {
                        return Err(VarError::Unknown(name));
                    },
                },
            },
        };
        assert(base_value(self.variables@, self.history@, *args, t.subrange(1, jr)) == Ok::<
            V,
            VarFault,
        >(*value));
        let mut p = j + 1;
        assert(t.skip(jr + 1) =~= s@.skip(p as int));
        assert(var_ref(self.variables@, self.history@, *args, s@.skip(from as int)) == (
        match index_groups(*value, s@.skip(j + 1)) {
            Err(f) => Err(f),
            Ok(k) => Ok(((j + 1 - from) as nat + k, Some(*value))),
        }));
        if V::CAN_GET || V::CAN_INDEX {
            while p < s.len() && s[p] == '['
                invariant
                    j + 1 <= p <= s@.len(),
                    from < j,
                    V::CAN_GET || V::CAN_INDEX,
                    var_ref(self.variables@, self.history@, *args, s@.skip(from as int)) == (
                    match index_groups(*value, s@.skip(j + 1)) {
                        Err(f) => Err(f),
                        Ok(k) => Ok(((j + 1 - from) as nat + k, Some(*value))),
                    }),
                    index_groups(*value, s@.skip(j + 1)) == (match index_groups(
                        *value,
                        s@.skip(p as int),
                    ) {
                        Ok(k) => Ok(k + (p - (j + 1)) as nat),
                        Err(f) => Err(f),
                    }),
                decreases s@.len() - p,
            {
                let ghost u = s@.skip(p as int);
                assert(u[0] == '[');
                proof {
                    text::lemma_first_from_skip(s@, p as int, 1, ']');
                    text::lemma_first_from(s@, p + 1, ']');
                }
                let q = match text::find_from(s, p + 1, ']') {
                    None => {
                        return Err(VarError::Unterminated);
                    },
                    Some(q) => q,
                };
                let ghost qr = q - p;
                assert(u.subrange(1, qr) =~= s@.subrange(p + 1, q as int));
                if let Err(e) = check_key(&*value, s, p + 1, q) {
                    return Err(e);
                }
                assert(u.skip(qr + 1) =~= s@.skip(q + 1));
                p = q + 1;
            }
            assert(index_groups(*value, s@.skip(p as int)) == Ok::<nat, VarFault>(0));
        } else {
            assert(index_groups(*value, s@.skip(p as int)) == Ok::<nat, VarFault>(0));
        }
        Ok((p, Some(value)))
    }


    /// Replaces each variable reference `${...}` in `s` by the text of its value
    pub(crate) fn substitute<C: CommandArgs<Value = V>>(&self, args: &C, s: &str) -> (r: Result<
        String,
        VarError,
    >)
        where V: CommandArgsValue,
        ensures
            match substituted(self.variables@, self.history@, *args, s@) {
                Ok(x) => r matches Ok(o) && o@ == x,
                Err(f) => r matches Err(e) && e@ == f,
            },
    {
        let t = text::chars_of(s);
        let mut out = String::new();
        let mut i: usize = 0;
        assert(t@.skip(0) =~= t@);
        while i < t.len()
            invariant
                t@ == s@,
                i <= t@.len(),
                match substituted(self.variables@, self.history@, *args, t@.skip(i as int)) {
                    Ok(x) => substituted(self.variables@, self.history@, *args, t@) == Ok::<
                        Seq<char>,
                        VarFault,
                    >(out@ + x),
                    Err(f) => substituted(self.variables@, self.history@, *args, t@) == Err::<
                        Seq<char>,
                        VarFault,
                    >(f),
                },
            decreases t@.len() - i,
        {
            let ghost u = t@.skip(i as int);
            assert(u[0] == t@[i as int]);
            assert(u.skip(1) =~= t@.skip(i + 1));
            let c = t[i];
            if c != '$' {
                let ghost before = out@;
                text::string_push(&mut out, c);
                assert(before + seq![c] =~= out@);
                proof {
                    match substituted(self.variables@, self.history@, *args, t@.skip(i + 1)) {
                        Ok(x) => {
                            assert(before + (seq![c] + x) =~= out@ + x);
                        },
                        Err(f) => {},
                    }
                }
                i += 1;
            } else {
                proof {
                    lemma_var_ref_bound(self.variables@, self.history@, *args, t@.skip(i + 1));
                }
                match self.resolve(args, &t, i + 1) {
                    Err(e) => {
                        return Err(e);
                    },
                    Ok((p, None)) => {
                        let ghost before = out@;
                        text::string_push(&mut out, '$');
                        proof {
                            match substituted(
                                self.variables@,
                                self.history@,
                                *args,
                                t@.skip(i + 1),
                            ) {
                                Ok(x) => {
                                    assert(before + (seq!['$'] + x) =~= out@ + x);
                                },
                                Err(f) => {},
                            }
                        }
                        i += 1;
                    },
                    Ok((p, Some(v))) => {
                        let ghost before = out@;
                        let vs = v.value_string();
                        text::append_str(&mut out, vs.as_str());
                        let ghost k = (p - (i + 1)) as int;
                        assert(t@.skip(i + 1).skip(k) =~= t@.skip(p as int));
                        proof {
                            match substituted(
                                self.variables@,
                                self.history@,
                                *args,
                                t@.skip(p as int),
                            ) {
                                Ok(x) => {
                                    assert(before + ((*v).spec_value_string() + x) =~= out@ + x);
                                },
                                Err(f) => {},
                            }
                        }
                        i = p;
                    },
                }
            }
        }
        assert(t@.skip(i as int) =~= Seq::<char>::empty());
        assert(out@ + Seq::<char>::empty() =~= out@);
        Ok(out)
    }

    /// Splits a line into words and substitutes variable references in them
    pub(crate) fn parse_line<C: CommandArgs<Value = V>>(&self, args: &C, l: &str) -> (r: Result<
        Vec<String>,
        VarError,
    >)
        where V: CommandArgsValue,
        ensures
            match parsed_line(self.variables@, self.history@, *args, l@) {
                Ok(x) => r matches Ok(v) && strings_view(v@) == x,
                Err(f) => r matches Err(e) && e@ == f,
            },
    {
        let words = crate::tokens::split_words(l);
        let ghost ws = crate::tokens::words_view(words@);
        let mut parsed: Vec<String> = Vec::new();
        let mut i: usize = 0;
        assert(ws.skip(0) =~= ws);
        assert(strings_view(parsed@) =~= Seq::<Seq<char>>::empty());
        while i < words.len()
            invariant
                ws == crate::tokens::words_view(words@),
                ws == crate::tokens::words_of(l@),
                i <= words@.len(),
                match substituted_words(self.variables@, self.history@, *args, ws.skip(i as int)) {
                    Ok(x) => substituted_words(self.variables@, self.history@, *args, ws) == Ok::<
                        Seq<Seq<char>>,
                        VarFault,
                    >(strings_view(parsed@) + x),
                    Err(f) => substituted_words(self.variables@, self.history@, *args, ws)
                        == Err::<Seq<Seq<char>>, VarFault>(f),
                },
            decreases words@.len() - i,
        {
            let ghost u = ws.skip(i as int);
            assert(u[0] == ws[i as int]);
            assert(u.drop_first() =~= ws.skip(i + 1));
            let ghost before = strings_view(parsed@);
            let w = if words[i].1 {
                match self.substitute(args, words[i].0.as_str()) {
                    Ok(w) => w,
                    Err(e) => {
                        return Err(e);
                    },
                }
            } else {
                words[i].0.clone()
            };
            parsed.push(w);
            assert(strings_view(parsed@) =~= before.push(w@));
            proof {
                match substituted_words(self.variables@, self.history@, *args, ws.skip(i + 1)) {
                    Ok(x) => {
                        assert(before + (seq![w@] + x) =~= strings_view(parsed@) + x);
                    },
                    Err(f) => {},
                }
            }
            i += 1;
        }
        assert(ws.skip(i as int) =~= Seq::<(Seq<char>, bool)>::empty());
        assert(strings_view(parsed@) + Seq::<Seq<char>>::empty() =~= strings_view(parsed@));
        Ok(parsed)
    }

    /// Sets a variable: its value is replaced if it exists, and it is added otherwise
    pub(crate) fn set_variable(&mut self, name: String, value: Rc<V>)
        requires
            names_unique(old(self).variables@),
        ensures
            names_unique(final(self).variables@),
            lookup_var(final(self).variables@, name@) == Some(*value),
            forall|n: Seq<char>|
                n != name@ ==> lookup_var(final(self).variables@, n) == lookup_var(
                    old(self).variables@,
                    n,
                ),
            final(self).history@ == old(self).history@,
    {
        let ghost old_vars = self.variables@;
        let mut i: usize = 0;
        while i < self.variables.len()
            invariant
                self.variables@ == old_vars,
                old_vars == old(self).variables@,
                self.history@ == old(self).history@,
                i <= old_vars.len(),
                names_unique(old_vars),
                forall|j: int| 0 <= j < i ==> old_vars[j].0@ != name@,
            decreases old_vars.len() - i,
        {
            if text::str_eq(self.variables[i].0.as_str(), name.as_str()) {
                let ghost entry = (name, value);
                self.variables.set(i, (name, value));
                proof {
                    lemma_lookup_replace(old_vars, i as int, entry);
                }
                return;
            }
            i += 1;
        }
        let ghost entry = (name, value);
        self.variables.push((name, value));
        proof {
            lemma_lookup_append(old_vars, entry);
        }
    }

    /// Records the result of a command on the stack: unless it is 'NULL' it replaces the top entry
    pub(crate) fn executed_result(&mut self, result: Rc<V>)
        where V: CommandArgsValue,
        ensures
            values_of(final(self).history@) == after_result(values_of(old(self).history@), *result),
            final(self).variables@ == old(self).variables@,
    {
        if !result.is_none() {
            let ghost h = self.history@;
            if !self.history.is_empty() {
                self.history.pop();
            }
            self.history.push(result);
            assert(values_of(self.history@) =~= after_result(values_of(h), *result));
        }
    }

    /// Copies the top entry of the stack onto it, if there is one
    pub(crate) fn push_top_copy(&mut self)
        ensures
            values_of(final(self).history@) == dup_top(values_of(old(self).history@)),
            final(self).variables@ == old(self).variables@,
    {
        let ghost h = self.history@;
        let n = self.history.len();
        if n > 0 {
            let top = self.history[n - 1].clone();
            self.history.push(top);
        }
        assert(values_of(self.history@) =~= dup_top(values_of(h)));
    }

    /// `stack_push`: with texts, replaces the top entry by their values and copies the last onto
    /// the stack; a text that does not parse stops it with its error, after the values before it
    /// were pushed. With none, copies the top entry onto the stack.
    pub(crate) fn stack_push<C: CommandArgs<Value = V>>(&mut self, values: Option<&Vec<String>>) -> (r: Result<(), C::Error>)
        where V: CommandArgsValue,
        ensures
            final(self).variables@ == old(self).variables@,
            match values {
                None => r is Ok && values_of(final(self).history@) == dup_top(values_of(old(self).history@)),
                Some(vals) => {
                    let p = parse_values::<C>(strings_view(vals@));
                    let base = drop_top(values_of(old(self).history@)) + p.0;
                    match p.1 {
                        None => r is Ok && values_of(final(self).history@) == dup_top(base),
                        Some(e) => r == Err::<(), C::Error>(e) && values_of(final(self).history@) == base,
                    }
                },
            },
    {
        match values {
            None => {
                self.push_top_copy();
                Ok(())
            },
            Some(vals) => {
                let ghost h = values_of(self.history@);
                let ghost vs = strings_view(vals@);
                if !self.history.is_empty() {
                    self.history.pop();
                }
                assert(values_of(self.history@) =~= drop_top(h));
                let mut i: usize = 0;
                assert(vs.skip(0) =~= vs);
                while i < vals.len()
                    invariant
                        vs == strings_view(vals@),
                        values == Some(vals),
                        h == values_of(old(self).history@),
                        i <= vals@.len(),
                        self.variables@ == old(self).variables@,
                        ({
                            let p = parse_values::<C>(vs);
                            let q = parse_values::<C>(vs.skip(i as int));
                            &&& p.0 == values_of(self.history@).skip(drop_top(h).len() as int) + q.0
                            &&& p.1 == q.1
                            &&& values_of(self.history@).take(drop_top(h).len() as int) == drop_top(h)
                            &&& values_of(self.history@).len() >= drop_top(h).len()
                        }),
                    decreases vals@.len() - i,
                {
                    let ghost hv = values_of(self.history@);
                    let ghost u = vs.skip(i as int);
                    assert(u[0] == vals@[i as int]@);
                    assert(u.drop_first() =~= vs.skip(i + 1));
                    match C::value_from_str(vals[i].as_str()) {
                        Err(e) => {
                            assert(values_of(self.history@) =~= drop_top(h) + parse_values::<C>(vs).0);
                            return Err(e);
                        },
                        Ok(v) => {
                            self.history.push(Rc::new(v));
                            assert(values_of(self.history@) =~= hv.push(v));
                            assert(values_of(self.history@).skip(drop_top(h).len() as int) =~= hv.skip(drop_top(h).len() as int).push(v));
                            assert(values_of(self.history@).take(drop_top(h).len() as int) =~= hv.take(drop_top(h).len() as int));
                            assert(hv.skip(drop_top(h).len() as int) + (seq![v] + parse_values::<C>(vs.skip(i + 1)).0) =~= hv.skip(drop_top(h).len() as int).push(v) + parse_values::<C>(vs.skip(i + 1)).0);
                        },
                    }
                    i += 1;
                }
                assert(vs.skip(i as int) =~= Seq::<Seq<char>>::empty());
                assert(values_of(self.history@) =~= drop_top(h) + parse_values::<C>(vs).0);
                self.push_top_copy();
                Ok(())
            },
        }
    }

    /// `stack_clear`: keeps only the bottom entry of the stack
    pub(crate) fn stack_clear(&mut self)
        ensures
            values_of(final(self).history@) == (if old(self).history@.len() > 1 {
                values_of(old(self).history@).take(1)
            } else {
                values_of(old(self).history@)
            }),
            final(self).variables@ == old(self).variables@,
    {
        let ghost h = self.history@;
        if self.history.len() > 1 {
            self.history.truncate(1);
        }
        assert(values_of(self.history@) =~= (if h.len() > 1 {
            values_of(h).take(1)
        } else {
            values_of(h)
        }));
    }

    /// `stack_pop`: takes the second entry from the bottom of the stack, where there is one
    pub(crate) fn stack_pop(&mut self) -> (r: Option<Rc<V>>)
        ensures
            old(self).history@.len() > 1 ==> (r matches Some(v) && *v == *old(self).history@[1]
                && values_of(final(self).history@) == values_of(old(self).history@).remove(1)),
            old(self).history@.len() <= 1 ==> r is None && final(self).history@ == old(
                self,
            ).history@,
            final(self).variables@ == old(self).variables@,
    {
        let ghost h = self.history@;
        if self.history.len() > 1 {
            let v = self.history.remove(1);
            assert(values_of(self.history@) =~= values_of(h).remove(1));
            Some(v)
        } else {
            None
        }
    }

    /// Removes all the variables
    pub(crate) fn clear_variables(&mut self)
        ensures
            final(self).variables@.len() == 0,
            names_unique(final(self).variables@),
            final(self).history@ == old(self).history@,
    {
        self.variables.clear();
    }

    /// Removes the bottom entry of the stack, where there is one
    pub(crate) fn take_bottom(&mut self) -> (r: Option<Rc<V>>)
        ensures
            old(self).history@.len() > 0 ==> (r matches Some(v) && *v == *old(self).history@[0]
                && values_of(final(self).history@) == values_of(old(self).history@).drop_first()),
            old(self).history@.len() == 0 ==> r is None && final(self).history@ == old(
                self,
            ).history@,
            final(self).variables@ == old(self).variables@,
    {
        let ghost h = self.history@;
        if self.history.len() > 0 {
            let v = self.history.remove(0);
            assert(values_of(self.history@) =~= values_of(h).drop_first());
            Some(v)
        } else {
            None
        }
    }
}


proof fn lemma_lookup_replace<V>(vars: Seq<(String, Rc<V>)>, i: int, entry: (String, Rc<V>))
    requires
        0 <= i < vars.len(),
        names_unique(vars),
        vars[i].0@ == entry.0@,
    ensures
        names_unique(vars.update(i, entry)),
        lookup_var(vars.update(i, entry), entry.0@) == Some(*entry.1),
        forall|n: Seq<char>|
            n != entry.0@ ==> lookup_var(vars.update(i, entry), n) == lookup_var(vars, n),
    decreases vars.len(),
{
    let u = vars.update(i, entry);
    assert forall|a: int, b: int|
        0 <= a < u.len() && 0 <= b < u.len() && a != b implies #[trigger] u[a].0@ != #[trigger] u[b].0@ by {
        assert(vars[a].0@ != vars[b].0@);
    }
    if i == 0 {
        assert(u.drop_first() =~= vars.drop_first());
    } else {
        assert(u.drop_first() =~= vars.drop_first().update(i - 1, entry));
        assert(names_unique(vars.drop_first())) by {
            assert forall|a: int, b: int|
                0 <= a < vars.drop_first().len() && 0 <= b < vars.drop_first().len() && a != b implies #[trigger] vars.drop_first()[a].0@ != #[trigger] vars.drop_first()[b].0@ by {
                assert(vars[a + 1].0@ != vars[b + 1].0@);
            }
        }
        lemma_lookup_replace(vars.drop_first(), i - 1, entry);
        assert(vars[0].0@ != entry.0@);
    }
    assert forall|n: Seq<char>| n != entry.0@ implies lookup_var(u, n) == lookup_var(vars, n) by {
        if i == 0 {
            assert(u[0].0@ == entry.0@);
            assert(vars[0].0@ == entry.0@);
            assert(lookup_var(u, n) == lookup_var(u.drop_first(), n));
            assert(lookup_var(vars, n) == lookup_var(vars.drop_first(), n));
        } else {
            assert(u[0] == vars[0]);
            if vars[0].0@ != n {
                assert(lookup_var(u, n) == lookup_var(u.drop_first(), n));
                assert(lookup_var(vars, n) == lookup_var(vars.drop_first(), n));
            }
        }
    }
}

proof fn lemma_lookup_append<V>(vars: Seq<(String, Rc<V>)>, entry: (String, Rc<V>))
    requires
        names_unique(vars),
        forall|j: int| 0 <= j < vars.len() ==> vars[j].0@ != entry.0@,
    ensures
        names_unique(vars.push(entry)),
        lookup_var(vars.push(entry), entry.0@) == Some(*entry.1),
        forall|n: Seq<char>| n != entry.0@ ==> lookup_var(vars.push(entry), n) == lookup_var(vars, n),
    decreases vars.len(),
{
    let u = vars.push(entry);
    assert forall|a: int, b: int|
        0 <= a < u.len() && 0 <= b < u.len() && a != b implies #[trigger] u[a].0@ != #[trigger] u[b].0@ by {
        if a < vars.len() && b < vars.len() {
            assert(vars[a].0@ != vars[b].0@);
        }
    }
    if vars.len() > 0 {
        assert(u.drop_first() =~= vars.drop_first().push(entry));
        assert(names_unique(vars.drop_first())) by {
            assert forall|a: int, b: int|
                0 <= a < vars.drop_first().len() && 0 <= b < vars.drop_first().len() && a != b implies #[trigger] vars.drop_first()[a].0@ != #[trigger] vars.drop_first()[b].0@ by {
                assert(vars[a + 1].0@ != vars[b + 1].0@);
            }
        }
        assert forall|j: int| 0 <= j < vars.drop_first().len() implies vars.drop_first()[j].0@ != entry.0@ by {
            assert(vars[j + 1].0@ != entry.0@);
        }
        lemma_lookup_append(vars.drop_first(), entry);
        assert forall|n: Seq<char>| n != entry.0@ implies lookup_var(u, n) == lookup_var(vars, n) by {
            assert(u[0] == vars[0]);
            if vars[0].0@ != n {
                assert(lookup_var(u, n) == lookup_var(u.drop_first(), n));
                assert(lookup_var(vars, n) == lookup_var(vars.drop_first(), n));
            }
        }
    } else {
        assert(u.drop_first() =~= Seq::<(String, Rc<V>)>::empty());
        assert forall|n: Seq<char>| n != entry.0@ implies lookup_var(u, n) == lookup_var(vars, n) by {
            assert(u[0] == entry);
            assert(lookup_var(u, n) == lookup_var(u.drop_first(), n));
        }
    }
}

pub proof fn lemma_index_groups_bound<V: CommandArgsValue>(value: V, t: Seq<char>)
    ensures
        index_groups(value, t) matches Ok(k) ==> k <= t.len(),
    decreases t.len(),
{
    if (V::CAN_GET || V::CAN_INDEX) && t.len() > 0 && t[0] == '[' {
        text::lemma_first_from(t, 1, ']');
        if let Some(j) = first_from(t, 1, ']') {
            if 0 < j < t.len() {
                lemma_index_groups_bound(value, t.skip(j + 1));
            }
        }
    }
}

pub proof fn lemma_var_ref_bound<C: CommandArgs>(
    vars: Seq<(String, Rc<C::Value>)>,
    history: Seq<Rc<C::Value>>,
    args: C,
    s: Seq<char>,
)
    ensures
        var_ref(vars, history, args, s) matches Ok((k, o)) ==> k <= s.len() && (o is None ==> k
            == 0),
{
    if s.len() > 0 && s[0] == '{' {
        text::lemma_first_from(s, 1, '}');
        if let Some(j) = first_from(s, 1, '}') {
            if 0 < j < s.len() {
                lemma_index_groups_bound(base_value(vars, history, args, s.subrange(1, j))->Ok_0, s.skip(j + 1));
            }
        }
    }
}


/// Substitution leaves a text that holds no `$` as it is
pub proof fn lemma_substitute_plain<C: CommandArgs>(
    vars: Seq<(String, Rc<C::Value>)>,
    history: Seq<Rc<C::Value>>,
    args: C,
    t: Seq<char>,
)
    requires
        !t.contains('$'),
    ensures
        substituted(vars, history, args, t) == Ok::<Seq<char>, VarFault>(t),
    decreases t.len(),
{
    if t.len() > 0 {
        assert(t[0] != '$');
        assert(!t.skip(1).contains('$')) by {
            if t.skip(1).contains('$') {
                let i = choose|i: int| 0 <= i < t.skip(1).len() && t.skip(1)[i] == '$';
                assert(t[i + 1] == '$');
            }
        }
        lemma_substitute_plain::<C>(vars, history, args, t.skip(1));
        assert(seq![t[0]] + t.skip(1) =~= t);
    } else {
        assert(t =~= Seq::<char>::empty());
    }
}

/// A variable reads back as the value it holds: `${name}`, for a name with no `}`, is replaced
/// by the text of the value of the variable of that name
pub proof fn lemma_read_variable<C: CommandArgs>(
    vars: Seq<(String, Rc<C::Value>)>,
    history: Seq<Rc<C::Value>>,
    args: C,
    name: Seq<char>,
    x: C::Value,
)
    requires
        lookup_var(vars, name) == Some(x),
        !name.contains('}'),
    ensures
        substituted(vars, history, args, seq!['$', '{'] + name + seq!['}'])
            == Ok::<Seq<char>, VarFault>(x.spec_value_string()),
{
    assert(base_value(vars, history, args, name) == Ok::<C::Value, VarFault>(x));
    lemma_read_reference_base::<C>(vars, history, args, name);
}

/// The latest result reads back as `${0}`, where no variable and no key of the arguments is
/// named `0`
pub proof fn lemma_read_latest<C: CommandArgs>(
    vars: Seq<(String, Rc<C::Value>)>,
    history: Seq<Rc<C::Value>>,
    args: C,
)
    requires
        history.len() > 0,
        lookup_var(vars, seq!['0']) is None,
        args.spec_value_str(seq!['0']) is None,
    ensures
        substituted(vars, history, args, seq!['$', '{', '0', '}'])
            == Ok::<Seq<char>, VarFault>((*history.last()).spec_value_string()),
{
    let name = seq!['0'];
    assert(name.drop_first().len() == 0);
    assert(text::all_digits(name));
    assert(parse_usize_spec(name) == Some(0usize)) by {
        reveal_with_fuel(text::digits_value, 2);
        assert(name.drop_last().len() == 0);
    }
    assert(base_value::<C>(vars, history, args, name) == Ok::<C::Value, VarFault>(*history.last()));
    assert(seq!['$', '{', '0', '}'] =~= seq!['$', '{'] + name + seq!['}']);
    lemma_read_reference_base::<C>(vars, history, args, name);
}

/// Substitution goes reference by reference: `${name}`, for a name with no `}` that stands for
/// a value, followed by any text that does not open an index group `[`, is replaced by the text
/// of the value followed by the substitution of the rest of the text
pub proof fn lemma_reference_then<C: CommandArgs>(
    vars: Seq<(String, Rc<C::Value>)>,
    history: Seq<Rc<C::Value>>,
    args: C,
    name: Seq<char>,
    u: Seq<char>,
)
    requires
        base_value(vars, history, args, name) is Ok,
        !name.contains('}'),
        u.len() == 0 || u[0] != '[',
    ensures
        substituted(vars, history, args, seq!['$', '{'] + name + seq!['}'] + u) == match substituted(
            vars,
            history,
            args,
            u,
        ) {
            Ok(x) => Ok::<Seq<char>, VarFault>(
                base_value(vars, history, args, name)->Ok_0.spec_value_string() + x,
            ),
            Err(f) => Err(f),
        },
{
    let x = base_value(vars, history, args, name)->Ok_0;
    let t = seq!['$', '{'] + name + seq!['}'] + u;
    let s = t.skip(1);
    assert(s =~= seq!['{'] + name + seq!['}'] + u);
    let j: int = name.len() as int + 1;
    text::lemma_first_from(s, 1, '}');
    assert forall|i: int| 1 <= i < j implies s[i] != '}' by {
        assert(s[i] == name[i - 1]);
        if s[i] == '}' {
            assert(name.contains('}'));
        }
    }
    assert(s[j] == '}');
    assert(first_from(s, 1, '}') == Some(j)) by {
        match first_from(s, 1, '}') {
            Some(i) => {
                if i < j {
                    assert(s[i] != '}');
                }
                if i > j {
                    assert(s[j] != '}');
                }
            },
            None => {
                assert(s[j] != '}');
            },
        }
    }
    assert(s.subrange(1, j) =~= name);
    assert(s.skip(j + 1) =~= u);
    assert(index_groups(x, s.skip(j + 1)) == Ok::<nat, VarFault>(0));
    assert(var_ref(vars, history, args, s) == Ok::<(nat, Option<C::Value>), VarFault>(((j + 1) as nat, Some(x))));
    assert(t.skip(1).skip(j + 1) =~= u);
}

/// A character other than `$` is kept, and the text after it is substituted on its own
pub proof fn lemma_char_then<C: CommandArgs>(
    vars: Seq<(String, Rc<C::Value>)>,
    history: Seq<Rc<C::Value>>,
    args: C,
    c: char,
    u: Seq<char>,
)
    requires
        c != '$',
    ensures
        substituted(vars, history, args, seq![c] + u) == match substituted(vars, history, args, u) {
            Ok(x) => Ok::<Seq<char>, VarFault>(seq![c] + x),
            Err(f) => Err(f),
        },
{
    assert((seq![c] + u).skip(1) =~= u);
}

/// Substitution distributes over the text that follows a variable: `${name}u`, for a
/// variable `name` with no `}` and a text `u` that does not open an index group, reads back
/// as the value of the variable followed by the substitution of `u` (so `${a}${b}` reads back
/// both values)
pub proof fn lemma_variable_then<C: CommandArgs>(
    vars: Seq<(String, Rc<C::Value>)>,
    history: Seq<Rc<C::Value>>,
    args: C,
    name: Seq<char>,
    x: C::Value,
    u: Seq<char>,
    y: Seq<char>,
)
    requires
        lookup_var(vars, name) == Some(x),
        !name.contains('}'),
        u.len() == 0 || u[0] != '[',
        substituted(vars, history, args, u) == Ok::<Seq<char>, VarFault>(y),
    ensures
        substituted(vars, history, args, seq!['$', '{'] + name + seq!['}'] + u)
            == Ok::<Seq<char>, VarFault>(x.spec_value_string() + y),
{
    assert(base_value(vars, history, args, name) == Ok::<C::Value, VarFault>(x));
    lemma_reference_then::<C>(vars, history, args, name, u);
}

/// `${name}`, for a name with no `}`, is replaced by the text of what the name stands for
proof fn lemma_read_reference_base<C: CommandArgs>(
    vars: Seq<(String, Rc<C::Value>)>,
    history: Seq<Rc<C::Value>>,
    args: C,
    name: Seq<char>,
)
    requires
        base_value(vars, history, args, name) is Ok,
        !name.contains('}'),
    ensures
        substituted(vars, history, args, seq!['$', '{'] + name + seq!['}'])
            == Ok::<Seq<char>, VarFault>(base_value(vars, history, args, name)->Ok_0.spec_value_string()),
{
    let x = base_value(vars, history, args, name)->Ok_0;
    let t = seq!['$', '{'] + name + seq!['}'];
    let s = t.skip(1);
    assert(s =~= seq!['{'] + name + seq!['}']);
    let j: int = name.len() as int + 1;
    text::lemma_first_from(s, 1, '}');
    assert forall|i: int| 1 <= i < j implies s[i] != '}' by {
        assert(s[i] == name[i - 1]);
        if s[i] == '}' {
            assert(name.contains('}'));
        }
    }
    assert(s[j] == '}');
    assert(first_from(s, 1, '}') == Some(j)) by {
        match first_from(s, 1, '}') {
            Some(i) => {
                if i < j {
                    assert(s[i] != '}');
                }
                if i > j {
                    assert(s[j] != '}');
                }
            },
            None => {
                assert(s[j] != '}');
            },
        }
    }
    assert(s.subrange(1, j) =~= name);
    assert(s.skip(j + 1).len() == 0);
    assert(index_groups(x, s.skip(j + 1)) == Ok::<nat, VarFault>(0));
    assert(var_ref(vars, history, args, s) == Ok::<(nat, Option<C::Value>), VarFault>(((j + 1) as nat, Some(x))));
    assert(t.skip(1).skip(j + 1).len() == 0);
    assert(substituted(vars, history, args, t.skip(1).skip(j + 1)) == Ok::<Seq<char>, VarFault>(Seq::empty()));
    assert(x.spec_value_string() + Seq::<char>::empty() =~= x.spec_value_string());
}

} // verus!
