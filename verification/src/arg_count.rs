//! The number of occurrences (and the positional-ness) of a command-line argument.
use vstd::prelude::*;

use crate::clap_glue;

verus! {

/// This represents the number of arguments required for a command
///
/// There are conversion functions to make the use of this simpler.
///
/// For positional arguments, use `(Option<usize> , true)`:
///
///    * (None, true) for an optional list of any number of positional arguments
///
///    * (Some(0), true) for a single optional positional argument
///
///    * (Some(n), true) for 'n' required positional arguments
///
/// For option arguments (where '-x' or '--long_x' is required) use:
///
///    * false for an optional single option arguments
///
///    * true for a required single option arguments
///
///    * None for any number of option arguments, with no minimum number
///
///    * Some(n:usize) for up to a maximum of n option arguments
///
///    * (Some(n), false) for exactly 'n' option arguments
///
///    * (n:usize, ) for a minimum of n arguments, with no maximum number (note this is a tuple)
#[derive(Debug, Clone, Copy, PartialEq, Eq, Structural)]
pub enum ArgCount {
    /// 0 or 1, not required, Set
    Optional,
    /// 1, required, Set
    Required,
    /// exactly n, required, Append
    Exactly(usize),
    /// 0 to any number, not required, Append
    Any,
    /// 0 to max, not required, Append
    Max(usize),
    /// n to any number, required, Append
    Min(usize),
    /// a single optional positional argument
    PositionalOptional,
    /// n required positional arguments
    PositionalRequired(usize),
    /// any number of positional arguments
    PositionalAny,
}

/// How clap stores the values of an argument: kept once, or appended per occurrence
#[derive(Debug, Clone, Copy, PartialEq, Eq, Structural)]
pub enum ArgActionKind {
    SetOne,
    AppendAll,
}

impl Default for ArgCount {
    fn default() -> (r: ArgCount)
        ensures
            r == ArgCount::Optional,
    {
        ArgCount::Optional
    }
}

/// The count that `(opt_n, positional)` describes
pub open spec fn count_of_pair(opt_n: Option<usize>, positional: bool) -> ArgCount {
    match (opt_n, positional) {
        (None, true) => ArgCount::PositionalAny,
        (Some(n), true) => if n == 0 {
            ArgCount::PositionalOptional
        } else {
            ArgCount::PositionalRequired(n)
        },
        (Some(n), false) => if n == 0 {
            ArgCount::Max(0)
        } else {
            ArgCount::Exactly(n)
        },
        (None, false) => ArgCount::Any,
    }
}

/// The count that a minimum number of occurrences `(min,)` describes
pub open spec fn count_of_min(min: usize) -> ArgCount {
    if min == 0 {
        ArgCount::Any
    } else {
        ArgCount::Min(min)
    }
}

impl From<(usize,)> for ArgCount {
    fn from(v: (usize,)) -> (r: ArgCount) {
        let min = v.0;
        if min == 0 {
            ArgCount::Any
        } else {
            ArgCount::Min(min)
        }
    }
}

impl vstd::std_specs::convert::FromSpecImpl<(usize,)> for ArgCount {
    open spec fn obeys_from_spec() -> bool {
        true
    }

    open spec fn from_spec(v: (usize,)) -> ArgCount {
        count_of_min(v.0)
    }
}

impl From<bool> for ArgCount {
    fn from(required: bool) -> (r: ArgCount) {
        if required {
            ArgCount::Required
        } else {
            ArgCount::Optional
        }
    }
}

impl vstd::std_specs::convert::FromSpecImpl<bool> for ArgCount {
    open spec fn obeys_from_spec() -> bool {
        true
    }

    open spec fn from_spec(required: bool) -> ArgCount {
        if required {
            ArgCount::Required
        } else {
            ArgCount::Optional
        }
    }
}

impl From<(Option<usize>, bool)> for ArgCount {
    fn from(v: (Option<usize>, bool)) -> (r: ArgCount) {
        let (opt_n, positional) = v;
        match (opt_n, positional) {
            (None, true) => ArgCount::PositionalAny,
            (Some(0), true) => ArgCount::PositionalOptional,
            (Some(n), true) => ArgCount::PositionalRequired(n),
            (Some(0), _) => ArgCount::Max(0),
            (Some(n), _) => ArgCount::Exactly(n),
            _ => ArgCount::Any,
        }
    }
}

impl vstd::std_specs::convert::FromSpecImpl<(Option<usize>, bool)> for ArgCount {
    open spec fn obeys_from_spec() -> bool {
        true
    }

    open spec fn from_spec(v: (Option<usize>, bool)) -> ArgCount {
        count_of_pair(v.0, v.1)
    }
}


/// The value range is the one that clap makes of `min..=max` (`ValueRange::new`): the range of
/// at least `min` and at most `max` values
pub closed spec fn range_of(min: usize, max: usize, v: clap::builder::ValueRange) -> bool {
    call_ensures(clap_glue::value_range, (min, max), v)
}

impl ArgCount {
    /// Exactly `n` occurrences of an option argument; there is no count of exactly zero
    pub fn from_count(n: usize) -> (r: ArgCount)
        requires
            n != 0,
        ensures
            r == ArgCount::Exactly(n),
    {
        ArgCount::Exactly(n)
    }

    /// Up to `n` occurrences (`Some(n)`), or any number (`None`); there is no maximum of zero
    pub fn from_max(opt_n: Option<usize>) -> (r: ArgCount)
        requires
            opt_n != Some(0usize),
        ensures
            r == (match opt_n {
                Some(n) => ArgCount::Max(n),
                None => ArgCount::Any,
            }),
    {
        match opt_n {
            Some(n) => ArgCount::Max(n),
            _ => ArgCount::Any,
        }
    }

    /// The argument is positional, that is given without a tag
    pub open spec fn is_positional(self) -> bool {
        self is PositionalOptional || self is PositionalRequired || self is PositionalAny
    }

    /// The argument may be left out
    pub open spec fn is_optional(self) -> bool {
        self is Optional || self is Any || self is Max || self is PositionalOptional
            || self is PositionalAny
    }

    /// Clap keeps a single value for the argument (no appending)
    pub open spec fn is_set_action(self) -> bool {
        self is Optional || self is Required || self is PositionalOptional
            || self == ArgCount::PositionalRequired(1)
    }

    /// The inclusive bounds on the number of values that clap is told to accept,
    /// where there are any; `usize::MAX` stands for "no maximum"
    pub open spec fn value_bounds(self) -> Option<(usize, usize)> {
        match self {
            ArgCount::Exactly(n) => Some((n, n)),
            ArgCount::Min(n) => Some((n, usize::MAX as usize)),
            ArgCount::Max(n) => Some((0usize, n)),
            ArgCount::PositionalRequired(n) => if n <= 1 {
                None
            } else {
                Some((n, n))
            },
            _ => None,
        }
    }

    /// Return true if this requires a tag (e.g. --name); return false for positional arguments
    pub fn uses_tag(&self) -> (r: bool)
        ensures
            r == !self.is_positional(),
    {
        !matches!(
            self,
            ArgCount::PositionalOptional | ArgCount::PositionalRequired(_) | ArgCount::PositionalAny
        )
    }

    /// Return true if this is a required 'option'
    pub fn required(&self) -> (r: bool)
        ensures
            r == !self.is_optional(),
    {
        !matches!(
            self,
            ArgCount::Optional | ArgCount::Any | ArgCount::Max(_) | ArgCount::PositionalOptional
                | ArgCount::PositionalAny
        )
    }

    /// Set for most, Append for those with a count of tags
    pub fn action_kind(&self) -> (r: ArgActionKind)
        ensures
            r == (if self.is_set_action() {
                ArgActionKind::SetOne
            } else {
                ArgActionKind::AppendAll
            }),
    {
        match self {
            ArgCount::Optional => ArgActionKind::SetOne,
            ArgCount::Required => ArgActionKind::SetOne,
            ArgCount::PositionalOptional => ArgActionKind::SetOne,
            ArgCount::PositionalRequired(1) => ArgActionKind::SetOne,
            _ => ArgActionKind::AppendAll,
        }
    }

    /// Get the clap action required - Set for most, Append for those with a count of tags
    ///
    /// The clap value is opaque here: `action_kind` states which action is chosen.
    pub fn action(&self) -> clap::ArgAction {
        match self.action_kind() {
            ArgActionKind::SetOne => clap_glue::action_set(),
            ArgActionKind::AppendAll => clap_glue::action_append(),
        }
    }

    /// Get the inclusive bounds on the number of values, where clap is to be told them
    pub fn num_args_bounds(&self) -> (r: Option<(usize, usize)>)
        ensures
            r == self.value_bounds(),
    {
        match self {
            ArgCount::Exactly(n) => Some((*n, *n)),
            ArgCount::Min(n) => Some((*n, usize::MAX)),
            ArgCount::Max(n) => Some((0, *n)),
            ArgCount::PositionalRequired(0) => None,
            ArgCount::PositionalRequired(1) => None,
            ArgCount::PositionalRequired(n) => Some((*n, *n)),
            _ => None,
        }
    }

    /// Get the number of arguments required, as a clap value range: the range that clap makes
    /// of exactly the bounds of the count (`value_bounds`), from its least to its greatest
    /// number of values
    pub fn num_args(&self) -> (r: Option<clap::builder::ValueRange>)
        ensures
            r is Some <==> self.value_bounds() is Some,
            r matches Some(v) ==> range_of(self.value_bounds()->Some_0.0, self.value_bounds()->Some_0.1, v),
    {
        match self.num_args_bounds() {
            Some((min, max)) => Some(clap_glue::value_range(min, max)),
            None => None,
        }
    }
}

} // verus!
