//! The traits through which an application tells the library about its argument set and values.
use vstd::prelude::*;
use vstd::std_specs::cmp::PartialOrdSpec;

use crate::matches::Matches;
use crate::text;
use crate::ExecError;

verus! {

/// Whether `V`'s `PartialOrd` follows its specification
pub open spec fn obeys_order<V: PartialOrd>() -> bool {
    V::obeys_partial_cmp_spec()
}

/// The values that commands return; in batch and interactive operation they are kept on a
/// result stack and in variables, and are substituted into later commands as strings.
pub trait CommandArgsValue: Default + Sized {
    /// The value may be indexed by a number (`${name}[3]`)
    const CAN_INDEX: bool;

    /// The value may be indexed by a key (`${name}[key]`)
    const CAN_GET: bool;

    /// The text of the value, as substituted into commands (an implementation states it)
    closed spec fn spec_value_string(&self) -> Seq<char> {
        vstd::pervasive::arbitrary()
    }

    /// Whether the value is effectively 'NULL', and so is not pushed to the result stack (an
    /// implementation states it)
    closed spec fn spec_is_none(&self) -> bool {
        vstd::pervasive::arbitrary()
    }

    /// The value has an element at the index (by default it has none)
    open spec fn spec_has_index(&self, n: usize) -> bool {
        false
    }

    /// The value has an element at the key (by default it has none)
    open spec fn spec_has_key(&self, key: Seq<char>) -> bool {
        false
    }

    fn value_string(&self) -> (s: String)
        ensures
            s@ == self.spec_value_string(),
    ;

    /// Return true if the value is effectively 'NULL', so should not be pushed to the result stack
    fn is_none(&self) -> (b: bool)
        ensures
            b == self.spec_is_none(),
    ;

    /// Whether the value has no elements; a value without elements is empty
    fn is_empty(&self) -> (r: bool)
        default_ensures
            r,
    {
        true
    }

    /// The number of elements of the value, where it has elements
    fn len(&self) -> (r: Option<usize>)
        default_ensures
            r is None,
    {
        None
    }

    /// The element at an index, where there is one
    fn index(&self, n: usize) -> (r: Option<Self>)
        ensures
            r is Some <==> self.spec_has_index(n),
    ;

    /// The element at a key, where there is one
    fn get(&self, key: &str) -> (r: Option<Self>)
        ensures
            r is Some <==> self.spec_has_key(key@),
    ;

    /// The key of the element at the index, where the value has keys
    fn key(&self, n: usize) -> (r: Option<&str>)
        default_ensures
            r is None,
    {
        None
    }

    /// Whether the value is an array of elements
    fn is_array(&self) -> (r: bool)
        default_ensures
            !r,
    {
        false
    }

    /// Whether the value is a map of keys to elements
    fn is_map(&self) -> (r: bool)
        default_ensures
            !r,
    {
        false
    }
}

impl CommandArgsValue for () {
    const CAN_INDEX: bool = false;

    const CAN_GET: bool = false;

    open spec fn spec_value_string(&self) -> Seq<char> {
        Seq::empty()
    }

    open spec fn spec_is_none(&self) -> bool {
        true
    }

    fn value_string(&self) -> (s: String) {
        String::new()
    }

    fn is_none(&self) -> (b: bool) {
        true
    }

    fn index(&self, n: usize) -> (r: Option<Self>) {
        None
    }

    fn get(&self, key: &str) -> (r: Option<Self>) {
        None
    }
}

impl CommandArgsValue for String {
    const CAN_INDEX: bool = false;

    const CAN_GET: bool = false;

    open spec fn spec_value_string(&self) -> Seq<char> {
        self@
    }

    open spec fn spec_is_none(&self) -> bool {
        false
    }

    fn value_string(&self) -> (s: String) {
        self.clone()
    }

    fn is_none(&self) -> (b: bool) {
        false
    }

    fn index(&self, n: usize) -> (r: Option<Self>) {
        None
    }

    fn get(&self, key: &str) -> (r: Option<Self>) {
        None
    }
}

impl CommandArgsValue for bool {
    const CAN_INDEX: bool = false;

    const CAN_GET: bool = false;

    open spec fn spec_value_string(&self) -> Seq<char> {
        if *self {
            seq!['t', 'r', 'u', 'e']
        } else {
            seq!['f', 'a', 'l', 's', 'e']
        }
    }

    open spec fn spec_is_none(&self) -> bool {
        false
    }

    fn value_string(&self) -> (s: String) {
        if *self {
            text::string_of_chars(&vec!['t', 'r', 'u', 'e'])
        } else {
            text::string_of_chars(&vec!['f', 'a', 'l', 's', 'e'])
        }
    }

    fn is_none(&self) -> (b: bool) {
        false
    }

    fn index(&self, n: usize) -> (r: Option<Self>) {
        None
    }

    fn get(&self, key: &str) -> (r: Option<Self>) {
        None
    }
}

impl CommandArgsValue for usize {
    const CAN_INDEX: bool = false;

    const CAN_GET: bool = false;

    open spec fn spec_value_string(&self) -> Seq<char> {
        text::decimal(*self as nat)
    }

    open spec fn spec_is_none(&self) -> bool {
        false
    }

    fn value_string(&self) -> (s: String) {
        text::unsigned_to_string(*self as u128)
    }

    fn is_none(&self) -> (b: bool) {
        false
    }

    fn index(&self, n: usize) -> (r: Option<Self>) {
        None
    }

    fn get(&self, key: &str) -> (r: Option<Self>) {
        None
    }
}

impl CommandArgsValue for u64 {
    const CAN_INDEX: bool = false;

    const CAN_GET: bool = false;

    open spec fn spec_value_string(&self) -> Seq<char> {
        text::decimal(*self as nat)
    }

    open spec fn spec_is_none(&self) -> bool {
        false
    }

    fn value_string(&self) -> (s: String) {
        text::unsigned_to_string(*self as u128)
    }

    fn is_none(&self) -> (b: bool) {
        false
    }

    fn index(&self, n: usize) -> (r: Option<Self>) {
        None
    }

    fn get(&self, key: &str) -> (r: Option<Self>) {
        None
    }
}

impl CommandArgsValue for u32 {
    const CAN_INDEX: bool = false;

    const CAN_GET: bool = false;

    open spec fn spec_value_string(&self) -> Seq<char> {
        text::decimal(*self as nat)
    }

    open spec fn spec_is_none(&self) -> bool {
        false
    }

    fn value_string(&self) -> (s: String) {
        text::unsigned_to_string(*self as u128)
    }

    fn is_none(&self) -> (b: bool) {
        false
    }

    fn index(&self, n: usize) -> (r: Option<Self>) {
        None
    }

    fn get(&self, key: &str) -> (r: Option<Self>) {
        None
    }
}

impl CommandArgsValue for u16 {
    const CAN_INDEX: bool = false;

    const CAN_GET: bool = false;

    open spec fn spec_value_string(&self) -> Seq<char> {
        text::decimal(*self as nat)
    }

    open spec fn spec_is_none(&self) -> bool {
        false
    }

    fn value_string(&self) -> (s: String) {
        text::unsigned_to_string(*self as u128)
    }

    fn is_none(&self) -> (b: bool) {
        false
    }

    fn index(&self, n: usize) -> (r: Option<Self>) {
        None
    }

    fn get(&self, key: &str) -> (r: Option<Self>) {
        None
    }
}

impl CommandArgsValue for u8 {
    const CAN_INDEX: bool = false;

    const CAN_GET: bool = false;

    open spec fn spec_value_string(&self) -> Seq<char> {
        text::decimal(*self as nat)
    }

    open spec fn spec_is_none(&self) -> bool {
        false
    }

    fn value_string(&self) -> (s: String) {
        text::unsigned_to_string(*self as u128)
    }

    fn is_none(&self) -> (b: bool) {
        false
    }

    fn index(&self, n: usize) -> (r: Option<Self>) {
        None
    }

    fn get(&self, key: &str) -> (r: Option<Self>) {
        None
    }
}

impl CommandArgsValue for isize {
    const CAN_INDEX: bool = false;

    const CAN_GET: bool = false;

    open spec fn spec_value_string(&self) -> Seq<char> {
        text::signed_decimal(*self as int)
    }

    open spec fn spec_is_none(&self) -> bool {
        false
    }

    fn value_string(&self) -> (s: String) {
        text::signed_to_string(*self as i128)
    }

    fn is_none(&self) -> (b: bool) {
        false
    }

    fn index(&self, n: usize) -> (r: Option<Self>) {
        None
    }

    fn get(&self, key: &str) -> (r: Option<Self>) {
        None
    }
}

impl CommandArgsValue for i64 {
    const CAN_INDEX: bool = false;

    const CAN_GET: bool = false;

    open spec fn spec_value_string(&self) -> Seq<char> {
        text::signed_decimal(*self as int)
    }

    open spec fn spec_is_none(&self) -> bool {
        false
    }

    fn value_string(&self) -> (s: String) {
        text::signed_to_string(*self as i128)
    }

    fn is_none(&self) -> (b: bool) {
        false
    }

    fn index(&self, n: usize) -> (r: Option<Self>) {
        None
    }

    fn get(&self, key: &str) -> (r: Option<Self>) {
        None
    }
}

impl CommandArgsValue for i32 {
    const CAN_INDEX: bool = false;

    const CAN_GET: bool = false;

    open spec fn spec_value_string(&self) -> Seq<char> {
        text::signed_decimal(*self as int)
    }

    open spec fn spec_is_none(&self) -> bool {
        false
    }

    fn value_string(&self) -> (s: String) {
        text::signed_to_string(*self as i128)
    }

    fn is_none(&self) -> (b: bool) {
        false
    }

    fn index(&self, n: usize) -> (r: Option<Self>) {
        None
    }

    fn get(&self, key: &str) -> (r: Option<Self>) {
        None
    }
}

impl CommandArgsValue for i16 {
    const CAN_INDEX: bool = false;

    const CAN_GET: bool = false;

    open spec fn spec_value_string(&self) -> Seq<char> {
        text::signed_decimal(*self as int)
    }

    open spec fn spec_is_none(&self) -> bool {
        false
    }

    fn value_string(&self) -> (s: String) {
        text::signed_to_string(*self as i128)
    }

    fn is_none(&self) -> (b: bool) {
        false
    }

    fn index(&self, n: usize) -> (r: Option<Self>) {
        None
    }

    fn get(&self, key: &str) -> (r: Option<Self>) {
        None
    }
}

impl CommandArgsValue for i8 {
    const CAN_INDEX: bool = false;

    const CAN_GET: bool = false;

    open spec fn spec_value_string(&self) -> Seq<char> {
        text::signed_decimal(*self as int)
    }

    open spec fn spec_is_none(&self) -> bool {
        false
    }

    fn value_string(&self) -> (s: String) {
        text::signed_to_string(*self as i128)
    }

    fn is_none(&self) -> (b: bool) {
        false
    }

    fn index(&self, n: usize) -> (r: Option<Self>) {
        None
    }

    fn get(&self, key: &str) -> (r: Option<Self>) {
        None
    }
}

/// Trait that describes to the library the types used for argument and command functions
///
/// This should be implemented by a type that is used to hold and
/// build the arguments for the execution of commands
pub trait CommandArgs: Sized {
    /// Error type returned as an error by all argument and command functions
    type Error: From<String> + std::fmt::Display;

    /// Value type returned by commands
    type Value: CommandArgsValue;

    /// What `value_from_str` gives for a string (an implementation states it)
    closed spec fn spec_value_from_str(s: Seq<char>) -> Result<Self::Value, Self::Error> {
        vstd::pervasive::arbitrary()
    }

    /// The value of a key of the arguments, where the arguments provide one (by default none)
    open spec fn spec_value_str(&self, key: Seq<char>) -> Option<Self::Value> {
        None
    }

    fn value_from_str(s: &str) -> (r: Result<Self::Value, Self::Error>)
        ensures
            r == Self::spec_value_from_str(s@),
    ;

    /// The result of a command that has no command function of its own: by default the
    /// default value
    fn cmd_ok() -> (r: Result<Self::Value, Self::Error>)
        default_ensures
            r matches Ok(v) && call_ensures(Self::Value::default, (), v),
    {
        Ok(Self::Value::default())
    }

    /// Function invoked before every batch or interactive command to reset temporary options
    fn reset_args(&mut self) {
    }

    /// Get the keys (elements) of the arguments - used in batch and interactive only
    fn keys(&self) -> (r: Vec<String>)
        default_ensures
            r@.len() == 0,
    {
        Vec::new()
    }

    /// Retrieve the value of a key, in some form, from the arguments - used in batch and interactive only
    ///
    /// Return None if the key is not provided by the args
    fn value_str(&self, key: &str) -> (r: Option<Self::Value>)
        ensures
            r == self.spec_value_str(key@),
    ;

    /// Set the value of a key
    ///
    /// Return Ok(false) if the key is not provided by the args
    ///
    /// Return Ok(true) if the key value was set correctly
    ///
    /// Return Err() if the key was known but could not be set
    fn value_set(&mut self, key: &str, value: &Self::Value) -> (r: Result<bool, Self::Error>)
        default_ensures
            r == Ok::<bool, Self::Error>(false),
            *final(self) == *old(self),
    {
        Ok(false)
    }
}

/// Functions that reset [CommandArgs] prior to a (sub)command's arguments being handled
///
/// It can be used to reset once-only arguments; on the command line
/// this will generally have no effect, as the arguments are yet to be
/// set by argument functions; in batch mode or interactive mode this
/// may reset values that are used once only (on previous invocations)
pub trait ArgResetFn<C: CommandArgs>: Fn(&mut C) + 'static {

}

impl<C: CommandArgs, T: Fn(&mut C) + 'static> ArgResetFn<C> for T {

}

/// Functions that update [CommandArgs] with the values of an argument from the [Matches]
///
/// All argument functions are invoked in the order in which they are
/// provided to the handler set; so if one argument is required
/// and creates the main data structure for an application, and other
/// arguments modify that, then the main data structure argument
/// should be supplied first.
pub trait ArgFn<C: CommandArgs>: Fn(&mut C, &Matches) -> Result<(), ExecError<C>> + 'static {

}

impl<
    C: CommandArgs,
    T: Fn(&mut C, &Matches) -> Result<(), ExecError<C>> + 'static,
> ArgFn<C> for T {

}

/// Functions executed as a command or subcommand, after the arguments of the command have
/// been handled; their value is kept for later commands in batch and interactive operation
pub trait CommandFn<C: CommandArgs>: Fn(&mut C) -> Result<C::Value, C::Error> + 'static {

}

impl<C: CommandArgs, T: Fn(&mut C) -> Result<C::Value, C::Error> + 'static> CommandFn<C> for T {

}

} // verus!
