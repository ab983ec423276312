//! Named properties of an argument set, each with a getter and a setter.
use core::marker::PhantomData;
use vstd::prelude::*;

use crate::text;

verus! {

/// A named property of the arguments `C`, with values `V` and errors `E`.
///
/// `G` is the type of the getter and `S` that of the setter (for instance
/// `dyn Fn(&C) -> Option<V>` and `dyn Fn(&mut C, &V) -> Result<bool, E>`).
pub struct CmdProperty<'a, C, V, E, G: ?Sized, S: ?Sized> {
    pub name: &'a str,
    /// Retrieve the value of a key, in some form, from the arguments - used in batch and interactive only
    ///
    /// Return None if the value is not retrievable
    pub get_fn: &'a G,
    /// Set the value to a known value
    ///
    /// Return Ok(false) if the key is not provided by the args
    ///
    /// Return Ok(true) if the key value was set correctly
    ///
    /// Return Err() if the key was known but could not be set
    pub set_value_fn: &'a S,
    pub marker: PhantomData<(C, V, E)>,
}

impl<'a, C, V, E, G: ?Sized, S: ?Sized> CmdProperty<'a, C, V, E, G, S> {
    /// The first property of the name
    pub fn find_property<'f>(properties: &'f [Self], k: &str) -> (r: Option<&'f Self>)
        ensures
            match r {
                Some(p) => exists|i: int|
                    0 <= i < properties@.len() && properties@[i] == *p && p.name@ == k@
                        && forall|j: int| 0 <= j < i ==> (#[trigger] properties@[j]).name@ != k@,
                None => forall|i: int| 0 <= i < properties@.len() ==> (#[trigger] properties@[i]).name@ != k@,
            },
    {
        let mut i: usize = 0;
        while i < properties.len()
            invariant
                i <= properties@.len(),
                forall|j: int| 0 <= j < i ==> (#[trigger] properties@[j]).name@ != k@,
            decreases properties@.len() - i,
        {
            if text::str_eq(properties[i].name, k) {
                return Some(&properties[i]);
            }
            i += 1;
        }
        None
    }
}

} // verus!
