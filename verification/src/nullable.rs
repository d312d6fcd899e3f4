//! A value with an explicit null flag, so "absent" stays distinguishable
//! from any in-band default.
//!
//! Two null wrappers are equal whatever payloads they carry; a null and a
//! non-null are never equal; two non-null wrappers compare by payload.
//! Setting a value clears the flag, and nothing ever clears the payload on
//! null-ification — the old value remains but is semantically ignored.

use vstd::prelude::*;

verus! {

/// A payload plus an explicit absence flag.
pub struct Nullable<T> {
    pub value: T,
    pub nil: bool,
}

impl<T> Nullable<T> {
    /// Re-initialises the wrapper to explicit absence; the payload stays in
    /// place, semantically ignored.
    pub fn constructor(&mut self)
        ensures
            final(self).nil,
            final(self).value == old(self).value,
    {
        self.set_to_null();
    }

    /// Wraps a present value.
    pub fn from_value(value: T) -> (r: Nullable<T>)
        ensures
            !r.nil,
            r.value == value,
    {
        Nullable { value, nil: false }
    }

    /// The payload, whatever the flag says.
    pub fn get_value(&self) -> (r: &T)
        ensures
            r == &self.value,
    {
        &self.value
    }

    /// Stores a present value: the payload changes and the flag clears.
    pub fn set_value(&mut self, arg: T)
        ensures
            !final(self).nil,
            final(self).value == arg,
    {
        self.value = arg;
        self.nil = false;
    }

    /// True exactly when the wrapper holds no value.
    pub fn is_null(&self) -> (r: bool)
        ensures
            r == self.nil,
    {
        self.nil
    }

    fn set_to_null(&mut self)
        ensures
            final(self).nil,
            final(self).value == old(self).value,
    {
        self.nil = true;
    }
}

impl<T: Default> Nullable<T> {
    /// An explicitly absent wrapper around a default payload.
    pub fn from_null() -> (r: Nullable<T>)
        ensures
            r.nil,
    {
        Nullable { value: T::default(), nil: true }
    }
}

impl<T: PartialEq + vstd::std_specs::cmp::PartialEqSpec> PartialEq for Nullable<T> {
    /// Null wrappers are equal regardless of payload; a null never equals a
    /// non-null; non-null wrappers compare by payload.
    fn eq(&self, other: &Nullable<T>) -> (r: bool) {
        if self.nil {
            other.nil
        } else {
            !other.nil && self.value == other.value
        }
    }
}

impl<T: PartialEq + vstd::std_specs::cmp::PartialEqSpec> vstd::std_specs::cmp::PartialEqSpecImpl for Nullable<T> {
    open spec fn obeys_eq_spec() -> bool {
        T::obeys_eq_spec()
    }

    open spec fn eq_spec(&self, other: &Nullable<T>) -> bool {
        if self.nil {
            other.nil
        } else {
            !other.nil && self.value.eq_spec(&other.value)
        }
    }
}

} // verus!
