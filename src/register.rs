//! A single-slot cell holding one value.

use vstd::prelude::*;
use crate::value::{Value, ValueModel};

verus! {

/// The content of every register before anything is assigned to it.
pub open spec fn unassigned() -> ValueModel {
    ValueModel::Symbol(seq!['*', 'u', 'n', 'a', 's', 's', 'i', 'g', 'n', 'e', 'd', '*'])
}

/// The value `*unassigned*`.
pub fn unassigned_value() -> (r: Value)
    ensures
        r.model() == unassigned(),
{
    let s = "*unassigned*";
    proof {
        reveal_strlit("*unassigned*");
    }
    let r = Value::Symbol(s.to_string());
    proof {
        assert(r.model()->Symbol_0 =~= unassigned()->Symbol_0);
    }
    r
}

#[derive(Debug)]
pub struct Register {
    contents: Value,
}

impl Register {
    pub closed spec fn view(&self) -> ValueModel {
        self.contents.model()
    }

    pub fn new() -> (r: Register)
        ensures
            r.view() == unassigned(),
    {
        Register { contents: unassigned_value() }
    }

    pub fn get(&self) -> (r: Value)
        ensures
            r.model() == self.view(),
    {
        self.contents.copy()
    }

    pub fn set(&mut self, value: Value)
        ensures
            final(self).view() == value.model(),
    {
        self.contents = value;
    }
}

} // verus!
