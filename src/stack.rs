//! The machine's operand stack, with push and depth statistics.

use vstd::prelude::*;
use crate::value::{Value, ValueModel};

verus! {

/// What a stack holds and has counted since it was last initialized.
pub struct StackModel {
    pub items: Seq<ValueModel>,
    pub pushes: nat,
    pub pops: nat,
    pub max_depth: nat,
}

/// A LIFO of values that counts pushes and pops and keeps the greatest depth
/// it has reached.
#[derive(Debug)]
pub struct Stack {
    stack: Vec<Value>,
    num_pushes: u64,
    num_pops: u64,
    max_depth: usize,
}

impl Stack {
    pub closed spec fn view(&self) -> StackModel {
        StackModel {
            items: Value::models(self.stack@),
            pushes: self.num_pushes as nat,
            pops: self.num_pops as nat,
            max_depth: self.max_depth as nat,
        }
    }

    /// Every push is either still on the stack or was popped, and the
    /// greatest depth bounds the current one.
    pub closed spec fn wf(&self) -> bool {
        &&& self.num_pushes == self.num_pops + self.stack.len()
        &&& self.max_depth >= self.stack.len()
    }

    pub proof fn lemma_wf(&self)
        requires
            self.wf(),
        ensures
            self.view().pushes == self.view().pops + self.view().items.len(),
            self.view().max_depth >= self.view().items.len(),
    {
    }

    pub fn new() -> (r: Stack)
        ensures
            r.wf(),
            r.view().items.len() == 0,
            r.view().pushes == 0,
            r.view().pops == 0,
            r.view().max_depth == 0,
    {
        Stack { stack: Vec::new(), num_pushes: 0, num_pops: 0, max_depth: 0 }
    }

    pub fn is_empty(&self) -> (r: bool)
        ensures
            r == (self.view().items.len() == 0),
    {
        self.stack.len() == 0
    }

    pub fn push(&mut self, item: Value)
        requires
            old(self).wf(),
            old(self).view().pushes < u64::MAX,
        ensures
            final(self).wf(),
            final(self).view().items == old(self).view().items.push(item.model()),
            final(self).view().pushes == old(self).view().pushes + 1,
            final(self).view().pops == old(self).view().pops,
            final(self).view().max_depth == if old(self).view().items.len() + 1
                > old(self).view().max_depth {
                old(self).view().items.len() + 1
            } else {
                old(self).view().max_depth
            },
    {
        let ghost before = self.stack@;
        self.stack.push(item);
        proof {
            assert(Value::models(self.stack@) =~= Value::models(before).push(item.model()));
        }
        self.num_pushes = self.num_pushes + 1;
        if self.stack.len() > self.max_depth {
            self.max_depth = self.stack.len();
        }
    }

    pub fn pop(&mut self) -> (r: Result<Value, &'static str>)
        requires
            old(self).wf(),
        ensures
            final(self).wf(),
            old(self).view().items.len() == 0 ==> {
                &&& r is Err
                &&& final(self).view() == old(self).view()
            },
            old(self).view().items.len() > 0 ==> {
                &&& r is Ok
                &&& r->Ok_0.model() == old(self).view().items.last()
                &&& final(self).view().items == old(self).view().items.drop_last()
                &&& final(self).view().pushes == old(self).view().pushes
                &&& final(self).view().pops == old(self).view().pops + 1
                &&& final(self).view().max_depth == old(self).view().max_depth
            },
    {
        let ghost before = self.stack@;
        match self.stack.pop() {
            Some(item) => {
                proof {
                    assert(Value::models(self.stack@) =~= Value::models(before).drop_last());
                }
                self.num_pops = self.num_pops + 1;
                Ok(item)
            },
            None => Err("Empty stack: POP"),
        }
    }

    /// Empty the stack and reset its counters.
    pub fn initialize(&mut self)
        ensures
            final(self).wf(),
            final(self).view().items.len() == 0,
            final(self).view().pushes == 0,
            final(self).view().pops == 0,
            final(self).view().max_depth == 0,
    {
        self.stack.clear();
        self.num_pushes = 0;
        self.num_pops = 0;
        self.max_depth = 0;
    }

    pub fn num_pushes(&self) -> (r: u64)
        ensures
            r == self.view().pushes,
    {
        self.num_pushes
    }

    pub fn num_pops(&self) -> (r: u64)
        ensures
            r == self.view().pops,
    {
        self.num_pops
    }

    pub fn max_depth(&self) -> (r: usize)
        ensures
            r == self.view().max_depth,
    {
        self.max_depth
    }

    pub fn curr_depth(&self) -> (r: usize)
        ensures
            r == self.view().items.len(),
    {
        self.stack.len()
    }
}

} // verus!
