//! The operand stack of a fiber.

use vstd::prelude::*;

use crate::value::Value;

verus! {

/// An operand stack; up to 256 values are stored inline.
#[verifier::external_body]
pub struct ValueStack {
    inner: smallvec::SmallVec<[Value; 256]>,
}

/// The values on a stack, bottom first.
pub uninterp spec fn stack_values(s: ValueStack) -> Seq<Value>;

impl View for ValueStack {
    type V = Seq<Value>;

    open spec fn view(&self) -> Seq<Value> {
        stack_values(*self)
    }
}

impl ValueStack {
    /// `smallvec::SmallVec::new`: an empty stack.
    #[verifier::external_body]
    pub(crate) fn new() -> (r: ValueStack)
        ensures
            stack_values(r) == Seq::<Value>::empty(),
    {
        ValueStack { inner: smallvec::SmallVec::new() }
    }

    /// `smallvec::SmallVec::push`: the value becomes the last one, the others
    /// keep their places.
    #[verifier::external_body]
    pub(crate) fn push(&mut self, v: Value)
        ensures
            stack_values(*final(self)) == stack_values(*old(self)).push(v),
    {
        self.inner.push(v);
    }

    /// `smallvec::SmallVec::len`: how many values there are.
    #[verifier::external_body]
    pub(crate) fn len(&self) -> (r: usize)
        ensures
            r == stack_values(*self).len(),
    {
        self.inner.len()
    }

    /// `smallvec::SmallVec` as a slice, read at `i`.
    #[verifier::external_body]
    pub(crate) fn get(&self, i: usize) -> (r: Value)
        requires
            i < stack_values(*self).len(),
        ensures
            r == stack_values(*self)[i as int],
    {
        self.inner[i]
    }

    /// `smallvec::SmallVec` as a mutable slice, written at `i`: the other values
    /// stay.
    #[verifier::external_body]
    pub(crate) fn set(&mut self, i: usize, v: Value)
        requires
            i < stack_values(*old(self)).len(),
        ensures
            stack_values(*final(self)) == stack_values(*old(self)).update(i as int, v),
    {
        self.inner[i] = v;
    }

    /// `smallvec::SmallVec::drain` over the full range: every value is handed
    /// out in order and the stack is left empty.
    #[verifier::external_body]
    pub(crate) fn drain(&mut self) -> (r: Vec<Value>)
        ensures
            r@ == stack_values(*old(self)),
            stack_values(*final(self)) == Seq::<Value>::empty(),
    {
        self.inner.drain(..).collect()
    }
}

} // verus!
