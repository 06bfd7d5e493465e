//! References to indirect objects.
use vstd::prelude::*;

verus! {

/// The largest number a reference can have.
pub const MAX_REF: i32 = 0x7fff_ffff;

/// A reference to an indirect object: a number from 1 to [`MAX_REF`].
#[derive(Clone, Copy, Debug, PartialEq, Eq, Hash, Structural)]
pub struct Ref {
    id: i32,
}

impl View for Ref {
    type V = i32;

    closed spec fn view(&self) -> i32 {
        self.id
    }
}

impl Ref {
    #[verifier::type_invariant]
    spec fn positive(self) -> bool {
        self.id >= 1
    }

    /// The reference with the given number.
    pub fn new(id: i32) -> (r: Ref)
        requires
            id >= 1,
        ensures
            r@ == id,
    {
        Ref { id }
    }

    /// The number of the reference.
    pub fn get(self) -> (id: i32)
        ensures
            id == self@,
            id >= 1,
    {
        proof {
            use_type_invariant(&self);
        }
        self.id
    }

    /// The reference that follows this one.
    pub fn next(self) -> (r: Ref)
        requires
            self@ < MAX_REF,
        ensures
            r@ == self@ + 1,
    {
        proof {
            use_type_invariant(&self);
        }
        Ref { id: self.id + 1 }
    }

    /// Moves on to the following reference and returns the one held before,
    /// which makes a reference a counter that hands out each number once.
    pub fn bump(&mut self) -> (prev: Ref)
        requires
            old(self)@ < MAX_REF,
        ensures
            prev@ == old(self)@,
            final(self)@ == old(self)@ + 1,
    {
        let prev = *self;
        *self = self.next();
        prev
    }
}

} // verus!
