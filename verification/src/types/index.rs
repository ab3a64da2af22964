use vstd::prelude::*;

verus! {

/// A subtitle index number: a `u64` that is never zero.
#[derive(Debug, Clone, Copy, PartialEq, Eq, Hash, Structural)]
pub struct NonZeroU64(u64);

impl View for NonZeroU64 {
    type V = u64;

    closed spec fn view(&self) -> u64 {
        self.0
    }
}

/// The index number with value `n`.
pub closed spec fn nonzero(n: u64) -> NonZeroU64 {
    NonZeroU64(n)
}

/// An index number is determined by its value.
pub broadcast proof fn lemma_nonzero_view(x: NonZeroU64)
    ensures
        #[trigger] nonzero(x@) == x,
{
}

/// The value of `nonzero(n)` is `n`.
pub broadcast proof fn lemma_nonzero_value(n: u64)
    ensures
        #[trigger] nonzero(n)@ == n,
{
}

impl NonZeroU64 {
    #[verifier::type_invariant]
    spec fn inv(self) -> bool {
        self.0 != 0
    }

    /// Returns the index number `n`, or `None` if `n` is zero.
    pub fn new(n: u64) -> (r: Option<Self>)
        ensures
            n == 0 ==> r is None,
            n != 0 ==> r == Some(nonzero(n)),
    {
        if n == 0 {
            None
        } else {
            Some(NonZeroU64(n))
        }
    }

    /// Returns the value, which is never zero.
    pub fn get(&self) -> (n: u64)
        ensures
            n == self@,
            n != 0,
    {
        proof {
            use_type_invariant(self);
        }
        self.0
    }
}

} // verus!
