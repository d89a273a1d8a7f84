//! How a container's capacity is known.
//!
//! There are exactly two kinds of storage: [`OwnedStorage`], whose capacity is
//! a const parameter fixed at compile time, and [`ViewStorage`], whose
//! capacity is only known at run time. The set is closed: the trait has a
//! private supertrait, so no other crate can add a third kind.
use vstd::prelude::*;

verus! {

pub(crate) trait SealedStorage {}

/// The capacity discipline of a container.
#[allow(private_bounds)]
pub trait Storage: SealedStorage {
    /// Whether a buffer of `len` slots is one this storage can describe.
    spec fn admits(len: nat) -> bool;

    /// The capacity of a buffer of this storage, given the length that was
    /// recorded for it at run time.
    fn buffer_len(recorded: usize) -> (r: usize)
        requires
            Self::admits(recorded as nat),
        ensures
            r == recorded,
    ;
}

/// Storage whose capacity is the const parameter `N`.
pub enum OwnedStorage<const N: usize> {
    /// The buffer is held inline, `N` slots long.
    Inline,
}

/// Storage whose capacity is known only at run time.
pub enum ViewStorage {
    /// The buffer is borrowed, its length read at run time.
    Borrowed,
}

impl<const N: usize> SealedStorage for OwnedStorage<N> {}

impl SealedStorage for ViewStorage {}

impl<const N: usize> Storage for OwnedStorage<N> {
    open spec fn admits(len: nat) -> bool {
        len == N
    }

    fn buffer_len(recorded: usize) -> (r: usize) {
        N
    }
}

impl Storage for ViewStorage {
    open spec fn admits(len: nat) -> bool {
        true
    }

    fn buffer_len(recorded: usize) -> (r: usize) {
        recorded
    }
}

} // verus!
