//! Fixed-capacity containers: a ring-buffer double-ended queue and a bounded
//! vector, both generic over how their capacity is known (fixed by a const
//! parameter, or only at run time through a view).
use vstd::prelude::*;

mod cells;
pub mod deque;
pub mod storage;
pub mod vec;

pub use deque::{Deque, DequeView};
pub use storage::{OwnedStorage, Storage, ViewStorage};
pub use vec::{Vec, VecView};

verus! {

} // verus!
