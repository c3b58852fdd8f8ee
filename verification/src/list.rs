//! A toy singly-linked list of integers, kept for the callers of the crate's
//! demonstration program; it takes no part in the pool itself.

use vstd::prelude::*;

verus! {

/// A cons list: either one integer followed by the rest of the list, or the
/// empty list.
pub enum List {
    Cons(i32, Box<List>),
    Nil,
}

} // verus!
