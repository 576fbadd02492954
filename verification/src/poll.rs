//! The outcome of asking something that may not be there yet.

use vstd::prelude::*;

verus! {

#[derive(Debug)]
pub enum Poll<T> {
    Ready(T),
    Pending,
}

} // verus!
