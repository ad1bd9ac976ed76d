//! Items and what holds them.
use vstd::prelude::*;

verus! {

#[derive(Debug, Copy, Clone, PartialEq, Eq, Structural)]
pub enum ItemErr {
    CannotPutInContainer,
}

pub type ItemIdx = usize;

pub type ItemResult<T> = Result<T, ItemErr>;

} // verus!
