//! Random names for monsters and characters.
use vstd::prelude::*;
use crate::random::choose_string;

verus! {

/// One of `names`, drawn at random.
pub fn gen(names: &[String]) -> (name: String)
    requires
        names@.len() > 0,
    ensures
        names@.contains(name),
{
    match choose_string(names) {
        Some(name) => name.clone(),
        None => {
            proof {
                assert(false);
            }
            String::new()
        },
    }
}

} // verus!
