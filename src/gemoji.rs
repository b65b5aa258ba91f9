//! Aliases of the GitHub emoji list.
use vstd::prelude::*;

verus! {

/// The alias under which a GitHub short name is known: the name itself.
pub fn make_alias(name: &str) -> (r: String)
    ensures
        r@ == name@,
{
    name.to_string()
}

} // verus!
