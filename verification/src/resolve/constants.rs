use vstd::prelude::*;

use crate::resolve::util::{decimal, usize_to_string};

verus! {

/// `prefix` followed by `n` in decimal.
pub open spec fn numbered(prefix: Seq<char>, n: nat) -> Seq<char> {
    prefix + decimal(n)
}

fn numbered_name(prefix: &str, n: usize) -> (r: String)
    ensures
        r@ == numbered(prefix@, n as nat),
{
    let mut r = String::from_str(prefix);
    r.append(usize_to_string(n).as_str());
    r
}

/// The field that holds the component with index `c_idx`.
pub fn component_var(c_idx: usize) -> (r: String)
    ensures
        r@ == numbered("c"@, c_idx as nat),
{
    numbered_name("c", c_idx)
}

/// The field that holds the global with index `g_idx`.
pub fn global_var(g_idx: usize) -> (r: String)
    ensures
        r@ == numbered("g"@, g_idx as nat),
{
    numbered_name("g", g_idx)
}

/// The field that holds the event with index `e_idx`.
pub fn event_var(e_idx: usize) -> (r: String)
    ensures
        r@ == numbered("e"@, e_idx as nat),
{
    numbered_name("e", e_idx)
}

/// The variant of the events enum for the event with index `e_idx`.
pub fn event_variant(e_idx: usize) -> (r: String)
    ensures
        r@ == numbered("E"@, e_idx as nat),
{
    numbered_name("E", e_idx)
}

/// The field that holds the entity set with index `cs_idx`.
pub fn component_set_var(cs_idx: usize) -> (r: String)
    ensures
        r@ == numbered("cs"@, cs_idx as nat),
{
    numbered_name("cs", cs_idx)
}

} // verus!
