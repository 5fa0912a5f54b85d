//! Takes IP addresses out of a text.

use vstd::prelude::*;

use crate::patterns::{without_addresses, AddressPattern, ADDRESS_PATTERN};

verus! {

/// `contents` without the IP addresses in it. Nothing stands in their place.
pub fn filter_ips(contents: &str) -> (filtered: String)
    ensures
        filtered@ == without_addresses(contents@),
{
    proof {
        reveal_strlit("");
    }
    AddressPattern::compile(ADDRESS_PATTERN).replace_all(contents, "")
}

} // verus!
