//! The choice of the address to send a query to.
use crate::resolver::nsas::address_entry::{addresses_view, has_v4, is_selected, AddressEntry};
use vstd::prelude::*;

verus! {

/// The version 4 address with the least round-trip time, the first of them
/// where several tie; `None` where there is none.
pub fn select_address(addresses: &Vec<AddressEntry>) -> (r: Option<AddressEntry>)
    ensures
        r is None <==> !has_v4(addresses_view(addresses@)),
        r matches Some(a) ==> exists|i: int| is_selected(addresses_view(addresses@), i) && a@ == addresses_view(addresses@)[i],
{
    crate::resolver::nsas::address_entry::select_address(addresses)
}

} // verus!
