//! The cores as they are listed for a reader: in some order, each with its
//! threads in some order.

use crate::keyed::as_map;
use crate::keyed::keys_distinct;
use crate::load::load_of;
use crate::text::core_text;
use vstd::prelude::*;

verus! {

/// One core as it is listed: its id, its utilization, and its threads in the
/// order in which the core keeps them.
pub struct CoreListing {
    pub id: usize,
    pub utilization: nat,
    pub roster: Seq<(Seq<char>, nat)>,
}

/// The cores as entries: each id with the threads of that core.
pub open spec fn listed_cores(listing: Seq<CoreListing>) -> Seq<(usize, Map<Seq<char>, nat>)> {
    listing.map_values(|core: CoreListing| (core.id, as_map(core.roster)))
}

/// A listing lists the cores of `cores` when it names each of them once, with
/// its threads once each and with the sum of their priorities as utilization,
/// and names no other core.
pub open spec fn lists(listing: Seq<CoreListing>, cores: Map<usize, Map<Seq<char>, nat>>) -> bool {
    &&& keys_distinct(listed_cores(listing))
    &&& as_map(listed_cores(listing)) == cores
    &&& forall|i: int|
        0 <= i < listing.len() ==> keys_distinct((#[trigger] listing[i]).roster)
            && listing[i].utilization == load_of(as_map(listing[i].roster))
}

/// The text of a listing: one line for each core, in order.
pub open spec fn listing_text(listing: Seq<CoreListing>) -> Seq<char>
    decreases listing.len(),
{
    if listing.len() == 0 {
        Seq::<char>::empty()
    } else {
        listing_text(listing.drop_last()) + core_text(
            listing.last().id,
            listing.last().utilization,
            listing.last().roster,
        )
    }
}

} // verus!
