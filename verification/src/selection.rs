//! When a station picker has to ask for a new ticket.

use vstd::prelude::*;

verus! {

/// A picker keeps the ticket of the pair of stops it asked for last. It has to
/// ask again exactly where the pair that is picked now differs from that pair
/// and names both a start and a destination.
pub open spec fn ticket_is_due(
    previous_start: Seq<char>,
    previous_destination: Seq<char>,
    start: Seq<char>,
    destination: Seq<char>,
) -> bool {
    &&& previous_start != start || previous_destination != destination
    &&& start.len() > 0
    &&& destination.len() > 0
}

/// Whether the picker has to ask for a new ticket.
pub fn needs_new_ticket(
    previous_start: &String,
    previous_destination: &String,
    start: &String,
    destination: &String,
) -> (due: bool)
    ensures
        due == ticket_is_due(previous_start@, previous_destination@, start@, destination@),
{
    if *previous_start == *start && *previous_destination == *destination {
        return false;
    }
    if start.as_str().is_empty() || destination.as_str().is_empty() {
        return false;
    }
    true
}

} // verus!
