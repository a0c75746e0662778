//! Fare tiers, the rule table that assigns them, and the faults of the
//! library.

use vstd::prelude::*;

verus! {

/// A fare tier, named after the colour of its ticket: `Yellow` is the
/// first tier, `Green` the second, `Purple` the third.
#[derive(Clone, Copy, Debug, PartialEq, Eq, Structural)]
pub enum Ticket {
    Yellow,
    Green,
    Purple,
}

/// What can go wrong while building a network or answering a query.
#[derive(Debug, PartialEq, Eq)]
pub enum MetroError {
    /// A query named a stop that the graph does not have.
    UnknownStop(String),
    /// A branch is anchored at a stop that no earlier line or branch defined.
    UnknownAnchor(String),
    /// No path connects two stops of the graph: the network is not connected.
    NoPathFound,
    /// A path uses more lines than the rule table knows.
    InvalidLineCount,
}

/// The rule table: the tier of a trip over `stop_count` stops that uses
/// `line_count` lines, or `None` where the table has no row for `line_count`.
pub open spec fn tier_of(line_count: nat, stop_count: nat) -> Option<Ticket> {
    if line_count == 1 {
        if stop_count <= 9 {
            Some(Ticket::Yellow)
        } else if stop_count <= 16 {
            Some(Ticket::Green)
        } else {
            Some(Ticket::Purple)
        }
    } else if line_count == 2 {
        if stop_count <= 16 {
            Some(Ticket::Green)
        } else {
            Some(Ticket::Purple)
        }
    } else if line_count == 3 {
        Some(Ticket::Purple)
    } else {
        None
    }
}

/// Looks a trip up in the rule table.
pub fn tier_for(line_count: usize, stop_count: usize) -> (r: Result<Ticket, MetroError>)
    ensures
        match r {
            Ok(t) => tier_of(line_count as nat, stop_count as nat) == Some(t),
            Err(e) => e == MetroError::InvalidLineCount && tier_of(
                line_count as nat,
                stop_count as nat,
            ) is None,
        },
{
    if line_count == 1 {
        if stop_count <= 9 {
            Ok(Ticket::Yellow)
        } else if stop_count <= 16 {
            Ok(Ticket::Green)
        } else {
            Ok(Ticket::Purple)
        }
    } else if line_count == 2 {
        if stop_count <= 16 {
            Ok(Ticket::Green)
        } else {
            Ok(Ticket::Purple)
        }
    } else if line_count == 3 {
        Ok(Ticket::Purple)
    } else {
        Err(MetroError::InvalidLineCount)
    }
}

/// A trip over more than sixteen stops is in the third tier, whatever the
/// number of lines, as long as the table knows that number.
pub proof fn lemma_long_trip_is_third_tier(line_count: nat, stop_count: nat)
    requires
        1 <= line_count <= 3,
        stop_count > 16,
    ensures
        tier_of(line_count, stop_count) == Some(Ticket::Purple),
{
}

} // verus!
