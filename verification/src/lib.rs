//! Shortest rider paths and fare tiers over a fixed transit network.
//!
//! The network is an undirected, unweighted graph of named stops. A query
//! finds a shortest path between two stops and derives the fare tier from
//! the number of stops travelled and the number of lines used.

pub mod fare;
pub mod graph;
pub mod laws;
pub mod layout;
pub mod manage_metro_map;
pub mod metro;
pub mod selection;
pub mod ticket;
pub mod tracks;
pub mod walks;
