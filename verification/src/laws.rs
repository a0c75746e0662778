//! What holds of every query: how the fares of trips follow from the
//! shape of the network.

use crate::fare::{lemma_one_change_path, lemma_single_line_path, line_count, on_one_line};
use crate::ticket::{tier_of, Ticket};
use crate::tracks::Tracks;
use vstd::prelude::*;

verus! {

/// Two shortest routes between the same stops travel the same number of
/// stops. Where they also use the same number of lines, they cost the same.
/// (They need not: two shortest routes may run over different lines.)
pub proof fn lemma_fares_of_shortest_routes(
    tracks: Tracks,
    lines: Map<Seq<char>, u8>,
    interchanges: Set<Seq<char>>,
    a: Seq<char>,
    b: Seq<char>,
    p: Seq<Seq<char>>,
    q: Seq<Seq<char>>,
)
    requires
        tracks.is_shortest_route(a, b, p),
        tracks.is_shortest_route(a, b, q),
        line_count(lines, interchanges, p) == line_count(lines, interchanges, q),
    ensures
        p.len() - 1 == q.len() - 1,
        tier_of(line_count(lines, interchanges, p), (p.len() - 1) as nat) == tier_of(
            line_count(lines, interchanges, q),
            (q.len() - 1) as nat,
        ),
{
    tracks.lemma_shortest_routes_agree(a, b, p, q);
}

/// A trip between two different stops of one line that a link joins is a
/// first-tier trip over one stop and one line.
pub proof fn lemma_neighbours_on_one_line(
    tracks: Tracks,
    lines: Map<Seq<char>, u8>,
    interchanges: Set<Seq<char>>,
    a: Seq<char>,
    b: Seq<char>,
    line: u8,
    path: Seq<Seq<char>>,
)
    requires
        tracks.has_stop(a),
        tracks.has_stop(b),
        a != b,
        tracks.adjacent(a, b),
        !interchanges.contains(a) && lines.contains_key(a) && lines[a] == line,
        !interchanges.contains(b) && lines.contains_key(b) && lines[b] == line,
        tracks.is_shortest_route(a, b, path),
    ensures
        path == seq![a, b],
        path.len() - 1 == 1,
        line_count(lines, interchanges, path) == 1,
        tier_of(line_count(lines, interchanges, path), (path.len() - 1) as nat) == Some(
            Ticket::Yellow,
        ),
{
    tracks.lemma_route_to_neighbour(a, b, path);
    lemma_single_line_path(lines, interchanges, path, line);
}

/// A trip over more than sixteen stops that stays on one line is a
/// third-tier trip.
pub proof fn lemma_long_trip_on_one_line(
    lines: Map<Seq<char>, u8>,
    interchanges: Set<Seq<char>>,
    path: Seq<Seq<char>>,
    line: u8,
)
    requires
        path.len() - 1 > 16,
        on_one_line(lines, interchanges, path, line),
    ensures
        line_count(lines, interchanges, path) == 1,
        tier_of(line_count(lines, interchanges, path), (path.len() - 1) as nat) == Some(
            Ticket::Purple,
        ),
{
    lemma_single_line_path(lines, interchanges, path, line);
}

/// A trip over at most sixteen stops that leaves one line for another, once,
/// is a second-tier trip over two lines: its first `k` stops are stops of
/// the one line or interchanges, the others are stops of the other line or
/// interchanges, and either part has a stop with a line.
pub proof fn lemma_trip_with_one_change(
    lines: Map<Seq<char>, u8>,
    interchanges: Set<Seq<char>>,
    path: Seq<Seq<char>>,
    k: int,
    first: u8,
    second: u8,
)
    requires
        0 < k < path.len(),
        path.len() - 1 <= 16,
        first != second,
        on_one_line(lines, interchanges, path.take(k), first),
        on_one_line(lines, interchanges, path.skip(k), second),
        exists|i: int| 0 <= i < k && !interchanges.contains(#[trigger] path[i]),
        exists|i: int| k <= i < path.len() && !interchanges.contains(#[trigger] path[i]),
    ensures
        line_count(lines, interchanges, path) == 2,
        tier_of(line_count(lines, interchanges, path), (path.len() - 1) as nat) == Some(
            Ticket::Green,
        ),
{
    lemma_one_change_path(lines, interchanges, path, k, first, second);
}

} // verus!
