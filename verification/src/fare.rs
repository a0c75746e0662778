//! From a path to its fare: how many stops it travels, how many lines it
//! uses, and the tier that the rule table gives for the two.

use crate::ticket::{tier_for, tier_of, MetroError, Ticket};
use vstd::hash_map::StringHashMap;
use vstd::hash_set::StringHashSet;
use vstd::prelude::*;

verus! {

/// The names that a list of strings spells.
pub open spec fn names_of(v: Seq<String>) -> Seq<Seq<char>> {
    v.map_values(|s: String| s@)
}

/// The lines of the stops of `path` that have a line, in path order.
/// Interchange stops belong to no single line and are passed over.
pub open spec fn line_ids(
    lines: Map<Seq<char>, u8>,
    interchanges: Set<Seq<char>>,
    path: Seq<Seq<char>>,
) -> Seq<u8>
    decreases path.len(),
{
    if path.len() == 0 {
        Seq::empty()
    } else {
        let before = line_ids(lines, interchanges, path.drop_last());
        if interchanges.contains(path.last()) {
            before
        } else {
            before.push(lines[path.last()])
        }
    }
}

/// The number of places in `ids` where one line follows a different one.
pub open spec fn line_changes(ids: Seq<u8>) -> nat
    decreases ids.len(),
{
    if ids.len() < 2 {
        0
    } else {
        line_changes(ids.drop_last()) + if ids[ids.len() - 2] != ids[ids.len() - 1] {
            1nat
        } else {
            0nat
        }
    }
}

/// The number of lines that a rider on `path` uses: one, and one more for
/// every change of line. A path without any stop that has a line counts as
/// one line.
pub open spec fn line_count(
    lines: Map<Seq<char>, u8>,
    interchanges: Set<Seq<char>>,
    path: Seq<Seq<char>>,
) -> nat {
    1 + line_changes(line_ids(lines, interchanges, path))
}

/// Every stop of `path` is an interchange stop or has a line.
pub open spec fn has_line_identity(
    lines: Map<Seq<char>, u8>,
    interchanges: Set<Seq<char>>,
    path: Seq<Seq<char>>,
) -> bool {
    forall|i: int|
        0 <= i < path.len() ==> interchanges.contains(#[trigger] path[i]) || lines.contains_key(
            path[i],
        )
}

/// The fare of `path`: its tier, the number of stops travelled (one less
/// than the stops on the path) and the number of lines used. Fails with
/// `InvalidLineCount` exactly where the path uses more than three lines.
pub fn classify(
    path: &Vec<String>,
    station_line_map: &StringHashMap<u8>,
    transfer_stations: &StringHashSet,
) -> (r: Result<(Ticket, usize, u8), MetroError>)
    requires
        path@.len() > 0,
        has_line_identity(station_line_map@, transfer_stations@, names_of(path@)),
    ensures
        match r {
            Ok((ticket, stop_count, lines)) => {
                &&& stop_count == path@.len() - 1
                &&& lines == line_count(station_line_map@, transfer_stations@, names_of(path@))
                &&& tier_of(lines as nat, stop_count as nat) == Some(ticket)
            },
            Err(e) => {
                &&& e == MetroError::InvalidLineCount
                &&& line_count(station_line_map@, transfer_stations@, names_of(path@)) > 3
            },
        },
{
    let ghost names = names_of(path@);
    let mut changes: usize = 0;
    let mut prev_line: Option<u8> = None;
    let mut i: usize = 0;
    while i < path.len()
        invariant
            i <= path.len(),
            names == names_of(path@),
            has_line_identity(station_line_map@, transfer_stations@, names),
            changes == 0 || changes < i,
            changes == line_changes(
                line_ids(station_line_map@, transfer_stations@, names.take(i as int)),
            ),
            prev_line == ({
                let ids = line_ids(station_line_map@, transfer_stations@, names.take(i as int));
                if ids.len() > 0 {
                    Some(ids.last())
                } else {
                    None
                }
            }),
        decreases path.len() - i,
    {
        let station = &path[i];
        let ghost ids = line_ids(station_line_map@, transfer_stations@, names.take(i as int));
        proof {
            assert(names.take(i + 1).drop_last() =~= names.take(i as int));
            assert(names.take(i + 1).last() == station@);
            assert(names[i as int] == station@);
        }
        if !transfer_stations.contains(station.as_str()) {
            let found = station_line_map.get(station.as_str());
            let curr: u8 = *found.unwrap();
            proof {
                assert(ids.push(curr).drop_last() =~= ids);
            }
            if let Some(p) = prev_line {
                if p != curr {
                    changes += 1;
                }
            }
            prev_line = Some(curr);
        }
        i += 1;
    }
    proof {
        assert(names.take(path@.len() as int) =~= names);
    }
    let stop_count = path.len() - 1;
    let lines = changes + 1;
    match tier_for(lines, stop_count) {
        Ok(ticket) => Ok((ticket, stop_count, lines as u8)),
        Err(e) => Err(e),
    }
}

/// Every stop of `path` is an interchange stop or a stop of line `line`.
pub open spec fn on_one_line(
    lines: Map<Seq<char>, u8>,
    interchanges: Set<Seq<char>>,
    path: Seq<Seq<char>>,
    line: u8,
) -> bool {
    forall|i: int|
        0 <= i < path.len() ==> interchanges.contains(#[trigger] path[i]) || (lines.contains_key(
            path[i],
        ) && lines[path[i]] == line)
}

/// On a path whose stops are interchanges or stops of one and the same
/// line, the rider never changes: the path uses one line. So does a path
/// of a single stop.
pub proof fn lemma_single_line_path(
    lines: Map<Seq<char>, u8>,
    interchanges: Set<Seq<char>>,
    path: Seq<Seq<char>>,
    line: u8,
)
    requires
        path.len() <= 1 || on_one_line(lines, interchanges, path, line),
    ensures
        line_count(lines, interchanges, path) == 1,
{
    if path.len() <= 1 {
        reveal_with_fuel(line_ids, 2);
        assert(line_ids(lines, interchanges, path).len() <= 1);
    } else {
        lemma_ids_of_one_line(lines, interchanges, path, line);
        lemma_no_change_in_one_line(line_ids(lines, interchanges, path), line);
    }
}

/// The lines along a path over stops of one line are that line only.
pub proof fn lemma_ids_of_one_line(
    lines: Map<Seq<char>, u8>,
    interchanges: Set<Seq<char>>,
    path: Seq<Seq<char>>,
    line: u8,
)
    requires
        on_one_line(lines, interchanges, path, line),
    ensures
        forall|k: int|
            0 <= k < line_ids(lines, interchanges, path).len() ==> #[trigger] line_ids(
                lines,
                interchanges,
                path,
            )[k] == line,
    decreases path.len(),
{
    if path.len() > 0 {
        let front = path.drop_last();
        assert forall|i: int| 0 <= i < front.len() implies interchanges.contains(
            #[trigger] front[i],
        ) || (lines.contains_key(front[i]) && lines[front[i]] == line) by {
            assert(front[i] == path[i]);
        }
        lemma_ids_of_one_line(lines, interchanges, front, line);
        let before = line_ids(lines, interchanges, front);
        let ids = line_ids(lines, interchanges, path);
        assert(path.last() == path[path.len() - 1]);
        assert forall|k: int| 0 <= k < ids.len() implies #[trigger] ids[k] == line by {
            if k < before.len() {
                assert(ids[k] == before[k]);
            }
        }
    }
}

/// A list that repeats one line holds no change of line.
pub proof fn lemma_no_change_in_one_line(ids: Seq<u8>, line: u8)
    requires
        forall|k: int| 0 <= k < ids.len() ==> #[trigger] ids[k] == line,
    ensures
        line_changes(ids) == 0,
    decreases ids.len(),
{
    if ids.len() >= 2 {
        lemma_no_change_in_one_line(ids.drop_last(), line);
    }
}

/// A path with a stop that is no interchange has a line of its own.
pub proof fn lemma_ids_not_empty(
    lines: Map<Seq<char>, u8>,
    interchanges: Set<Seq<char>>,
    path: Seq<Seq<char>>,
    i: int,
)
    requires
        0 <= i < path.len(),
        !interchanges.contains(path[i]),
    ensures
        line_ids(lines, interchanges, path).len() > 0,
    decreases path.len(),
{
    if i < path.len() - 1 {
        assert(path.drop_last()[i] == path[i]);
        lemma_ids_not_empty(lines, interchanges, path.drop_last(), i);
    }
}

/// The lines along a path are the lines along its first `k` stops,
/// followed by the lines along the rest.
pub proof fn lemma_ids_split(
    lines: Map<Seq<char>, u8>,
    interchanges: Set<Seq<char>>,
    path: Seq<Seq<char>>,
    k: int,
)
    requires
        0 <= k <= path.len(),
    ensures
        line_ids(lines, interchanges, path) == line_ids(lines, interchanges, path.take(k))
            + line_ids(lines, interchanges, path.skip(k)),
    decreases path.len(),
{
    let head = line_ids(lines, interchanges, path.take(k));
    let tail = line_ids(lines, interchanges, path.skip(k));
    if k == path.len() {
        assert(path.take(k) =~= path);
        assert(line_ids(lines, interchanges, path) =~= head + tail);
    } else {
        let front = path.drop_last();
        lemma_ids_split(lines, interchanges, front, k);
        assert(front.take(k) =~= path.take(k));
        assert(front.skip(k) =~= path.skip(k).drop_last());
        assert(path.skip(k).last() == path.last());
        assert(line_ids(lines, interchanges, path) =~= head + tail);
    }
}

/// Joining two lists of lines adds up their changes, and one more where
/// the first list ends on another line than the second begins.
pub proof fn lemma_changes_join(u: Seq<u8>, v: Seq<u8>)
    requires
        u.len() > 0,
        v.len() > 0,
    ensures
        line_changes(u + v) == line_changes(u) + line_changes(v) + if u.last() != v[0] {
            1nat
        } else {
            0nat
        },
    decreases v.len(),
{
    let w = u + v;
    if v.len() == 1 {
        assert(w.drop_last() =~= u);
    } else {
        assert(w.drop_last() =~= u + v.drop_last());
        lemma_changes_join(u, v.drop_last());
    }
}

/// A path that leaves the stops of one line for the stops of another, and
/// has a stop with a line on either side, uses two lines.
pub proof fn lemma_one_change_path(
    lines: Map<Seq<char>, u8>,
    interchanges: Set<Seq<char>>,
    path: Seq<Seq<char>>,
    k: int,
    first: u8,
    second: u8,
)
    requires
        0 < k < path.len(),
        first != second,
        on_one_line(lines, interchanges, path.take(k), first),
        on_one_line(lines, interchanges, path.skip(k), second),
        exists|i: int| 0 <= i < k && !interchanges.contains(#[trigger] path[i]),
        exists|i: int| k <= i < path.len() && !interchanges.contains(#[trigger] path[i]),
    ensures
        line_count(lines, interchanges, path) == 2,
{
    let head = path.take(k);
    let tail = path.skip(k);
    let u = line_ids(lines, interchanges, head);
    let v = line_ids(lines, interchanges, tail);
    let i = choose|i: int| 0 <= i < k && !interchanges.contains(#[trigger] path[i]);
    let j = choose|j: int| k <= j < path.len() && !interchanges.contains(#[trigger] path[j]);
    assert(head[i] == path[i]);
    assert(tail[j - k] == path[j]);
    lemma_ids_not_empty(lines, interchanges, head, i);
    lemma_ids_not_empty(lines, interchanges, tail, j - k);
    lemma_ids_of_one_line(lines, interchanges, head, first);
    lemma_ids_of_one_line(lines, interchanges, tail, second);
    lemma_no_change_in_one_line(u, first);
    lemma_no_change_in_one_line(v, second);
    lemma_ids_split(lines, interchanges, path, k);
    lemma_changes_join(u, v);
    assert(u.last() == first);
    assert(v[0] == second);
}

} // verus!
