//! What the command line asks for.

use crate::condition::{Condition, SpeedTest};
use crate::number::Number;
use crate::text::{
    is_space, law_separators_part_the_pieces, law_trimming_leaves_the_middle, pieces_from, split,
    texts, trim, trimmed, Class,
};
use vstd::prelude::*;

verus! {

/// What `run` is asked to do.
#[derive(Clone, Copy, PartialEq, Eq, Structural, Debug)]
pub enum RunRequest {
    /// Run a topology.
    Topology,
    /// Copy events from a file to a file.
    File,
    /// Neither: a file run needs both an input and an output.
    Incomplete,
}

/// What `run` is asked to do, given which of its arguments are there. A topology takes the
/// place of everything else.
pub fn run_request(topology: bool, input: bool, output: bool) -> (r: RunRequest)
    ensures
        r == (if topology {
            RunRequest::Topology
        } else if input && output {
            RunRequest::File
        } else {
            RunRequest::Incomplete
        }),
{
    if topology {
        RunRequest::Topology
    } else if input && output {
        RunRequest::File
    } else {
        RunRequest::Incomplete
    }
}

/// The condition that a file run filters by: events at or above the minimum speed.
pub fn min_speed_condition(min_speed: Number) -> (r: Condition)
    ensures
        r == (Condition::Speed { test: SpeedTest::AtLeast, threshold: min_speed }),
{
    Condition::Speed { test: SpeedTest::AtLeast, threshold: min_speed }
}

/// The texts between the commas of a bounds argument, without white space at their ends.
pub open spec fn bounds_pieces(bounds: Seq<char>) -> Seq<Seq<char>> {
    let pieces = pieces_from(bounds, ',', 0);
    Seq::new(pieces.len(), |i: int| trimmed(pieces[i], Class::Space))
}

/// The texts of a bounds argument that are to be read as numbers.
pub fn bounds_texts(bounds: &str) -> (r: Vec<String>)
    ensures
        texts(r@) == bounds_pieces(bounds@),
{
    let pieces = split(bounds, ',');
    let mut r: Vec<String> = Vec::new();
    let mut i: usize = 0;
    while i < pieces.len()
        invariant
            texts(pieces@) == pieces_from(bounds@, ',', 0),
            i <= pieces@.len(),
            r@.len() == i,
            forall|k: int| 0 <= k < i ==> (#[trigger] r@[k])@ == bounds_pieces(bounds@)[k],
        decreases pieces@.len() - i,
    {
        let piece = trim(pieces[i].as_str(), Class::Space);
        proof {
            assert(texts(pieces@)[i as int] == pieces@[i as int]@);
        }
        r.push(piece);
        i = i + 1;
    }
    proof {
        assert(texts(pieces@).len() == pieces@.len());
        assert(texts(r@) =~= bounds_pieces(bounds@));
    }
    r
}

/// The numbers among what was read.
pub open spec fn numbers_read(read: Seq<Option<Number>>) -> Seq<Number>
    decreases read.len(),
{
    if read.len() == 0 {
        Seq::empty()
    } else {
        match read.last() {
            Some(n) => numbers_read(read.drop_last()).push(n),
            None => numbers_read(read.drop_last()),
        }
    }
}

/// The corners of a box, and the first again, from its smallest and largest longitude and
/// latitude.
pub open spec fn ring(n: Seq<Number>) -> Seq<(Number, Number)> {
    seq![(n[0], n[1]), (n[2], n[1]), (n[2], n[3]), (n[0], n[3]), (n[0], n[1])]
}

/// The ring of a zone given by its bounds: smallest longitude and latitude, then largest.
/// What is no number is passed over; there must be four numbers.
pub fn bounds_ring(read: &Vec<Option<Number>>) -> (r: Result<Vec<(Number, Number)>, String>)
    ensures
        match r {
            Ok(corners) => numbers_read(read@).len() == 4 && corners@ == ring(numbers_read(read@)),
            Err(message) => numbers_read(read@).len() != 4 && message@
                == "Bounds must be: min_lon,min_lat,max_lon,max_lat"@,
        },
{
    let mut n: Vec<Number> = Vec::new();
    let mut i: usize = 0;
    while i < read.len()
        invariant
            i <= read@.len(),
            n@ == numbers_read(read@.take(i as int)),
        decreases read@.len() - i,
    {
        proof {
            assert(read@.take(i + 1).drop_last() =~= read@.take(i as int));
        }
        if let Some(number) = read[i] {
            n.push(number);
        }
        i = i + 1;
    }
    proof {
        assert(read@.take(i as int) =~= read@);
    }
    if n.len() != 4 {
        return Err("Bounds must be: min_lon,min_lat,max_lon,max_lat".to_string());
    }
    let mut corners: Vec<(Number, Number)> = Vec::new();
    corners.push((n[0], n[1]));
    corners.push((n[2], n[1]));
    corners.push((n[2], n[3]));
    corners.push((n[0], n[3]));
    corners.push((n[0], n[1]));
    proof {
        assert(corners@ =~= ring(n@));
    }
    Ok(corners)
}

/// The ring of any bounds is closed: it ends where it began.
pub proof fn law_a_ring_is_closed(n: Seq<Number>)
    requires
        n.len() == 4,
    ensures
        ring(n).len() == 5,
        ring(n)[0] == ring(n)[4],
{
}

/// The ring of a box runs round its four corners: each corner of the box is on it, and from
/// one to the next only the longitude or only the latitude changes.
pub proof fn law_a_ring_runs_round_the_box(
    min_lon: Number,
    min_lat: Number,
    max_lon: Number,
    max_lat: Number,
)
    ensures
        ({
            let corners = ring(seq![min_lon, min_lat, max_lon, max_lat]);
            &&& corners.len() == 5
            &&& corners[0] == (min_lon, min_lat)
            &&& corners.contains((max_lon, min_lat))
            &&& corners.contains((max_lon, max_lat))
            &&& corners.contains((min_lon, max_lat))
            &&& corners[4] == corners[0]
            &&& forall|i: int|
                0 <= i < 4 ==> (#[trigger] corners[i]).0 == corners[i + 1].0 || corners[i].1
                    == corners[i + 1].1
            &&& forall|i: int|
                0 <= i < 5 ==> ((#[trigger] corners[i]).0 == min_lon || corners[i].0 == max_lon)
                    && (corners[i].1 == min_lat || corners[i].1 == max_lat)
        }),
{
    let corners = ring(seq![min_lon, min_lat, max_lon, max_lat]);
    assert(corners[1] == (max_lon, min_lat));
    assert(corners[2] == (max_lon, max_lat));
    assert(corners[3] == (min_lon, max_lat));
}

/// What was read as a number counts, in order, and what was not is passed over.
pub proof fn law_only_numbers_count(read: Seq<Option<Number>>, n: Number)
    ensures
        numbers_read(Seq::<Option<Number>>::empty()) == Seq::<Number>::empty(),
        numbers_read(read.push(Some(n))) == numbers_read(read).push(n),
        numbers_read(read.push(None)) == numbers_read(read),
{
    assert(read.push(Some(n)).drop_last() =~= read);
    assert(read.push(None).drop_last() =~= read);
}

/// The texts of a bounds argument are what stands between its commas, without the white space
/// round each.
pub proof fn law_commas_part_the_bounds(
    front: Seq<char>,
    bound: Seq<char>,
    back: Seq<char>,
    rest: Seq<char>,
)
    requires
        forall|i: int| 0 <= i < front.len() ==> is_space(#[trigger] front[i]),
        forall|i: int| 0 <= i < back.len() ==> is_space(#[trigger] back[i]),
        forall|i: int| 0 <= i < bound.len() ==> #[trigger] bound[i] != ',',
        bound.len() > 0 ==> !is_space(bound[0]) && !is_space(bound.last()),
    ensures
        bounds_pieces(front + bound + back + seq![','] + rest) == seq![bound] + bounds_pieces(
            rest,
        ),
        bounds_pieces(front + bound + back) == seq![bound],
{
    let piece = front + bound + back;
    assert forall|i: int| 0 <= i < piece.len() implies #[trigger] piece[i] != ',' by {
        if i < front.len() {
            assert(piece[i] == front[i]);
        } else if i < front.len() + bound.len() {
            assert(piece[i] == bound[i - front.len()]);
        } else {
            assert(piece[i] == back[i - front.len() - bound.len()]);
        }
    }
    law_separators_part_the_pieces(piece, ',', rest);
    law_trimming_leaves_the_middle(front, bound, back, Class::Space);
    assert(bounds_pieces(piece + seq![','] + rest) =~= seq![bound] + bounds_pieces(rest));
    assert(bounds_pieces(piece) =~= seq![bound]);
}

} // verus!
