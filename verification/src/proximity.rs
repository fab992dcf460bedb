//! Proximity detection: distance-based alerts between entities.
//!
//! Distances on the sphere are measured by the caller; which entities are alerted on is
//! decided here.

use crate::event::{
    output_views, Event, EventView, Field, FieldView, OutputEvent, OutputEventView, Payload,
};
use crate::keyed::Keyed;
use crate::number::Number;
use crate::text::same;
use vstd::prelude::*;

verus! {

/// A position: longitude and latitude in degrees.
#[derive(Clone, Copy, PartialEq, Eq, Structural, Debug)]
pub struct Position {
    pub lon: Number,
    pub lat: Number,
}

/// `a <= b`.
pub open spec fn at_most(a: Number, b: Number) -> bool {
    a.below(b) || a.equals(b)
}

/// Emits alerts when entities come within a threshold distance.
pub struct ProximityOperator {
    name: String,
    /// Distance threshold in meters.
    threshold_meters: Number,
    /// Last known position per entity, in the order the entities came.
    positions: Keyed<Position>,
}

/// What the operator knows: the threshold and where each entity was last.
pub struct ProximityView {
    pub name: Seq<char>,
    pub threshold: Number,
    pub known: Seq<(Seq<char>, Position)>,
}

/// The entries of a keyed list, by the text of their names.
pub open spec fn known_positions(entries: Seq<(String, Position)>) -> Seq<(Seq<char>, Position)> {
    Seq::new(entries.len(), |i: int| (entries[i].0@, entries[i].1))
}

impl View for ProximityOperator {
    type V = ProximityView;

    closed spec fn view(&self) -> ProximityView {
        ProximityView {
            name: self.name@,
            threshold: self.threshold_meters,
            known: known_positions(self.positions.entries@),
        }
    }
}

impl ProximityView {
    /// Whether the entity at `i` is one to alert on.
    pub open spec fn near(self, entity: Seq<char>, distances: Seq<Number>, i: int) -> bool {
        self.known[i].0 != entity && at_most(distances[i], self.threshold)
    }

    /// The alert on the entity at `i`.
    pub open spec fn alert(self, event: EventView, distances: Seq<Number>, i: int) -> OutputEventView {
        OutputEventView {
            source_event: event,
            operator: self.name,
            payload: seq![
                ("alert"@, FieldView::Text("proximity"@)),
                ("entity_a"@, FieldView::Text(event.entity_id)),
                ("entity_b"@, FieldView::Text(self.known[i].0)),
                ("distance_meters"@, FieldView::Number(distances[i])),
                ("threshold_meters"@, FieldView::Number(self.threshold)),
            ],
        }
    }

    /// The alerts on the first `n` entities.
    pub open spec fn alerts(self, event: EventView, distances: Seq<Number>, n: int) -> Seq<
        OutputEventView,
    >
        decreases n,
    {
        if n <= 0 {
            Seq::empty()
        } else {
            let earlier = self.alerts(event, distances, n - 1);
            if self.near(event.entity_id, distances, n - 1) {
                earlier.push(self.alert(event, distances, n - 1))
            } else {
                earlier
            }
        }
    }

    /// The entities in the order they came.
    pub open spec fn entities(self) -> Seq<Seq<char>> {
        Seq::new(self.known.len(), |i: int| self.known[i].0)
    }

    /// Whether this is where the entity was last.
    pub open spec fn last_at(self, entity: Seq<char>, p: Position) -> bool {
        exists|i: int| 0 <= i < self.known.len() && #[trigger] self.known[i] == (entity, p)
    }

    /// Whether no entity is known twice.
    pub open spec fn distinct(self) -> bool {
        forall|i: int, j: int|
            0 <= i < j < self.known.len() ==> (#[trigger] self.known[i]).0 != (
            #[trigger] self.known[j]).0
    }
}

impl ProximityOperator {
    #[verifier::type_invariant]
    spec fn inv(self) -> bool {
        self.positions.distinct()
    }

    /// An operator that knows no positions.
    pub fn new(name: &str, threshold_meters: Number) -> (r: ProximityOperator)
        ensures
            r@ == (ProximityView {
                name: name@,
                threshold: threshold_meters,
                known: Seq::empty(),
            }),
    {
        let r = ProximityOperator {
            name: name.to_string(),
            threshold_meters,
            positions: Keyed::new(),
        };
        proof {
            assert(r@.known =~= Seq::empty());
        }
        r
    }

    /// The distance threshold in meters.
    pub fn threshold_meters(&self) -> (r: Number)
        ensures
            r == self@.threshold,
    {
        self.threshold_meters
    }

    /// The operator's name.
    pub fn name(&self) -> (r: &str)
        ensures
            r@ == self@.name,
    {
        self.name.as_str()
    }

    /// The last known positions, which a checkpoint carries.
    pub fn snapshot(&self) -> (r: &Keyed<Position>)
        ensures
            r.distinct(),
            known_positions(r.entries@) == self@.known,
            self@.distinct(),
    {
        proof {
            use_type_invariant(self);
            self.lemma_distinct();
        }
        &self.positions
    }

    proof fn lemma_distinct(self)
        requires
            self.positions.distinct(),
        ensures
            self@.distinct(),
    {
        let names = self.positions.names();
        assert forall|i: int, j: int| 0 <= i < j < self@.known.len() implies (
        #[trigger] self@.known[i]).0 != (#[trigger] self@.known[j]).0 by {
            assert(names[i] != names[j]);
        }
    }

    /// Replace the known positions with those a checkpoint carried.
    pub fn restore(&mut self, positions: Keyed<Position>)
        requires
            positions.distinct(),
        ensures
            final(self)@ == (ProximityView {
                known: known_positions(positions.entries@),
                ..old(self)@
            }),
    {
        self.positions = positions;
    }

    /// Alerts on every other entity whose distance is within the threshold, then remembers
    /// where this one is. `distances` holds the distance in meters from the event to each
    /// known position, in their order.
    pub fn process(&mut self, event: &Event, distances: &Vec<Number>) -> (r: Vec<OutputEvent>)
        requires
            distances@.len() == old(self)@.known.len(),
        ensures
            output_views(r@) == old(self)@.alerts(
                event@,
                distances@,
                old(self)@.known.len() as int,
            ),
            final(self)@.name == old(self)@.name,
            final(self)@.threshold == old(self)@.threshold,
            final(self)@.distinct(),
            final(self)@.entities() == (if old(self)@.entities().contains(event@.entity_id) {
                old(self)@.entities()
            } else {
                old(self)@.entities().push(event@.entity_id)
            }),
            final(self)@.last_at(event@.entity_id, Position { lon: event@.lon, lat: event@.lat }),
            forall|other: Seq<char>, p: Position|
                other != event@.entity_id ==> #[trigger] final(self)@.last_at(other, p)
                    == old(self)@.last_at(other, p),
    {
        proof {
            use_type_invariant(&*self);
        }
        let ghost before = *self;
        let ghost view = self@;
        let mut outputs: Vec<OutputEvent> = Vec::new();
        let mut i: usize = 0;
        proof {
            assert(output_views(outputs@) =~= Seq::empty());
        }
        while i < self.positions.entries.len()
            invariant
                i <= self.positions.entries@.len(),
                *self == before,
                view == self@,
                distances@.len() == view.known.len(),
                output_views(outputs@) == view.alerts(event@, distances@, i as int),
            decreases self.positions.entries@.len() - i,
        {
            let ghost earlier = output_views(outputs@);
            let other = self.positions.entries[i].0.as_str();
            proof {
                assert(view.known[i as int].0 == other@);
            }
            if !same(other, event.entity_id.as_str()) && distances[i].le(self.threshold_meters) {
                let payload = Payload::new().with_text("alert", "proximity").with_text(
                    "entity_a",
                    event.entity_id.as_str(),
                ).with_text("entity_b", other).with(
                    "distance_meters",
                    Field::Number(distances[i]),
                ).with("threshold_meters", Field::Number(self.threshold_meters));
                let output = OutputEvent {
                    source_event: event.clone(),
                    operator: self.name.clone(),
                    payload,
                };
                proof {
                    assert(output@.payload =~= view.alert(event@, distances@, i as int).payload);
                }
                outputs.push(output);
                proof {
                    assert(output_views(outputs@) =~= earlier.push(output@));
                }
            }
            i = i + 1;
        }
        let position = Position { lon: event.lon, lat: event.lat };
        let mut positions: Keyed<Position> = Keyed::new();
        std::mem::swap(&mut positions, &mut self.positions);
        let ghost old_positions = positions;
        positions.put(event.entity_id.as_str(), position);
        let ghost new_positions = positions;
        self.positions = positions;
        proof {
            self.lemma_distinct();
            lemma_lookup(old_positions, view);
            lemma_lookup(new_positions, self@);
            assert(new_positions.lookup(event@.entity_id) == Some(position));
            assert(view.entities() =~= old_positions.names());
            assert(self@.entities() =~= new_positions.names());
            assert forall|other: Seq<char>, p: Position|
                other != event@.entity_id implies #[trigger] self@.last_at(other, p)
                == view.last_at(other, p) by {
                assert(new_positions.lookup(other) == old_positions.lookup(other));
            }
        }
        outputs
    }

    /// Clear stale positions on window close. Nothing is emitted.
    pub fn on_window_close(&mut self) -> (r: Vec<OutputEvent>)
        ensures
            r@.len() == 0,
            final(self)@ == (ProximityView { known: Seq::empty(), ..old(self)@ }),
    {
        self.positions = Keyed::new();
        proof {
            assert(self@.known =~= Seq::empty());
        }
        Vec::new()
    }
}

/// Looking an entity up gives the position it is known at.
proof fn lemma_lookup(positions: Keyed<Position>, view: ProximityView)
    requires
        positions.distinct(),
        view.known == known_positions(positions.entries@),
    ensures
        forall|entity: Seq<char>, p: Position| #[trigger]
            view.last_at(entity, p) <==> positions.lookup(entity) == Some(p),
{
    assert forall|entity: Seq<char>, p: Position| #[trigger]
        view.last_at(entity, p) <==> positions.lookup(entity) == Some(p) by {
        if view.last_at(entity, p) {
            let i = choose|i: int|
                0 <= i < view.known.len() && #[trigger] view.known[i] == (entity, p);
            positions.lemma_position(i);
            assert(positions.names()[i] == entity);
        }
        if positions.lookup(entity) == Some(p) {
            let i = positions.position_of(entity);
            assert(positions.names()[i] == entity);
            assert(view.known[i] == (entity, p));
        }
    }
}

/// Whether an output alerts on an entity at a distance.
pub open spec fn alerts_on(
    output: OutputEventView,
    view: ProximityView,
    event: EventView,
    other: Seq<char>,
    distance: Number,
) -> bool {
    output.is_from(view.name, event, 5) && output.carries(
        "alert"@,
        FieldView::Text("proximity"@),
    ) && output.carries("entity_a"@, FieldView::Text(event.entity_id)) && output.carries(
        "entity_b"@,
        FieldView::Text(other),
    ) && output.carries("distance_meters"@, FieldView::Number(distance)) && output.carries(
        "threshold_meters"@,
        FieldView::Number(view.threshold),
    )
}

/// What is emitted are the alerts and nothing else: one for each other entity whose distance
/// is below the threshold or at it, in the order the entities came, and it carries that
/// entity's own distance. `near` gives the positions of the entities alerted on.
pub proof fn law_each_alert_carries_the_distance_of_the_entity_it_names(
    view: ProximityView,
    event: EventView,
    distances: Seq<Number>,
    n: int,
) -> (near: Seq<int>)
    requires
        0 <= n <= view.known.len(),
    ensures
        near.len() == view.alerts(event, distances, n).len(),
        forall|k: int|
            0 <= k < near.len() ==> {
                &&& 0 <= #[trigger] near[k] < n
                &&& view.known[near[k]].0 != event.entity_id
                &&& distances[near[k]].below(view.threshold) || distances[near[k]].equals(
                    view.threshold,
                )
                &&& alerts_on(
                    view.alerts(event, distances, n)[k],
                    view,
                    event,
                    view.known[near[k]].0,
                    distances[near[k]],
                )
            },
        forall|i: int|
            0 <= i < n && (#[trigger] view.known[i]).0 != event.entity_id && (
            distances[i].below(view.threshold) || distances[i].equals(view.threshold))
                ==> near.contains(i),
        forall|j: int, k: int| 0 <= j < k < near.len() ==> near[j] < near[k],
    decreases n,
{
    if n <= 0 {
        Seq::empty()
    } else {
        let earlier = law_each_alert_carries_the_distance_of_the_entity_it_names(
            view,
            event,
            distances,
            n - 1,
        );
        let outputs = view.alerts(event, distances, n);
        let before = view.alerts(event, distances, n - 1);
        let i = n - 1;
        if view.known[i].0 != event.entity_id && (distances[i].below(view.threshold)
            || distances[i].equals(view.threshold)) {
            let near = earlier.push(i);
            let last = view.alert(event, distances, i);
            assert(outputs == before.push(last));
            assert(last.payload[0] == ("alert"@, FieldView::Text("proximity"@)));
            assert(last.payload[1] == ("entity_a"@, FieldView::Text(event.entity_id)));
            assert(last.payload[2] == ("entity_b"@, FieldView::Text(view.known[i].0)));
            assert(last.payload[3] == ("distance_meters"@, FieldView::Number(distances[i])));
            assert(last.payload[4] == ("threshold_meters"@, FieldView::Number(view.threshold)));
            assert forall|k: int| 0 <= k < near.len() implies {
                &&& 0 <= #[trigger] near[k] < n
                &&& view.known[near[k]].0 != event.entity_id
                &&& distances[near[k]].below(view.threshold) || distances[near[k]].equals(
                    view.threshold,
                )
                &&& alerts_on(
                    outputs[k],
                    view,
                    event,
                    view.known[near[k]].0,
                    distances[near[k]],
                )
            } by {
                if k < earlier.len() {
                    assert(near[k] == earlier[k]);
                    assert(outputs[k] == before[k]);
                }
            }
            assert forall|j: int|
                0 <= j < n && (#[trigger] view.known[j]).0 != event.entity_id && (
                distances[j].below(view.threshold) || distances[j].equals(
                    view.threshold,
                )) implies near.contains(j) by {
                if j < i {
                    assert(earlier.contains(j));
                    let k = earlier.index_of(j);
                    assert(near[k] == j);
                } else {
                    assert(near[earlier.len() as int] == j);
                }
            }
            near
        } else {
            earlier
        }
    }
}

/// Every alert names another known entity that is within the threshold, the threshold
/// itself included.
pub proof fn law_alerts_are_on_other_entities_within_the_threshold(
    view: ProximityView,
    event: EventView,
    distances: Seq<Number>,
    n: int,
    k: int,
)
    requires
        0 <= n <= view.known.len(),
        0 <= k < view.alerts(event, distances, n).len(),
    ensures
        exists|i: int|
            0 <= i < n && #[trigger] view.alert(event, distances, i) == view.alerts(
                event,
                    distances,
                n,
            )[k] && view.known[i].0 != event.entity_id && at_most(distances[i], view.threshold),
    decreases n,
{
    let earlier = view.alerts(event, distances, n - 1);
    if k < earlier.len() {
        law_alerts_are_on_other_entities_within_the_threshold(
            view,
            event,
            distances,
            n - 1,
            k,
        );
        let i = choose|i: int|
            0 <= i < n - 1 && #[trigger] view.alert(event, distances, i) == earlier[k]
                && view.known[i].0 != event.entity_id && at_most(distances[i], view.threshold);
        assert(view.alert(event, distances, i) == view.alerts(event, distances, n)[k]);
    } else {
        assert(view.alert(event, distances, n - 1) == view.alerts(event, distances, n)[k]);
    }
}

/// Every other entity that is within the threshold is alerted on.
pub proof fn law_every_near_entity_is_alerted_on(
    view: ProximityView,
    event: EventView,
    distances: Seq<Number>,
    n: int,
    i: int,
)
    requires
        0 <= i < n <= view.known.len(),
        view.known[i].0 != event.entity_id,
        at_most(distances[i], view.threshold),
    ensures
        view.alerts(event, distances, n).contains(view.alert(event, distances, i)),
    decreases n,
{
    let all = view.alerts(event, distances, n);
    let earlier = view.alerts(event, distances, n - 1);
    if i < n - 1 {
        law_every_near_entity_is_alerted_on(view, event, distances, n - 1, i);
        let k = choose|k: int|
            0 <= k < earlier.len() && earlier[k] == view.alert(event, distances, i);
        assert(all[k] == earlier[k]);
    } else {
        assert(all.last() == view.alert(event, distances, i));
    }
}

/// What is known are the entries, each with its name and its position, in their order; an
/// entity was last where one of them says.
pub proof fn law_what_is_known_are_the_entries(
    entries: Seq<(String, Position)>,
    view: ProximityView,
    i: int,
)
    requires
        view.known == known_positions(entries),
        0 <= i < entries.len(),
    ensures
        view.known.len() == entries.len(),
        view.known[i].0 == entries[i].0@,
        view.known[i].1 == entries[i].1,
        view.entities()[i] == entries[i].0@,
        view.last_at(entries[i].0@, entries[i].1),
{
    assert(view.known[i] == (entries[i].0@, entries[i].1));
}

} // verus!
