//! Geofencing: enter and exit events per entity and zone.
//!
//! Whether a position is inside a zone is measured by the caller; what that means for an
//! entity is decided here.

use crate::event::{
    output_views, Event, EventView, FieldView, OutputEvent, OutputEventView, Payload,
};
use crate::keyed::Keyed;
use crate::text::{same, texts};
use vstd::prelude::*;

verus! {

/// Emits an event when an entity enters or leaves a zone.
pub struct GeofenceOperator {
    name: String,
    /// The names of the zones.
    zones: Vec<String>,
    /// For each entity, whether it was last inside each zone.
    inside: Keyed<Vec<bool>>,
}

/// The sides of each entity's zones.
pub open spec fn sides_fit(inside: Keyed<Vec<bool>>, zones: nat) -> bool {
    forall|i: int|
        0 <= i < inside.entries@.len() ==> (#[trigger] inside.entries@[i]).1@.len() == zones
}

/// Whether an entity is inside a zone. One that is not known is not.
pub open spec fn side(inside: Keyed<Vec<bool>>, entity: Seq<char>, zone: int) -> bool {
    inside.has(entity) && 0 <= zone < inside.value(entity)@.len() && inside.value(entity)@[zone]
}

/// What a geofence carries over to a later run: the zones its sides speak of, and for each
/// entity whether it was inside each of them.
#[derive(Debug)]
pub struct GeofenceState {
    pub zones: Vec<String>,
    pub inside: Keyed<Vec<bool>>,
}

impl GeofenceState {
    /// Whether the state was taken over these zones and is complete.
    pub open spec fn fits(&self, zones: Seq<Seq<char>>) -> bool {
        texts(self.zones@) == zones && sides_fit(self.inside, zones.len())
    }
}

impl GeofenceOperator {
    #[verifier::type_invariant]
    spec fn inv(self) -> bool {
        self.inside.distinct() && sides_fit(self.inside, self.zones@.len())
    }

    /// The operator's name.
    pub closed spec fn spec_name(&self) -> Seq<char> {
        self.name@
    }

    /// The names of the zones.
    pub closed spec fn zones(&self) -> Seq<Seq<char>> {
        texts(self.zones@)
    }

    /// Whether an entity was last inside a zone. One that is not known was not.
    pub closed spec fn was_inside(&self, entity: Seq<char>, zone: int) -> bool {
        side(self.inside, entity, zone)
    }

    /// What is emitted when an entity crosses the edge of a zone.
    pub open spec fn crossing(&self, event: EventView, zone: int, entered: bool) -> OutputEventView {
        OutputEventView {
            source_event: event,
            operator: self.spec_name(),
            payload: seq![
                (
                    "event"@,
                    FieldView::Text(
                        if entered {
                            "Enter"@
                        } else {
                            "Exit"@
                        },
                    ),
                ),
                ("zone"@, FieldView::Text(self.zones()[zone])),
            ],
        }
    }

    /// What is emitted for the first `n` zones.
    pub open spec fn crossings(&self, event: EventView, contained: Seq<bool>, n: int) -> Seq<
        OutputEventView,
    >
        decreases n,
    {
        if n <= 0 {
            Seq::empty()
        } else {
            let earlier = self.crossings(event, contained, n - 1);
            if self.was_inside(event.entity_id, n - 1) != contained[n - 1] {
                earlier.push(self.crossing(event, n - 1, contained[n - 1]))
            } else {
                earlier
            }
        }
    }

    /// An operator that watches these zones and has seen no entity.
    pub fn new(name: &str, zones: Vec<String>) -> (r: GeofenceOperator)
        ensures
            r.spec_name() == name@,
            r.zones() == texts(zones@),
            forall|entity: Seq<char>, zone: int| !#[trigger] r.was_inside(entity, zone),
    {
        let r = GeofenceOperator { name: name.to_string(), zones, inside: Keyed::new() };
        proof {
            assert(r.inside.names() =~= Seq::empty());
        }
        r
    }

    /// The operator's name.
    pub fn name(&self) -> (r: &str)
        ensures
            r@ == self.spec_name(),
    {
        self.name.as_str()
    }

    /// The state to carry over to a later run.
    pub fn snapshot(&self) -> (r: GeofenceState)
        ensures
            r.inside.distinct(),
            r.fits(self.zones()),
            forall|entity: Seq<char>, zone: int|
                #[trigger] side(r.inside, entity, zone) == self.was_inside(entity, zone),
    {
        proof {
            use_type_invariant(self);
        }
        let mut zones: Vec<String> = Vec::new();
        let mut i: usize = 0;
        while i < self.zones.len()
            invariant
                i <= self.zones@.len(),
                texts(zones@) == texts(self.zones@).take(i as int),
            decreases self.zones@.len() - i,
        {
            let ghost earlier = zones@;
            zones.push(self.zones[i].clone());
            proof {
                assert(texts(zones@) =~= texts(earlier).push(self.zones@[i as int]@));
                assert(texts(self.zones@).take(i + 1) =~= texts(self.zones@).take(i as int).push(
                    self.zones@[i as int]@,
                ));
            }
            i = i + 1;
        }
        let mut entries: Vec<(String, Vec<bool>)> = Vec::new();
        let mut k: usize = 0;
        while k < self.inside.entries.len()
            invariant
                k <= self.inside.entries@.len(),
                entries@.len() == k,
                forall|j: int|
                    0 <= j < k ==> (#[trigger] entries@[j]).0@ == self.inside.entries@[j].0@
                        && entries@[j].1@ == self.inside.entries@[j].1@,
            decreases self.inside.entries@.len() - k,
        {
            let entry = &self.inside.entries[k];
            let mut sides: Vec<bool> = Vec::new();
            let mut j: usize = 0;
            while j < entry.1.len()
                invariant
                    j <= entry.1@.len(),
                    sides@ == entry.1@.take(j as int),
                decreases entry.1@.len() - j,
            {
                sides.push(entry.1[j]);
                proof {
                    assert(entry.1@.take(j + 1) =~= entry.1@.take(j as int).push(
                        entry.1@[j as int],
                    ));
                }
                j = j + 1;
            }
            proof {
                assert(entry.1@.take(j as int) =~= entry.1@);
            }
            entries.push((entry.0.clone(), sides));
            k = k + 1;
        }
        let inside = Keyed { entries };
        proof {
            assert(texts(self.zones@).take(i as int) =~= texts(self.zones@));
            assert(inside.names() =~= self.inside.names());
            assert forall|entity: Seq<char>, zone: int|
                #[trigger] side(inside, entity, zone) == self.was_inside(entity, zone) by {
                if self.inside.has(entity) {
                    let at = self.inside.position_of(entity);
                    assert(self.inside.names()[at] == entity);
                    assert(inside.entries@[at].1@ == self.inside.entries@[at].1@);
                }
            }
            assert forall|j: int| 0 <= j < inside.entries@.len() implies (
            #[trigger] inside.entries@[j]).1@.len() == self.zones@.len() by {
                assert(self.inside.entries@[j].1@.len() == self.zones@.len());
            }
        }
        GeofenceState { zones, inside }
    }

    /// Takes up a state of an earlier run. One that speaks of other zones, or leaves one
    /// out, changes nothing.
    pub fn restore(&mut self, state: GeofenceState)
        requires
            state.inside.distinct(),
        ensures
            final(self).spec_name() == old(self).spec_name(),
            final(self).zones() == old(self).zones(),
            forall|entity: Seq<char>, zone: int| #[trigger]
                final(self).was_inside(entity, zone) == (if state.fits(old(self).zones()) {
                    side(state.inside, entity, zone)
                } else {
                    old(self).was_inside(entity, zone)
                }),
    {
        if state.zones.len() != self.zones.len() {
            proof {
                assert(texts(state.zones@).len() != texts(self.zones@).len());
            }
            return ;
        }
        let mut i: usize = 0;
        while i < self.zones.len()
            invariant
                i <= self.zones@.len() == state.zones@.len(),
                forall|k: int| 0 <= k < i ==> (#[trigger] state.zones@[k])@ == self.zones@[k]@,
            decreases self.zones@.len() - i,
        {
            if !same(state.zones[i].as_str(), self.zones[i].as_str()) {
                proof {
                    assert(texts(state.zones@)[i as int] != texts(self.zones@)[i as int]);
                }
                return ;
            }
            i = i + 1;
        }
        let mut k: usize = 0;
        while k < state.inside.entries.len()
            invariant
                k <= state.inside.entries@.len(),
                forall|j: int|
                    0 <= j < k ==> (#[trigger] state.inside.entries@[j]).1@.len()
                        == self.zones@.len(),
            decreases state.inside.entries@.len() - k,
        {
            if state.inside.entries[k].1.len() != self.zones.len() {
                return ;
            }
            k = k + 1;
        }
        proof {
            assert(texts(state.zones@) =~= texts(self.zones@));
        }
        self.inside = state.inside;
    }

    /// Emits a crossing for each zone that the entity is now on the other side of.
    /// `contained` says for each zone whether the event is inside it.
    pub fn process(&mut self, event: &Event, contained: &Vec<bool>) -> (r: Vec<OutputEvent>)
        requires
            contained@.len() == old(self).zones().len(),
        ensures
            output_views(r@) == old(self).crossings(
                event@,
                contained@,
                old(self).zones().len() as int,
            ),
            final(self).spec_name() == old(self).spec_name(),
            final(self).zones() == old(self).zones(),
            forall|zone: int|
                0 <= zone < old(self).zones().len() ==> #[trigger] final(self).was_inside(
                    event@.entity_id,
                    zone,
                ) == contained@[zone],
            forall|entity: Seq<char>, zone: int|
                entity != event@.entity_id ==> #[trigger] final(self).was_inside(entity, zone)
                    == old(self).was_inside(entity, zone),
    {
        proof {
            use_type_invariant(&*self);
        }
        let ghost before = *self;
        let entity = event.entity_id.as_str();
        let mut outputs: Vec<OutputEvent> = Vec::new();
        let mut now: Vec<bool> = Vec::new();
        let mut i: usize = 0;
        proof {
            assert(output_views(outputs@) =~= Seq::empty());
        }
        while i < self.zones.len()
            invariant
                *self == before,
                self.inside.distinct(),
                entity@ == event@.entity_id,
                i <= self.zones@.len(),
                contained@.len() == self.zones@.len(),
                now@ == contained@.take(i as int),
                output_views(outputs@) == self.crossings(event@, contained@, i as int),
                sides_fit(self.inside, self.zones@.len()),
            decreases self.zones@.len() - i,
        {
            let ghost earlier = output_views(outputs@);
            let was: bool = match self.inside.get(entity) {
                Some(sides) => {
                    proof {
                        let k = self.inside.position_of(entity@);
                        assert(self.inside.names()[k] == entity@);
                        assert(self.inside.entries@[k].1@.len() == self.zones@.len());
                    }
                    sides[i]
                },
                None => false,
            };
            let is: bool = contained[i];
            if was != is {
                let payload = Payload::new().with_text(
                    "event",
                    if is {
                        "Enter"
                    } else {
                        "Exit"
                    },
                ).with_text("zone", self.zones[i].as_str());
                proof {
                    assert(payload@ =~= self.crossing(event@, i as int, is).payload);
                }
                let output = OutputEvent {
                    source_event: event.clone(),
                    operator: self.name.clone(),
                    payload,
                };
                outputs.push(output);
                proof {
                    assert(output_views(outputs@) =~= earlier.push(output@));
                }
            }
            now.push(is);
            proof {
                assert(contained@.take(i + 1) =~= contained@.take(i as int).push(
                    contained@[i as int],
                ));
            }
            i = i + 1;
        }
        proof {
            assert(contained@.take(i as int) =~= contained@);
        }
        let mut inside: Keyed<Vec<bool>> = Keyed::new();
        std::mem::swap(&mut inside, &mut self.inside);
        inside.put(entity, now);
        let ghost placed = inside;
        proof {
            assert forall|k: int| 0 <= k < placed.entries@.len() implies (
            #[trigger] placed.entries@[k]).1@.len() == self.zones@.len() by {
                placed.lemma_position(k);
                if placed.names()[k] == entity@ {
                    assert(placed.lookup(entity@) == Some(now));
                } else {
                    let name = placed.names()[k];
                    assert(placed.lookup(name) == before.inside.lookup(name));
                    let j = before.inside.position_of(name);
                    assert(before.inside.names()[j] == name);
                    assert(before.inside.entries@[j].1@.len() == before.zones@.len());
                }
            }
        }
        self.inside = inside;
        proof {
            assert(placed.lookup(entity@) == Some(now));
            assert forall|other: Seq<char>, zone: int|
                other != entity@ implies #[trigger] self.was_inside(other, zone)
                == before.was_inside(other, zone) by {
                assert(placed.lookup(other) == before.inside.lookup(other));
            }
        }
        outputs
    }
}

/// Whether an output says that an entity entered or left a zone.
pub open spec fn tells_of_crossing(
    output: OutputEventView,
    operator: Seq<char>,
    event: EventView,
    zone: Seq<char>,
    entered: bool,
) -> bool {
    output.is_from(operator, event, 2) && output.carries("zone"@, FieldView::Text(zone))
        && output.carries(
        "event"@,
        FieldView::Text(
            if entered {
                "Enter"@
            } else {
                "Exit"@
            },
        ),
    )
}

/// What is emitted are the crossings and nothing else: one output for each zone that the
/// entity is now on the other side of, whatever happens at the other zones, in the order of
/// the zones. It tells of an entry where the entity was outside and is inside, and of an exit
/// where it was inside and is outside. `crossed` gives the zones of the outputs.
pub proof fn law_each_crossing_is_reported_and_nothing_else(
    operator: GeofenceOperator,
    event: EventView,
    contained: Seq<bool>,
    n: int,
) -> (crossed: Seq<int>)
    requires
        0 <= n,
    ensures
        crossed.len() == operator.crossings(event, contained, n).len(),
        forall|k: int|
            0 <= k < crossed.len() ==> {
                &&& 0 <= #[trigger] crossed[k] < n
                &&& operator.was_inside(event.entity_id, crossed[k]) != contained[crossed[k]]
                &&& tells_of_crossing(
                    operator.crossings(event, contained, n)[k],
                    operator.spec_name(),
                    event,
                    operator.zones()[crossed[k]],
                    !operator.was_inside(event.entity_id, crossed[k]),
                )
            },
        forall|zone: int|
            0 <= zone < n && #[trigger] operator.was_inside(event.entity_id, zone)
                != contained[zone] ==> crossed.contains(zone),
        forall|j: int, k: int| 0 <= j < k < crossed.len() ==> crossed[j] < crossed[k],
    decreases n,
{
    if n <= 0 {
        Seq::empty()
    } else {
        let earlier = law_each_crossing_is_reported_and_nothing_else(
            operator,
            event,
            contained,
            n - 1,
        );
        let z = n - 1;
        let outputs = operator.crossings(event, contained, n);
        let before = operator.crossings(event, contained, n - 1);
        if operator.was_inside(event.entity_id, z) != contained[z] {
            let crossed = earlier.push(z);
            let last = operator.crossing(event, z, contained[z]);
            assert(outputs == before.push(last));
            assert(last.payload[0] == ("event"@, FieldView::Text(
                if contained[z] {
                    "Enter"@
                } else {
                    "Exit"@
                },
            )));
            assert(last.payload[1] == ("zone"@, FieldView::Text(operator.zones()[z])));
            assert forall|k: int| 0 <= k < crossed.len() implies {
                &&& 0 <= #[trigger] crossed[k] < n
                &&& operator.was_inside(event.entity_id, crossed[k]) != contained[crossed[k]]
                &&& tells_of_crossing(
                    outputs[k],
                    operator.spec_name(),
                    event,
                    operator.zones()[crossed[k]],
                    !operator.was_inside(event.entity_id, crossed[k]),
                )
            } by {
                if k < earlier.len() {
                    assert(crossed[k] == earlier[k]);
                    assert(outputs[k] == before[k]);
                }
            }
            assert forall|zone: int|
                0 <= zone < n && #[trigger] operator.was_inside(event.entity_id, zone)
                    != contained[zone] implies crossed.contains(zone) by {
                if zone < z {
                    assert(earlier.contains(zone));
                    let k = earlier.index_of(zone);
                    assert(crossed[k] == zone);
                } else {
                    assert(crossed[earlier.len() as int] == zone);
                }
            }
            crossed
        } else {
            earlier
        }
    }
}

/// Two reports on an entity one after the other: the second tells of exactly the zones whose
/// sides differ between them, and of the side that the second found.
pub proof fn law_crossings_follow_from_two_reports(
    operator: GeofenceOperator,
    event: EventView,
    first: Seq<bool>,
    second: Seq<bool>,
    n: int,
) -> (crossed: Seq<int>)
    requires
        0 <= n,
        forall|zone: int|
            0 <= zone < n ==> #[trigger] operator.was_inside(event.entity_id, zone) == first[zone],
    ensures
        crossed.len() == operator.crossings(event, second, n).len(),
        forall|zone: int|
            0 <= zone < n ==> (#[trigger] crossed.contains(zone) <==> first[zone] != second[zone]),
        forall|k: int|
            0 <= k < crossed.len() ==> 0 <= #[trigger] crossed[k] < n && tells_of_crossing(
                operator.crossings(event, second, n)[k],
                operator.spec_name(),
                event,
                operator.zones()[crossed[k]],
                second[crossed[k]],
            ),
{
    let crossed = law_each_crossing_is_reported_and_nothing_else(operator, event, second, n);
    assert forall|zone: int| 0 <= zone < n implies (#[trigger] crossed.contains(zone)
        <==> first[zone] != second[zone]) by {
        assert(operator.was_inside(event.entity_id, zone) == first[zone]);
        if crossed.contains(zone) {
            let k = crossed.index_of(zone);
            assert(crossed[k] == zone);
        }
    }
    assert forall|k: int| 0 <= k < crossed.len() implies 0 <= #[trigger] crossed[k] < n
        && tells_of_crossing(
        operator.crossings(event, second, n)[k],
        operator.spec_name(),
        event,
        operator.zones()[crossed[k]],
        second[crossed[k]],
    ) by {
        assert(operator.was_inside(event.entity_id, crossed[k]) == first[crossed[k]]);
    }
    crossed
}

/// A geofence that took up the state of an earlier run reports what the earlier one would
/// have reported.
pub proof fn law_a_resumed_geofence_reports_as_the_first_would(
    first: GeofenceOperator,
    resumed: GeofenceOperator,
    event: EventView,
    contained: Seq<bool>,
    n: int,
)
    requires
        resumed.spec_name() == first.spec_name(),
        resumed.zones() == first.zones(),
        forall|zone: int| #[trigger]
            resumed.was_inside(event.entity_id, zone) == first.was_inside(event.entity_id, zone),
    ensures
        resumed.crossings(event, contained, n) == first.crossings(event, contained, n),
    decreases n,
{
    if n > 0 {
        law_a_resumed_geofence_reports_as_the_first_would(
            first,
            resumed,
            event,
            contained,
            n - 1,
        );
    }
}

/// Between two reports on an entity and a zone the entity has crossed the edge: a position
/// on the same side as the one before emits nothing for that zone.
pub proof fn law_staying_on_one_side_is_silent(
    operator: GeofenceOperator,
    event: EventView,
    contained: Seq<bool>,
    n: int,
)
    requires
        forall|zone: int|
            0 <= zone < n ==> operator.was_inside(event.entity_id, zone)
                == #[trigger] contained[zone],
    ensures
        operator.crossings(event, contained, n).len() == 0,
    decreases n,
{
    if n > 0 {
        law_staying_on_one_side_is_silent(operator, event, contained, n - 1);
        assert(operator.was_inside(event.entity_id, n - 1) == contained[n - 1]);
    }
}

/// A state is taken up where it names the same zones in the same order and has a side of each
/// of them for each entity.
pub proof fn law_a_state_fits_its_own_zones_only(state: GeofenceState, zones: Seq<Seq<char>>)
    ensures
        state.fits(zones) <==> {
            &&& state.zones@.len() == zones.len()
            &&& forall|i: int| 0 <= i < zones.len() ==> (#[trigger] state.zones@[i])@ == zones[i]
            &&& forall|i: int|
                0 <= i < state.inside.entries@.len() ==> (
                #[trigger] state.inside.entries@[i]).1@.len() == zones.len()
        },
{
    let named = texts(state.zones@);
    if state.zones@.len() == zones.len() && (forall|i: int|
        0 <= i < zones.len() ==> (#[trigger] state.zones@[i])@ == zones[i]) {
        assert forall|i: int| 0 <= i < zones.len() implies #[trigger] named[i] == zones[i] by {
            assert(state.zones@[i]@ == zones[i]);
        }
        assert(named =~= zones);
    }
    if state.fits(zones) {
        assert forall|i: int| 0 <= i < zones.len() implies (#[trigger] state.zones@[i])@
            == zones[i] by {
            assert(named[i] == state.zones@[i]@);
        }
    }
}

/// An entity is on the side of a zone that its entry says, and outside every zone where it has
/// none.
pub proof fn law_a_side_is_what_the_entry_says(inside: Keyed<Vec<bool>>, i: int, zone: int)
    requires
        inside.distinct(),
        0 <= i < inside.entries@.len(),
        0 <= zone < inside.entries@[i].1@.len(),
    ensures
        side(inside, inside.entries@[i].0@, zone) == inside.entries@[i].1@[zone],
        forall|entity: Seq<char>|
            !inside.names().contains(entity) ==> !#[trigger] side(inside, entity, zone),
{
    inside.lemma_position(i);
    assert(inside.names()[i] == inside.entries@[i].0@);
}

} // verus!
