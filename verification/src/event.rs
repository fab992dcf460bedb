//! Events and the outputs operators produce from them.

use crate::number::Number;
use crate::text::same;
use crate::time::{Instant, Timestamp};
use vstd::prelude::*;

verus! {

/// A reading from a moving object.
#[derive(Debug)]
pub struct Event {
    pub id: String,
    pub timestamp: Timestamp,
    pub entity_id: String,
    pub lon: Number,
    pub lat: Number,
    /// In m/s.
    pub speed: Option<Number>,
    pub heading: Option<Number>,
    pub altitude: Option<Number>,
    /// Further properties by name, each value as JSON text.
    pub properties: Vec<(String, String)>,
}

/// What an event holds.
pub struct EventView {
    pub id: Seq<char>,
    pub timestamp: Instant,
    pub entity_id: Seq<char>,
    pub lon: Number,
    pub lat: Number,
    pub speed: Option<Number>,
    pub heading: Option<Number>,
    pub altitude: Option<Number>,
    pub properties: Seq<(Seq<char>, Seq<char>)>,
}

/// The texts of a list of named texts.
pub open spec fn pair_texts(v: Seq<(String, String)>) -> Seq<(Seq<char>, Seq<char>)> {
    Seq::new(v.len(), |i: int| (v[i].0@, v[i].1@))
}

impl View for Event {
    type V = EventView;

    open spec fn view(&self) -> EventView {
        EventView {
            id: self.id@,
            timestamp: self.timestamp@,
            entity_id: self.entity_id@,
            lon: self.lon,
            lat: self.lat,
            speed: self.speed,
            heading: self.heading,
            altitude: self.altitude,
            properties: pair_texts(self.properties@),
        }
    }
}

impl EventView {
    /// The event with nothing known beyond where the entity was and when.
    pub open spec fn at(
        id: Seq<char>,
        entity_id: Seq<char>,
        lon: Number,
        lat: Number,
        timestamp: Instant,
    ) -> EventView {
        EventView {
            id,
            timestamp,
            entity_id,
            lon,
            lat,
            speed: None,
            heading: None,
            altitude: None,
            properties: Seq::empty(),
        }
    }
}

impl Clone for Event {
    fn clone(&self) -> (r: Event)
        ensures
            r@ == self@,
    {
        let mut properties: Vec<(String, String)> = Vec::new();
        let mut i: usize = 0;
        while i < self.properties.len()
            invariant
                i <= self.properties@.len(),
                pair_texts(properties@) == pair_texts(self.properties@).take(i as int),
            decreases self.properties@.len() - i,
        {
            let ghost before = properties@;
            properties.push((self.properties[i].0.clone(), self.properties[i].1.clone()));
            proof {
                assert(pair_texts(properties@) =~= pair_texts(before).push(
                    pair_texts(self.properties@)[i as int],
                ));
                assert(pair_texts(self.properties@).take(i + 1) =~= pair_texts(
                    self.properties@,
                ).take(i as int).push(pair_texts(self.properties@)[i as int]));
            }
            i = i + 1;
        }
        proof {
            assert(pair_texts(self.properties@).take(i as int) =~= pair_texts(self.properties@));
        }
        Event {
            id: self.id.clone(),
            timestamp: self.timestamp,
            entity_id: self.entity_id.clone(),
            lon: self.lon,
            lat: self.lat,
            speed: self.speed,
            heading: self.heading,
            altitude: self.altitude,
            properties,
        }
    }
}

impl Event {
    /// An event that says where an entity was and when, and nothing more.
    pub fn new(
        id: &str,
        entity_id: &str,
        lon: Number,
        lat: Number,
        timestamp: Timestamp,
    ) -> (r: Event)
        ensures
            r@ == EventView::at(id@, entity_id@, lon, lat, timestamp@),
    {
        let r = Event {
            id: id.to_string(),
            timestamp,
            entity_id: entity_id.to_string(),
            lon,
            lat,
            speed: None,
            heading: None,
            altitude: None,
            properties: Vec::new(),
        };
        proof {
            assert(r@.properties =~= Seq::empty());
        }
        r
    }

    /// The event with a speed reading.
    pub fn with_speed(self, speed: Number) -> (r: Event)
        ensures
            r@ == (EventView { speed: Some(speed), ..self@ }),
    {
        let mut r = self;
        r.speed = Some(speed);
        r
    }

    /// The event with a heading.
    pub fn with_heading(self, heading: Number) -> (r: Event)
        ensures
            r@ == (EventView { heading: Some(heading), ..self@ }),
    {
        let mut r = self;
        r.heading = Some(heading);
        r
    }
}

/// One value of a payload.
#[derive(Debug)]
pub enum Field {
    Text(String),
    Count(u64),
    Millis(i64),
    Seconds(i64),
    Number(Number),
}

/// What a payload value holds.
pub enum FieldView {
    Text(Seq<char>),
    Count(nat),
    Millis(int),
    Seconds(int),
    Number(Number),
}

impl View for Field {
    type V = FieldView;

    open spec fn view(&self) -> FieldView {
        match self {
            Field::Text(t) => FieldView::Text(t@),
            Field::Count(n) => FieldView::Count(*n as nat),
            Field::Millis(n) => FieldView::Millis(*n as int),
            Field::Seconds(n) => FieldView::Seconds(*n as int),
            Field::Number(n) => FieldView::Number(*n),
        }
    }
}

impl Clone for Field {
    fn clone(&self) -> (r: Field)
        ensures
            r@ == self@,
    {
        match self {
            Field::Text(t) => Field::Text(t.clone()),
            Field::Count(n) => Field::Count(*n),
            Field::Millis(n) => Field::Millis(*n),
            Field::Seconds(n) => Field::Seconds(*n),
            Field::Number(n) => Field::Number(*n),
        }
    }
}

/// The members of an output's payload object, in order.
#[derive(Debug)]
pub struct Payload {
    pub members: Vec<(String, Field)>,
}

impl View for Payload {
    type V = Seq<(Seq<char>, FieldView)>;

    open spec fn view(&self) -> Seq<(Seq<char>, FieldView)> {
        Seq::new(self.members@.len(), |i: int| (self.members@[i].0@, self.members@[i].1@))
    }
}

/// The position of the first member named `name`, or the number of members.
pub open spec fn member_position(
    members: Seq<(Seq<char>, FieldView)>,
    name: Seq<char>,
    i: int,
) -> int
    decreases members.len() - i,
{
    if i >= members.len() {
        members.len() as int
    } else if members[i].0 == name {
        i
    } else {
        member_position(members, name, i + 1)
    }
}

impl Clone for Payload {
    fn clone(&self) -> (r: Payload)
        ensures
            r@ == self@,
    {
        let mut r = Payload::new();
        let mut i: usize = 0;
        while i < self.members.len()
            invariant
                i <= self.members@.len(),
                r@ == self@.take(i as int),
            decreases self.members@.len() - i,
        {
            r = r.with(self.members[i].0.as_str(), self.members[i].1.clone());
            proof {
                assert(self@.take(i + 1) =~= self@.take(i as int).push(self@[i as int]));
            }
            i = i + 1;
        }
        proof {
            assert(self@.take(i as int) =~= self@);
        }
        r
    }
}

impl Payload {
    /// A payload with no members.
    pub fn new() -> (r: Payload)
        ensures
            r@ == Seq::<(Seq<char>, FieldView)>::empty(),
    {
        let r = Payload { members: Vec::new() };
        proof {
            assert(r@ =~= Seq::empty());
        }
        r
    }

    /// The payload with one more member at the end.
    pub fn with(self, name: &str, value: Field) -> (r: Payload)
        ensures
            r@ == self@.push((name@, value@)),
    {
        let ghost before = self@;
        let ghost added = value@;
        let mut r = self;
        r.members.push((name.to_string(), value));
        proof {
            assert(r@ =~= before.push((name@, added)));
        }
        r
    }

    /// The payload with one more text member at the end.
    pub fn with_text(self, name: &str, value: &str) -> (r: Payload)
        ensures
            r@ == self@.push((name@, FieldView::Text(value@))),
    {
        self.with(name, Field::Text(value.to_string()))
    }

    /// The value of the first member named `name`.
    pub fn get(&self, name: &str) -> (r: Option<&Field>)
        ensures
            match r {
                Some(f) => member_position(self@, name@, 0) < self@.len() && f@
                    == self@[member_position(self@, name@, 0)].1,
                None => member_position(self@, name@, 0) == self@.len(),
            },
    {
        let mut i: usize = 0;
        while i < self.members.len()
            invariant
                i <= self.members@.len(),
                member_position(self@, name@, 0) == member_position(self@, name@, i as int),
            decreases self.members@.len() - i,
        {
            if same(self.members[i].0.as_str(), name) {
                return Some(&self.members[i].1);
            }
            i = i + 1;
        }
        None
    }
}

/// What an operator emits: the event it saw, who it is and what it has to say.
#[derive(Debug)]
pub struct OutputEvent {
    pub source_event: Event,
    pub operator: String,
    pub payload: Payload,
}

/// What an output holds.
pub struct OutputEventView {
    pub source_event: EventView,
    pub operator: Seq<char>,
    pub payload: Seq<(Seq<char>, FieldView)>,
}

impl View for OutputEvent {
    type V = OutputEventView;

    open spec fn view(&self) -> OutputEventView {
        OutputEventView {
            source_event: self.source_event@,
            operator: self.operator@,
            payload: self.payload@,
        }
    }
}

impl Clone for OutputEvent {
    fn clone(&self) -> (r: OutputEvent)
        ensures
            r@ == self@,
    {
        OutputEvent {
            source_event: self.source_event.clone(),
            operator: self.operator.clone(),
            payload: self.payload.clone(),
        }
    }
}

/// What a list of outputs holds.
pub open spec fn output_views(v: Seq<OutputEvent>) -> Seq<OutputEventView> {
    Seq::new(v.len(), |i: int| v[i]@)
}

impl OutputEventView {
    /// Whether the payload has this member.
    pub open spec fn carries(self, name: Seq<char>, value: FieldView) -> bool {
        exists|i: int| 0 <= i < self.payload.len() && #[trigger] self.payload[i] == (name, value)
    }

    /// Whether this is what an operator has to say of an event, in this many members.
    pub open spec fn is_from(self, operator: Seq<char>, event: EventView, members: nat) -> bool {
        self.operator == operator && self.source_event == event && self.payload.len() == members
    }
}

/// A member is found by its name where there is one of that name, and of several the first.
pub proof fn law_a_member_is_found_by_its_name(
    members: Seq<(Seq<char>, FieldView)>,
    name: Seq<char>,
    i: int,
)
    requires
        0 <= i <= members.len(),
    ensures
        i <= member_position(members, name, i) <= members.len(),
        member_position(members, name, i) < members.len() ==> members[member_position(
            members,
            name,
            i,
        )].0 == name,
        forall|k: int|
            i <= k < member_position(members, name, i) ==> (#[trigger] members[k]).0 != name,
    decreases members.len() - i,
{
    if i < members.len() && members[i].0 != name {
        law_a_member_is_found_by_its_name(members, name, i + 1);
    }
}

/// A new event says where an entity was and when, and nothing more.
pub proof fn law_a_new_event_says_where_and_when(
    id: Seq<char>,
    entity_id: Seq<char>,
    lon: Number,
    lat: Number,
    timestamp: Instant,
)
    ensures
        ({
            let event = EventView::at(id, entity_id, lon, lat, timestamp);
            &&& event.id == id && event.entity_id == entity_id
            &&& event.lon == lon && event.lat == lat
            &&& event.timestamp == timestamp
            &&& event.speed is None && event.heading is None && event.altitude is None
            &&& event.properties.len() == 0
        }),
{
}

/// The view of an event shows every one of its fields as it is.
pub proof fn law_the_view_of_an_event_shows_every_field(event: Event, i: int)
    ensures
        event@.id == event.id@,
        event@.timestamp == event.timestamp@,
        event@.entity_id == event.entity_id@,
        event@.lon == event.lon,
        event@.lat == event.lat,
        event@.speed == event.speed,
        event@.heading == event.heading,
        event@.altitude == event.altitude,
        event@.properties.len() == event.properties@.len(),
        0 <= i < event.properties@.len() ==> event@.properties[i] == (
            event.properties@[i].0@,
            event.properties@[i].1@,
        ),
{
}

/// The view of an output shows its event, its operator and every member of its payload in
/// order, and the view of a list every output in order.
pub proof fn law_the_view_of_an_output_shows_every_member(
    outputs: Seq<OutputEvent>,
    i: int,
    k: int,
)
    requires
        0 <= i < outputs.len(),
        0 <= k < outputs[i].payload.members@.len(),
    ensures
        output_views(outputs).len() == outputs.len(),
        ({
            let shown = output_views(outputs)[i];
            let output = outputs[i];
            let member = output.payload.members@[k];
            &&& shown.source_event == output.source_event@
            &&& shown.operator == output.operator@
            &&& shown.payload.len() == output.payload.members@.len()
            &&& shown.payload[k].0 == member.0@
            &&& member.1 matches Field::Text(text) ==> shown.payload[k].1 == FieldView::Text(text@)
            &&& member.1 matches Field::Count(n) ==> shown.payload[k].1 == FieldView::Count(
                n as nat,
            )
            &&& member.1 matches Field::Millis(n) ==> shown.payload[k].1 == FieldView::Millis(
                n as int,
            )
            &&& member.1 matches Field::Seconds(n) ==> shown.payload[k].1 == FieldView::Seconds(
                n as int,
            )
            &&& member.1 matches Field::Number(n) ==> shown.payload[k].1 == FieldView::Number(n)
        }),
{
}

} // verus!
