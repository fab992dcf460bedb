//! Complex event processing: detect temporal and spatial patterns in event streams.

use crate::condition::EventCondition;
use crate::event::{
    output_views, Event, EventView, Field, FieldView, OutputEvent, OutputEventView, Payload,
};
use crate::keyed::Keyed;
use crate::number::Number;
use crate::time::{toward_zero, Instant, Timestamp};
use std::collections::HashMap;
use vstd::prelude::*;

verus! {

broadcast use vstd::std_specs::hash::group_hash_axioms;

/// A single step in a pattern.
pub struct PatternStep<C: EventCondition> {
    pub name: String,
    pub condition: C,
    /// Optional spatial constraint: longitude, latitude and radius, in degrees.
    pub near: Option<(Number, Number, Number)>,
}

/// A complete pattern: a sequence of steps that must occur within a time window.
pub struct Pattern<C: EventCondition> {
    pub name: String,
    pub steps: Vec<PatternStep<C>>,
    /// Maximum time for the entire pattern to complete, in milliseconds.
    pub within_millis: u128,
}

/// An in-progress match of one pattern by one entity.
pub struct MatchState {
    /// Index of the next step to match.
    pub current_step: usize,
    /// Timestamp when the first step matched.
    pub started_at: Timestamp,
    /// Matched events so far.
    pub matched_events: Vec<Event>,
}

/// An in-progress match.
pub struct MatchView {
    pub current_step: nat,
    pub started_at: Instant,
    pub matched: Seq<EventView>,
}

/// What a list of events holds.
pub open spec fn event_views(v: Seq<Event>) -> Seq<EventView> {
    Seq::new(v.len(), |i: int| v[i]@)
}

impl View for MatchState {
    type V = MatchView;

    open spec fn view(&self) -> MatchView {
        MatchView {
            current_step: self.current_step as nat,
            started_at: self.started_at@,
            matched: event_views(self.matched_events@),
        }
    }
}

/// An in-progress match, if there is one.
pub open spec fn match_view(held: Option<MatchState>) -> Option<MatchView> {
    match held {
        Some(m) => Some(m@),
        None => None,
    }
}

impl MatchView {
    /// Nothing matched yet.
    pub open spec fn fresh(now: Instant) -> MatchView {
        MatchView { current_step: 0, started_at: now, matched: Seq::empty() }
    }

    /// As many events as steps have matched, and the clock runs from the first of them.
    pub open spec fn consistent(self) -> bool {
        self.matched.len() == self.current_step && (self.current_step > 0
            ==> self.matched[0].timestamp == self.started_at)
    }
}

impl<C: EventCondition> PatternStep<C> {
    /// Whether an event at this distance from the step's place, if it has one, matches.
    pub open spec fn accepts(self, event: EventView, distance: Number) -> bool {
        self.condition.holds(event) && match self.near {
            Some((_, _, radius)) => !radius.below(distance),
            None => true,
        }
    }
}

impl<C: EventCondition> Pattern<C> {
    /// The match in progress when an event comes: a fresh one if there was none or if it
    /// has taken too long.
    pub open spec fn resumed(self, partial: Option<MatchView>, now: Instant) -> MatchView {
        match partial {
            Some(m) => if toward_zero(now.since(m.started_at), 1_000_000) > self.within_millis
                && m.current_step > 0 {
                MatchView::fresh(now)
            } else {
                m
            },
            None => MatchView::fresh(now),
        }
    }

    /// Whether the event matches the step that is next.
    pub open spec fn advances(
        self,
        partial: Option<MatchView>,
        event: EventView,
        distances: Seq<Number>,
    ) -> bool {
        let step = self.resumed(partial, event.timestamp).current_step as int;
        step < self.steps@.len() && self.steps@[step].accepts(event, distances[step])
    }

    /// The match after the step that is next matched.
    pub open spec fn extended(self, partial: Option<MatchView>, event: EventView) -> MatchView {
        let m = self.resumed(partial, event.timestamp);
        MatchView {
            current_step: m.current_step + 1,
            started_at: if m.current_step == 0 {
                event.timestamp
            } else {
                m.started_at
            },
            matched: m.matched.push(event),
        }
    }

    /// Whether the event completes the pattern.
    pub open spec fn completes(
        self,
        partial: Option<MatchView>,
        event: EventView,
        distances: Seq<Number>,
    ) -> bool {
        self.advances(partial, event, distances) && self.extended(partial, event).current_step
            >= self.steps@.len()
    }

    /// The match after an event.
    pub open spec fn after(
        self,
        partial: Option<MatchView>,
        event: EventView,
        distances: Seq<Number>,
    ) -> MatchView {
        if self.completes(partial, event, distances) {
            MatchView {
                current_step: 0,
                matched: Seq::empty(),
                ..self.extended(partial, event)
            }
        } else if self.advances(partial, event, distances) {
            self.extended(partial, event)
        } else {
            self.resumed(partial, event.timestamp)
        }
    }

    /// The milliseconds from the first matched event to the one that completes the pattern.
    pub open spec fn duration(self, partial: Option<MatchView>, event: EventView) -> int {
        toward_zero(
            event.timestamp.since(self.extended(partial, event).matched[0].timestamp),
            1_000_000,
        )
    }

    /// What is emitted when the event completes the pattern.
    pub open spec fn completion(
        self,
        partial: Option<MatchView>,
        event: EventView,
    ) -> OutputEventView {
        OutputEventView {
            source_event: event,
            operator: "cep:"@ + self.name@,
            payload: seq![
                ("pattern"@, FieldView::Text(self.name@)),
                ("entity_id"@, FieldView::Text(event.entity_id)),
                (
                    "steps_matched"@,
                    FieldView::Count(self.extended(partial, event).matched.len()),
                ),
                ("duration_ms"@, FieldView::Millis(self.duration(partial, event))),
            ],
        }
    }
}

/// The matches in progress, by entity and pattern.
pub struct CepState {
    pub matches: Keyed<HashMap<usize, MatchState>>,
}

impl CepState {
    /// The match of a pattern by an entity, if one is in progress.
    pub open spec fn partial(self, entity: Seq<char>, pattern: int) -> Option<MatchView> {
        if self.matches.has(entity) && 0 <= pattern <= usize::MAX && self.matches.value(
            entity,
        )@.dom().contains(pattern as usize) {
            Some(self.matches.value(entity)@[pattern as usize]@)
        } else {
            None
        }
    }

    /// No entity occurs twice.
    pub open spec fn distinct(self) -> bool {
        self.matches.distinct()
    }

    /// No matches in progress.
    pub fn new() -> (r: CepState)
        ensures
            r.distinct(),
            forall|entity: Seq<char>, pattern: int| #[trigger]
                r.partial(entity, pattern) is None,
    {
        let r = CepState { matches: Keyed::new() };
        proof {
            assert(r.matches.names() =~= Seq::empty());
        }
        r
    }
}

/// Engine that evaluates patterns against incoming events.
pub struct CepEngine<C: EventCondition> {
    patterns: Vec<Pattern<C>>,
    state: CepState,
}

impl<C: EventCondition> CepEngine<C> {
    #[verifier::type_invariant]
    spec fn inv(self) -> bool {
        self.state.distinct()
    }

    /// The patterns in the order they were registered.
    pub closed spec fn patterns(&self) -> Seq<Pattern<C>> {
        self.patterns@
    }

    /// The match of a pattern by an entity, if one is in progress.
    pub closed spec fn partial(&self, entity: Seq<char>, pattern: int) -> Option<MatchView> {
        self.state.partial(entity, pattern)
    }

    /// What the first `n` patterns emit for an event.
    pub open spec fn emitted(
        &self,
        event: EventView,
        distances: Seq<Vec<Number>>,
        n: int,
    ) -> Seq<OutputEventView>
        decreases n,
    {
        if n <= 0 {
            Seq::empty()
        } else {
            let p = n - 1;
            let earlier = self.emitted(event, distances, p);
            if self.patterns()[p].completes(
                self.partial(event.entity_id, p),
                event,
                distances[p]@,
            ) {
                earlier.push(
                    self.patterns()[p].completion(self.partial(event.entity_id, p), event),
                )
            } else {
                earlier
            }
        }
    }

    /// Whether there is a distance for each step of each pattern.
    pub open spec fn measured(&self, distances: Seq<Vec<Number>>) -> bool {
        distances.len() == self.patterns().len() && forall|p: int|
            0 <= p < distances.len() ==> (#[trigger] distances[p])@.len()
                == self.patterns()[p].steps@.len()
    }

    /// An engine without patterns.
    pub fn new() -> (r: CepEngine<C>)
        ensures
            r.patterns() == Seq::<Pattern<C>>::empty(),
            forall|entity: Seq<char>, pattern: int| #[trigger]
                r.partial(entity, pattern) is None,
    {
        CepEngine { patterns: Vec::new(), state: CepState::new() }
    }

    /// Register a pattern.
    pub fn add_pattern(&mut self, pattern: Pattern<C>)
        ensures
            final(self).patterns() == old(self).patterns().push(pattern),
            forall|entity: Seq<char>, p: int| #[trigger]
                final(self).partial(entity, p) == old(self).partial(entity, p),
    {
        proof {
            use_type_invariant(&*self);
        }
        let mut patterns: Vec<Pattern<C>> = Vec::new();
        std::mem::swap(&mut patterns, &mut self.patterns);
        patterns.push(pattern);
        self.patterns = patterns;
    }

    /// The patterns in the order they were registered.
    pub fn registered(&self) -> (r: &Vec<Pattern<C>>)
        ensures
            r@ == self.patterns(),
    {
        &self.patterns
    }

    /// Process an event, returning any completed pattern matches. `distances` holds, for
    /// each step of each pattern, how far the event is from the step's place in degrees.
    pub fn process(&mut self, event: &Event, distances: &Vec<Vec<Number>>) -> (outputs: Vec<
        OutputEvent,
    >)
        requires
            old(self).measured(distances@),
        ensures
            final(self).patterns() == old(self).patterns(),
            output_views(outputs@) == old(self).emitted(
                event@,
                distances@,
                old(self).patterns().len() as int,
            ),
            forall|p: int|
                0 <= p < old(self).patterns().len() ==> #[trigger] final(self).partial(
                    event@.entity_id,
                    p,
                ) == Some(
                    old(self).patterns()[p].after(
                        old(self).partial(event@.entity_id, p),
                        event@,
                        distances@[p]@,
                    ),
                ),
            forall|entity: Seq<char>, p: int|
                (entity != event@.entity_id || p >= old(self).patterns().len())
                    ==> #[trigger] final(self).partial(entity, p) == old(self).partial(entity, p),
    {
        proof {
            use_type_invariant(&*self);
        }
        let ghost before = *self;
        let mut state = CepState::new();
        std::mem::swap(&mut state, &mut self.state);
        let mut outputs: Vec<OutputEvent> = Vec::new();
        let entity = event.entity_id.as_str();
        let mut i: usize = 0;
        proof {
            assert(output_views(outputs@) =~= Seq::empty());
        }
        while i < self.patterns.len()
            invariant
                i <= self.patterns@.len(),
                self.patterns@ == before.patterns@,
                before.measured(distances@),
                entity@ == event@.entity_id,
                state.distinct(),
                output_views(outputs@) == before.emitted(event@, distances@, i as int),
                forall|p: int|
                    0 <= p < i ==> #[trigger] state.partial(entity@, p) == Some(
                        before.patterns()[p].after(
                            before.partial(entity@, p),
                            event@,
                            distances@[p]@,
                        ),
                    ),
                forall|other: Seq<char>, p: int|
                    (other != entity@ || p >= i) ==> #[trigger] state.partial(other, p)
                        == before.partial(other, p),
            decreases self.patterns@.len() - i,
        {
            let ghost at = state;
            let (held, known) = take_match(&mut state, entity, i);
            proof {
                assert(at.partial(entity@, i as int) == before.partial(entity@, i as int));
                assert(distances@[i as int]@.len() == before.patterns()[i as int].steps@.len());
            }
            let (next, output) = advance(&self.patterns[i], held, event, &distances[i]);
            put_match(&mut state, entity, i, next, known);
            proof {
                assert forall|p: int| p != i implies #[trigger] state.partial(entity@, p)
                    == at.partial(entity@, p) by {}
            }
            let ghost earlier = output_views(outputs@);
            if let Some(output) = output {
                outputs.push(output);
                proof {
                    assert(output_views(outputs@) =~= earlier.push(output@));
                }
            }
            i = i + 1;
        }
        self.state = state;
        outputs
    }

    /// Drops partial matches: a pattern that spans a window boundary would report a bogus
    /// duration. Nothing is emitted.
    pub fn on_window_close(&mut self) -> (outputs: Vec<OutputEvent>)
        ensures
            outputs@.len() == 0,
            final(self).patterns() == old(self).patterns(),
            forall|entity: Seq<char>, p: int| #[trigger]
                final(self).partial(entity, p) is None,
    {
        self.state = CepState::new();
        Vec::new()
    }

    /// The engine's name.
    pub fn name(&self) -> (r: &'static str)
        ensures
            r@ == "cep"@,
    {
        "cep"
    }

    /// The matches in progress, which a checkpoint carries.
    pub fn snapshot(&self) -> (r: &CepState)
        ensures
            r.distinct(),
            forall|entity: Seq<char>, p: int| #[trigger]
                r.partial(entity, p) == self.partial(entity, p),
    {
        proof {
            use_type_invariant(self);
        }
        &self.state
    }

    /// Replace the matches in progress with those a checkpoint carried.
    pub fn restore(&mut self, state: CepState)
        requires
            state.distinct(),
        ensures
            final(self).patterns() == old(self).patterns(),
            forall|entity: Seq<char>, p: int| #[trigger]
                final(self).partial(entity, p) == state.partial(entity, p),
    {
        self.state = state;
    }
}

impl<C: EventCondition> Default for CepEngine<C> {
    fn default() -> (r: CepEngine<C>)
        ensures
            r.patterns() == Seq::<Pattern<C>>::empty(),
            forall|entity: Seq<char>, pattern: int| #[trigger]
                r.partial(entity, pattern) is None,
    {
        CepEngine::new()
    }
}

/// Takes an entity's match of a pattern out of the state, with the entity's other matches.
fn take_match(state: &mut CepState, entity: &str, pattern: usize) -> (r: (
    Option<MatchState>,
    HashMap<usize, MatchState>,
))
    requires
        old(state).distinct(),
    ensures
        final(state).distinct(),
        forall|other: Seq<char>, p: int|
            other != entity@ ==> #[trigger] final(state).partial(other, p) == old(state).partial(
                other,
                p,
            ),
        match r.0 {
            Some(m) => old(state).partial(entity@, pattern as int) == Some(m@),
            None => old(state).partial(entity@, pattern as int) is None,
        },
        forall|p: int|
            p != pattern ==> #[trigger] old(state).partial(entity@, p) == (if 0 <= p <= usize::MAX
                && r.1@.dom().contains(p as usize) {
                Some(r.1@[p as usize]@)
            } else {
                None
            }),
{
    let ghost before = *state;
    let mut known: HashMap<usize, MatchState> = HashMap::new();
    match state.matches.find(entity) {
        Some(i) => {
            let ghost name = state.matches.entries@[i as int].0;
            let slot = &mut state.matches.entries[i];
            std::mem::swap(&mut slot.1, &mut known);
            proof {
                assert(state.matches.names() =~= before.matches.names());
                assert forall|other: Seq<char>, p: int| other != entity@ implies #[trigger] state.partial(
                    other,
                    p,
                ) == before.partial(other, p) by {
                    if before.matches.has(other) {
                        let k = before.matches.position_of(other);
                        assert(before.matches.names()[k] == other);
                        assert(k != i);
                    }
                }
                assert(before.matches.value(entity@)@ == known@);
            }
        },
        None => {},
    }
    let held = known.remove(&pattern);
    (held, known)
}

/// Puts an entity's match of a pattern into the state, beside the entity's other matches.
fn put_match(
    state: &mut CepState,
    entity: &str,
    pattern: usize,
    next: MatchState,
    known: HashMap<usize, MatchState>,
)
    requires
        old(state).distinct(),
    ensures
        final(state).distinct(),
        forall|other: Seq<char>, p: int|
            other != entity@ ==> #[trigger] final(state).partial(other, p) == old(state).partial(
                other,
                p,
            ),
        final(state).partial(entity@, pattern as int) == Some(next@),
        forall|p: int|
            p != pattern ==> #[trigger] final(state).partial(entity@, p) == (if 0 <= p
                <= usize::MAX && known@.dom().contains(p as usize) {
                Some(known@[p as usize]@)
            } else {
                None
            }),
{
    let ghost before = *state;
    let mut all = known;
    all.insert(pattern, next);
    state.matches.put(entity, all);
    proof {
        assert(state.matches.lookup(entity@) == Some(all));
        assert forall|other: Seq<char>, p: int| other != entity@ implies #[trigger] state.partial(
            other,
            p,
        ) == before.partial(other, p) by {
            assert(state.matches.lookup(other) == before.matches.lookup(other));
        }
    }
}

/// Whether an event matches a step.
fn accepts<C: EventCondition>(step: &PatternStep<C>, event: &Event, distance: Number) -> (r: bool)
    ensures
        r == step.accepts(event@, distance),
{
    if !step.condition.matches(event) {
        return false;
    }
    match step.near {
        Some((_, _, radius)) => !radius.lt(distance),
        None => true,
    }
}

/// Holds a pattern against an event: the match after it, and what is emitted if it
/// completes the pattern.
fn advance<C: EventCondition>(
    pattern: &Pattern<C>,
    held: Option<MatchState>,
    event: &Event,
    distances: &Vec<Number>,
) -> (r: (MatchState, Option<OutputEvent>))
    requires
        distances@.len() == pattern.steps@.len(),
    ensures
        ({
            let partial = match_view(held);
            &&& r.0@ == pattern.after(partial, event@, distances@)
            &&& r.1 is Some <==> pattern.completes(partial, event@, distances@)
            &&& r.1 is Some ==> r.1->0@ == pattern.completion(partial, event@)
        }),
{
    let ghost partial = match_view(held);
    let mut state = match held {
        Some(m) => m,
        None => MatchState {
            current_step: 0,
            started_at: event.timestamp,
            matched_events: Vec::new(),
        },
    };
    let elapsed: i64 = event.timestamp.millis_since(&state.started_at);
    if elapsed > 0 && elapsed as u128 > pattern.within_millis && state.current_step > 0 {
        state.current_step = 0;
        state.matched_events = Vec::new();
        state.started_at = event.timestamp;
    }
    proof {
        assert(state@.matched =~= pattern.resumed(partial, event@.timestamp).matched);
        assert(state@ == pattern.resumed(partial, event@.timestamp));
    }
    if state.current_step >= pattern.steps.len() {
        return (state, None);
    }
    let at: usize = state.current_step;
    if !accepts(&pattern.steps[at], event, distances[at]) {
        return (state, None);
    }
    if at == 0 {
        state.started_at = event.timestamp;
    }
    let ghost matched = state@.matched;
    state.matched_events.push(event.clone());
    state.current_step = at + 1;
    proof {
        assert(state@.matched =~= matched.push(event@));
        assert(state@ == pattern.extended(partial, event@));
    }
    if state.current_step < pattern.steps.len() {
        return (state, None);
    }
    let count: u64 = state.matched_events.len() as u64;
    let duration: i64 = event.timestamp.millis_since(&state.matched_events[0].timestamp);
    let mut operator = "cep:".to_string();
    operator.append(pattern.name.as_str());
    let payload = Payload::new().with_text("pattern", pattern.name.as_str()).with_text(
        "entity_id",
        event.entity_id.as_str(),
    ).with("steps_matched", Field::Count(count)).with("duration_ms", Field::Millis(duration));
    let output = OutputEvent { source_event: event.clone(), operator, payload };
    proof {
        assert(state.matched_events@[0]@ == state@.matched[0]);
        assert(output@.payload =~= pattern.completion(partial, event@).payload);
    }
    state.current_step = 0;
    state.matched_events = Vec::new();
    proof {
        assert(state@.matched =~= Seq::empty());
    }
    (state, Some(output))
}

/// A match stays consistent, whatever comes.
pub proof fn law_matches_stay_consistent<C: EventCondition>(
    pattern: Pattern<C>,
    partial: Option<MatchView>,
    event: EventView,
    distances: Seq<Number>,
)
    requires
        partial is Some ==> partial->0.consistent(),
    ensures
        pattern.after(partial, event, distances).consistent(),
{
}

/// A completed pattern matched each of its steps once, and its duration is within its time
/// window.
pub proof fn law_a_completed_pattern_fits_its_window<C: EventCondition>(
    pattern: Pattern<C>,
    partial: Option<MatchView>,
    event: EventView,
    distances: Seq<Number>,
)
    requires
        partial is Some ==> partial->0.consistent(),
        pattern.completes(partial, event, distances),
    ensures
        pattern.extended(partial, event).matched.len() == pattern.steps@.len(),
        pattern.duration(partial, event) <= pattern.within_millis,
{
    let m = pattern.resumed(partial, event.timestamp);
    assert(m.consistent());
    let e = pattern.extended(partial, event);
    if m.current_step == 0 {
        assert(e.matched[0] == event);
    } else {
        assert(e.matched[0] == m.matched[0]);
    }
}

/// A match that has taken longer than its window starts over: the event then counts only
/// against the first step.
pub proof fn law_an_expired_match_starts_over<C: EventCondition>(
    pattern: Pattern<C>,
    partial: MatchView,
    event: EventView,
    distances: Seq<Number>,
)
    requires
        partial.current_step > 0,
        toward_zero(event.timestamp.since(partial.started_at), 1_000_000) > pattern.within_millis,
    ensures
        pattern.after(Some(partial), event, distances) == pattern.after(None, event, distances),
        pattern.completes(Some(partial), event, distances) == pattern.completes(
            None,
            event,
            distances,
        ),
{
}

/// An event matches a step where the step's condition holds of it and, if the step has a
/// place, the event is not farther from it than the radius.
pub proof fn law_a_step_wants_its_condition_and_its_place<C: EventCondition>(
    step: PatternStep<C>,
    event: EventView,
    distance: Number,
)
    ensures
        step.near is None ==> (step.accepts(event, distance) <==> step.condition.holds(event)),
        step.near is Some ==> (step.accepts(event, distance) <==> (step.condition.holds(event)
            && !(step.near->0).2.below(distance))),
{
}

/// An event that comes within the window and does not match the step that is next leaves the
/// match as it was: the same next step, the same start and the same matched events.
pub proof fn law_an_event_that_does_not_match_leaves_the_match<C: EventCondition>(
    pattern: Pattern<C>,
    partial: MatchView,
    event: EventView,
    distances: Seq<Number>,
)
    requires
        partial.current_step == 0 || toward_zero(
            event.timestamp.since(partial.started_at),
            1_000_000,
        ) <= pattern.within_millis,
        partial.current_step >= pattern.steps@.len()
            || !pattern.steps@[partial.current_step as int].accepts(
            event,
            distances[partial.current_step as int],
        ),
    ensures
        pattern.after(Some(partial), event, distances) == partial,
        !pattern.completes(Some(partial), event, distances),
{
}

/// An event that comes within the window and matches the step that is next takes the match
/// one step on: it joins the matched events, and the clock starts with the first of them.
/// The event that matches the last step completes the pattern, and the match starts over.
pub proof fn law_an_event_that_matches_takes_the_match_one_step_on<C: EventCondition>(
    pattern: Pattern<C>,
    partial: MatchView,
    event: EventView,
    distances: Seq<Number>,
)
    requires
        partial.current_step < pattern.steps@.len(),
        partial.current_step == 0 || toward_zero(
            event.timestamp.since(partial.started_at),
            1_000_000,
        ) <= pattern.within_millis,
        pattern.steps@[partial.current_step as int].accepts(
            event,
            distances[partial.current_step as int],
        ),
    ensures
        pattern.completes(Some(partial), event, distances) <==> partial.current_step + 1
            == pattern.steps@.len(),
        pattern.completes(Some(partial), event, distances) ==> pattern.after(
            Some(partial),
            event,
            distances,
        ).current_step == 0 && pattern.after(Some(partial), event, distances).matched.len() == 0,
        !pattern.completes(Some(partial), event, distances) ==> {
            let next = pattern.after(Some(partial), event, distances);
            &&& next.current_step == partial.current_step + 1
            &&& next.matched == partial.matched.push(event)
            &&& next.started_at == if partial.current_step == 0 {
                event.timestamp
            } else {
                partial.started_at
            }
        },
{
}

/// An entity that has matched nothing of a pattern yet is treated as one whose match is at the
/// first step.
pub proof fn law_a_first_event_counts_against_the_first_step<C: EventCondition>(
    pattern: Pattern<C>,
    event: EventView,
    distances: Seq<Number>,
    started_at: Instant,
)
    ensures
        pattern.completes(None, event, distances) == pattern.completes(
            Some((MatchView { current_step: 0, started_at, matched: Seq::empty() })),
            event,
            distances,
        ),
        pattern.after(None, event, distances).current_step == pattern.after(
            Some((MatchView { current_step: 0, started_at, matched: Seq::empty() })),
            event,
            distances,
        ).current_step,
        pattern.after(None, event, distances).matched == pattern.after(
            Some((MatchView { current_step: 0, started_at, matched: Seq::empty() })),
            event,
            distances,
        ).matched,
        pattern.after(None, event, distances).started_at == event.timestamp,
{
}

impl<C: EventCondition> Pattern<C> {
    /// The match after the first `n` events of an entity.
    pub open spec fn held_after(
        self,
        events: Seq<EventView>,
        distances: Seq<Seq<Number>>,
        n: int,
    ) -> Option<MatchView>
        decreases n,
    {
        if n <= 0 {
            None
        } else {
            Some(
                self.after(
                    self.held_after(events, distances, n - 1),
                    events[n - 1],
                    distances[n - 1],
                ),
            )
        }
    }

    /// Whether the event at position `n` completes the pattern.
    pub open spec fn completed_at(
        self,
        events: Seq<EventView>,
        distances: Seq<Seq<Number>>,
        n: int,
    ) -> bool {
        self.completes(self.held_after(events, distances, n), events[n], distances[n])
    }

    /// Whether these events, in order, match the first steps of the pattern one by one.
    pub open spec fn traced(
        self,
        events: Seq<EventView>,
        distances: Seq<Seq<Number>>,
        chosen: Seq<int>,
    ) -> bool {
        &&& chosen.len() <= self.steps@.len()
        &&& forall|j: int|
            0 <= j < chosen.len() ==> 0 <= #[trigger] chosen[j] < events.len()
                && self.steps@[j].accepts(events[chosen[j]], distances[chosen[j]][j])
        &&& forall|j: int, k: int| 0 <= j < k < chosen.len() ==> chosen[j] < chosen[k]
    }
}

/// How many steps have matched.
pub open spec fn steps_held(held: Option<MatchView>) -> nat {
    match held {
        Some(m) => m.current_step,
        None => 0,
    }
}

/// As many events as steps have matched, at any time.
proof fn lemma_held_is_consistent<C: EventCondition>(
    pattern: Pattern<C>,
    events: Seq<EventView>,
    distances: Seq<Seq<Number>>,
    n: int,
)
    ensures
        pattern.held_after(events, distances, n) is Some ==> pattern.held_after(
            events,
            distances,
            n,
        )->0.consistent(),
    decreases n,
{
    if n > 0 {
        lemma_held_is_consistent(pattern, events, distances, n - 1);
        law_matches_stay_consistent(
            pattern,
            pattern.held_after(events, distances, n - 1),
            events[n - 1],
            distances[n - 1],
        );
    }
}

/// What a match holds are events of the entity, in order, one for each step up to the next;
/// the clock runs from the first of them. All of them came since the match was last at its
/// first step, and since the first of them the pattern has not completed. `chosen` gives their
/// positions.
pub proof fn law_a_match_holds_one_event_for_each_step<C: EventCondition>(
    pattern: Pattern<C>,
    events: Seq<EventView>,
    distances: Seq<Seq<Number>>,
    from: int,
    n: int,
) -> (chosen: Seq<int>)
    requires
        0 <= from <= n <= events.len(),
        steps_held(pattern.held_after(events, distances, from)) == 0,
    ensures
        pattern.traced(events, distances, chosen),
        chosen.len() == steps_held(pattern.held_after(events, distances, n)),
        chosen.len() > 0 ==> from <= chosen[0] && chosen.last() < n && chosen.len()
            < pattern.steps@.len() && pattern.held_after(events, distances, n)->0.started_at
            == events[chosen[0]].timestamp,
        pattern.held_after(events, distances, n) is Some ==> pattern.held_after(
            events,
            distances,
            n,
        )->0.matched =~= Seq::new(chosen.len(), |j: int| events[chosen[j]]),
        forall|t: int|
            chosen.len() > 0 && chosen[0] <= t < n ==> !#[trigger] pattern.completed_at(
                events,
                distances,
                t,
            ),
    decreases n - from,
{
    if n <= from {
        lemma_held_is_consistent(pattern, events, distances, n);
        Seq::empty()
    } else {
        let earlier = law_a_match_holds_one_event_for_each_step(
            pattern,
            events,
            distances,
            from,
            n - 1,
        );
        let partial = pattern.held_after(events, distances, n - 1);
        let event = events[n - 1];
        let resumed = pattern.resumed(partial, event.timestamp);
        let base: Seq<int> = if resumed.current_step == 0 {
            Seq::empty()
        } else {
            earlier
        };
        if pattern.completes(partial, event, distances[n - 1]) {
            Seq::empty()
        } else if pattern.advances(partial, event, distances[n - 1]) {
            let chosen = base.push(n - 1);
            lemma_traced_on(pattern, events, distances, base, n - 1);
            assert(!pattern.completed_at(events, distances, n - 1));
            chosen
        } else {
            assert(!pattern.completed_at(events, distances, n - 1));
            base
        }
    }
}

/// Events that match the first steps, and a later one that matches the next, match one step
/// more.
proof fn lemma_traced_on<C: EventCondition>(
    pattern: Pattern<C>,
    events: Seq<EventView>,
    distances: Seq<Seq<Number>>,
    base: Seq<int>,
    n: int,
)
    requires
        pattern.traced(events, distances, base),
        base.len() < pattern.steps@.len(),
        0 <= n < events.len(),
        base.len() > 0 ==> base.last() < n,
        pattern.steps@[base.len() as int].accepts(events[n], distances[n][base.len() as int]),
    ensures
        pattern.traced(events, distances, base.push(n)),
{
    let chosen = base.push(n);
    assert forall|j: int| 0 <= j < chosen.len() implies 0 <= #[trigger] chosen[j] < events.len()
        && pattern.steps@[j].accepts(events[chosen[j]], distances[chosen[j]][j]) by {
        if j < base.len() {
            assert(chosen[j] == base[j]);
        }
    }
    assert forall|j: int, k: int| 0 <= j < k < chosen.len() implies chosen[j] < chosen[k] by {
        if k == base.len() {
            assert(base[j] <= base.last());
        }
    }
}

/// A pattern completes only where the events of the entity hold one event for each step, in
/// order, the last of them the event that completes it, and no longer than the window after
/// the first. All of them came since the match was last at its first step, and no event counts
/// for two completions. `chosen` gives their positions.
pub proof fn law_a_completion_has_one_event_for_each_step<C: EventCondition>(
    pattern: Pattern<C>,
    events: Seq<EventView>,
    distances: Seq<Seq<Number>>,
    from: int,
    n: int,
) -> (chosen: Seq<int>)
    requires
        0 <= from <= n < events.len(),
        steps_held(pattern.held_after(events, distances, from)) == 0,
        pattern.completed_at(events, distances, n),
    ensures
        chosen.len() == pattern.steps@.len(),
        chosen.len() > 0,
        pattern.traced(events, distances, chosen),
        from <= chosen[0],
        chosen.last() == n,
        toward_zero(events[n].timestamp.since(events[chosen[0]].timestamp), 1_000_000)
            <= pattern.within_millis || chosen.len() == 1,
        forall|t: int|
            chosen[0] <= t < n ==> !#[trigger] pattern.completed_at(events, distances, t),
{
    let earlier = law_a_match_holds_one_event_for_each_step(pattern, events, distances, from, n);
    let partial = pattern.held_after(events, distances, n);
    let resumed = pattern.resumed(partial, events[n].timestamp);
    let base: Seq<int> = if resumed.current_step == 0 {
        Seq::empty()
    } else {
        earlier
    };
    lemma_traced_on(pattern, events, distances, base, n);
    base.push(n)
}

/// From a match at its first step on, and as long as no event comes later than the window
/// after the first that matches the first step, the pattern completes exactly where one event
/// for each step is among the events, in order, whatever other events come in between.
pub proof fn law_a_pattern_completes_exactly_where_its_steps_come_in_order<C: EventCondition>(
    pattern: Pattern<C>,
    events: Seq<EventView>,
    distances: Seq<Seq<Number>>,
    from: int,
    first: int,
    to: int,
)
    requires
        0 <= from <= first <= to < events.len(),
        steps_held(pattern.held_after(events, distances, from)) == 0,
        pattern.steps@.len() > 0,
        pattern.steps@[0].accepts(events[first], distances[first][0]),
        forall|i: int|
            from <= i < first ==> !pattern.steps@[0].accepts(
                #[trigger] events[i],
                distances[i][0],
            ),
        forall|j: int|
            first <= j <= to ==> toward_zero(
                (#[trigger] events[j]).timestamp.since(events[first].timestamp),
                1_000_000,
            ) <= pattern.within_millis,
    ensures
        (exists|n: int|
            from <= n <= to && #[trigger] pattern.completed_at(events, distances, n)) <==> (exists|
            chosen: Seq<int>,
        | #[trigger]
            pattern.traced(events, distances, chosen) && chosen.len() == pattern.steps@.len()
                && from <= chosen[0] && chosen.last() <= to),
{
    if exists|n: int|
        from <= n <= to && #[trigger] pattern.completed_at(events, distances, n) {
        let n = choose|n: int|
            from <= n <= to && #[trigger] pattern.completed_at(events, distances, n);
        let chosen = law_a_completion_has_one_event_for_each_step(
            pattern,
            events,
            distances,
            from,
            n,
        );
        assert(pattern.traced(events, distances, chosen));
    } else if exists|chosen: Seq<int>| #[trigger]
        pattern.traced(events, distances, chosen) && chosen.len() == pattern.steps@.len() && from
            <= chosen[0] && chosen.last() <= to {
        let chosen = choose|chosen: Seq<int>| #[trigger]
            pattern.traced(events, distances, chosen) && chosen.len() == pattern.steps@.len()
                && from <= chosen[0] && chosen.last() <= to;
        let last = chosen.len() - 1;
        let n = chosen[last];
        lemma_progress(pattern, events, distances, from, first, to, chosen, n, last);
        let partial = pattern.held_after(events, distances, n);
        law_a_match_holds_one_event_for_each_step(pattern, events, distances, from, n);
        assert(steps_held(partial) == last);
        assert(events[n] == events[chosen[last]]);
        assert(pattern.steps@[last].accepts(events[chosen[last]], distances[chosen[last]][last]));
        assert(pattern.completed_at(events, distances, n));
    }
}

/// Without a completion, and within the window, a match has come at least as far as the
/// events that were there for it, and its clock runs from the first that matched.
proof fn lemma_progress<C: EventCondition>(
    pattern: Pattern<C>,
    events: Seq<EventView>,
    distances: Seq<Seq<Number>>,
    from: int,
    first: int,
    to: int,
    chosen: Seq<int>,
    n: int,
    k: int,
)
    requires
        0 <= from <= first,
        from <= n <= to < events.len(),
        steps_held(pattern.held_after(events, distances, from)) == 0,
        pattern.traced(events, distances, chosen),
        chosen.len() == pattern.steps@.len(),
        chosen.len() > 0,
        from <= chosen[0],
        pattern.steps@[0].accepts(events[first], distances[first][0]),
        forall|i: int|
            from <= i < first ==> !pattern.steps@[0].accepts(
                #[trigger] events[i],
                distances[i][0],
            ),
        forall|j: int|
            first <= j <= to ==> toward_zero(
                (#[trigger] events[j]).timestamp.since(events[first].timestamp),
                1_000_000,
            ) <= pattern.within_millis,
        forall|t: int|
            from <= t < n ==> !#[trigger] pattern.completed_at(events, distances, t),
        0 <= k < chosen.len(),
        k > 0 ==> chosen[k - 1] < n,
    ensures
        steps_held(pattern.held_after(events, distances, n)) >= k,
        steps_held(pattern.held_after(events, distances, n)) > 0 ==> first < n
            && pattern.held_after(events, distances, n)->0.started_at == events[first].timestamp,
        n > first ==> steps_held(pattern.held_after(events, distances, n)) > 0,
    decreases n,
{
    if n > from {
        let k1 = if k > 0 && chosen[k - 1] == n - 1 {
            k - 1
        } else {
            k
        };
        assert(k1 > 0 ==> chosen[k1 - 1] < n - 1);
        lemma_progress(pattern, events, distances, from, first, to, chosen, n - 1, k1);
        let partial = pattern.held_after(events, distances, n - 1);
        let event = events[n - 1];
        assert(!pattern.completed_at(events, distances, n - 1));
        if steps_held(partial) > 0 {
            assert(toward_zero(event.timestamp.since(events[first].timestamp), 1_000_000)
                <= pattern.within_millis);
        }
        assert(pattern.resumed(partial, event.timestamp).current_step == steps_held(partial));
        if k1 < k && steps_held(partial) == k1 {
            assert(pattern.steps@[k1].accepts(events[chosen[k1]], distances[chosen[k1]][k1]));
            assert(pattern.advances(partial, event, distances[n - 1]));
        }
        if steps_held(partial) == 0 && n - 1 < first {
            assert(!pattern.steps@[0].accepts(events[n - 1], distances[n - 1][0]));
        }
    } else {
        assert(k == 0) by {
            if k > 0 {
                assert(chosen[0] <= chosen[k - 1]);
            }
        }
    }
}

/// Whether an output reports that a pattern completed in this many milliseconds.
pub open spec fn reports_completion<C: EventCondition>(
    output: OutputEventView,
    pattern: Pattern<C>,
    event: EventView,
    millis: int,
) -> bool {
    output.is_from("cep:"@ + pattern.name@, event, 4) && output.carries(
        "pattern"@,
        FieldView::Text(pattern.name@),
    ) && output.carries("entity_id"@, FieldView::Text(event.entity_id)) && output.carries(
        "steps_matched"@,
        FieldView::Count(pattern.steps@.len()),
    ) && output.carries("duration_ms"@, FieldView::Millis(millis))
}

/// What is emitted when an event completes a pattern names the pattern and the entity, counts
/// every step of the pattern, and carries the milliseconds from the start of the match, which
/// for a pattern of one step is the event itself.
pub proof fn law_a_completion_reports_the_whole_pattern<C: EventCondition>(
    pattern: Pattern<C>,
    partial: Option<MatchView>,
    event: EventView,
    distances: Seq<Number>,
)
    requires
        partial is Some ==> partial->0.consistent(),
        pattern.completes(partial, event, distances),
    ensures
        pattern.steps@.len() == 1 ==> reports_completion(
            pattern.completion(partial, event),
            pattern,
            event,
            toward_zero(event.timestamp.since(event.timestamp), 1_000_000),
        ),
        pattern.steps@.len() > 1 ==> partial is Some && reports_completion(
            pattern.completion(partial, event),
            pattern,
            event,
            toward_zero(event.timestamp.since(partial->0.started_at), 1_000_000),
        ),
{
    let m = pattern.resumed(partial, event.timestamp);
    assert(m.consistent());
    let e = pattern.extended(partial, event);
    if m.current_step == 0 {
        assert(e.matched[0] == event);
    } else {
        assert(e.matched[0] == m.matched[0]);
    }
    let output = pattern.completion(partial, event);
    assert(output.payload[0] == ("pattern"@, FieldView::Text(pattern.name@)));
    assert(output.payload[1] == ("entity_id"@, FieldView::Text(event.entity_id)));
    assert(output.payload[2] == ("steps_matched"@, FieldView::Count(pattern.steps@.len())));
    assert(output.payload[3] == (
        "duration_ms"@,
        FieldView::Millis(pattern.duration(partial, event)),
    ));
}

/// An engine emits the completions and nothing else: one output for each pattern that the
/// event completes, whatever the other patterns do, in the order the patterns were
/// registered. `completed` gives the patterns of the outputs.
pub proof fn law_an_engine_reports_each_completed_pattern_and_nothing_else<C: EventCondition>(
    engine: CepEngine<C>,
    event: EventView,
    distances: Seq<Vec<Number>>,
    n: int,
) -> (completed: Seq<int>)
    requires
        0 <= n,
    ensures
        completed.len() == engine.emitted(event, distances, n).len(),
        forall|k: int|
            0 <= k < completed.len() ==> {
                &&& 0 <= #[trigger] completed[k] < n
                &&& engine.patterns()[completed[k]].completes(
                    engine.partial(event.entity_id, completed[k]),
                    event,
                    distances[completed[k]]@,
                )
                &&& engine.emitted(event, distances, n)[k]
                    == engine.patterns()[completed[k]].completion(
                    engine.partial(event.entity_id, completed[k]),
                    event,
                )
            },
        forall|p: int|
            0 <= p < n && (#[trigger] engine.patterns()[p]).completes(
                engine.partial(event.entity_id, p),
                event,
                distances[p]@,
            ) ==> completed.contains(p),
        forall|j: int, k: int| 0 <= j < k < completed.len() ==> completed[j] < completed[k],
    decreases n,
{
    if n <= 0 {
        Seq::empty()
    } else {
        let earlier = law_an_engine_reports_each_completed_pattern_and_nothing_else(
            engine,
            event,
            distances,
            n - 1,
        );
        let p = n - 1;
        let outputs = engine.emitted(event, distances, n);
        let before = engine.emitted(event, distances, p);
        if engine.patterns()[p].completes(
            engine.partial(event.entity_id, p),
            event,
            distances[p]@,
        ) {
            let completed = earlier.push(p);
            assert(outputs == before.push(
                engine.patterns()[p].completion(engine.partial(event.entity_id, p), event),
            ));
            assert forall|k: int| 0 <= k < completed.len() implies {
                &&& 0 <= #[trigger] completed[k] < n
                &&& engine.patterns()[completed[k]].completes(
                    engine.partial(event.entity_id, completed[k]),
                    event,
                    distances[completed[k]]@,
                )
                &&& outputs[k] == engine.patterns()[completed[k]].completion(
                    engine.partial(event.entity_id, completed[k]),
                    event,
                )
            } by {
                if k < earlier.len() {
                    assert(completed[k] == earlier[k]);
                    assert(outputs[k] == before[k]);
                }
            }
            assert forall|q: int|
                0 <= q < n && (#[trigger] engine.patterns()[q]).completes(
                    engine.partial(event.entity_id, q),
                    event,
                    distances[q]@,
                ) implies completed.contains(q) by {
                if q < p {
                    assert(earlier.contains(q));
                    let k = earlier.index_of(q);
                    assert(completed[k] == q);
                } else {
                    assert(completed[earlier.len() as int] == q);
                }
            }
            completed
        } else {
            earlier
        }
    }
}

/// An engine that is given the matches of another carries on as that one would.
pub proof fn law_an_engine_resumes_its_partial_matches<C: EventCondition>(
    saved: CepEngine<C>,
    resumed: CepEngine<C>,
    event: EventView,
    distances: Seq<Vec<Number>>,
    n: int,
)
    requires
        saved.patterns() == resumed.patterns(),
        forall|entity: Seq<char>, p: int| #[trigger]
            resumed.partial(entity, p) == saved.partial(entity, p),
    ensures
        resumed.emitted(event, distances, n) == saved.emitted(event, distances, n),
    decreases n,
{
    if n > 0 {
        law_an_engine_resumes_its_partial_matches(saved, resumed, event, distances, n - 1);
        assert(resumed.partial(event.entity_id, n - 1) == saved.partial(event.entity_id, n - 1));
    }
}

/// The view of a match shows its next step, its start and each matched event in order.
pub proof fn law_the_view_of_a_match_shows_every_event(held: MatchState, i: int)
    ensures
        held@.current_step == held.current_step,
        held@.started_at == held.started_at@,
        held@.matched.len() == held.matched_events@.len(),
        0 <= i < held.matched_events@.len() ==> held@.matched[i] == held.matched_events@[i]@,
{
}

} // verus!
