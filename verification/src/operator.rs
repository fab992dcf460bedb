//! Stream operators: the processing units in a pipeline.

use crate::event::{
    output_views, Event, EventView, Field, FieldView, OutputEvent, OutputEventView, Payload,
};
use crate::keyed::{entry_names, Keyed};
use crate::number::{larger, number_max, number_min, number_one, one, smaller, zero, Number};
use std::collections::BTreeMap;
use vstd::prelude::*;

verus! {

/// A stateless stream operator that processes one event at a time.
pub trait MapOperator {
    /// Which outcomes the operator allows for an event: any, unless it says otherwise.
    open spec fn may_produce(&self, event: EventView, output: Option<OutputEventView>) -> bool {
        true
    }

    /// The operator's name.
    open spec fn spec_name(&self) -> Seq<char> {
        arbitrary()
    }

    /// Process a single event, optionally producing an output.
    fn process(&self, event: &Event) -> (r: Option<OutputEvent>)
        ensures
            self.may_produce(event@, optional_view(r)),
    ;

    /// Operator name for logging and metrics.
    fn name(&self) -> (r: &str)
        ensures
            r@ == self.spec_name(),
    ;
}

/// A stateful operator, which may buffer events.
pub trait StatefulOperator: Sized {
    /// What a checkpoint carries for the operator.
    type State: Clone;

    /// Which outputs and which later state the operator allows for an event: any, unless it
    /// says otherwise.
    open spec fn may_process(
        before: Self,
        event: EventView,
        outputs: Seq<OutputEventView>,
        after: Self,
    ) -> bool {
        true
    }

    /// Which outputs and which later state the operator allows when a window closes.
    open spec fn may_close(before: Self, outputs: Seq<OutputEventView>, after: Self) -> bool {
        true
    }

    /// Which states a checkpoint of the operator may carry.
    open spec fn may_snapshot(&self, state: Self::State) -> bool {
        true
    }

    /// Which later states the operator allows when it is given a checkpointed state.
    open spec fn may_restore(before: Self, state: Self::State, after: Self) -> bool {
        true
    }

    /// The operator's name.
    open spec fn spec_name(&self) -> Seq<char> {
        arbitrary()
    }

    /// Process an event, potentially updating internal state.
    /// May produce zero or more outputs.
    fn process(&mut self, event: &Event) -> (r: Vec<OutputEvent>)
        ensures
            Self::may_process(*old(self), event@, output_views(r@), *final(self)),
    ;

    /// Called when a window expires: flush any buffered state.
    fn on_window_close(&mut self) -> (r: Vec<OutputEvent>)
        ensures
            Self::may_close(*old(self), output_views(r@), *final(self)),
    ;

    /// Operator name.
    fn name(&self) -> (r: &str)
        ensures
            r@ == self.spec_name(),
    ;

    /// The state a checkpoint carries. Configuration stays out of it: a restored operator
    /// is built afresh and only its accumulated state comes back.
    fn snapshot(&self) -> (r: Self::State)
        ensures
            self.may_snapshot(r),
    ;

    /// Replace the accumulated state with one taken by `snapshot`.
    fn restore(&mut self, state: Self::State)
        ensures
            Self::may_restore(*old(self), state, *final(self)),
    ;
}

/// What an optional output holds.
pub open spec fn optional_view(r: Option<OutputEvent>) -> Option<OutputEventView> {
    match r {
        Some(o) => Some(o@),
        None => None,
    }
}

/// The payload that says only what was done.
pub open spec fn action_payload(action: Seq<char>) -> Seq<(Seq<char>, FieldView)> {
    seq![("action"@, FieldView::Text(action))]
}

fn action(what: &str) -> (r: Payload)
    ensures
        r@ == action_payload(what@),
{
    let r = Payload::new().with_text("action", what);
    proof {
        assert(r@ =~= action_payload(what@));
    }
    r
}

/// The output that lets an event through.
pub open spec fn passed(name: Seq<char>, event: EventView) -> OutputEventView {
    OutputEventView { source_event: event, operator: name, payload: action_payload("pass"@) }
}

fn pass(name: &String, event: &Event) -> (r: OutputEvent)
    ensures
        r@ == passed(name@, event@),
{
    OutputEvent { source_event: event.clone(), operator: name.clone(), payload: action("pass") }
}

/// A filter operator that passes through events matching a predicate.
pub struct FilterOperator<F: Fn(&Event) -> bool> {
    name: String,
    predicate: F,
}

impl<F: Fn(&Event) -> bool> FilterOperator<F> {
    #[verifier::type_invariant]
    spec fn inv(self) -> bool {
        forall|e: &Event| call_requires(self.predicate, (e,))
    }

    /// What decides which events pass.
    pub closed spec fn predicate(&self) -> F {
        self.predicate
    }

    /// A filter named `name` that passes what `predicate` holds for.
    pub fn new(name: &str, predicate: F) -> (r: FilterOperator<F>)
        requires
            forall|e: &Event| call_requires(predicate, (e,)),
        ensures
            r.spec_name() == name@,
            r.predicate() == predicate,
    {
        FilterOperator { name: name.to_string(), predicate }
    }
}

impl<F: Fn(&Event) -> bool> MapOperator for FilterOperator<F> {
    /// An event the predicate holds for passes unchanged, any other is dropped.
    open spec fn may_produce(&self, event: EventView, output: Option<OutputEventView>) -> bool {
        exists|e: &Event, holds: bool|
            e@ == event && #[trigger] call_ensures(self.predicate(), (e,), holds) && output == (
            if holds {
                Some(passed(self.spec_name(), event))
            } else {
                None
            })
    }

    closed spec fn spec_name(&self) -> Seq<char> {
        self.name@
    }

    fn process(&self, event: &Event) -> (r: Option<OutputEvent>)
        ensures
            match r {
                Some(o) => call_ensures(self.predicate(), (event,), true) && o@ == passed(
                    self.spec_name(),
                    event@,
                ),
                None => call_ensures(self.predicate(), (event,), false),
            },
    {
        proof {
            use_type_invariant(self);
        }
        let holds: bool = (self.predicate)(event);
        proof {
            assert(call_ensures(self.predicate(), (event,), holds));
        }
        if holds {
            Some(pass(&self.name, event))
        } else {
            None
        }
    }

    fn name(&self) -> (r: &str) {
        self.name.as_str()
    }
}

/// A transform operator that modifies events.
pub struct TransformOperator<F: Fn(&Event) -> Event> {
    name: String,
    transform: F,
}

/// The output of a transform that gave `event`.
pub open spec fn transformed(name: Seq<char>, event: EventView) -> OutputEventView {
    OutputEventView { source_event: event, operator: name, payload: action_payload("transform"@) }
}

impl<F: Fn(&Event) -> Event> TransformOperator<F> {
    #[verifier::type_invariant]
    spec fn inv(self) -> bool {
        forall|e: &Event| call_requires(self.transform, (e,))
    }

    /// What makes the new event.
    pub closed spec fn transform(&self) -> F {
        self.transform
    }

    /// A transform named `name` that replaces each event by what `transform` makes of it.
    pub fn new(name: &str, transform: F) -> (r: TransformOperator<F>)
        requires
            forall|e: &Event| call_requires(transform, (e,)),
        ensures
            r.spec_name() == name@,
            r.transform() == transform,
    {
        TransformOperator { name: name.to_string(), transform }
    }
}

impl<F: Fn(&Event) -> Event> MapOperator for TransformOperator<F> {
    /// Every event yields an output whose event is the transformed one.
    open spec fn may_produce(&self, event: EventView, output: Option<OutputEventView>) -> bool {
        exists|e: &Event, made: Event|
            e@ == event && #[trigger] call_ensures(self.transform(), (e,), made) && output == Some(
                transformed(self.spec_name(), made@),
            )
    }

    closed spec fn spec_name(&self) -> Seq<char> {
        self.name@
    }

    fn process(&self, event: &Event) -> (r: Option<OutputEvent>)
        ensures
            r is Some,
            exists|made: Event| #[trigger]
                call_ensures(self.transform(), (event,), made) && r->0@ == transformed(
                    self.spec_name(),
                    made@,
                ),
    {
        proof {
            use_type_invariant(self);
        }
        let made = (self.transform)(event);
        proof {
            assert(call_ensures(self.transform(), (event,), made));
        }
        Some(
            OutputEvent {
                source_event: made,
                operator: self.name.clone(),
                payload: action("transform"),
            },
        )
    }

    fn name(&self) -> (r: &str) {
        self.name.as_str()
    }
}

/// Rate limiter: emits at most N events per entity per window.
pub struct RateLimiter {
    name: String,
    max_per_entity: usize,
    counts: Keyed<usize>,
}

/// What a rate limiter knows: how many events of each entity have passed.
pub struct RateLimiterView {
    pub name: Seq<char>,
    pub max_per_entity: nat,
    pub counts: Map<Seq<char>, usize>,
}

impl RateLimiterView {
    /// How many events of an entity have passed.
    pub open spec fn count(self, entity: Seq<char>) -> usize {
        if self.counts.dom().contains(entity) {
            self.counts[entity]
        } else {
            0
        }
    }

    /// Whether an event of the entity passes.
    pub open spec fn admits(self, entity: Seq<char>) -> bool {
        self.count(entity) < self.max_per_entity
    }

    /// The limiter after an event of the entity.
    pub open spec fn seen(self, entity: Seq<char>) -> RateLimiterView {
        RateLimiterView {
            counts: self.counts.insert(
                entity,
                if self.admits(entity) {
                    (self.count(entity) + 1) as usize
                } else {
                    self.count(entity)
                },
            ),
            ..self
        }
    }

    /// What is emitted for an event.
    pub open spec fn emitted(self, event: EventView) -> Seq<OutputEventView> {
        if self.admits(event.entity_id) {
            seq![
                OutputEventView {
                    source_event: event,
                    operator: self.name,
                    payload: action_payload("pass"@).push(
                        ("count"@, FieldView::Count((self.count(event.entity_id) + 1) as nat)),
                    ),
                },
            ]
        } else {
            Seq::empty()
        }
    }

    /// The limiter after events of these entities, in that order.
    pub open spec fn seen_all(self, entities: Seq<Seq<char>>) -> RateLimiterView
        decreases entities.len(),
    {
        if entities.len() == 0 {
            self
        } else {
            self.seen_all(entities.drop_last()).seen(entities.last())
        }
    }

    /// How many of the events of these entities pass for `entity`.
    pub open spec fn admitted(self, entities: Seq<Seq<char>>, entity: Seq<char>) -> nat
        decreases entities.len(),
    {
        if entities.len() == 0 {
            0
        } else {
            self.admitted(entities.drop_last(), entity) + if entities.last() == entity
                && self.seen_all(entities.drop_last()).admits(entity) {
                1nat
            } else {
                0nat
            }
        }
    }

    /// The limiter with no events counted.
    pub open spec fn reset(self) -> RateLimiterView {
        RateLimiterView { counts: Map::empty(), ..self }
    }

    /// The limiter given a checkpoint: its counts, or those it has where the text holds
    /// no counts.
    pub open spec fn resumed(self, state: Seq<char>) -> RateLimiterView {
        match readable_counts(state) {
            Some(counts) => RateLimiterView { counts, ..self },
            None => self,
        }
    }
}

impl View for RateLimiter {
    type V = RateLimiterView;

    closed spec fn view(&self) -> RateLimiterView {
        RateLimiterView {
            name: self.name@,
            max_per_entity: self.max_per_entity as nat,
            counts: self.counts.map(),
        }
    }
}

impl RateLimiter {
    #[verifier::type_invariant]
    spec fn inv(self) -> bool {
        self.counts.distinct()
    }

    /// A limiter named `name` that lets `max_per_entity` events of each entity through.
    pub fn new(name: &str, max_per_entity: usize) -> (r: RateLimiter)
        ensures
            r@ == (RateLimiterView {
                name: name@,
                max_per_entity: max_per_entity as nat,
                counts: Map::empty(),
            }),
    {
        RateLimiter { name: name.to_string(), max_per_entity, counts: Keyed::new() }
    }
}

impl StatefulOperator for RateLimiter {
    /// Counts by entity, as a JSON object.
    type State = String;

    open spec fn may_process(
        before: RateLimiter,
        event: EventView,
        outputs: Seq<OutputEventView>,
        after: RateLimiter,
    ) -> bool {
        outputs == before@.emitted(event) && after@ == before@.seen(event.entity_id)
    }

    open spec fn may_close(
        before: RateLimiter,
        outputs: Seq<OutputEventView>,
        after: RateLimiter,
    ) -> bool {
        outputs.len() == 0 && after@ == before@.reset()
    }

    open spec fn may_snapshot(&self, state: String) -> bool {
        state@ == counts_text(self@.counts) && readable_counts(state@) == Some(self@.counts)
    }

    open spec fn may_restore(before: RateLimiter, state: String, after: RateLimiter) -> bool {
        after@ == before@.resumed(state@)
    }

    open spec fn spec_name(&self) -> Seq<char> {
        self@.name
    }

    fn process(&mut self, event: &Event) -> (r: Vec<OutputEvent>) {
        proof {
            use_type_invariant(&*self);
        }
        let ghost before = self@;
        let entity = event.entity_id.as_str();
        let count: usize = match self.counts.get(entity) {
            Some(count) => *count,
            None => 0,
        };
        let mut counts: Keyed<usize> = Keyed::new();
        std::mem::swap(&mut counts, &mut self.counts);
        let mut outputs: Vec<OutputEvent> = Vec::new();
        if count < self.max_per_entity {
            counts.put(entity, count + 1);
            outputs.push(
                OutputEvent {
                    source_event: event.clone(),
                    operator: self.name.clone(),
                    payload: action("pass").with("count", Field::Count((count + 1) as u64)),
                },
            );
        } else {
            counts.put(entity, count);
        }
        self.counts = counts;
        proof {
            assert(output_views(outputs@) =~= before.emitted(event@));
        }
        outputs
    }

    fn on_window_close(&mut self) -> (r: Vec<OutputEvent>) {
        self.counts = Keyed::new();
        Vec::new()
    }

    fn name(&self) -> (r: &str) {
        self.name.as_str()
    }

    fn snapshot(&self) -> (r: String) {
        proof {
            use_type_invariant(self);
        }
        let wide = widened(&self.counts);
        write_counts(&wide.entries)
    }

    fn restore(&mut self, state: String) {
        match read_counts(state.as_str()) {
            Some(entries) => {
                let wide = Keyed { entries };
                match narrowed(&wide) {
                    Some(counts) => {
                        self.counts = counts;
                    },
                    None => {},
                }
            },
            None => {},
        }
    }
}


/// The entries as a map from name to value.
pub open spec fn entry_map(entries: Seq<(String, u64)>) -> Map<Seq<char>, u64> {
    Map::new(
        |name: Seq<char>| entry_names(entries).contains(name),
        |name: Seq<char>| entries[entry_names(entries).index_of(name)].1,
    )
}

/// What serde_json writes for a map from text to count.
pub uninterp spec fn json_counts(counts: Map<Seq<char>, u64>) -> Seq<char>;

/// What serde_json reads from a text as a map from text to count.
pub uninterp spec fn counts_of_json(text: Seq<char>) -> Option<Map<Seq<char>, u64>>;

/// serde_json's `to_string` on a map with text keys and counts as values, which does not
/// fail: the text is a function of the map, and `from_str` gives the map back.
#[verifier::external_body]
fn write_counts(entries: &Vec<(String, u64)>) -> (r: String)
    requires
        entry_names(entries@).no_duplicates(),
    ensures
        r@ == json_counts(entry_map(entries@)),
        counts_of_json(r@) == Some(entry_map(entries@)),
{
    let counts: BTreeMap<&str, u64> = entries.iter().map(|e| (e.0.as_str(), e.1)).collect();
    serde_json::to_string(&counts).unwrap()
}

/// serde_json's `from_str` into a map with text keys and counts as values: what it reads
/// is a function of the text, and no key comes twice.
#[verifier::external_body]
fn read_counts(text: &str) -> (r: Option<Vec<(String, u64)>>)
    ensures
        match r {
            Some(entries) => entry_names(entries@).no_duplicates() && counts_of_json(text@) == Some(
                entry_map(entries@),
            ),
            None => counts_of_json(text@) is None,
        },
{
    let counts: BTreeMap<String, u64> = serde_json::from_str(text).ok()?;
    Some(counts.into_iter().collect())
}

/// The same counts as 64-bit values.
pub open spec fn wide(counts: Map<Seq<char>, usize>) -> Map<Seq<char>, u64> {
    counts.map_values(|n: usize| n as u64)
}

/// The same counts as machine-sized values.
pub open spec fn narrow(counts: Map<Seq<char>, u64>) -> Map<Seq<char>, usize> {
    counts.map_values(|n: u64| n as usize)
}

/// Whether every count fits the machine.
pub open spec fn countable(counts: Map<Seq<char>, u64>) -> bool {
    forall|name: Seq<char>| #[trigger]
        counts.dom().contains(name) ==> counts[name] <= usize::MAX
}

/// The checkpoint text for these counts.
pub open spec fn counts_text(counts: Map<Seq<char>, usize>) -> Seq<char> {
    json_counts(wide(counts))
}

/// The counts a checkpoint text holds, if it holds any that fit the machine.
pub open spec fn readable_counts(state: Seq<char>) -> Option<Map<Seq<char>, usize>> {
    match counts_of_json(state) {
        Some(counts) => if countable(counts) {
            Some(narrow(counts))
        } else {
            None
        },
        None => None,
    }
}

fn widened(counts: &Keyed<usize>) -> (r: Keyed<u64>)
    requires
        counts.distinct(),
    ensures
        r.distinct(),
        entry_map(r.entries@) == wide(counts.map()),
        countable(entry_map(r.entries@)),
        narrow(entry_map(r.entries@)) == counts.map(),
{
    let mut entries: Vec<(String, u64)> = Vec::new();
    let mut i: usize = 0;
    while i < counts.entries.len()
        invariant
            i <= counts.entries@.len(),
            entries@.len() == i,
            forall|k: int|
                0 <= k < i ==> (#[trigger] entries@[k]).0@ == counts.entries@[k].0@ && entries@[k].1
                    == counts.entries@[k].1,
        decreases counts.entries@.len() - i,
    {
        entries.push((counts.entries[i].0.clone(), counts.entries[i].1 as u64));
        i = i + 1;
    }
    let r = Keyed { entries };
    proof {
        assert(r.names() =~= counts.names());
        assert(entry_map(r.entries@) =~= wide(counts.map())) by {
            assert forall|n: Seq<char>| #[trigger] entry_map(r.entries@).dom().contains(n) implies
                entry_map(r.entries@)[n] == wide(counts.map())[n] by {
                counts.lemma_position(counts.position_of(n));
            }
        }
        assert(narrow(entry_map(r.entries@)) =~= counts.map());
    }
    r
}

fn narrowed(counts: &Keyed<u64>) -> (r: Option<Keyed<usize>>)
    requires
        counts.distinct(),
    ensures
        match r {
            Some(n) => n.distinct() && countable(entry_map(counts.entries@)) && n.map() == narrow(
                entry_map(counts.entries@),
            ),
            None => !countable(entry_map(counts.entries@)),
        },
{
    let mut entries: Vec<(String, usize)> = Vec::new();
    let mut i: usize = 0;
    while i < counts.entries.len()
        invariant
            counts.distinct(),
            i <= counts.entries@.len(),
            entries@.len() == i,
            forall|k: int|
                0 <= k < i ==> (#[trigger] entries@[k]).0@ == counts.entries@[k].0@ && entries@[k].1
                    == counts.entries@[k].1,
        decreases counts.entries@.len() - i,
    {
        if counts.entries[i].1 > usize::MAX as u64 {
            proof {
                counts.lemma_position(i as int);
                let name = counts.names()[i as int];
                assert(entry_map(counts.entries@).dom().contains(name));
            }
            return None;
        }
        entries.push((counts.entries[i].0.clone(), counts.entries[i].1 as usize));
        i = i + 1;
    }
    let r = Keyed { entries };
    proof {
        assert(r.names() =~= counts.names());
        let whole = entry_map(counts.entries@);
        assert forall|n: Seq<char>| #[trigger] whole.dom().contains(n) implies whole[n]
            <= usize::MAX && r.map()[n] == whole[n] by {
            let k = counts.position_of(n);
            assert(counts.names()[k] == n);
            assert(r.entries@[k].1 == counts.entries@[k].1);
        }
        assert(r.map() =~= narrow(whole));
    }
    Some(r)
}

/// A rate limiter emits at most its limit of events per entity between two resets: what it
/// has counted plus what it still lets through never exceeds the limit it started under.
pub proof fn law_rate_limiter_caps_each_entity(
    limiter: RateLimiterView,
    entities: Seq<Seq<char>>,
    entity: Seq<char>,
)
    requires
        limiter.max_per_entity <= usize::MAX,
    ensures
        limiter.reset().admitted(entities, entity) <= limiter.max_per_entity,
        limiter.reset().seen_all(entities).count(entity) == limiter.reset().admitted(
            entities,
            entity,
        ),
    decreases entities.len(),
{
    lemma_limit_is_kept(limiter.reset(), entities);
    if entities.len() > 0 {
        law_rate_limiter_caps_each_entity(limiter, entities.drop_last(), entity);
        lemma_limit_is_kept(limiter.reset(), entities.drop_last());
    }
}

proof fn lemma_limit_is_kept(limiter: RateLimiterView, entities: Seq<Seq<char>>)
    ensures
        limiter.seen_all(entities).max_per_entity == limiter.max_per_entity,
        limiter.seen_all(entities).name == limiter.name,
    decreases entities.len(),
{
    if entities.len() > 0 {
        lemma_limit_is_kept(limiter, entities.drop_last());
    }
}

/// The events of one entity spend no other entity's allowance.
pub proof fn law_rate_limiter_keeps_entities_apart(
    limiter: RateLimiterView,
    entity: Seq<char>,
    other: Seq<char>,
)
    requires
        entity != other,
    ensures
        limiter.seen(entity).count(other) == limiter.count(other),
        limiter.seen(entity).admits(other) == limiter.admits(other),
{
}

/// Closing a window gives every entity its whole allowance back.
pub proof fn law_closing_a_window_resets_the_limit(limiter: RateLimiterView, entity: Seq<char>)
    ensures
        limiter.reset().count(entity) == 0,
        limiter.reset().admits(entity) == (0 < limiter.max_per_entity),
{
}

/// A limiter that is given the checkpoint of another counts as that one did, under its own
/// name and limit.
pub proof fn law_a_rate_limiter_resumes_from_a_snapshot(
    saved: RateLimiter,
    state: String,
    before: RateLimiter,
    after: RateLimiter,
)
    requires
        saved.may_snapshot(state),
        RateLimiter::may_restore(before, state, after),
    ensures
        after@.counts == saved@.counts,
        after@.max_per_entity == before@.max_per_entity,
        after@.name == before@.name,
{
}

/// A state that holds no counts leaves the limiter as it was.
pub proof fn law_an_unusable_state_changes_nothing(
    before: RateLimiter,
    state: String,
    after: RateLimiter,
)
    requires
        RateLimiter::may_restore(before, state, after),
        readable_counts(state@) is None,
    ensures
        after@ == before@,
{
}

/// Token bucket throttle: passes at most `max_per_second` events across the whole stream,
/// bursting up to one second's worth. The events it rejects produce no output, so a stage
/// made of it drops them. The clock and the arithmetic on the bucket are the caller's:
/// `refill` and `take` say what becomes of the results.
pub struct RateLimitOperator {
    name: String,
    max_per_second: Number,
    tokens: Number,
}

/// What a throttle knows.
pub struct RateLimitView {
    pub name: Seq<char>,
    pub max_per_second: Number,
    pub tokens: Number,
}

impl View for RateLimitOperator {
    type V = RateLimitView;

    closed spec fn view(&self) -> RateLimitView {
        RateLimitView {
            name: self.name@,
            max_per_second: self.max_per_second,
            tokens: self.tokens,
        }
    }
}

impl RateLimitView {
    /// The throttle with a bucket filled to `topped_up`, but not past its capacity.
    pub open spec fn refilled(self, topped_up: Number) -> RateLimitView {
        RateLimitView { tokens: smaller(topped_up, capacity(self.max_per_second)), ..self }
    }

    /// Whether there is a token to spend.
    pub open spec fn passes(self) -> bool {
        !self.tokens.below(one())
    }

    /// The throttle after an event: where one token was spent, what is left of the bucket.
    pub open spec fn taken(self, left: Number) -> RateLimitView {
        if self.passes() {
            RateLimitView { tokens: left, ..self }
        } else {
            self
        }
    }
}

/// The most tokens the bucket holds.
pub open spec fn capacity(max_per_second: Number) -> Number {
    larger(max_per_second, one())
}

/// The most tokens the bucket holds. A rate below one per second still gets a single token
/// to spend, otherwise it could never pass anything.
pub fn burst_capacity(max_per_second: Number) -> (r: Number)
    ensures
        r == capacity(max_per_second),
{
    number_max(max_per_second, number_one())
}

impl RateLimitOperator {
    /// A throttle with a full bucket. `max_per_second` must be finite and greater than zero.
    pub fn new(name: &str, max_per_second: Number) -> (r: RateLimitOperator)
        requires
            max_per_second.finite(),
            zero().below(max_per_second),
        ensures
            r@ == (RateLimitView {
                name: name@,
                max_per_second,
                tokens: capacity(max_per_second),
            }),
    {
        RateLimitOperator {
            name: name.to_string(),
            max_per_second,
            tokens: burst_capacity(max_per_second),
        }
    }

    /// The tokens in the bucket.
    pub fn tokens(&self) -> (r: Number)
        ensures
            r == self@.tokens,
    {
        self.tokens
    }

    /// The rate at which the bucket fills.
    pub fn max_per_second(&self) -> (r: Number)
        ensures
            r == self@.max_per_second,
    {
        self.max_per_second
    }

    /// Fills the bucket to `topped_up`, the tokens it had and those earned since the last
    /// refill, but not past its capacity.
    pub fn refill(&mut self, topped_up: Number)
        ensures
            final(self)@ == old(self)@.refilled(topped_up),
    {
        self.tokens = number_min(topped_up, burst_capacity(self.max_per_second));
    }

    /// Passes the event if there is a token to spend, and leaves `left`, one token less, in
    /// the bucket.
    pub fn take(&mut self, event: &Event, left: Number) -> (r: Option<OutputEvent>)
        ensures
            optional_view(r) == (if old(self)@.passes() {
                Some(passed(old(self)@.name, event@))
            } else {
                None
            }),
            final(self)@ == old(self)@.taken(left),
    {
        if self.tokens.lt(number_one()) {
            return None;
        }
        self.tokens = left;
        Some(pass(&self.name, event))
    }

    /// The throttle's name.
    pub fn name(&self) -> (r: &str)
        ensures
            r@ == self@.name,
    {
        self.name.as_str()
    }
}

/// A throttle of any valid rate passes the first event it sees.
pub proof fn law_a_full_bucket_passes_an_event(max_per_second: Number)
    requires
        max_per_second.finite(),
        zero().below(max_per_second),
    ensures
        !capacity(max_per_second).below(one()),
{
}

/// However long the throttle has been idle, its bucket never holds more than its capacity.
pub proof fn law_a_refill_never_exceeds_the_burst(max_per_second: Number, topped_up: Number)
    ensures
        !capacity(max_per_second).below(smaller(topped_up, capacity(max_per_second))),
{
}

/// A bucket holds one second's worth of tokens, or one where that is less: the capacity is
/// the rate or one, and below neither.
pub proof fn law_a_bucket_holds_a_second_of_tokens(max_per_second: Number)
    requires
        max_per_second.finite(),
    ensures
        capacity(max_per_second) == max_per_second || capacity(max_per_second) == one(),
        !capacity(max_per_second).below(max_per_second),
        !capacity(max_per_second).below(one()),
        one().below(max_per_second) ==> capacity(max_per_second) == max_per_second,
        max_per_second.below(one()) ==> capacity(max_per_second) == one(),
{
}

/// A refill gives the tokens that were earned, as far as the bucket holds them, and changes
/// nothing else.
pub proof fn law_a_refill_gives_what_was_earned(throttle: RateLimitView, topped_up: Number)
    requires
        throttle.max_per_second.finite(),
        !topped_up.nan(),
    ensures
        !capacity(throttle.max_per_second).below(topped_up) ==> throttle.refilled(
            topped_up,
        ).tokens == topped_up,
        capacity(throttle.max_per_second).below(topped_up) ==> throttle.refilled(topped_up).tokens
            == capacity(throttle.max_per_second),
        throttle.refilled(topped_up).name == throttle.name,
        throttle.refilled(topped_up).max_per_second == throttle.max_per_second,
{
}

/// An event passes where there is at least one token, and spends it; where there is less than
/// one, it does not pass and the bucket stays as it was.
pub proof fn law_an_event_passes_for_one_token(throttle: RateLimitView, left: Number)
    requires
        !throttle.tokens.nan(),
    ensures
        throttle.passes() <==> one().below(throttle.tokens) || one().equals(throttle.tokens),
        throttle.passes() ==> throttle.taken(left).tokens == left,
        !throttle.passes() ==> throttle.taken(left) == throttle,
        throttle.taken(left).name == throttle.name,
        throttle.taken(left).max_per_second == throttle.max_per_second,
{
}

/// What lets an event through, and what a transform gives, carry the event as it is, under
/// the operator's name, and say what was done.
pub proof fn law_an_output_carries_its_event(name: Seq<char>, event: EventView)
    ensures
        passed(name, event).is_from(name, event, 1),
        passed(name, event).carries("action"@, FieldView::Text("pass"@)),
        transformed(name, event).is_from(name, event, 1),
        transformed(name, event).carries("action"@, FieldView::Text("transform"@)),
{
    assert(passed(name, event).payload[0] == ("action"@, FieldView::Text("pass"@)));
    assert(transformed(name, event).payload[0] == ("action"@, FieldView::Text("transform"@)));
}

/// An event below the limit is emitted once, with its number among those of its entity, and
/// counted; one at the limit is neither.
pub proof fn law_rate_limiter_numbers_what_it_emits(limiter: RateLimiterView, event: EventView)
    requires
        limiter.max_per_entity <= usize::MAX,
    ensures
        limiter.count(event.entity_id) < limiter.max_per_entity ==> {
            &&& limiter.emitted(event).len() == 1
            &&& limiter.emitted(event)[0].is_from(limiter.name, event, 2)
            &&& limiter.emitted(event)[0].carries("action"@, FieldView::Text("pass"@))
            &&& limiter.emitted(event)[0].carries(
                "count"@,
                FieldView::Count(limiter.seen(event.entity_id).count(event.entity_id) as nat),
            )
            &&& limiter.seen(event.entity_id).count(event.entity_id) == limiter.count(
                event.entity_id,
            ) + 1
        },
        limiter.count(event.entity_id) >= limiter.max_per_entity ==> limiter.emitted(event).len()
            == 0 && limiter.seen(event.entity_id).count(event.entity_id) == limiter.count(
            event.entity_id,
        ),
        limiter.seen(event.entity_id).name == limiter.name,
        limiter.seen(event.entity_id).max_per_entity == limiter.max_per_entity,
{
    if limiter.count(event.entity_id) < limiter.max_per_entity {
        let output = limiter.emitted(event)[0];
        assert(output.payload[0] == ("action"@, FieldView::Text("pass"@)));
        assert(output.payload[1] == (
            "count"@,
            FieldView::Count((limiter.count(event.entity_id) + 1) as nat),
        ));
    }
}

/// How often an entity occurs.
pub open spec fn occurrences(entities: Seq<Seq<char>>, entity: Seq<char>) -> nat
    decreases entities.len(),
{
    if entities.len() == 0 {
        0
    } else {
        occurrences(entities.drop_last(), entity) + if entities.last() == entity {
            1nat
        } else {
            0nat
        }
    }
}

/// From a reset on, all events of an entity pass until the limit is reached, and none after
/// that, whatever comes from other entities.
pub proof fn law_rate_limiter_passes_up_to_its_limit(
    limiter: RateLimiterView,
    entities: Seq<Seq<char>>,
    entity: Seq<char>,
)
    requires
        limiter.max_per_entity <= usize::MAX,
    ensures
        limiter.reset().admitted(entities, entity) == (if occurrences(entities, entity)
            < limiter.max_per_entity {
            occurrences(entities, entity)
        } else {
            limiter.max_per_entity
        }),
    decreases entities.len(),
{
    if entities.len() > 0 {
        law_rate_limiter_passes_up_to_its_limit(limiter, entities.drop_last(), entity);
        law_rate_limiter_caps_each_entity(limiter, entities.drop_last(), entity);
        lemma_limit_is_kept(limiter.reset(), entities.drop_last());
    }
}

/// What a filter may give for an event: the event itself where its predicate can hold for it,
/// and nothing where it can fail to.
pub proof fn law_a_filter_gives_what_its_predicate_holds_for<F: Fn(&Event) -> bool>(
    filter: FilterOperator<F>,
    event: EventView,
    output: Option<OutputEventView>,
)
    requires
        filter.may_produce(event, output),
    ensures
        output is Some ==> output->0.source_event == event && output->0.operator
            == filter.spec_name() && exists|e: &Event|
            e@ == event && #[trigger] call_ensures(filter.predicate(), (e,), true),
        output is None ==> exists|e: &Event|
            e@ == event && #[trigger] call_ensures(filter.predicate(), (e,), false),
{
}

/// What a transform may give for an event: always an output, with an event that the transform
/// can make of it.
pub proof fn law_a_transform_always_gives_what_it_made<F: Fn(&Event) -> Event>(
    transform: TransformOperator<F>,
    event: EventView,
    output: Option<OutputEventView>,
)
    requires
        transform.may_produce(event, output),
    ensures
        output is Some,
        output->0.operator == transform.spec_name(),
        exists|e: &Event, made: Event|
            e@ == event && made@ == output->0.source_event && #[trigger] call_ensures(
                transform.transform(),
                (e,),
                made,
            ),
{
}

/// A rate limiter that took in an event emitted what it owes for it and counted it; one whose
/// window closed emitted nothing and has counted nothing for any entity.
pub proof fn law_a_rate_limiter_does_what_it_owes(
    before: RateLimiter,
    event: EventView,
    outputs: Seq<OutputEventView>,
    after: RateLimiter,
    entity: Seq<char>,
)
    ensures
        RateLimiter::may_process(before, event, outputs, after) ==> {
            &&& (outputs.len() == 1 && outputs[0].source_event == event
                && before@.count(event.entity_id) < before@.max_per_entity) || (outputs.len() == 0
                && before@.count(event.entity_id) >= before@.max_per_entity)
            &&& entity != event.entity_id ==> after@.count(entity) == before@.count(entity)
            &&& after@.max_per_entity == before@.max_per_entity
            &&& after@.name == before@.name
        },
        RateLimiter::may_close(before, outputs, after) ==> outputs.len() == 0 && after@.count(
            entity,
        ) == 0 && after@.max_per_entity == before@.max_per_entity && after@.name == before@.name,
{
}

/// Counts are the same counts as 64-bit values and back again, entity by entity, and always
/// fit.
pub proof fn law_counts_survive_a_checkpoint(counts: Map<Seq<char>, usize>, entity: Seq<char>)
    ensures
        wide(counts).dom() == counts.dom(),
        counts.dom().contains(entity) ==> wide(counts)[entity] == counts[entity],
        countable(wide(counts)),
        narrow(wide(counts)) == counts,
{
    assert(wide(counts).dom() =~= counts.dom());
    assert(narrow(wide(counts)) =~= counts);
}

/// A checkpoint text that is read gives each entity the count that was read for it.
pub proof fn law_what_is_read_is_what_counts(state: Seq<char>, entity: Seq<char>)
    requires
        readable_counts(state) is Some,
    ensures
        counts_of_json(state) is Some,
        readable_counts(state)->0.dom() == counts_of_json(state)->0.dom(),
        counts_of_json(state)->0.dom().contains(entity) ==> readable_counts(state)->0[entity]
            == counts_of_json(state)->0[entity],
{
    assert(readable_counts(state)->0.dom() =~= counts_of_json(state)->0.dom());
}

} // verus!
