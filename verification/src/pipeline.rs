//! Stream processing pipeline: connects sources, operators and sinks.
//!
//! A pipeline decides what happens next and in which order; its caller owns the channels,
//! the clock, the windows and the disk. The caller asks for the next [`Action`], performs
//! it, and reports what came of it.

use crate::event::{output_views, Event, OutputEvent, OutputEventView};
use crate::keyed::Keyed;
use crate::metrics::Metrics;
use crate::operator::{optional_view, MapOperator, StatefulOperator};
use crate::run::{
    agenda_ok, closes_from, closes_times, lemma_chain, lemma_closes_from, lemma_closes_times,
    lemma_instead, lemma_settled, placed_ok, sends, task_ok, tasks_ok, ActionView, OutcomeView,
    RunView, TaskView,
};
use crate::text::{debug_quoted, debug_text, same};
use crate::time::{Span, Timestamp, SPAN_SECONDS};
use crate::watermark::{Watermark, WatermarkView};
use vstd::prelude::*;

verus! {

/// The key under which a checkpoint holds the open windows. Stateful stages are keyed by
/// their own name, and the dot keeps this out of that space.
pub open spec fn window_key() -> Seq<char> {
    "pipeline.windows"@
}

/// The key under which a checkpoint holds the open windows.
pub fn window_state_key() -> (r: &'static str)
    ensures
        r@ == window_key(),
{
    "pipeline.windows"
}

/// One step in a pipeline's operator chain.
pub enum Stage<M: MapOperator, S: StatefulOperator> {
    /// Stateless operator. Producing no output drops the event and stops the chain, so
    /// this is how filtering is expressed.
    Stateless(M),
    /// Stateful operator. Emits zero or more outputs and never drops the event: geofence,
    /// proximity and friends alert on what they see, they don't filter.
    Stateful(S),
}

/// What is left to do.
#[derive(Debug)]
enum Task {
    Expire,
    Close(usize),
    Apply(usize),
    Send(OutputEvent),
    Record,
    Assign,
    WriteCheckpoint,
}

impl View for Task {
    type V = TaskView;

    closed spec fn view(&self) -> TaskView {
        match self {
            Task::Expire => TaskView::Expire,
            Task::Close(i) => TaskView::Close(*i as int),
            Task::Apply(i) => TaskView::Apply(*i as int),
            Task::Send(o) => TaskView::Send(o@),
            Task::Record => TaskView::Record,
            Task::Assign => TaskView::Assign,
            Task::WriteCheckpoint => TaskView::WriteCheckpoint,
        }
    }
}

/// What the caller does next.
#[derive(Debug)]
pub enum Action {
    /// Wait for an event, the end of the input or the checkpoint interval; report with
    /// `received`, `closed` or `ticked`.
    Receive,
    /// Expire the windows that end by this time; report with `expired`.
    ExpireWindows(Timestamp),
    /// Call `flush`.
    CloseStage,
    /// Call `apply`; report how long it took with `applied`.
    ApplyStage,
    /// Send an output; report with `sent` or `sink_gone`.
    Send(OutputEvent),
    /// Assign the event to its window; report with `assigned`.
    AssignToWindow(Event),
    /// Write what `checkpoint` gives; report with `written`.
    WriteCheckpoint,
    /// The run is over.
    Finished,
}

impl View for Action {
    type V = ActionView;

    open spec fn view(&self) -> ActionView {
        match self {
            Action::Receive => ActionView::Receive,
            Action::ExpireWindows(t) => ActionView::ExpireWindows(t@),
            Action::CloseStage => ActionView::CloseStage,
            Action::ApplyStage => ActionView::ApplyStage,
            Action::Send(o) => ActionView::Send(o@),
            Action::AssignToWindow(e) => ActionView::AssignToWindow(e@),
            Action::WriteCheckpoint => ActionView::WriteCheckpoint,
            Action::Finished => ActionView::Finished,
        }
    }
}

/// What a stage made of an event.
#[derive(Debug)]
pub enum Outcome {
    /// A stateless stage's output, if it produced one.
    Single(Option<OutputEvent>),
    /// A stateful stage's outputs.
    Several(Vec<OutputEvent>),
}

impl View for Outcome {
    type V = OutcomeView;

    open spec fn view(&self) -> OutcomeView {
        match self {
            Outcome::Single(o) => OutcomeView::Single(optional_view(*o)),
            Outcome::Several(v) => OutcomeView::Several(output_views(v@)),
        }
    }
}

/// The tasks a stack holds, the top first.
spec fn agenda_of(stack: Seq<Task>) -> Seq<TaskView> {
    Seq::new(stack.len(), |i: int| stack[stack.len() - 1 - i]@)
}

/// A processing pipeline that connects a source to operators and a sink.
pub struct Pipeline<M: MapOperator, S: StatefulOperator> {
    name: String,
    stages: Vec<Stage<M, S>>,
    windowed: bool,
    watermark: Option<Watermark>,
    checkpoints: Option<u128>,
    metrics: Metrics,
    /// What is left to do, the next task last.
    stack: Vec<Task>,
    event: Option<Event>,
    nanos: u128,
    ended: bool,
    gone: bool,
    /// What the stage whose turn it is made of the event, until the time it took is known.
    pending: Option<Outcome>,
}

/// The kinds of the stages, `true` for a stateful one.
pub open spec fn kinds_of<M: MapOperator, S: StatefulOperator>(stages: Seq<Stage<M, S>>) -> Seq<
    bool,
> {
    Seq::new(stages.len(), |i: int| stages[i] is Stateful)
}

/// The stateful operators from position `i` on, in stage order.
pub open spec fn stateful_ops<M: MapOperator, S: StatefulOperator>(
    stages: Seq<Stage<M, S>>,
    i: int,
) -> Seq<S>
    decreases stages.len() - i,
{
    if i >= stages.len() {
        Seq::empty()
    } else {
        match stages[i] {
            Stage::Stateful(op) => seq![op] + stateful_ops(stages, i + 1),
            Stage::Stateless(_) => stateful_ops(stages, i + 1),
        }
    }
}

/// The names of these operators.
pub open spec fn names_of<S: StatefulOperator>(ops: Seq<S>) -> Seq<Seq<char>> {
    Seq::new(ops.len(), |i: int| ops[i].spec_name())
}

/// The position of the first name that occurred before, from position `i` on, or the
/// number of names.
pub open spec fn first_repeat(names: Seq<Seq<char>>, i: int) -> int
    decreases names.len() - i,
{
    if i >= names.len() {
        names.len() as int
    } else if names.take(i).contains(names[i]) {
        i
    } else {
        first_repeat(names, i + 1)
    }
}

impl<M: MapOperator, S: StatefulOperator> Pipeline<M, S> {
    /// The stages in order.
    pub closed spec fn stages(&self) -> Seq<Stage<M, S>> {
        self.stages@
    }

    /// The kinds of the stages.
    pub open spec fn kinds(&self) -> Seq<bool> {
        kinds_of(self.stages())
    }

    /// The pipeline's name.
    pub closed spec fn spec_name(&self) -> Seq<char> {
        self.name@
    }

    /// Where the run stands.
    pub closed spec fn run(&self) -> RunView {
        RunView {
            windowed: self.windowed,
            watermark: match self.watermark {
                Some(w) => Some(w@),
                None => None,
            },
            checkpoints: self.checkpoints,
            metrics: self.metrics@,
            agenda: agenda_of(self.stack@),
            event: match self.event {
                Some(e) => Some(e@),
                None => None,
            },
            nanos: self.nanos as nat,
            ended: self.ended,
            gone: self.gone,
        }
    }

    /// What the stage whose turn it is made of the event, where it has had it.
    pub closed spec fn pending(&self) -> Option<OutcomeView> {
        match self.pending {
            Some(outcome) => Some(outcome@),
            None => None,
        }
    }

    /// Every task on the agenda can be done: it names a stage of the right kind and has
    /// the event or the watermark it needs, and the time spent is no more than the stages
    /// passed can have taken. An outcome is pending only while its stage has its turn.
    pub open spec fn wf(&self) -> bool {
        &&& agenda_ok(self.kinds(), self.run())
        &&& self.pending() is Some ==> self.run().action() is ApplyStage && (
        self.pending()->0 is Several == self.kinds()[self.run().agenda[0]->Apply_0])
    }
}

/// Putting a task on top of a stack puts it at the front of the agenda.
proof fn lemma_push(stack: Seq<Task>, task: Task)
    ensures
        agenda_of(stack.push(task)) == seq![task@] + agenda_of(stack),
{
    assert(agenda_of(stack.push(task)) =~= seq![task@] + agenda_of(stack));
}

/// Taking the top off a stack takes the first task off the agenda.
proof fn lemma_pop(stack: Seq<Task>)
    requires
        stack.len() > 0,
    ensures
        agenda_of(stack.drop_last()) == agenda_of(stack).skip(1),
        agenda_of(stack)[0] == stack.last()@,
{
    assert(agenda_of(stack.drop_last()) =~= agenda_of(stack).skip(1));
}

fn push_sends(stack: &mut Vec<Task>, outputs: Vec<OutputEvent>)
    ensures
        agenda_of(final(stack)@) == sends(output_views(outputs@)) + agenda_of(old(stack)@),
{
    let ghost all = output_views(outputs@);
    let ghost base = agenda_of(stack@);
    let mut left = outputs;
    proof {
        assert(sends(all.skip(all.len() as int)) + base =~= base);
        assert(all.take(all.len() as int) =~= all);
    }
    while left.len() > 0
        invariant
            left@.len() <= all.len(),
            output_views(left@) == all.take(left@.len() as int),
            agenda_of(stack@) == sends(all.skip(left@.len() as int)) + base,
        decreases left@.len(),
    {
        let ghost before = stack@;
        let ghost n = left@.len();
        proof {
            assert(output_views(left@).drop_last() =~= all.take(n - 1));
            assert(output_views(left@)[n - 1] == all[n - 1]);
        }
        let last = left.pop();
        if let Some(output) = last {
            proof {
                assert(output_views(left@) =~= all.take(n - 1));
                lemma_push(before, Task::Send(output));
                assert(seq![TaskView::Send(all[n - 1])] + sends(all.skip(n as int)) =~= sends(
                    all.skip(n - 1),
                ));
                assert(seq![TaskView::Send(all[n - 1])] + (sends(all.skip(n as int)) + base)
                    =~= sends(all.skip(n - 1)) + base);
            }
            stack.push(Task::Send(output));
        }
    }
    proof {
        assert(all.skip(0) =~= all);
    }
}

impl<M: MapOperator, S: StatefulOperator> Pipeline<M, S> {
    /// A pipeline with no stages.
    pub fn new(name: &str) -> (r: Pipeline<M, S>)
        ensures
            r.wf(),
            r.spec_name() == name@,
            r.stages() == Seq::<Stage<M, S>>::empty(),
            r.run() == RunView::fresh(),
            r.pending() is None,
    {
        let r = Pipeline {
            name: name.to_string(),
            stages: Vec::new(),
            windowed: false,
            watermark: None,
            checkpoints: None,
            metrics: Metrics::new(),
            stack: Vec::new(),
            event: None,
            nanos: 0,
            ended: false,
            gone: false,
            pending: None,
        };
        proof {
            assert(r.run().agenda =~= Seq::empty());
        }
        r
    }

    /// Get pipeline name.
    pub fn name(&self) -> (r: &str)
        ensures
            r@ == self.spec_name(),
    {
        self.name.as_str()
    }

    /// The counters this pipeline updates as it runs.
    pub fn metrics(&self) -> (r: &Metrics)
        ensures
            r@ == self.run().metrics,
    {
        &self.metrics
    }

    /// Append a stage to the operator chain.
    pub fn add_stage(&mut self, stage: Stage<M, S>)
        requires
            old(self).wf(),
        ensures
            final(self).wf(),
            final(self).stages() == old(self).stages().push(stage),
            final(self).run() == old(self).run(),
            final(self).pending() == old(self).pending(),
            final(self).spec_name() == old(self).spec_name(),
    {
        let ghost before = *self;
        self.stages.push(stage);
        proof {
            assert(self.kinds() =~= before.kinds().push(stage is Stateful));
            if self.run().agenda.len() > 0 {
                assert(task_ok(before.kinds(), before.run(), before.run().agenda[0]));
            }
            assert forall|k: int| 0 <= k < self.run().agenda.len() implies #[trigger] task_ok(
                self.kinds(),
                self.run(),
                self.run().agenda[k],
            ) && placed_ok(self.run().agenda, k) by {
                assert(task_ok(before.kinds(), before.run(), before.run().agenda[k]));
            }
        }
    }

    /// Add a stateless operator to the pipeline.
    pub fn add_operator(&mut self, op: M)
        requires
            old(self).wf(),
        ensures
            final(self).wf(),
            final(self).stages() == old(self).stages().push(Stage::Stateless(op)),
            final(self).run() == old(self).run(),
            final(self).pending() == old(self).pending(),
            final(self).spec_name() == old(self).spec_name(),
    {
        self.add_stage(Stage::Stateless(op));
    }

    /// Expire stateful stages when a window closes, using event-time watermarks. Late
    /// events past `max_lateness` are dropped.
    pub fn set_window(&mut self, max_lateness: Span)
        requires
            old(self).wf(),
        ensures
            final(self).wf(),
            final(self).same_stages(old(self)),
            final(self).run() == (RunView {
                windowed: true,
                watermark: Some(WatermarkView::fresh(max_lateness@)),
                ..old(self).run()
            }),
    {
        let ghost before = *self;
        self.windowed = true;
        self.watermark = Some(Watermark::new(max_lateness));
        proof {
            assert forall|k: int| 0 <= k < self.run().agenda.len() implies #[trigger] task_ok(
                self.kinds(),
                self.run(),
                self.run().agenda[k],
            ) && placed_ok(self.run().agenda, k) by {
                assert(task_ok(before.kinds(), before.run(), before.run().agenda[k]));
            }
        }
    }

    /// `set_window` with the lateness in seconds.
    pub fn set_window_lateness_secs(&mut self, max_lateness_secs: u64)
        requires
            old(self).wf(),
            max_lateness_secs <= SPAN_SECONDS,
        ensures
            final(self).wf(),
            final(self).same_stages(old(self)),
            final(self).run() == (RunView {
                windowed: true,
                watermark: Some(WatermarkView::fresh(max_lateness_secs * 1_000_000_000)),
                ..old(self).run()
            }),
    {
        self.set_window(Span::seconds(max_lateness_secs as i64));
    }
}

fn push_closes<M: MapOperator, S: StatefulOperator>(
    stack: &mut Vec<Task>,
    stages: &Vec<Stage<M, S>>,
)
    ensures
        agenda_of(final(stack)@) == closes_from(kinds_of(stages@), 0) + agenda_of(old(stack)@),
{
    let ghost kinds = kinds_of(stages@);
    let ghost base = agenda_of(stack@);
    let mut i: usize = stages.len();
    proof {
        assert(closes_from(kinds, i as int) + base =~= base);
    }
    while i > 0
        invariant
            i <= stages@.len(),
            kinds == kinds_of(stages@),
            agenda_of(stack@) == closes_from(kinds, i as int) + base,
        decreases i,
    {
        i = i - 1;
        match &stages[i] {
            Stage::Stateful(_) => {
                proof {
                    lemma_push(stack@, Task::Close(i));
                    assert(seq![TaskView::Close(i as int)] + (closes_from(kinds, i + 1) + base)
                        =~= (seq![TaskView::Close(i as int)] + closes_from(kinds, i + 1)) + base);
                }
                stack.push(Task::Close(i));
            },
            Stage::Stateless(_) => {},
        }
    }
}

impl<M: MapOperator, S: StatefulOperator> Pipeline<M, S> {
    /// Whether only the run has moved on, between two states of a pipeline.
    pub open spec fn same_stages(&self, other: &Pipeline<M, S>) -> bool {
        self.stages() == other.stages() && self.spec_name() == other.spec_name()
            && self.pending() == other.pending()
    }

    /// Begin a run.
    pub fn begin(&mut self)
        requires
            old(self).wf(),
        ensures
            final(self).wf(),
            final(self).stages() == old(self).stages(),
            final(self).spec_name() == old(self).spec_name(),
            final(self).pending() is None,
            final(self).run() == old(self).run().begun(),
    {
        self.stack = Vec::new();
        self.ended = false;
        self.gone = false;
        self.pending = None;
        proof {
            assert(self.run().agenda =~= Seq::empty());
        }
    }

    /// What the caller does next.
    pub fn action(&self) -> (r: Action)
        requires
            self.wf(),
        ensures
            r@ == self.run().action(),
    {
        let n: usize = self.stack.len();
        if n == 0 {
            if self.ended || self.gone {
                return Action::Finished;
            }
            return Action::Receive;
        }
        proof {
            lemma_pop(self.stack@);
            assert(task_ok(self.kinds(), self.run(), self.run().agenda[0]));
        }
        match &self.stack[n - 1] {
            Task::Expire => match &self.watermark {
                Some(w) => Action::ExpireWindows(*w.current()),
                None => Action::Finished,
            },
            Task::Close(_) => Action::CloseStage,
            Task::Apply(_) => Action::ApplyStage,
            Task::Send(o) => Action::Send(o.clone()),
            Task::Record => Action::Finished,
            Task::Assign => match &self.event {
                Some(e) => Action::AssignToWindow(e.clone()),
                None => Action::Finished,
            },
            Task::WriteCheckpoint => Action::WriteCheckpoint,
        }
    }

    /// Whether `received` can take this event: its time is one the watermark can follow.
    pub fn can_receive(&self, event: &Event) -> (r: bool)
        ensures
            r == self.run().can_take(event@.timestamp),
    {
        match &self.watermark {
            Some(w) => w.can_advance(&event.timestamp),
            None => true,
        }
    }

    fn settle(&mut self)
        requires
            tasks_ok(old(self).kinds(), old(self).run()),
            old(self).pending() is None,
        ensures
            final(self).wf(),
            final(self).same_stages(old(self)),
            final(self).run() == old(self).run().settled(),
    {
        proof {
            lemma_settled(self.kinds(), self.run());
        }
        let n: usize = self.stack.len();
        if n == 0 {
            return;
        }
        proof {
            lemma_pop(self.stack@);
        }
        let due: bool = match &self.stack[n - 1] {
            Task::Record => true,
            _ => false,
        };
        if due {
            let ghost before = self.stack@;
            self.stack.pop();
            proof {
                assert(self.stack@ =~= before.drop_last());
            }
            let micros: u64 = ((self.nanos / 1000) % 0x1_0000_0000_0000_0000u128) as u64;
            self.metrics.record_processing_time(micros);
        }
    }

    fn push_chain(&mut self, i: usize)
        requires
            i <= old(self).stages().len(),
        ensures
            final(self).same_stages(old(self)),
            final(self).run() == (RunView {
                agenda: old(self).run().chain(old(self).kinds(), i as int)
                    + old(self).run().agenda,
                ..old(self).run()
            }),
    {
        if i < self.stages.len() {
            proof {
                lemma_push(self.stack@, Task::Apply(i));
            }
            self.stack.push(Task::Apply(i));
        } else {
            self.push_wrap_up();
        }
    }

    fn push_wrap_up(&mut self)
        ensures
            final(self).same_stages(old(self)),
            final(self).run() == (RunView {
                agenda: old(self).run().wrap_up() + old(self).run().agenda,
                ..old(self).run()
            }),
    {
        let ghost base = agenda_of(self.stack@);
        if self.windowed {
            proof {
                lemma_push(self.stack@, Task::Assign);
            }
            self.stack.push(Task::Assign);
        }
        proof {
            lemma_push(self.stack@, Task::Record);
        }
        self.stack.push(Task::Record);
        proof {
            assert(agenda_of(self.stack@) =~= old(self).run().wrap_up() + base);
        }
    }

    /// An event came in.
    pub fn received(&mut self, event: Event)
        requires
            old(self).wf(),
            old(self).run().action() is Receive,
            old(self).run().can_take(event@.timestamp),
        ensures
            final(self).wf(),
            final(self).same_stages(old(self)),
            final(self).run() == old(self).run().received(old(self).kinds(), event@),
    {
        let ghost before = *self;
        proof {
            if self.stack@.len() > 0 {
                lemma_pop(self.stack@);
            }
            assert(self.run().agenda.len() == 0);
        }
        self.metrics.inc_received();
        let mut late: bool = false;
        let mut follows: bool = false;
        match &mut self.watermark {
            Some(w) => {
                late = !w.advance(&event.timestamp);
                follows = true;
            },
            None => {},
        }
        if late {
            self.metrics.inc_late();
            proof {
                assert(self.run() == before.run().received(before.kinds(), event@));
            }
            return;
        }
        let ghost taken = event@;
        self.event = Some(event);
        self.nanos = 0;
        self.push_chain(0);
        if follows && self.windowed {
            proof {
                lemma_push(self.stack@, Task::Expire);
            }
            self.stack.push(Task::Expire);
        }
        proof {
            let front: Seq<TaskView> = if follows && self.windowed {
                seq![TaskView::Expire]
            } else {
                Seq::empty()
            };
            assert(self.run().agenda =~= front + self.run().chain(self.kinds(), 0));
            lemma_chain(self.kinds(), front, 0, self.run());
        }
        self.settle();
    }

    /// The input ended.
    pub fn closed(&mut self)
        requires
            old(self).wf(),
            old(self).run().action() is Receive,
        ensures
            final(self).wf(),
            final(self).same_stages(old(self)),
            final(self).run() == old(self).run().closed(old(self).kinds()),
    {
        let ghost before = *self;
        proof {
            if self.stack@.len() > 0 {
                lemma_pop(self.stack@);
            }
            lemma_closes_from(self.kinds(), 0);
        }
        push_closes(&mut self.stack, &self.stages);
        if self.checkpoints.is_some() {
            proof {
                lemma_push(self.stack@, Task::WriteCheckpoint);
            }
            self.stack.push(Task::WriteCheckpoint);
        }
        self.ended = true;
        proof {
            assert(self.run().agenda =~= before.run().closed(before.kinds()).agenda);
            let front: int = if before.checkpoints is Some {
                1
            } else {
                0
            };
            assert forall|k: int| 0 <= k < self.run().agenda.len() implies #[trigger] task_ok(
                self.kinds(),
                self.run(),
                self.run().agenda[k],
            ) && placed_ok(self.run().agenda, k) by {
                if k >= front {
                    assert(self.run().agenda[k] == closes_from(self.kinds(), 0)[k - front]);
                }
            }
            if self.run().agenda.len() > 0 && front == 0 {
                assert(self.run().agenda[0] == closes_from(self.kinds(), 0)[0]);
            }
        }
    }

    /// The checkpoint interval passed.
    pub fn ticked(&mut self)
        requires
            old(self).wf(),
            old(self).run().action() is Receive,
        ensures
            final(self).wf(),
            final(self).same_stages(old(self)),
            final(self).run() == old(self).run().ticked(),
    {
        proof {
            if self.stack@.len() > 0 {
                lemma_pop(self.stack@);
            }
        }
        if self.checkpoints.is_some() {
            proof {
                lemma_push(self.stack@, Task::WriteCheckpoint);
            }
            self.stack.push(Task::WriteCheckpoint);
            proof {
                assert(self.run().agenda =~= seq![TaskView::WriteCheckpoint]);
            }
        }
    }

    fn drop_first(&mut self)
        requires
            old(self).run().agenda.len() > 0,
        ensures
            final(self).same_stages(old(self)),
            final(self).run() == old(self).run().instead(Seq::empty()),
    {
        let ghost before = self.stack@;
        proof {
            lemma_pop(before);
        }
        self.stack.pop();
        proof {
            assert(self.stack@ =~= before.drop_last());
            assert(self.run().agenda =~= Seq::<TaskView>::empty() + agenda_of(before).skip(1));
        }
    }

    /// The checkpoint was written, or could not be.
    pub fn written(&mut self)
        requires
            old(self).wf(),
            old(self).run().action() is WriteCheckpoint,
        ensures
            final(self).wf(),
            final(self).same_stages(old(self)),
            final(self).run() == old(self).run().written(),
    {
        self.drop_first();
        proof {
            lemma_instead(self.kinds(), old(self).run(), Seq::empty(), self.run());
        }
        self.settle();
    }

    /// This many windows expired.
    pub fn expired(&mut self, windows: usize)
        requires
            old(self).wf(),
            old(self).run().action() is ExpireWindows,
        ensures
            final(self).wf(),
            final(self).same_stages(old(self)),
            final(self).run() == old(self).run().expired(old(self).kinds(), windows as nat),
    {
        self.drop_first();
        let ghost rest = self.run().agenda;
        let ghost kinds = self.kinds();
        let ghost dropped = self.run();
        let mut i: usize = 0;
        proof {
            assert(closes_times(kinds, 0) + rest =~= rest);
        }
        while i < windows
            invariant
                i <= windows,
                kinds == self.kinds(),
                self.same_stages(old(self)),
                self.run() == (RunView {
                    agenda: closes_times(kinds, i as nat) + rest,
                    ..dropped
                }),
            decreases windows - i,
        {
            push_closes(&mut self.stack, &self.stages);
            proof {
                assert(closes_from(kinds, 0) + (closes_times(kinds, i as nat) + rest)
                    =~= closes_times(kinds, (i + 1) as nat) + rest);
            }
            i = i + 1;
        }
        proof {
            lemma_closes_times(kinds, windows as nat);
            assert(rest =~= old(self).run().agenda.skip(1));
            lemma_instead(
                kinds,
                old(self).run(),
                closes_times(kinds, windows as nat),
                self.run(),
            );
        }
        self.settle();
    }

    /// Flushes the stage whose turn it is. What it gives is sent next.
    pub fn flush(&mut self)
        requires
            old(self).wf(),
            old(self).run().action() is CloseStage,
        ensures
            final(self).wf(),
            final(self).spec_name() == old(self).spec_name(),
            final(self).pending() is None,
            ({
                let i = old(self).run().agenda[0]->Close_0;
                &&& final(self).stages() == old(self).stages().update(i, final(self).stages()[i])
                &&& final(self).stages()[i] is Stateful
                &&& exists|outputs: Seq<OutputEventView>|
                    {
                        &&& #[trigger] S::may_close(
                            old(self).stages()[i]->Stateful_0,
                            outputs,
                            final(self).stages()[i]->Stateful_0,
                        )
                        &&& final(self).run() == old(self).run().flushed(outputs)
                    }
            }),
    {
        let ghost before = *self;
        proof {
            lemma_pop(self.stack@);
            assert(task_ok(self.kinds(), self.run(), self.run().agenda[0]));
        }
        let n: usize = self.stack.len();
        let i: usize = match &self.stack[n - 1] {
            Task::Close(i) => *i,
            _ => 0,
        };
        let outputs = match &mut self.stages[i] {
            Stage::Stateful(op) => op.on_window_close(),
            Stage::Stateless(_) => Vec::new(),
        };
        let ghost given = output_views(outputs@);
        proof {
            assert(self.stages() =~= before.stages().update(i as int, self.stages()[i as int]));
            assert(self.kinds() =~= before.kinds());
            assert(S::may_close(
                before.stages()[i as int]->Stateful_0,
                given,
                self.stages()[i as int]->Stateful_0,
            ));
        }
        self.drop_first();
        proof {
            assert(self.run().agenda =~= before.run().agenda.skip(1));
        }
        push_sends(&mut self.stack, outputs);
        proof {
            lemma_instead(self.kinds(), before.run(), sends(given), self.run());
        }
        self.settle();
    }

    /// Hands the event to the stage whose turn it is. What it makes of it is pending until
    /// `applied`.
    pub fn apply(&mut self)
        requires
            old(self).wf(),
            old(self).run().action() is ApplyStage,
            old(self).pending() is None,
        ensures
            final(self).wf(),
            final(self).spec_name() == old(self).spec_name(),
            final(self).run() == old(self).run(),
            final(self).pending() is Some,
            ({
                let i = old(self).run().agenda[0]->Apply_0;
                let event = old(self).run().event->0;
                let outcome = final(self).pending()->0;
                match old(self).stages()[i] {
                    Stage::Stateless(op) => final(self).stages() == old(self).stages()
                        && outcome is Single && op.may_produce(event, outcome->Single_0),
                    Stage::Stateful(op) => {
                        &&& final(self).stages() == old(self).stages().update(
                            i,
                            final(self).stages()[i],
                        )
                        &&& final(self).stages()[i] is Stateful
                        &&& outcome is Several
                        &&& S::may_process(
                            op,
                            event,
                            outcome->Several_0,
                            final(self).stages()[i]->Stateful_0,
                        )
                    },
                }
            }),
    {
        let ghost before = *self;
        proof {
            lemma_pop(self.stack@);
            assert(task_ok(self.kinds(), self.run(), self.run().agenda[0]));
        }
        let n: usize = self.stack.len();
        let i: usize = match &self.stack[n - 1] {
            Task::Apply(i) => *i,
            _ => 0,
        };
        let outcome = match &self.event {
            Some(event) => match &mut self.stages[i] {
                Stage::Stateless(op) => Outcome::Single(op.process(event)),
                Stage::Stateful(op) => Outcome::Several(op.process(event)),
            },
            None => Outcome::Single(None),
        };
        proof {
            assert(self.stages() =~= before.stages().update(i as int, self.stages()[i as int]));
            assert(self.kinds() =~= before.kinds());
        }
        self.pending = Some(outcome);
    }

    /// The stage has had the event, and took this long: what it made of it takes effect.
    pub fn applied(&mut self, nanos: u64)
        requires
            old(self).wf(),
            old(self).run().action() is ApplyStage,
            old(self).pending() is Some,
        ensures
            final(self).wf(),
            final(self).stages() == old(self).stages(),
            final(self).spec_name() == old(self).spec_name(),
            final(self).pending() is None,
            final(self).run() == old(self).run().applied(
                old(self).kinds(),
                old(self).pending()->0,
                nanos as nat,
            ),
    {
        let ghost before = *self;
        let outcome = match self.pending.take() {
            Some(outcome) => outcome,
            None => Outcome::Single(None),
        };
        proof {
            assert(outcome@ == before.pending()->0);
            assert(self.run() == before.run());
            assert(self.stages() == before.stages());
        }
        proof {
            lemma_pop(self.stack@);
            assert(task_ok(self.kinds(), self.run(), self.run().agenda[0]));
            assert(placed_ok(self.run().agenda, 0));
        }
        let n: usize = self.stack.len();
        let i: usize = match &self.stack[n - 1] {
            Task::Apply(i) => *i,
            _ => 0,
        };
        self.drop_first();
        self.nanos = self.nanos + nanos as u128;
        let stages: usize = self.stages.len();
        proof {
            assert(i < stages);
        }
        let ghost rest = before.run().agenda.skip(1);
        let ghost next = self.run().chain(self.kinds(), i + 1);
        let ghost mut front: Seq<TaskView> = Seq::empty();
        proof {
            assert(rest =~= Seq::empty());
            assert(self.run().agenda =~= Seq::empty());
        }
        match outcome {
            Outcome::Single(Some(output)) => {
                self.event = Some(output.source_event.clone());
                self.push_chain(i + 1);
                proof {
                    lemma_push(self.stack@, Task::Send(output));
                    front = seq![TaskView::Send(output@)];
                    assert(front + (next + Seq::empty()) =~= (front + next) + rest);
                    assert(front + next + rest =~= front + next);
                }
                self.stack.push(Task::Send(output));
            },
            Outcome::Single(None) => {
                self.metrics.inc_filtered();
                self.push_wrap_up();
                proof {
                    assert(self.run().agenda =~= self.run().wrap_up() + rest);
                    assert(self.run().agenda =~= front + self.run().wrap_up());
                }
            },
            Outcome::Several(outputs) => {
                proof {
                    front = sends(output_views(outputs@));
                    assert(front + (next + Seq::empty()) =~= (front + next) + rest);
                    assert(front + next + rest =~= front + next);
                }
                self.push_chain(i + 1);
                push_sends(&mut self.stack, outputs);
            },
        }
        proof {
            lemma_chain(self.kinds(), front, i + 1, self.run());
        }
        self.settle();
    }

    /// The output was sent.
    pub fn sent(&mut self)
        requires
            old(self).wf(),
            old(self).run().action() is Send,
        ensures
            final(self).wf(),
            final(self).same_stages(old(self)),
            final(self).run() == old(self).run().sent(),
    {
        self.drop_first();
        self.metrics.inc_emitted();
        proof {
            lemma_instead(self.kinds(), old(self).run(), Seq::empty(), self.run());
        }
        self.settle();
    }

    /// The sink no longer takes outputs.
    pub fn sink_gone(&mut self)
        requires
            old(self).wf(),
            old(self).run().action() is Send,
        ensures
            final(self).wf(),
            final(self).same_stages(old(self)),
            final(self).run() == old(self).run().sink_gone(),
    {
        self.stack = Vec::new();
        self.gone = true;
        let ghost emptied = self.stack@;
        proof {
            assert(agenda_of(emptied) =~= Seq::empty());
        }
        if self.checkpoints.is_some() && !self.ended {
            proof {
                lemma_push(emptied, Task::WriteCheckpoint);
            }
            self.stack.push(Task::WriteCheckpoint);
        }
        proof {
            assert(self.run().agenda =~= old(self).run().sink_gone().agenda);
        }
    }

    /// The event was put into its window.
    pub fn assigned(&mut self)
        requires
            old(self).wf(),
            old(self).run().action() is AssignToWindow,
        ensures
            final(self).wf(),
            final(self).same_stages(old(self)),
            final(self).run() == old(self).run().assigned(),
    {
        self.drop_first();
        proof {
            lemma_instead(self.kinds(), old(self).run(), Seq::empty(), self.run());
        }
        self.settle();
    }
}

/// The message for two stateful stages that share a name.
pub open spec fn shared_name_message(name: Seq<char>) -> Seq<char> {
    "checkpointing keys state by stage name and two stages are named "@ + debug_text(name)
}

/// What became of a stage when the pipeline was restored from a store: a stateful one with
/// an entry under its name was given that entry, any other is unchanged.
pub open spec fn stage_restored<M: MapOperator, S: StatefulOperator>(
    before: Stage<M, S>,
    store: Keyed<S::State>,
    after: Stage<M, S>,
) -> bool {
    match before {
        Stage::Stateful(op) => if store.has(op.spec_name()) {
            &&& after is Stateful
            &&& exists|state: S::State| #[trigger]
                S::may_restore(op, state, after->Stateful_0) && cloned(
                    store.value(op.spec_name()),
                    state,
                )
        } else {
            after == before
        },
        Stage::Stateless(_) => after == before,
    }
}

/// What became of the stages when the pipeline was restored from a store.
pub open spec fn stages_restored<M: MapOperator, S: StatefulOperator>(
    before: Seq<Stage<M, S>>,
    store: Keyed<S::State>,
    after: Seq<Stage<M, S>>,
) -> bool {
    after.len() == before.len() && forall|i: int|
        0 <= i < before.len() ==> #[trigger] stage_restored(before[i], store, after[i])
}

/// What is handed out for the open windows when the pipeline was restored from a store:
/// what it holds for them, where windows are kept and it holds something.
pub open spec fn windows_restored<T: Clone>(
    windowed: bool,
    store: Keyed<T>,
    windows: Option<T>,
) -> bool {
    match windows {
        Some(state) => windowed && store.has(window_key()) && cloned(
            store.value(window_key()),
            state,
        ),
        None => !windowed || !store.has(window_key()),
    }
}

/// Whether these are the entries of a checkpoint: a state of every stateful stage under its
/// name, in stage order, then that of the open windows where there is one.
pub open spec fn checkpoint_of<M: MapOperator, S: StatefulOperator>(
    stages: Seq<Stage<M, S>>,
    windows: Option<S::State>,
    entries: Seq<(String, S::State)>,
) -> bool {
    let ops = stateful_ops(stages, 0);
    &&& entries.len() == ops.len() + (if windows is Some {
        1int
    } else {
        0
    })
    &&& forall|k: int|
        0 <= k < ops.len() ==> (#[trigger] entries[k]).0@ == ops[k].spec_name()
            && ops[k].may_snapshot(entries[k].1)
    &&& windows is Some ==> entries[ops.len() as int].0@ == window_key()
        && entries[ops.len() as int].1 == windows->0
}

/// Whether a store holds each of these entries under its name.
pub open spec fn holds_entries<T>(store: Keyed<T>, entries: Seq<(String, T)>) -> bool {
    forall|k: int|
        0 <= k < entries.len() ==> store.lookup((#[trigger] entries[k]).0@) == Some(entries[k].1)
}

/// Whether a stateful stage took up what another of the same name had written: a state that
/// the other allowed, given on as a copy.
pub open spec fn took_up<S: StatefulOperator>(
    saved: S,
    written: S::State,
    before: S,
    after: S,
) -> bool {
    saved.spec_name() == before.spec_name() && saved.may_snapshot(written) && exists|
        given: S::State,
    | #[trigger]
        S::may_restore(before, given, after) && cloned(written, given)
}

/// Restoring leaves each stateful operator where it was in the chain, and gives it what the
/// store holds for its name.
proof fn lemma_ops_restored<M: MapOperator, S: StatefulOperator>(
    before: Seq<Stage<M, S>>,
    store: Keyed<S::State>,
    after: Seq<Stage<M, S>>,
    i: int,
)
    requires
        0 <= i <= before.len(),
        stages_restored(before, store, after),
    ensures
        stateful_ops(before, i).len() == stateful_ops(after, i).len(),
        forall|k: int|
            0 <= k < stateful_ops(before, i).len() ==> #[trigger] stage_restored(
                Stage::<M, S>::Stateful(stateful_ops(before, i)[k]),
                store,
                Stage::<M, S>::Stateful(stateful_ops(after, i)[k]),
            ),
    decreases before.len() - i,
{
    if i < before.len() {
        lemma_ops_restored(before, store, after, i + 1);
        assert(stage_restored(before[i], store, after[i]));
        let ops = stateful_ops(before, i);
        let restored = stateful_ops(after, i);
        let rest = stateful_ops(before, i + 1);
        let restored_rest = stateful_ops(after, i + 1);
        if before[i] is Stateful {
            assert forall|k: int| 0 <= k < ops.len() implies #[trigger] stage_restored(
                Stage::<M, S>::Stateful(ops[k]),
                store,
                Stage::<M, S>::Stateful(restored[k]),
            ) by {
                if k > 0 {
                    assert(ops[k] == rest[k - 1] && restored[k] == restored_rest[k - 1]);
                    assert(stage_restored(
                        Stage::<M, S>::Stateful(rest[k - 1]),
                        store,
                        Stage::<M, S>::Stateful(restored_rest[k - 1]),
                    ));
                }
            }
        }
    }
}

/// A pipeline whose stateful stages bear the names of another's, restored from a store of
/// the other's checkpoint, carries on where that one stood: each stage took up a state that
/// the other's stage of its name allowed, and where windows are kept the open ones are
/// handed out.
pub proof fn law_a_pipeline_resumes_from_the_checkpoint_of_another<
    M: MapOperator,
    S: StatefulOperator,
>(
    saved: Pipeline<M, S>,
    windows: Option<S::State>,
    entries: Seq<(String, S::State)>,
    store: Keyed<S::State>,
    before: Pipeline<M, S>,
    after: Pipeline<M, S>,
    handed_out: Option<S::State>,
)
    requires
        checkpoint_of(saved.stages(), windows, entries),
        holds_entries(store, entries),
        before.stateful_names() == saved.stateful_names(),
        stages_restored(before.stages(), store, after.stages()),
        windows_restored(before.run().windowed, store, handed_out),
    ensures
        after.kinds() == before.kinds(),
        ({
            let ops = stateful_ops(saved.stages(), 0);
            let fresh = stateful_ops(before.stages(), 0);
            let resumed = stateful_ops(after.stages(), 0);
            &&& fresh.len() == ops.len()
            &&& resumed.len() == ops.len()
            &&& forall|k: int|
                0 <= k < ops.len() ==> #[trigger] took_up(
                    ops[k],
                    entries[k].1,
                    fresh[k],
                    resumed[k],
                )
        }),
        before.run().windowed && windows is Some ==> handed_out is Some && cloned(
            windows->0,
            handed_out->0,
        ),
{
    let ops = stateful_ops(saved.stages(), 0);
    let fresh = stateful_ops(before.stages(), 0);
    let resumed = stateful_ops(after.stages(), 0);
    assert(names_of(fresh).len() == fresh.len() && names_of(ops).len() == ops.len());
    assert(fresh.len() == ops.len());
    lemma_ops_restored(before.stages(), store, after.stages(), 0);
    assert forall|k: int| 0 <= k < ops.len() implies #[trigger] took_up(
        ops[k],
        entries[k].1,
        fresh[k],
        resumed[k],
    ) by {
        assert(entries[k].0@ == ops[k].spec_name());
        assert(before.stateful_names()[k] == saved.stateful_names()[k]);
        assert(store.lookup(entries[k].0@) == Some(entries[k].1));
        assert(stage_restored(
            Stage::<M, S>::Stateful(fresh[k]),
            store,
            Stage::<M, S>::Stateful(resumed[k]),
        ));
    }
    assert(after.kinds() =~= before.kinds()) by {
        assert forall|i: int| 0 <= i < before.stages().len() implies (
        #[trigger] after.stages()[i] is Stateful) == (before.stages()[i] is Stateful) by {
            assert(stage_restored(before.stages()[i], store, after.stages()[i]));
        }
    }
    if windows is Some {
        let n = ops.len() as int;
        assert(entries[n].0@ == window_key());
        assert(store.lookup(entries[n].0@) == Some(entries[n].1));
    }
}

/// Where no name repeats from `i` on, the search says so; else it finds the first repeat.
proof fn lemma_first_repeat(names: Seq<Seq<char>>, i: int)
    requires
        0 <= i <= names.len(),
    ensures
        i <= first_repeat(names, i) <= names.len(),
        forall|k: int|
            i <= k < first_repeat(names, i) ==> !names.take(k).contains(#[trigger] names[k]),
        first_repeat(names, i) < names.len() ==> names.take(first_repeat(names, i)).contains(
            names[first_repeat(names, i)],
        ),
    decreases names.len() - i,
{
    if i < names.len() && !names.take(i).contains(names[i]) {
        lemma_first_repeat(names, i + 1);
    }
}

/// Names without a repeat are pairwise distinct, and the other way round.
proof fn lemma_no_repeat(names: Seq<Seq<char>>)
    ensures
        first_repeat(names, 0) == names.len() <==> names.no_duplicates(),
{
    lemma_first_repeat(names, 0);
    let r = first_repeat(names, 0);
    if r < names.len() {
        let k = choose|k: int| 0 <= k < names.take(r).len() && names.take(r)[k] == names[r];
        assert(names[k] == names[r]);
    } else {
        assert forall|a: int, b: int|
            0 <= a < names.len() && 0 <= b < names.len() && a != b implies names[a]
            != names[b] by {
            let (lo, hi) = if a < b {
                (a, b)
            } else {
                (b, a)
            };
            if names[lo] == names[hi] {
                assert(names.take(hi)[lo] == names[hi]);
                assert(names.take(hi).contains(names[hi]));
            }
        }
    }
}

impl<M: MapOperator, S: StatefulOperator> Pipeline<M, S> {
    /// The names of the stateful stages, in stage order.
    pub open spec fn stateful_names(&self) -> Seq<Seq<char>> {
        names_of(stateful_ops(self.stages(), 0))
    }

    fn names(&self) -> (r: Vec<String>)
        ensures
            r@.len() == self.stateful_names().len(),
            forall|k: int| 0 <= k < r@.len() ==> (#[trigger] r@[k])@ == self.stateful_names()[k],
    {
        let mut names: Vec<String> = Vec::new();
        let ghost all = stateful_ops(self.stages@, 0);
        let mut i: usize = 0;
        proof {
            assert(all.take(0) + all =~= all);
        }
        while i < self.stages.len()
            invariant
                i <= self.stages@.len(),
                all == stateful_ops(self.stages@, 0),
                names@.len() <= all.len(),
                all == all.take(names@.len() as int) + stateful_ops(self.stages@, i as int),
                forall|k: int|
                    0 <= k < names@.len() ==> (#[trigger] names@[k])@ == all[k].spec_name(),
            decreases self.stages@.len() - i,
        {
            match &self.stages[i] {
                Stage::Stateful(op) => {
                    let ghost n = names@.len() as int;
                    proof {
                        let rest = stateful_ops(self.stages@, i as int);
                        assert(all[n] == rest[0]);
                        assert(all.take(n + 1) =~= all.take(n).push(rest[0]));
                        assert(all =~= all.take(n + 1) + stateful_ops(self.stages@, i + 1));
                    }
                    names.push(op.name().to_string());
                },
                Stage::Stateless(_) => {},
            }
            i = i + 1;
        }
        names
    }

    fn duplicate_stateful_stage_name(&self) -> (r: Option<String>)
        ensures
            match r {
                Some(name) => first_repeat(self.stateful_names(), 0) < self.stateful_names().len()
                    && name@ == self.stateful_names()[first_repeat(self.stateful_names(), 0)],
                None => first_repeat(self.stateful_names(), 0) == self.stateful_names().len(),
            },
    {
        let names = self.names();
        let ghost all = self.stateful_names();
        let mut i: usize = 0;
        while i < names.len()
            invariant
                names@.len() == all.len(),
                all == self.stateful_names(),
                forall|k: int| 0 <= k < names@.len() ==> (#[trigger] names@[k])@ == all[k],
                i <= names@.len(),
                first_repeat(all, 0) == first_repeat(all, i as int),
            decreases names@.len() - i,
        {
            let mut k: usize = 0;
            while k < i
                invariant
                    k <= i < names@.len(),
                    names@.len() == all.len(),
                    all == self.stateful_names(),
                    forall|k: int| 0 <= k < names@.len() ==> (#[trigger] names@[k])@ == all[k],
                    first_repeat(all, 0) == first_repeat(all, i as int),
                    forall|j: int| 0 <= j < k ==> #[trigger] all[j] != all[i as int],
                decreases i - k,
            {
                if same(names[k].as_str(), names[i].as_str()) {
                    proof {
                        assert(all.take(i as int)[k as int] == all[i as int]);
                        assert(all.take(i as int).contains(all[i as int]));
                    }
                    return Some(names[i].clone());
                }
                k = k + 1;
            }
            proof {
                assert(!all.take(i as int).contains(all[i as int]));
            }
            i = i + 1;
        }
        None
    }

    /// Write a checkpoint of every stateful stage and the open windows every
    /// `interval_nanos` and once more when the run ends. The stage name is the key, so two
    /// stateful stages cannot share one.
    pub fn set_checkpoints(&mut self, interval_nanos: u128) -> (r: Result<(), String>)
        requires
            old(self).wf(),
        ensures
            final(self).wf(),
            final(self).same_stages(old(self)),
            r is Ok <==> old(self).stateful_names().no_duplicates(),
            match r {
                Ok(_) => final(self).run() == (RunView {
                    checkpoints: Some(interval_nanos),
                    ..old(self).run()
                }),
                Err(message) => final(self).run() == old(self).run() && message@
                    == shared_name_message(
                    old(self).stateful_names()[first_repeat(old(self).stateful_names(), 0)],
                ),
            },
    {
        let ghost before = *self;
        proof {
            lemma_no_repeat(self.stateful_names());
        }
        match self.duplicate_stateful_stage_name() {
            Some(name) => {
                let mut message =
                    "checkpointing keys state by stage name and two stages are named ".to_string();
                message.append(debug_quoted(name.as_str()).as_str());
                Err(message)
            },
            None => {
                self.checkpoints = Some(interval_nanos);
                proof {
                    assert forall|k: int| 0 <= k < self.run().agenda.len() implies #[trigger] task_ok(
                        self.kinds(),
                        self.run(),
                        self.run().agenda[k],
                    ) && placed_ok(self.run().agenda, k) by {
                        assert(task_ok(before.kinds(), before.run(), before.run().agenda[k]));
                    }
                }
                Ok(())
            },
        }
    }

    /// The checkpoint interval in nanoseconds, where checkpoints are written.
    pub fn checkpoint_interval(&self) -> (r: Option<u128>)
        ensures
            r == self.run().checkpoints,
    {
        self.checkpoints
    }

    /// Whether windows are kept.
    pub fn is_windowed(&self) -> (r: bool)
        ensures
            r == self.run().windowed,
    {
        self.windowed
    }

    /// What a checkpoint holds, in the order it is stored: the state of every stateful
    /// stage under its name, then that of the open windows where windows are kept.
    pub fn checkpoint(&self, windows: Option<S::State>) -> (r: Vec<(String, S::State)>)
        requires
            windows is Some <==> self.run().windowed,
        ensures
            checkpoint_of(self.stages(), windows, r@),
    {
        let mut entries: Vec<(String, S::State)> = Vec::new();
        let ghost all = stateful_ops(self.stages@, 0);
        let mut i: usize = 0;
        proof {
            assert(all.take(0) + all =~= all);
        }
        while i < self.stages.len()
            invariant
                i <= self.stages@.len(),
                all == stateful_ops(self.stages@, 0),
                entries@.len() <= all.len(),
                all == all.take(entries@.len() as int) + stateful_ops(self.stages@, i as int),
                forall|k: int|
                    0 <= k < entries@.len() ==> (#[trigger] entries@[k]).0@ == all[k].spec_name()
                        && all[k].may_snapshot(entries@[k].1),
            decreases self.stages@.len() - i,
        {
            match &self.stages[i] {
                Stage::Stateful(op) => {
                    let ghost n = entries@.len() as int;
                    proof {
                        let rest = stateful_ops(self.stages@, i as int);
                        assert(all[n] == rest[0]);
                        assert(all.take(n + 1) =~= all.take(n).push(rest[0]));
                        assert(all =~= all.take(n + 1) + stateful_ops(self.stages@, i + 1));
                    }
                    entries.push((op.name().to_string(), op.snapshot()));
                },
                Stage::Stateless(_) => {},
            }
            i = i + 1;
        }
        proof {
            assert(all =~= all.take(entries@.len() as int));
        }
        if let Some(state) = windows {
            entries.push((window_state_key().to_string(), state));
        }
        entries
    }

    /// Put every stateful stage back to the state the store holds for its name, and hand
    /// out the state of the open windows where windows are kept and the store holds it.
    pub fn restore_from(&mut self, store: &Keyed<S::State>) -> (windows: Option<S::State>)
        requires
            old(self).wf(),
            store.distinct(),
        ensures
            final(self).wf(),
            final(self).run() == old(self).run(),
            final(self).pending() == old(self).pending(),
            final(self).spec_name() == old(self).spec_name(),
            stages_restored(old(self).stages(), *store, final(self).stages()),
            windows_restored(old(self).run().windowed, *store, windows),
    {
        let ghost before = *self;
        let mut i: usize = 0;
        while i < self.stages.len()
            invariant
                i <= self.stages@.len(),
                self.stages@.len() == before.stages@.len(),
                store.distinct(),
                self.run() == before.run(),
                self.windowed == before.windowed,
                self.pending == before.pending,
                self.name == before.name,
                forall|k: int|
                    0 <= k < i ==> #[trigger] stage_restored(
                        before.stages@[k],
                        *store,
                        self.stages@[k],
                    ),
                forall|k: int| i <= k < self.stages@.len() ==> self.stages@[k] == before.stages@[k],
            decreases self.stages@.len() - i,
        {
            let ghost at = self.stages@;
            let ghost mut given: Option<S::State> = None;
            match &mut self.stages[i] {
                Stage::Stateful(op) => {
                    match store.get(op.name()) {
                        Some(state) => {
                            let copy = state.clone();
                            proof {
                                given = Some(copy);
                                assert(cloned(*state, copy));
                            }
                            op.restore(copy);
                        },
                        None => {},
                    }
                },
                Stage::Stateless(_) => {},
            }
            proof {
                if given is Some {
                    assert(S::may_restore(
                        before.stages@[i as int]->Stateful_0,
                        given->0,
                        self.stages@[i as int]->Stateful_0,
                    ));
                }
                assert(stage_restored(before.stages@[i as int], *store, self.stages@[i as int]));
                assert forall|k: int| 0 <= k < i implies #[trigger] stage_restored(
                    before.stages@[k],
                    *store,
                    self.stages@[k],
                ) by {
                    assert(self.stages@[k] == at[k]);
                }
            }
            i = i + 1;
        }
        proof {
            assert forall|k: int| 0 <= k < self.stages@.len() implies (self.stages@[k] is Stateful)
                == (before.stages@[k] is Stateful) by {
                assert(stage_restored(before.stages@[k], *store, self.stages@[k]));
            }
            assert(self.kinds() =~= before.kinds());
        }
        if self.windowed {
            match store.get(window_state_key()) {
                Some(state) => Some(state.clone()),
                None => None,
            }
        } else {
            None
        }
    }
}

/// The stateful operators are those of the stateful stages, each once, in stage order. `at`
/// gives their positions from `i` on.
pub proof fn law_the_stateful_operators_keep_their_order<M: MapOperator, S: StatefulOperator>(
    stages: Seq<Stage<M, S>>,
    i: int,
) -> (at: Seq<int>)
    requires
        0 <= i,
    ensures
        at.len() == stateful_ops(stages, i).len(),
        forall|k: int|
            0 <= k < at.len() ==> i <= #[trigger] at[k] < stages.len() && stages[at[k]]
                == Stage::<M, S>::Stateful(stateful_ops(stages, i)[k]),
        forall|j: int|
            i <= j < stages.len() && (#[trigger] stages[j]) is Stateful ==> at.contains(j),
        forall|j: int, k: int| 0 <= j < k < at.len() ==> at[j] < at[k],
    decreases stages.len() - i,
{
    if i >= stages.len() {
        Seq::empty()
    } else {
        let rest = law_the_stateful_operators_keep_their_order(stages, i + 1);
        let ops = stateful_ops(stages, i);
        let later = stateful_ops(stages, i + 1);
        if stages[i] is Stateful {
            let at = seq![i] + rest;
            assert forall|k: int| 0 <= k < at.len() implies i <= #[trigger] at[k] < stages.len()
                && stages[at[k]] == Stage::<M, S>::Stateful(ops[k]) by {
                if k > 0 {
                    assert(at[k] == rest[k - 1]);
                    assert(ops[k] == later[k - 1]);
                }
            }
            assert forall|j: int|
                i <= j < stages.len() && (#[trigger] stages[j]) is Stateful implies at.contains(
                j,
            ) by {
                if j > i {
                    assert(rest.contains(j));
                    let k = rest.index_of(j);
                    assert(at[k + 1] == j);
                } else {
                    assert(at[0] == j);
                }
            }
            at
        } else {
            rest
        }
    }
}

/// Whether a stage keeps state is told by its kind alone.
pub proof fn law_the_kinds_tell_the_stateful_stages<M: MapOperator, S: StatefulOperator>(
    stages: Seq<Stage<M, S>>,
    i: int,
)
    requires
        0 <= i < stages.len(),
    ensures
        kinds_of(stages).len() == stages.len(),
        kinds_of(stages)[i] <==> stages[i] is Stateful,
        !kinds_of(stages)[i] <==> stages[i] is Stateless,
{
}

/// Checkpoints are refused for the first name that a stage before it bears already; where no
/// two stages share a name, none is found.
pub proof fn law_the_first_shared_name_is_told(names: Seq<Seq<char>>)
    ensures
        ({
            let at = first_repeat(names, 0);
            &&& 0 <= at <= names.len()
            &&& at < names.len() ==> exists|k: int| 0 <= k < at && #[trigger] names[k] == names[at]
            &&& forall|j: int, k: int|
                0 <= j < k < at ==> #[trigger] names[j] != #[trigger] names[k]
            &&& at == names.len() <==> names.no_duplicates()
        }),
{
    lemma_first_repeat(names, 0);
    lemma_no_repeat(names);
    let at = first_repeat(names, 0);
    if at < names.len() {
        let k = choose|k: int| 0 <= k < names.take(at).len() && names.take(at)[k] == names[at];
        assert(names[k] == names[at]);
    }
    assert forall|j: int, k: int| 0 <= j < k < at implies #[trigger] names[j]
        != #[trigger] names[k] by {
        if names[j] == names[k] {
            assert(names.take(k)[j] == names[k]);
            assert(names.take(k).contains(names[k]));
        }
    }
}

/// A checkpoint holds one entry for each stateful stage, under its name and in stage order,
/// and after them one for the open windows where they are given; nothing else.
pub proof fn law_a_checkpoint_holds_each_stateful_stage<M: MapOperator, S: StatefulOperator>(
    stages: Seq<Stage<M, S>>,
    windows: Option<S::State>,
    entries: Seq<(String, S::State)>,
) -> (at: Seq<int>)
    requires
        checkpoint_of(stages, windows, entries),
    ensures
        windows is None ==> entries.len() == at.len(),
        windows is Some ==> entries.len() == at.len() + 1 && entries.last().0@
            == "pipeline.windows"@ && entries.last().1 == windows->0,
        forall|k: int|
            0 <= k < at.len() ==> {
                &&& 0 <= #[trigger] at[k] < stages.len()
                &&& stages[at[k]] is Stateful
                &&& entries[k].0@ == stages[at[k]]->Stateful_0.spec_name()
                &&& stages[at[k]]->Stateful_0.may_snapshot(entries[k].1)
            },
        forall|j: int|
            0 <= j < stages.len() && (#[trigger] stages[j]) is Stateful ==> at.contains(j),
        forall|j: int, k: int| 0 <= j < k < at.len() ==> at[j] < at[k],
{
    let at = law_the_stateful_operators_keep_their_order(stages, 0);
    let ops = stateful_ops(stages, 0);
    assert forall|k: int| 0 <= k < at.len() implies {
        &&& 0 <= #[trigger] at[k] < stages.len()
        &&& stages[at[k]] is Stateful
        &&& entries[k].0@ == stages[at[k]]->Stateful_0.spec_name()
        &&& stages[at[k]]->Stateful_0.may_snapshot(entries[k].1)
    } by {
        assert(entries[k].0@ == ops[k].spec_name());
    }
    at
}

/// Restoring changes no stateless stage and no stage whose name the store does not hold. What
/// a pipeline without windows finds under their key is not handed out.
pub proof fn law_restoring_leaves_what_the_store_lacks<M: MapOperator, S: StatefulOperator>(
    before: Seq<Stage<M, S>>,
    store: Keyed<S::State>,
    after: Seq<Stage<M, S>>,
    windows: Option<S::State>,
    i: int,
)
    requires
        stages_restored(before, store, after),
        windows_restored(false, store, windows),
        0 <= i < before.len(),
    ensures
        after.len() == before.len(),
        before[i] is Stateless ==> after[i] == before[i],
        before[i] is Stateful && store.lookup(before[i]->Stateful_0.spec_name()) is None ==> after[i]
            == before[i],
        windows is None,
{
    assert(stage_restored(before[i], store, after[i]));
}

/// The message for a shared name quotes it.
pub proof fn law_the_message_for_a_shared_name_quotes_it(name: Seq<char>)
    ensures
        shared_name_message(name)
            == "checkpointing keys state by stage name and two stages are named "@ + debug_text(
            name,
        ),
        window_key() == "pipeline.windows"@,
{
}

} // verus!
