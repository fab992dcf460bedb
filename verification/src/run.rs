//! Where a run of a pipeline stands and how it goes on, as a transition system.

use crate::event::{EventView, OutputEventView};
use crate::metrics::{counted, MetricsView};
use crate::time::Instant;
use crate::watermark::WatermarkView;
use vstd::prelude::*;

verus! {

/// What is left to do.
pub enum TaskView {
    /// Ask which windows the watermark has passed.
    Expire,
    /// Flush the stateful stage at this position.
    Close(int),
    /// Hand the event to the stage at this position.
    Apply(int),
    /// Send an output.
    Send(OutputEventView),
    /// Count the event as processed.
    Record,
    /// Put the event into its window.
    Assign,
    /// Write a checkpoint.
    WriteCheckpoint,
}

/// What the caller does next.
pub enum ActionView {
    Receive,
    ExpireWindows(Instant),
    CloseStage,
    ApplyStage,
    Send(OutputEventView),
    AssignToWindow(EventView),
    WriteCheckpoint,
    Finished,
}

/// What a stage made of an event.
pub enum OutcomeView {
    Single(Option<OutputEventView>),
    Several(Seq<OutputEventView>),
}

/// Where a run stands. The kinds of the stages, `true` for a stateful one, are given to
/// the functions that need them.
pub struct RunView {
    /// Whether windows are kept.
    pub windowed: bool,
    pub watermark: Option<WatermarkView>,
    /// The checkpoint interval in nanoseconds, where checkpoints are written.
    pub checkpoints: Option<u128>,
    pub metrics: MetricsView,
    /// What is left to do before the next event, in order.
    pub agenda: Seq<TaskView>,
    /// The event as the last stateless stage left it.
    pub event: Option<EventView>,
    /// The nanoseconds the stages have spent on it.
    pub nanos: nat,
    /// The input has ended.
    pub ended: bool,
    /// The sink has gone.
    pub gone: bool,
}

/// Sends of these outputs, in order.
pub open spec fn sends(outputs: Seq<OutputEventView>) -> Seq<TaskView> {
    Seq::new(outputs.len(), |i: int| TaskView::Send(outputs[i]))
}

/// A flush of each stateful stage from position `i` on, in stage order.
pub open spec fn closes_from(kinds: Seq<bool>, i: int) -> Seq<TaskView>
    decreases kinds.len() - i,
{
    if i >= kinds.len() {
        Seq::empty()
    } else if kinds[i] {
        seq![TaskView::Close(i)] + closes_from(kinds, i + 1)
    } else {
        closes_from(kinds, i + 1)
    }
}

/// A flush of each stateful stage for each of `n` windows.
pub open spec fn closes_times(kinds: Seq<bool>, n: nat) -> Seq<TaskView>
    decreases n,
{
    if n == 0 {
        Seq::empty()
    } else {
        closes_from(kinds, 0) + closes_times(kinds, (n - 1) as nat)
    }
}

impl RunView {
    /// A run that has not begun.
    pub open spec fn fresh() -> RunView {
        RunView {
            windowed: false,
            watermark: None,
            checkpoints: None,
            metrics: MetricsView::clear(),
            agenda: Seq::empty(),
            event: None,
            nanos: 0,
            ended: false,
            gone: false,
        }
    }

    /// What the caller does next.
    pub open spec fn action(self) -> ActionView {
        if self.agenda.len() == 0 {
            if self.ended || self.gone {
                ActionView::Finished
            } else {
                ActionView::Receive
            }
        } else {
            match self.agenda[0] {
                TaskView::Expire => ActionView::ExpireWindows(self.watermark->0.current),
                TaskView::Close(_) => ActionView::CloseStage,
                TaskView::Apply(_) => ActionView::ApplyStage,
                TaskView::Send(o) => ActionView::Send(o),
                TaskView::Record => ActionView::Finished,
                TaskView::Assign => ActionView::AssignToWindow(self.event->0),
                TaskView::WriteCheckpoint => ActionView::WriteCheckpoint,
            }
        }
    }

    /// What follows the last stage an event reaches.
    pub open spec fn wrap_up(self) -> Seq<TaskView> {
        if self.windowed {
            seq![TaskView::Record, TaskView::Assign]
        } else {
            seq![TaskView::Record]
        }
    }

    /// What follows once the stages before `i` have had the event.
    pub open spec fn chain(self, kinds: Seq<bool>, i: int) -> Seq<TaskView> {
        if i < kinds.len() {
            seq![TaskView::Apply(i)]
        } else {
            self.wrap_up()
        }
    }

    /// The run with these tasks in place of the first one.
    pub open spec fn instead(self, tasks: Seq<TaskView>) -> RunView {
        RunView { agenda: tasks + self.agenda.skip(1), ..self }
    }

    /// The run with the event counted as processed if that is what comes next.
    pub open spec fn settled(self) -> RunView {
        if self.agenda.len() > 0 && self.agenda[0] is Record {
            RunView {
                metrics: self.metrics.one_timed(whole_micros(self.nanos)),
                agenda: self.agenda.skip(1),
                ..self
            }
        } else {
            self
        }
    }

    /// A new run of the same pipeline.
    pub open spec fn begun(self) -> RunView {
        RunView { agenda: Seq::empty(), ended: false, gone: false, ..self }
    }

    /// Whether an event at this time is late.
    pub open spec fn late(self, time: Instant) -> bool {
        self.watermark is Some && self.watermark->0.late(time)
    }

    /// Whether an event at this time can be taken in.
    pub open spec fn can_take(self, time: Instant) -> bool {
        self.watermark is Some ==> self.watermark->0.can_observe(time)
    }

    /// After an event came in: a late one is counted and dropped, any other expires the
    /// windows the watermark has passed and goes to the first stage.
    pub open spec fn received(self, kinds: Seq<bool>, event: EventView) -> RunView {
        let watermark = match self.watermark {
            Some(w) => Some(w.observed(event.timestamp)),
            None => None,
        };
        if self.late(event.timestamp) {
            RunView { watermark, metrics: self.metrics.one_received().one_late(), ..self }
        } else {
            RunView {
                watermark,
                metrics: self.metrics.one_received(),
                agenda: (if watermark is Some && self.windowed {
                    seq![TaskView::Expire]
                } else {
                    Seq::empty()
                }) + self.chain(kinds, 0),
                event: Some(event),
                nanos: 0,
                ..self
            }.settled()
        }
    }

    /// After the input ended: the checkpoint is written before the closing flush, so the
    /// state a resume sees is the live state that the periodic writes capture.
    pub open spec fn closed(self, kinds: Seq<bool>) -> RunView {
        RunView {
            agenda: (if self.checkpoints is Some {
                seq![TaskView::WriteCheckpoint]
            } else {
                Seq::empty()
            }) + closes_from(kinds, 0),
            ended: true,
            ..self
        }
    }

    /// After the checkpoint interval passed.
    pub open spec fn ticked(self) -> RunView {
        if self.checkpoints is Some {
            RunView { agenda: seq![TaskView::WriteCheckpoint], ..self }
        } else {
            self
        }
    }

    /// After the checkpoint was written, or could not be.
    pub open spec fn written(self) -> RunView {
        self.instead(Seq::empty()).settled()
    }

    /// After `n` windows expired: the stateful stages are flushed for each of them.
    pub open spec fn expired(self, kinds: Seq<bool>, n: nat) -> RunView {
        self.instead(closes_times(kinds, n)).settled()
    }

    /// After a stateful stage was flushed.
    pub open spec fn flushed(self, outputs: Seq<OutputEventView>) -> RunView {
        self.instead(sends(outputs)).settled()
    }

    /// After a stage had the event. A stateless stage that produced nothing ends the
    /// chain; the event of its output is what the next stage gets. A stateful stage's
    /// outputs are sent and the next stage gets the event unchanged.
    pub open spec fn applied(self, kinds: Seq<bool>, outcome: OutcomeView, nanos: nat) -> RunView {
        let next = self.agenda[0]->Apply_0 + 1;
        let timed = RunView { nanos: self.nanos + nanos, ..self };
        (match outcome {
            OutcomeView::Single(Some(o)) => RunView {
                event: Some(o.source_event),
                ..timed.instead(seq![TaskView::Send(o)] + self.chain(kinds, next))
            },
            OutcomeView::Single(None) => RunView {
                metrics: self.metrics.one_filtered(),
                ..timed.instead(self.wrap_up())
            },
            OutcomeView::Several(outputs) => timed.instead(
                sends(outputs) + self.chain(kinds, next),
            ),
        }).settled()
    }

    /// After an output was sent.
    pub open spec fn sent(self) -> RunView {
        RunView {
            metrics: self.metrics.one_emitted(),
            ..self.instead(Seq::empty())
        }.settled()
    }

    /// After the sink turned out to be gone: nothing more is done, but for the checkpoint
    /// that ends a run. Where the input has ended it has been written.
    pub open spec fn sink_gone(self) -> RunView {
        RunView {
            agenda: if self.checkpoints is Some && !self.ended {
                seq![TaskView::WriteCheckpoint]
            } else {
                Seq::empty()
            },
            gone: true,
            ..self
        }
    }

    /// After the event was put into its window.
    pub open spec fn assigned(self) -> RunView {
        self.instead(Seq::empty()).settled()
    }
}

/// Whole microseconds, kept to 64 bits.
pub open spec fn whole_micros(nanos: nat) -> u64 {
    ((nanos / 1000) % 0x1_0000_0000_0000_0000) as u64
}

/// Whether a task can be done.
pub open spec fn task_ok(kinds: Seq<bool>, run: RunView, task: TaskView) -> bool {
    match task {
        TaskView::Expire => run.watermark is Some,
        TaskView::Close(i) => 0 <= i < kinds.len() && kinds[i],
        TaskView::Apply(i) => 0 <= i < kinds.len() && run.event is Some && run.nanos <= i
            * 0xffff_ffff_ffff_ffff,
        TaskView::Assign => run.event is Some,
        _ => true,
    }
}

/// Whether a task stands where it may on an agenda: a checkpoint comes first, what is left
/// of the chain last.
pub open spec fn placed_ok(agenda: Seq<TaskView>, k: int) -> bool {
    match agenda[k] {
        TaskView::Apply(_) => k == agenda.len() - 1,
        TaskView::Assign => k == agenda.len() - 1,
        TaskView::Record => k == agenda.len() - 1 || (k == agenda.len() - 2 && agenda[k
            + 1] is Assign),
        TaskView::WriteCheckpoint => k == 0,
        _ => true,
    }
}

/// Whether every task on the agenda can be done.
pub open spec fn tasks_ok(kinds: Seq<bool>, run: RunView) -> bool {
    forall|k: int|
        0 <= k < run.agenda.len() ==> #[trigger] task_ok(kinds, run, run.agenda[k]) && placed_ok(
            run.agenda,
            k,
        )
}

/// Whether every task on the agenda can be done, and the first one is the caller's.
pub open spec fn agenda_ok(kinds: Seq<bool>, run: RunView) -> bool {
    tasks_ok(kinds, run) && (run.agenda.len() > 0 ==> !(run.agenda[0] is Record))
}

/// A settled agenda stays in order.
pub proof fn lemma_settled(kinds: Seq<bool>, run: RunView)
    requires
        tasks_ok(kinds, run),
    ensures
        agenda_ok(kinds, run.settled()),
{
    let after = run.settled();
    if run.agenda.len() > 0 && run.agenda[0] is Record {
        assert(placed_ok(run.agenda, 0)) by {
            assert(task_ok(kinds, run, run.agenda[0]));
        }
        assert forall|k: int| 0 <= k < after.agenda.len() implies #[trigger] task_ok(
            kinds,
            after,
            after.agenda[k],
        ) && placed_ok(after.agenda, k) by {
            assert(task_ok(kinds, run, run.agenda[k + 1]));
        }
        if after.agenda.len() > 0 {
            assert(after.agenda[0] == run.agenda[1]);
        }
    }
}

/// Flushes name stateful stages only.
pub proof fn lemma_closes_from(kinds: Seq<bool>, i: int)
    requires
        0 <= i,
    ensures
        forall|k: int|
            0 <= k < closes_from(kinds, i).len() ==> (#[trigger] closes_from(kinds, i)[k]) is Close
                && i <= closes_from(kinds, i)[k]->Close_0 < kinds.len()
                && kinds[closes_from(kinds, i)[k]->Close_0],
    decreases kinds.len() - i,
{
    if i < kinds.len() {
        lemma_closes_from(kinds, i + 1);
    }
}

pub proof fn lemma_closes_times(kinds: Seq<bool>, n: nat)
    ensures
        forall|k: int|
            0 <= k < closes_times(kinds, n).len() ==> (#[trigger] closes_times(kinds, n)[k]) is Close
                && 0 <= closes_times(kinds, n)[k]->Close_0 < kinds.len()
                && kinds[closes_times(kinds, n)[k]->Close_0],
    decreases n,
{
    if n > 0 {
        lemma_closes_times(kinds, (n - 1) as nat);
        lemma_closes_from(kinds, 0);
    }
}

/// Tasks that name no event may stand before what is left of an agenda.
pub proof fn lemma_instead(kinds: Seq<bool>, run: RunView, tasks: Seq<TaskView>, after: RunView)
    requires
        tasks_ok(kinds, run),
        run.agenda.len() > 0,
        after == (RunView { metrics: after.metrics, ..run.instead(tasks) }),
        forall|k: int|
            0 <= k < tasks.len() ==> (#[trigger] tasks[k]) is Send || (tasks[k] is Close && 0
                <= tasks[k]->Close_0 < kinds.len() && kinds[tasks[k]->Close_0]),
    ensures
        tasks_ok(kinds, after),
{
    assert forall|k: int| 0 <= k < after.agenda.len() implies #[trigger] task_ok(
        kinds,
        after,
        after.agenda[k],
    ) && placed_ok(after.agenda, k) by {
        if k < tasks.len() {
            assert(after.agenda[k] == tasks[k]);
        } else {
            let j = k - tasks.len() + 1;
            assert(after.agenda[k] == run.agenda[j]);
            assert(task_ok(kinds, run, run.agenda[j]));
            if j + 1 < run.agenda.len() {
                assert(after.agenda[k + 1] == run.agenda[j + 1]);
            }
        }
    }
}

/// A chain may stand alone or after tasks that name no event.
pub proof fn lemma_chain(kinds: Seq<bool>, front: Seq<TaskView>, i: int, run: RunView)
    requires
        0 <= i,
        run.agenda == front + run.chain(kinds, i) || run.agenda == front + run.wrap_up(),
        run.event is Some,
        run.nanos <= i * 0xffff_ffff_ffff_ffff,
        forall|k: int|
            0 <= k < front.len() ==> (#[trigger] front[k]) is Send || (front[k] is Expire
                && run.watermark is Some),
    ensures
        tasks_ok(kinds, run),
{
    assert forall|k: int| 0 <= k < run.agenda.len() implies #[trigger] task_ok(
        kinds,
        run,
        run.agenda[k],
    ) && placed_ok(run.agenda, k) by {
        if k < front.len() {
            assert(run.agenda[k] == front[k]);
        }
    }
}

/// What a caller reports.
pub enum Signal {
    Received(EventView),
    Closed,
    Ticked,
    Written,
    Expired(nat),
    Flushed(Seq<OutputEventView>),
    Applied(OutcomeView, nat),
    Sent,
    SinkGone,
    Assigned,
}

impl RunView {
    /// Whether the signal reports on the action that is due.
    pub open spec fn due(self, kinds: Seq<bool>, signal: Signal) -> bool {
        match signal {
            Signal::Received(event) => self.action() is Receive && self.can_take(event.timestamp),
            Signal::Closed => self.action() is Receive,
            Signal::Ticked => self.action() is Receive,
            Signal::Written => self.action() is WriteCheckpoint,
            Signal::Expired(_) => self.action() is ExpireWindows,
            Signal::Flushed(_) => self.action() is CloseStage,
            Signal::Applied(outcome, nanos) => self.action() is ApplyStage && nanos
                <= 0xffff_ffff_ffff_ffff && (outcome is Several
                == kinds[self.agenda[0]->Apply_0]),
            Signal::Sent => self.action() is Send,
            Signal::SinkGone => self.action() is Send,
            Signal::Assigned => self.action() is AssignToWindow,
        }
    }

    /// The run after a signal.
    pub open spec fn step(self, kinds: Seq<bool>, signal: Signal) -> RunView {
        match signal {
            Signal::Received(event) => self.received(kinds, event),
            Signal::Closed => self.closed(kinds),
            Signal::Ticked => self.ticked(),
            Signal::Written => self.written(),
            Signal::Expired(n) => self.expired(kinds, n),
            Signal::Flushed(outputs) => self.flushed(outputs),
            Signal::Applied(outcome, nanos) => self.applied(kinds, outcome, nanos),
            Signal::Sent => self.sent(),
            Signal::SinkGone => self.sink_gone(),
            Signal::Assigned => self.assigned(),
        }
    }

    /// Whether each signal is due when it comes.
    pub open spec fn all_due(self, kinds: Seq<bool>, signals: Seq<Signal>) -> bool
        decreases signals.len(),
    {
        signals.len() == 0 || (self.due(kinds, signals[0]) && self.step(
            kinds,
            signals[0],
        ).all_due(kinds, signals.skip(1)))
    }

    /// The run after these signals.
    pub open spec fn after(self, kinds: Seq<bool>, signals: Seq<Signal>) -> RunView
        decreases signals.len(),
    {
        if signals.len() == 0 {
            self
        } else {
            self.step(kinds, signals[0]).after(kinds, signals.skip(1))
        }
    }

    /// The events taken in that are neither late nor counted as processed.
    pub open spec fn in_flight(self) -> int {
        if exists|k: int|
            0 <= k < self.agenda.len() && ((#[trigger] self.agenda[k]) is Apply
                || self.agenda[k] is Record) {
            1
        } else {
            0
        }
    }

    /// Every event taken in is late, processed or in flight. The counters wrap around, so
    /// the count is kept up to the size of their range.
    pub open spec fn accounted(self) -> bool {
        self.gone || (self.metrics.received - self.metrics.late - self.metrics.processing_count
            - self.in_flight()) % 0x1_0000_0000_0000_0000 == 0
    }
}

/// How many flushes are left on an agenda.
pub open spec fn flushes_left(agenda: Seq<TaskView>) -> nat
    decreases agenda.len(),
{
    if agenda.len() == 0 {
        0
    } else {
        flushes_left(agenda.skip(1)) + if agenda[0] is Close {
            1nat
        } else {
            0nat
        }
    }
}

/// How many of the signals report a flush.
pub open spec fn flushes_done(signals: Seq<Signal>) -> nat
    decreases signals.len(),
{
    if signals.len() == 0 {
        0
    } else {
        flushes_done(signals.skip(1)) + if signals[0] is Flushed {
            1nat
        } else {
            0nat
        }
    }
}

/// How many stages are stateful.
pub open spec fn stateful_count(kinds: Seq<bool>) -> nat {
    closes_from(kinds, 0).len()
}

/// A run stays in order: whatever is reported when it is due, every task that is left can
/// be done.
pub proof fn law_a_run_stays_in_order(kinds: Seq<bool>, run: RunView, signal: Signal)
    requires
        agenda_ok(kinds, run),
        run.due(kinds, signal),
    ensures
        agenda_ok(kinds, run.step(kinds, signal)),
{
    let after = run.step(kinds, signal);
    if run.agenda.len() > 0 {
        assert(task_ok(kinds, run, run.agenda[0]));
    }
    match signal {
        Signal::Received(event) => {
            if !run.late(event.timestamp) {
                let front: Seq<TaskView> = if run.watermark is Some && run.windowed {
                    seq![TaskView::Expire]
                } else {
                    Seq::empty()
                };
                let mid = RunView {
                    watermark: after.watermark,
                    metrics: run.metrics.one_received(),
                    agenda: front + run.chain(kinds, 0),
                    event: Some(event),
                    nanos: 0,
                    ..run
                };
                assert(mid.chain(kinds, 0) =~= run.chain(kinds, 0));
                lemma_chain(kinds, front, 0, mid);
                lemma_settled(kinds, mid);
                assert(after == mid.settled());
            }
        },
        Signal::Closed => {
            lemma_closes_from(kinds, 0);
            let front: int = if run.checkpoints is Some {
                1
            } else {
                0
            };
            assert forall|k: int| 0 <= k < after.agenda.len() implies #[trigger] task_ok(
                kinds,
                after,
                after.agenda[k],
            ) && placed_ok(after.agenda, k) by {
                if k >= front {
                    assert(after.agenda[k] == closes_from(kinds, 0)[k - front]);
                }
            }
            if after.agenda.len() > 0 && front == 0 {
                assert(after.agenda[0] == closes_from(kinds, 0)[0]);
            }
        },
        Signal::Ticked => {},
        Signal::Written => {
            lemma_instead(kinds, run, Seq::empty(), run.instead(Seq::empty()));
            lemma_settled(kinds, run.instead(Seq::empty()));
        },
        Signal::Expired(n) => {
            lemma_closes_times(kinds, n);
            let tasks = closes_times(kinds, n);
            lemma_instead(kinds, run, tasks, run.instead(tasks));
            lemma_settled(kinds, run.instead(tasks));
        },
        Signal::Flushed(outputs) => {
            let tasks = sends(outputs);
            lemma_instead(kinds, run, tasks, run.instead(tasks));
            lemma_settled(kinds, run.instead(tasks));
        },
        Signal::Applied(outcome, nanos) => {
            lemma_applied(kinds, run, outcome, nanos);
        },
        Signal::Sent => {
            let mid = RunView { metrics: run.metrics.one_emitted(), ..run.instead(Seq::empty()) };
            lemma_instead(kinds, run, Seq::empty(), mid);
            lemma_settled(kinds, mid);
        },
        Signal::SinkGone => {},
        Signal::Assigned => {
            lemma_instead(kinds, run, Seq::empty(), run.instead(Seq::empty()));
            lemma_settled(kinds, run.instead(Seq::empty()));
        },
    }
}

proof fn lemma_applied(kinds: Seq<bool>, run: RunView, outcome: OutcomeView, nanos: nat)
    requires
        agenda_ok(kinds, run),
        run.action() is ApplyStage,
        nanos <= 0xffff_ffff_ffff_ffff,
    ensures
        agenda_ok(kinds, run.applied(kinds, outcome, nanos)),
        run.agenda.len() == 1,
        run.agenda.skip(1) == Seq::<TaskView>::empty(),
{
    assert(task_ok(kinds, run, run.agenda[0]));
    assert(placed_ok(run.agenda, 0));
    assert(run.agenda.skip(1) =~= Seq::empty());
    let i = run.agenda[0]->Apply_0;
    let timed = RunView { nanos: run.nanos + nanos, ..run };
    match outcome {
        OutcomeView::Single(Some(o)) => {
            let front = seq![TaskView::Send(o)];
            let mid = RunView {
                event: Some(o.source_event),
                ..timed.instead(front + run.chain(kinds, i + 1))
            };
            assert(mid.agenda =~= front + mid.chain(kinds, i + 1));
            lemma_chain(kinds, front, i + 1, mid);
            lemma_settled(kinds, mid);
        },
        OutcomeView::Single(None) => {
            let mid = RunView {
                metrics: run.metrics.one_filtered(),
                ..timed.instead(run.wrap_up())
            };
            assert(mid.agenda =~= Seq::<TaskView>::empty() + mid.wrap_up());
            lemma_chain(kinds, Seq::empty(), i + 1, mid);
            lemma_settled(kinds, mid);
        },
        OutcomeView::Several(outputs) => {
            let front = sends(outputs);
            let mid = timed.instead(front + run.chain(kinds, i + 1));
            assert(mid.agenda =~= front + mid.chain(kinds, i + 1));
            lemma_chain(kinds, front, i + 1, mid);
            lemma_settled(kinds, mid);
        },
    }
}

/// A late event reaches no stage and no window: it is counted, and the next event is
/// waited for.
pub proof fn law_late_events_are_dropped(kinds: Seq<bool>, run: RunView, event: EventView)
    requires
        run.due(kinds, Signal::Received(event)),
        run.late(event.timestamp),
    ensures
        run.received(kinds, event).action() is Receive,
        run.received(kinds, event).metrics == run.metrics.one_received().one_late(),
        run.received(kinds, event).event == run.event,
{
    if run.agenda.len() > 0 {
        match run.agenda[0] {
            _ => {},
        }
    }
}

/// A stateless stage that produces nothing stops the chain: no stage after it gets the
/// event, and the event is counted as filtered.
pub proof fn law_a_filter_stops_the_chain(kinds: Seq<bool>, run: RunView, nanos: nat)
    requires
        agenda_ok(kinds, run),
        run.action() is ApplyStage,
    ensures
        ({
            let after = run.applied(kinds, OutcomeView::Single(None), nanos);
            &&& forall|k: int| 0 <= k < after.agenda.len() ==> (#[trigger] after.agenda[k]) is Assign
            &&& after.metrics.filtered == run.metrics.one_filtered().filtered
            &&& after.metrics.emitted == run.metrics.emitted
        }),
{
    assert(task_ok(kinds, run, run.agenda[0]));
    assert(placed_ok(run.agenda, 0));
    assert(run.agenda.skip(1) =~= Seq::empty());
}

/// A stateless stage hands the event of its output to the next stage, once the output has
/// been sent.
pub proof fn law_an_output_feeds_the_next_stage(
    kinds: Seq<bool>,
    run: RunView,
    output: OutputEventView,
    nanos: nat,
)
    requires
        agenda_ok(kinds, run),
        run.action() is ApplyStage,
        run.agenda[0]->Apply_0 + 1 < kinds.len(),
    ensures
        ({
            let after = run.applied(kinds, OutcomeView::Single(Some(output)), nanos);
            &&& after.event == Some(output.source_event)
            &&& after.agenda == seq![
                TaskView::Send(output),
                TaskView::Apply(run.agenda[0]->Apply_0 + 1),
            ]
        }),
{
    assert(task_ok(kinds, run, run.agenda[0]));
    assert(placed_ok(run.agenda, 0));
    assert(run.agenda.skip(1) =~= Seq::empty());
    assert(run.applied(kinds, OutcomeView::Single(Some(output)), nanos).agenda =~= seq![
        TaskView::Send(output),
        TaskView::Apply(run.agenda[0]->Apply_0 + 1),
    ]);
}

/// A stateful stage never drops the event: the next stage gets it unchanged, whatever the
/// outputs, which are sent first and in order.
pub proof fn law_a_stateful_stage_never_drops_the_event(
    kinds: Seq<bool>,
    run: RunView,
    outputs: Seq<OutputEventView>,
    nanos: nat,
)
    requires
        agenda_ok(kinds, run),
        run.action() is ApplyStage,
        run.agenda[0]->Apply_0 + 1 < kinds.len(),
    ensures
        ({
            let after = run.applied(kinds, OutcomeView::Several(outputs), nanos);
            &&& after.event == run.event
            &&& after.agenda == sends(outputs) + seq![
                TaskView::Apply(run.agenda[0]->Apply_0 + 1),
            ]
            &&& after.metrics.filtered == run.metrics.filtered
        }),
{
    assert(task_ok(kinds, run, run.agenda[0]));
    assert(placed_ok(run.agenda, 0));
    assert(run.agenda.skip(1) =~= Seq::empty());
    let next = seq![TaskView::Apply(run.agenda[0]->Apply_0 + 1)];
    let timed = RunView { nanos: run.nanos + nanos, ..run };
    let mid = timed.instead(sends(outputs) + next);
    assert(mid.agenda =~= sends(outputs) + next);
}

/// A flush closes each stateful stage once and no other, in stage order.
pub proof fn law_a_flush_closes_each_stateful_stage_in_order(kinds: Seq<bool>, i: int)
    requires
        0 <= i,
    ensures
        forall|j: int|
            i <= j < kinds.len() ==> (kinds[j] <==> #[trigger] closes_from(kinds, i).contains(
                TaskView::Close(j),
            )),
        forall|a: int, b: int|
            0 <= a < b < closes_from(kinds, i).len() ==> (#[trigger] closes_from(
                kinds,
                i,
            )[a])->Close_0 < (#[trigger] closes_from(kinds, i)[b])->Close_0,
        forall|a: int|
            0 <= a < closes_from(kinds, i).len() ==> (#[trigger] closes_from(kinds, i)[a]) is Close,
    decreases kinds.len() - i,
{
    lemma_closes_from(kinds, i);
    if i < kinds.len() {
        law_a_flush_closes_each_stateful_stage_in_order(kinds, i + 1);
        lemma_closes_from(kinds, i + 1);
        let all = closes_from(kinds, i);
        let rest = closes_from(kinds, i + 1);
        if kinds[i] {
            assert(all[0] == TaskView::Close(i));
            assert forall|k: int| 1 <= k < all.len() implies all[k] == rest[k - 1] by {}
            assert forall|j: int| i <= j < kinds.len() implies (kinds[j]
                <==> #[trigger] all.contains(TaskView::Close(j))) by {
                if j > i && kinds[j] {
                    assert(rest.contains(TaskView::Close(j)));
                    let k = choose|k: int| 0 <= k < rest.len() && rest[k] == TaskView::Close(j);
                    assert(all[k + 1] == TaskView::Close(j));
                }
            }
        } else {
            assert forall|j: int| i <= j < kinds.len() implies (kinds[j]
                <==> #[trigger] all.contains(TaskView::Close(j))) by {
                if j == i && all.contains(TaskView::Close(i)) {
                    let k = choose|k: int| 0 <= k < all.len() && all[k] == TaskView::Close(i);
                    assert(rest[k]->Close_0 >= i + 1);
                }
            }
        }
    }
}

/// When the input ends, a checkpoint, where one is written, comes before every flush, and
/// the flushes are all that is left after it.
pub proof fn law_the_last_checkpoint_precedes_the_closing_flush(kinds: Seq<bool>, run: RunView)
    requires
        run.due(kinds, Signal::Closed),
    ensures
        run.checkpoints is Some ==> run.closed(kinds).action() is WriteCheckpoint
            && run.closed(kinds).written().agenda == closes_from(kinds, 0),
        run.checkpoints is None ==> run.closed(kinds).agenda == closes_from(kinds, 0),
{
    lemma_closes_from(kinds, 0);
    let closed = run.closed(kinds);
    if run.checkpoints is Some {
        assert(closed.agenda.skip(1) =~= closes_from(kinds, 0));
        assert(Seq::<TaskView>::empty() + closed.agenda.skip(1) =~= closes_from(kinds, 0));
        if closes_from(kinds, 0).len() > 0 {
            assert(closes_from(kinds, 0)[0] is Close);
        }
    } else {
        assert(closed.agenda =~= closes_from(kinds, 0));
    }
}

/// Once the sink has gone the run is over: at most the checkpoint that ends a run is still
/// written, and nothing else that could be reported is due. The checkpoints stay set.
pub proof fn law_a_run_without_a_sink_is_over(kinds: Seq<bool>, run: RunView, signal: Signal)
    requires
        run.due(kinds, Signal::SinkGone),
    ensures
        run.sink_gone().action() is Finished || (run.sink_gone().action() is WriteCheckpoint
            && run.sink_gone().written().action() is Finished),
        run.sink_gone().due(kinds, signal) ==> signal is Written,
        run.sink_gone().action() is WriteCheckpoint <==> run.checkpoints is Some && !run.ended,
        run.sink_gone().metrics == run.metrics,
        run.sink_gone().checkpoints == run.checkpoints,
{
    let gone = run.sink_gone();
    if gone.agenda.len() > 0 {
        assert(gone.agenda.skip(1) =~= Seq::empty());
        assert(Seq::<TaskView>::empty() + gone.agenda.skip(1) =~= Seq::empty());
    }
}

/// How many of the signals report a checkpoint as written once the input has ended or the
/// sink has gone.
pub open spec fn closing_checkpoints(kinds: Seq<bool>, run: RunView, signals: Seq<Signal>) -> nat
    decreases signals.len(),
{
    if signals.len() == 0 {
        0
    } else {
        closing_checkpoints(kinds, run.step(kinds, signals[0]), signals.skip(1)) + if (
        signals[0] is Written) && (run.ended || run.gone) {
            1nat
        } else {
            0nat
        }
    }
}

/// How many checkpoints a run that writes them still has to write when it ends.
pub open spec fn checkpoints_owed(run: RunView) -> nat {
    if !run.ended && !run.gone {
        1
    } else if run.agenda.len() > 0 && run.agenda[0] is WriteCheckpoint {
        1
    } else {
        0
    }
}

/// Whether nothing but a checkpoint is left to do once the sink has gone.
pub open spec fn winds_down(run: RunView) -> bool {
    run.gone ==> run.agenda.len() == 0 || (run.agenda.len() == 1
        && run.agenda[0] is WriteCheckpoint)
}

/// Each signal that is due keeps what is owed, but for the checkpoint that ends a run.
proof fn lemma_step_keeps_what_is_owed(kinds: Seq<bool>, run: RunView, signal: Signal)
    requires
        agenda_ok(kinds, run),
        winds_down(run),
        run.checkpoints is Some,
        run.due(kinds, signal),
    ensures
        winds_down(run.step(kinds, signal)),
        run.step(kinds, signal).checkpoints == run.checkpoints,
        checkpoints_owed(run.step(kinds, signal)) + (if signal is Written && (run.ended
            || run.gone) {
            1nat
        } else {
            0nat
        }) == checkpoints_owed(run),
{
    let after = run.step(kinds, signal);
    law_a_run_stays_in_order(kinds, run, signal);
    if run.agenda.len() > 0 {
        assert(task_ok(kinds, run, run.agenda[0]));
        assert(placed_ok(run.agenda, 0));
    }
    if run.ended || run.gone {
        match signal {
            Signal::Received(_) => {},
            Signal::Closed => {},
            Signal::Ticked => {},
            Signal::SinkGone => {},
            _ => {
                if after.agenda.len() > 0 && after.agenda[0] is WriteCheckpoint {
                    lemma_no_new_checkpoint(kinds, run, signal);
                }
            },
        }
    }
}

/// What is due when the input has ended or the sink has gone puts no checkpoint in front.
proof fn lemma_no_new_checkpoint(kinds: Seq<bool>, run: RunView, signal: Signal)
    requires
        agenda_ok(kinds, run),
        run.due(kinds, signal),
        run.agenda.len() > 0,
        !(signal is SinkGone),
    ensures
        run.step(kinds, signal).agenda.len() > 0 ==> !(
        run.step(kinds, signal).agenda[0] is WriteCheckpoint),
{
    let after = run.step(kinds, signal);
    let rest = run.agenda.skip(1);
    assert(task_ok(kinds, run, run.agenda[0]));
    assert forall|k: int| 0 <= k < rest.len() implies !((
    #[trigger] rest[k]) is WriteCheckpoint) by {
        assert(task_ok(kinds, run, run.agenda[k + 1]));
        assert(placed_ok(run.agenda, k + 1));
    }
    match signal {
        Signal::Expired(n) => {
            lemma_closes_times(kinds, n);
            let mid = closes_times(kinds, n) + rest;
            assert forall|k: int| 0 <= k < mid.len() implies !((
            #[trigger] mid[k]) is WriteCheckpoint) by {
                if k < closes_times(kinds, n).len() {
                    assert(mid[k] == closes_times(kinds, n)[k]);
                } else {
                    assert(mid[k] == rest[k - closes_times(kinds, n).len()]);
                }
            }
            if after.agenda.len() > 0 {
                assert(after.agenda[0] == mid[0] || after.agenda[0] == mid[1]);
            }
        },
        Signal::Flushed(outputs) => {
            let mid = sends(outputs) + rest;
            assert forall|k: int| 0 <= k < mid.len() implies !((
            #[trigger] mid[k]) is WriteCheckpoint) by {
                if k < outputs.len() {
                    assert(mid[k] == sends(outputs)[k]);
                } else {
                    assert(mid[k] == rest[k - outputs.len()]);
                }
            }
            if after.agenda.len() > 0 {
                assert(after.agenda[0] == mid[0] || after.agenda[0] == mid[1]);
            }
        },
        Signal::Applied(outcome, nanos) => {
            lemma_applied(kinds, run, outcome, nanos);
            if after.agenda.len() > 0 {
                match outcome {
                    OutcomeView::Several(outputs) => {
                        let next = run.chain(kinds, run.agenda[0]->Apply_0 + 1);
                        let mid = sends(outputs) + next + rest;
                        assert forall|k: int| 0 <= k < mid.len() implies !((
                        #[trigger] mid[k]) is WriteCheckpoint) by {
                            if k < outputs.len() {
                                assert(mid[k] == sends(outputs)[k]);
                            } else {
                                assert(mid[k] == next[k - outputs.len()]);
                            }
                        }
                        assert(after.agenda[0] == mid[0] || after.agenda[0] == mid[1]);
                    },
                    _ => {},
                }
            }
        },
        _ => {
            let mid = Seq::<TaskView>::empty() + rest;
            assert(mid =~= rest);
            if after.agenda.len() > 0 {
                assert(after.agenda[0] == mid[0] || after.agenda[0] == mid[1]);
            }
        },
    }
}

proof fn lemma_closing_checkpoints(kinds: Seq<bool>, run: RunView, signals: Seq<Signal>)
    requires
        agenda_ok(kinds, run),
        winds_down(run),
        run.checkpoints is Some,
        run.all_due(kinds, signals),
    ensures
        closing_checkpoints(kinds, run, signals) + checkpoints_owed(run.after(kinds, signals))
            == checkpoints_owed(run),
    decreases signals.len(),
{
    if signals.len() > 0 {
        law_a_run_stays_in_order(kinds, run, signals[0]);
        lemma_step_keeps_what_is_owed(kinds, run, signals[0]);
        lemma_closing_checkpoints(kinds, run.step(kinds, signals[0]), signals.skip(1));
    }
}

/// A run that writes checkpoints writes exactly one when it ends, whether its input ends or
/// its sink goes.
pub proof fn law_a_run_ends_with_one_checkpoint(
    kinds: Seq<bool>,
    run: RunView,
    signals: Seq<Signal>,
)
    requires
        agenda_ok(kinds, run),
        run.checkpoints is Some,
        !run.ended && !run.gone,
        run.all_due(kinds, signals),
        run.after(kinds, signals).action() is Finished,
    ensures
        closing_checkpoints(kinds, run, signals) == 1,
{
    lemma_closing_checkpoints(kinds, run, signals);
    lemma_after_ok(kinds, run, signals);
    law_a_run_ends_with_its_input_or_its_sink(kinds, run.after(kinds, signals));
}

/// A run is over only when its input has ended or its sink has gone.
pub proof fn law_a_run_ends_with_its_input_or_its_sink(kinds: Seq<bool>, run: RunView)
    requires
        agenda_ok(kinds, run),
    ensures
        run.action() is Finished <==> run.agenda.len() == 0 && (run.ended || run.gone),
{
    if run.agenda.len() > 0 {
        assert(task_ok(kinds, run, run.agenda[0]));
    }
}

proof fn lemma_flushes_add(a: Seq<TaskView>, b: Seq<TaskView>)
    ensures
        flushes_left(a + b) == flushes_left(a) + flushes_left(b),
    decreases a.len(),
{
    if a.len() == 0 {
        assert(a + b =~= b);
    } else {
        lemma_flushes_add(a.skip(1), b);
        assert((a + b).skip(1) =~= a.skip(1) + b);
    }
}

proof fn lemma_no_flushes(a: Seq<TaskView>)
    requires
        forall|k: int| 0 <= k < a.len() ==> !((#[trigger] a[k]) is Close),
    ensures
        flushes_left(a) == 0,
    decreases a.len(),
{
    if a.len() > 0 {
        assert forall|k: int| 0 <= k < a.skip(1).len() implies !((#[trigger] a.skip(
            1,
        )[k]) is Close) by {
            assert(a.skip(1)[k] == a[k + 1]);
        }
        lemma_no_flushes(a.skip(1));
    }
}

proof fn lemma_all_flushes(a: Seq<TaskView>)
    requires
        forall|k: int| 0 <= k < a.len() ==> (#[trigger] a[k]) is Close,
    ensures
        flushes_left(a) == a.len(),
    decreases a.len(),
{
    if a.len() > 0 {
        assert forall|k: int| 0 <= k < a.skip(1).len() implies (#[trigger] a.skip(
            1,
        )[k]) is Close by {
            assert(a.skip(1)[k] == a[k + 1]);
        }
        lemma_all_flushes(a.skip(1));
    }
}

proof fn lemma_flushes_after_the_end(
    kinds: Seq<bool>,
    run: RunView,
    signals: Seq<Signal>,
)
    requires
        agenda_ok(kinds, run),
        run.ended,
        flush_only(run.agenda),
        run.all_due(kinds, signals),
        !run.after(kinds, signals).gone,
        !run.gone,
    ensures
        flushes_left(run.agenda) == flushes_done(signals) + flushes_left(
            run.after(kinds, signals).agenda,
        ),
    decreases signals.len(),
{
    if signals.len() > 0 {
        let signal = signals[0];
        let next = run.step(kinds, signal);
        law_a_run_stays_in_order(kinds, run, signal);
        assert(run.agenda.len() > 0);
        assert(task_ok(kinds, run, run.agenda[0]));
        let rest = run.agenda.skip(1);
        assert forall|k: int| 0 <= k < rest.len() implies #[trigger] flush_task(rest[k]) by {
            assert(rest[k] == run.agenda[k + 1]);
            assert(flush_task(run.agenda[k + 1]));
        }
        assert(flush_task(run.agenda[0]));
        match signal {
            Signal::Written => {
                assert(Seq::<TaskView>::empty() + rest =~= rest);
                if rest.len() > 0 {
                    assert(flush_task(rest[0]));
                }
                assert(next.agenda =~= rest);
            },
            Signal::Flushed(outputs) => {
                lemma_no_flushes(sends(outputs));
                lemma_flushes_add(sends(outputs), rest);
                let mid = sends(outputs) + rest;
                if mid.len() > 0 {
                    if outputs.len() > 0 {
                        assert(mid[0] == sends(outputs)[0]);
                    } else {
                        assert(mid[0] == rest[0]);
                        assert(flush_task(rest[0]));
                    }
                }
                assert(next.agenda =~= mid);
                assert forall|k: int| 0 <= k < next.agenda.len() implies #[trigger] flush_task(
                    next.agenda[k],
                ) by {
                    if k < outputs.len() {
                        assert(next.agenda[k] == sends(outputs)[k]);
                    } else {
                        assert(next.agenda[k] == rest[k - outputs.len()]);
                    }
                }
            },
            Signal::Sent => {
                assert(Seq::<TaskView>::empty() + rest =~= rest);
                if rest.len() > 0 {
                    assert(flush_task(rest[0]));
                }
                assert(next.agenda =~= rest);
            },
            Signal::SinkGone => {
                lemma_gone_stays(kinds, next, signals.skip(1));
            },
            _ => {},
        }
        if !(signal is SinkGone) {
            lemma_flushes_after_the_end(kinds, next, signals.skip(1));
        }
    }
}

/// Whether a task is one of those that follow the end of the input.
pub open spec fn flush_task(task: TaskView) -> bool {
    task is Send || task is Close || task is WriteCheckpoint
}

/// Whether an agenda holds only what follows the end of the input.
pub open spec fn flush_only(agenda: Seq<TaskView>) -> bool {
    forall|k: int| 0 <= k < agenda.len() ==> #[trigger] flush_task(agenda[k])
}

proof fn lemma_gone_stays(kinds: Seq<bool>, run: RunView, signals: Seq<Signal>)
    requires
        run.gone,
    ensures
        run.after(kinds, signals).gone,
    decreases signals.len(),
{
    if signals.len() > 0 {
        lemma_gone_stays(kinds, run.step(kinds, signals[0]), signals.skip(1));
    }
}

/// A run that reaches its end with its sink still there has flushed every stateful stage
/// exactly once since its input ended.
pub proof fn law_the_end_of_the_input_flushes_every_stateful_stage(
    kinds: Seq<bool>,
    run: RunView,
    signals: Seq<Signal>,
)
    requires
        agenda_ok(kinds, run),
        run.due(kinds, Signal::Closed),
        run.closed(kinds).all_due(kinds, signals),
        run.closed(kinds).after(kinds, signals).action() is Finished,
        !run.closed(kinds).after(kinds, signals).gone,
    ensures
        flushes_done(signals) == stateful_count(kinds),
{
    let closed = run.closed(kinds);
    law_a_run_stays_in_order(kinds, run, Signal::Closed);
    lemma_closes_from(kinds, 0);
    let closes = closes_from(kinds, 0);
    let front: Seq<TaskView> = if run.checkpoints is Some {
        seq![TaskView::WriteCheckpoint]
    } else {
        Seq::empty()
    };
    assert forall|k: int| 0 <= k < closed.agenda.len() implies #[trigger] flush_task(
        closed.agenda[k],
    ) by {
        if k >= front.len() {
            assert(closed.agenda[k] == closes[k - front.len()]);
        }
    }
    lemma_no_flushes(front);
    lemma_all_flushes(closes);
    lemma_flushes_add(front, closes);
    lemma_flushes_after_the_end(kinds, closed, signals);
    lemma_after_ok(kinds, closed, signals);
    law_a_run_ends_with_its_input_or_its_sink(kinds, closed.after(kinds, signals));
}

proof fn lemma_after_ok(kinds: Seq<bool>, run: RunView, signals: Seq<Signal>)
    requires
        agenda_ok(kinds, run),
        run.all_due(kinds, signals),
    ensures
        agenda_ok(kinds, run.after(kinds, signals)),
    decreases signals.len(),
{
    if signals.len() > 0 {
        law_a_run_stays_in_order(kinds, run, signals[0]);
        lemma_after_ok(kinds, run.step(kinds, signals[0]), signals.skip(1));
    }
}

/// Whatever is reported, every event taken in is late, processed or in flight.
pub proof fn law_every_event_is_accounted_for(
    kinds: Seq<bool>,
    run: RunView,
    signals: Seq<Signal>,
)
    requires
        agenda_ok(kinds, run),
        run.accounted(),
        run.all_due(kinds, signals),
    ensures
        run.after(kinds, signals).accounted(),
    decreases signals.len(),
{
    if signals.len() > 0 {
        law_a_run_stays_in_order(kinds, run, signals[0]);
        lemma_step_is_accounted(kinds, run, signals[0]);
        law_every_event_is_accounted_for(kinds, run.step(kinds, signals[0]), signals.skip(1));
    }
}

/// Settling moves an event from in flight to processed.
proof fn lemma_settled_balance(kinds: Seq<bool>, run: RunView)
    requires
        tasks_ok(kinds, run),
    ensures
        ({
            let after = run.settled();
            &&& after.metrics.received == run.metrics.received
            &&& after.metrics.late == run.metrics.late
            &&& (run.metrics.processing_count + run.in_flight() - after.metrics.processing_count
                - after.in_flight()) % 0x1_0000_0000_0000_0000 == 0
        }),
{
    let after = run.settled();
    if run.agenda.len() > 0 && run.agenda[0] is Record {
        assert(task_ok(kinds, run, run.agenda[0]));
        assert(placed_ok(run.agenda, 0));
        assert(run.in_flight() == 1);
        assert(after.in_flight() == 0) by {
            assert forall|k: int| 0 <= k < after.agenda.len() implies !((
            #[trigger] after.agenda[k]) is Apply || after.agenda[k] is Record) by {
                assert(after.agenda[k] == run.agenda[k + 1]);
            }
        }
    }
}

proof fn lemma_in_flight_front(run: RunView, front: Seq<TaskView>, rest: Seq<TaskView>)
    requires
        run.agenda == front + rest,
        forall|k: int|
            0 <= k < front.len() ==> !((#[trigger] front[k]) is Apply || front[k] is Record),
    ensures
        run.in_flight() == (RunView { agenda: rest, ..run }).in_flight(),
{
    let other = RunView { agenda: rest, ..run };
    if other.in_flight() == 1 {
        let k = choose|k: int|
            0 <= k < rest.len() && ((#[trigger] rest[k]) is Apply || rest[k] is Record);
        assert(run.agenda[k + front.len()] == rest[k]);
    }
    if run.in_flight() == 1 {
        let k = choose|k: int|
            0 <= k < run.agenda.len() && ((#[trigger] run.agenda[k]) is Apply
                || run.agenda[k] is Record);
        if k < front.len() {
            assert(run.agenda[k] == front[k]);
        }
        assert(run.agenda[k] == rest[k - front.len()]);
    }
}

proof fn lemma_chain_in_flight(kinds: Seq<bool>, front: Seq<TaskView>, i: int, run: RunView)
    requires
        run.agenda == front + run.chain(kinds, i) || run.agenda == front + run.wrap_up(),
    ensures
        run.in_flight() == 1,
{
    let k = front.len() as int;
    assert(run.agenda[k] is Apply || run.agenda[k] is Record);
}

proof fn lemma_received_is_accounted(kinds: Seq<bool>, run: RunView, event: EventView)
    requires
        agenda_ok(kinds, run),
        run.accounted(),
        run.due(kinds, Signal::Received(event)),
    ensures
        run.received(kinds, event).accounted(),
{
    let after = run.received(kinds, event);
    assert(run.agenda.len() == 0);
    assert(run.in_flight() == 0);
    if run.late(event.timestamp) {
        assert(after.in_flight() == 0);
    } else {
        let front: Seq<TaskView> = if run.watermark is Some && run.windowed {
            seq![TaskView::Expire]
        } else {
            Seq::empty()
        };
        let mid = RunView {
            watermark: after.watermark,
            metrics: run.metrics.one_received(),
            agenda: front + run.chain(kinds, 0),
            event: Some(event),
            nanos: 0,
            ..run
        };
        assert(mid.chain(kinds, 0) =~= run.chain(kinds, 0));
        lemma_chain(kinds, front, 0, mid);
        lemma_chain_in_flight(kinds, front, 0, mid);
        lemma_settled_balance(kinds, mid);
    }
}

proof fn lemma_applied_is_accounted(
    kinds: Seq<bool>,
    run: RunView,
    outcome: OutcomeView,
    nanos: nat,
)
    requires
        agenda_ok(kinds, run),
        run.accounted(),
        run.due(kinds, Signal::Applied(outcome, nanos)),
    ensures
        run.applied(kinds, outcome, nanos).accounted(),
{
    assert(task_ok(kinds, run, run.agenda[0]));
    lemma_applied(kinds, run, outcome, nanos);
    assert(run.agenda[0] is Apply);
    assert(run.in_flight() == 1);
    let i = run.agenda[0]->Apply_0;
    let timed = RunView { nanos: run.nanos + nanos, ..run };
    match outcome {
        OutcomeView::Single(Some(o)) => {
            let front = seq![TaskView::Send(o)];
            let mid = RunView {
                event: Some(o.source_event),
                ..timed.instead(front + run.chain(kinds, i + 1))
            };
            assert(mid.agenda =~= front + mid.chain(kinds, i + 1));
            lemma_chain(kinds, front, i + 1, mid);
            lemma_chain_in_flight(kinds, front, i + 1, mid);
            lemma_settled_balance(kinds, mid);
        },
        OutcomeView::Single(None) => {
            let mid = RunView {
                metrics: run.metrics.one_filtered(),
                ..timed.instead(run.wrap_up())
            };
            assert(mid.agenda =~= Seq::<TaskView>::empty() + mid.wrap_up());
            lemma_chain(kinds, Seq::empty(), i + 1, mid);
            lemma_chain_in_flight(kinds, Seq::empty(), i + 1, mid);
            lemma_settled_balance(kinds, mid);
        },
        OutcomeView::Several(outputs) => {
            let front = sends(outputs);
            let mid = timed.instead(front + run.chain(kinds, i + 1));
            assert(mid.agenda =~= front + mid.chain(kinds, i + 1));
            lemma_chain(kinds, front, i + 1, mid);
            lemma_chain_in_flight(kinds, front, i + 1, mid);
            lemma_settled_balance(kinds, mid);
        },
    }
}

proof fn lemma_step_is_accounted(kinds: Seq<bool>, run: RunView, signal: Signal)
    requires
        agenda_ok(kinds, run),
        run.accounted(),
        run.due(kinds, signal),
    ensures
        run.step(kinds, signal).accounted(),
{
    let after = run.step(kinds, signal);
    if run.agenda.len() > 0 {
        assert(task_ok(kinds, run, run.agenda[0]));
        assert(placed_ok(run.agenda, 0));
        assert(run.agenda =~= seq![run.agenda[0]] + run.agenda.skip(1));
    }
    let rest = run.agenda.skip(1);
    match signal {
        Signal::Received(event) => {
            lemma_received_is_accounted(kinds, run, event);
        },
        Signal::Closed => {
            assert(run.in_flight() == 0);
            lemma_closes_from(kinds, 0);
            let front: Seq<TaskView> = if run.checkpoints is Some {
                seq![TaskView::WriteCheckpoint]
            } else {
                Seq::empty()
            };
            assert(after.in_flight() == 0) by {
                assert forall|k: int| 0 <= k < after.agenda.len() implies !((
                #[trigger] after.agenda[k]) is Apply || after.agenda[k] is Record) by {
                    if k >= front.len() {
                        assert(after.agenda[k] == closes_from(kinds, 0)[k - front.len()]);
                    }
                }
            }
        },
        Signal::Ticked => {
            assert(run.in_flight() == 0);
            assert(after.in_flight() == 0);
        },
        Signal::Expired(n) => {
            lemma_closes_times(kinds, n);
            let tasks = closes_times(kinds, n);
            lemma_instead(kinds, run, tasks, run.instead(tasks));
            lemma_in_flight_front(run, seq![run.agenda[0]], rest);
            lemma_in_flight_front(run.instead(tasks), tasks, rest);
            lemma_settled_balance(kinds, run.instead(tasks));
        },
        Signal::Flushed(outputs) => {
            let tasks = sends(outputs);
            lemma_instead(kinds, run, tasks, run.instead(tasks));
            lemma_in_flight_front(run, seq![run.agenda[0]], rest);
            lemma_in_flight_front(run.instead(tasks), tasks, rest);
            lemma_settled_balance(kinds, run.instead(tasks));
        },
        Signal::Applied(outcome, nanos) => {
            lemma_applied_is_accounted(kinds, run, outcome, nanos);
        },
        Signal::Sent => {
            let mid = RunView { metrics: run.metrics.one_emitted(), ..run.instead(Seq::empty()) };
            lemma_instead(kinds, run, Seq::empty(), mid);
            lemma_in_flight_front(run, seq![run.agenda[0]], rest);
            assert(mid.agenda =~= rest);
            assert(mid.in_flight() == (RunView { agenda: rest, ..run }).in_flight());
            lemma_settled_balance(kinds, mid);
        },
        Signal::SinkGone => {},
        _ => {
            let mid = run.instead(Seq::empty());
            lemma_instead(kinds, run, Seq::empty(), mid);
            lemma_in_flight_front(run, seq![run.agenda[0]], rest);
            assert(mid.agenda =~= rest);
            assert(mid.in_flight() == (RunView { agenda: rest, ..run }).in_flight());
            lemma_settled_balance(kinds, mid);
        },
    }
}

/// How many of the signals report an output as sent.
pub open spec fn outputs_sent(signals: Seq<Signal>) -> nat
    decreases signals.len(),
{
    if signals.len() == 0 {
        0
    } else {
        outputs_sent(signals.skip(1)) + if signals[0] is Sent {
            1nat
        } else {
            0nat
        }
    }
}

/// Whether a signal reports that a stateless stage produced nothing.
pub open spec fn drops(signal: Signal) -> bool {
    signal matches Signal::Applied(outcome, _) && outcome matches OutcomeView::Single(o) && o is None
}

/// How many of the signals report that a stateless stage produced nothing.
pub open spec fn events_dropped(signals: Seq<Signal>) -> nat
    decreases signals.len(),
{
    if signals.len() == 0 {
        0
    } else {
        events_dropped(signals.skip(1)) + if drops(signals[0]) {
            1nat
        } else {
            0nat
        }
    }
}

/// Over any run, the emitted count grows by the outputs sent and the filtered count by the
/// events dropped, up to the size of their range.
pub proof fn law_the_counters_count_what_happened(
    kinds: Seq<bool>,
    run: RunView,
    signals: Seq<Signal>,
)
    ensures
        (run.after(kinds, signals).metrics.emitted - run.metrics.emitted - outputs_sent(signals))
            % 0x1_0000_0000_0000_0000 == 0,
        (run.after(kinds, signals).metrics.filtered - run.metrics.filtered - events_dropped(
            signals,
        )) % 0x1_0000_0000_0000_0000 == 0,
    decreases signals.len(),
{
    if signals.len() > 0 {
        let next = run.step(kinds, signals[0]);
        let after = run.after(kinds, signals);
        law_the_counters_count_what_happened(kinds, next, signals.skip(1));
        lemma_step_outputs(kinds, run, signals[0]);
        lemma_count_goes_on(
            run.metrics.emitted,
            next.metrics.emitted,
            after.metrics.emitted,
            outputs_sent(signals.skip(1)),
            signals[0] is Sent,
        );
        lemma_count_goes_on(
            run.metrics.filtered,
            next.metrics.filtered,
            after.metrics.filtered,
            events_dropped(signals.skip(1)),
            drops(signals[0]),
        );
    }
}

/// One signal moves the counts of outputs and of dropped events by what it reports.
proof fn lemma_step_outputs(kinds: Seq<bool>, run: RunView, signal: Signal)
    ensures
        run.step(kinds, signal).metrics.emitted == (if signal is Sent {
            run.metrics.one_emitted().emitted
        } else {
            run.metrics.emitted
        }),
        run.step(kinds, signal).metrics.filtered == (if drops(signal) {
            run.metrics.one_filtered().filtered
        } else {
            run.metrics.filtered
        }),
{
}

/// How many events the signals hand in.
pub open spec fn events_taken(signals: Seq<Signal>) -> nat
    decreases signals.len(),
{
    if signals.len() == 0 {
        0
    } else {
        events_taken(signals.skip(1)) + if signals[0] is Received {
            1nat
        } else {
            0nat
        }
    }
}

impl RunView {
    /// Whether a signal hands in an event that is late.
    pub open spec fn drops_late(self, signal: Signal) -> bool {
        signal matches Signal::Received(event) && self.late(event.timestamp)
    }

    /// Whether a signal takes an event past the last stage: one that is not late where there
    /// is no stage, or what the last stage did not drop.
    pub open spec fn passes(self, kinds: Seq<bool>, signal: Signal) -> bool {
        match signal {
            Signal::Received(event) => !self.late(event.timestamp) && kinds.len() == 0,
            Signal::Applied(_, _) => !drops(signal) && self.agenda[0]->Apply_0 + 1 >= kinds.len(),
            _ => false,
        }
    }

    /// How many of the events that the signals hand in are late.
    pub open spec fn events_late(self, kinds: Seq<bool>, signals: Seq<Signal>) -> nat
        decreases signals.len(),
    {
        if signals.len() == 0 {
            0
        } else {
            self.step(kinds, signals[0]).events_late(kinds, signals.skip(1))
                + if self.drops_late(signals[0]) {
                1nat
            } else {
                0nat
            }
        }
    }

    /// How many events the signals take past every stage.
    pub open spec fn events_passed(self, kinds: Seq<bool>, signals: Seq<Signal>) -> nat
        decreases signals.len(),
    {
        if signals.len() == 0 {
            0
        } else {
            self.step(kinds, signals[0]).events_passed(kinds, signals.skip(1)) + if self.passes(
                kinds,
                signals[0],
            ) {
                1nat
            } else {
                0nat
            }
        }
    }

    /// The events taken in that still have a stage before them.
    pub open spec fn on_stage(self) -> int {
        if exists|k: int| 0 <= k < self.agenda.len() && (#[trigger] self.agenda[k]) is Apply {
            1
        } else {
            0
        }
    }
}

proof fn lemma_on_stage_parts(run: RunView, front: Seq<TaskView>, rest: Seq<TaskView>)
    requires
        run.agenda == front + rest,
        forall|k: int| 0 <= k < front.len() ==> !((#[trigger] front[k]) is Apply),
    ensures
        run.on_stage() == (RunView { agenda: rest, ..run }).on_stage(),
{
    let other = RunView { agenda: rest, ..run };
    if other.on_stage() == 1 {
        let k = choose|k: int| 0 <= k < rest.len() && (#[trigger] rest[k]) is Apply;
        assert(run.agenda[k + front.len()] == rest[k]);
    }
    if run.on_stage() == 1 {
        let k = choose|k: int|
            0 <= k < run.agenda.len() && (#[trigger] run.agenda[k]) is Apply;
        if k < front.len() {
            assert(run.agenda[k] == front[k]);
        }
        assert(run.agenda[k] == rest[k - front.len()]);
    }
}

/// Counting an event as processed leaves no stage before it or after it.
proof fn lemma_settled_on_stage(run: RunView)
    ensures
        run.settled().on_stage() == run.on_stage(),
{
    if run.agenda.len() > 0 && run.agenda[0] is Record {
        let rest = run.agenda.skip(1);
        assert(run.agenda =~= seq![run.agenda[0]] + rest);
        lemma_on_stage_parts(run, seq![run.agenda[0]], rest);
    }
}

/// What follows a stage, or the way in, has a stage before it exactly if there is one left.
proof fn lemma_chain_on_stage(kinds: Seq<bool>, front: Seq<TaskView>, i: int, run: RunView)
    requires
        0 <= i,
        run.agenda == front + run.chain(kinds, i),
        forall|k: int| 0 <= k < front.len() ==> !((#[trigger] front[k]) is Apply),
    ensures
        run.settled().on_stage() == (if i < kinds.len() {
            1int
        } else {
            0
        }),
{
    lemma_settled_on_stage(run);
    let chain = run.chain(kinds, i);
    lemma_on_stage_parts(run, front, chain);
    let other = RunView { agenda: chain, ..run };
    if i < kinds.len() {
        assert(other.agenda[0] is Apply);
    }
}

/// Each event handed in is late, dropped, past every stage, or still before one.
proof fn lemma_step_balance(kinds: Seq<bool>, run: RunView, signal: Signal)
    requires
        agenda_ok(kinds, run),
        run.due(kinds, signal),
        !(signal is SinkGone),
    ensures
        (if signal is Received {
            1int
        } else {
            0
        }) - (if run.drops_late(signal) {
            1int
        } else {
            0
        }) - (if drops(signal) {
            1int
        } else {
            0
        }) - (if run.passes(kinds, signal) {
            1int
        } else {
            0
        }) == run.step(kinds, signal).on_stage() - run.on_stage(),
{
    let after = run.step(kinds, signal);
    let rest = run.agenda.skip(1);
    if run.agenda.len() > 0 {
        assert(task_ok(kinds, run, run.agenda[0]));
        assert(placed_ok(run.agenda, 0));
        assert(run.agenda =~= seq![run.agenda[0]] + rest);
    }
    match signal {
        Signal::Received(event) => {
            assert(run.on_stage() == 0);
            if run.late(event.timestamp) {
                assert(after.on_stage() == 0);
            } else {
                let front: Seq<TaskView> = if run.watermark is Some && run.windowed {
                    seq![TaskView::Expire]
                } else {
                    Seq::empty()
                };
                let mid = RunView {
                    watermark: after.watermark,
                    metrics: run.metrics.one_received(),
                    agenda: front + run.chain(kinds, 0),
                    event: Some(event),
                    nanos: 0,
                    ..run
                };
                assert(mid.chain(kinds, 0) =~= run.chain(kinds, 0));
                lemma_chain_on_stage(kinds, front, 0, mid);
                assert(after == mid.settled());
            }
        },
        Signal::Closed => {
            assert(run.on_stage() == 0);
            lemma_closes_from(kinds, 0);
            assert(after.on_stage() == 0) by {
                assert forall|k: int| 0 <= k < after.agenda.len() implies !((
                #[trigger] after.agenda[k]) is Apply) by {
                    let front: int = if run.checkpoints is Some {
                        1
                    } else {
                        0
                    };
                    if k >= front {
                        assert(after.agenda[k] == closes_from(kinds, 0)[k - front]);
                    }
                }
            }
        },
        Signal::Ticked => {
            assert(run.on_stage() == 0);
            assert(after.on_stage() == 0);
        },
        Signal::Expired(n) => {
            lemma_closes_times(kinds, n);
            let tasks = closes_times(kinds, n);
            lemma_on_stage_parts(run, seq![run.agenda[0]], rest);
            lemma_on_stage_parts(run.instead(tasks), tasks, rest);
            lemma_settled_on_stage(run.instead(tasks));
        },
        Signal::Flushed(outputs) => {
            let tasks = sends(outputs);
            lemma_on_stage_parts(run, seq![run.agenda[0]], rest);
            lemma_on_stage_parts(run.instead(tasks), tasks, rest);
            lemma_settled_on_stage(run.instead(tasks));
        },
        Signal::Applied(outcome, nanos) => {
            lemma_applied(kinds, run, outcome, nanos);
            assert(run.on_stage() == 1);
            let i = run.agenda[0]->Apply_0;
            let timed = RunView { nanos: run.nanos + nanos, ..run };
            match outcome {
                OutcomeView::Single(Some(o)) => {
                    let front = seq![TaskView::Send(o)];
                    let mid = RunView {
                        event: Some(o.source_event),
                        ..timed.instead(front + run.chain(kinds, i + 1))
                    };
                    assert(mid.agenda =~= front + mid.chain(kinds, i + 1));
                    lemma_chain_on_stage(kinds, front, i + 1, mid);
                },
                OutcomeView::Single(None) => {
                    let mid = RunView {
                        metrics: run.metrics.one_filtered(),
                        ..timed.instead(run.wrap_up())
                    };
                    assert(mid.agenda =~= mid.wrap_up());
                    lemma_settled_on_stage(mid);
                    assert(mid.on_stage() == 0);
                },
                OutcomeView::Several(outputs) => {
                    let front = sends(outputs);
                    let mid = timed.instead(front + run.chain(kinds, i + 1));
                    assert(mid.agenda =~= front + mid.chain(kinds, i + 1));
                    lemma_chain_on_stage(kinds, front, i + 1, mid);
                },
            }
        },
        Signal::Sent => {
            let mid = RunView { metrics: run.metrics.one_emitted(), ..run.instead(Seq::empty()) };
            lemma_on_stage_parts(run, seq![run.agenda[0]], rest);
            assert(mid.agenda =~= rest);
            assert(mid.on_stage() == (RunView { agenda: rest, ..run }).on_stage());
            lemma_settled_on_stage(mid);
        },
        _ => {
            let mid = run.instead(Seq::empty());
            lemma_on_stage_parts(run, seq![run.agenda[0]], rest);
            assert(mid.agenda =~= rest);
            assert(mid.on_stage() == (RunView { agenda: rest, ..run }).on_stage());
            lemma_settled_on_stage(mid);
        },
    }
}

proof fn lemma_balance(kinds: Seq<bool>, run: RunView, signals: Seq<Signal>)
    requires
        agenda_ok(kinds, run),
        run.all_due(kinds, signals),
        !run.after(kinds, signals).gone,
    ensures
        events_taken(signals) - run.events_late(kinds, signals) - events_dropped(signals)
            - run.events_passed(kinds, signals) == run.after(kinds, signals).on_stage()
            - run.on_stage(),
    decreases signals.len(),
{
    if signals.len() > 0 {
        let next = run.step(kinds, signals[0]);
        law_a_run_stays_in_order(kinds, run, signals[0]);
        if signals[0] is SinkGone {
            lemma_gone_stays(kinds, next, signals.skip(1));
        }
        lemma_step_balance(kinds, run, signals[0]);
        lemma_balance(kinds, next, signals.skip(1));
    }
}

/// One signal moves the counts of events taken in and of late ones by what it reports.
proof fn lemma_step_counts(kinds: Seq<bool>, run: RunView, signal: Signal)
    ensures
        run.step(kinds, signal).metrics.received == (if signal is Received {
            run.metrics.one_received().received
        } else {
            run.metrics.received
        }),
        run.step(kinds, signal).metrics.late == (if run.drops_late(signal) {
            run.metrics.one_late().late
        } else {
            run.metrics.late
        }),
{
}

/// A counter that goes on from where a step left it has moved by both, up to the size of its
/// range.
proof fn lemma_count_goes_on(before: u64, next: u64, after: u64, counted_later: nat, steps: bool)
    requires
        next == (if steps {
            counted(before, 1)
        } else {
            before
        }),
        (after - next - counted_later) % 0x1_0000_0000_0000_0000 == 0,
    ensures
        (after - before - (counted_later + if steps {
            1nat
        } else {
            0nat
        })) % 0x1_0000_0000_0000_0000 == 0,
{
}

/// The counts of events taken in and of late ones move with what they count, up to the size
/// of their range.
#[verifier::spinoff_prover]
#[verifier::rlimit(50)]
proof fn lemma_counts(kinds: Seq<bool>, run: RunView, signals: Seq<Signal>)
    ensures
        (run.after(kinds, signals).metrics.received - run.metrics.received - events_taken(signals))
            % 0x1_0000_0000_0000_0000 == 0,
        (run.after(kinds, signals).metrics.late - run.metrics.late - run.events_late(
            kinds,
            signals,
        )) % 0x1_0000_0000_0000_0000 == 0,
    decreases signals.len(),
{
    if signals.len() > 0 {
        let next = run.step(kinds, signals[0]);
        let after = run.after(kinds, signals);
        lemma_counts(kinds, next, signals.skip(1));
        lemma_step_counts(kinds, run, signals[0]);
        lemma_count_goes_on(
            run.metrics.received,
            next.metrics.received,
            after.metrics.received,
            events_taken(signals.skip(1)),
            signals[0] is Received,
        );
        lemma_count_goes_on(
            run.metrics.late,
            next.metrics.late,
            after.metrics.late,
            next.events_late(kinds, signals.skip(1)),
            run.drops_late(signals[0]),
        );
    }
}

/// No count is above the number of signals.
proof fn lemma_counts_are_bounded(kinds: Seq<bool>, run: RunView, signals: Seq<Signal>)
    ensures
        events_taken(signals) <= signals.len(),
        run.events_late(kinds, signals) <= signals.len(),
        outputs_sent(signals) <= signals.len(),
        events_dropped(signals) <= signals.len(),
    decreases signals.len(),
{
    if signals.len() > 0 {
        lemma_counts_are_bounded(kinds, run.step(kinds, signals[0]), signals.skip(1));
    }
}

/// Without a watermark no event is late.
proof fn lemma_never_late(kinds: Seq<bool>, run: RunView, signals: Seq<Signal>)
    requires
        run.watermark is None,
    ensures
        run.events_late(kinds, signals) == 0,
    decreases signals.len(),
{
    if signals.len() > 0 {
        lemma_never_late(kinds, run.step(kinds, signals[0]), signals.skip(1));
    }
}

/// Without stages nothing is sent.
proof fn lemma_nothing_sent(run: RunView, signals: Seq<Signal>)
    requires
        agenda_ok(Seq::empty(), run),
        forall|k: int| 0 <= k < run.agenda.len() ==> !((#[trigger] run.agenda[k]) is Send),
        run.all_due(Seq::empty(), signals),
    ensures
        outputs_sent(signals) == 0,
    decreases signals.len(),
{
    let kinds = Seq::<bool>::empty();
    if signals.len() > 0 {
        let signal = signals[0];
        let next = run.step(kinds, signal);
        law_a_run_stays_in_order(kinds, run, signal);
        if run.agenda.len() > 0 {
            assert(task_ok(kinds, run, run.agenda[0]));
        }
        assert forall|k: int| 0 <= k < next.agenda.len() implies !((
        #[trigger] next.agenda[k]) is Send) by {
            lemma_closes_from(kinds, 0);
            match signal {
                Signal::Expired(n) => {
                    lemma_closes_times(kinds, n);
                    let tasks = closes_times(kinds, n);
                    let mid = tasks + run.agenda.skip(1);
                    assert forall|j: int| 0 <= j < mid.len() implies !((
                    #[trigger] mid[j]) is Send) by {
                        if j < tasks.len() {
                            assert(mid[j] == tasks[j]);
                        } else {
                            assert(mid[j] == run.agenda[j - tasks.len() + 1]);
                        }
                    }
                    assert(next.agenda[k] == mid[k] || next.agenda[k] == mid[k + 1]);
                },
                Signal::Written => {
                    let mid = Seq::<TaskView>::empty() + run.agenda.skip(1);
                    assert(next.agenda[k] == mid[k] || next.agenda[k] == mid[k + 1]);
                    assert(mid[k] == run.agenda[k + 1]);
                },
                Signal::Assigned => {
                    let mid = Seq::<TaskView>::empty() + run.agenda.skip(1);
                    assert(next.agenda[k] == mid[k] || next.agenda[k] == mid[k + 1]);
                    assert(mid[k] == run.agenda[k + 1]);
                },
                _ => {},
            }
        }
        lemma_nothing_sent(next, signals.skip(1));
    }
}

/// Between events, and when the run is over, the counters of a fresh run are exact: those
/// received are the events handed in, those emitted the outputs sent, and those received
/// that were neither late nor filtered went past every stage. Without a watermark none is
/// late, and without stages none is emitted.
pub proof fn law_the_counters_of_a_fresh_run_are_exact(
    kinds: Seq<bool>,
    run: RunView,
    signals: Seq<Signal>,
)
    requires
        agenda_ok(kinds, run),
        run.agenda.len() == 0,
        run.metrics == MetricsView::clear(),
        run.all_due(kinds, signals),
        signals.len() <= u64::MAX,
        run.after(kinds, signals).agenda.len() == 0,
        !run.after(kinds, signals).gone,
    ensures
        ({
            let metrics = run.after(kinds, signals).metrics;
            &&& metrics.received == events_taken(signals)
            &&& metrics.emitted == outputs_sent(signals)
            &&& metrics.filtered == events_dropped(signals)
            &&& metrics.late == run.events_late(kinds, signals)
            &&& metrics.received - metrics.late - metrics.filtered == run.events_passed(
                kinds,
                signals,
            )
            &&& run.watermark is None ==> metrics.late == 0
            &&& kinds.len() == 0 ==> metrics.emitted == 0
        }),
{
    lemma_counts(kinds, run, signals);
    lemma_counts_are_bounded(kinds, run, signals);
    law_the_counters_count_what_happened(kinds, run, signals);
    lemma_balance(kinds, run, signals);
    if run.watermark is None {
        lemma_never_late(kinds, run, signals);
    }
    if kinds.len() == 0 {
        assert(kinds =~= Seq::empty());
        lemma_nothing_sent(run, signals);
    }
}

/// An event that is not late is what the stages work on next: where windows are kept under a
/// watermark, those that it has passed come first, then the first stage. No time has been
/// spent on the event yet.
pub proof fn law_an_event_goes_to_the_first_stage(kinds: Seq<bool>, run: RunView, event: EventView)
    requires
        run.due(kinds, Signal::Received(event)),
        !run.late(event.timestamp),
        kinds.len() > 0,
    ensures
        ({
            let after = run.received(kinds, event);
            &&& after.event == Some(event)
            &&& after.nanos == 0
            &&& run.windowed && run.watermark is Some ==> after.agenda == seq![
                TaskView::Expire,
                TaskView::Apply(0),
            ] && after.action() == ActionView::ExpireWindows(
                run.watermark->0.observed(event.timestamp).current,
            )
            &&& !(run.windowed && run.watermark is Some) ==> after.agenda == seq![
                TaskView::Apply(0),
            ]
            &&& run.watermark is None ==> after.watermark is None
            &&& run.watermark is Some ==> after.watermark == Some(
                run.watermark->0.observed(event.timestamp),
            )
            &&& after.metrics == run.metrics.one_received()
        }),
{
    let after = run.received(kinds, event);
    if run.windowed && run.watermark is Some {
        assert(after.agenda =~= seq![TaskView::Expire, TaskView::Apply(0)]);
    } else {
        assert(after.agenda =~= seq![TaskView::Apply(0)]);
    }
}

/// A pipeline without stages counts an event as processed, in no time, and puts it into its
/// window where windows are kept; the windows that the watermark has passed come first.
pub proof fn law_a_pipeline_without_stages_only_counts(run: RunView, event: EventView, n: nat)
    requires
        run.due(Seq::empty(), Signal::Received(event)),
        !run.late(event.timestamp),
    ensures
        ({
            let after = run.received(Seq::empty(), event);
            let counted_in = run.metrics.one_received().one_timed(0);
            &&& run.windowed && run.watermark is Some ==> {
                let past = after.expired(Seq::empty(), n);
                &&& after.action() == ActionView::ExpireWindows(
                    run.watermark->0.observed(event.timestamp).current,
                )
                &&& past.action() == ActionView::AssignToWindow(event)
                &&& past.metrics == counted_in
                &&& past.assigned().action() is Receive
            }
            &&& run.windowed && run.watermark is None ==> after.action()
                == ActionView::AssignToWindow(event) && after.metrics == counted_in
                && after.assigned().action() is Receive
            &&& !run.windowed ==> after.action() is Receive && after.metrics == counted_in
        }),
{
    let kinds = Seq::<bool>::empty();
    let after = run.received(kinds, event);
    assert(whole_micros(0) == 0);
    if run.windowed && run.watermark is Some {
        assert(after.agenda =~= seq![TaskView::Expire, TaskView::Record, TaskView::Assign]);
        lemma_closes_times(kinds, n);
        let tasks = closes_times(kinds, n);
        assert(tasks.len() == 0) by {
            if tasks.len() > 0 {
                assert(tasks[0] is Close);
            }
        }
        assert(tasks + after.agenda.skip(1) =~= seq![TaskView::Record, TaskView::Assign]);
        let past = after.expired(kinds, n);
        assert(past.agenda =~= seq![TaskView::Assign]);
        assert(past.assigned().agenda =~= Seq::empty());
    } else if run.windowed {
        assert(after.agenda =~= seq![TaskView::Assign]);
        assert(after.assigned().agenda =~= Seq::empty());
    } else {
        assert(after.agenda =~= Seq::empty());
    }
}

/// Whole microseconds are the thousands of nanoseconds: what is left over is less than one.
pub proof fn law_whole_micros_leave_less_than_one(nanos: nat)
    requires
        nanos < 1000 * 0x1_0000_0000_0000_0000,
    ensures
        whole_micros(nanos) * 1000 <= nanos < whole_micros(nanos) * 1000 + 1000,
{
}

/// The time of the stages adds up, whatever they made of the event.
pub proof fn law_the_time_of_the_stages_adds_up(
    kinds: Seq<bool>,
    run: RunView,
    outcome: OutcomeView,
    nanos: nat,
)
    ensures
        run.applied(kinds, outcome, nanos).nanos == run.nanos + nanos,
{
}

/// After the last stage of the chain the event, as the last stateless stage left it, is
/// counted as processed with the time of all its stages, once the outputs have been sent, and
/// goes into its window where windows are kept.
pub proof fn law_the_last_stage_counts_the_event(
    kinds: Seq<bool>,
    run: RunView,
    output: OutputEventView,
    nanos: nat,
)
    requires
        agenda_ok(kinds, run),
        run.action() is ApplyStage,
        run.agenda[0]->Apply_0 + 1 == kinds.len(),
    ensures
        ({
            let after = run.applied(kinds, OutcomeView::Single(Some(output)), nanos);
            let done = after.sent();
            &&& after.action() == ActionView::Send(output)
            &&& after.metrics == run.metrics
            &&& done.metrics == run.metrics.one_emitted().one_timed(
                whole_micros(run.nanos + nanos),
            )
            &&& run.windowed ==> done.action() == ActionView::AssignToWindow(output.source_event)
                && done.agenda.len() == 1
            &&& !run.windowed ==> done.agenda.len() == 0
        }),
        ({
            let after = run.applied(kinds, OutcomeView::Several(Seq::empty()), nanos);
            &&& after.metrics == run.metrics.one_timed(whole_micros(run.nanos + nanos))
            &&& after.event == run.event
            &&& run.windowed ==> after.action() == ActionView::AssignToWindow(run.event->0)
                && after.agenda.len() == 1
            &&& !run.windowed ==> after.agenda.len() == 0
        }),
{
    assert(task_ok(kinds, run, run.agenda[0]));
    assert(placed_ok(run.agenda, 0));
    assert(run.agenda.skip(1) =~= Seq::empty());
    let after = run.applied(kinds, OutcomeView::Single(Some(output)), nanos);
    assert(after.agenda =~= seq![TaskView::Send(output)] + run.wrap_up());
    assert(after.agenda[0] == TaskView::Send(output));
    assert(Seq::<TaskView>::empty() + after.agenda.skip(1) =~= run.wrap_up());
    let kept = run.applied(kinds, OutcomeView::Several(Seq::empty()), nanos);
    assert(sends(Seq::empty()) =~= Seq::empty());
    assert((sends(Seq::empty()) + run.wrap_up()) + run.agenda.skip(1) =~= run.wrap_up());
    assert(run.wrap_up() + run.agenda.skip(1) =~= run.wrap_up());
}

/// A stateful stage's outputs are sent one by one, in their order; then comes the next stage
/// with the event unchanged, or after the last one the event is counted as processed and put
/// into its window where windows are kept.
pub proof fn law_the_outputs_of_a_stage_are_sent_in_order(
    kinds: Seq<bool>,
    run: RunView,
    outputs: Seq<OutputEventView>,
    nanos: nat,
    k: int,
)
    requires
        agenda_ok(kinds, run),
        run.action() is ApplyStage,
        0 <= k < outputs.len(),
    ensures
        ({
            let after = run.applied(kinds, OutcomeView::Several(outputs), nanos);
            let next = run.agenda[0]->Apply_0 + 1;
            &&& after.agenda[k] == TaskView::Send(outputs[k])
            &&& after.agenda.len() > outputs.len()
            &&& next < kinds.len() ==> after.agenda.skip(outputs.len() as int) == seq![
                TaskView::Apply(next),
            ]
            &&& next >= kinds.len() && run.windowed ==> after.agenda.skip(outputs.len() as int)
                == seq![TaskView::Record, TaskView::Assign]
            &&& next >= kinds.len() && !run.windowed ==> after.agenda.skip(outputs.len() as int)
                == seq![TaskView::Record]
            &&& after.event == run.event
            &&& after.metrics == run.metrics
        }),
{
    assert(task_ok(kinds, run, run.agenda[0]));
    assert(placed_ok(run.agenda, 0));
    assert(run.agenda.skip(1) =~= Seq::empty());
    let next = run.agenda[0]->Apply_0 + 1;
    let chain = run.chain(kinds, next);
    let tasks = sends(outputs) + chain;
    assert((tasks + run.agenda.skip(1)) =~= tasks);
    assert(tasks[0] == TaskView::Send(outputs[0]));
    assert(tasks.skip(outputs.len() as int) =~= chain);
}

/// An event that a stateless stage dropped counts as filtered and as processed, with the time
/// of the stages it had reached, whatever stages were to come, and still goes into its window
/// where windows are kept.
pub proof fn law_a_dropped_event_is_counted_as_processed(
    kinds: Seq<bool>,
    run: RunView,
    nanos: nat,
)
    requires
        agenda_ok(kinds, run),
        run.action() is ApplyStage,
    ensures
        ({
            let after = run.applied(kinds, OutcomeView::Single(None), nanos);
            &&& after.metrics == run.metrics.one_filtered().one_timed(
                whole_micros(run.nanos + nanos),
            )
            &&& after.event == run.event
            &&& run.windowed ==> after.agenda == seq![TaskView::Assign]
            &&& !run.windowed ==> after.agenda.len() == 0
        }),
{
    assert(task_ok(kinds, run, run.agenda[0]));
    assert(placed_ok(run.agenda, 0));
    assert(run.agenda.skip(1) =~= Seq::empty());
    let after = run.applied(kinds, OutcomeView::Single(None), nanos);
    assert(run.wrap_up() + run.agenda.skip(1) =~= run.wrap_up());
    if run.windowed {
        assert(after.agenda =~= seq![TaskView::Assign]);
    }
}

/// What a flushed stage gave is sent, in its order, before anything else that was left.
pub proof fn law_what_a_flush_gives_is_sent(run: RunView, outputs: Seq<OutputEventView>, k: int)
    requires
        run.action() is CloseStage,
        0 <= k < outputs.len(),
    ensures
        ({
            let after = run.flushed(outputs);
            &&& after.agenda.len() == outputs.len() + run.agenda.len() - 1
            &&& after.agenda[k] == TaskView::Send(outputs[k])
            &&& after.agenda.skip(outputs.len() as int) == run.agenda.skip(1)
            &&& after.metrics == run.metrics
            &&& after.event == run.event
        }),
{
    let after = run.flushed(outputs);
    let tasks = sends(outputs) + run.agenda.skip(1);
    assert(tasks[0] == TaskView::Send(outputs[0]));
    assert(after.agenda =~= tasks);
    assert(after.agenda.skip(outputs.len() as int) =~= run.agenda.skip(1));
}

/// A stage that gave nothing when it was flushed leaves the rest of what was to be done.
pub proof fn law_an_empty_flush_leaves_the_rest(run: RunView)
    requires
        run.action() is CloseStage,
        run.agenda.len() == 1 || !(run.agenda[1] is Record),
    ensures
        run.flushed(Seq::empty()).agenda == run.agenda.skip(1),
        run.flushed(Seq::empty()).metrics == run.metrics,
{
    assert(sends(Seq::empty()) + run.agenda.skip(1) =~= run.agenda.skip(1));
}

/// How often an agenda closes a stage.
pub open spec fn closes_of(agenda: Seq<TaskView>, stage: int) -> nat
    decreases agenda.len(),
{
    if agenda.len() == 0 {
        0
    } else {
        closes_of(agenda.skip(1), stage) + if agenda[0] == TaskView::Close(stage) {
            1nat
        } else {
            0nat
        }
    }
}

proof fn lemma_closes_add(a: Seq<TaskView>, b: Seq<TaskView>, stage: int)
    ensures
        closes_of(a + b, stage) == closes_of(a, stage) + closes_of(b, stage),
    decreases a.len(),
{
    if a.len() > 0 {
        lemma_closes_add(a.skip(1), b, stage);
        assert((a + b).skip(1) =~= a.skip(1) + b);
    } else {
        assert(a + b =~= b);
    }
}

proof fn lemma_closed_once(kinds: Seq<bool>, i: int, stage: int)
    requires
        0 <= i,
    ensures
        closes_of(closes_from(kinds, i), stage) == (if i <= stage < kinds.len() && kinds[stage] {
            1nat
        } else {
            0nat
        }),
    decreases kinds.len() - i,
{
    if i < kinds.len() {
        lemma_closed_once(kinds, i + 1, stage);
        if kinds[i] {
            let one = seq![TaskView::Close(i)];
            lemma_closes_add(one, closes_from(kinds, i + 1), stage);
            assert(one.skip(1) =~= Seq::empty());
            assert(closes_of(one.skip(1), stage) == 0);
        }
    }
}

proof fn lemma_closed_as_often(kinds: Seq<bool>, n: nat, stage: int)
    ensures
        closes_of(closes_times(kinds, n), stage) == (if 0 <= stage < kinds.len() && kinds[stage] {
            n
        } else {
            0
        }),
    decreases n,
{
    if n > 0 {
        lemma_closed_as_often(kinds, (n - 1) as nat, stage);
        lemma_closed_once(kinds, 0, stage);
        lemma_closes_add(closes_from(kinds, 0), closes_times(kinds, (n - 1) as nat), stage);
    }
}

/// Each window that has expired flushes each stateful stage once more, and no other stage; the
/// event goes on to its stages after that.
pub proof fn law_each_expired_window_flushes_every_stateful_stage(
    kinds: Seq<bool>,
    run: RunView,
    n: nat,
    stage: int,
)
    requires
        agenda_ok(kinds, run),
        run.action() is ExpireWindows,
        0 <= stage < kinds.len(),
    ensures
        ({
            let after = run.expired(kinds, n);
            &&& closes_of(after.agenda, stage) == closes_of(run.agenda, stage) + if kinds[stage] {
                n
            } else {
                0nat
            }
            &&& after.event == run.event
            &&& run.agenda.len() > 1 && !(run.agenda.last() is Record) ==> after.agenda.len() > 0
                && after.agenda.last() == run.agenda.last()
        }),
{
    let tasks = closes_times(kinds, n);
    let rest = run.agenda.skip(1);
    let after = run.expired(kinds, n);
    lemma_closed_as_often(kinds, n, stage);
    lemma_closes_add(tasks, rest, stage);
    lemma_closes_times(kinds, n);
    let whole = tasks + rest;
    assert(closes_of(run.agenda, stage) == closes_of(rest, stage));
    if whole.len() > 0 && whole[0] is Record {
        assert(closes_of(whole, stage) == closes_of(whole.skip(1), stage));
    }
    if run.agenda.len() > 1 && !(run.agenda.last() is Record) {
        assert(rest.last() == run.agenda.last());
        assert(whole.last() == run.agenda.last());
        if whole[0] is Record {
            assert(whole.skip(1).last() == whole.last());
        }
    }
}

/// A tick writes a checkpoint where checkpoints are written, and then the next event is waited
/// for; where none are written it changes nothing.
pub proof fn law_a_tick_writes_a_checkpoint(run: RunView)
    requires
        run.action() is Receive,
    ensures
        run.checkpoints is Some ==> run.ticked().action() is WriteCheckpoint
            && run.ticked().written().action() is Receive && run.ticked().written().metrics
            == run.metrics,
        run.checkpoints is None ==> run.ticked() == run,
        run.ticked().event == run.event && run.ticked().watermark == run.watermark,
{
    if run.checkpoints is Some {
        let ticked = run.ticked();
        assert(Seq::<TaskView>::empty() + ticked.agenda.skip(1) =~= Seq::empty());
    }
}

/// An output that was sent is counted, and what was to be done after it comes next.
pub proof fn law_a_sent_output_is_counted(run: RunView)
    requires
        run.action() is Send,
        run.agenda.len() == 1 || !(run.agenda[1] is Record),
    ensures
        run.sent().agenda == run.agenda.skip(1),
        run.sent().metrics == run.metrics.one_emitted(),
        run.sent().event == run.event,
        run.sent().nanos == run.nanos,
{
    assert(Seq::<TaskView>::empty() + run.agenda.skip(1) =~= run.agenda.skip(1));
}

/// The last output of an event that has passed every stage counts the event as processed, with
/// the time of its stages.
pub proof fn law_the_last_output_counts_the_event(run: RunView)
    requires
        run.action() is Send,
        run.agenda.len() > 1,
        run.agenda[1] is Record,
    ensures
        run.sent().agenda == run.agenda.skip(2),
        run.sent().metrics == run.metrics.one_emitted().one_timed(whole_micros(run.nanos)),
        run.sent().event == run.event,
{
    let rest = Seq::<TaskView>::empty() + run.agenda.skip(1);
    assert(rest =~= run.agenda.skip(1));
    assert(rest.skip(1) =~= run.agenda.skip(2));
}

/// Once the event is in its window, what was to be done after it comes next.
pub proof fn law_an_assigned_event_is_done_with(run: RunView)
    requires
        run.action() is AssignToWindow,
        run.agenda.len() == 1 || !(run.agenda[1] is Record),
    ensures
        run.assigned().agenda == run.agenda.skip(1),
        run.assigned().metrics == run.metrics,
        run.written().agenda == run.agenda.skip(1),
        run.written().metrics == run.metrics,
{
    assert(Seq::<TaskView>::empty() + run.agenda.skip(1) =~= run.agenda.skip(1));
}

proof fn lemma_windows_add(kinds: Seq<bool>, m: nat, n: nat)
    ensures
        closes_times(kinds, m + n) == closes_times(kinds, m) + closes_times(kinds, n),
    decreases m,
{
    if m > 0 {
        lemma_windows_add(kinds, (m - 1) as nat, n);
        assert((m + n - 1) as nat == (m - 1) as nat + n);
        assert(closes_times(kinds, m + n) =~= closes_times(kinds, m) + closes_times(kinds, n));
    } else {
        assert(closes_times(kinds, m) + closes_times(kinds, n) =~= closes_times(kinds, n));
    }
}

/// One expired window flushes the stateful stages in stage order, and more windows do so one
/// after the other.
pub proof fn law_windows_are_flushed_one_after_the_other(kinds: Seq<bool>, m: nat, n: nat)
    ensures
        closes_times(kinds, 0) == Seq::<TaskView>::empty(),
        closes_times(kinds, 1) == closes_from(kinds, 0),
        closes_times(kinds, m + n) == closes_times(kinds, m) + closes_times(kinds, n),
{
    lemma_windows_add(kinds, m, n);
    reveal_with_fuel(closes_times, 2);
    assert(closes_from(kinds, 0) + Seq::<TaskView>::empty() =~= closes_from(kinds, 0));
}

/// The flushes of the expired windows come before everything else that was left.
pub proof fn law_expired_windows_are_flushed_first(kinds: Seq<bool>, run: RunView, n: nat)
    requires
        run.action() is ExpireWindows,
        run.agenda.len() == 1 || !(run.agenda[1] is Record),
    ensures
        run.expired(kinds, n).agenda == closes_times(kinds, n) + run.agenda.skip(1),
        run.expired(kinds, n).metrics == run.metrics,
        run.expired(kinds, n).event == run.event,
{
    lemma_closes_times(kinds, n);
    let tasks = closes_times(kinds, n);
    let whole = tasks + run.agenda.skip(1);
    if whole.len() > 0 {
        if tasks.len() > 0 {
            assert(whole[0] == tasks[0]);
        } else {
            assert(whole[0] == run.agenda[1]);
        }
    }
}

/// A new run waits for its first event; what the pipeline counted and how far its event time
/// has come stay.
pub proof fn law_a_new_run_waits_for_an_event(run: RunView)
    ensures
        run.begun().action() is Receive,
        run.begun().metrics == run.metrics,
        run.begun().watermark == run.watermark,
        run.begun().windowed == run.windowed,
        run.begun().checkpoints == run.checkpoints,
        RunView::fresh().action() is Receive,
        RunView::fresh().metrics == MetricsView::clear(),
        RunView::fresh().watermark is None,
        RunView::fresh().checkpoints is None,
        !RunView::fresh().windowed,
{
}

/// What the caller does next is the first thing left to do; with nothing left, the run is
/// over where its input has ended or its sink is gone, and waits for an event otherwise.
pub proof fn law_the_first_task_is_done_next(run: RunView)
    ensures
        run.agenda.len() == 0 ==> (run.action() is Finished <==> run.ended || run.gone),
        run.agenda.len() == 0 ==> (run.action() is Receive <==> !run.ended && !run.gone),
        run.agenda.len() > 0 ==> {
            let task = run.agenda[0];
            &&& task is Expire ==> run.action() == ActionView::ExpireWindows(
                run.watermark->0.current,
            )
            &&& task is Close ==> run.action() is CloseStage
            &&& task is Apply ==> run.action() is ApplyStage
            &&& task is Send ==> run.action() == ActionView::Send(task->Send_0)
            &&& task is Assign ==> run.action() == ActionView::AssignToWindow(run.event->0)
            &&& task is WriteCheckpoint ==> run.action() is WriteCheckpoint
        },
{
}

} // verus!
