//! WebSocket source and sink: when to reconnect and what becomes of a message.

use vstd::prelude::*;

verus! {

/// The wait before the first reconnect, in milliseconds.
pub const RECONNECT_FIRST_DELAY: u64 = 250;

/// The longest wait before a reconnect, in milliseconds.
pub const RECONNECT_MAX_DELAY: u64 = 30_000;

/// The factor by which each wait is longer than the one before it.
pub const RECONNECT_BACKOFF_FACTOR: u64 = 2;

/// What an attempt to read a remote feed came to.
#[derive(Clone, Copy, PartialEq, Eq, Structural, Debug)]
pub enum Attempt {
    /// The feed was read until it closed.
    FeedClosed,
    /// The feed was read until the receiver of its events was gone.
    ReceiverGone,
    /// The url cannot be used, so no other attempt will do better.
    Unusable,
    /// The feed could not be reached.
    Unreachable,
}

/// What to do after an attempt.
#[derive(Clone, Copy, PartialEq, Eq, Structural, Debug)]
pub enum Retry {
    /// Wait this many milliseconds, and try again unless the receiver is gone.
    After(u64),
    /// Give up.
    Stop,
}

/// How long to wait before the next connection to a remote feed. A feed that closes or
/// refuses the connection is retried, the wait doubling up to a limit; a connection that
/// came about starts the waits over.
pub struct Reconnect {
    delay: u64,
}

/// The wait after a wait.
pub open spec fn next_delay(delay: int) -> int {
    if delay * RECONNECT_BACKOFF_FACTOR < RECONNECT_MAX_DELAY {
        delay * RECONNECT_BACKOFF_FACTOR
    } else {
        RECONNECT_MAX_DELAY as int
    }
}

/// The wait before the attempt that follows `n` failed ones in a row.
pub open spec fn wait_after(n: nat) -> int
    decreases n,
{
    if n == 0 {
        RECONNECT_FIRST_DELAY as int
    } else {
        next_delay(wait_after((n - 1) as nat))
    }
}

/// Two to the power of `n`.
pub open spec fn doublings(n: nat) -> int
    decreases n,
{
    if n == 0 {
        1
    } else {
        2 * doublings((n - 1) as nat)
    }
}

/// What to do after an attempt, where this wait is due.
pub open spec fn retry_after(delay: int, attempt: Attempt) -> Retry {
    match attempt {
        Attempt::FeedClosed => Retry::After(RECONNECT_FIRST_DELAY),
        Attempt::Unreachable => Retry::After(delay as u64),
        Attempt::ReceiverGone => Retry::Stop,
        Attempt::Unusable => Retry::Stop,
    }
}

/// The wait that is due next after an attempt, where this one was.
pub open spec fn delay_after(delay: int, attempt: Attempt) -> int {
    match attempt {
        Attempt::FeedClosed => next_delay(RECONNECT_FIRST_DELAY as int),
        Attempt::Unreachable => next_delay(delay),
        Attempt::ReceiverGone => RECONNECT_FIRST_DELAY as int,
        Attempt::Unusable => delay,
    }
}

/// The wait that is due after these attempts, in that order.
pub open spec fn delay_after_all(attempts: Seq<Attempt>) -> int
    decreases attempts.len(),
{
    if attempts.len() == 0 {
        RECONNECT_FIRST_DELAY as int
    } else {
        delay_after(delay_after_all(attempts.drop_last()), attempts.last())
    }
}

impl View for Reconnect {
    type V = int;

    /// The wait before the next attempt, in milliseconds.
    closed spec fn view(&self) -> int {
        self.delay as int
    }
}

impl Reconnect {
    #[verifier::type_invariant]
    spec fn inv(self) -> bool {
        RECONNECT_FIRST_DELAY <= self.delay <= RECONNECT_MAX_DELAY
    }

    /// No attempt made yet.
    pub fn new() -> (r: Reconnect)
        ensures
            r@ == RECONNECT_FIRST_DELAY,
    {
        Reconnect { delay: RECONNECT_FIRST_DELAY }
    }

    /// Whether to make an attempt at all: only while there is a receiver.
    pub fn wanted(&self, receiver_gone: bool) -> (r: bool)
        ensures
            r == !receiver_gone,
    {
        !receiver_gone
    }

    /// What to do after an attempt.
    pub fn after(&mut self, attempt: Attempt) -> (r: Retry)
        ensures
            r == retry_after(old(self)@, attempt),
            final(self)@ == delay_after(old(self)@, attempt),
    {
        proof {
            use_type_invariant(&*self);
        }
        match attempt {
            Attempt::FeedClosed => {
                self.delay = RECONNECT_FIRST_DELAY;
            },
            Attempt::ReceiverGone => {
                self.delay = RECONNECT_FIRST_DELAY;
                return Retry::Stop;
            },
            Attempt::Unusable => {
                return Retry::Stop;
            },
            Attempt::Unreachable => {},
        }
        let wait: u64 = self.delay;
        let longer: u64 = wait * RECONNECT_BACKOFF_FACTOR;
        self.delay = if longer < RECONNECT_MAX_DELAY {
            longer
        } else {
            RECONNECT_MAX_DELAY
        };
        Retry::After(wait)
    }
}

/// What reading a socket gave.
#[derive(Clone, Copy, PartialEq, Eq, Structural, Debug)]
pub enum SocketMessage {
    /// A text that is an event.
    Event,
    /// A text that is none.
    Malformed,
    /// A close message.
    Close,
    /// Any other message.
    Other,
    /// An error.
    Failed,
    /// The end of the stream.
    End,
}

/// What to do about it.
#[derive(Clone, Copy, PartialEq, Eq, Structural, Debug)]
pub enum SocketStep {
    /// Read on.
    Read,
    /// Hand the event on; report with `handed_on`.
    HandOn,
    /// The socket is done; another connection may be read.
    Closed,
    /// The receiver is gone, which is the one reason not to read another connection.
    ReceiverGone,
}

/// What to do about what reading a socket gave.
pub fn read_step(message: SocketMessage) -> (r: SocketStep)
    ensures
        r == (match message {
            SocketMessage::Event => SocketStep::HandOn,
            SocketMessage::Malformed => SocketStep::Read,
            SocketMessage::Other => SocketStep::Read,
            SocketMessage::Close => SocketStep::Closed,
            SocketMessage::Failed => SocketStep::Closed,
            SocketMessage::End => SocketStep::Closed,
        }),
{
    match message {
        SocketMessage::Event => SocketStep::HandOn,
        SocketMessage::Malformed => SocketStep::Read,
        SocketMessage::Other => SocketStep::Read,
        SocketMessage::Close => SocketStep::Closed,
        SocketMessage::Failed => SocketStep::Closed,
        SocketMessage::End => SocketStep::Closed,
    }
}

/// What to do once an event has been handed on, or could not be because the receiver is
/// gone.
pub fn handed_on(receiver_gone: bool) -> (r: SocketStep)
    ensures
        r == (if receiver_gone {
            SocketStep::ReceiverGone
        } else {
            SocketStep::Read
        }),
{
    if receiver_gone {
        SocketStep::ReceiverGone
    } else {
        SocketStep::Read
    }
}

/// The wait doubles with each failed attempt in a row until it reaches its limit, and
/// never exceeds it.
pub proof fn law_the_wait_doubles_up_to_its_limit(n: nat)
    ensures
        wait_after(n) == (if RECONNECT_FIRST_DELAY * doublings(n) < RECONNECT_MAX_DELAY {
            RECONNECT_FIRST_DELAY * doublings(n)
        } else {
            RECONNECT_MAX_DELAY as int
        }),
        RECONNECT_FIRST_DELAY <= wait_after(n) <= RECONNECT_MAX_DELAY,
        doublings(n) >= 1,
    decreases n,
{
    if n > 0 {
        law_the_wait_doubles_up_to_its_limit((n - 1) as nat);
    }
}

/// The first wait is a quarter of a second, each later one twice as long as the one before,
/// and none is longer than half a minute.
pub proof fn law_waits_run_from_a_quarter_second_to_half_a_minute(n: nat)
    ensures
        wait_after(0) == 250,
        wait_after(n) <= 30_000,
        2 * wait_after(n) <= 30_000 ==> wait_after(n + 1) == 2 * wait_after(n),
        2 * wait_after(n) > 30_000 ==> wait_after(n + 1) == 30_000,
{
    law_the_wait_doubles_up_to_its_limit(n);
}

proof fn lemma_failures_in_a_row(before: Seq<Attempt>, n: nat)
    requires
        before.len() == 0 || before.last() == Attempt::FeedClosed,
    ensures
        delay_after_all(before + Seq::new(n, |i: int| Attempt::Unreachable)) == wait_after(
            if before.len() == 0 {
                n
            } else {
                n + 1
            },
        ),
    decreases n,
{
    let attempts = before + Seq::new(n, |i: int| Attempt::Unreachable);
    if n > 0 {
        lemma_failures_in_a_row(before, (n - 1) as nat);
        assert(attempts.drop_last() =~= before + Seq::new(
            (n - 1) as nat,
            |i: int| Attempt::Unreachable,
        ));
        assert(attempts.last() == Attempt::Unreachable);
    } else {
        assert(attempts =~= before);
        reveal_with_fuel(wait_after, 2);
    }
}

/// The wait after a failed attempt is set by how many came before it in a row, since the start
/// or since the feed was last read; that one counts as a first wait itself. Whatever came
/// before a feed that was read and closed, it is tried again after the first wait.
pub proof fn law_a_feed_that_was_read_starts_the_waits_over(before: Seq<Attempt>, n: nat)
    requires
        before.len() == 0 || before.last() == Attempt::FeedClosed,
    ensures
        ({
            let attempts = before + Seq::new(n, |i: int| Attempt::Unreachable);
            let failed = if before.len() == 0 {
                n
            } else {
                n + 1
            };
            &&& retry_after(delay_after_all(attempts), Attempt::Unreachable) == Retry::After(
                wait_after(failed) as u64,
            )
            &&& retry_after(delay_after_all(attempts), Attempt::FeedClosed) == Retry::After(250)
            &&& retry_after(delay_after_all(attempts), Attempt::Unusable) == Retry::Stop
            &&& retry_after(delay_after_all(attempts), Attempt::ReceiverGone) == Retry::Stop
        }),
{
    lemma_failures_in_a_row(before, n);
}

} // verus!
