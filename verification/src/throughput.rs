//! Throughput of one phase: the transfer streams and their aggregate rate.
//!
//! A phase runs several streams side by side. Each stream is a small state
//! machine that its own task drives: the task opens the connection, moves
//! data and reports what happened together with the time that has passed
//! since the phase began; the stream answers with what to do next. Streams
//! share nothing. When all of them are closed their byte counts are added up
//! to the rate of the phase.

use crate::error::{MeasureError, ValidationError};
use crate::utils::{duration_in_range, validate_duration, MAX_CONNECTIONS, MIN_CONNECTIONS};
use vstd::prelude::*;

verus! {

/// The direction of a phase.
#[derive(Clone, Copy, Debug, PartialEq, Eq, Structural)]
pub enum Direction {
    /// From the server to the caller.
    Download,
    /// From the caller to the server.
    Upload,
}

/// Where a stream stands.
#[derive(Clone, Copy, Debug, PartialEq, Eq, Structural)]
pub enum StreamPhase {
    /// No connection has been opened yet.
    Pending,
    /// The connection is open and data is moving.
    Open,
    /// The stream has ended and holds no connection.
    Closed,
}

/// What the task of a stream reports.
#[derive(Clone, Copy, Debug, PartialEq, Eq, Structural)]
pub enum StreamEvent {
    /// The connection is open.
    Connected,
    /// The connection could not be opened.
    ConnectFailed,
    /// One piece of transfer work is done and moved this many bytes.
    Transferred { bytes: u64 },
    /// The transfer broke off.
    TransferFailed,
    /// The caller wants the test to end.
    Cancelled,
}

/// What the task of a stream does next.
#[derive(Clone, Copy, Debug, PartialEq, Eq, Structural)]
pub enum StreamAction {
    /// Open the connection.
    Connect,
    /// Do one more piece of transfer work.
    Transfer,
    /// Close the connection; the stream has ended.
    Close,
    /// Nothing: the stream has ended and holds no connection.
    Done,
}

/// A byte count that stops at the largest number it can hold.
pub open spec fn counted(bytes: u64, more: u64) -> u64 {
    if bytes + more > u64::MAX {
        u64::MAX
    } else {
        (bytes + more) as u64
    }
}

/// The state of a stream as a plain value.
pub struct TransferStreamView {
    /// Direction of the phase the stream belongs to.
    pub direction: Direction,
    /// Time after the start of the phase at which the stream ends, in
    /// milliseconds.
    pub deadline_ms: u64,
    /// Bytes moved so far.
    pub bytes: u64,
    /// Where the stream stands.
    pub phase: StreamPhase,
}

impl TransferStreamView {
    /// The deadline has passed.
    pub open spec fn expired(self, elapsed_ms: u64) -> bool {
        elapsed_ms >= self.deadline_ms
    }

    /// With this event the task holds an open connection, whether it had one
    /// before or has just opened it.
    pub open spec fn holds_connection(self, event: StreamEvent) -> bool {
        self.phase is Open || (self.phase is Pending && event is Connected)
    }

    /// The bytes moved once the event is counted. Only an open stream counts
    /// transfers; a stream that breaks off keeps what it has.
    pub open spec fn bytes_after(self, event: StreamEvent) -> u64 {
        match event {
            StreamEvent::Transferred { bytes } if self.phase is Open => counted(self.bytes, bytes),
            _ => self.bytes,
        }
    }

    /// Where the stream stands after an event reported at `elapsed_ms`.
    ///
    /// A closed stream stays closed. Past the deadline every event closes the
    /// stream. Before it, a pending stream opens when it is connected and
    /// ends when it cannot connect; an open stream goes on with each
    /// transfer and ends when the transfer breaks off; a cancelled stream
    /// ends. Any other event is out of turn and changes nothing.
    pub open spec fn phase_after(self, elapsed_ms: u64, event: StreamEvent) -> StreamPhase {
        match self.phase {
            StreamPhase::Closed => StreamPhase::Closed,
            StreamPhase::Pending => if self.expired(elapsed_ms) {
                StreamPhase::Closed
            } else {
                match event {
                    StreamEvent::Connected => StreamPhase::Open,
                    StreamEvent::ConnectFailed | StreamEvent::Cancelled => StreamPhase::Closed,
                    _ => StreamPhase::Pending,
                }
            },
            StreamPhase::Open => if self.expired(elapsed_ms) {
                StreamPhase::Closed
            } else {
                match event {
                    StreamEvent::Transferred { .. } => StreamPhase::Open,
                    StreamEvent::TransferFailed | StreamEvent::Cancelled => StreamPhase::Closed,
                    _ => StreamPhase::Open,
                }
            },
        }
    }

    /// The stream after an event reported at `elapsed_ms`.
    pub open spec fn after(self, elapsed_ms: u64, event: StreamEvent) -> TransferStreamView {
        TransferStreamView {
            bytes: self.bytes_after(event),
            phase: self.phase_after(elapsed_ms, event),
            ..self
        }
    }

    /// What the task does in a state when nothing new has happened.
    pub open spec fn pending_action(self) -> StreamAction {
        match self.phase {
            StreamPhase::Pending => StreamAction::Connect,
            StreamPhase::Open => StreamAction::Transfer,
            StreamPhase::Closed => StreamAction::Done,
        }
    }

    /// What the task does after an event reported at `elapsed_ms`: it goes on
    /// while the stream is not closed, closes the connection it holds when
    /// the stream ends, and otherwise has nothing left to do.
    pub open spec fn action_on(self, elapsed_ms: u64, event: StreamEvent) -> StreamAction {
        let next = self.after(elapsed_ms, event);
        if !(next.phase is Closed) {
            next.pending_action()
        } else if !(self.phase is Closed) && self.holds_connection(event) {
            StreamAction::Close
        } else {
            StreamAction::Done
        }
    }
}

/// One connection that moves data in one direction until its deadline.
pub struct TransferStream {
    direction: Direction,
    deadline_ms: u64,
    bytes: u64,
    phase: StreamPhase,
}

impl View for TransferStream {
    type V = TransferStreamView;

    closed spec fn view(&self) -> TransferStreamView {
        TransferStreamView {
            direction: self.direction,
            deadline_ms: self.deadline_ms,
            bytes: self.bytes,
            phase: self.phase,
        }
    }
}

impl TransferStream {
    /// Plans a stream that ends `duration_secs` seconds after the start of
    /// its phase. A duration out of range is rejected.
    pub fn new(direction: Direction, duration_secs: u64) -> (stream: Result<
        TransferStream,
        MeasureError,
    >)
        ensures
            !duration_in_range(duration_secs) ==> stream == Err::<TransferStream, MeasureError>(
                MeasureError::Validation(ValidationError::Duration),
            ),
            duration_in_range(duration_secs) ==> stream is Ok && stream->Ok_0@ == (
            TransferStreamView {
                direction,
                deadline_ms: (duration_secs * 1000) as u64,
                bytes: 0,
                phase: StreamPhase::Pending,
            }),
    {
        if !validate_duration(duration_secs) {
            Err(MeasureError::Validation(ValidationError::Duration))
        } else {
            Ok(
                TransferStream {
                    direction,
                    deadline_ms: duration_secs * 1000,
                    bytes: 0,
                    phase: StreamPhase::Pending,
                },
            )
        }
    }

    /// The direction of the stream.
    pub fn direction(&self) -> (direction: Direction)
        ensures
            direction == self@.direction,
    {
        self.direction
    }

    /// The bytes moved so far.
    pub fn bytes(&self) -> (bytes: u64)
        ensures
            bytes == self@.bytes,
    {
        self.bytes
    }

    /// Whether the stream has ended.
    pub fn is_closed(&self) -> (closed: bool)
        ensures
            closed == (self@.phase is Closed),
    {
        match self.phase {
            StreamPhase::Closed => true,
            _ => false,
        }
    }

    /// What the task does when nothing new has happened: at the start, open
    /// the connection.
    pub fn pending_action(&self) -> (action: StreamAction)
        ensures
            action == self@.pending_action(),
    {
        match self.phase {
            StreamPhase::Pending => StreamAction::Connect,
            StreamPhase::Open => StreamAction::Transfer,
            StreamPhase::Closed => StreamAction::Done,
        }
    }

    /// Takes note of an event that the task reports `elapsed_ms` milliseconds
    /// after the start of the phase, and says what the task does next.
    pub fn step(self, elapsed_ms: u64, event: StreamEvent) -> (next: (TransferStream, StreamAction))
        ensures
            next.0@ == self@.after(elapsed_ms, event),
            next.1 == self@.action_on(elapsed_ms, event),
    {
        let expired: bool = elapsed_ms >= self.deadline_ms;
        let bytes: u64 = match (self.phase, event) {
            (StreamPhase::Open, StreamEvent::Transferred { bytes: more }) => {
                if more > u64::MAX - self.bytes {
                    u64::MAX
                } else {
                    self.bytes + more
                }
            },
            _ => self.bytes,
        };
        let phase: StreamPhase = match self.phase {
            StreamPhase::Closed => StreamPhase::Closed,
            StreamPhase::Pending => {
                if expired {
                    StreamPhase::Closed
                } else {
                    match event {
                        StreamEvent::Connected => StreamPhase::Open,
                        StreamEvent::ConnectFailed => StreamPhase::Closed,
                        StreamEvent::Cancelled => StreamPhase::Closed,
                        _ => StreamPhase::Pending,
                    }
                }
            },
            StreamPhase::Open => {
                if expired {
                    StreamPhase::Closed
                } else {
                    match event {
                        StreamEvent::TransferFailed => StreamPhase::Closed,
                        StreamEvent::Cancelled => StreamPhase::Closed,
                        _ => StreamPhase::Open,
                    }
                }
            },
        };
        let held: bool = match (self.phase, event) {
            (StreamPhase::Open, _) => true,
            (StreamPhase::Pending, StreamEvent::Connected) => true,
            _ => false,
        };
        let action: StreamAction = match phase {
            StreamPhase::Pending => StreamAction::Connect,
            StreamPhase::Open => StreamAction::Transfer,
            StreamPhase::Closed => {
                if held {
                    StreamAction::Close
                } else {
                    StreamAction::Done
                }
            },
        };
        (
            TransferStream { direction: self.direction, deadline_ms: self.deadline_ms, bytes, phase },
            action,
        )
    }
}

/// A stream never loses bytes it has counted, and never changes its
/// direction or its deadline.
pub proof fn lemma_stream_keeps_its_bytes(
    stream: TransferStreamView,
    elapsed_ms: u64,
    event: StreamEvent,
)
    ensures
        stream.after(elapsed_ms, event).bytes >= stream.bytes,
        stream.after(elapsed_ms, event).direction == stream.direction,
        stream.after(elapsed_ms, event).deadline_ms == stream.deadline_ms,
        !(event is Transferred) ==> stream.after(elapsed_ms, event).bytes == stream.bytes,
{
}

/// Once the deadline has passed a stream is closed by whatever is reported
/// next, and is never told to connect or to transfer again.
pub proof fn lemma_stream_ends_at_deadline(
    stream: TransferStreamView,
    elapsed_ms: u64,
    event: StreamEvent,
)
    requires
        stream.expired(elapsed_ms),
    ensures
        stream.after(elapsed_ms, event).phase is Closed,
        stream.action_on(elapsed_ms, event) is Close || stream.action_on(elapsed_ms, event) is Done,
{
}

/// A stream is told to close its connection exactly when it ends while its
/// task holds one: no connection is left open and none is closed twice.
pub proof fn lemma_stream_closes_what_it_holds(
    stream: TransferStreamView,
    elapsed_ms: u64,
    event: StreamEvent,
)
    ensures
        stream.action_on(elapsed_ms, event) is Close <==> !(stream.phase is Closed)
            && stream.holds_connection(event) && stream.after(elapsed_ms, event).phase is Closed,
        stream.after(elapsed_ms, event).phase is Open ==> stream.holds_connection(event),
{
}

/// A closed stream stays as it is and asks for nothing.
pub proof fn lemma_closed_stream_is_final(
    stream: TransferStreamView,
    elapsed_ms: u64,
    event: StreamEvent,
)
    requires
        stream.phase is Closed,
    ensures
        stream.after(elapsed_ms, event) == stream,
        stream.action_on(elapsed_ms, event) is Done,
{
}

/// A stream that fails, be it on connecting or in the middle of a transfer,
/// ends with the bytes it had moved until then.
pub proof fn lemma_failed_stream_keeps_its_share(
    stream: TransferStreamView,
    elapsed_ms: u64,
    event: StreamEvent,
)
    requires
        !(stream.phase is Closed),
        event is ConnectFailed && stream.phase is Pending || event is TransferFailed
            && stream.phase is Open,
    ensures
        stream.after(elapsed_ms, event).phase is Closed,
        stream.after(elapsed_ms, event).bytes == stream.bytes,
{
}

/// The stream after a sequence of events, each with the time at which it was
/// reported, taken in order.
pub open spec fn stream_after_all(
    stream: TransferStreamView,
    events: Seq<(u64, StreamEvent)>,
) -> TransferStreamView
    decreases events.len(),
{
    if events.len() == 0 {
        stream
    } else {
        stream_after_all(stream, events.drop_last()).after(events.last().0, events.last().1)
    }
}

/// Whatever a stream is told, and however long its task goes on telling: it
/// keeps its direction and its deadline, it never counts fewer bytes than it
/// began with, and it is closed once any one event was reported at or after
/// the deadline.
pub proof fn lemma_stream_is_bound_by_its_deadline(
    stream: TransferStreamView,
    events: Seq<(u64, StreamEvent)>,
)
    ensures
        stream_after_all(stream, events).direction == stream.direction,
        stream_after_all(stream, events).deadline_ms == stream.deadline_ms,
        stream_after_all(stream, events).bytes >= stream.bytes,
        stream.phase is Closed ==> stream_after_all(stream, events) == stream,
        (exists|i: int| 0 <= i < events.len() && stream.expired((#[trigger] events[i]).0))
            ==> stream_after_all(stream, events).phase is Closed,
    decreases events.len(),
{
    if events.len() > 0 {
        let before = events.drop_last();
        lemma_stream_is_bound_by_its_deadline(stream, before);
        let reached = stream_after_all(stream, before);
        lemma_stream_keeps_its_bytes(reached, events.last().0, events.last().1);
        if exists|i: int| 0 <= i < events.len() && stream.expired((#[trigger] events[i]).0) {
            let i = choose|i: int| 0 <= i < events.len() && stream.expired((#[trigger] events[i]).0);
            if i < before.len() {
                assert(before[i] == events[i]);
                lemma_closed_stream_is_final(reached, events.last().0, events.last().1);
            } else {
                lemma_stream_ends_at_deadline(reached, events.last().0, events.last().1);
            }
        }
    }
}

/// Sum of the byte counts of the streams of a phase.
pub open spec fn total_bytes(stream_bytes: Seq<u64>) -> int
    decreases stream_bytes.len(),
{
    if stream_bytes.len() == 0 {
        0
    } else {
        total_bytes(stream_bytes.drop_last()) + stream_bytes.last()
    }
}

/// The rate of a phase in bits per second: all bytes times eight, divided by
/// the duration in seconds and rounded down. A rate beyond the largest
/// number of 64 bits is given as that number.
pub open spec fn rate_of(bytes: int, duration_secs: int) -> int {
    let exact = (bytes * 8) / duration_secs;
    if exact > u64::MAX {
        u64::MAX as int
    } else {
        exact
    }
}

/// A rate is a natural number of 64 bits, and it is zero exactly where the
/// phase moved fewer bits than it lasted seconds.
pub proof fn lemma_rate_in_range(stream_bytes: Seq<u64>, duration_secs: int)
    requires
        duration_secs > 0,
    ensures
        0 <= total_bytes(stream_bytes),
        0 <= rate_of(total_bytes(stream_bytes), duration_secs) <= u64::MAX,
        rate_of(total_bytes(stream_bytes), duration_secs) == 0 <==> total_bytes(stream_bytes) * 8
            < duration_secs,
    decreases stream_bytes.len(),
{
    if stream_bytes.len() > 0 {
        lemma_rate_in_range(stream_bytes.drop_last(), duration_secs);
    }
    let bits = total_bytes(stream_bytes) * 8;
    assert(0 <= bits / duration_secs && (bits / duration_secs == 0 <==> bits < duration_secs))
        by (nonlinear_arith)
        requires
            bits >= 0,
            duration_secs > 0,
    ;
}

/// What is wrong with the parameters of a phase, if anything. The duration
/// is looked at first.
pub open spec fn phase_fault(duration_secs: u64, connections: int) -> Option<ValidationError> {
    if !duration_in_range(duration_secs) {
        Some(ValidationError::Duration)
    } else if !(MIN_CONNECTIONS <= connections <= MAX_CONNECTIONS) {
        Some(ValidationError::Connections)
    } else {
        None
    }
}

/// Combines the byte counts of the streams of one phase, one count for each
/// stream, into the rate of the phase in bits per second.
///
/// The phase must have run for 5 to 300 seconds over 1 to 16 streams.
pub fn aggregate_rate(stream_bytes: &Vec<u64>, duration_secs: u64) -> (rate: Result<
    u64,
    MeasureError,
>)
    ensures
        phase_fault(duration_secs, stream_bytes@.len() as int) matches Some(fault) ==> rate == Err::<
            u64,
            MeasureError,
        >(MeasureError::Validation(fault)),
        phase_fault(duration_secs, stream_bytes@.len() as int) is None ==> rate is Ok
            && rate->Ok_0 == rate_of(total_bytes(stream_bytes@), duration_secs as int),
{
    if !validate_duration(duration_secs) {
        return Err(MeasureError::Validation(ValidationError::Duration));
    }
    if stream_bytes.len() < MIN_CONNECTIONS as usize || stream_bytes.len() > MAX_CONNECTIONS as usize {
        return Err(MeasureError::Validation(ValidationError::Connections));
    }
    let mut total: u128 = 0;
    let mut i: usize = 0;
    while i < stream_bytes.len()
        invariant
            i <= stream_bytes@.len() <= MAX_CONNECTIONS,
            total == total_bytes(stream_bytes@.take(i as int)),
            total <= i * u64::MAX,
        decreases stream_bytes@.len() - i,
    {
        assert(stream_bytes@.take(i + 1).drop_last() =~= stream_bytes@.take(i as int));
        total = total + stream_bytes[i] as u128;
        i += 1;
    }
    assert(stream_bytes@.take(i as int) =~= stream_bytes@);
    let exact: u128 = (total * 8) / (duration_secs as u128);
    if exact > u64::MAX as u128 {
        Ok(u64::MAX)
    } else {
        Ok(exact as u64)
    }
}

/// The byte counts of the streams of a phase, stream by stream.
pub open spec fn bytes_of(streams: Seq<TransferStreamView>) -> Seq<u64> {
    Seq::new(streams.len(), |i: int| streams[i].bytes)
}

/// The states of the streams of a phase as plain values.
pub open spec fn stream_views(streams: Seq<TransferStream>) -> Seq<TransferStreamView> {
    Seq::new(streams.len(), |i: int| streams[i]@)
}

/// One phase: a number of streams in one direction that share a deadline.
pub struct ThroughputAggregator {
    direction: Direction,
    duration_secs: u64,
    connections: u32,
}

/// The parameters of a phase as a plain value.
pub struct PhaseView {
    /// Direction of all streams.
    pub direction: Direction,
    /// Time that the phase lasts, in seconds.
    pub duration_secs: u64,
    /// Number of streams.
    pub connections: u32,
}

impl PhaseView {
    /// A stream of the phase before it has begun.
    pub open spec fn fresh_stream(self) -> TransferStreamView {
        TransferStreamView {
            direction: self.direction,
            deadline_ms: (self.duration_secs * 1000) as u64,
            bytes: 0,
            phase: StreamPhase::Pending,
        }
    }

    /// The stream is one of the phase and has ended.
    pub open spec fn joined(self, stream: TransferStreamView) -> bool {
        &&& stream.direction == self.direction
        &&& stream.deadline_ms == self.duration_secs * 1000
        &&& stream.phase is Closed
    }

    /// The streams are those of the phase and the phase is complete: they
    /// are as many as there are connections, and each of them has ended.
    pub open spec fn complete(self, streams: Seq<TransferStreamView>) -> bool {
        &&& streams.len() == self.connections
        &&& forall|i: int| 0 <= i < streams.len() ==> self.joined(#[trigger] streams[i])
    }

    /// The rate of the phase in bits per second, given its streams.
    pub open spec fn rate(self, streams: Seq<TransferStreamView>) -> int {
        rate_of(total_bytes(bytes_of(streams)), self.duration_secs as int)
    }
}

impl View for ThroughputAggregator {
    type V = PhaseView;

    closed spec fn view(&self) -> PhaseView {
        PhaseView {
            direction: self.direction,
            duration_secs: self.duration_secs,
            connections: self.connections,
        }
    }
}

impl ThroughputAggregator {
    #[verifier::type_invariant]
    closed spec fn in_range(self) -> bool {
        phase_fault(self.duration_secs, self.connections as int) is None
    }

    /// Plans a phase of 5 to 300 seconds over 1 to 16 connections; anything
    /// else is rejected.
    pub fn new(direction: Direction, duration_secs: u64, connections: u32) -> (phase: Result<
        ThroughputAggregator,
        MeasureError,
    >)
        ensures
            phase_fault(duration_secs, connections as int) matches Some(fault) ==> phase == Err::<
                ThroughputAggregator,
                MeasureError,
            >(MeasureError::Validation(fault)),
            phase_fault(duration_secs, connections as int) is None ==> phase is Ok
                && phase->Ok_0@ == (PhaseView { direction, duration_secs, connections }),
    {
        if !validate_duration(duration_secs) {
            Err(MeasureError::Validation(ValidationError::Duration))
        } else if connections < MIN_CONNECTIONS || connections > MAX_CONNECTIONS {
            Err(MeasureError::Validation(ValidationError::Connections))
        } else {
            Ok(ThroughputAggregator { direction, duration_secs, connections })
        }
    }

    /// The streams of the phase, one for each connection, all with the same
    /// direction and the same deadline and none begun.
    pub fn launch(&self) -> (streams: Vec<TransferStream>)
        ensures
            streams@.len() == self@.connections,
            forall|i: int| 0 <= i < streams@.len() ==> (#[trigger] streams@[i])@ == self@.fresh_stream(),
            phase_fault(self@.duration_secs, self@.connections as int) is None,
    {
        proof {
            use_type_invariant(self);
        }
        let mut streams: Vec<TransferStream> = Vec::new();
        let mut i: u32 = 0;
        while i < self.connections
            invariant
                i <= self.connections,
                streams@.len() == i,
                duration_in_range(self.duration_secs),
                forall|k: int|
                    0 <= k < streams@.len() ==> (#[trigger] streams@[k])@ == self@.fresh_stream(),
            decreases self.connections - i,
        {
            streams.push(
                TransferStream {
                    direction: self.direction,
                    deadline_ms: self.duration_secs * 1000,
                    bytes: 0,
                    phase: StreamPhase::Pending,
                },
            );
            i += 1;
        }
        streams
    }

    /// The rate of the phase in bits per second, once every stream has ended.
    /// While a stream is still running, or where the streams are not those of
    /// the phase, one for each connection, there is no rate.
    pub fn join(&self, streams: &Vec<TransferStream>) -> (rate: Option<u64>)
        ensures
            !self@.complete(stream_views(streams@)) ==> rate is None,
            self@.complete(stream_views(streams@)) ==> rate is Some && rate->0 == self@.rate(
                stream_views(streams@),
            ),
    {
        proof {
            use_type_invariant(self);
        }
        if streams.len() != self.connections as usize {
            return None;
        }
        let deadline_ms: u64 = self.duration_secs * 1000;
        let mut counts: Vec<u64> = Vec::new();
        let mut i: usize = 0;
        while i < streams.len()
            invariant
                i <= streams@.len(),
                deadline_ms == self.duration_secs * 1000,
                counts@ == bytes_of(stream_views(streams@)).take(i as int),
                forall|k: int| 0 <= k < i ==> self@.joined(#[trigger] stream_views(streams@)[k]),
            decreases streams@.len() - i,
        {
            let stream = &streams[i];
            if !stream.is_closed() || stream.direction != self.direction || stream.deadline_ms
                != deadline_ms {
                assert(!self@.joined(stream_views(streams@)[i as int]));
                return None;
            }
            counts.push(streams[i].bytes());
            assert(counts@ =~= bytes_of(stream_views(streams@)).take(i + 1));
            i += 1;
        }
        assert(counts@ =~= bytes_of(stream_views(streams@)));
        match aggregate_rate(&counts, self.duration_secs) {
            Ok(rate) => Some(rate),
            Err(_) => None,
        }
    }
}

} // verus!
