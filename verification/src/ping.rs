//! Latency probing: a run of echo probes sent one after the other.
//!
//! The run itself sends nothing. It tells its caller when to send the next
//! probe and with what timeout, is told how each probe ended, and reduces the
//! round-trip times of the answered probes to a result.

use crate::error::{MeasureError, ValidationError};
use crate::statistics::{calculate_statistics, statistics_of, Statistics};
use crate::utils::{calculate_percentage, percentage_of};
use vstd::prelude::*;

verus! {

/// The outcome of a run of probes. Times are in microseconds.
///
/// Where no probe was answered `packet_loss` is 100 and `avg_ping`,
/// `min_ping`, `max_ping` and `jitter` are all 0: the latency fields carry a
/// measurement exactly when `packet_loss` is below 100.
#[derive(Clone, Copy, Debug, PartialEq, Eq)]
pub struct PingResult {
    /// Mean round-trip time of the answered probes.
    pub avg_ping: u32,
    /// Shortest round-trip time.
    pub min_ping: u32,
    /// Longest round-trip time.
    pub max_ping: u32,
    /// Mean distance between the round-trip times of consecutive answered
    /// probes, in the order in which they were sent.
    pub jitter: u32,
    /// Share of the probes sent that were not answered in time, in percent.
    pub packet_loss: u8,
    /// Number of probes asked for, however many were answered.
    pub packet_count: u32,
}

/// How one probe ended.
#[derive(Clone, Copy, Debug, PartialEq, Eq, Structural)]
pub enum ProbeOutcome {
    /// An answer arrived after `rtt_us` microseconds.
    Reply { rtt_us: u64 },
    /// No answer arrived, or the probe could not be sent.
    Lost,
}

/// What the caller of a run does next.
#[derive(Clone, Copy, Debug, PartialEq, Eq, Structural)]
pub enum ProbeAction {
    /// Send one probe and wait for its answer for at most `timeout_us`
    /// microseconds.
    Send { timeout_us: u32 },
    /// All probes have been sent: take the result.
    Finish,
}

/// The share of probes that went unanswered, in percent: 100 where none was
/// answered, else `100 * (sent - received) / sent` kept within 0 to 100.
pub open spec fn packet_loss_of(sent: int, received: int) -> int {
    if received <= 0 {
        100
    } else if received >= sent {
        0
    } else {
        percentage_of(sent - received, sent)
    }
}

/// The result of a run in which `sent` of `packet_count` probes were sent and
/// the answered ones took `replies`, in the order of sending.
pub open spec fn ping_result_of(packet_count: u32, sent: int, replies: Seq<u32>) -> PingResult {
    let stats = statistics_of(replies);
    PingResult {
        avg_ping: stats.mean,
        min_ping: stats.min,
        max_ping: stats.max,
        jitter: stats.jitter,
        packet_loss: packet_loss_of(sent, replies.len() as int) as u8,
        packet_count,
    }
}

/// Packet loss is a percentage.
pub proof fn lemma_packet_loss_is_percentage(sent: int, received: int)
    ensures
        0 <= packet_loss_of(sent, received) <= 100,
        received <= 0 ==> packet_loss_of(sent, received) == 100,
        0 < sent <= received ==> packet_loss_of(sent, received) == 0,
{
    if 0 < received < sent {
        assert(0 <= ((sent - received) * 100) / sent <= 100) by (nonlinear_arith)
            requires
                0 < received < sent,
        ;
    }
}

/// Computes the share of unanswered probes in percent.
pub fn packet_loss(sent: u32, received: u32) -> (loss: u8)
    ensures
        loss == packet_loss_of(sent as int, received as int),
        loss <= 100,
{
    proof {
        lemma_packet_loss_is_percentage(sent as int, received as int);
    }
    if received == 0 {
        100
    } else if received >= sent {
        0
    } else {
        calculate_percentage((sent - received) as u64, sent as u64) as u8
    }
}

/// The state of a run as a plain value.
pub struct ProbeRunView {
    /// Number of probes asked for.
    pub packet_count: u32,
    /// Longest wait for one answer, in microseconds.
    pub timeout_us: u32,
    /// Number of probes whose outcome is known.
    pub sent: nat,
    /// Round-trip times of the answered probes, in the order of sending.
    pub replies: Seq<u32>,
}

impl ProbeRunView {
    /// The run has room for another probe.
    pub open spec fn unfinished(self) -> bool {
        self.sent < self.packet_count
    }

    /// What the caller does in this state.
    pub open spec fn action(self) -> ProbeAction {
        if self.unfinished() {
            ProbeAction::Send { timeout_us: self.timeout_us }
        } else {
            ProbeAction::Finish
        }
    }

    /// An outcome counts as an answer when it arrived within the timeout.
    pub open spec fn answered(self, outcome: ProbeOutcome) -> bool {
        outcome matches ProbeOutcome::Reply { rtt_us } && rtt_us <= self.timeout_us
    }

    /// The state after one more probe ended with `outcome`. An answer that
    /// took longer than the timeout counts as lost. Once all probes are sent
    /// further outcomes change nothing.
    pub open spec fn after(self, outcome: ProbeOutcome) -> ProbeRunView {
        if !self.unfinished() {
            self
        } else if self.answered(outcome) {
            ProbeRunView {
                sent: self.sent + 1,
                replies: self.replies.push(outcome->rtt_us as u32),
                ..self
            }
        } else {
            ProbeRunView { sent: self.sent + 1, ..self }
        }
    }

    /// The result of the run as it stands.
    pub open spec fn result(self) -> PingResult {
        ping_result_of(self.packet_count, self.sent as int, self.replies)
    }
}

/// A run of `packet_count` probes, sent one after the other.
pub struct ProbeRun {
    packet_count: u32,
    timeout_us: u32,
    sent: u32,
    replies: Vec<u32>,
}

impl View for ProbeRun {
    type V = ProbeRunView;

    closed spec fn view(&self) -> ProbeRunView {
        ProbeRunView {
            packet_count: self.packet_count,
            timeout_us: self.timeout_us,
            sent: self.sent as nat,
            replies: self.replies@,
        }
    }
}

impl ProbeRun {
    #[verifier::type_invariant]
    closed spec fn consistent(self) -> bool {
        run_is_sound(self@)
    }

    /// Plans a run. A run of no probes is rejected.
    pub fn new(packet_count: u32, timeout_us: u32) -> (run: Result<ProbeRun, MeasureError>)
        ensures
            packet_count == 0 ==> run == Err::<ProbeRun, MeasureError>(
                MeasureError::Validation(ValidationError::PacketCount),
            ),
            packet_count > 0 ==> run is Ok && run->Ok_0@ == (ProbeRunView {
                packet_count,
                timeout_us,
                sent: 0,
                replies: Seq::empty(),
            }),
    {
        if packet_count == 0 {
            Err(MeasureError::Validation(ValidationError::PacketCount))
        } else {
            Ok(ProbeRun { packet_count, timeout_us, sent: 0, replies: Vec::new() })
        }
    }

    /// Number of probes asked for.
    pub fn packet_count(&self) -> (count: u32)
        ensures
            count == self@.packet_count,
            run_is_sound(self@),
    {
        proof {
            use_type_invariant(self);
        }
        self.packet_count
    }

    /// Number of probes whose outcome is known.
    pub fn sent(&self) -> (count: u32)
        ensures
            count == self@.sent,
            count <= self@.packet_count,
    {
        proof {
            use_type_invariant(self);
        }
        self.sent
    }

    /// Number of probes that were answered in time.
    pub fn received(&self) -> (count: u32)
        ensures
            count == self@.replies.len(),
            count <= self@.sent,
    {
        proof {
            use_type_invariant(self);
        }
        self.replies.len() as u32
    }

    /// What the caller does next.
    pub fn next_action(&self) -> (action: ProbeAction)
        ensures
            action == self@.action(),
    {
        if self.sent < self.packet_count {
            ProbeAction::Send { timeout_us: self.timeout_us }
        } else {
            ProbeAction::Finish
        }
    }

    /// Takes note of how the probe that was sent last ended, and says what
    /// the caller does next.
    pub fn record(self, outcome: ProbeOutcome) -> (next: (ProbeRun, ProbeAction))
        ensures
            next.0@ == self@.after(outcome),
            next.1 == next.0@.action(),
    {
        proof {
            use_type_invariant(&self);
        }
        if self.sent < self.packet_count {
            let mut replies = self.replies;
            match outcome {
                ProbeOutcome::Reply { rtt_us } => {
                    if rtt_us <= self.timeout_us as u64 {
                        replies.push(rtt_us as u32);
                    }
                },
                ProbeOutcome::Lost => {},
            }
            let run = ProbeRun {
                packet_count: self.packet_count,
                timeout_us: self.timeout_us,
                sent: self.sent + 1,
                replies,
            };
            let action = run.next_action();
            (run, action)
        } else {
            let action = self.next_action();
            (self, action)
        }
    }

    /// The result of the run: the statistics of the answered probes and the
    /// share of the others among those sent.
    pub fn finish(&self) -> (result: PingResult)
        ensures
            result == self@.result(),
            result.packet_count == self@.packet_count,
            result.packet_loss <= 100,
            self@.replies.len() == 0 ==> result.packet_loss == 100 && result.avg_ping == 0
                && result.min_ping == 0 && result.max_ping == 0 && result.jitter == 0,
            self@.replies.len() > 0 ==> result.min_ping <= result.avg_ping <= result.max_ping,
    {
        proof {
            use_type_invariant(self);
        }
        let stats: Statistics = calculate_statistics(&self.replies);
        PingResult {
            avg_ping: stats.mean,
            min_ping: stats.min,
            max_ping: stats.max,
            jitter: stats.jitter,
            packet_loss: packet_loss(self.sent, self.replies.len() as u32),
            packet_count: self.packet_count,
        }
    }
}

/// The state of a run after a sequence of outcomes, taken in order.
pub open spec fn after_all(run: ProbeRunView, outcomes: Seq<ProbeOutcome>) -> ProbeRunView
    decreases outcomes.len(),
{
    if outcomes.len() == 0 {
        run
    } else {
        after_all(run, outcomes.drop_last()).after(outcomes.last())
    }
}

/// The state of a run that has not begun.
pub open spec fn initial_run(packet_count: u32, timeout_us: u32) -> ProbeRunView {
    ProbeRunView { packet_count, timeout_us, sent: 0, replies: Seq::empty() }
}

/// Reduces the outcomes of a run of probes, given in the order of sending, to
/// the result of the run. A run of no probes is rejected. Outcomes beyond the
/// number of probes asked for are not looked at.
pub fn summarize_probes(packet_count: u32, timeout_us: u32, outcomes: &Vec<ProbeOutcome>) -> (result:
    Result<PingResult, MeasureError>)
    ensures
        packet_count == 0 ==> result == Err::<PingResult, MeasureError>(
            MeasureError::Validation(ValidationError::PacketCount),
        ),
        packet_count > 0 ==> result == Ok::<PingResult, MeasureError>(
            after_all(initial_run(packet_count, timeout_us), outcomes@).result(),
        ),
{
    match ProbeRun::new(packet_count, timeout_us) {
        Err(error) => Err(error),
        Ok(planned) => {
            let mut run = planned;
            let mut i: usize = 0;
            while i < outcomes.len()
                invariant
                    i <= outcomes@.len(),
                    run@ == after_all(
                        initial_run(packet_count, timeout_us),
                        outcomes@.take(i as int),
                    ),
                decreases outcomes@.len() - i,
            {
                assert(outcomes@.take(i + 1).drop_last() =~= outcomes@.take(i as int));
                let next = run.record(outcomes[i]);
                run = next.0;
                i += 1;
            }
            assert(outcomes@.take(i as int) =~= outcomes@);
            Ok(run.finish())
        },
    }
}

/// An answer that comes after the timeout is worth as much as none.
pub proof fn lemma_late_reply_is_lost(run: ProbeRunView, rtt_us: u64)
    requires
        rtt_us > run.timeout_us,
    ensures
        run.after(ProbeOutcome::Reply { rtt_us }) == run.after(ProbeOutcome::Lost),
{
}

/// What holds of every run: no more probes are sent than were asked for, no
/// more are answered than were sent, and no answer took longer than the
/// timeout.
pub open spec fn run_is_sound(run: ProbeRunView) -> bool {
    &&& run.sent <= run.packet_count
    &&& run.replies.len() <= run.sent
    &&& forall|i: int| 0 <= i < run.replies.len() ==> #[trigger] run.replies[i] <= run.timeout_us
}

/// Each outcome counts as one probe sent, answered or not, until the run is
/// complete; the run stays sound and keeps its parameters.
pub proof fn lemma_run_counts_each_probe(run: ProbeRunView, outcome: ProbeOutcome)
    requires
        run_is_sound(run),
    ensures
        run_is_sound(run.after(outcome)),
        run.after(outcome).packet_count == run.packet_count,
        run.after(outcome).timeout_us == run.timeout_us,
        run.unfinished() ==> run.after(outcome).sent == run.sent + 1,
        !run.unfinished() ==> run.after(outcome) == run,
        run.answered(outcome) && run.unfinished() ==> run.after(outcome).replies.len()
            == run.replies.len() + 1,
        !run.answered(outcome) ==> run.after(outcome).replies == run.replies,
{
}

/// A run of `packet_count` probes is complete after that many outcomes, and
/// not before.
pub proof fn lemma_run_completes(packet_count: u32, timeout_us: u32, outcomes: Seq<ProbeOutcome>)
    ensures
        run_is_sound(after_all(initial_run(packet_count, timeout_us), outcomes)),
        after_all(initial_run(packet_count, timeout_us), outcomes).packet_count == packet_count,
        after_all(initial_run(packet_count, timeout_us), outcomes).timeout_us == timeout_us,
        after_all(initial_run(packet_count, timeout_us), outcomes).sent == if outcomes.len()
            <= packet_count {
            outcomes.len()
        } else {
            packet_count as nat
        },
        after_all(initial_run(packet_count, timeout_us), outcomes).action() is Finish
            <==> outcomes.len() >= packet_count,
    decreases outcomes.len(),
{
    if outcomes.len() > 0 {
        lemma_run_completes(packet_count, timeout_us, outcomes.drop_last());
        lemma_run_counts_each_probe(
            after_all(initial_run(packet_count, timeout_us), outcomes.drop_last()),
            outcomes.last(),
        );
    }
}

} // verus!
