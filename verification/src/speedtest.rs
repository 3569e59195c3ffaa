//! The speed test: one run from the choice of a server to the result.
//!
//! A run is a state machine. It is created from validated parameters, asks
//! its caller for one thing at a time and is told how that went: first the
//! listing of the server directory, then the byte counts of the download
//! phase, then those of the upload phase, at last one latency sample. It
//! ends with exactly one result or one error.

use crate::catalog::{closer, listing_fault, listing_view, Server, ServerCatalog};
use crate::error::{MeasureError, NetworkError, ValidationError};
use crate::throughput::{
    aggregate_rate, lemma_rate_in_range, phase_fault, rate_of, total_bytes, Direction,
};
use crate::utils::{validate_connections, validate_duration};
use vstd::prelude::*;

verus! {

/// The result of a speed test. Rates are in bits per second, the latency in
/// microseconds.
#[derive(Debug, PartialEq, Eq)]
pub struct TestResult {
    /// Download rate; 0 exactly when the download phase was skipped.
    pub download_speed: u64,
    /// Upload rate; 0 exactly when the upload phase was skipped.
    pub upload_speed: u64,
    /// Baseline latency to the server; 0 where the sample was lost.
    pub ping: u32,
    /// Identifier of the server measured against.
    pub server_id: u32,
    /// Name of that server.
    pub server_name: String,
    /// Place of that server.
    pub server_location: String,
}

impl Clone for TestResult {
    fn clone(&self) -> (copy: TestResult)
        ensures
            copy == *self,
    {
        TestResult {
            download_speed: self.download_speed,
            upload_speed: self.upload_speed,
            ping: self.ping,
            server_id: self.server_id,
            server_name: self.server_name.clone(),
            server_location: self.server_location.clone(),
        }
    }
}

/// The step a run is at.
#[derive(Clone, Copy, Debug, PartialEq, Eq, Structural)]
pub enum TestStage {
    /// Waiting for the listing of the server directory.
    SelectServer,
    /// Waiting for the download phase to complete.
    Download,
    /// Waiting for the upload phase to complete.
    Upload,
    /// Waiting for the latency sample.
    Baseline,
}

/// What the caller of a run reports.
#[derive(Debug)]
pub enum TestEvent {
    /// The answer of the server directory, or `None` where it gave none.
    Directory(Option<Vec<Server>>),
    /// All streams of the running phase have ended; the bytes each of them
    /// moved, one count for each connection.
    PhaseCompleted(Vec<u64>),
    /// The latency sample in microseconds, or `None` where it was lost.
    Baseline(Option<u32>),
}

/// What the caller of a run does next.
#[derive(Clone, Copy, Debug, PartialEq, Eq, Structural)]
pub enum TestAction {
    /// Ask the server directory for its listing.
    FetchDirectory,
    /// Run one phase against the chosen server and wait for all its streams.
    RunPhase { direction: Direction, duration_secs: u64, connections: u32, server_id: u32 },
    /// Take one latency sample against the chosen server.
    ProbeLatency { server_id: u32 },
}

/// The state of a run as a plain value.
pub struct SpeedTestView {
    /// Duration of each phase, in seconds.
    pub duration_secs: u64,
    /// Number of connections of each phase.
    pub connections: u32,
    /// The download phase is left out.
    pub skip_download: bool,
    /// The upload phase is left out.
    pub skip_upload: bool,
    /// The step the run is at.
    pub stage: TestStage,
    /// The server chosen, once there is one.
    pub server: Option<Server>,
    /// Download rate measured so far.
    pub download_speed: u64,
    /// Upload rate measured so far.
    pub upload_speed: u64,
}

/// How a step of a run ends, as a plain value.
pub enum TestOutcome {
    /// The run goes on in this state.
    Continue(SpeedTestView),
    /// The run is over.
    Return(Result<TestResult, MeasureError>),
}

/// `server` is the best-ranked server of a listing.
pub open spec fn is_nearest_of(server: Server, listing: Seq<Server>) -> bool {
    &&& listing.contains(server)
    &&& forall|k: int|
        0 <= k < listing.len() ==> server == listing[k] || closer(server, #[trigger] listing[k])
}

/// The best-ranked server of a listing.
pub open spec fn nearest_of(listing: Seq<Server>) -> Server {
    choose|server: Server| is_nearest_of(server, listing)
}

/// A listing has at most one best-ranked server.
pub proof fn lemma_nearest_is_unique(listing: Seq<Server>, server: Server)
    requires
        is_nearest_of(server, listing),
    ensures
        nearest_of(listing) == server,
{
    let other = nearest_of(listing);
    assert(is_nearest_of(other, listing));
    let k = listing.index_of(server);
    let j = listing.index_of(other);
    assert(other == listing[k] || closer(other, listing[k]));
    assert(server == listing[j] || closer(server, listing[j]));
}

impl SpeedTestView {
    /// The state of a run that has not begun.
    pub open spec fn initial(
        duration_secs: u64,
        connections: u32,
        skip_download: bool,
        skip_upload: bool,
    ) -> SpeedTestView {
        SpeedTestView {
            duration_secs,
            connections,
            skip_download,
            skip_upload,
            stage: TestStage::SelectServer,
            server: None,
            download_speed: 0,
            upload_speed: 0,
        }
    }

    /// What holds of every run: its parameters are in range, it has a server
    /// from the first phase on, and a rate is zero exactly as long as its
    /// phase has not been run.
    pub open spec fn consistent(self) -> bool {
        &&& phase_fault(self.duration_secs, self.connections as int) is None
        &&& match self.stage {
            TestStage::SelectServer => self.server is None && self.download_speed == 0
                && self.upload_speed == 0,
            TestStage::Download => self.server is Some && !self.skip_download
                && self.download_speed == 0 && self.upload_speed == 0,
            TestStage::Upload => self.server is Some && !self.skip_upload && (self.download_speed
                == 0 <==> self.skip_download) && self.upload_speed == 0,
            TestStage::Baseline => self.server is Some && (self.download_speed == 0
                <==> self.skip_download) && (self.upload_speed == 0 <==> self.skip_upload),
        }
    }

    /// The step that follows the download phase, or the choice of the server
    /// where the download is skipped.
    pub open spec fn stage_after_download(self) -> TestStage {
        if self.skip_upload {
            TestStage::Baseline
        } else {
            TestStage::Upload
        }
    }

    /// The step that follows the choice of the server.
    pub open spec fn stage_after_selection(self) -> TestStage {
        if self.skip_download {
            self.stage_after_download()
        } else {
            TestStage::Download
        }
    }

    /// Identifier of the chosen server.
    pub open spec fn server_id(self) -> u32 {
        self.server->0.id
    }

    /// What the caller does in this state.
    pub open spec fn action(self) -> TestAction {
        match self.stage {
            TestStage::SelectServer => TestAction::FetchDirectory,
            TestStage::Download => TestAction::RunPhase {
                direction: Direction::Download,
                duration_secs: self.duration_secs,
                connections: self.connections,
                server_id: self.server_id(),
            },
            TestStage::Upload => TestAction::RunPhase {
                direction: Direction::Upload,
                duration_secs: self.duration_secs,
                connections: self.connections,
                server_id: self.server_id(),
            },
            TestStage::Baseline => TestAction::ProbeLatency { server_id: self.server_id() },
        }
    }

    /// The rate that a completed phase has measured, or why it has measured
    /// none: the report must hold one byte count for each connection, and a
    /// phase that moved too little for a rate of one bit per second counts
    /// as refused.
    pub open spec fn phase_rate(self, stream_bytes: Seq<u64>) -> Result<u64, MeasureError> {
        if stream_bytes.len() != self.connections {
            Err(MeasureError::Validation(ValidationError::Connections))
        } else if rate_of(total_bytes(stream_bytes), self.duration_secs as int) == 0 {
            Err(MeasureError::Network(NetworkError::ConnectionRefused))
        } else {
            Ok(rate_of(total_bytes(stream_bytes), self.duration_secs as int) as u64)
        }
    }

    /// The result of a run that is at its last step, given the latency
    /// sample. A lost sample is no failure: the latency is then 0.
    pub open spec fn result(self, latency_us: Option<u32>) -> TestResult {
        TestResult {
            download_speed: self.download_speed,
            upload_speed: self.upload_speed,
            ping: match latency_us {
                Some(rtt) => rtt,
                None => 0,
            },
            server_id: self.server->0.id,
            server_name: self.server->0.name,
            server_location: self.server->0.location,
        }
    }

    /// How the run goes on when its caller reports `event`.
    ///
    /// The listing of the directory gives the nearest server or, where there
    /// is no proper listing, ends the run. A completed phase gives its rate
    /// or ends the run. The latency sample ends the run with its result. An
    /// event that the run is not waiting for changes nothing.
    pub open spec fn outcome(self, event: TestEvent) -> TestOutcome {
        match (self.stage, event) {
            (TestStage::SelectServer, TestEvent::Directory(listing)) => match listing_fault(
                listing_view(listing),
            ) {
                Some(fault) => TestOutcome::Return(Err(MeasureError::Network(fault))),
                None => TestOutcome::Continue(
                    SpeedTestView {
                        stage: self.stage_after_selection(),
                        server: Some(nearest_of(listing->0@)),
                        ..self
                    },
                ),
            },
            (TestStage::Download, TestEvent::PhaseCompleted(stream_bytes)) => match self.phase_rate(
                stream_bytes@,
            ) {
                Err(error) => TestOutcome::Return(Err(error)),
                Ok(rate) => TestOutcome::Continue(
                    SpeedTestView {
                        stage: self.stage_after_download(),
                        download_speed: rate,
                        ..self
                    },
                ),
            },
            (TestStage::Upload, TestEvent::PhaseCompleted(stream_bytes)) => match self.phase_rate(
                stream_bytes@,
            ) {
                Err(error) => TestOutcome::Return(Err(error)),
                Ok(rate) => TestOutcome::Continue(
                    SpeedTestView { stage: TestStage::Baseline, upload_speed: rate, ..self },
                ),
            },
            (TestStage::Baseline, TestEvent::Baseline(latency_us)) => TestOutcome::Return(
                Ok(self.result(latency_us)),
            ),
            _ => TestOutcome::Continue(self),
        }
    }
}

/// One run of a speed test.
pub struct SpeedTest {
    duration_secs: u64,
    connections: u32,
    skip_download: bool,
    skip_upload: bool,
    stage: TestStage,
    server: Option<Server>,
    download_speed: u64,
    upload_speed: u64,
}

/// How a step of a run ends.
pub enum TestStep {
    /// The run goes on: the new state and what the caller does next.
    Continue(SpeedTest, TestAction),
    /// The run is over: its result, or the error that ended it.
    Return(Result<TestResult, MeasureError>),
}

impl View for SpeedTest {
    type V = SpeedTestView;

    closed spec fn view(&self) -> SpeedTestView {
        SpeedTestView {
            duration_secs: self.duration_secs,
            connections: self.connections,
            skip_download: self.skip_download,
            skip_upload: self.skip_upload,
            stage: self.stage,
            server: self.server,
            download_speed: self.download_speed,
            upload_speed: self.upload_speed,
        }
    }
}

impl TestStep {
    /// The step as a plain value.
    pub open spec fn outcome(self) -> TestOutcome {
        match self {
            TestStep::Continue(test, _) => TestOutcome::Continue(test@),
            TestStep::Return(result) => TestOutcome::Return(result),
        }
    }
}

impl SpeedTest {
    #[verifier::type_invariant]
    closed spec fn consistent(self) -> bool {
        self@.consistent()
    }

    /// Plans a test. The duration must be 5 to 300 seconds and the number of
    /// connections 1 to 16; anything else is rejected here, before any
    /// traffic.
    pub fn new(duration_secs: u64, connections: u32, skip_download: bool, skip_upload: bool) -> (test:
        Result<SpeedTest, MeasureError>)
        ensures
            phase_fault(duration_secs, connections as int) matches Some(fault) ==> test == Err::<
                SpeedTest,
                MeasureError,
            >(MeasureError::Validation(fault)),
            phase_fault(duration_secs, connections as int) is None ==> test is Ok && test->Ok_0@
                == SpeedTestView::initial(duration_secs, connections, skip_download, skip_upload),
    {
        if !validate_duration(duration_secs) {
            Err(MeasureError::Validation(ValidationError::Duration))
        } else if !validate_connections(connections) {
            Err(MeasureError::Validation(ValidationError::Connections))
        } else {
            Ok(
                SpeedTest {
                    duration_secs,
                    connections,
                    skip_download,
                    skip_upload,
                    stage: TestStage::SelectServer,
                    server: None,
                    download_speed: 0,
                    upload_speed: 0,
                },
            )
        }
    }

    /// What the caller does in the present state: at the start, fetch the
    /// listing of the directory.
    pub fn action(&self) -> (action: TestAction)
        ensures
            action == self@.action(),
            self@.consistent(),
    {
        proof {
            use_type_invariant(self);
        }
        let server_id: u32 = match &self.server {
            Some(server) => server.id,
            None => 0,
        };
        match self.stage {
            TestStage::SelectServer => TestAction::FetchDirectory,
            TestStage::Download => TestAction::RunPhase {
                direction: Direction::Download,
                duration_secs: self.duration_secs,
                connections: self.connections,
                server_id,
            },
            TestStage::Upload => TestAction::RunPhase {
                direction: Direction::Upload,
                duration_secs: self.duration_secs,
                connections: self.connections,
                server_id,
            },
            TestStage::Baseline => TestAction::ProbeLatency { server_id },
        }
    }

    /// The run with one phase measured and the next step ahead.
    fn advance(self, stage: TestStage, download_speed: u64, upload_speed: u64) -> (step: TestStep)
        requires
            (SpeedTestView { stage, download_speed, upload_speed, ..self@ }).consistent(),
        ensures
            step.outcome() == TestOutcome::Continue(
                SpeedTestView { stage, download_speed, upload_speed, ..self@ },
            ),
            step matches TestStep::Continue(next, action) && action == next@.action()
                && next@.consistent(),
    {
        let next = SpeedTest {
            duration_secs: self.duration_secs,
            connections: self.connections,
            skip_download: self.skip_download,
            skip_upload: self.skip_upload,
            stage,
            server: self.server,
            download_speed,
            upload_speed,
        };
        let action = next.action();
        TestStep::Continue(next, action)
    }

    /// The rate of a completed phase, or the error that ends the run.
    fn measure(&self, stream_bytes: &Vec<u64>) -> (rate: Result<u64, MeasureError>)
        ensures
            rate == self@.phase_rate(stream_bytes@),
            rate matches Ok(r) ==> r > 0,
    {
        proof {
            use_type_invariant(self);
            lemma_rate_in_range(stream_bytes@, self.duration_secs as int);
        }
        if stream_bytes.len() != self.connections as usize {
            return Err(MeasureError::Validation(ValidationError::Connections));
        }
        match aggregate_rate(stream_bytes, self.duration_secs) {
            Err(error) => Err(error),
            Ok(rate) => {
                if rate == 0 {
                    Err(MeasureError::Network(NetworkError::ConnectionRefused))
                } else {
                    Ok(rate)
                }
            },
        }
    }

    /// Takes note of what the caller reports and says how the run goes on:
    /// with a next thing to do, or with its result or error.
    pub fn step(self, event: TestEvent) -> (step: TestStep)
        ensures
            step.outcome() == self@.outcome(event),
            self@.consistent(),
            step matches TestStep::Continue(next, action) ==> action == next@.action()
                && next@.consistent(),
    {
        proof {
            use_type_invariant(&self);
        }
        match event {
            TestEvent::Directory(listing) => match self.stage {
                TestStage::SelectServer => {
                    match ServerCatalog::from_directory(listing) {
                        Err(error) => TestStep::Return(Err(error)),
                        Ok(catalog) => {
                            let server = catalog.nearest();
                            proof {
                                lemma_nearest_is_unique(catalog@, server);
                            }
                            let stage: TestStage = if !self.skip_download {
                                TestStage::Download
                            } else if !self.skip_upload {
                                TestStage::Upload
                            } else {
                                TestStage::Baseline
                            };
                            let next = SpeedTest {
                                duration_secs: self.duration_secs,
                                connections: self.connections,
                                skip_download: self.skip_download,
                                skip_upload: self.skip_upload,
                                stage,
                                server: Some(server),
                                download_speed: 0,
                                upload_speed: 0,
                            };
                            let action = next.action();
                            TestStep::Continue(next, action)
                        },
                    }
                },
                _ => {
                    let action = self.action();
                    TestStep::Continue(self, action)
                },
            },
            TestEvent::PhaseCompleted(stream_bytes) => match self.stage {
                TestStage::Download => match self.measure(&stream_bytes) {
                    Err(error) => TestStep::Return(Err(error)),
                    Ok(rate) => {
                        let stage: TestStage = if self.skip_upload {
                            TestStage::Baseline
                        } else {
                            TestStage::Upload
                        };
                        self.advance(stage, rate, 0)
                    },
                },
                TestStage::Upload => match self.measure(&stream_bytes) {
                    Err(error) => TestStep::Return(Err(error)),
                    Ok(rate) => {
                        let download_speed: u64 = self.download_speed;
                        self.advance(TestStage::Baseline, download_speed, rate)
                    },
                },
                _ => {
                    let action = self.action();
                    TestStep::Continue(self, action)
                },
            },
            TestEvent::Baseline(latency_us) => match self.stage {
                TestStage::Baseline => {
                    let ping: u32 = match latency_us {
                        Some(rtt) => rtt,
                        None => 0,
                    };
                    match self.server {
                        Some(server) => TestStep::Return(
                            Ok(
                                TestResult {
                                    download_speed: self.download_speed,
                                    upload_speed: self.upload_speed,
                                    ping,
                                    server_id: server.id,
                                    server_name: server.name,
                                    server_location: server.location,
                                },
                            ),
                        ),
                        None => TestStep::Return(
                            Err(MeasureError::Network(NetworkError::NoReachableServer)),
                        ),
                    }
                },
                _ => {
                    let action = self.action();
                    TestStep::Continue(self, action)
                },
            },
        }
    }
}

/// A run that goes on stays consistent.
pub proof fn lemma_run_stays_consistent(test: SpeedTestView, event: TestEvent)
    requires
        test.consistent(),
        test.outcome(event) is Continue,
    ensures
        test.outcome(event)->Continue_0.consistent(),
{
    if let TestEvent::PhaseCompleted(stream_bytes) = event {
        lemma_rate_in_range(stream_bytes@, test.duration_secs as int);
    }
}

/// In a result, a rate is zero exactly when its phase was skipped: with the
/// upload skipped the upload rate is 0 and the download rate is not, and the
/// other way round.
pub proof fn lemma_result_tells_skipped_phases(test: SpeedTestView, event: TestEvent)
    requires
        test.consistent(),
        test.outcome(event) matches TestOutcome::Return(Ok(_)),
    ensures
        ({
            let result = test.outcome(event)->Return_0->Ok_0;
            &&& result.download_speed == 0 <==> test.skip_download
            &&& result.upload_speed == 0 <==> test.skip_upload
        }),
{
    if let TestEvent::PhaseCompleted(stream_bytes) = event {
        lemma_rate_in_range(stream_bytes@, test.duration_secs as int);
    }
}

/// How a run stands after a sequence of reports, taken in order. Once the run
/// is over, further reports change nothing.
pub open spec fn outcome_of_all(test: SpeedTestView, events: Seq<TestEvent>) -> TestOutcome
    decreases events.len(),
{
    if events.len() == 0 {
        TestOutcome::Continue(test)
    } else {
        match outcome_of_all(test, events.drop_last()) {
            TestOutcome::Continue(next) => next.outcome(events.last()),
            TestOutcome::Return(result) => TestOutcome::Return(result),
        }
    }
}

/// Whatever is reported to a test with parameters in range, and in whatever
/// order: if the test returns a result, the download rate in it is 0 exactly
/// when the download was to be skipped, and the upload rate is 0 exactly when
/// the upload was to be skipped. As long as the test goes on, it is
/// consistent and has the parameters it began with.
pub proof fn lemma_test_tells_skipped_phases(
    duration_secs: u64,
    connections: u32,
    skip_download: bool,
    skip_upload: bool,
    events: Seq<TestEvent>,
)
    requires
        phase_fault(duration_secs, connections as int) is None,
    ensures
        ({
            let begun = SpeedTestView::initial(
                duration_secs,
                connections,
                skip_download,
                skip_upload,
            );
            match outcome_of_all(begun, events) {
                TestOutcome::Return(Ok(result)) => {
                    &&& result.download_speed == 0 <==> skip_download
                    &&& result.upload_speed == 0 <==> skip_upload
                },
                TestOutcome::Return(Err(_)) => true,
                TestOutcome::Continue(next) => {
                    &&& next.consistent()
                    &&& next.duration_secs == duration_secs
                    &&& next.connections == connections
                    &&& next.skip_download == skip_download
                    &&& next.skip_upload == skip_upload
                },
            }
        }),
    decreases events.len(),
{
    let begun = SpeedTestView::initial(duration_secs, connections, skip_download, skip_upload);
    if events.len() > 0 {
        lemma_test_tells_skipped_phases(
            duration_secs,
            connections,
            skip_download,
            skip_upload,
            events.drop_last(),
        );
        if let TestOutcome::Continue(next) = outcome_of_all(begun, events.drop_last()) {
            let event = events.last();
            if next.outcome(event) is Continue {
                lemma_run_stays_consistent(next, event);
                lemma_run_moves_forward(next, event);
            } else if next.outcome(event) matches TestOutcome::Return(Ok(_)) {
                lemma_result_tells_skipped_phases(next, event);
            }
        }
    }
}

/// The position of a step in a run.
pub open spec fn stage_rank(stage: TestStage) -> int {
    match stage {
        TestStage::SelectServer => 0,
        TestStage::Download => 1,
        TestStage::Upload => 2,
        TestStage::Baseline => 3,
    }
}

/// A run only moves forward, and never changes its parameters: the phases
/// come one after the other, the download before the upload, and a phase
/// that is skipped is never asked for.
pub proof fn lemma_run_moves_forward(test: SpeedTestView, event: TestEvent)
    requires
        test.consistent(),
        test.outcome(event) is Continue,
    ensures
        ({
            let next = test.outcome(event)->Continue_0;
            &&& stage_rank(next.stage) >= stage_rank(test.stage)
            &&& next.duration_secs == test.duration_secs
            &&& next.connections == test.connections
            &&& next.skip_download == test.skip_download
            &&& next.skip_upload == test.skip_upload
            &&& next.stage is Download ==> !test.skip_download
            &&& next.stage is Upload ==> !test.skip_upload
            &&& next.action() matches TestAction::RunPhase { direction, duration_secs, connections, .. }
                ==> duration_secs == test.duration_secs && connections == test.connections && (
            direction is Download <==> next.stage is Download)
        }),
{
}

/// The run ends with a network error exactly where the directory has no
/// proper listing to offer or a phase moved no data, and with a validation
/// error only where the report of a phase does not match the connections.
pub proof fn lemma_run_fails_only_as_described(test: SpeedTestView, event: TestEvent)
    requires
        test.consistent(),
        test.outcome(event) matches TestOutcome::Return(Err(_)),
    ensures
        ({
            let error = test.outcome(event)->Return_0->Err_0;
            match event {
                TestEvent::Directory(listing) => test.stage is SelectServer && listing_fault(
                    listing_view(listing),
                ) == Some(error->Network_0) && error is Network,
                TestEvent::PhaseCompleted(stream_bytes) => (test.stage is Download
                    || test.stage is Upload) && test.phase_rate(stream_bytes@) == Err::<
                    u64,
                    MeasureError,
                >(error),
                TestEvent::Baseline(_) => false,
            }
        }),
{
}

} // verus!
