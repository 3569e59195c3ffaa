use pingtest::error::{MeasureError, ValidationError};
use pingtest::ping::{packet_loss, summarize_probes, PingResult, ProbeAction, ProbeOutcome, ProbeRun};

fn run_of(packet_count: u32, timeout_us: u32) -> ProbeRun {
    match ProbeRun::new(packet_count, timeout_us) {
        Ok(run) => run,
        Err(error) => panic!("run rejected: {}", error.message()),
    }
}

#[test]
fn test_ping_analyzer_basic() {
    let outcomes = vec![
        ProbeOutcome::Reply { rtt_us: 24_100 },
        ProbeOutcome::Reply { rtt_us: 25_300 },
        ProbeOutcome::Lost,
        ProbeOutcome::Reply { rtt_us: 23_800 },
    ];
    let result = summarize_probes(4, 1_000_000, &outcomes);
    assert!(result.is_ok());

    let ping_result = result.unwrap();
    assert!(ping_result.avg_ping > 0);
    assert!(ping_result.min_ping > 0);
    assert!(ping_result.max_ping > 0);
    assert!(ping_result.jitter <= ping_result.max_ping - ping_result.min_ping);
    assert!(ping_result.packet_loss <= 100);
    assert_eq!(ping_result.packet_loss, 25);
}

#[test]
fn test_ping_analyzer_custom_params() {
    let mut run = run_of(5, 2_000_000);
    let replies: [u64; 5] = [11_200, 10_900, 11_050, 12_300, 10_750];
    let mut probes: u32 = 0;
    while let ProbeAction::Send { timeout_us } = run.next_action() {
        assert_eq!(timeout_us, 2_000_000);
        let (next, _) = run.record(ProbeOutcome::Reply { rtt_us: replies[probes as usize] });
        run = next;
        probes += 1;
    }
    assert_eq!(probes, 5);

    let ping_result = run.finish();
    assert_eq!(ping_result.packet_count, 5);
    assert!(ping_result.avg_ping > 0);
}

#[test]
fn a_run_of_no_probes_is_rejected() {
    assert!(matches!(
        ProbeRun::new(0, 1_000_000),
        Err(MeasureError::Validation(ValidationError::PacketCount))
    ));
    let outcomes: Vec<ProbeOutcome> = Vec::new();
    assert_eq!(
        summarize_probes(0, 1_000_000, &outcomes),
        Err(MeasureError::Validation(ValidationError::PacketCount))
    );
}

#[test]
fn a_run_asks_for_each_probe_in_turn() {
    let run = run_of(3, 500_000);
    assert_eq!(run.packet_count(), 3);
    assert_eq!(run.sent(), 0);
    assert_eq!(run.next_action(), ProbeAction::Send { timeout_us: 500_000 });
    let (run, action) = run.record(ProbeOutcome::Reply { rtt_us: 10_000 });
    assert_eq!(action, ProbeAction::Send { timeout_us: 500_000 });
    assert_eq!((run.sent(), run.received()), (1, 1));
    let (run, action) = run.record(ProbeOutcome::Lost);
    assert_eq!(action, ProbeAction::Send { timeout_us: 500_000 });
    assert_eq!((run.sent(), run.received()), (2, 1));
    let (run, action) = run.record(ProbeOutcome::Reply { rtt_us: 14_000 });
    assert_eq!(action, ProbeAction::Finish);
    assert_eq!((run.sent(), run.received()), (3, 2));
    assert_eq!(run.next_action(), ProbeAction::Finish);
    let (run, action) = run.record(ProbeOutcome::Reply { rtt_us: 1 });
    assert_eq!(action, ProbeAction::Finish);
    assert_eq!((run.sent(), run.received()), (3, 2));
    assert_eq!(
        run.finish(),
        PingResult {
            avg_ping: 12_000,
            min_ping: 10_000,
            max_ping: 14_000,
            jitter: 4_000,
            packet_loss: 33,
            packet_count: 3,
        }
    );
}

#[test]
fn a_run_without_answers_reports_total_loss() {
    let outcomes = vec![ProbeOutcome::Lost, ProbeOutcome::Lost, ProbeOutcome::Lost];
    assert_eq!(
        summarize_probes(3, 1_000_000, &outcomes),
        Ok(PingResult {
            avg_ping: 0,
            min_ping: 0,
            max_ping: 0,
            jitter: 0,
            packet_loss: 100,
            packet_count: 3,
        })
    );
    let none: Vec<ProbeOutcome> = Vec::new();
    assert_eq!(
        summarize_probes(7, 1_000_000, &none),
        Ok(PingResult {
            avg_ping: 0,
            min_ping: 0,
            max_ping: 0,
            jitter: 0,
            packet_loss: 100,
            packet_count: 7,
        })
    );
}

#[test]
fn an_answer_after_the_timeout_counts_as_lost() {
    let late = vec![
        ProbeOutcome::Reply { rtt_us: 1_000 },
        ProbeOutcome::Reply { rtt_us: 1_001 },
        ProbeOutcome::Reply { rtt_us: u64::MAX },
        ProbeOutcome::Reply { rtt_us: 400 },
    ];
    let lost = vec![
        ProbeOutcome::Reply { rtt_us: 1_000 },
        ProbeOutcome::Lost,
        ProbeOutcome::Lost,
        ProbeOutcome::Reply { rtt_us: 400 },
    ];
    let result = summarize_probes(4, 1_000, &late);
    assert_eq!(result, summarize_probes(4, 1_000, &lost));
    assert_eq!(
        result,
        Ok(PingResult {
            avg_ping: 700,
            min_ping: 400,
            max_ping: 1_000,
            jitter: 600,
            packet_loss: 50,
            packet_count: 4,
        })
    );
}

#[test]
fn jitter_follows_the_answered_probes_in_the_order_of_sending() {
    let outcomes = vec![
        ProbeOutcome::Reply { rtt_us: 10_000 },
        ProbeOutcome::Lost,
        ProbeOutcome::Reply { rtt_us: 15_000 },
        ProbeOutcome::Reply { rtt_us: 12_000 },
        ProbeOutcome::Lost,
        ProbeOutcome::Reply { rtt_us: 18_000 },
        ProbeOutcome::Reply { rtt_us: 11_000 },
    ];
    let result = summarize_probes(7, 1_000_000, &outcomes).unwrap();
    assert_eq!(result.jitter, 5_250);
    assert_eq!(result.avg_ping, 13_200);
    assert_eq!(result.min_ping, 10_000);
    assert_eq!(result.max_ping, 18_000);
    assert_eq!(result.packet_loss, 28);
    assert_eq!(result.packet_count, 7);
}

#[test]
fn outcomes_beyond_the_count_are_not_looked_at() {
    let outcomes = vec![
        ProbeOutcome::Reply { rtt_us: 100 },
        ProbeOutcome::Reply { rtt_us: 200 },
        ProbeOutcome::Reply { rtt_us: 900 },
    ];
    let result = summarize_probes(2, 1_000, &outcomes).unwrap();
    assert_eq!(result.max_ping, 200);
    assert_eq!(result.packet_loss, 0);
    assert_eq!(result.packet_count, 2);
}

#[test]
fn a_run_cut_short_counts_loss_among_the_probes_sent() {
    let run = run_of(10, 1_000);
    let (run, _) = run.record(ProbeOutcome::Reply { rtt_us: 300 });
    let (run, _) = run.record(ProbeOutcome::Lost);
    let result = run.finish();
    assert_eq!(result.packet_loss, 50);
    assert_eq!(result.packet_count, 10);
    assert_eq!(result.avg_ping, 300);
}

#[test]
fn packet_loss_is_the_share_of_unanswered_probes() {
    assert_eq!(packet_loss(10, 10), 0);
    assert_eq!(packet_loss(10, 9), 10);
    assert_eq!(packet_loss(10, 1), 90);
    assert_eq!(packet_loss(10, 0), 100);
    assert_eq!(packet_loss(3, 2), 33);
    assert_eq!(packet_loss(3, 1), 66);
    assert_eq!(packet_loss(0, 0), 100);
    assert_eq!(packet_loss(5, 9), 0);
    assert_eq!(packet_loss(u32::MAX, 1), 99);
    assert_eq!(packet_loss(u32::MAX, u32::MAX - 1), 0);
}
