use pingtest::error::{MeasureError, ValidationError};
use pingtest::throughput::{
    aggregate_rate, Direction, StreamAction, StreamEvent, ThroughputAggregator, TransferStream,
};

fn stream(duration_secs: u64) -> TransferStream {
    match TransferStream::new(Direction::Download, duration_secs) {
        Ok(stream) => stream,
        Err(error) => panic!("stream rejected: {}", error.message()),
    }
}

#[test]
fn aggregate_rate_is_all_bits_over_the_duration() {
    assert_eq!(aggregate_rate(&vec![1_000_000, 2_000_000], 5), Ok(4_800_000));
    assert_eq!(aggregate_rate(&vec![62_500_000; 4], 10), Ok(200_000_000));
    assert_eq!(aggregate_rate(&vec![0, 0, 7], 5), Ok(11));
    assert_eq!(aggregate_rate(&vec![37], 300), Ok(0));
    assert_eq!(aggregate_rate(&vec![38], 300), Ok(1));
    assert_eq!(aggregate_rate(&vec![0; 16], 300), Ok(0));
}

#[test]
fn aggregate_rate_stops_at_the_largest_number() {
    assert_eq!(aggregate_rate(&vec![u64::MAX; 16], 5), Ok(u64::MAX));
    assert_eq!(aggregate_rate(&vec![u64::MAX], 8), Ok(u64::MAX));
    assert_eq!(aggregate_rate(&vec![u64::MAX], 16), Ok(u64::MAX / 2));
    assert_eq!(aggregate_rate(&vec![u64::MAX, 1], 8), Ok(u64::MAX));
}

#[test]
fn aggregate_rate_rejects_parameters_out_of_range() {
    let duration = Err(MeasureError::Validation(ValidationError::Duration));
    let connections = Err(MeasureError::Validation(ValidationError::Connections));
    assert_eq!(aggregate_rate(&vec![1], 4), duration);
    assert_eq!(aggregate_rate(&vec![1], 301), duration);
    assert_eq!(aggregate_rate(&Vec::new(), 4), duration);
    assert_eq!(aggregate_rate(&Vec::new(), 5), connections);
    assert_eq!(aggregate_rate(&vec![1; 17], 300), connections);
    assert!(aggregate_rate(&vec![1; 16], 300).is_ok());
    assert!(aggregate_rate(&vec![1], 5).is_ok());
}

#[test]
fn a_stream_is_planned_for_a_duration_in_range() {
    assert!(TransferStream::new(Direction::Upload, 5).is_ok());
    assert!(TransferStream::new(Direction::Upload, 300).is_ok());
    assert!(matches!(
        TransferStream::new(Direction::Upload, 4),
        Err(MeasureError::Validation(ValidationError::Duration))
    ));
    assert!(matches!(
        TransferStream::new(Direction::Download, 301),
        Err(MeasureError::Validation(ValidationError::Duration))
    ));
    let planned = TransferStream::new(Direction::Upload, 5).unwrap();
    assert_eq!(planned.direction(), Direction::Upload);
    assert_eq!(planned.bytes(), 0);
    assert!(!planned.is_closed());
    assert_eq!(planned.pending_action(), StreamAction::Connect);
}

#[test]
fn a_stream_transfers_until_its_deadline() {
    let s = stream(5);
    let (s, action) = s.step(12, StreamEvent::Connected);
    assert_eq!(action, StreamAction::Transfer);
    let (s, action) = s.step(1_000, StreamEvent::Transferred { bytes: 65_536 });
    assert_eq!(action, StreamAction::Transfer);
    assert_eq!(s.bytes(), 65_536);
    let (s, action) = s.step(4_999, StreamEvent::Transferred { bytes: 1_000 });
    assert_eq!(action, StreamAction::Transfer);
    assert_eq!(s.pending_action(), StreamAction::Transfer);
    let (s, action) = s.step(5_000, StreamEvent::Transferred { bytes: 464 });
    assert_eq!(action, StreamAction::Close);
    assert!(s.is_closed());
    assert_eq!(s.bytes(), 67_000);
    let (s, action) = s.step(5_001, StreamEvent::Transferred { bytes: 999 });
    assert_eq!(action, StreamAction::Done);
    assert_eq!(s.bytes(), 67_000);
    assert_eq!(s.pending_action(), StreamAction::Done);
}

#[test]
fn a_stream_that_cannot_connect_ends_with_nothing() {
    let s = stream(5);
    let (s, action) = s.step(30, StreamEvent::ConnectFailed);
    assert_eq!(action, StreamAction::Done);
    assert!(s.is_closed());
    assert_eq!(s.bytes(), 0);
}

#[test]
fn a_stream_that_breaks_off_keeps_its_bytes_and_closes() {
    let s = stream(10);
    let (s, _) = s.step(5, StreamEvent::Connected);
    let (s, _) = s.step(900, StreamEvent::Transferred { bytes: 4_096 });
    let (s, action) = s.step(950, StreamEvent::TransferFailed);
    assert_eq!(action, StreamAction::Close);
    assert!(s.is_closed());
    assert_eq!(s.bytes(), 4_096);
}

#[test]
fn a_stream_connected_too_late_closes_at_once() {
    let s = stream(5);
    let (s, action) = s.step(5_000, StreamEvent::Connected);
    assert_eq!(action, StreamAction::Close);
    assert!(s.is_closed());
    let s = stream(5);
    let (s, action) = s.step(6_000, StreamEvent::ConnectFailed);
    assert_eq!(action, StreamAction::Done);
    assert!(s.is_closed());
}

#[test]
fn a_cancelled_stream_releases_its_connection() {
    let s = stream(5);
    let (s, action) = s.step(1, StreamEvent::Cancelled);
    assert_eq!(action, StreamAction::Done);
    assert!(s.is_closed());
    let s = stream(5);
    let (s, _) = s.step(1, StreamEvent::Connected);
    let (s, _) = s.step(2, StreamEvent::Transferred { bytes: 10 });
    let (s, action) = s.step(3, StreamEvent::Cancelled);
    assert_eq!(action, StreamAction::Close);
    assert!(s.is_closed());
    assert_eq!(s.bytes(), 10);
}

#[test]
fn a_stream_ignores_events_out_of_turn() {
    let s = stream(5);
    let (s, action) = s.step(1, StreamEvent::Transferred { bytes: 10 });
    assert_eq!(action, StreamAction::Connect);
    assert_eq!(s.bytes(), 0);
    let (s, action) = s.step(2, StreamEvent::TransferFailed);
    assert_eq!(action, StreamAction::Connect);
    let (s, _) = s.step(3, StreamEvent::Connected);
    let (s, action) = s.step(4, StreamEvent::Connected);
    assert_eq!(action, StreamAction::Transfer);
    let (s, action) = s.step(5, StreamEvent::ConnectFailed);
    assert_eq!(action, StreamAction::Transfer);
    assert!(!s.is_closed());
}

#[test]
fn a_stream_counts_no_further_than_the_largest_number() {
    let s = stream(5);
    let (s, _) = s.step(1, StreamEvent::Connected);
    let (s, _) = s.step(2, StreamEvent::Transferred { bytes: u64::MAX - 1 });
    let (s, _) = s.step(3, StreamEvent::Transferred { bytes: 1 });
    assert_eq!(s.bytes(), u64::MAX);
    let (s, action) = s.step(4, StreamEvent::Transferred { bytes: 5 });
    assert_eq!(s.bytes(), u64::MAX);
    assert_eq!(action, StreamAction::Transfer);
}

fn phase(direction: Direction, duration_secs: u64, connections: u32) -> ThroughputAggregator {
    match ThroughputAggregator::new(direction, duration_secs, connections) {
        Ok(phase) => phase,
        Err(error) => panic!("phase rejected: {}", error.message()),
    }
}

#[test]
fn a_phase_is_planned_for_parameters_in_range() {
    let duration = MeasureError::Validation(ValidationError::Duration);
    let connections = MeasureError::Validation(ValidationError::Connections);
    assert_eq!(ThroughputAggregator::new(Direction::Download, 4, 4).err(), Some(duration));
    assert_eq!(ThroughputAggregator::new(Direction::Download, 301, 4).err(), Some(duration));
    assert_eq!(ThroughputAggregator::new(Direction::Download, 4, 0).err(), Some(duration));
    assert_eq!(ThroughputAggregator::new(Direction::Upload, 5, 0).err(), Some(connections));
    assert_eq!(ThroughputAggregator::new(Direction::Upload, 300, 17).err(), Some(connections));
    assert!(ThroughputAggregator::new(Direction::Upload, 5, 1).is_ok());
    assert!(ThroughputAggregator::new(Direction::Upload, 300, 16).is_ok());
}

#[test]
fn a_phase_launches_one_stream_for_each_connection() {
    let streams = phase(Direction::Upload, 10, 7).launch();
    assert_eq!(streams.len(), 7);
    for stream in &streams {
        assert_eq!(stream.direction(), Direction::Upload);
        assert_eq!(stream.bytes(), 0);
        assert!(!stream.is_closed());
        assert_eq!(stream.pending_action(), StreamAction::Connect);
    }
    let mut streams = streams;
    let first = streams.remove(0);
    let (first, action) = first.step(9_999, StreamEvent::Connected);
    assert_eq!(action, StreamAction::Transfer);
    let (_, action) = first.step(10_000, StreamEvent::Transferred { bytes: 1 });
    assert_eq!(action, StreamAction::Close);
}

#[test]
fn a_phase_has_no_rate_before_every_stream_has_ended() {
    let phase = phase(Direction::Download, 5, 3);
    let mut streams = phase.launch();
    assert_eq!(phase.join(&streams), None);
    let mut moved: u64 = 1_000_000;
    for _ in 0..3 {
        let stream = streams.remove(0);
        let (stream, _) = stream.step(1, StreamEvent::Connected);
        let (stream, _) = stream.step(2_000, StreamEvent::Transferred { bytes: moved });
        streams.push(stream);
        moved += 1_000_000;
    }
    assert_eq!(phase.join(&streams), None);
    for closed in 0..3 {
        assert_eq!(phase.join(&streams), None);
        let stream = streams.remove(0);
        let (stream, action) = stream.step(5_000, StreamEvent::Transferred { bytes: 0 });
        assert_eq!(action, StreamAction::Close);
        streams.push(stream);
        assert_eq!(phase.join(&streams).is_some(), closed == 2);
    }
    assert_eq!(phase.join(&streams), Some(9_600_000));
}

#[test]
fn a_phase_joins_its_own_streams_only() {
    let phase = phase(Direction::Download, 5, 2);
    let close = |stream: TransferStream| stream.step(0, StreamEvent::ConnectFailed).0;
    let own: Vec<TransferStream> = phase.launch().into_iter().map(close).collect();
    assert_eq!(phase.join(&own), Some(0));
    let fewer: Vec<TransferStream> = phase.launch().into_iter().take(1).map(close).collect();
    assert_eq!(phase.join(&fewer), None);
    let other = ThroughputAggregator::new(Direction::Upload, 5, 2).unwrap();
    let upload: Vec<TransferStream> = other.launch().into_iter().map(close).collect();
    assert_eq!(phase.join(&upload), None);
    assert_eq!(other.join(&upload), Some(0));
    let longer = ThroughputAggregator::new(Direction::Download, 6, 2).unwrap();
    let late: Vec<TransferStream> = longer.launch().into_iter().map(close).collect();
    assert_eq!(phase.join(&late), None);
}

#[test]
fn a_failed_stream_does_not_spoil_its_phase() {
    let phase = phase(Direction::Download, 10, 4);
    let mut streams = phase.launch();
    let failed = streams.remove(0);
    let (failed, action) = failed.step(40, StreamEvent::ConnectFailed);
    assert_eq!(action, StreamAction::Done);
    let broken = streams.remove(0);
    let (broken, _) = broken.step(40, StreamEvent::Connected);
    let (broken, _) = broken.step(3_000, StreamEvent::Transferred { bytes: 5_000_000 });
    let (broken, action) = broken.step(3_100, StreamEvent::TransferFailed);
    assert_eq!(action, StreamAction::Close);
    let mut done = vec![failed, broken];
    for stream in streams {
        let (stream, _) = stream.step(35, StreamEvent::Connected);
        let (stream, _) = stream.step(9_000, StreamEvent::Transferred { bytes: 60_000_000 });
        let (stream, action) = stream.step(10_020, StreamEvent::Transferred { bytes: 2_500_000 });
        assert_eq!(action, StreamAction::Close);
        done.push(stream);
    }
    assert_eq!(phase.join(&done), Some(104_000_000));
}
