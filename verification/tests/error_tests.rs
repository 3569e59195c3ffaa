use pingtest::error::{MeasureError, NetworkError, ValidationError};

#[test]
fn errors_fall_in_two_classes() {
    let validation = [
        ValidationError::Duration,
        ValidationError::Connections,
        ValidationError::PacketCount,
    ];
    for cause in validation {
        let error = MeasureError::Validation(cause);
        assert!(error.is_validation());
        assert!(!error.is_network());
    }
    let network = [
        NetworkError::DirectoryUnreachable,
        NetworkError::DirectoryMalformed,
        NetworkError::NoReachableServer,
        NetworkError::ConnectionRefused,
    ];
    for cause in network {
        let error = MeasureError::Network(cause);
        assert!(error.is_network());
        assert!(!error.is_validation());
    }
}

#[test]
fn each_error_has_its_message() {
    assert_eq!(
        MeasureError::Validation(ValidationError::Duration).message(),
        "duration must be between 5 and 300 seconds"
    );
    assert_eq!(
        MeasureError::Validation(ValidationError::Connections).message(),
        "connections must be between 1 and 16"
    );
    assert_eq!(
        MeasureError::Validation(ValidationError::PacketCount).message(),
        "packet count must be at least 1"
    );
    assert_eq!(
        MeasureError::Network(NetworkError::DirectoryUnreachable).message(),
        "server directory is unreachable"
    );
    assert_eq!(
        MeasureError::Network(NetworkError::DirectoryMalformed).message(),
        "server directory sent an invalid listing"
    );
    assert_eq!(
        MeasureError::Network(NetworkError::NoReachableServer).message(),
        "no server is reachable"
    );
    assert_eq!(
        MeasureError::Network(NetworkError::ConnectionRefused).message(),
        "connection refused: no data was transferred"
    );
}
