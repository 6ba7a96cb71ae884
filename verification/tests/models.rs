use malceiver::models::{Detection, Prediction, Score, CLASS_COUNT};
use malceiver::query::{
    query_response, QueryOutcome, LOOKUP_FAILED, NOT_FOUND, STATUS_NOT_FOUND, STATUS_OK,
    STATUS_SERVER_ERROR,
};
use malceiver::models::{ApiResponse, ProjectedMalceiverDocument};

fn score(value: f32) -> Score {
    Score { bits: value.to_bits() }
}

#[test]
fn detection_of_each_column() {
    assert_eq!(Detection::try_from(0usize), Ok(Detection::Adware));
    assert_eq!(Detection::try_from(1usize), Ok(Detection::Banking));
    assert_eq!(Detection::try_from(2usize), Ok(Detection::Benign));
    assert_eq!(Detection::try_from(3usize), Ok(Detection::Riskware));
    assert_eq!(Detection::try_from(4usize), Ok(Detection::Sms));
}

#[test]
fn detection_of_no_column() {
    assert_eq!(Detection::try_from(5usize), Err(5));
    assert_eq!(Detection::try_from(usize::MAX), Err(usize::MAX));
}

#[test]
fn detection_index_round_trips() {
    assert_eq!(CLASS_COUNT, 5);
    for column in 0..CLASS_COUNT {
        let class = Detection::try_from(column).unwrap();
        assert_eq!(class.index(), column);
    }
}

#[test]
fn score_rank_of_known_patterns() {
    assert_eq!(Score { bits: 0 }.rank(), 0x8000_0000);
    assert_eq!(Score { bits: 0x3f80_0000 }.rank(), 0xbf80_0000);
    assert_eq!(Score { bits: 0x8000_0000 }.rank(), 0x7fff_ffff);
    assert_eq!(Score { bits: 0xbf80_0000 }.rank(), 0x407f_ffff);
    assert_eq!(Score { bits: 0xffff_ffff }.rank(), 0);
    assert_eq!(Score { bits: 0x7fff_ffff }.rank(), 0xffff_ffff);
}

#[test]
fn score_order_is_numeric_order() {
    let values = [
        f32::NEG_INFINITY,
        -1.0e30,
        -1.0,
        -0.5,
        -1.0e-30,
        0.0,
        1.0e-30,
        0.05,
        0.1,
        0.2,
        0.25,
        0.5,
        0.7,
        0.9,
        1.0,
        2.0,
        f32::INFINITY,
    ];
    for a in values {
        for b in values {
            assert_eq!(score(a).exceeds(score(b)), a > b);
        }
    }
}

#[test]
fn score_order_puts_negative_zero_below_zero() {
    assert!(score(0.0).exceeds(score(-0.0)));
    assert!(!score(-0.0).exceeds(score(0.0)));
    assert!(!score(0.0).exceeds(score(0.0)));
}

#[test]
fn query_found() {
    let prediction = Prediction { detection: Detection::Banking, probability: score(0.9) };
    let document = ProjectedMalceiverDocument { sha256: "ab".to_string(), prediction };
    let (status, answer) = query_response(QueryOutcome::Found(document));
    assert_eq!(status, STATUS_OK);
    assert_eq!(status, 200);
    match answer {
        ApiResponse::Success(entry) => {
            assert_eq!(entry.sha256, "ab");
            assert_eq!(entry.prediction, prediction);
        }
        ApiResponse::Error(message) => panic!("{}", message),
    }
}

#[test]
fn query_missing() {
    let (status, answer) = query_response(QueryOutcome::Missing);
    assert_eq!(status, STATUS_NOT_FOUND);
    assert_eq!(status, 404);
    match answer {
        ApiResponse::Error(message) => {
            assert_eq!(message, NOT_FOUND);
            assert_eq!(message, "Not found");
        }
        ApiResponse::Success(entry) => panic!("{:?}", entry),
    }
}

#[test]
fn query_failed() {
    let (status, answer) = query_response(QueryOutcome::Failed);
    assert_eq!(status, STATUS_SERVER_ERROR);
    assert_eq!(status, 500);
    match answer {
        ApiResponse::Error(message) => assert_eq!(message, LOOKUP_FAILED),
        ApiResponse::Success(entry) => panic!("{:?}", entry),
    }
}
