use malceiver::features::ParsedPackage;
use malceiver::models::{
    ApiResponse, Detection, Prediction, ProjectedMalceiverDocument, ScanResponse, Score,
};
use malceiver::scan::{ScanAction, ScanEvent, ScanState, INFERENCE_FAILED, OUT_OF_TURN};

const FP_AAA: &str = "877c8c95b9618405464e97d9d3260457ea5a80a1c724e631880477382942d1aa";
const FP_BBB: &str = "f6af0473109dd50f97b106f82c2ef3731a393a18c9121aeb849f837e952668de";
const FP_CCC: &str = "153779ae4110315d268689b5631dbcddef86aa91bbaf15ef27cd4ac2657045fa";

fn payload(tail: &str) -> Vec<u8> {
    let mut data = b"PK\x03\x04".to_vec();
    data.extend_from_slice(tail.as_bytes());
    data
}

fn scores(values: &[f32]) -> Vec<Score> {
    values.iter().map(|v| Score { bits: v.to_bits() }).collect()
}

fn verdict(detection: Detection, probability: f32) -> Prediction {
    Prediction { detection, probability: Score { bits: probability.to_bits() } }
}

fn package(opcodes: &[u8]) -> Option<ParsedPackage> {
    Some(ParsedPackage { methods: vec![opcodes.to_vec()], permissions: vec![] })
}

fn pairs(entries: &[ScanResponse]) -> Vec<(String, Prediction)> {
    entries.iter().map(|e| (e.sha256.clone(), e.prediction)).collect()
}

fn success(action: ScanAction) -> Vec<ScanResponse> {
    match action {
        ScanAction::Respond(ApiResponse::Success(entries)) => entries,
        other => panic!("{:?}", other),
    }
}

fn error(action: ScanAction) -> String {
    match action {
        ScanAction::Respond(ApiResponse::Error(message)) => message,
        other => panic!("{:?}", other),
    }
}

#[test]
fn empty_submission_is_answered_with_an_empty_list() {
    let (state, action) = ScanState::begin(Vec::new());
    assert!(matches!(state, ScanState::Finished));
    assert!(success(action).is_empty());
}

#[test]
fn submission_without_packages_is_answered_with_an_empty_list() {
    let (state, action) = ScanState::begin(vec![b"text".to_vec(), b"\x7fELF".to_vec()]);
    assert!(matches!(state, ScanState::Finished));
    assert!(success(action).is_empty());
}

#[test]
fn begin_asks_the_store_for_the_fingerprints() {
    let (state, action) = ScanState::begin(vec![payload("bbb"), b"junk".to_vec(), payload("aaa")]);
    match state {
        ScanState::AwaitingHits { files } => assert_eq!(files.len(), 2),
        other => panic!("{:?}", other),
    }
    match action {
        ScanAction::Lookup(wanted) => {
            assert_eq!(wanted, vec![FP_BBB.to_string(), FP_AAA.to_string()])
        }
        other => panic!("{:?}", other),
    }
}

#[test]
fn three_files_one_without_signature_give_two_results() {
    let (state, _) = ScanState::begin(vec![payload("aaa"), b"no signature".to_vec(), payload("bbb")]);
    let (state, action) = state.step(ScanEvent::Hits(Vec::new()));
    match action {
        ScanAction::Parse(files) => {
            assert_eq!(files.len(), 2);
            assert_eq!(files[0].data(), &payload("aaa"));
            assert_eq!(files[1].data(), &payload("bbb"));
        }
        other => panic!("{:?}", other),
    }
    let (state, action) = state.step(ScanEvent::Packages(vec![package(&[1, 2, 3]), package(&[4])]));
    match action {
        ScanAction::Infer(batch) => {
            assert_eq!(batch.rows, 2);
            assert_eq!(batch.opcodes, vec![1, 2, 3, 4, 0, 0]);
            assert_eq!(batch.indices, vec![0, 2, 0, 0]);
        }
        other => panic!("{:?}", other),
    }
    let (state, action) = state.step(ScanEvent::Scores {
        scores: scores(&[0.1, 0.1, 0.6, 0.1, 0.1, 0.7, 0.1, 0.1, 0.05, 0.05]),
        timestamp: 42,
    });
    assert!(matches!(state, ScanState::Finished));
    match action {
        ScanAction::Store { documents, response } => {
            assert_eq!(documents.len(), 2);
            assert_eq!(documents[0].sha256, FP_AAA);
            assert_eq!(documents[0].prediction, verdict(Detection::Benign, 0.6));
            assert_eq!(documents[0].timestamp, 42);
            assert_eq!(documents[1].sha256, FP_BBB);
            assert_eq!(documents[1].prediction, verdict(Detection::Adware, 0.7));
            assert_eq!(documents[1].timestamp, 42);
            assert_eq!(
                pairs(&response),
                vec![
                    (FP_AAA.to_string(), verdict(Detection::Benign, 0.6)),
                    (FP_BBB.to_string(), verdict(Detection::Adware, 0.7)),
                ]
            );
        }
        other => panic!("{:?}", other),
    }
}

#[test]
fn answer_is_sorted_whatever_the_order_of_submission() {
    let (state, _) = ScanState::begin(vec![payload("bbb"), payload("ccc"), payload("aaa")]);
    let (state, action) = state.step(ScanEvent::Hits(vec![ProjectedMalceiverDocument {
        sha256: FP_CCC.to_string(),
        prediction: verdict(Detection::Sms, 0.9),
    }]));
    match action {
        ScanAction::Parse(files) => assert_eq!(files.len(), 2),
        other => panic!("{:?}", other),
    }
    let (state, _) = state.step(ScanEvent::Packages(vec![package(&[1]), package(&[2])]));
    let (_, action) = state.step(ScanEvent::Scores {
        scores: scores(&[0.0, 1.0, 0.0, 0.0, 0.0, 0.0, 0.0, 0.0, 1.0, 0.0]),
        timestamp: 0,
    });
    match action {
        ScanAction::Store { documents, response } => {
            assert_eq!(documents.len(), 2);
            assert_eq!(documents[0].sha256, FP_BBB);
            assert_eq!(documents[1].sha256, FP_AAA);
            assert_eq!(
                pairs(&response),
                vec![
                    (FP_CCC.to_string(), verdict(Detection::Sms, 0.9)),
                    (FP_AAA.to_string(), verdict(Detection::Riskware, 1.0)),
                    (FP_BBB.to_string(), verdict(Detection::Banking, 1.0)),
                ]
            );
        }
        other => panic!("{:?}", other),
    }
}

#[test]
fn full_hit_is_answered_from_the_store() {
    let (state, _) = ScanState::begin(vec![payload("bbb"), payload("aaa")]);
    let (state, action) = state.step(ScanEvent::Hits(vec![
        ProjectedMalceiverDocument {
            sha256: FP_BBB.to_string(),
            prediction: verdict(Detection::Adware, 0.7),
        },
        ProjectedMalceiverDocument {
            sha256: FP_AAA.to_string(),
            prediction: verdict(Detection::Benign, 0.6),
        },
    ]));
    assert!(matches!(state, ScanState::Finished));
    assert_eq!(
        pairs(&success(action)),
        vec![
            (FP_AAA.to_string(), verdict(Detection::Benign, 0.6)),
            (FP_BBB.to_string(), verdict(Detection::Adware, 0.7)),
        ]
    );
}

#[test]
fn second_scan_is_served_from_what_the_first_wrote() {
    let row = [0.1, 0.1, 0.6, 0.1, 0.1];
    let (state, _) = ScanState::begin(vec![payload("aaa")]);
    let (state, _) = state.step(ScanEvent::Hits(Vec::new()));
    let (state, _) = state.step(ScanEvent::Packages(vec![package(&[1, 2, 3])]));
    let (_, action) = state.step(ScanEvent::Scores { scores: scores(&row), timestamp: 7 });
    let (documents, first) = match action {
        ScanAction::Store { documents, response } => (documents, response),
        other => panic!("{:?}", other),
    };
    let stored = documents
        .into_iter()
        .map(|d| ProjectedMalceiverDocument { sha256: d.sha256, prediction: d.prediction })
        .collect();
    let (state, _) = ScanState::begin(vec![payload("aaa")]);
    let (state, action) = state.step(ScanEvent::Hits(stored));
    assert!(matches!(state, ScanState::Finished));
    let second = success(action);
    assert_eq!(pairs(&second), pairs(&first));
    assert_eq!(pairs(&second), vec![(FP_AAA.to_string(), verdict(Detection::Benign, 0.6))]);
}

#[test]
fn full_hit_and_full_miss_give_the_same_entries() {
    let submitted = || vec![payload("ccc"), payload("aaa"), payload("bbb")];
    let (state, _) = ScanState::begin(submitted());
    let (state, _) = state.step(ScanEvent::LookupFailed);
    let (state, _) =
        state.step(ScanEvent::Packages(vec![package(&[1]), package(&[2]), package(&[3])]));
    let (_, action) = state.step(ScanEvent::Scores {
        scores: scores(&[
            0.9, 0.0, 0.0, 0.0, 0.1, 0.0, 0.8, 0.0, 0.0, 0.2, 0.0, 0.0, 0.0, 0.3, 0.7,
        ]),
        timestamp: 1,
    });
    let (documents, miss) = match action {
        ScanAction::Store { documents, response } => (documents, response),
        other => panic!("{:?}", other),
    };
    let mut stored: Vec<ProjectedMalceiverDocument> = documents
        .into_iter()
        .map(|d| ProjectedMalceiverDocument { sha256: d.sha256, prediction: d.prediction })
        .collect();
    stored.reverse();
    let (state, _) = ScanState::begin(submitted());
    let (_, action) = state.step(ScanEvent::Hits(stored));
    let hit = success(action);
    assert_eq!(pairs(&hit), pairs(&miss));
    assert_eq!(
        pairs(&hit),
        vec![
            (FP_CCC.to_string(), verdict(Detection::Adware, 0.9)),
            (FP_AAA.to_string(), verdict(Detection::Banking, 0.8)),
            (FP_BBB.to_string(), verdict(Detection::Sms, 0.7)),
        ]
    );
}

#[test]
fn failed_inference_fails_the_whole_batch() {
    let (state, _) = ScanState::begin(vec![
        payload("one"),
        payload("two"),
        payload("three"),
        payload("four"),
        payload("five"),
    ]);
    let (state, _) = state.step(ScanEvent::Hits(Vec::new()));
    let (state, action) = state.step(ScanEvent::Packages(vec![
        package(&[1]),
        package(&[2]),
        package(&[3]),
        package(&[4]),
        package(&[5]),
    ]));
    match action {
        ScanAction::Infer(batch) => assert_eq!(batch.rows, 5),
        other => panic!("{:?}", other),
    }
    let (state, action) = state.step(ScanEvent::InferenceFailed);
    assert!(matches!(state, ScanState::Finished));
    assert_eq!(error(action), INFERENCE_FAILED);
}

#[test]
fn scores_of_the_wrong_shape_fail_the_whole_batch() {
    let (state, _) = ScanState::begin(vec![payload("aaa"), payload("bbb")]);
    let (state, _) = state.step(ScanEvent::Hits(vec![ProjectedMalceiverDocument {
        sha256: "00".to_string(),
        prediction: verdict(Detection::Sms, 0.9),
    }]));
    let (state, _) = state.step(ScanEvent::Packages(vec![package(&[1]), package(&[2])]));
    let (state, action) =
        state.step(ScanEvent::Scores { scores: scores(&[0.2; 9]), timestamp: 0 });
    assert!(matches!(state, ScanState::Finished));
    assert_eq!(error(action), "inference failed");
}

#[test]
fn failed_lookup_scans_every_file() {
    let (state, _) = ScanState::begin(vec![payload("aaa"), payload("bbb")]);
    let (state, action) = state.step(ScanEvent::LookupFailed);
    assert!(matches!(state, ScanState::AwaitingPackages { .. }));
    match action {
        ScanAction::Parse(files) => assert_eq!(files.len(), 2),
        other => panic!("{:?}", other),
    }
}

#[test]
fn files_that_do_not_parse_are_left_out() {
    let (state, _) = ScanState::begin(vec![payload("aaa"), payload("bbb"), payload("ccc")]);
    let (state, _) = state.step(ScanEvent::Hits(Vec::new()));
    let (state, action) = state.step(ScanEvent::Packages(vec![None, package(&[7, 8]), None]));
    match action {
        ScanAction::Infer(batch) => {
            assert_eq!(batch.rows, 1);
            assert_eq!(batch.opcodes, vec![7, 8]);
        }
        other => panic!("{:?}", other),
    }
    let (_, action) =
        state.step(ScanEvent::Scores { scores: scores(&[0.0, 0.0, 0.0, 0.0, 1.0]), timestamp: 3 });
    match action {
        ScanAction::Store { documents, response } => {
            assert_eq!(documents.len(), 1);
            assert_eq!(pairs(&response), vec![(FP_BBB.to_string(), verdict(Detection::Sms, 1.0))]);
        }
        other => panic!("{:?}", other),
    }
}

#[test]
fn nothing_parsed_is_answered_without_inference() {
    let (state, _) = ScanState::begin(vec![payload("aaa"), payload("bbb")]);
    let (state, _) = state.step(ScanEvent::Hits(vec![ProjectedMalceiverDocument {
        sha256: FP_BBB.to_string(),
        prediction: verdict(Detection::Sms, 0.9),
    }]));
    let (state, action) = state.step(ScanEvent::Packages(vec![None]));
    assert!(matches!(state, ScanState::Finished));
    assert_eq!(pairs(&success(action)), vec![(FP_BBB.to_string(), verdict(Detection::Sms, 0.9))]);
}

#[test]
fn equal_files_all_cached_are_answered_from_the_store() {
    let (state, _) = ScanState::begin(vec![payload("aaa"), payload("aaa")]);
    let (state, action) = state.step(ScanEvent::Hits(vec![ProjectedMalceiverDocument {
        sha256: FP_AAA.to_string(),
        prediction: verdict(Detection::Benign, 0.9),
    }]));
    assert!(matches!(state, ScanState::Finished));
    assert_eq!(
        pairs(&success(action)),
        vec![(FP_AAA.to_string(), verdict(Detection::Benign, 0.9))]
    );
}

#[test]
fn event_out_of_turn_ends_the_request() {
    let (state, _) = ScanState::begin(vec![payload("aaa")]);
    let (state, action) = state.step(ScanEvent::InferenceFailed);
    assert!(matches!(state, ScanState::Finished));
    assert_eq!(error(action), OUT_OF_TURN);
    let (state, action) = state.step(ScanEvent::Hits(Vec::new()));
    assert!(matches!(state, ScanState::Finished));
    assert_eq!(error(action), "event out of turn");
}

#[test]
fn packages_that_do_not_match_the_files_end_the_request() {
    let (state, _) = ScanState::begin(vec![payload("aaa"), payload("bbb")]);
    let (state, _) = state.step(ScanEvent::Hits(Vec::new()));
    let (state, action) = state.step(ScanEvent::Packages(vec![package(&[1])]));
    assert!(matches!(state, ScanState::Finished));
    assert_eq!(error(action), OUT_OF_TURN);
}
