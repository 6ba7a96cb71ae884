use malceiver::features::ParsedPackage;
use malceiver::models::{
    Detection, Prediction, ProjectedMalceiverDocument, ScanFile, ScanResponse, Score,
};
use malceiver::response::{merge_responses, sort_responses};
use malceiver::stages::{
    build_documents, collect_hits, extract_all, find_fingerprint, fingerprints,
    has_package_signature, ingest, response_entries, select_misses,
};

fn verdict(detection: Detection, probability: f32) -> Prediction {
    Prediction { detection, probability: Score { bits: probability.to_bits() } }
}

fn entry(sha256: &str, detection: Detection, probability: f32) -> ScanResponse {
    ScanResponse { sha256: sha256.to_string(), prediction: verdict(detection, probability) }
}

fn document(sha256: &str, detection: Detection, probability: f32) -> ProjectedMalceiverDocument {
    ProjectedMalceiverDocument {
        sha256: sha256.to_string(),
        prediction: verdict(detection, probability),
    }
}

fn keys(entries: &[ScanResponse]) -> Vec<&str> {
    entries.iter().map(|e| e.sha256.as_str()).collect()
}

#[test]
fn signature_is_the_two_leading_bytes() {
    assert!(has_package_signature(b"PK"));
    assert!(has_package_signature(b"PK\x03\x04rest"));
    assert!(!has_package_signature(b""));
    assert!(!has_package_signature(b"P"));
    assert!(!has_package_signature(b"KP"));
    assert!(!has_package_signature(b"pk\x03\x04"));
    assert!(!has_package_signature(b" PK"));
    assert!(!has_package_signature(b"dex\n035"));
}

#[test]
fn ingest_leaves_out_what_is_no_package() {
    let files = ingest(vec![
        b"PK\x03\x04aaa".to_vec(),
        b"hello".to_vec(),
        b"PK\x03\x04bbb".to_vec(),
    ]);
    assert_eq!(files.len(), 2);
    assert_eq!(files[0].data(), &b"PK\x03\x04aaa".to_vec());
    assert_eq!(files[1].data(), &b"PK\x03\x04bbb".to_vec());
    assert_eq!(
        files[0].sha256,
        "877c8c95b9618405464e97d9d3260457ea5a80a1c724e631880477382942d1aa"
    );
    assert_eq!(
        files[1].sha256,
        "f6af0473109dd50f97b106f82c2ef3731a393a18c9121aeb849f837e952668de"
    );
}

#[test]
fn ingest_of_nothing_valid_is_empty() {
    assert!(ingest(Vec::new()).is_empty());
    assert!(ingest(vec![b"a".to_vec(), Vec::new(), b"KP".to_vec()]).is_empty());
}

#[test]
fn ingest_keeps_equal_files() {
    let files = ingest(vec![b"PK1".to_vec(), b"PK1".to_vec()]);
    assert_eq!(files.len(), 2);
    assert_eq!(files[0].sha256, files[1].sha256);
}

#[test]
fn fingerprints_of_files_in_order() {
    let files = vec![ScanFile::new(b"PK\x03\x04bbb".to_vec()), ScanFile::new(b"PK".to_vec())];
    assert_eq!(
        fingerprints(&files),
        vec![
            "f6af0473109dd50f97b106f82c2ef3731a393a18c9121aeb849f837e952668de".to_string(),
            "fcab7fcc2b4cffd9bb45003bfc2e468a04ef6f77ca8200a7341f027631584d25".to_string(),
        ]
    );
}

#[test]
fn find_fingerprint_gives_the_first_index() {
    let entries = vec![
        entry("aa", Detection::Benign, 0.5),
        entry("bb", Detection::Sms, 0.5),
        entry("aa", Detection::Adware, 0.5),
    ];
    assert_eq!(find_fingerprint(&entries, &"aa".to_string()), Some(0));
    assert_eq!(find_fingerprint(&entries, &"bb".to_string()), Some(1));
    assert_eq!(find_fingerprint(&entries, &"cc".to_string()), None);
    assert_eq!(find_fingerprint(&Vec::new(), &"aa".to_string()), None);
}

#[test]
fn collect_hits_holds_each_fingerprint_once() {
    let hits = collect_hits(vec![
        document("bb", Detection::Benign, 0.5),
        document("aa", Detection::Sms, 0.6),
        document("bb", Detection::Adware, 0.7),
        document("cc", Detection::Banking, 0.8),
    ]);
    assert_eq!(keys(&hits), vec!["bb", "aa", "cc"]);
    assert_eq!(hits[0].prediction, verdict(Detection::Adware, 0.7));
    assert_eq!(hits[1].prediction, verdict(Detection::Sms, 0.6));
    assert_eq!(hits[2].prediction, verdict(Detection::Banking, 0.8));
}

#[test]
fn collect_hits_of_nothing() {
    assert!(collect_hits(Vec::new()).is_empty());
}

#[test]
fn select_misses_leaves_out_what_is_cached() {
    let a = ScanFile::new(b"PK\x03\x04aaa".to_vec());
    let b = ScanFile::new(b"PK\x03\x04bbb".to_vec());
    let c = ScanFile::new(b"PK\x03\x04ccc".to_vec());
    let cached = vec![entry(b.sha256.as_str(), Detection::Benign, 0.9)];
    let misses = select_misses(vec![a, b, c], &cached);
    assert_eq!(misses.len(), 2);
    assert_eq!(misses[0].data(), &b"PK\x03\x04aaa".to_vec());
    assert_eq!(misses[1].data(), &b"PK\x03\x04ccc".to_vec());
}

#[test]
fn select_misses_with_nothing_cached() {
    let files = vec![ScanFile::new(b"PK1".to_vec()), ScanFile::new(b"PK2".to_vec())];
    assert_eq!(select_misses(files, &Vec::new()).len(), 2);
}

#[test]
fn extract_all_leaves_out_what_did_not_parse() {
    let packages = vec![
        Some(ParsedPackage { methods: vec![vec![1, 2]], permissions: vec![] }),
        None,
        Some(ParsedPackage { methods: vec![vec![3]], permissions: vec!["CAMERA".to_string()] }),
    ];
    let (scanned, features) =
        extract_all(vec!["x".to_string(), "y".to_string(), "z".to_string()], &packages);
    assert_eq!(scanned, vec!["x".to_string(), "z".to_string()]);
    assert_eq!(features.len(), 2);
    assert_eq!(features[0].opcodes, vec![1, 2]);
    assert_eq!(features[1].opcodes, vec![3]);
    assert_eq!(features[1].permissions[8], 1);
}

#[test]
fn extract_all_leaves_out_what_has_no_spans() {
    let packages = vec![
        Some(ParsedPackage { methods: vec![vec![0u8; 0x8000_0001]], permissions: vec![] }),
        Some(ParsedPackage { methods: vec![vec![3]], permissions: vec![] }),
    ];
    let (scanned, features) = extract_all(vec!["x".to_string(), "y".to_string()], &packages);
    assert_eq!(scanned, vec!["y".to_string()]);
    assert_eq!(features.len(), 1);
    assert_eq!(features[0].opcodes, vec![3]);
}

#[test]
fn documents_join_fingerprints_and_verdicts() {
    let predictions = vec![verdict(Detection::Sms, 0.9), verdict(Detection::Benign, 0.8)];
    let documents =
        build_documents(vec!["x".to_string(), "y".to_string()], &predictions, 1_700_000_000_000);
    assert_eq!(documents.len(), 2);
    assert_eq!(documents[0].sha256, "x");
    assert_eq!(documents[0].prediction, predictions[0]);
    assert_eq!(documents[0].timestamp, 1_700_000_000_000);
    assert_eq!(documents[1].sha256, "y");
    assert_eq!(documents[1].prediction, predictions[1]);
    assert_eq!(documents[1].timestamp, 1_700_000_000_000);
    let entries = response_entries(&documents);
    assert_eq!(keys(&entries), vec!["x", "y"]);
    assert_eq!(entries[0].prediction, predictions[0]);
    assert_eq!(entries[1].prediction, predictions[1]);
}

#[test]
fn sort_puts_fingerprints_in_ascending_order() {
    let sorted = sort_responses(vec![
        entry("b3", Detection::Benign, 0.5),
        entry("a1", Detection::Sms, 0.6),
        entry("c9", Detection::Adware, 0.7),
    ]);
    assert_eq!(keys(&sorted), vec!["a1", "b3", "c9"]);
    assert_eq!(sorted[0].prediction, verdict(Detection::Sms, 0.6));
    assert_eq!(sorted[1].prediction, verdict(Detection::Benign, 0.5));
    assert_eq!(sorted[2].prediction, verdict(Detection::Adware, 0.7));
}

#[test]
fn sort_of_every_order_is_the_same() {
    let orders = [[0, 1, 2], [0, 2, 1], [1, 0, 2], [1, 2, 0], [2, 0, 1], [2, 1, 0]];
    let names = ["a1", "b3", "c9"];
    for order in orders {
        let entries = order.iter().map(|&i| entry(names[i], Detection::Benign, 0.5)).collect();
        assert_eq!(keys(&sort_responses(entries)), vec!["a1", "b3", "c9"]);
    }
}

#[test]
fn sort_keeps_the_order_of_equal_fingerprints() {
    let sorted = sort_responses(vec![
        entry("bb", Detection::Benign, 0.1),
        entry("aa", Detection::Sms, 0.2),
        entry("bb", Detection::Adware, 0.3),
        entry("aa", Detection::Banking, 0.4),
    ]);
    assert_eq!(keys(&sorted), vec!["aa", "aa", "bb", "bb"]);
    assert_eq!(sorted[0].prediction, verdict(Detection::Sms, 0.2));
    assert_eq!(sorted[1].prediction, verdict(Detection::Banking, 0.4));
    assert_eq!(sorted[2].prediction, verdict(Detection::Benign, 0.1));
    assert_eq!(sorted[3].prediction, verdict(Detection::Adware, 0.3));
}

#[test]
fn sort_of_nothing() {
    assert!(sort_responses(Vec::new()).is_empty());
}

#[test]
fn merge_is_sorted_whatever_the_mix() {
    let merged = merge_responses(
        vec![entry("c9", Detection::Benign, 0.5), entry("a1", Detection::Sms, 0.6)],
        vec![entry("d0", Detection::Adware, 0.7), entry("b3", Detection::Banking, 0.8)],
    );
    assert_eq!(keys(&merged), vec!["a1", "b3", "c9", "d0"]);
    assert_eq!(merged[1].prediction, verdict(Detection::Banking, 0.8));
    let hits_only = merge_responses(
        Vec::new(),
        vec![entry("b3", Detection::Adware, 0.7), entry("a1", Detection::Banking, 0.8)],
    );
    assert_eq!(keys(&hits_only), vec!["a1", "b3"]);
    let fresh_only = merge_responses(
        vec![entry("b3", Detection::Adware, 0.7), entry("a1", Detection::Banking, 0.8)],
        Vec::new(),
    );
    assert_eq!(keys(&fresh_only), vec!["a1", "b3"]);
}

#[test]
fn merge_puts_fresh_before_cached_on_equal_fingerprints() {
    let merged = merge_responses(
        vec![entry("aa", Detection::Benign, 0.5)],
        vec![entry("aa", Detection::Sms, 0.6)],
    );
    assert_eq!(merged[0].prediction, verdict(Detection::Benign, 0.5));
    assert_eq!(merged[1].prediction, verdict(Detection::Sms, 0.6));
}

#[test]
fn documents_stop_at_the_shorter_side() {
    let predictions = vec![verdict(Detection::Sms, 0.9)];
    let documents = build_documents(vec!["x".to_string(), "y".to_string()], &predictions, 5);
    assert_eq!(documents.len(), 1);
    assert_eq!(documents[0].sha256, "x");
    let predictions = vec![verdict(Detection::Sms, 0.9), verdict(Detection::Benign, 0.8)];
    let documents = build_documents(vec!["x".to_string()], &predictions, 5);
    assert_eq!(documents.len(), 1);
    assert_eq!(documents[0].prediction, predictions[0]);
    assert!(build_documents(Vec::new(), &predictions, 5).is_empty());
}

#[test]
fn extract_all_stops_at_the_shorter_side() {
    let packages = vec![Some(ParsedPackage { methods: vec![vec![1]], permissions: vec![] })];
    let (scanned, features) = extract_all(vec!["x".to_string(), "y".to_string()], &packages);
    assert_eq!(scanned, vec!["x".to_string()]);
    assert_eq!(features.len(), 1);
    let (scanned, features) = extract_all(Vec::new(), &packages);
    assert!(scanned.is_empty());
    assert!(features.is_empty());
}
