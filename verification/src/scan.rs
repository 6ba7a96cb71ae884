//! The scan request as a state machine. The caller does what each action
//! asks of the store, the parser and the classifier, and hands back what came
//! of it as the next event; every decision of the request is taken here.

use crate::batch::{assemble, batch_of, feature_views, Batch, BatchView};
use crate::features::{ParsedPackage, ParsedPackageView};
use crate::inference::{decode_output, predictions_of};
use crate::models::{
    response_views, ApiResponse, MalceiverDocument, MalceiverDocumentView,
    ProjectedMalceiverDocument, ScanFile, ScanFileView, ScanResponse, ScanResponseView, Score,
    CLASS_COUNT,
};
use crate::response::{
    distinct_fingerprints, lemma_sort_is_sorted, lemma_sort_permutes,
    lemma_sorted_entries_are_unique, merge_responses, merged, sort_by_fingerprint,
    sorted_by_fingerprint,
};
use crate::stages::{
    build_documents, collect_hits, document_views, documents_of,
    entries_of, extract_all, extractable, features_among, file_views, fingerprints,
    fingerprints_of, has_signature, hits_of, holds, ingest, ingested, lemma_all_missed,
    lemma_all_scanned, lemma_hits_of_distinct, lemma_no_misses, lemma_none_scanned,
    lemma_nothing_ingested, lemma_reordered_entries, misses_of, package_views, payload_views,
    projected_views, response_entries, scanned_of, select_misses, string_views,
};
use vstd::prelude::*;

verus! {

/// The message of the response to a request whose batch the classifier
/// failed on, or answered with scores of the wrong shape.
pub const INFERENCE_FAILED: &'static str = "inference failed";

/// The message of the response to a request that was handed an event its
/// state does not wait for.
pub const OUT_OF_TURN: &'static str = "event out of turn";

/// Where a scan request stands.
#[derive(Debug)]
pub enum ScanState {
    /// The store has been asked for the verdicts of `files`.
    AwaitingHits { files: Vec<ScanFile> },
    /// The parser has been given the files that the store did not know;
    /// `misses` holds their fingerprints, `cached` what the store returned.
    AwaitingPackages { cached: Vec<ScanResponse>, misses: Vec<String> },
    /// The classifier has been given a batch; `scanned` holds the
    /// fingerprint of each of its rows.
    AwaitingScores { cached: Vec<ScanResponse>, scanned: Vec<String> },
    /// The request has been answered.
    Finished,
}

/// What came of the action last asked for.
#[derive(Debug)]
pub enum ScanEvent {
    /// The documents that the store returned for the fingerprints asked.
    Hits(Vec<ProjectedMalceiverDocument>),
    /// The store could not be asked.
    LookupFailed,
    /// For each file given to the parser, in order, the package it made of
    /// the file, or nothing where it failed.
    Packages(Vec<Option<ParsedPackage>>),
    /// The scores that the classifier returned for the batch, row by row,
    /// and the time at which it did.
    Scores { scores: Vec<Score>, timestamp: i64 },
    /// The classifier failed.
    InferenceFailed,
}

/// What the caller is to do next.
#[derive(Debug)]
pub enum ScanAction {
    /// Ask the store for the verdicts of these fingerprints, in one query.
    Lookup(Vec<String>),
    /// Parse these files, each on its own.
    Parse(Vec<ScanFile>),
    /// Run the classifier on this batch.
    Infer(Batch),
    /// Write `documents` to the store and, whether or not that succeeds,
    /// answer with `response`.
    Store { documents: Vec<MalceiverDocument>, response: Vec<ScanResponse> },
    /// Answer the request.
    Respond(ApiResponse<Vec<ScanResponse>>),
}

/// What a `ScanState` holds.
pub enum ScanStateView {
    AwaitingHits { files: Seq<ScanFileView> },
    AwaitingPackages { cached: Seq<ScanResponseView>, misses: Seq<Seq<char>> },
    AwaitingScores { cached: Seq<ScanResponseView>, scanned: Seq<Seq<char>> },
    Finished,
}

/// What a `ScanEvent` holds.
pub enum ScanEventView {
    Hits(Seq<ScanResponseView>),
    LookupFailed,
    Packages(Seq<Option<ParsedPackageView>>),
    Scores { scores: Seq<Score>, timestamp: i64 },
    InferenceFailed,
}

/// What a `ScanAction` holds.
pub enum ScanActionView {
    Lookup(Seq<Seq<char>>),
    Parse(Seq<ScanFileView>),
    Infer(BatchView),
    Store { documents: Seq<MalceiverDocumentView>, response: Seq<ScanResponseView> },
    RespondSuccess(Seq<ScanResponseView>),
    RespondError(Seq<char>),
}

impl View for ScanState {
    type V = ScanStateView;

    open spec fn view(&self) -> ScanStateView {
        match *self {
            ScanState::AwaitingHits { files } => ScanStateView::AwaitingHits {
                files: file_views(files@),
            },
            ScanState::AwaitingPackages { cached, misses } => ScanStateView::AwaitingPackages {
                cached: response_views(cached@),
                misses: string_views(misses@),
            },
            ScanState::AwaitingScores { cached, scanned } => ScanStateView::AwaitingScores {
                cached: response_views(cached@),
                scanned: string_views(scanned@),
            },
            ScanState::Finished => ScanStateView::Finished,
        }
    }
}

impl View for ScanEvent {
    type V = ScanEventView;

    open spec fn view(&self) -> ScanEventView {
        match *self {
            ScanEvent::Hits(documents) => ScanEventView::Hits(projected_views(documents@)),
            ScanEvent::LookupFailed => ScanEventView::LookupFailed,
            ScanEvent::Packages(packages) => ScanEventView::Packages(package_views(packages@)),
            ScanEvent::Scores { scores, timestamp } => ScanEventView::Scores {
                scores: scores@,
                timestamp,
            },
            ScanEvent::InferenceFailed => ScanEventView::InferenceFailed,
        }
    }
}

impl View for ScanAction {
    type V = ScanActionView;

    open spec fn view(&self) -> ScanActionView {
        match *self {
            ScanAction::Lookup(wanted) => ScanActionView::Lookup(string_views(wanted@)),
            ScanAction::Parse(files) => ScanActionView::Parse(file_views(files@)),
            ScanAction::Infer(batch) => ScanActionView::Infer(batch@),
            ScanAction::Store { documents, response } => ScanActionView::Store {
                documents: document_views(documents@),
                response: response_views(response@),
            },
            ScanAction::Respond(ApiResponse::Success(entries)) => ScanActionView::RespondSuccess(
                response_views(entries@),
            ),
            ScanAction::Respond(ApiResponse::Error(message)) => ScanActionView::RespondError(
                message@,
            ),
        }
    }
}

/// How a request begins: with no file to scan it is answered at once, with
/// an empty list; else the store is asked for the fingerprints of the files.
pub open spec fn start(payloads: Seq<Seq<u8>>) -> (ScanStateView, ScanActionView) {
    let files = ingested(payloads, payloads.len() as int);
    if files.len() == 0 {
        (ScanStateView::Finished, ScanActionView::RespondSuccess(Seq::empty()))
    } else {
        (ScanStateView::AwaitingHits { files }, ScanActionView::Lookup(fingerprints_of(files)))
    }
}

/// How a request goes on once the store has returned `cached`: where it
/// knows every file, with the answer; else with the parsing of the others.
pub open spec fn after_lookup(
    files: Seq<ScanFileView>,
    cached: Seq<ScanResponseView>,
) -> (ScanStateView, ScanActionView) {
    let misses = misses_of(files, cached, files.len() as int);
    if misses.len() == 0 {
        (ScanStateView::Finished, ScanActionView::RespondSuccess(merged(Seq::empty(), cached)))
    } else {
        (
            ScanStateView::AwaitingPackages { cached, misses: fingerprints_of(misses) },
            ScanActionView::Parse(misses),
        )
    }
}

/// How a request goes on once the parser is done: where no file yields
/// features, with the answer, and the classifier is not run; else with the
/// batch of those that do.
pub open spec fn after_parsing(
    cached: Seq<ScanResponseView>,
    misses: Seq<Seq<char>>,
    packages: Seq<Option<ParsedPackageView>>,
) -> (ScanStateView, ScanActionView) {
    let features = features_among(packages, packages.len() as int);
    if features.len() == 0 {
        (ScanStateView::Finished, ScanActionView::RespondSuccess(merged(Seq::empty(), cached)))
    } else {
        (
            ScanStateView::AwaitingScores {
                cached,
                scanned: scanned_of(misses, packages, packages.len() as int),
            },
            ScanActionView::Infer(batch_of(features)),
        )
    }
}

/// How a request ends once the classifier has returned `scores`: with the
/// new verdicts written back and the answer made of them and of the cached
/// ones; or, where the scores are not one per class and row, with an error
/// and no verdict at all.
pub open spec fn after_inference(
    cached: Seq<ScanResponseView>,
    scanned: Seq<Seq<char>>,
    scores: Seq<Score>,
    timestamp: i64,
) -> (ScanStateView, ScanActionView) {
    if scores.len() == scanned.len() * CLASS_COUNT {
        let documents = documents_of(
            scanned,
            predictions_of(scanned.len() as int, scores),
            timestamp,
        );
        (
            ScanStateView::Finished,
            ScanActionView::Store { documents, response: merged(entries_of(documents), cached) },
        )
    } else {
        (ScanStateView::Finished, ScanActionView::RespondError(INFERENCE_FAILED@))
    }
}

/// The transition of a request: the state that follows `state` on `event`,
/// and the action to take.
pub open spec fn next(state: ScanStateView, event: ScanEventView) -> (
    ScanStateView,
    ScanActionView,
) {
    match (state, event) {
        (ScanStateView::AwaitingHits { files }, ScanEventView::Hits(documents)) => after_lookup(
            files,
            hits_of(documents, documents.len() as int),
        ),
        (ScanStateView::AwaitingHits { files }, ScanEventView::LookupFailed) => after_lookup(
            files,
            Seq::empty(),
        ),
        (
            ScanStateView::AwaitingPackages { cached, misses },
            ScanEventView::Packages(packages),
        ) => if packages.len() == misses.len() {
            after_parsing(cached, misses, packages)
        } else {
            (ScanStateView::Finished, ScanActionView::RespondError(OUT_OF_TURN@))
        },
        (
            ScanStateView::AwaitingScores { cached, scanned },
            ScanEventView::Scores { scores, timestamp },
        ) => after_inference(cached, scanned, scores, timestamp),
        (ScanStateView::AwaitingScores { .. }, ScanEventView::InferenceFailed) => (
            ScanStateView::Finished,
            ScanActionView::RespondError(INFERENCE_FAILED@),
        ),
        _ => (ScanStateView::Finished, ScanActionView::RespondError(OUT_OF_TURN@)),
    }
}

/// The answer that carries the cached verdicts alone, sorted.
fn answer_from_cache(cached: Vec<ScanResponse>) -> (out: (ScanState, ScanAction))
    ensures
        out.0@ == ScanStateView::Finished,
        out.1@ == ScanActionView::RespondSuccess(
            merged(Seq::empty(), response_views(cached@)),
        ),
{
    let fresh: Vec<ScanResponse> = Vec::new();
    assert(response_views(fresh@) =~= Seq::empty());
    let entries = merge_responses(fresh, cached);
    (ScanState::Finished, ScanAction::Respond(ApiResponse::Success(entries)))
}

/// The answer that carries `message` and no verdict.
fn answer_error(message: &'static str) -> (out: (ScanState, ScanAction))
    ensures
        out.0@ == ScanStateView::Finished,
        out.1@ == ScanActionView::RespondError(message@),
{
    (ScanState::Finished, ScanAction::Respond(ApiResponse::Error(message.to_owned())))
}

/// Goes on from the answer of the store.
fn continue_after_lookup(files: Vec<ScanFile>, cached: Vec<ScanResponse>) -> (out: (
    ScanState,
    ScanAction,
))
    ensures
        (out.0@, out.1@) == after_lookup(file_views(files@), response_views(cached@)),
{
    let misses = select_misses(files, &cached);
    if misses.len() == 0 {
        answer_from_cache(cached)
    } else {
        let wanted = fingerprints(&misses);
        (ScanState::AwaitingPackages { cached, misses: wanted }, ScanAction::Parse(misses))
    }
}

/// Goes on from the packages that the parser made.
fn continue_after_parsing(
    cached: Vec<ScanResponse>,
    misses: Vec<String>,
    packages: Vec<Option<ParsedPackage>>,
) -> (out: (ScanState, ScanAction))
    requires
        misses@.len() == packages@.len(),
    ensures
        (out.0@, out.1@) == after_parsing(
            response_views(cached@),
            string_views(misses@),
            package_views(packages@),
        ),
{
    let (scanned, features) = extract_all(misses, &packages);
    match assemble(&features) {
        None => answer_from_cache(cached),
        Some(batch) => (ScanState::AwaitingScores { cached, scanned }, ScanAction::Infer(batch)),
    }
}

/// Ends the request with the scores that the classifier returned.
fn finish_after_inference(
    cached: Vec<ScanResponse>,
    scanned: Vec<String>,
    scores: Vec<Score>,
    timestamp: i64,
) -> (out: (ScanState, ScanAction))
    ensures
        (out.0@, out.1@) == after_inference(
            response_views(cached@),
            string_views(scanned@),
            scores@,
            timestamp,
        ),
{
    match decode_output(scanned.len(), &scores) {
        Ok(predictions) => {
            let documents = build_documents(scanned, &predictions, timestamp);
            let fresh = response_entries(&documents);
            let response = merge_responses(fresh, cached);
            (ScanState::Finished, ScanAction::Store { documents, response })
        },
        Err(_) => answer_error(INFERENCE_FAILED),
    }
}

impl ScanState {
    /// Begins a request with the payloads submitted: takes those that carry
    /// the package signature, and asks the store for their fingerprints. A
    /// request in which no payload does is answered at once, with an empty
    /// list.
    pub fn begin(payloads: Vec<Vec<u8>>) -> (out: (ScanState, ScanAction))
        ensures
            (out.0@, out.1@) == start(payload_views(payloads@)),
    {
        let files = ingest(payloads);
        if files.len() == 0 {
            let entries: Vec<ScanResponse> = Vec::new();
            assert(response_views(entries@) =~= Seq::empty());
            (ScanState::Finished, ScanAction::Respond(ApiResponse::Success(entries)))
        } else {
            let wanted = fingerprints(&files);
            (ScanState::AwaitingHits { files }, ScanAction::Lookup(wanted))
        }
    }

    /// Takes the request one step on: from what came of the last action to
    /// the next action. An event that the state does not wait for ends the
    /// request with an error.
    pub fn step(self, event: ScanEvent) -> (out: (ScanState, ScanAction))
        ensures
            (out.0@, out.1@) == next(self@, event@),
    {
        match self {
            ScanState::AwaitingHits { files } => {
                match event {
                    ScanEvent::Hits(documents) => {
                        let cached = collect_hits(documents);
                        continue_after_lookup(files, cached)
                    },
                    ScanEvent::LookupFailed => {
                        let cached: Vec<ScanResponse> = Vec::new();
                        assert(response_views(cached@) =~= Seq::empty());
                        continue_after_lookup(files, cached)
                    },
                    _ => answer_error(OUT_OF_TURN),
                }
            },
            ScanState::AwaitingPackages { cached, misses } => {
                match event {
                    ScanEvent::Packages(packages) => {
                        if packages.len() == misses.len() {
                            continue_after_parsing(cached, misses, packages)
                        } else {
                            answer_error(OUT_OF_TURN)
                        }
                    },
                    _ => answer_error(OUT_OF_TURN),
                }
            },
            ScanState::AwaitingScores { cached, scanned } => {
                match event {
                    ScanEvent::Scores { scores, timestamp } => {
                        finish_after_inference(cached, scanned, scores, timestamp)
                    },
                    ScanEvent::InferenceFailed => answer_error(INFERENCE_FAILED),
                    _ => answer_error(OUT_OF_TURN),
                }
            },
            ScanState::Finished => answer_error(OUT_OF_TURN),
        }
    }
}

/// The verdicts with which an action answers the request, if it does.
pub open spec fn answer_of(action: ScanActionView) -> Option<Seq<ScanResponseView>> {
    match action {
        ScanActionView::RespondSuccess(entries) => Some(entries),
        ScanActionView::Store { response, .. } => Some(response),
        _ => None,
    }
}

/// Every answer is sorted by fingerprint, ascending, whatever the order of
/// submission and whichever verdicts came from the store.
pub proof fn lemma_answer_is_sorted(state: ScanStateView, event: ScanEventView)
    ensures
        answer_of(next(state, event).1) matches Some(entries) ==> sorted_by_fingerprint(entries),
{
    match (state, event) {
        (ScanStateView::AwaitingHits { files }, ScanEventView::Hits(documents)) => {
            let cached = hits_of(documents, documents.len() as int);
            lemma_sort_is_sorted(Seq::<ScanResponseView>::empty() + cached);
        },
        (ScanStateView::AwaitingHits { files }, ScanEventView::LookupFailed) => {
            lemma_sort_is_sorted(
                Seq::<ScanResponseView>::empty() + Seq::<ScanResponseView>::empty(),
            );
        },
        (
            ScanStateView::AwaitingPackages { cached, misses },
            ScanEventView::Packages(packages),
        ) => {
            lemma_sort_is_sorted(Seq::<ScanResponseView>::empty() + cached);
        },
        (
            ScanStateView::AwaitingScores { cached, scanned },
            ScanEventView::Scores { scores, timestamp },
        ) => {
            let documents = documents_of(
                scanned,
                predictions_of(scanned.len() as int, scores),
                timestamp,
            );
            lemma_sort_is_sorted(entries_of(documents) + cached);
        },
        _ => {},
    }
}

/// The answer to a request that is answered at once is sorted too.
pub proof fn lemma_first_answer_is_sorted(payloads: Seq<Seq<u8>>)
    ensures
        answer_of(start(payloads).1) matches Some(entries) ==> sorted_by_fingerprint(entries),
{
}

/// A request in which no payload carries the package signature is answered
/// at once and with success: the list of verdicts is empty.
pub proof fn lemma_empty_submission(payloads: Seq<Seq<u8>>)
    requires
        forall|i: int| 0 <= i < payloads.len() ==> !has_signature(#[trigger] payloads[i]),
    ensures
        start(payloads) == (
            ScanStateView::Finished,
            ScanActionView::RespondSuccess(Seq::<ScanResponseView>::empty()),
        ),
{
    lemma_nothing_ingested(payloads, payloads.len() as int);
}

/// No batch, no inference. Where none of the files given to the parser
/// yields features, the classifier is not run: the request is answered with
/// what the store returned, and with success.
pub proof fn lemma_nothing_to_infer(
    cached: Seq<ScanResponseView>,
    misses: Seq<Seq<char>>,
    packages: Seq<Option<ParsedPackageView>>,
)
    requires
        packages.len() == misses.len(),
        forall|i: int| 0 <= i < packages.len() ==> !extractable(#[trigger] packages[i]),
    ensures
        next(
            ScanStateView::AwaitingPackages { cached, misses },
            ScanEventView::Packages(packages),
        ) == (
            ScanStateView::Finished,
            ScanActionView::RespondSuccess(merged(Seq::empty(), cached)),
        ),
{
    lemma_none_scanned(misses, packages, packages.len() as int);
}

/// A batch fails as one. When the classifier fails, or returns scores that
/// are not one per class and row, the request ends with one error, and no
/// verdict is returned or written, whatever the store had returned.
pub proof fn lemma_inference_failure_is_whole(
    cached: Seq<ScanResponseView>,
    scanned: Seq<Seq<char>>,
    scores: Seq<Score>,
    timestamp: i64,
)
    ensures
        next(
            ScanStateView::AwaitingScores { cached, scanned },
            ScanEventView::InferenceFailed,
        ) == (ScanStateView::Finished, ScanActionView::RespondError(INFERENCE_FAILED@)),
        scores.len() != scanned.len() * CLASS_COUNT ==> next(
            ScanStateView::AwaitingScores { cached, scanned },
            ScanEventView::Scores { scores, timestamp },
        ) == (ScanStateView::Finished, ScanActionView::RespondError(INFERENCE_FAILED@)),
        scores.len() == scanned.len() * CLASS_COUNT ==> answer_of(
            next(
                ScanStateView::AwaitingScores { cached, scanned },
                ScanEventView::Scores { scores, timestamp },
            ).1,
        ) is Some,
{
}

/// The verdicts that a scan of files with the fingerprints `scanned` writes
/// to the store, as response entries.
pub open spec fn fresh_entries(
    scanned: Seq<Seq<char>>,
    scores: Seq<Score>,
    timestamp: i64,
) -> Seq<ScanResponseView> {
    entries_of(documents_of(scanned, predictions_of(scanned.len() as int, scores), timestamp))
}

/// The entries of a scan carry the fingerprints scanned, row by row.
pub proof fn lemma_fresh_entries(scanned: Seq<Seq<char>>, scores: Seq<Score>, timestamp: i64)
    ensures
        fresh_entries(scanned, scores, timestamp).len() == scanned.len(),
        forall|i: int|
            0 <= i < scanned.len() ==> (#[trigger] fresh_entries(
                scanned,
                scores,
                timestamp,
            )[i]).sha256 == scanned[i],
{
}

/// A request whose files the store knows nothing of. Given files, the
/// packages that the parser made of them, all of which yield features, and
/// the scores of the classifier, the request goes through parsing and
/// inference, writes one record per file and answers with the verdicts just
/// computed, sorted.
pub proof fn lemma_full_miss(
    files: Seq<ScanFileView>,
    packages: Seq<Option<ParsedPackageView>>,
    scores: Seq<Score>,
    timestamp: i64,
)
    requires
        files.len() > 0,
        packages.len() == files.len(),
        forall|i: int| 0 <= i < packages.len() ==> extractable(#[trigger] packages[i]),
        scores.len() == files.len() * CLASS_COUNT,
    ensures
        next(ScanStateView::AwaitingHits { files }, ScanEventView::Hits(Seq::empty())) == (
            ScanStateView::AwaitingPackages {
                cached: Seq::empty(),
                misses: fingerprints_of(files),
            },
            ScanActionView::Parse(files),
        ),
        next(
            ScanStateView::AwaitingPackages {
                cached: Seq::empty(),
                misses: fingerprints_of(files),
            },
            ScanEventView::Packages(packages),
        ) == (
            ScanStateView::AwaitingScores {
                cached: Seq::empty(),
                scanned: fingerprints_of(files),
            },
            ScanActionView::Infer(batch_of(features_among(packages, packages.len() as int))),
        ),
        next(
            ScanStateView::AwaitingScores {
                cached: Seq::empty(),
                scanned: fingerprints_of(files),
            },
            ScanEventView::Scores { scores, timestamp },
        ) == (
            ScanStateView::Finished,
            ScanActionView::Store {
                documents: documents_of(
                    fingerprints_of(files),
                    predictions_of(files.len() as int, scores),
                    timestamp,
                ),
                response: merged(
                    fresh_entries(fingerprints_of(files), scores, timestamp),
                    Seq::empty(),
                ),
            },
        ),
{
    let wanted = fingerprints_of(files);
    lemma_all_missed(files, files.len() as int);
    assert(files.take(files.len() as int) =~= files);
    lemma_all_scanned(wanted, packages, packages.len() as int);
    assert(wanted.take(packages.len() as int) =~= wanted);
}

/// A request all of whose files the store knows. Given files with distinct
/// fingerprints and a store that returns, in any order, the verdicts that a
/// scan of these files had written, the request is answered from the store
/// alone, with no parsing and no inference, and its answer is the answer of
/// that scan.
pub proof fn lemma_full_hit_equals_full_miss(
    files: Seq<ScanFileView>,
    returned: Seq<ScanResponseView>,
    scores: Seq<Score>,
    timestamp: i64,
)
    requires
        forall|i: int, j: int|
            0 <= i < j < files.len() ==> (#[trigger] files[i]).sha256 != (
            #[trigger] files[j]).sha256,
        returned.to_multiset() == fresh_entries(
            fingerprints_of(files),
            scores,
            timestamp,
        ).to_multiset(),
    ensures
        next(ScanStateView::AwaitingHits { files }, ScanEventView::Hits(returned)) == (
            ScanStateView::Finished,
            ScanActionView::RespondSuccess(merged(Seq::empty(), returned)),
        ),
        merged(Seq::empty(), returned) == merged(
            fresh_entries(fingerprints_of(files), scores, timestamp),
            Seq::empty(),
        ),
{
    let wanted = fingerprints_of(files);
    let fresh = fresh_entries(wanted, scores, timestamp);
    lemma_fresh_entries(wanted, scores, timestamp);
    assert(distinct_fingerprints(fresh)) by {
        assert forall|i: int, j: int| 0 <= i < j < fresh.len() implies (#[trigger] fresh[i]).sha256
            != (#[trigger] fresh[j]).sha256 by {
            assert(files[i].sha256 != files[j].sha256);
        }
    }
    lemma_reordered_entries(fresh, returned);
    lemma_hits_of_distinct(returned, returned.len() as int);
    assert(returned.take(returned.len() as int) =~= returned);
    assert forall|i: int| 0 <= i < files.len() implies holds(
        returned,
        (#[trigger] files[i]).sha256,
    ) by {
        assert(fresh[i].sha256 == files[i].sha256);
        assert(holds(fresh, files[i].sha256));
    }
    lemma_no_misses(files, returned, files.len() as int);
    assert(Seq::<ScanResponseView>::empty() + returned =~= returned);
    assert(fresh + Seq::<ScanResponseView>::empty() =~= fresh);
    lemma_sort_permutes(returned);
    lemma_sort_permutes(fresh);
    lemma_sort_is_sorted(returned);
    lemma_sort_is_sorted(fresh);
    lemma_reordered_entries(fresh, sort_by_fingerprint(fresh));
    lemma_reordered_entries(fresh, sort_by_fingerprint(returned));
    lemma_sorted_entries_are_unique(sort_by_fingerprint(fresh), sort_by_fingerprint(returned));
}

/// Scanning again. Once a scan has written its records, a second request
/// with the same files, each with a fingerprint of its own, is answered from
/// the store alone, and with the very answer of the first.
pub proof fn lemma_rescan_is_served_from_cache(
    files: Seq<ScanFileView>,
    scores: Seq<Score>,
    timestamp: i64,
)
    requires
        forall|i: int, j: int|
            0 <= i < j < files.len() ==> (#[trigger] files[i]).sha256 != (
            #[trigger] files[j]).sha256,
    ensures
        next(
            ScanStateView::AwaitingHits { files },
            ScanEventView::Hits(fresh_entries(fingerprints_of(files), scores, timestamp)),
        ) == (
            ScanStateView::Finished,
            ScanActionView::RespondSuccess(
                merged(fresh_entries(fingerprints_of(files), scores, timestamp), Seq::empty()),
            ),
        ),
{
    let fresh = fresh_entries(fingerprints_of(files), scores, timestamp);
    lemma_full_hit_equals_full_miss(files, fresh, scores, timestamp);
    assert(Seq::<ScanResponseView>::empty() + fresh =~= fresh + Seq::<ScanResponseView>::empty());
}

} // verus!
