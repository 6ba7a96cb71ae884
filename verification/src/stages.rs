//! The stages of a scan request: which payloads are taken, which of them the
//! store already knows, which files yield features, and what is written back.

use crate::batch::feature_views;
use crate::features::{
    extract, features_of, spans_fit, FeatureSet, FeatureSetView, ParsedPackage, ParsedPackageView,
};
use crate::fingerprint::spec_sha256;
use crate::response::distinct_fingerprints;
use crate::models::{
    response_views, MalceiverDocument, MalceiverDocumentView, Prediction,
    ProjectedMalceiverDocument, ScanFile, ScanFileView, ScanResponse, ScanResponseView,
};
use vstd::prelude::*;

verus! {

/// Whether `data` begins with the two signature bytes of a package archive,
/// `P` and `K`.
pub open spec fn has_signature(data: Seq<u8>) -> bool {
    data.len() >= 2 && data[0] == 0x50 && data[1] == 0x4b
}

/// Whether `data` begins with the signature of a package archive.
pub fn has_package_signature(data: &[u8]) -> (out: bool)
    ensures
        out == has_signature(data@),
{
    data.len() >= 2 && data[0] == 0x50 && data[1] == 0x4b
}

/// The payloads, as byte sequences.
pub open spec fn payload_views(payloads: Seq<Vec<u8>>) -> Seq<Seq<u8>> {
    payloads.map_values(|payload: Vec<u8>| payload@)
}

/// The views of a sequence of files, in order.
pub open spec fn file_views(files: Seq<ScanFile>) -> Seq<ScanFileView> {
    files.map_values(|file: ScanFile| file@)
}

/// The views of a sequence of strings, in order.
pub open spec fn string_views(strings: Seq<String>) -> Seq<Seq<char>> {
    strings.map_values(|string: String| string@)
}

/// The file made of a payload: its bytes and their fingerprint.
pub open spec fn file_of(data: Seq<u8>) -> ScanFileView {
    ScanFileView { sha256: spec_sha256(data), data }
}

/// The files taken from the first `count` payloads: those that carry the
/// signature, in the order submitted.
pub open spec fn ingested(payloads: Seq<Seq<u8>>, count: int) -> Seq<ScanFileView>
    decreases count,
{
    if count <= 0 {
        Seq::empty()
    } else if has_signature(payloads[count - 1]) {
        ingested(payloads, count - 1).push(file_of(payloads[count - 1]))
    } else {
        ingested(payloads, count - 1)
    }
}

/// Takes the payloads that carry the package signature and fingerprints
/// them; the others are left out.
pub fn ingest(payloads: Vec<Vec<u8>>) -> (files: Vec<ScanFile>)
    ensures
        file_views(files@) == ingested(payload_views(payloads@), payloads@.len() as int),
{
    let ghost all = payload_views(payloads@);
    let mut files: Vec<ScanFile> = Vec::new();
    assert(file_views(files@) =~= ingested(all, 0));
    for payload in it: payloads
        invariant
            it.seq() == payloads@,
            all == payload_views(payloads@),
            file_views(files@) == ingested(all, it.index() as int),
    {
        let ghost taken = files@;
        assert(all[it.index() as int] == payload@);
        if has_package_signature(payload.as_slice()) {
            let file = ScanFile::new(payload);
            files.push(file);
            assert(file_views(files@) =~= file_views(taken).push(file_of(payload@)));
        }
    }
    files
}

/// The fingerprints of a sequence of files, in order.
pub open spec fn fingerprints_of(files: Seq<ScanFileView>) -> Seq<Seq<char>> {
    files.map_values(|file: ScanFileView| file.sha256)
}

/// The fingerprints of `files`, in order: what the store is asked for.
pub fn fingerprints(files: &Vec<ScanFile>) -> (out: Vec<String>)
    ensures
        string_views(out@) == fingerprints_of(file_views(files@)),
{
    let mut out: Vec<String> = Vec::new();
    let mut i: usize = 0;
    while i < files.len()
        invariant
            i <= files@.len(),
            out@.len() == i,
            forall|k: int| 0 <= k < i ==> (#[trigger] out@[k])@ == files@[k]@.sha256,
        decreases files@.len() - i,
    {
        out.push(files[i].sha256().clone());
        i += 1;
    }
    assert(string_views(out@) =~= fingerprints_of(file_views(files@)));
    out
}

/// Whether `entries` hold a verdict for `fingerprint`.
pub open spec fn holds(entries: Seq<ScanResponseView>, fingerprint: Seq<char>) -> bool {
    exists|i: int| 0 <= i < entries.len() && (#[trigger] entries[i]).sha256 == fingerprint
}

/// Whether `at` is the index of the first of `entries` with `fingerprint`.
pub open spec fn is_first_index(
    entries: Seq<ScanResponseView>,
    fingerprint: Seq<char>,
    at: int,
) -> bool {
    &&& 0 <= at < entries.len()
    &&& entries[at].sha256 == fingerprint
    &&& forall|i: int| 0 <= i < at ==> (#[trigger] entries[i]).sha256 != fingerprint
}

/// The index of the first of `entries` with `fingerprint`, if there is one.
pub fn find_fingerprint(entries: &Vec<ScanResponse>, fingerprint: &String) -> (out: Option<usize>)
    ensures
        out is Some <==> holds(response_views(entries@), fingerprint@),
        out matches Some(at) ==> is_first_index(response_views(entries@), fingerprint@, at as int),
{
    let ghost views = response_views(entries@);
    let mut i: usize = 0;
    while i < entries.len()
        invariant
            i <= entries@.len(),
            views == response_views(entries@),
            forall|k: int| 0 <= k < i ==> (#[trigger] views[k]).sha256 != fingerprint@,
        decreases entries@.len() - i,
    {
        if entries[i].sha256 == *fingerprint {
            assert(views[i as int].sha256 == fingerprint@);
            return Some(i);
        }
        i += 1;
    }
    None
}

/// The index of the first of `entries` with `fingerprint`.
pub open spec fn first_index(entries: Seq<ScanResponseView>, fingerprint: Seq<char>) -> int {
    choose|at: int| is_first_index(entries, fingerprint, at)
}

/// There is one first index at most.
pub proof fn lemma_first_index_unique(
    entries: Seq<ScanResponseView>,
    fingerprint: Seq<char>,
    at: int,
)
    requires
        is_first_index(entries, fingerprint, at),
    ensures
        first_index(entries, fingerprint) == at,
        holds(entries, fingerprint),
{
    let other = first_index(entries, fingerprint);
    assert(is_first_index(entries, fingerprint, other));
    if other < at {
        assert(entries[other].sha256 != fingerprint);
    } else if at < other {
        assert(entries[at].sha256 != fingerprint);
    }
}

/// Among entries that hold a fingerprint, one is the first to do so.
pub proof fn lemma_first_index_exists(
    entries: Seq<ScanResponseView>,
    fingerprint: Seq<char>,
    from: int,
)
    requires
        0 <= from <= entries.len(),
        forall|i: int| 0 <= i < from ==> (#[trigger] entries[i]).sha256 != fingerprint,
        holds(entries, fingerprint),
    ensures
        is_first_index(entries, fingerprint, first_index(entries, fingerprint)),
    decreases entries.len() - from,
{
    if from == entries.len() {
        let i = choose|i: int| 0 <= i < entries.len() && (#[trigger] entries[i]).sha256 == fingerprint;
        assert(entries[i].sha256 != fingerprint);
    } else if entries[from].sha256 == fingerprint {
        assert(is_first_index(entries, fingerprint, from));
    } else {
        lemma_first_index_exists(entries, fingerprint, from + 1);
    }
}

/// `entries` after the store has returned `entry`: its verdict takes the
/// place of the one held for the same fingerprint, or is added at the end.
pub open spec fn upserted(
    entries: Seq<ScanResponseView>,
    entry: ScanResponseView,
) -> Seq<ScanResponseView> {
    if holds(entries, entry.sha256) {
        entries.update(first_index(entries, entry.sha256), entry)
    } else {
        entries.push(entry)
    }
}

/// The hits among the first `count` documents that a lookup returned: one
/// entry per fingerprint, with the verdict of the last document that has it.
pub open spec fn hits_of(documents: Seq<ScanResponseView>, count: int) -> Seq<ScanResponseView>
    decreases count,
{
    if count <= 0 {
        Seq::empty()
    } else {
        upserted(hits_of(documents, count - 1), documents[count - 1])
    }
}

/// The views of the documents of a lookup, in order.
pub open spec fn projected_views(
    documents: Seq<ProjectedMalceiverDocument>,
) -> Seq<ScanResponseView> {
    documents.map_values(|document: ProjectedMalceiverDocument| document@)
}

/// The hits hold each fingerprint once, and exactly the fingerprints of the
/// documents.
pub proof fn lemma_hits_distinct(documents: Seq<ScanResponseView>, count: int)
    requires
        count <= documents.len(),
    ensures
        distinct_fingerprints(hits_of(documents, count)),
        forall|fingerprint: Seq<char>|
            holds(hits_of(documents, count), fingerprint) <==> exists|k: int|
                0 <= k < count && (#[trigger] documents[k]).sha256 == fingerprint,
        hits_of(documents, count).len() <= if count <= 0 {
            0
        } else {
            count
        },
    decreases count,
{
    if count > 0 {
        lemma_hits_distinct(documents, count - 1);
        let before = hits_of(documents, count - 1);
        let entry = documents[count - 1];
        let after = hits_of(documents, count);
        if holds(before, entry.sha256) {
            let at = first_index(before, entry.sha256);
            lemma_first_index_exists(before, entry.sha256, 0);
            assert forall|i: int| 0 <= i < after.len() implies (#[trigger] after[i]).sha256
                == before[i].sha256 by {}
            assert forall|fingerprint: Seq<char>|
                holds(after, fingerprint) <==> exists|k: int|
                    0 <= k < count && (#[trigger] documents[k]).sha256 == fingerprint by {
                if holds(after, fingerprint) {
                    let i = choose|i: int|
                        0 <= i < after.len() && (#[trigger] after[i]).sha256 == fingerprint;
                    assert(before[i].sha256 == fingerprint);
                    assert(holds(before, fingerprint));
                }
                if exists|k: int| 0 <= k < count && (#[trigger] documents[k]).sha256 == fingerprint {
                    let k = choose|k: int|
                        0 <= k < count && (#[trigger] documents[k]).sha256 == fingerprint;
                    if k == count - 1 {
                        assert(after[at].sha256 == fingerprint);
                    } else {
                        assert(holds(before, fingerprint));
                        let i = choose|i: int|
                            0 <= i < before.len() && (#[trigger] before[i]).sha256 == fingerprint;
                        assert(after[i].sha256 == fingerprint);
                    }
                }
            }
        } else {
            assert forall|i: int, j: int| 0 <= i < j < after.len() implies (#[trigger] after[i]).sha256
                != (#[trigger] after[j]).sha256 by {
                if j == after.len() - 1 {
                    assert(before[i].sha256 != entry.sha256);
                }
            }
            assert forall|fingerprint: Seq<char>|
                holds(after, fingerprint) <==> exists|k: int|
                    0 <= k < count && (#[trigger] documents[k]).sha256 == fingerprint by {
                if holds(after, fingerprint) {
                    let i = choose|i: int|
                        0 <= i < after.len() && (#[trigger] after[i]).sha256 == fingerprint;
                    if i < before.len() {
                        assert(before[i].sha256 == fingerprint);
                        assert(holds(before, fingerprint));
                    } else {
                        assert(documents[count - 1].sha256 == fingerprint);
                    }
                }
                if exists|k: int| 0 <= k < count && (#[trigger] documents[k]).sha256 == fingerprint {
                    let k = choose|k: int|
                        0 <= k < count && (#[trigger] documents[k]).sha256 == fingerprint;
                    if k == count - 1 {
                        assert(after[after.len() - 1].sha256 == fingerprint);
                    } else {
                        assert(holds(before, fingerprint));
                        let i = choose|i: int|
                            0 <= i < before.len() && (#[trigger] before[i]).sha256 == fingerprint;
                        assert(after[i].sha256 == fingerprint);
                    }
                }
            }
        }
    }
}

/// Gathers the documents that a lookup returned into the hits of the
/// request: one entry per fingerprint, a later document replacing the verdict
/// of an earlier one with the same fingerprint.
pub fn collect_hits(documents: Vec<ProjectedMalceiverDocument>) -> (hits: Vec<ScanResponse>)
    ensures
        response_views(hits@) == hits_of(projected_views(documents@), documents@.len() as int),
        distinct_fingerprints(response_views(hits@)),
{
    let ghost all = projected_views(documents@);
    let mut hits: Vec<ScanResponse> = Vec::new();
    assert(response_views(hits@) =~= hits_of(all, 0));
    for document in it: documents
        invariant
            it.seq() == documents@,
            all == projected_views(documents@),
            response_views(hits@) == hits_of(all, it.index() as int),
    {
        let ghost before = response_views(hits@);
        assert(all[it.index() as int] == document@);
        let found = find_fingerprint(&hits, &document.sha256);
        let entry = ScanResponse { sha256: document.sha256, prediction: document.prediction };
        match found {
            Some(at) => {
                proof {
                    lemma_first_index_unique(before, entry@.sha256, at as int);
                }
                hits.set(at, entry);
                assert(response_views(hits@) =~= before.update(at as int, entry@));
            },
            None => {
                hits.push(entry);
                assert(response_views(hits@) =~= before.push(entry@));
            },
        }
    }
    proof {
        lemma_hits_distinct(all, documents@.len() as int);
    }
    hits
}

/// The files among the first `count` whose fingerprint `cached` does not
/// hold, in the order submitted.
pub open spec fn misses_of(
    files: Seq<ScanFileView>,
    cached: Seq<ScanResponseView>,
    count: int,
) -> Seq<ScanFileView>
    decreases count,
{
    if count <= 0 {
        Seq::empty()
    } else if holds(cached, files[count - 1].sha256) {
        misses_of(files, cached, count - 1)
    } else {
        misses_of(files, cached, count - 1).push(files[count - 1])
    }
}

/// The files for which the store returned no verdict.
pub fn select_misses(files: Vec<ScanFile>, cached: &Vec<ScanResponse>) -> (misses: Vec<ScanFile>)
    ensures
        file_views(misses@) == misses_of(
            file_views(files@),
            response_views(cached@),
            files@.len() as int,
        ),
{
    let ghost all = file_views(files@);
    let ghost known = response_views(cached@);
    let mut misses: Vec<ScanFile> = Vec::new();
    assert(file_views(misses@) =~= misses_of(all, known, 0));
    for file in it: files
        invariant
            it.seq() == files@,
            all == file_views(files@),
            known == response_views(cached@),
            file_views(misses@) == misses_of(all, known, it.index() as int),
    {
        let ghost before = file_views(misses@);
        assert(all[it.index() as int] == file@);
        if find_fingerprint(cached, file.sha256()).is_none() {
            misses.push(file);
            assert(file_views(misses@) =~= before.push(file@));
        }
    }
    misses
}

/// What the parser made of a file: the package, or nothing where it failed.
pub open spec fn package_view(package: Option<ParsedPackage>) -> Option<ParsedPackageView> {
    match package {
        Some(parsed) => Some(parsed@),
        None => None,
    }
}

/// What the parser made of each file, in order.
pub open spec fn package_views(
    packages: Seq<Option<ParsedPackage>>,
) -> Seq<Option<ParsedPackageView>> {
    packages.map_values(|package: Option<ParsedPackage>| package_view(package))
}

/// Whether a file yields features: the parser made a package of it, and the
/// spans of that package can be held.
pub open spec fn extractable(package: Option<ParsedPackageView>) -> bool {
    package matches Some(parsed) && spans_fit(parsed.methods)
}

/// The fingerprints of those among the first `count` files that yield
/// features, in order.
pub open spec fn scanned_of(
    fingerprints: Seq<Seq<char>>,
    packages: Seq<Option<ParsedPackageView>>,
    count: int,
) -> Seq<Seq<char>>
    decreases count,
{
    if count <= 0 {
        Seq::empty()
    } else if extractable(packages[count - 1]) {
        scanned_of(fingerprints, packages, count - 1).push(fingerprints[count - 1])
    } else {
        scanned_of(fingerprints, packages, count - 1)
    }
}

/// The features of those among the first `count` files that yield any, in
/// order.
pub open spec fn features_among(
    packages: Seq<Option<ParsedPackageView>>,
    count: int,
) -> Seq<FeatureSetView>
    decreases count,
{
    if count <= 0 {
        Seq::empty()
    } else if extractable(packages[count - 1]) {
        features_among(packages, count - 1).push(features_of(packages[count - 1].unwrap()))
    } else {
        features_among(packages, count - 1)
    }
}

/// There are as many feature sets as fingerprints of scanned files, and all
/// are well formed.
pub proof fn lemma_scanned_rows(
    fingerprints: Seq<Seq<char>>,
    packages: Seq<Option<ParsedPackageView>>,
    count: int,
)
    ensures
        scanned_of(fingerprints, packages, count).len() == features_among(packages, count).len(),
        forall|i: int|
            0 <= i < features_among(packages, count).len() ==> (#[trigger] features_among(
                packages,
                count,
            )[i]).well_formed(),
    decreases count,
{
    if count > 0 {
        lemma_scanned_rows(fingerprints, packages, count - 1);
        if extractable(packages[count - 1]) {
            crate::features::lemma_features_well_formed(packages[count - 1].unwrap());
        }
    }
}

/// The lesser of two lengths.
pub open spec fn shorter(a: nat, b: nat) -> int {
    if a <= b {
        a as int
    } else {
        b as int
    }
}

/// Extracts the features of every file of which the parser made a package.
/// A file that the parser failed on, or whose spans cannot be held, is left
/// out, and the others go on. `fingerprints[i]` and `packages[i]` belong to
/// the same file, and what has no partner is left out; the two results
/// belong together row by row.
pub fn extract_all(fingerprints: Vec<String>, packages: &Vec<Option<ParsedPackage>>) -> (out: (
    Vec<String>,
    Vec<FeatureSet>,
))
    ensures
        string_views(out.0@) == scanned_of(
            string_views(fingerprints@),
            package_views(packages@),
            shorter(fingerprints@.len(), packages@.len()),
        ),
        feature_views(out.1@) == features_among(
            package_views(packages@),
            shorter(fingerprints@.len(), packages@.len()),
        ),
        out.0@.len() == out.1@.len(),
{
    let ghost names = string_views(fingerprints@);
    let ghost parsed = package_views(packages@);
    let mut scanned: Vec<String> = Vec::new();
    let mut features: Vec<FeatureSet> = Vec::new();
    let mut i: usize = 0;
    let total = packages.len();
    assert(string_views(scanned@) =~= scanned_of(names, parsed, 0));
    assert(feature_views(features@) =~= features_among(parsed, 0));
    for fingerprint in it: fingerprints
        invariant
            it.seq() == fingerprints@,
            total == packages@.len(),
            i == shorter(it.index() as nat, packages@.len()),
            names == string_views(fingerprints@),
            parsed == package_views(packages@),
            string_views(scanned@) == scanned_of(names, parsed, i as int),
            feature_views(features@) == features_among(parsed, i as int),
    {
        if i < total {
            let ghost named = string_views(scanned@);
            let ghost found = feature_views(features@);
            assert(names[i as int] == fingerprint@);
            assert(parsed[i as int] == package_view(packages@[i as int]));
            match &packages[i] {
                Some(package) => {
                    match extract(package) {
                        Ok(set) => {
                            scanned.push(fingerprint);
                            features.push(set);
                            assert(string_views(scanned@) =~= named.push(fingerprint@));
                            assert(feature_views(features@) =~= found.push(set@));
                        },
                        Err(_) => {},
                    }
                },
                None => {},
            }
            i += 1;
        }
    }
    proof {
        lemma_scanned_rows(names, parsed, i as int);
    }
    (scanned, features)
}

/// The records of a scan: verdict `i` under fingerprint `i`, all with the
/// same time, for as long as there are both.
pub open spec fn documents_of(
    fingerprints: Seq<Seq<char>>,
    predictions: Seq<Prediction>,
    timestamp: i64,
) -> Seq<MalceiverDocumentView> {
    Seq::new(
        shorter(fingerprints.len(), predictions.len()) as nat,
        |i: int|
            MalceiverDocumentView {
                sha256: fingerprints[i],
                prediction: predictions[i],
                timestamp,
            },
    )
}

/// The views of a sequence of records, in order.
pub open spec fn document_views(documents: Seq<MalceiverDocument>) -> Seq<MalceiverDocumentView> {
    documents.map_values(|document: MalceiverDocument| document@)
}

/// Joins the fingerprints of the files scanned with their verdicts, row by
/// row, into the records to store. What has no partner is left out.
pub fn build_documents(
    fingerprints: Vec<String>,
    predictions: &Vec<Prediction>,
    timestamp: i64,
) -> (documents: Vec<MalceiverDocument>)
    ensures
        document_views(documents@) == documents_of(
            string_views(fingerprints@),
            predictions@,
            timestamp,
        ),
{
    let mut documents: Vec<MalceiverDocument> = Vec::new();
    let mut i: usize = 0;
    let total = predictions.len();
    for fingerprint in it: fingerprints
        invariant
            it.seq() == fingerprints@,
            total == predictions@.len(),
            i == shorter(it.index() as nat, predictions@.len()),
            documents@.len() == i,
            forall|k: int|
                0 <= k < i ==> (#[trigger] documents@[k])@ == documents_of(
                    string_views(fingerprints@),
                    predictions@,
                    timestamp,
                )[k],
    {
        if i < total {
            documents.push(
                MalceiverDocument { sha256: fingerprint, prediction: predictions[i], timestamp },
            );
            i += 1;
        }
    }
    assert(document_views(documents@) =~= documents_of(
        string_views(fingerprints@),
        predictions@,
        timestamp,
    ));
    documents
}

/// The response entries of a sequence of records: each without its time.
pub open spec fn entries_of(documents: Seq<MalceiverDocumentView>) -> Seq<ScanResponseView> {
    documents.map_values(
        |document: MalceiverDocumentView|
            ScanResponseView { sha256: document.sha256, prediction: document.prediction },
    )
}

/// The response entries of the records just made.
pub fn response_entries(documents: &Vec<MalceiverDocument>) -> (entries: Vec<ScanResponse>)
    ensures
        response_views(entries@) == entries_of(document_views(documents@)),
{
    let mut entries: Vec<ScanResponse> = Vec::new();
    let mut i: usize = 0;
    while i < documents.len()
        invariant
            i <= documents@.len(),
            entries@.len() == i,
            forall|k: int|
                0 <= k < i ==> (#[trigger] entries@[k])@ == entries_of(
                    document_views(documents@),
                )[k],
        decreases documents@.len() - i,
    {
        let document = &documents[i];
        entries.push(
            ScanResponse { sha256: document.sha256.clone(), prediction: document.prediction },
        );
        i += 1;
    }
    assert(response_views(entries@) =~= entries_of(document_views(documents@)));
    entries
}

/// How many of the first `count` payloads carry the signature.
pub open spec fn signed_count(payloads: Seq<Seq<u8>>, count: int) -> int
    decreases count,
{
    if count <= 0 {
        0
    } else if has_signature(payloads[count - 1]) {
        signed_count(payloads, count - 1) + 1
    } else {
        signed_count(payloads, count - 1)
    }
}

/// The files taken are as many as the payloads that carry the signature;
/// each of them carries it, and its fingerprint is that of its bytes.
pub proof fn lemma_ingested_files(payloads: Seq<Seq<u8>>, count: int)
    requires
        count <= payloads.len(),
    ensures
        ingested(payloads, count).len() == signed_count(payloads, count),
        0 <= signed_count(payloads, count) <= if count <= 0 {
            0
        } else {
            count
        },
        forall|i: int|
            0 <= i < ingested(payloads, count).len() ==> has_signature(
                (#[trigger] ingested(payloads, count)[i]).data,
            ) && ingested(payloads, count)[i].sha256 == spec_sha256(
                ingested(payloads, count)[i].data,
            ),
    decreases count,
{
    if count > 0 {
        lemma_ingested_files(payloads, count - 1);
    }
}

/// Where no payload carries the signature, no file is taken.
pub proof fn lemma_nothing_ingested(payloads: Seq<Seq<u8>>, count: int)
    requires
        count <= payloads.len(),
        forall|i: int| 0 <= i < count ==> !has_signature(#[trigger] payloads[i]),
    ensures
        ingested(payloads, count) == Seq::<ScanFileView>::empty(),
    decreases count,
{
    if count > 0 {
        lemma_nothing_ingested(payloads, count - 1);
    }
}

/// Documents with distinct fingerprints are their own hits.
pub proof fn lemma_hits_of_distinct(documents: Seq<ScanResponseView>, count: int)
    requires
        0 <= count <= documents.len(),
        distinct_fingerprints(documents),
    ensures
        hits_of(documents, count) == documents.take(count),
    decreases count,
{
    if count > 0 {
        lemma_hits_of_distinct(documents, count - 1);
        let before = documents.take(count - 1);
        let entry = documents[count - 1];
        if holds(before, entry.sha256) {
            let i = choose|i: int| 0 <= i < before.len() && (#[trigger] before[i]).sha256 == entry.sha256;
            assert(documents[i].sha256 != documents[count - 1].sha256);
        }
        assert(before.push(entry) =~= documents.take(count));
    } else {
        assert(documents.take(0) =~= Seq::empty());
    }
}

/// Where the store holds a verdict for every file, nothing is missed.
pub proof fn lemma_no_misses(files: Seq<ScanFileView>, cached: Seq<ScanResponseView>, count: int)
    requires
        count <= files.len(),
        forall|i: int| 0 <= i < count ==> holds(cached, (#[trigger] files[i]).sha256),
    ensures
        misses_of(files, cached, count) == Seq::<ScanFileView>::empty(),
    decreases count,
{
    if count > 0 {
        lemma_no_misses(files, cached, count - 1);
    }
}

/// Where the store holds no verdict, every file is missed.
pub proof fn lemma_all_missed(files: Seq<ScanFileView>, count: int)
    requires
        0 <= count <= files.len(),
    ensures
        misses_of(files, Seq::empty(), count) == files.take(count),
    decreases count,
{
    if count > 0 {
        lemma_all_missed(files, count - 1);
        assert(files.take(count - 1).push(files[count - 1]) =~= files.take(count));
    } else {
        assert(files.take(0) =~= Seq::empty());
    }
}

/// The same entries in another order: they hold the same fingerprints, and
/// each once if the others did.
pub proof fn lemma_reordered_entries(a: Seq<ScanResponseView>, b: Seq<ScanResponseView>)
    requires
        a.to_multiset() == b.to_multiset(),
        distinct_fingerprints(a),
    ensures
        distinct_fingerprints(b),
        forall|fingerprint: Seq<char>| holds(a, fingerprint) <==> holds(b, fingerprint),
        a.len() == b.len(),
{
    broadcast use vstd::seq_lib::group_to_multiset_ensures;

    assert(a.no_duplicates()) by {
        assert forall|i: int, j: int| 0 <= i < a.len() && 0 <= j < a.len() && i != j implies a[i]
            != a[j] by {
            if i < j {
                assert(a[i].sha256 != a[j].sha256);
            } else {
                assert(a[j].sha256 != a[i].sha256);
            }
        }
    }
    a.lemma_multiset_has_no_duplicates();
    b.lemma_multiset_has_no_duplicates_conv();
    assert(a.len() == a.to_multiset().len());
    assert(b.len() == b.to_multiset().len());
    assert forall|i: int, j: int| 0 <= i < j < b.len() implies (#[trigger] b[i]).sha256 != (
    #[trigger] b[j]).sha256 by {
        assert(b.contains(b[i]));
        assert(b.contains(b[j]));
        assert(a.to_multiset().count(b[i]) > 0);
        assert(a.to_multiset().count(b[j]) > 0);
        assert(a.contains(b[i]));
        assert(a.contains(b[j]));
        let m = choose|m: int| 0 <= m < a.len() && a[m] == b[i];
        let n = choose|n: int| 0 <= n < a.len() && a[n] == b[j];
        assert(b[i] != b[j]);
        if m < n {
            assert(a[m].sha256 != a[n].sha256);
        } else {
            assert(a[n].sha256 != a[m].sha256);
        }
    }
    assert forall|fingerprint: Seq<char>| holds(a, fingerprint) <==> holds(b, fingerprint) by {
        if holds(a, fingerprint) {
            let i = choose|i: int| 0 <= i < a.len() && (#[trigger] a[i]).sha256 == fingerprint;
            assert(a.contains(a[i]));
            assert(b.to_multiset().count(a[i]) > 0);
            assert(b.contains(a[i]));
            let k = choose|k: int| 0 <= k < b.len() && b[k] == a[i];
            assert(b[k].sha256 == fingerprint);
        }
        if holds(b, fingerprint) {
            let i = choose|i: int| 0 <= i < b.len() && (#[trigger] b[i]).sha256 == fingerprint;
            assert(b.contains(b[i]));
            assert(a.to_multiset().count(b[i]) > 0);
            assert(a.contains(b[i]));
            let k = choose|k: int| 0 <= k < a.len() && a[k] == b[i];
            assert(a[k].sha256 == fingerprint);
        }
    }
}

/// Where every file yields features, every fingerprint is scanned, in order.
pub proof fn lemma_all_scanned(
    fingerprints: Seq<Seq<char>>,
    packages: Seq<Option<ParsedPackageView>>,
    count: int,
)
    requires
        0 <= count <= packages.len(),
        count <= fingerprints.len(),
        forall|i: int| 0 <= i < count ==> extractable(#[trigger] packages[i]),
    ensures
        scanned_of(fingerprints, packages, count) == fingerprints.take(count),
        features_among(packages, count).len() == count,
    decreases count,
{
    if count > 0 {
        lemma_all_scanned(fingerprints, packages, count - 1);
        assert(fingerprints.take(count - 1).push(fingerprints[count - 1]) =~= fingerprints.take(
            count,
        ));
    } else {
        assert(fingerprints.take(0) =~= Seq::empty());
    }
}

/// Where no file yields features, nothing is scanned.
pub proof fn lemma_none_scanned(
    fingerprints: Seq<Seq<char>>,
    packages: Seq<Option<ParsedPackageView>>,
    count: int,
)
    requires
        count <= packages.len(),
        forall|i: int| 0 <= i < count ==> !extractable(#[trigger] packages[i]),
    ensures
        scanned_of(fingerprints, packages, count) == Seq::<Seq<char>>::empty(),
        features_among(packages, count) == Seq::<FeatureSetView>::empty(),
    decreases count,
{
    if count > 0 {
        lemma_none_scanned(fingerprints, packages, count - 1);
    }
}

} // verus!
