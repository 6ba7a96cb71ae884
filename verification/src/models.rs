//! The values a scan request works with: verdicts, submitted files, cache
//! records and the response envelope.

use crate::fingerprint::{sha256, spec_sha256};
use vstd::prelude::*;
use vstd::std_specs::convert::TryFromSpecImpl;

verus! {

/// The classes the classifier tells apart, in the order of its output columns.
#[derive(Debug, Clone, Copy, PartialEq, Eq, Structural)]
pub enum Detection {
    Adware,
    Banking,
    Benign,
    Riskware,
    Sms,
}

/// Number of classes, and so the width of one row of classifier output.
pub const CLASS_COUNT: usize = 5;

impl Detection {
    /// The class of an output column, if there is such a column.
    pub open spec fn of_index(index: int) -> Option<Detection> {
        if index == 0 {
            Some(Detection::Adware)
        } else if index == 1 {
            Some(Detection::Banking)
        } else if index == 2 {
            Some(Detection::Benign)
        } else if index == 3 {
            Some(Detection::Riskware)
        } else if index == 4 {
            Some(Detection::Sms)
        } else {
            None
        }
    }

    /// The output column of a class.
    pub open spec fn spec_index(self) -> int {
        match self {
            Detection::Adware => 0,
            Detection::Banking => 1,
            Detection::Benign => 2,
            Detection::Riskware => 3,
            Detection::Sms => 4,
        }
    }

    /// The output column of a class.
    pub fn index(self) -> (out: usize)
        ensures
            out == self.spec_index(),
            Detection::of_index(out as int) == Some(self),
    {
        match self {
            Detection::Adware => 0,
            Detection::Banking => 1,
            Detection::Benign => 2,
            Detection::Riskware => 3,
            Detection::Sms => 4,
        }
    }
}

impl TryFrom<usize> for Detection {
    type Error = usize;

    /// The class of output column `value`; a value that names no column is
    /// handed back as the error.
    fn try_from(value: usize) -> (out: Result<Detection, usize>) {
        match value {
            0 => Ok(Detection::Adware),
            1 => Ok(Detection::Banking),
            2 => Ok(Detection::Benign),
            3 => Ok(Detection::Riskware),
            4 => Ok(Detection::Sms),
            other => Err(other),
        }
    }
}

impl TryFromSpecImpl<usize> for Detection {
    open spec fn obeys_try_from_spec() -> bool {
        true
    }

    open spec fn try_from_spec(value: usize) -> Result<Detection, usize> {
        match Detection::of_index(value as int) {
            Some(class) => Ok(class),
            None => Err(value),
        }
    }
}

/// A class score, held as the bit pattern of an IEEE 754 single-precision
/// number. Scores are ordered by `key`, the standard total order on such
/// patterns: it agrees with the numeric order, and places negative zero below
/// positive zero.
#[derive(Debug, Clone, Copy, PartialEq, Eq, Structural)]
pub struct Score {
    pub bits: u32,
}

impl Score {
    /// The position of this score in the total order: a greater score has a
    /// greater key.
    pub open spec fn key(self) -> int {
        if self.bits >= 0x8000_0000 {
            0xFFFF_FFFF - self.bits
        } else {
            0x8000_0000 + self.bits
        }
    }

    /// The score's position in the total order.
    pub fn rank(self) -> (out: u64)
        ensures
            out == self.key(),
    {
        if self.bits >= 0x8000_0000 {
            (0xFFFF_FFFFu32 - self.bits) as u64
        } else {
            0x8000_0000u64 + self.bits as u64
        }
    }

    /// Whether this score is strictly greater than `other`.
    pub fn exceeds(self, other: Score) -> (out: bool)
        ensures
            out == (self.key() > other.key()),
    {
        self.rank() > other.rank()
    }
}

/// The class decided for a file, with the score of that class.
#[derive(Debug, Clone, Copy, PartialEq, Eq, Structural)]
pub struct Prediction {
    pub detection: Detection,
    pub probability: Score,
}

/// A submitted file: its bytes and the fingerprint computed from them.
#[derive(Debug)]
pub struct ScanFile {
    pub sha256: String,
    data: Vec<u8>,
}

/// What a `ScanFile` holds.
pub struct ScanFileView {
    pub sha256: Seq<char>,
    pub data: Seq<u8>,
}

impl View for ScanFile {
    type V = ScanFileView;

    closed spec fn view(&self) -> ScanFileView {
        ScanFileView { sha256: self.sha256@, data: self.data@ }
    }
}

impl ScanFile {
    /// Whether the fingerprint carried is that of the bytes carried.
    pub open spec fn consistent(&self) -> bool {
        self@.sha256 == spec_sha256(self@.data)
    }

    /// Takes the bytes of a file and fingerprints them.
    pub fn new(data: Vec<u8>) -> (out: ScanFile)
        ensures
            out@.data == data@,
            out@.sha256 == spec_sha256(data@),
            out.consistent(),
    {
        ScanFile { sha256: sha256(data.as_slice()), data }
    }

    /// The file's fingerprint.
    pub fn sha256(&self) -> (out: &String)
        ensures
            out@ == self@.sha256,
    {
        &self.sha256
    }

    /// The file's bytes.
    pub fn data(&self) -> (out: &Vec<u8>)
        ensures
            out@ == self@.data,
    {
        &self.data
    }

    /// Gives up the bytes and keeps the fingerprint.
    pub fn into_sha256(self) -> (out: String)
        ensures
            out@ == self@.sha256,
    {
        self.sha256
    }
}

/// One entry of a scan response: a fingerprint and its verdict.
#[derive(Debug)]
pub struct ScanResponse {
    pub sha256: String,
    pub prediction: Prediction,
}

/// What a `ScanResponse` holds.
pub struct ScanResponseView {
    pub sha256: Seq<char>,
    pub prediction: Prediction,
}

impl View for ScanResponse {
    type V = ScanResponseView;

    open spec fn view(&self) -> ScanResponseView {
        ScanResponseView { sha256: self.sha256@, prediction: self.prediction }
    }
}

/// A cache record as it is stored: fingerprint, verdict, and the time of the
/// scan in milliseconds since the Unix epoch.
#[derive(Debug)]
pub struct MalceiverDocument {
    pub sha256: String,
    pub prediction: Prediction,
    pub timestamp: i64,
}

/// What a `MalceiverDocument` holds.
pub struct MalceiverDocumentView {
    pub sha256: Seq<char>,
    pub prediction: Prediction,
    pub timestamp: i64,
}

impl View for MalceiverDocument {
    type V = MalceiverDocumentView;

    open spec fn view(&self) -> MalceiverDocumentView {
        MalceiverDocumentView {
            sha256: self.sha256@,
            prediction: self.prediction,
            timestamp: self.timestamp,
        }
    }
}

/// A cache record as a lookup returns it: fingerprint and verdict.
#[derive(Debug)]
pub struct ProjectedMalceiverDocument {
    pub sha256: String,
    pub prediction: Prediction,
}

impl View for ProjectedMalceiverDocument {
    type V = ScanResponseView;

    open spec fn view(&self) -> ScanResponseView {
        ScanResponseView { sha256: self.sha256@, prediction: self.prediction }
    }
}

/// The envelope of every response: the payload, or a message saying what failed.
#[derive(Debug)]
pub enum ApiResponse<T> {
    Success(T),
    Error(String),
}

/// The views of a sequence of response entries, in order.
pub open spec fn response_views(entries: Seq<ScanResponse>) -> Seq<ScanResponseView> {
    entries.map_values(|entry: ScanResponse| entry@)
}

} // verus!
