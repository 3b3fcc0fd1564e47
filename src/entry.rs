//! Lines of the judgment file and of the run file, split into fields.
use vstd::prelude::*;
use vstd::string::StringSliceAdditionalSpecFns;
use crate::ident::id_of;
use crate::number::{i32_value, parse_i32};

verus! {

/// Why a line could not be read.
#[derive(PartialEq, Eq, Structural, Debug, Clone, Copy)]
pub enum LineError {
    /// The line does not have the number of fields its file requires.
    FieldCount,
    /// A field that must hold a number does not.
    NotANumber,
}

/// One relevance judgment: a document's grade for a topic. A negative grade
/// marks a judged document that earns nothing.
#[derive(Debug)]
pub struct QrelEntry {
    pub topic: Vec<u8>,
    pub docid: Vec<u8>,
    pub relevance: i32,
}

/// One line of a run: a document the run retrieved for a topic, with its score.
/// The score is held as a key in the same order as the score itself
/// (a higher score, a higher key), which is all that ordering a run reads.
#[derive(Debug)]
pub struct TrecEntry {
    pub topic: Vec<u8>,
    pub docid: Vec<u8>,
    pub score: u64,
    pub runid: Vec<u8>,
}

/// The sign bit of a 64-bit IEEE 754 float.
pub const SIGN_BIT: u64 = 0x8000_0000_0000_0000;

/// The order key of a score, from the score's IEEE 754 bits. Negative
/// floats have their bits reversed below the sign bit and nonnegative ones
/// move above it, so that for floats that are not NaN a larger float gets a
/// larger key; both zeros get the same key.
pub open spec fn key_of_bits(bits: u64) -> u64 {
    if bits == SIGN_BIT {
        SIGN_BIT
    } else if bits > SIGN_BIT {
        (u64::MAX - bits) as u64
    } else {
        (bits + SIGN_BIT) as u64
    }
}

/// Computes the order key of a score from its bits.
pub fn score_key(bits: u64) -> (r: u64)
    ensures
        r == key_of_bits(bits),
{
    if bits == SIGN_BIT {
        SIGN_BIT
    } else if bits > SIGN_BIT {
        u64::MAX - bits
    } else {
        bits + SIGN_BIT
    }
}

/// A judgment line's fields: topic, an unused field, document, grade.
pub open spec fn qrel_fields_ok(fields: Seq<&str>) -> bool {
    fields.len() == 4 && i32_value(fields[3].spec_bytes()) is Some
}

impl QrelEntry {
    /// Builds a judgment from the four fields of a judgment line.
    pub fn new(vec: Vec<&str>) -> (r: QrelEntry)
        requires
            qrel_fields_ok(vec@),
        ensures
            r.topic@ == vec@[0].spec_bytes(),
            r.docid@ == vec@[2].spec_bytes(),
            Some(r.relevance) == i32_value(vec@[3].spec_bytes()),
    {
        let topic = id_of(vec[0]);
        let docid = id_of(vec[2]);
        let relevance = parse_i32(vec[3].as_bytes()).unwrap();
        QrelEntry { topic, docid, relevance }
    }

    /// Reads the fields of a judgment line, or says why they are not one.
    pub fn parse(vec: Vec<&str>) -> (r: Result<QrelEntry, LineError>)
        ensures
            vec@.len() != 4 <==> r == Err::<QrelEntry, LineError>(LineError::FieldCount),
            (vec@.len() == 4 && i32_value(vec@[3].spec_bytes()) is None) <==> r == Err::<
                QrelEntry,
                LineError,
            >(LineError::NotANumber),
            r is Ok ==> qrel_fields_ok(vec@) && r->Ok_0.topic@ == vec@[0].spec_bytes()
                && r->Ok_0.docid@ == vec@[2].spec_bytes() && Some(r->Ok_0.relevance) == i32_value(
                vec@[3].spec_bytes(),
            ),
    {
        if vec.len() != 4 {
            return Err(LineError::FieldCount);
        }
        match parse_i32(vec[3].as_bytes()) {
            Some(relevance) => Ok(QrelEntry { topic: id_of(vec[0]), docid: id_of(vec[2]), relevance }),
            None => Err(LineError::NotANumber),
        }
    }
}

impl TrecEntry {
    /// Builds a run entry from the six fields of a run line (topic, unused,
    /// document, unused, score, run name) and the key of its score.
    pub fn new(vec: Vec<&str>, score: u64) -> (r: TrecEntry)
        requires
            vec@.len() == 6,
        ensures
            r.topic@ == vec@[0].spec_bytes(),
            r.docid@ == vec@[2].spec_bytes(),
            r.score == score,
            r.runid@ == vec@[5].spec_bytes(),
    {
        TrecEntry { topic: id_of(vec[0]), docid: id_of(vec[2]), score, runid: id_of(vec[5]) }
    }
}

} // verus!
