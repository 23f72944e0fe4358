//! One worker's whole chain for one file: decode the gzip members, parse the
//! FASTQ records, reduce them per read, and fold the summary; and the
//! collector's report.

use vstd::prelude::*;
use crate::fastq::{parse_all, parse_fastq, views_of, ParseError, RecordV, MAX_READ_LEN};
use crate::gz::{gunzip_of, gunzip_members, DecodeError};
use crate::stats::{
    lens_match, quals_match, summary_folds, EmptyFileError, FileSummary, SeqProperty,
};

verus! {

/// Why one worker produced no summary for its file.
#[derive(Clone, Copy, Debug, PartialEq, Eq, Structural)]
pub enum FileError {
    /// The gzip stream was malformed.
    Decode(DecodeError),
    /// A record was malformed.
    Parse(ParseError),
    /// The file held no records.
    Empty(EmptyFileError),
}

/// The summary of a file whose decompressed contents parse to `rs`: the two
/// per-read arrays are exactly the records' statistics, and every statistic
/// field is the stated fold of those arrays.
pub open spec fn summary_matches(sm: FileSummary, filename: Seq<char>, rs: Seq<RecordV>) -> bool {
    &&& sm.filename@ == filename
    &&& lens_match(sm.len_per_reads@, rs)
    &&& quals_match(sm.qual_per_reads@, rs)
    &&& sm.total_reads as int == rs.len()
    &&& summary_folds(sm, sm.len_per_reads@, sm.qual_per_reads@)
}

/// What processing decompressed contents `text` must return: the exact error
/// for a malformed or empty stream, and otherwise the summary of its records.
pub open spec fn outcome_matches(
    r: Result<FileSummary, FileError>,
    filename: Seq<char>,
    text: Seq<u8>,
) -> bool {
    match parse_all(text) {
        Option::None => r == Result::<FileSummary, FileError>::Err(FileError::Parse(ParseError)),
        Option::Some(rs) => if rs.len() == 0 {
            r == Result::<FileSummary, FileError>::Err(FileError::Empty(EmptyFileError))
        } else if rs.len() > MAX_READ_LEN {
            r == Result::<FileSummary, FileError>::Err(FileError::Parse(ParseError))
        } else {
            r matches Ok(sm) && summary_matches(sm, filename, rs)
        },
    }
}

/// Summarises the decompressed contents of one file.
pub fn process_text(filename: String, text: &[u8]) -> (r: Result<FileSummary, FileError>)
    ensures
        outcome_matches(r, filename@, text@),
{
    let recs = match parse_fastq(text) {
        Ok(recs) => recs,
        Err(_) => {
            return Err(FileError::Parse(ParseError));
        },
    };
    let ghost rs = parse_all(text@)->Some_0;
    let mut acc = SeqProperty::new(filename);
    let n: usize = recs.len();
    let mut k: usize = 0;
    while k < n
        invariant
            n == recs@.len() <= MAX_READ_LEN,
            k <= n,
            rs == views_of(recs@),
            forall|j: int| 0 <= j < n ==> crate::fastq::wf_record(#[trigger] recs@[j]@),
            acc.wf(),
            acc.filename@ == filename@,
            acc.len_per_reads@.len() == k,
            lens_match(acc.len_per_reads@, rs.subrange(0, k as int)),
            quals_match(acc.qual_per_reads@, rs.subrange(0, k as int)),
        decreases n - k,
    {
        acc.push_record(&recs[k]);
        proof {
            assert(rs.subrange(0, k as int + 1).drop_last() =~= rs.subrange(0, k as int));
            assert(rs[k as int] == recs@[k as int]@);
            crate::stats::lemma_qsum_bounds(recs@[k as int]@.qual);
        }
        k = k + 1;
    }
    proof {
        assert(rs.subrange(0, n as int) =~= rs);
    }
    match acc.summarise() {
        Ok(sm) => Ok(sm),
        Err(_) => Err(FileError::Empty(EmptyFileError)),
    }
}

/// Summarises one gzip-compressed file, given its raw bytes.
///
/// Fails with `Decode` exactly where the bytes are not a well-formed gzip
/// stream; the decompressed contents then decide the outcome as in
/// `process_text`.
pub fn process_file(filename: String, data: &[u8]) -> (r: Result<FileSummary, FileError>)
    ensures
        match gunzip_of(data@) {
            Option::None => r == Result::<FileSummary, FileError>::Err(
                FileError::Decode(DecodeError),
            ),
            Option::Some(text) => outcome_matches(r, filename@, text),
        },
{
    let text = match gunzip_members(data) {
        Ok(text) => text,
        Err(_) => {
            return Err(FileError::Decode(DecodeError));
        },
    };
    process_text(filename, text.as_slice())
}

/// The collector's report: every received summary, in receipt order.
pub struct Report {
    pub summaries: Vec<FileSummary>,
}

impl Report {
    /// An empty report.
    pub fn new() -> (r: Report)
        ensures
            r.summaries@ =~= Seq::<FileSummary>::empty(),
    {
        Report { summaries: Vec::new() }
    }

    /// Appends one received summary; nothing already collected changes.
    pub fn push(&mut self, sm: FileSummary)
        ensures
            final(self).summaries@ == old(self).summaries@.push(sm),
    {
        self.summaries.push(sm);
    }
}

} // verus!
