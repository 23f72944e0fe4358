//! Per-read reduction and per-file summary statistics.
//!
//! Quality means are kept exactly, as the integer sum of Phred-scaled scores
//! over the number of bases; comparisons cross-multiply, so no rounding ever
//! enters the statistics. Callers that need floating-point values divide at
//! the edge.

use vstd::prelude::*;
use crate::fastq::{Record, RecordV, wf_record, MAX_READ_LEN};

verus! {

/// A file with no records has no minimum or maximum to report.
#[derive(Clone, Copy, Debug, PartialEq, Eq, Structural)]
pub struct EmptyFileError;

/// A quality mean kept exactly: the sum of Phred-scaled scores (`byte - 33`)
/// over `den` bases. The mean itself is `num / den`.
#[derive(Clone, Copy, Debug, PartialEq, Eq, Structural)]
pub struct QualMean {
    pub num: i64,
    pub den: i32,
}

impl QualMean {
    /// A well-formed quality mean averages at least one base, and each
    /// Phred-scaled score lies between -33 and 222 (a byte minus the offset).
    pub open spec fn wf(self) -> bool {
        self.den >= 1 && -33 * self.den <= self.num <= 222 * self.den
    }
}

/// `a <= b` as rational numbers, for positive denominators.
pub open spec fn q_le(a: QualMean, b: QualMean) -> bool {
    a.num * b.den <= b.num * a.den
}

pub proof fn lemma_q_le_trans(a: QualMean, b: QualMean, c: QualMean)
    requires
        a.den >= 1,
        b.den >= 1,
        c.den >= 1,
        q_le(a, b),
        q_le(b, c),
    ensures
        q_le(a, c),
{
    assert(a.num * c.den <= c.num * a.den) by (nonlinear_arith)
        requires
            a.num * b.den <= b.num * a.den,
            b.num * c.den <= c.num * b.den,
            a.den >= 1,
            b.den >= 1,
            c.den >= 1,
    ;
}

/// Compares two quality means exactly, by cross-multiplication.
pub fn q_le_exec(a: &QualMean, b: &QualMean) -> (r: bool)
    ensures
        r == q_le(*a, *b),
{
    proof {
        assert((a.num as int) * (b.den as int) <= 0x8000_0000_0000_0000_0000_0000
            && (a.num as int) * (b.den as int) >= -0x8000_0000_0000_0000_0000_0000
            && (b.num as int) * (a.den as int) <= 0x8000_0000_0000_0000_0000_0000
            && (b.num as int) * (a.den as int) >= -0x8000_0000_0000_0000_0000_0000)
            by (nonlinear_arith)
            requires
                -0x8000_0000_0000_0000 <= a.num as int <= 0x7fff_ffff_ffff_ffff,
                -0x8000_0000_0000_0000 <= b.num as int <= 0x7fff_ffff_ffff_ffff,
                -0x8000_0000 <= a.den as int <= 0x7fff_ffff,
                -0x8000_0000 <= b.den as int <= 0x7fff_ffff,
        ;
    }
    (a.num as i128) * (b.den as i128) <= (b.num as i128) * (a.den as i128)
}

/// Sum of the Phred-scaled scores of a quality string: each byte minus 33.
pub open spec fn qsum(q: Seq<u8>) -> int
    decreases q.len(),
{
    if q.len() == 0 {
        0
    } else {
        qsum(q.drop_last()) + q.last() - 33
    }
}

pub proof fn lemma_qsum_bounds(q: Seq<u8>)
    ensures
        -33 * q.len() <= qsum(q) <= 222 * q.len(),
    decreases q.len(),
{
    if q.len() > 0 {
        lemma_qsum_bounds(q.drop_last());
    }
}

/// Sum of a sequence of read lengths.
pub open spec fn sum_lens(s: Seq<i32>) -> int
    decreases s.len(),
{
    if s.len() == 0 {
        0
    } else {
        sum_lens(s.drop_last()) + s.last()
    }
}

/// Smallest value of a non-empty sequence.
pub open spec fn seq_min(s: Seq<i32>) -> i32
    recommends
        s.len() >= 1,
    decreases s.len(),
{
    if s.len() <= 1 {
        s[0]
    } else {
        let m = seq_min(s.drop_last());
        if s.last() < m {
            s.last()
        } else {
            m
        }
    }
}

/// Largest value of a non-empty sequence.
pub open spec fn seq_max(s: Seq<i32>) -> i32
    recommends
        s.len() >= 1,
    decreases s.len(),
{
    if s.len() <= 1 {
        s[0]
    } else {
        let m = seq_max(s.drop_last());
        if s.last() > m {
            s.last()
        } else {
            m
        }
    }
}

/// Smallest quality mean of a non-empty sequence; on ties the earlier one.
pub open spec fn seq_q_min(s: Seq<QualMean>) -> QualMean
    recommends
        s.len() >= 1,
    decreases s.len(),
{
    if s.len() <= 1 {
        s[0]
    } else {
        let m = seq_q_min(s.drop_last());
        if q_le(m, s.last()) {
            m
        } else {
            s.last()
        }
    }
}

/// Largest quality mean of a non-empty sequence; on ties the earlier one.
pub open spec fn seq_q_max(s: Seq<QualMean>) -> QualMean
    recommends
        s.len() >= 1,
    decreases s.len(),
{
    if s.len() <= 1 {
        s[0]
    } else {
        let m = seq_q_max(s.drop_last());
        if q_le(s.last(), m) {
            m
        } else {
            s.last()
        }
    }
}

/// The per-read arrays hold exactly the lengths of the given records.
pub open spec fn lens_match(lens: Seq<i32>, rs: Seq<RecordV>) -> bool {
    &&& lens.len() == rs.len()
    &&& forall|k: int| 0 <= k < rs.len() ==> #[trigger] lens[k] as int == rs[k].seq.len()
}

/// The per-read quality means are exactly those of the given records.
pub open spec fn quals_match(quals: Seq<QualMean>, rs: Seq<RecordV>) -> bool {
    &&& quals.len() == rs.len()
    &&& forall|k: int|
        0 <= k < rs.len() ==> (#[trigger] quals[k]).num == qsum(rs[k].qual) && quals[k].den as int
            == rs[k].seq.len()
}

/// The per-file accumulator: one length and one exact quality mean per
/// record, in parse order.
pub struct SeqProperty {
    pub filename: String,
    pub len_per_reads: Vec<i32>,
    pub qual_per_reads: Vec<QualMean>,
}

impl SeqProperty {
    /// The two arrays are index-aligned; every entry is the statistic of a
    /// well-formed record.
    pub open spec fn wf(self) -> bool {
        &&& self.len_per_reads@.len() == self.qual_per_reads@.len()
        &&& forall|k: int|
            0 <= k < self.len_per_reads@.len() ==> 1 <= (
            #[trigger] self.len_per_reads@[k]) as int <= MAX_READ_LEN
        &&& forall|k: int|
            0 <= k < self.qual_per_reads@.len() ==> (#[trigger] self.qual_per_reads@[k]).wf()
                && self.qual_per_reads@[k].den == self.len_per_reads@[k]
    }

    /// A fresh accumulator for one file.
    pub fn new(filename: String) -> (s: SeqProperty)
        ensures
            s.wf(),
            s.filename@ == filename@,
            s.len_per_reads@ =~= Seq::<i32>::empty(),
            s.qual_per_reads@ =~= Seq::<QualMean>::empty(),
    {
        SeqProperty { filename, len_per_reads: Vec::new(), qual_per_reads: Vec::new() }
    }

    /// Appends one record's length and exact quality mean.
    pub fn push_record(&mut self, r: &Record)
        requires
            old(self).wf(),
            wf_record(r@),
        ensures
            final(self).wf(),
            final(self).filename == old(self).filename,
            final(self).len_per_reads@ == old(self).len_per_reads@.push(r@.seq.len() as i32),
            final(self).qual_per_reads@ == old(self).qual_per_reads@.push(
                (QualMean { num: qsum(r@.qual) as i64, den: r@.seq.len() as i32 }),
            ),
    {
        let len: usize = r.seq.len();
        let mut sum: i64 = 0;
        let mut k: usize = 0;
        proof {
            lemma_qsum_bounds(r@.qual);
        }
        while k < r.qual.len()
            invariant
                wf_record(r@),
                k <= r@.qual.len(),
                sum == qsum(r@.qual.subrange(0, k as int)),
                -33 * (k as int) <= sum as int <= 222 * (k as int),
            decreases r@.qual.len() - k,
        {
            let q: i64 = (r.qual[k] as i64) - 33;
            proof {
                let pre = r@.qual.subrange(0, k as int);
                let post = r@.qual.subrange(0, k as int + 1);
                assert(post.drop_last() =~= pre);
                assert(post.last() == r@.qual[k as int]);
                lemma_qsum_bounds(post);
            }
            sum = sum + q;
            k = k + 1;
        }
        proof {
            assert(r@.qual.subrange(0, r@.qual.len() as int) =~= r@.qual);
        }
        self.len_per_reads.push(len as i32);
        self.qual_per_reads.push(QualMean { num: sum, den: len as i32 });
    }

    /// Folds the per-read arrays into the file's summary. Fails exactly on a
    /// file with no records.
    pub fn summarise(&self) -> (r: Result<FileSummary, EmptyFileError>)
        requires
            self.wf(),
            self.len_per_reads@.len() <= MAX_READ_LEN,
        ensures
            self.len_per_reads@.len() == 0 <==> r is Err,
            r matches Ok(sm) ==> sm.filename@ == self.filename@ && summary_folds(
                sm,
                self.len_per_reads@,
                self.qual_per_reads@,
            ),
    {
        let n: usize = self.len_per_reads.len();
        if n == 0 {
            return Err(EmptyFileError);
        }
        // total_bases: promoted to 64 bits, then narrowed per the schema
        let mut total: i64 = 0;
        let mut k: usize = 0;
        while k < n
            invariant
                self.wf(),
                n == self.len_per_reads@.len() <= MAX_READ_LEN,
                k <= n,
                total == sum_lens(self.len_per_reads@.subrange(0, k as int)),
                0 <= total as int <= (k as int) * 0x7fff_ffff,
            decreases n - k,
        {
            proof {
                let pre = self.len_per_reads@.subrange(0, k as int);
                let post = self.len_per_reads@.subrange(0, k as int + 1);
                assert(post.drop_last() =~= pre);
            }
            total = total + (self.len_per_reads[k] as i64);
            k = k + 1;
        }
        proof {
            assert(self.len_per_reads@.subrange(0, n as int) =~= self.len_per_reads@);
        }
        // min and max length
        let mut min_len: i32 = self.len_per_reads[0];
        let mut max_len: i32 = self.len_per_reads[0];
        let mut k2: usize = 1;
        while k2 < n
            invariant
                self.wf(),
                n == self.len_per_reads@.len(),
                1 <= k2 <= n,
                min_len == seq_min(self.len_per_reads@.subrange(0, k2 as int)),
                max_len == seq_max(self.len_per_reads@.subrange(0, k2 as int)),
                forall|j: int| 0 <= j < k2 ==> min_len <= #[trigger] self.len_per_reads@[j],
                forall|j: int| 0 <= j < k2 ==> max_len >= #[trigger] self.len_per_reads@[j],
                exists|j: int| 0 <= j < k2 && min_len == self.len_per_reads@[j],
                exists|j: int| 0 <= j < k2 && max_len == self.len_per_reads@[j],
            decreases n - k2,
        {
            proof {
                let pre = self.len_per_reads@.subrange(0, k2 as int);
                let post = self.len_per_reads@.subrange(0, k2 as int + 1);
                assert(post.drop_last() =~= pre);
            }
            let v: i32 = self.len_per_reads[k2];
            if v < min_len {
                min_len = v;
            }
            if v > max_len {
                max_len = v;
            }
            k2 = k2 + 1;
        }
        // min and max quality mean
        let mut min_qual: QualMean = self.qual_per_reads[0];
        let mut max_qual: QualMean = self.qual_per_reads[0];
        let mut k3: usize = 1;
        while k3 < n
            invariant
                self.wf(),
                n == self.len_per_reads@.len(),
                n == self.qual_per_reads@.len(),
                1 <= k3 <= n,
                min_qual.wf(),
                max_qual.wf(),
                min_qual == seq_q_min(self.qual_per_reads@.subrange(0, k3 as int)),
                max_qual == seq_q_max(self.qual_per_reads@.subrange(0, k3 as int)),
                forall|j: int| 0 <= j < k3 ==> q_le(min_qual, #[trigger] self.qual_per_reads@[j]),
                forall|j: int| 0 <= j < k3 ==> q_le(#[trigger] self.qual_per_reads@[j], max_qual),
                exists|j: int| 0 <= j < k3 && min_qual == self.qual_per_reads@[j],
                exists|j: int| 0 <= j < k3 && max_qual == self.qual_per_reads@[j],
            decreases n - k3,
        {
            proof {
                let pre = self.qual_per_reads@.subrange(0, k3 as int);
                let post = self.qual_per_reads@.subrange(0, k3 as int + 1);
                assert(post.drop_last() =~= pre);
            }
            let v: QualMean = self.qual_per_reads[k3];
            if !q_le_exec(&min_qual, &v) {
                proof {
                    assert forall|j: int| 0 <= j < k3 implies q_le(
                        v,
                        #[trigger] self.qual_per_reads@[j],
                    ) by {
                        lemma_q_le_trans(v, min_qual, self.qual_per_reads@[j]);
                    }
                }
                min_qual = v;
            }
            if !q_le_exec(&v, &max_qual) {
                proof {
                    assert forall|j: int| 0 <= j < k3 implies q_le(
                        #[trigger] self.qual_per_reads@[j],
                        v,
                    ) by {
                        lemma_q_le_trans(self.qual_per_reads@[j], max_qual, v);
                    }
                }
                max_qual = v;
            }
            k3 = k3 + 1;
        }
        proof {
            assert(self.len_per_reads@.subrange(0, n as int) =~= self.len_per_reads@);
            assert(self.qual_per_reads@.subrange(0, n as int) =~= self.qual_per_reads@);
        }
        let total_bases: i32 = #[verifier::truncate] (total as i32);
        Ok(
            FileSummary {
                filename: clone_string(&self.filename),
                total_reads: n as i32,
                total_bases,
                min_len,
                max_len,
                min_qual,
                max_qual,
                qual_per_reads: clone_quals(&self.qual_per_reads),
                len_per_reads: clone_lens(&self.len_per_reads),
            },
        )
    }
}

/// The final statistics of one file, with the per-read arrays retained.
pub struct FileSummary {
    pub filename: String,
    pub total_reads: i32,
    pub total_bases: i32,
    pub min_len: i32,
    pub max_len: i32,
    pub min_qual: QualMean,
    pub max_qual: QualMean,
    pub qual_per_reads: Vec<QualMean>,
    pub len_per_reads: Vec<i32>,
}

/// What `summarise` guarantees of its result: every field is the stated fold
/// of the per-read arrays.
pub open spec fn summary_folds(sm: FileSummary, lens: Seq<i32>, quals: Seq<QualMean>) -> bool {
    &&& lens.len() >= 1
    &&& quals.len() == lens.len()
    &&& sm.len_per_reads@ == lens
    &&& sm.qual_per_reads@ == quals
    &&& sm.total_reads as int == lens.len()
    &&& sm.total_bases as int == sum_lens(lens) as i32 as int
    &&& sm.min_len == seq_min(lens)
    &&& sm.max_len == seq_max(lens)
    &&& sm.min_qual == seq_q_min(quals)
    &&& sm.max_qual == seq_q_max(quals)
    &&& forall|k: int| 0 <= k < lens.len() ==> sm.min_len <= #[trigger] lens[k]
    &&& forall|k: int| 0 <= k < lens.len() ==> sm.max_len >= #[trigger] lens[k]
    &&& exists|k: int| 0 <= k < lens.len() && sm.min_len == lens[k]
    &&& exists|k: int| 0 <= k < lens.len() && sm.max_len == lens[k]
    &&& forall|k: int| 0 <= k < quals.len() ==> q_le(sm.min_qual, #[trigger] quals[k])
    &&& forall|k: int| 0 <= k < quals.len() ==> q_le(#[trigger] quals[k], sm.max_qual)
    &&& exists|k: int| 0 <= k < quals.len() && sm.min_qual == quals[k]
    &&& exists|k: int| 0 <= k < quals.len() && sm.max_qual == quals[k]
}

fn clone_string(s: &String) -> (r: String)
    ensures
        r@ == s@,
{
    s.as_str().to_owned()
}

fn clone_lens(v: &Vec<i32>) -> (r: Vec<i32>)
    ensures
        r@ == v@,
{
    let mut out: Vec<i32> = Vec::new();
    let mut k: usize = 0;
    while k < v.len()
        invariant
            k <= v@.len(),
            out@ =~= v@.subrange(0, k as int),
        decreases v@.len() - k,
    {
        out.push(v[k]);
        k = k + 1;
    }
    proof {
        assert(v@.subrange(0, v@.len() as int) =~= v@);
    }
    out
}

fn clone_quals(v: &Vec<QualMean>) -> (r: Vec<QualMean>)
    ensures
        r@ == v@,
{
    let mut out: Vec<QualMean> = Vec::new();
    let mut k: usize = 0;
    while k < v.len()
        invariant
            k <= v@.len(),
            out@ =~= v@.subrange(0, k as int),
        decreases v@.len() - k,
    {
        out.push(v[k]);
        k = k + 1;
    }
    proof {
        assert(v@.subrange(0, v@.len() as int) =~= v@);
    }
    out
}

} // verus!
