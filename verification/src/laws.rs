//! Properties that hold of every summary the pipeline emits, stated and
//! proved over the spec functions that the pipeline's contracts use.

use vstd::prelude::*;
use crate::fastq::{wf_record, RecordV};
use crate::stats::{
    q_le, qsum, seq_max, seq_min, seq_q_max, seq_q_min, sum_lens, FileSummary, QualMean,
};
use crate::pipeline::summary_matches;

verus! {

/// Every record of a parsed stream is well-formed.
pub open spec fn wf_records(rs: Seq<RecordV>) -> bool {
    forall|k: int| 0 <= k < rs.len() ==> wf_record(#[trigger] rs[k])
}

/// Whatever parses, parses to well-formed records.
pub proof fn lemma_parsed_records_wf(text: Seq<u8>)
    requires
        crate::fastq::parse_all(text) is Some,
    ensures
        wf_records(crate::fastq::parse_all(text)->Some_0),
{
    crate::fastq::lemma_parse_from_wf(text, 0);
}

/// Sum of the raw byte values of a quality string.
pub open spec fn byte_sum(q: Seq<u8>) -> int
    decreases q.len(),
{
    if q.len() == 0 {
        0
    } else {
        byte_sum(q.drop_last()) + q.last()
    }
}

pub proof fn lemma_qsum_is_byte_sum_offset(q: Seq<u8>)
    ensures
        qsum(q) == byte_sum(q) - 33 * q.len(),
    decreases q.len(),
{
    if q.len() > 0 {
        lemma_qsum_is_byte_sum_offset(q.drop_last());
    }
}

pub proof fn lemma_sum_lens_nonneg(s: Seq<i32>)
    requires
        forall|k: int| 0 <= k < s.len() ==> #[trigger] s[k] >= 0,
    ensures
        sum_lens(s) >= 0,
    decreases s.len(),
{
    if s.len() > 0 {
        assert(forall|k: int| 0 <= k < s.len() - 1 ==> #[trigger] s.drop_last()[k] >= 0);
        lemma_sum_lens_nonneg(s.drop_last());
    }
}

pub proof fn lemma_sum_lens_concat(a: Seq<i32>, b: Seq<i32>)
    ensures
        sum_lens(a + b) == sum_lens(a) + sum_lens(b),
    decreases b.len(),
{
    if b.len() == 0 {
        assert(a + b =~= a);
    } else {
        assert((a + b).drop_last() =~= a + b.drop_last());
        lemma_sum_lens_concat(a, b.drop_last());
    }
}

/// The sum of a non-empty sequence lies between its length times its
/// smallest and its length times its largest value.
pub proof fn lemma_sum_between_extremes(s: Seq<i32>)
    requires
        s.len() >= 1,
    ensures
        s.len() * seq_min(s) <= sum_lens(s) <= s.len() * seq_max(s),
    decreases s.len(),
{
    if s.len() == 1 {
        assert(sum_lens(s) == sum_lens(s.drop_last()) + s.last());
        assert(sum_lens(s.drop_last()) == 0);
    } else {
        let t = s.drop_last();
        lemma_sum_between_extremes(t);
        let n = t.len() as int;
        assert(n * seq_min(s) <= n * seq_min(t)) by (nonlinear_arith)
            requires
                seq_min(s) <= seq_min(t),
                n >= 0,
        ;
        assert(n * seq_max(t) <= n * seq_max(s)) by (nonlinear_arith)
            requires
                seq_max(t) <= seq_max(s),
                n >= 0,
        ;
        assert((n + 1) * seq_min(s) == n * seq_min(s) + seq_min(s)) by (nonlinear_arith);
        assert((n + 1) * seq_max(s) == n * seq_max(s) + seq_max(s)) by (nonlinear_arith);
    }
}

/// The per-read arrays and the read counter agree: as many lengths and as
/// many quality means as reads.
pub proof fn lemma_arrays_match_total_reads(sm: FileSummary, f: Seq<char>, rs: Seq<RecordV>)
    requires
        summary_matches(sm, f, rs),
    ensures
        sm.qual_per_reads@.len() == sm.len_per_reads@.len(),
        sm.len_per_reads@.len() == sm.total_reads as int,
{
}

/// The base counter is the sum of the per-read lengths, whenever that sum
/// fits the 32-bit schema.
pub proof fn lemma_total_bases_is_sum(sm: FileSummary, f: Seq<char>, rs: Seq<RecordV>)
    requires
        summary_matches(sm, f, rs),
        sum_lens(sm.len_per_reads@) <= 0x7fff_ffff,
    ensures
        sm.total_bases as int == sum_lens(sm.len_per_reads@),
{
    assert(forall|k: int| 0 <= k < sm.len_per_reads@.len() ==> #[trigger] sm.len_per_reads@[k]
        >= 0);
    lemma_sum_lens_nonneg(sm.len_per_reads@);
}

/// The reported extremes are the minimum and maximum of the per-read
/// lengths, and the mean length lies between them: the sum of lengths is
/// bracketed by the read count times either extreme.
pub proof fn lemma_length_extremes_bracket_mean(sm: FileSummary, f: Seq<char>, rs: Seq<RecordV>)
    requires
        summary_matches(sm, f, rs),
        rs.len() >= 1,
    ensures
        sm.min_len == seq_min(sm.len_per_reads@),
        sm.max_len == seq_max(sm.len_per_reads@),
        sm.min_len <= sm.max_len,
        (sm.total_reads as int) * (sm.min_len as int) <= sum_lens(sm.len_per_reads@),
        sum_lens(sm.len_per_reads@) <= (sm.total_reads as int) * (sm.max_len as int),
{
    lemma_sum_between_extremes(sm.len_per_reads@);
}

/// Each per-read quality mean is the mean of that record's quality bytes
/// with the Phred offset subtracted: its numerator is the byte sum minus 33
/// per base, its denominator the read length.
pub proof fn lemma_per_read_quality_is_offset_mean(
    sm: FileSummary,
    f: Seq<char>,
    rs: Seq<RecordV>,
    k: int,
)
    requires
        summary_matches(sm, f, rs),
        wf_records(rs),
        0 <= k < rs.len(),
    ensures
        sm.qual_per_reads@[k].num == byte_sum(rs[k].qual) - 33 * rs[k].qual.len(),
        sm.qual_per_reads@[k].den as int == rs[k].qual.len(),
{
    lemma_qsum_is_byte_sum_offset(rs[k].qual);
}

/// Two summaries of the same records under the same filename agree in every
/// observable field: the pipeline's outcome is a function of its input.
pub proof fn lemma_summary_deterministic(
    s1: FileSummary,
    s2: FileSummary,
    f: Seq<char>,
    rs: Seq<RecordV>,
)
    requires
        summary_matches(s1, f, rs),
        summary_matches(s2, f, rs),
    ensures
        s1.filename@ == s2.filename@,
        s1.len_per_reads@ == s2.len_per_reads@,
        s1.qual_per_reads@ == s2.qual_per_reads@,
        s1.total_reads == s2.total_reads,
        s1.total_bases == s2.total_bases,
        s1.min_len == s2.min_len,
        s1.max_len == s2.max_len,
        s1.min_qual == s2.min_qual,
        s1.max_qual == s2.max_qual,
{
    assert(s1.len_per_reads@ =~= s2.len_per_reads@);
    assert(s1.qual_per_reads@ =~= s2.qual_per_reads@);
}

/// A single-record file collapses: both length extremes are that record's
/// length, the base total equals it, and both quality extremes are that
/// record's mean.
pub proof fn lemma_single_record_collapses(sm: FileSummary, f: Seq<char>, rs: Seq<RecordV>)
    requires
        summary_matches(sm, f, rs),
        rs.len() == 1,
    ensures
        sm.total_reads == 1,
        sm.min_len == sm.max_len,
        sm.min_len as int == rs[0].seq.len(),
        sm.total_bases as int == rs[0].seq.len(),
        sm.min_qual == sm.max_qual,
        sm.min_qual == sm.qual_per_reads@[0],
{
    assert(sum_lens(sm.len_per_reads@) == sum_lens(sm.len_per_reads@.drop_last())
        + sm.len_per_reads@.last());
    assert(sum_lens(sm.len_per_reads@.drop_last()) == 0);
}

/// A file whose records all have one length collapses the length statistics:
/// minimum and maximum are that length and the base total is the read count
/// times it, so the mean equals both extremes.
pub proof fn lemma_uniform_lengths_collapse(sm: FileSummary, f: Seq<char>, rs: Seq<RecordV>)
    requires
        summary_matches(sm, f, rs),
        rs.len() >= 1,
        forall|k: int| 0 <= k < rs.len() ==> (#[trigger] rs[k]).seq.len() == rs[0].seq.len(),
    ensures
        sm.min_len == sm.max_len,
        sm.min_len as int == rs[0].seq.len(),
        sum_lens(sm.len_per_reads@) == rs.len() * (sm.min_len as int),
{
    lemma_constant_seq_folds(sm.len_per_reads@);
}

pub proof fn lemma_constant_seq_folds(s: Seq<i32>)
    requires
        s.len() >= 1,
        forall|k: int| 0 <= k < s.len() ==> #[trigger] s[k] == s[0],
    ensures
        seq_min(s) == s[0],
        seq_max(s) == s[0],
        sum_lens(s) == s.len() * s[0],
    decreases s.len(),
{
    if s.len() == 1 {
        assert(sum_lens(s) == sum_lens(s.drop_last()) + s.last());
        assert(sum_lens(s.drop_last()) == 0);
    } else {
        let t = s.drop_last();
        assert(forall|k: int| 0 <= k < t.len() ==> #[trigger] t[k] == t[0]);
        lemma_constant_seq_folds(t);
        assert(s.len() * s[0] == t.len() * s[0] + s[0]) by (nonlinear_arith)
            requires
                s.len() == t.len() + 1,
        ;
    }
}

/// Exact rational `a.0/a.1 <= b.0/b.1`, for positive denominators.
pub open spec fn frac_le(a: (int, int), b: (int, int)) -> bool {
    a.0 * b.1 <= b.0 * a.1
}

/// Every quality mean in the sequence averages at least one base.
pub open spec fn dens_pos(s: Seq<QualMean>) -> bool {
    forall|k: int| 0 <= k < s.len() ==> (#[trigger] s[k]).den >= 1
}

/// The exact sum of a sequence of quality means, as one fraction.
pub open spec fn q_sum_frac(s: Seq<QualMean>) -> (int, int)
    decreases s.len(),
{
    if s.len() == 0 {
        (0, 1)
    } else {
        let p = q_sum_frac(s.drop_last());
        let q = s.last();
        (p.0 * q.den + q.num * p.1, p.1 * q.den)
    }
}

/// The exact mean of a sequence of quality means: their sum over the count.
pub open spec fn q_mean_frac(s: Seq<QualMean>) -> (int, int) {
    let p = q_sum_frac(s);
    (p.0, p.1 * s.len())
}

pub proof fn lemma_q_sum_den_pos(s: Seq<QualMean>)
    requires
        dens_pos(s),
    ensures
        q_sum_frac(s).1 >= 1,
    decreases s.len(),
{
    if s.len() > 0 {
        let t = s.drop_last();
        assert(dens_pos(t));
        lemma_q_sum_den_pos(t);
        assert(q_sum_frac(t).1 * s.last().den >= 1) by (nonlinear_arith)
            requires
                q_sum_frac(t).1 >= 1,
                s.last().den >= 1,
        ;
    }
}

/// A lower bound on every element is a lower bound on the mean: `m` times
/// the count stays below the sum.
pub proof fn lemma_q_sum_lower(s: Seq<QualMean>, m: QualMean)
    requires
        m.den >= 1,
        dens_pos(s),
        forall|k: int| 0 <= k < s.len() ==> q_le(m, #[trigger] s[k]),
    ensures
        q_sum_frac(s).0 * m.den >= m.num * q_sum_frac(s).1 * s.len(),
    decreases s.len(),
{
    if s.len() == 0 {
        assert(m.num * q_sum_frac(s).1 * s.len() == 0) by (nonlinear_arith)
            requires
                s.len() == 0,
        ;
    } else {
        let t = s.drop_last();
        let q = s.last();
        let p = q_sum_frac(t);
        let sf = q_sum_frac(s);
        let n = s.len() as int;
        assert(dens_pos(t));
        assert(forall|k: int| 0 <= k < t.len() ==> q_le(m, #[trigger] t[k]));
        lemma_q_sum_lower(t, m);
        lemma_q_sum_den_pos(t);
        assert(q_le(m, q)) by {
            assert(s[s.len() - 1] == q);
        }
        assert(p.0 * q.den * m.den >= m.num * p.1 * (n - 1) * q.den) by (nonlinear_arith)
            requires
                p.0 * m.den >= m.num * p.1 * (n - 1),
                q.den >= 1,
        ;
        assert(q.num * p.1 * m.den >= m.num * q.den * p.1) by (nonlinear_arith)
            requires
                m.num * q.den <= q.num * m.den,
                p.1 >= 1,
        ;
        assert(sf.0 * m.den == p.0 * q.den * m.den + q.num * p.1 * m.den) by (nonlinear_arith)
            requires
                sf.0 == p.0 * q.den + q.num * p.1,
        ;
        assert(m.num * sf.1 * n == m.num * p.1 * (n - 1) * q.den + m.num * q.den * p.1)
            by (nonlinear_arith)
            requires
                sf.1 == p.1 * q.den,
        ;
        assert(sf.0 * m.den >= m.num * sf.1 * n);
    }
}

/// An upper bound on every element is an upper bound on the mean.
pub proof fn lemma_q_sum_upper(s: Seq<QualMean>, m: QualMean)
    requires
        m.den >= 1,
        dens_pos(s),
        forall|k: int| 0 <= k < s.len() ==> q_le(#[trigger] s[k], m),
    ensures
        q_sum_frac(s).0 * m.den <= m.num * q_sum_frac(s).1 * s.len(),
    decreases s.len(),
{
    if s.len() == 0 {
        assert(m.num * q_sum_frac(s).1 * s.len() == 0) by (nonlinear_arith)
            requires
                s.len() == 0,
        ;
        assert(q_sum_frac(s).0 * m.den == 0) by (nonlinear_arith)
            requires
                q_sum_frac(s).0 == 0,
        ;
    } else {
        let t = s.drop_last();
        let q = s.last();
        let p = q_sum_frac(t);
        let sf = q_sum_frac(s);
        let n = s.len() as int;
        assert(dens_pos(t));
        assert(forall|k: int| 0 <= k < t.len() ==> q_le(#[trigger] t[k], m));
        lemma_q_sum_upper(t, m);
        lemma_q_sum_den_pos(t);
        assert(q_le(q, m)) by {
            assert(s[s.len() - 1] == q);
        }
        assert(p.0 * q.den * m.den <= m.num * p.1 * (n - 1) * q.den) by (nonlinear_arith)
            requires
                p.0 * m.den <= m.num * p.1 * (n - 1),
                q.den >= 1,
        ;
        assert(q.num * p.1 * m.den <= m.num * q.den * p.1) by (nonlinear_arith)
            requires
                q.num * m.den <= m.num * q.den,
                p.1 >= 1,
        ;
        assert(sf.0 * m.den == p.0 * q.den * m.den + q.num * p.1 * m.den) by (nonlinear_arith)
            requires
                sf.0 == p.0 * q.den + q.num * p.1,
        ;
        assert(m.num * sf.1 * n == m.num * p.1 * (n - 1) * q.den + m.num * q.den * p.1)
            by (nonlinear_arith)
            requires
                sf.1 == p.1 * q.den,
        ;
        assert(sf.0 * m.den <= m.num * sf.1 * n);
        assert(q_sum_frac(s).0 * m.den <= m.num * q_sum_frac(s).1 * s.len());
    }
}

/// The overall mean quality lies between the smallest and the largest
/// per-read mean, as exact rationals.
pub proof fn lemma_mean_quality_between_extremes(sm: FileSummary, f: Seq<char>, rs: Seq<RecordV>)
    requires
        summary_matches(sm, f, rs),
        wf_records(rs),
        rs.len() >= 1,
    ensures
        q_mean_frac(sm.qual_per_reads@).1 >= 1,
        frac_le((sm.min_qual.num as int, sm.min_qual.den as int), q_mean_frac(sm.qual_per_reads@)),
        frac_le((q_mean_frac(sm.qual_per_reads@).0, q_mean_frac(sm.qual_per_reads@).1), (
            sm.max_qual.num as int,
            sm.max_qual.den as int,
        )),
{
    let quals = sm.qual_per_reads@;
    let n = quals.len() as int;
    assert(dens_pos(quals));
    lemma_q_sum_den_pos(quals);
    let p = q_sum_frac(quals);
    assert(sm.min_qual.den >= 1 && sm.max_qual.den >= 1) by {
        let k1 = choose|k: int| 0 <= k < quals.len() && sm.min_qual == quals[k];
        let k2 = choose|k: int| 0 <= k < quals.len() && sm.max_qual == quals[k];
        assert(quals[k1].den >= 1 && quals[k2].den >= 1);
    }
    lemma_q_sum_lower(quals, sm.min_qual);
    lemma_q_sum_upper(quals, sm.max_qual);
    assert(p.1 * n >= 1) by (nonlinear_arith)
        requires
            p.1 >= 1,
            n >= 1,
    ;
    assert((sm.min_qual.num as int) * (p.1 * n) == sm.min_qual.num * p.1 * n) by (nonlinear_arith);
    assert(p.0 * (sm.max_qual.den as int) == p.0 * sm.max_qual.den) by (nonlinear_arith);
    assert((sm.max_qual.num as int) * (p.1 * n) == sm.max_qual.num * p.1 * n) by (nonlinear_arith);
}

/// Concatenating two streams, the first ending at a record boundary with a
/// line break, parses to the records of both in order; the read totals and
/// the length sums of the two summaries add up to those of the whole.
pub proof fn lemma_concatenation_adds(
    sm: FileSummary,
    sm1: FileSummary,
    sm2: FileSummary,
    f: Seq<char>,
    f1: Seq<char>,
    f2: Seq<char>,
    t1: Seq<u8>,
    t2: Seq<u8>,
)
    requires
        t1.len() >= 1 && t1[t1.len() - 1] == 10u8,
        crate::fastq::parse_all(t1) is Some,
        crate::fastq::parse_all(t2) is Some,
        summary_matches(sm1, f1, crate::fastq::parse_all(t1)->Some_0),
        summary_matches(sm2, f2, crate::fastq::parse_all(t2)->Some_0),
        summary_matches(sm, f, crate::fastq::parse_all(t1 + t2)->Some_0),
    ensures
        crate::fastq::parse_all(t1 + t2) == Option::Some(
            crate::fastq::parse_all(t1)->Some_0 + crate::fastq::parse_all(t2)->Some_0,
        ),
        sm.total_reads as int == sm1.total_reads + sm2.total_reads,
        sum_lens(sm.len_per_reads@) == sum_lens(sm1.len_per_reads@) + sum_lens(
            sm2.len_per_reads@,
        ),
{
    crate::fastq::lemma_parse_concat(t1, t2, 0);
    let r1 = crate::fastq::parse_all(t1)->Some_0;
    let r2 = crate::fastq::parse_all(t2)->Some_0;
    assert(crate::fastq::parse_all(t1 + t2)->Some_0 == r1 + r2);
    assert(sm.len_per_reads@ =~= sm1.len_per_reads@ + sm2.len_per_reads@);
    lemma_sum_lens_concat(sm1.len_per_reads@, sm2.len_per_reads@);
}

/// A summary carries the filename of the file it was computed for.
pub proof fn lemma_filename_preserved(sm: FileSummary, f: Seq<char>, rs: Seq<RecordV>)
    requires
        summary_matches(sm, f, rs),
    ensures
        sm.filename@ == f,
{
}

} // verus!
