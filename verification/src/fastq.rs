//! The FASTQ record grammar, and a parser for it.
//!
//! A record is four lines: a header beginning with `@` (identifier up to the
//! first space, optional description after it), a sequence line, a separator
//! line beginning with `+`, and a quality line of the same length as the
//! sequence. Lines are separated by LF; a trailing CR is tolerated. A
//! sequence longer than the 32-bit length range of the summary schema is
//! rejected like any other malformed record.

use vstd::prelude::*;

verus! {

/// Longest sequence a record may carry: lengths are reported as 32-bit
/// signed integers.
pub const MAX_READ_LEN: usize = 0x7fff_ffff;

/// A malformed record: a missing `@` or `+`, a sequence/quality length
/// mismatch, an empty identifier or sequence, truncation inside a record, or
/// a sequence beyond the 32-bit length range.
#[derive(Clone, Copy, Debug, PartialEq, Eq, Structural)]
pub struct ParseError;

/// The mathematical shape of one record.
pub struct RecordV {
    pub id: Seq<u8>,
    pub desc: Option<Seq<u8>>,
    pub seq: Seq<u8>,
    pub qual: Seq<u8>,
}

/// One parsed record: identifier, optional description, sequence, quality.
pub struct Record {
    pub id: Vec<u8>,
    pub desc: Option<Vec<u8>>,
    pub seq: Vec<u8>,
    pub qual: Vec<u8>,
}

impl View for Record {
    type V = RecordV;

    open spec fn view(&self) -> RecordV {
        RecordV {
            id: self.id@,
            desc: match self.desc {
                Option::Some(d) => Option::Some(d@),
                Option::None => Option::None,
            },
            seq: self.seq@,
            qual: self.qual@,
        }
    }
}

/// Every record the parser yields satisfies this: a non-empty identifier and
/// a non-empty sequence, no longer than `MAX_READ_LEN`, with a quality string
/// of the same length.
pub open spec fn wf_record(r: RecordV) -> bool {
    &&& r.id.len() >= 1
    &&& 1 <= r.seq.len() <= MAX_READ_LEN
    &&& r.qual.len() == r.seq.len()
}

/// Index of the first occurrence of `b` in `s` at or after `i`, or `s.len()`.
pub open spec fn find_byte(s: Seq<u8>, i: int, b: u8) -> int
    decreases s.len() - i,
{
    if i >= s.len() {
        s.len() as int
    } else if s[i] == b {
        i
    } else {
        find_byte(s, i + 1, b)
    }
}

pub proof fn lemma_find_byte(s: Seq<u8>, i: int, b: u8)
    requires
        i <= s.len(),
    ensures
        i <= find_byte(s, i, b) <= s.len(),
        find_byte(s, i, b) < s.len() ==> s[find_byte(s, i, b)] == b,
        forall|j: int| i <= j < find_byte(s, i, b) ==> s[j] != b,
    decreases s.len() - i,
{
    if i < s.len() && s[i] != b {
        lemma_find_byte(s, i + 1, b);
    }
}

pub proof fn lemma_find_byte_is(s: Seq<u8>, i: int, j: int, b: u8)
    requires
        0 <= i <= j <= s.len(),
        forall|k: int| i <= k < j ==> s[k] != b,
        j < s.len() ==> s[j] == b,
    ensures
        find_byte(s, i, b) == j,
    decreases j - i,
{
    if i < j {
        lemma_find_byte_is(s, i + 1, j, b);
    }
}

/// A line's content: the bytes up to the line break, with a trailing CR
/// removed.
pub open spec fn strip_cr(l: Seq<u8>) -> Seq<u8> {
    if l.len() >= 1 && l[l.len() - 1] == 13u8 {
        l.drop_last()
    } else {
        l
    }
}

/// Content of the line that starts at `i`.
pub open spec fn line_at(s: Seq<u8>, i: int) -> Seq<u8> {
    strip_cr(s.subrange(i, find_byte(s, i, 10u8)))
}

/// Start of the line after the one that starts at `i`.
pub open spec fn next_line(s: Seq<u8>, i: int) -> int {
    if find_byte(s, i, 10u8) < s.len() {
        find_byte(s, i, 10u8) + 1
    } else {
        s.len() as int
    }
}

/// A header line: `@`, then a non-empty identifier.
pub open spec fn header_ok(h: Seq<u8>) -> bool {
    h.len() >= 2 && h[0] == 64u8 && h[1] != 32u8
}

/// The record made of a header line, a sequence line and a quality line:
/// the identifier runs to the first space, the description after it.
pub open spec fn record_of_lines(h: Seq<u8>, sq: Seq<u8>, ql: Seq<u8>) -> RecordV {
    let sp = find_byte(h, 1, 32u8);
    RecordV {
        id: h.subrange(1, sp),
        desc: if sp < h.len() {
            Option::Some(h.subrange(sp + 1, h.len() as int))
        } else {
            Option::None
        },
        seq: sq,
        qual: ql,
    }
}

/// The records encoded from position `i` on, or `None` on malformed input.
pub open spec fn parse_from(s: Seq<u8>, i: int) -> Option<Seq<RecordV>>
    decreases s.len() - i,
        via parse_from_dec
{
    if i >= s.len() {
        Option::Some(Seq::empty())
    } else if find_byte(s, i, 10u8) >= s.len() || find_byte(s, next_line(s, i), 10u8) >= s.len()
        || find_byte(s, next_line(s, next_line(s, i)), 10u8) >= s.len() {
        // fewer than four lines are left: truncation inside the record
        Option::None
    } else {
        let h = line_at(s, i);
        let i2 = next_line(s, i);
        let sq = line_at(s, i2);
        let i3 = next_line(s, i2);
        let pl = line_at(s, i3);
        let i4 = next_line(s, i3);
        let ql = line_at(s, i4);
        let i5 = next_line(s, i4);
        if !header_ok(h) || pl.len() < 1 || pl[0] != 43u8 {
            Option::None
        } else if sq.len() < 1 || sq.len() > MAX_READ_LEN || ql.len() != sq.len() {
            Option::None
        } else {
            match parse_from(s, i5) {
                Option::None => Option::None,
                Option::Some(rest) => Option::Some(seq![record_of_lines(h, sq, ql)] + rest),
            }
        }
    }
}

#[via_fn]
proof fn parse_from_dec(s: Seq<u8>, i: int) {
    if i < s.len() {
        lemma_find_byte(s, i, 10u8);
        let e1 = find_byte(s, i, 10u8);
        if e1 < s.len() {
            lemma_find_byte(s, e1 + 1, 10u8);
            let e2 = find_byte(s, e1 + 1, 10u8);
            if e2 < s.len() {
                lemma_find_byte(s, e2 + 1, 10u8);
                let e3 = find_byte(s, e2 + 1, 10u8);
                if e3 < s.len() {
                    lemma_find_byte(s, e3 + 1, 10u8);
                }
            }
        }
    }
}

/// The records encoded by a whole byte stream.
pub open spec fn parse_all(s: Seq<u8>) -> Option<Seq<RecordV>> {
    parse_from(s, 0)
}

/// Every record that `parse_from` yields is well-formed.
pub proof fn lemma_parse_from_wf(s: Seq<u8>, i: int)
    requires
        0 <= i <= s.len(),
        parse_from(s, i) is Some,
    ensures
        forall|k: int|
            0 <= k < parse_from(s, i)->Some_0.len() ==> wf_record(
                #[trigger] parse_from(s, i)->Some_0[k],
            ),
    decreases s.len() - i,
{
    if i < s.len() {
        let e1 = find_byte(s, i, 10u8);
        lemma_find_byte(s, i, 10u8);
        let i2 = next_line(s, i);
        lemma_find_byte(s, i2, 10u8);
        let i3 = next_line(s, i2);
        lemma_find_byte(s, i3, 10u8);
        let i4 = next_line(s, i3);
        lemma_find_byte(s, i4, 10u8);
        let i5 = next_line(s, i4);
        let h = line_at(s, i);
        lemma_find_byte(h, 1, 32u8);
        if header_ok(h) {
            assert(find_byte(h, 1, 32u8) >= 2) by {
                assert(h[1] != 32u8);
            }
        }
        lemma_parse_from_wf(s, i5);
    }
}

pub proof fn lemma_find_byte_prefix(t1: Seq<u8>, t2: Seq<u8>, i: int, b: u8)
    requires
        0 <= i,
        find_byte(t1, i, b) < t1.len(),
    ensures
        find_byte(t1 + t2, i, b) == find_byte(t1, i, b),
    decreases t1.len() - i,
{
    lemma_find_byte(t1, i, b);
    if t1[i] != b {
        lemma_find_byte_prefix(t1, t2, i + 1, b);
    }
}

pub proof fn lemma_find_byte_shift(t1: Seq<u8>, t2: Seq<u8>, j: int, b: u8)
    requires
        0 <= j,
    ensures
        find_byte(t1 + t2, t1.len() + j, b) == t1.len() + find_byte(t2, j, b),
    decreases t2.len() - j,
{
    if j < t2.len() {
        assert((t1 + t2)[t1.len() + j] == t2[j]);
        if t2[j] != b {
            lemma_find_byte_shift(t1, t2, j + 1, b);
        }
    }
}

/// Parsing depends only on the bytes from the position on: records read at
/// an offset past `t1` in `t1 + t2` are the records read in `t2`.
pub proof fn lemma_parse_from_shift(t1: Seq<u8>, t2: Seq<u8>, j: int)
    requires
        0 <= j <= t2.len(),
    ensures
        parse_from(t1 + t2, t1.len() + j) == parse_from(t2, j),
    decreases t2.len() - j,
{
    let s = t1 + t2;
    let i = t1.len() + j;
    if j < t2.len() {
        lemma_find_byte(t2, j, 10u8);
        lemma_find_byte_shift(t1, t2, j, 10u8);
        let e1 = find_byte(t2, j, 10u8);
        let j2 = next_line(t2, j);
        assert(next_line(s, i) == t1.len() + j2);
        lemma_find_byte(t2, j2, 10u8);
        lemma_find_byte_shift(t1, t2, j2, 10u8);
        let e2 = find_byte(t2, j2, 10u8);
        let j3 = next_line(t2, j2);
        assert(next_line(s, t1.len() + j2) == t1.len() + j3);
        lemma_find_byte(t2, j3, 10u8);
        lemma_find_byte_shift(t1, t2, j3, 10u8);
        let e3 = find_byte(t2, j3, 10u8);
        let j4 = next_line(t2, j3);
        assert(next_line(s, t1.len() + j3) == t1.len() + j4);
        lemma_find_byte(t2, j4, 10u8);
        lemma_find_byte_shift(t1, t2, j4, 10u8);
        let e4 = find_byte(t2, j4, 10u8);
        let j5 = next_line(t2, j4);
        assert(next_line(s, t1.len() + j4) == t1.len() + j5);
        assert(s.subrange(t1.len() + j, t1.len() + e1) =~= t2.subrange(j, e1));
        assert(s.subrange(t1.len() + j2, t1.len() + e2) =~= t2.subrange(j2, e2));
        assert(s.subrange(t1.len() + j3, t1.len() + e3) =~= t2.subrange(j3, e3));
        assert(s.subrange(t1.len() + j4, t1.len() + e4) =~= t2.subrange(j4, e4));
        assert(line_at(s, i) == line_at(t2, j));
        assert(line_at(s, t1.len() + j2) == line_at(t2, j2));
        assert(line_at(s, t1.len() + j3) == line_at(t2, j3));
        assert(line_at(s, t1.len() + j4) == line_at(t2, j4));
        lemma_parse_from_shift(t1, t2, j5);
    }
}

/// Records of a stream that ends in a line break, followed by more bytes:
/// the records of the first stream come first, and the rest parse on their
/// own. `None` on the tail stays `None` for the whole.
pub proof fn lemma_parse_concat(t1: Seq<u8>, t2: Seq<u8>, i: int)
    requires
        0 <= i <= t1.len(),
        parse_from(t1, i) is Some,
        t1.len() >= 1 && t1[t1.len() - 1] == 10u8,
    ensures
        parse_from(t1 + t2, i) == opt_prepend(parse_from(t1, i)->Some_0, parse_from(t2, 0)),
    decreases t1.len() - i,
{
    let s = t1 + t2;
    if i == t1.len() {
        lemma_parse_from_shift(t1, t2, 0);
        match parse_from(t2, 0) {
            Option::None => {},
            Option::Some(b) => {
                assert(Seq::<RecordV>::empty() + b =~= b);
            },
        }
    } else {
        lemma_find_byte(t1, i, 10u8);
        let e1 = find_byte(t1, i, 10u8);
        let i2 = next_line(t1, i);
        lemma_find_byte(t1, i2, 10u8);
        let e2 = find_byte(t1, i2, 10u8);
        let i3 = next_line(t1, i2);
        lemma_find_byte(t1, i3, 10u8);
        let e3 = find_byte(t1, i3, 10u8);
        let i4 = next_line(t1, i3);
        lemma_find_byte(t1, i4, 10u8);
        let e4 = find_byte(t1, i4, 10u8);
        let i5 = next_line(t1, i4);
        // the parse at i succeeded, so the first three line breaks exist
        assert(e1 < t1.len() && e2 < t1.len() && e3 < t1.len());
        // the quality line is non-empty, so it starts inside t1; and t1 ends
        // with a line break, so the quality line's break exists too
        assert(i4 < t1.len()) by {
            if i4 == t1.len() {
                assert(line_at(t1, i4).len() == 0);
            }
        }
        assert(e4 < t1.len()) by {
            if e4 == t1.len() {
                assert(t1[t1.len() - 1] != 10u8);
            }
        }
        lemma_find_byte_prefix(t1, t2, i, 10u8);
        lemma_find_byte_prefix(t1, t2, i2, 10u8);
        lemma_find_byte_prefix(t1, t2, i3, 10u8);
        lemma_find_byte_prefix(t1, t2, i4, 10u8);
        assert(s.subrange(i, e1) =~= t1.subrange(i, e1));
        assert(s.subrange(i2, e2) =~= t1.subrange(i2, e2));
        assert(s.subrange(i3, e3) =~= t1.subrange(i3, e3));
        assert(s.subrange(i4, e4) =~= t1.subrange(i4, e4));
        assert(line_at(s, i) == line_at(t1, i));
        assert(line_at(s, i2) == line_at(t1, i2));
        assert(line_at(s, i3) == line_at(t1, i3));
        assert(line_at(s, i4) == line_at(t1, i4));
        assert(next_line(s, i) == i2 && next_line(s, i2) == i3 && next_line(s, i3) == i4
            && next_line(s, i4) == i5);
        assert(parse_from(t1, i5) is Some);
        lemma_parse_concat(t1, t2, i5);
        let r = record_of_lines(line_at(t1, i), line_at(t1, i2), line_at(t1, i4));
        let rest1 = parse_from(t1, i5)->Some_0;
        assert(parse_from(t1, i)->Some_0 == seq![r] + rest1);
        match parse_from(t2, 0) {
            Option::None => {
                assert(parse_from(s, i5) is None);
                assert(parse_from(s, i) is None);
            },
            Option::Some(q) => {
                assert(parse_from(s, i5) == Option::Some(rest1 + q));
                assert(parse_from(s, i) == Option::Some(seq![r] + (rest1 + q)));
                assert(seq![r] + (rest1 + q) =~= (seq![r] + rest1) + q);
            },
        }
    }
}

/// Views of a sequence of records.
pub open spec fn views_of(rs: Seq<Record>) -> Seq<RecordV> {
    rs.map(|j: int, r: Record| r@)
}

/// `None` stays `None`; records parsed so far are put in front of the rest.
pub open spec fn opt_prepend(a: Seq<RecordV>, o: Option<Seq<RecordV>>) -> Option<Seq<RecordV>> {
    match o {
        Option::None => Option::None,
        Option::Some(b) => Option::Some(a + b),
    }
}

/// Index of the first `b` in `s` at or after `start`, or `s.len()`.
fn find_byte_from(s: &[u8], start: usize, b: u8) -> (j: usize)
    requires
        start <= s@.len(),
    ensures
        j == find_byte(s@, start as int, b),
        start <= j <= s@.len(),
{
    let n: usize = s.len();
    let mut j: usize = start;
    while j < n && s[j] != b
        invariant
            start <= j <= n,
            n == s@.len(),
            forall|k: int| start <= k < j ==> s@[k] != b,
        decreases n - j,
    {
        j = j + 1;
    }
    proof {
        lemma_find_byte_is(s@, start as int, j as int, b);
    }
    j
}

/// End of the content of the line `[start, e)`: drops a CR before the LF.
fn line_content_end(s: &[u8], start: usize, e: usize) -> (c: usize)
    requires
        start <= e <= s@.len(),
        e == find_byte(s@, start as int, 10u8),
    ensures
        start <= c <= e,
        s@.subrange(start as int, c as int) == line_at(s@, start as int),
{
    let c: usize = if e > start && s[e - 1] == 13u8 {
        e - 1
    } else {
        e
    };
    proof {
        let raw = s@.subrange(start as int, e as int);
        if raw.len() >= 1 && raw[raw.len() - 1] == 13u8 {
            assert(raw.drop_last() =~= s@.subrange(start as int, (e - 1) as int));
        }
        assert(s@.subrange(start as int, c as int) =~= line_at(s@, start as int));
    }
    c
}

/// Parses a whole decompressed byte stream into records.
///
/// Succeeds exactly on streams whose every record is well-formed and whose
/// record count fits the 32-bit read counter of the summary schema.
pub fn parse_fastq(s: &[u8]) -> (r: Result<Vec<Record>, ParseError>)
    ensures
        match r {
            Ok(rs) => {
                &&& parse_all(s@) == Option::Some(views_of(rs@))
                &&& rs@.len() <= MAX_READ_LEN
                &&& forall|k: int| 0 <= k < rs@.len() ==> wf_record(#[trigger] rs@[k]@)
            },
            Err(_) => parse_all(s@) is None || parse_all(s@)->Some_0.len() > MAX_READ_LEN,
        },
{
    let n: usize = s.len();
    let mut recs: Vec<Record> = Vec::new();
    let mut i: usize = 0;
    while i < n
        invariant
            i <= n,
            n == s@.len(),
            opt_prepend(views_of(recs@), parse_from(s@, i as int)) == parse_all(s@),
            forall|k: int| 0 <= k < recs@.len() ==> wf_record(#[trigger] recs@[k]@),
        decreases n - i,
    {
        let ghost i0 = i as int;
        let e1: usize = find_byte_from(s, i, 10u8);
        if e1 >= n {
            return Err(ParseError);
        }
        let i2: usize = e1 + 1;
        let e2: usize = find_byte_from(s, i2, 10u8);
        if e2 >= n {
            return Err(ParseError);
        }
        let i3: usize = e2 + 1;
        let e3: usize = find_byte_from(s, i3, 10u8);
        if e3 >= n {
            return Err(ParseError);
        }
        let i4: usize = e3 + 1;
        let e4: usize = find_byte_from(s, i4, 10u8);
        proof {
            assert(next_line(s@, i0) == i2 as int);
            assert(next_line(s@, i2 as int) == i3 as int);
            assert(next_line(s@, i3 as int) == i4 as int);
        }
        let c1: usize = line_content_end(s, i, e1);
        let c2: usize = line_content_end(s, i2, e2);
        let c3: usize = line_content_end(s, i3, e3);
        let c4: usize = line_content_end(s, i4, e4);
        let ghost h = line_at(s@, i0);
        let ghost sq = line_at(s@, i2 as int);
        let ghost pl = line_at(s@, i3 as int);
        let ghost ql = line_at(s@, i4 as int);
        // header line: '@' then a non-empty identifier
        if c1 < i + 2 || s[i] != 64u8 || s[i + 1] == 32u8 {
            proof {
                assert(!header_ok(h));
                assert(parse_from(s@, i0) is None);
            }
            return Err(ParseError);
        }
        // separator line: '+'
        if c3 <= i3 || s[i3] != 43u8 {
            proof {
                assert(pl.len() < 1 || pl[0] != 43u8);
                assert(parse_from(s@, i0) is None);
            }
            return Err(ParseError);
        }
        // sequence and quality lines: equal, non-empty, bounded length
        let sq_len: usize = c2 - i2;
        let ql_len: usize = c4 - i4;
        if sq_len < 1 || sq_len > MAX_READ_LEN || ql_len != sq_len {
            proof {
                assert(sq.len() == sq_len && ql.len() == ql_len);
                assert(parse_from(s@, i0) is None);
            }
            return Err(ParseError);
        }
        let hsl: &[u8] = vstd::slice::slice_subrange(s, i, c1);
        let sp: usize = find_byte_from(hsl, 1, 32u8);
        let id: Vec<u8> = vstd::slice::slice_to_vec(vstd::slice::slice_subrange(hsl, 1, sp));
        let desc: Option<Vec<u8>> = if sp < c1 - i {
            Some(vstd::slice::slice_to_vec(vstd::slice::slice_subrange(hsl, sp + 1, c1 - i)))
        } else {
            None
        };
        let seq_v: Vec<u8> = vstd::slice::slice_to_vec(vstd::slice::slice_subrange(s, i2, c2));
        let qual_v: Vec<u8> = vstd::slice::slice_to_vec(vstd::slice::slice_subrange(s, i4, c4));
        let rec = Record { id, desc, seq: seq_v, qual: qual_v };
        proof {
            lemma_find_byte(h, 1, 32u8);
            assert(find_byte(h, 1, 32u8) >= 2) by {
                assert(h[1] != 32u8);
            }
            assert(rec@.id =~= record_of_lines(h, sq, ql).id);
            match rec@.desc {
                Option::Some(d) => {
                    assert(d =~= h.subrange(find_byte(h, 1, 32u8) + 1, h.len() as int));
                },
                Option::None => {},
            }
            assert(rec@ == record_of_lines(h, sq, ql));
            assert(wf_record(rec@));
        }
        let i_next: usize = if e4 < n {
            e4 + 1
        } else {
            n
        };
        proof {
            assert(next_line(s@, i4 as int) == i_next as int);
            assert(parse_from(s@, i0) == opt_prepend(
                seq![rec@],
                parse_from(s@, i_next as int),
            ));
        }
        let ghost old_recs = recs@;
        recs.push(rec);
        proof {
            assert(views_of(recs@) =~= views_of(old_recs) + seq![rec@]);
            match parse_from(s@, i_next as int) {
                Option::None => {},
                Option::Some(rest) => {
                    assert(views_of(old_recs) + (seq![rec@] + rest) =~= views_of(recs@) + rest);
                },
            }
        }
        i = i_next;
    }
    proof {
        assert(parse_from(s@, i as int) == Option::Some(Seq::<RecordV>::empty()));
        assert(views_of(recs@) + Seq::<RecordV>::empty() =~= views_of(recs@));
    }
    if recs.len() > MAX_READ_LEN {
        return Err(ParseError);
    }
    Ok(recs)
}

} // verus!
