use fqr::fastq::parse_fastq;
use fqr::hist::Histogram;
use fqr::pipeline::{process_text, FileError};

#[test]
fn parses_id_desc_seq_qual() {
    let recs = parse_fastq(b"@read1 first read\nACGT\n+\n!!!!\n").unwrap();
    assert_eq!(recs.len(), 1);
    assert_eq!(recs[0].id, b"read1".to_vec());
    assert_eq!(recs[0].desc, Some(b"first read".to_vec()));
    assert_eq!(recs[0].seq, b"ACGT".to_vec());
    assert_eq!(recs[0].qual, b"!!!!".to_vec());
}

#[test]
fn header_without_space_has_no_desc() {
    let recs = parse_fastq(b"@read1\nAC\n+\n!!\n").unwrap();
    assert_eq!(recs[0].id, b"read1".to_vec());
    assert_eq!(recs[0].desc, None);
}

#[test]
fn crlf_lines_are_tolerated() {
    let recs = parse_fastq(b"@r1\r\nACGT\r\n+\r\n!!!!\r\n").unwrap();
    assert_eq!(recs.len(), 1);
    assert_eq!(recs[0].seq, b"ACGT".to_vec());
    assert_eq!(recs[0].qual, b"!!!!".to_vec());
}

#[test]
fn final_newline_is_optional() {
    let recs = parse_fastq(b"@r1\nACGT\n+\n!!!!").unwrap();
    assert_eq!(recs.len(), 1);
    assert_eq!(recs[0].qual, b"!!!!".to_vec());
}

#[test]
fn separator_line_remainder_is_ignored() {
    let recs = parse_fastq(b"@r1\nACGT\n+r1 again\n!!!!\n").unwrap();
    assert_eq!(recs.len(), 1);
}

#[test]
fn missing_at_is_parse_error() {
    assert!(parse_fastq(b"r1\nACGT\n+\n!!!!\n").is_err());
}

#[test]
fn missing_plus_is_parse_error() {
    assert!(parse_fastq(b"@r1\nACGT\n-\n!!!!\n").is_err());
}

#[test]
fn length_mismatch_is_parse_error() {
    assert!(parse_fastq(b"@r1\nACGT\n+\n!!!\n").is_err());
    let r = process_text(String::from("x.fq"), b"@r1\nACGT\n+\n!!!\n");
    assert!(matches!(r, Err(FileError::Parse(_))));
}

#[test]
fn truncated_record_is_parse_error() {
    assert!(parse_fastq(b"@r1\nACGT\n").is_err());
    assert!(parse_fastq(b"@r1\nACGT\n+\n").is_err());
    assert!(parse_fastq(b"@r1\n").is_err());
}

#[test]
fn empty_identifier_is_parse_error() {
    assert!(parse_fastq(b"@\nACGT\n+\n!!!!\n").is_err());
    assert!(parse_fastq(b"@ desc only\nACGT\n+\n!!!!\n").is_err());
}

#[test]
fn empty_sequence_is_parse_error() {
    assert!(parse_fastq(b"@r1\n\n+\n\n").is_err());
}

#[test]
fn empty_input_is_zero_records() {
    let recs = parse_fastq(b"").unwrap();
    assert_eq!(recs.len(), 0);
}

#[test]
fn histogram_counts_lengths() {
    let data: Vec<i32> = vec![1, 2, 3, 12, 13];
    let h = Histogram::new(&data, 1, 10, 20);
    // bins of width 10 for lengths up to 20: [0,10) holds 3, [10,20) holds 2
    assert_eq!(h.bins().clone(), vec![3, 2]);
    assert_eq!(h.bin_size(), 10);
    assert_eq!(h.box_size(), 1);
}
