use std::io::Write;

use fqr::config::{validate_file_path, ConfigError};
use fqr::pipeline::{process_file, process_text, FileError, Report};
use fqr::stats::FileSummary;

fn gzip(data: &[u8]) -> Vec<u8> {
    let mut enc = flate2::write::GzEncoder::new(Vec::new(), flate2::Compression::default());
    enc.write_all(data).unwrap();
    enc.finish().unwrap()
}

fn qual_f32(sm: &FileSummary, k: usize) -> f32 {
    let q = &sm.qual_per_reads[k];
    (q.num as f32) / (q.den as f32)
}

fn min_qual_f32(sm: &FileSummary) -> f32 {
    (sm.min_qual.num as f32) / (sm.min_qual.den as f32)
}

fn max_qual_f32(sm: &FileSummary) -> f32 {
    (sm.max_qual.num as f32) / (sm.max_qual.den as f32)
}

fn avg_qual_f32(sm: &FileSummary) -> f32 {
    let sum: f32 = sm.qual_per_reads.iter().map(|q| (q.num as f32) / (q.den as f32)).sum();
    sum / sm.qual_per_reads.len() as f32
}

fn avg_len_f32(sm: &FileSummary) -> f32 {
    sm.total_bases as f32 / sm.total_reads as f32
}

#[test]
fn it_works() {
    let result = 2 + 2;
    assert_eq!(result, 4);
}

#[test]
fn single_record_summary() {
    let data = gzip(b"@r1\nACGT\n+\n!!!!\n");
    let sm = process_file(String::from("a.fq.gz"), &data).unwrap();
    assert_eq!(sm.filename, "a.fq.gz");
    assert_eq!(sm.total_reads, 1);
    assert_eq!(sm.total_bases, 4);
    assert_eq!(sm.min_len, 4);
    assert_eq!(sm.max_len, 4);
    assert_eq!(avg_len_f32(&sm), 4.0);
    assert_eq!(min_qual_f32(&sm), 0.0);
    assert_eq!(max_qual_f32(&sm), 0.0);
    assert_eq!(avg_qual_f32(&sm), 0.0);
    assert_eq!(sm.len_per_reads, vec![4]);
    assert_eq!(sm.qual_per_reads.len(), 1);
    assert_eq!(qual_f32(&sm, 0), 0.0);
}

#[test]
fn single_record_collapses_min_max_avg() {
    let data = gzip(b"@r1\nACGTT\n+\nIIJII\n");
    let sm = process_file(String::from("one.fq.gz"), &data).unwrap();
    assert_eq!(sm.min_len, sm.max_len);
    assert_eq!(avg_len_f32(&sm), sm.min_len as f32);
    assert_eq!(min_qual_f32(&sm), max_qual_f32(&sm));
    assert_eq!(avg_qual_f32(&sm), min_qual_f32(&sm));
}

#[test]
fn two_record_summary() {
    let data = gzip(b"@r1\nACGT\n+\nIIII\n@r2\nACG\n+\nIII\n");
    let sm = process_file(String::from("b.fq.gz"), &data).unwrap();
    assert_eq!(sm.total_reads, 2);
    assert_eq!(sm.total_bases, 7);
    assert_eq!(sm.min_len, 3);
    assert_eq!(sm.max_len, 4);
    assert_eq!(avg_len_f32(&sm), 3.5);
    assert_eq!(min_qual_f32(&sm), 40.0);
    assert_eq!(max_qual_f32(&sm), 40.0);
    assert_eq!(avg_qual_f32(&sm), 40.0);
}

#[test]
fn uniform_lengths_collapse() {
    let data = gzip(b"@r1\nACGT\n+\n####\n@r2\nTTTT\n+\n!!!!\n@r3\nGGGG\n+\nIIII\n");
    let sm = process_file(String::from("u.fq.gz"), &data).unwrap();
    assert_eq!(sm.min_len, 4);
    assert_eq!(sm.max_len, 4);
    assert_eq!(avg_len_f32(&sm), 4.0);
}

#[test]
fn avg_qual_is_mean_of_per_read_means() {
    // quality means 2.0 ('#') and 40.0 ('I'): average 21.0
    let data = gzip(b"@r1\nAC\n+\n##\n@r2\nGT\n+\nII\n");
    let sm = process_file(String::from("m.fq.gz"), &data).unwrap();
    assert_eq!(qual_f32(&sm, 0), 2.0);
    assert_eq!(qual_f32(&sm, 1), 40.0);
    assert_eq!(avg_qual_f32(&sm), 21.0);
    assert_eq!(min_qual_f32(&sm), 2.0);
    assert_eq!(max_qual_f32(&sm), 40.0);
}

#[test]
fn missing_file_is_config_error() {
    let r = validate_file_path("missing.fq.gz", false);
    assert_eq!(r, Err(ConfigError::NotFound));
}

#[test]
fn ungzipped_path_is_config_error() {
    let r = validate_file_path("plain.fq", true);
    assert_eq!(r, Err(ConfigError::NotGzipped));
}

#[test]
fn valid_path_is_accepted() {
    let r = validate_file_path("a.fq.gz", true);
    assert_eq!(r, Ok(String::from("a.fq.gz")));
}

#[test]
fn two_files_two_summaries() {
    let a = gzip(b"@r1\nACGT\n+\n!!!!\n");
    let mut c_text: Vec<u8> = Vec::new();
    for i in 0..100 {
        c_text.extend_from_slice(format!("@r{i}\n").as_bytes());
        c_text.extend_from_slice(&[b'A'; 150]);
        c_text.push(b'\n');
        c_text.extend_from_slice(b"+\n");
        c_text.extend_from_slice(&[b'?'; 150]);
        c_text.push(b'\n');
    }
    let c = gzip(&c_text);
    let mut report = Report::new();
    report.push(process_file(String::from("a.fq.gz"), &a).unwrap());
    report.push(process_file(String::from("c.fq.gz"), &c).unwrap());
    assert_eq!(report.summaries.len(), 2);
    let names: Vec<&str> = report.summaries.iter().map(|s| s.filename.as_str()).collect();
    assert!(names.contains(&"a.fq.gz"));
    assert!(names.contains(&"c.fq.gz"));
    let c_sm = report.summaries.iter().find(|s| s.filename == "c.fq.gz").unwrap();
    assert_eq!(c_sm.total_reads, 100);
    assert_eq!(c_sm.total_bases, 15000);
    assert_eq!(c_sm.min_len, 150);
    assert_eq!(c_sm.max_len, 150);
    assert_eq!(min_qual_f32(c_sm), 30.0);
    assert_eq!(max_qual_f32(c_sm), 30.0);
    assert_eq!(avg_qual_f32(c_sm), 30.0);
}

#[test]
fn concatenated_gzip_members_add_up() {
    let member = gzip(b"@r1\nACGT\n+\nIIII\n@r2\nACG\n+\nIII\n");
    let mut both = member.clone();
    both.extend_from_slice(&member);
    let sm = process_file(String::from("d.fq.gz"), &both).unwrap();
    assert_eq!(sm.total_reads, 4);
    assert_eq!(sm.total_bases, 14);
}

#[test]
fn same_input_gives_same_summary() {
    let data = gzip(b"@r1\nACGT\n+\nIIII\n@r2\nACG\n+\nIII\n");
    let s1 = process_file(String::from("b.fq.gz"), &data).unwrap();
    let s2 = process_file(String::from("b.fq.gz"), &data).unwrap();
    assert_eq!(s1.filename, s2.filename);
    assert_eq!(s1.total_reads, s2.total_reads);
    assert_eq!(s1.total_bases, s2.total_bases);
    assert_eq!(s1.min_len, s2.min_len);
    assert_eq!(s1.max_len, s2.max_len);
    assert_eq!(s1.len_per_reads, s2.len_per_reads);
    assert_eq!(s1.qual_per_reads, s2.qual_per_reads);
    assert_eq!(s1.min_qual, s2.min_qual);
    assert_eq!(s1.max_qual, s2.max_qual);
}

#[test]
fn corrupt_gzip_is_decode_error() {
    let data = vec![0x1fu8, 0x8b, 0x00, 0x00, 0x11, 0x22];
    let r = process_file(String::from("x.fq.gz"), &data);
    assert!(matches!(r, Err(FileError::Decode(_))));
}

#[test]
fn truncated_gzip_is_decode_error() {
    let mut data = gzip(b"@r1\nACGT\n+\nIIII\n");
    data.truncate(data.len() - 3);
    let r = process_file(String::from("t.fq.gz"), &data);
    assert!(matches!(r, Err(FileError::Decode(_))));
}

#[test]
fn empty_file_is_empty_error() {
    let data = gzip(b"");
    let r = process_file(String::from("e.fq.gz"), &data);
    assert!(matches!(r, Err(FileError::Empty(_))));
}

#[test]
fn decoder_really_decodes() {
    // the compressed member bytes themselves are no FASTQ text, so a decoder
    // that handed its input back unchanged would fail to parse
    let data = gzip(b"@r1\nACGT\n+\n!!!!\n");
    assert!(process_text(String::from("a.fq.gz"), &data).is_err());
    assert!(process_file(String::from("a.fq.gz"), &data).is_ok());
}
