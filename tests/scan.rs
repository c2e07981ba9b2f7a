use fasta_check::report::{Category, Diagnostic, Report};
use fasta_check::rules::{validate_seq_len, validate_seq_n_pct, validate_seqid_unique};
use fasta_check::scanner::{scan, scan_chunks, Scanner, ValidationReport};
use fasta_check::seqid::validate_seq_id;
use fasta_check::source::{source_kind, SourceKind};

fn ids(r: &ValidationReport) -> Vec<String> {
    r.records.iter().map(|x| x.seqid.clone()).collect()
}

fn body(n: usize) -> String {
    "A".repeat(n)
}

fn fed(input: &[u8], size: usize) -> ValidationReport {
    let mut s = Scanner::new();
    for chunk in input.chunks(size) {
        s.feed(chunk);
    }
    s.finish()
}

#[test]
fn valid_single_record_is_clean() {
    let input = format!(">seq1 some description\n{}\n{}\n", body(40), body(30));
    let r = scan(input.as_bytes());
    assert!(r.diagnostics.is_empty(), "{:?}", r.diagnostics);
    assert_eq!(ids(&r), vec![">seq1".to_string()]);
}

#[test]
fn record_count_matches_header_lines() {
    let input = format!(">a\n{0}\n>b\n{0}\n>c\n{0}", body(60));
    let r = scan(input.as_bytes());
    assert_eq!(ids(&r), vec![">a", ">b", ">c"]);
}

#[test]
fn header_only_input_gives_one_record() {
    let r = scan(b">a");
    assert_eq!(r.records.len(), 1);
    let r = scan(b">a b\n");
    assert_eq!(ids(&r), vec![">a"]);
}

#[test]
fn rescanning_gives_identical_output() {
    let input = b">seq1\nACGXTN\n>1x\nNNA>\n";
    let a = scan(input);
    let b = scan(input);
    assert_eq!(format!("{:?}", a.diagnostics), format!("{:?}", b.diagnostics));
    assert_eq!(format!("{:?}", a.records), format!("{:?}", b.records));
}

#[test]
fn chunk_size_does_not_matter() {
    let input = format!(">seq1 x\nNACG\nTXn\n>seq2\n{}n\n>seq1\nAC>G\n", body(50));
    let whole = scan(input.as_bytes());
    for size in [1usize, 2, 3, 7, 4096] {
        let r = fed(input.as_bytes(), size);
        assert_eq!(format!("{:?}", r.diagnostics), format!("{:?}", whole.diagnostics));
        assert_eq!(format!("{:?}", r.records), format!("{:?}", whole.records));
    }
}

#[test]
fn short_record_and_ambiguous_start() {
    let input = ">seq1\nACGT\n>seq2\nNNNNACGTACGTACGTACGTACGTACGTACGTACGTACGTACGTACGTAC\n";
    let r = scan(input.as_bytes());
    assert_eq!(ids(&r), vec![">seq1", ">seq2"]);
    assert_eq!(r.diagnostics.len(), 2, "{:?}", r.diagnostics);
    match &r.diagnostics[0] {
        Diagnostic::LengthOutOfRange { seqid, min, max, len } => {
            assert_eq!(seqid, ">seq1");
            assert_eq!((*min, *max, *len), (50, 30000, 4));
        }
        d => panic!("unexpected {:?}", d),
    }
    assert!(matches!(&r.diagnostics[1], Diagnostic::LeadingN { seqid } if seqid == ">seq2"));
}

#[test]
fn identifier_must_start_with_letter() {
    let ok = scan(format!(">s eq\n{}\n", body(60)).as_bytes());
    assert!(ok.diagnostics.is_empty(), "{:?}", ok.diagnostics);
    assert_eq!(ids(&ok), vec![">s"]);
    let bad = scan(format!(">1abc\n{}\n", body(60)).as_bytes());
    assert_eq!(bad.diagnostics.len(), 1);
    assert!(matches!(&bad.diagnostics[0], Diagnostic::SeqidStart { ch: '1', seqid } if seqid == ">1abc"));
    assert_eq!(bad.diagnostics[0].category(), Category::Defline);
}

#[test]
fn invalid_base_is_located() {
    let r = scan(format!(">seq1\nACGXT{}\n", body(55)).as_bytes());
    assert_eq!(r.diagnostics.len(), 1);
    assert!(matches!(r.diagnostics[0], Diagnostic::InvalidChar { ch: 'X', line: 2, col: 4 }));
    assert_eq!(r.diagnostics[0].category(), Category::Nucleotide);
}

#[test]
fn column_counts_the_line_break_of_a_body_line() {
    let r = scan(format!(">s\nAC\nGX{}\n", body(50)).as_bytes());
    assert!(matches!(r.diagnostics[0], Diagnostic::InvalidChar { ch: 'X', line: 3, col: 3 }));
}

#[test]
fn duplicate_identifier_reported_once() {
    let input = format!(">seq1\n{0}\n>seq1\n{0}\n", body(60));
    let r = scan(input.as_bytes());
    assert_eq!(r.diagnostics.len(), 1);
    assert!(matches!(&r.diagnostics[0], Diagnostic::DuplicateSeqid { seqid } if seqid == ">seq1"));
}

#[test]
fn trailing_n_before_next_header() {
    let input = format!(">seq1\n{}n\n>seq2\n{}\n", body(59), body(60));
    let r = scan(input.as_bytes());
    assert_eq!(r.diagnostics.len(), 1, "{:?}", r.diagnostics);
    assert!(matches!(&r.diagnostics[0], Diagnostic::TrailingN { seqid } if seqid == ">seq1"));
}

#[test]
fn trailing_n_at_end_of_input() {
    for tail in ["n", "n\n"] {
        let r = scan(format!(">seq1\n{}{}", body(59), tail).as_bytes());
        assert_eq!(r.diagnostics.len(), 1, "{:?}", r.diagnostics);
        assert!(matches!(&r.diagnostics[0], Diagnostic::TrailingN { seqid } if seqid == ">seq1"));
    }
}

#[test]
fn leading_n_reported() {
    let r = scan(format!(">seq1\nN{}\n", body(59)).as_bytes());
    assert_eq!(r.diagnostics.len(), 1, "{:?}", r.diagnostics);
    assert!(matches!(&r.diagnostics[0], Diagnostic::LeadingN { seqid } if seqid == ">seq1"));
}

#[test]
fn stray_marker_in_body() {
    let r = scan(format!(">seq1\nAC>GT{}\n", body(50)).as_bytes());
    assert_eq!(r.diagnostics.len(), 1, "{:?}", r.diagnostics);
    assert!(matches!(&r.diagnostics[0],
        Diagnostic::StrayMarker { line: 2, col: 3, seqid } if seqid == ">seq1"));
}

#[test]
fn mostly_ambiguous_sequence() {
    let r = scan(format!(">seq1\nA{}A\n", "N".repeat(58)).as_bytes());
    assert_eq!(r.diagnostics.len(), 1, "{:?}", r.diagnostics);
    assert!(matches!(&r.diagnostics[0],
        Diagnostic::AmbiguousFraction { n_count: 58, len: 60, seqid } if seqid == ">seq1"));
    assert_eq!(r.diagnostics[0].category(), Category::Nucleotide);
}

#[test]
fn identifier_stops_at_whitespace_only() {
    let r = scan(format!(">abc|def ghi\n{}\n", body(60)).as_bytes());
    assert_eq!(ids(&r), vec![">abc|def"]);
    assert_eq!(r.diagnostics.len(), 1, "{:?}", r.diagnostics);
    assert!(matches!(&r.diagnostics[0], Diagnostic::SeqidChar { ch: '|', seqid } if seqid == ">abc|def"));
}

#[test]
fn identifiers_differing_after_bar_are_distinct() {
    let r = scan(format!(">x|A\n{0}\n>x|B\n{0}\n", body(60)).as_bytes());
    assert_eq!(ids(&r), vec![">x|A", ">x|B"]);
    assert!(!r.diagnostics.iter().any(|d| matches!(d, Diagnostic::DuplicateSeqid { .. })));
}

#[test]
fn identifier_ends_at_tab() {
    let r = scan(format!(">ab\tc\n{}\n", body(60)).as_bytes());
    assert_eq!(ids(&r), vec![">ab"]);
}

#[test]
fn latin1_letter_is_alphabetic() {
    let mut input = vec![b'>', 0xe9, b't', b'\n'];
    input.extend_from_slice(body(60).as_bytes());
    let r = scan(&input);
    assert!(r.diagnostics.is_empty(), "{:?}", r.diagnostics);
    assert_eq!(ids(&r), vec![">\u{e9}t"]);
}

#[test]
fn empty_input_gives_no_record() {
    let r = scan(b"");
    assert!(r.records.is_empty());
    assert!(r.diagnostics.is_empty(), "{:?}", r.diagnostics);
}

#[test]
fn input_without_defline_gives_no_record() {
    let r = scan(b"ACGT\nACGX\n");
    assert!(r.records.is_empty());
    assert_eq!(r.diagnostics.len(), 1, "{:?}", r.diagnostics);
    assert!(matches!(r.diagnostics[0], Diagnostic::InvalidChar { ch: 'X', line: 2, col: 5 }));
}

#[test]
fn defline_open_at_end_gives_its_record() {
    let input = format!(">a\n{}\n>b\n", body(60));
    let r = scan(input.as_bytes());
    assert_eq!(ids(&r), vec![">a", ">b"]);
    assert_eq!(r.diagnostics.len(), 1, "{:?}", r.diagnostics);
    assert!(matches!(&r.diagnostics[0],
        Diagnostic::LengthOutOfRange { len: 0, seqid, .. } if seqid == ">b"));
}

#[test]
fn seqid_rules() {
    let mut msgs = Vec::new();
    assert!(validate_seq_id(&">ab_c*#.-:9".to_string(), &mut msgs));
    assert!(msgs.is_empty());
    assert!(!validate_seq_id(&">ab$c".to_string(), &mut msgs));
    assert!(matches!(msgs[0], Diagnostic::SeqidChar { ch: '$', .. }));
    msgs.clear();
    assert!(!validate_seq_id(&">".to_string(), &mut msgs));
    assert_eq!(msgs.len(), 1);
    assert!(matches!(msgs[0], Diagnostic::MissingSeqid { .. }));
    msgs.clear();
    let long = format!(">{}", "a".repeat(25));
    assert!(!validate_seq_id(&long, &mut msgs));
    assert!(matches!(msgs[0], Diagnostic::SeqidTooLong { len: 26, .. }));
    msgs.clear();
    let longest = format!(">{}", "a".repeat(23));
    assert!(validate_seq_id(&longest, &mut msgs));
    msgs.clear();
    assert!(!validate_seq_id(&">9a b".to_string(), &mut msgs));
    assert_eq!(msgs.len(), 2);
}

#[test]
fn length_rule_bounds() {
    let id = ">s".to_string();
    let mut msgs = Vec::new();
    assert!(validate_seq_len(&id, None, 50, 30000, &mut msgs));
    assert!(validate_seq_len(&id, Some(50), 50, 30000, &mut msgs));
    assert!(validate_seq_len(&id, Some(30000), 50, 30000, &mut msgs));
    assert!(msgs.is_empty());
    assert!(!validate_seq_len(&id, Some(49), 50, 30000, &mut msgs));
    assert!(!validate_seq_len(&id, Some(30001), 50, 30000, &mut msgs));
    assert_eq!(msgs.len(), 2);
    assert_eq!(msgs[0].category(), Category::Sequence);
}

#[test]
fn ambiguous_fraction_threshold() {
    let id = ">s".to_string();
    let mut msgs = Vec::new();
    validate_seq_n_pct(Some(50), &id, 24, &mut msgs);
    validate_seq_n_pct(Some(0), &id, 0, &mut msgs);
    validate_seq_n_pct(None, &id, 0, &mut msgs);
    assert!(msgs.is_empty());
    validate_seq_n_pct(Some(50), &id, 25, &mut msgs);
    assert_eq!(msgs.len(), 1);
}

#[test]
fn duplicates_counted_per_repeat() {
    let mut rows = Vec::new();
    for id in [">a", ">b", ">a", ">a"] {
        let mut r = Report::new();
        r.seqid = id.to_string();
        rows.push(r);
    }
    let mut msgs = Vec::new();
    validate_seqid_unique(&rows, &mut msgs);
    assert_eq!(msgs.len(), 2);
}

#[test]
fn report_defaults() {
    let r = Report::new();
    assert_eq!(r.seqid, "");
    assert_eq!(r.organism, "Severe acute respiratory syndrome coronavirus 2");
    assert_eq!(r.gcode, "1");
    assert_eq!(r.moltype, "genomic RNA");
    assert_eq!(r.topology, "linear");
    assert_eq!(r.strand, "single");
}

#[test]
fn file_suffixes() {
    assert_eq!(source_kind("a/b.fa"), Some(SourceKind::Plain));
    assert_eq!(source_kind("x.FASTA"), Some(SourceKind::Plain));
    assert_eq!(source_kind("x.fsa"), Some(SourceKind::Plain));
    assert_eq!(source_kind("x.fna"), Some(SourceKind::Plain));
    assert_eq!(source_kind("x.fa.GZ"), Some(SourceKind::Gzip));
    assert_eq!(source_kind("x.txt"), None);
    assert_eq!(source_kind("x.fa."), None);
    assert_eq!(source_kind("fa"), Some(SourceKind::Plain));
}

#[test]
fn bytes_consumed_counts_every_chunk() {
    let mut s = Scanner::new();
    s.feed(b">a\nAC");
    s.feed(b"GT\n");
    assert_eq!(s.bytes_consumed(), 8);
}

#[test]
fn adjacent_deflines_share_one_record() {
    let r = scan(format!(">a\n>b\n{}\n", body(60)).as_bytes());
    assert_eq!(ids(&r), vec![">a"]);
}

#[test]
fn marker_inside_defline_is_reported() {
    let r = scan(format!(">a>b\n{}\n", body(60)).as_bytes());
    assert_eq!(r.diagnostics.len(), 1, "{:?}", r.diagnostics);
    assert!(matches!(&r.diagnostics[0], Diagnostic::StrayMarker { line: 1, col: 1, seqid } if seqid.is_empty()));
    assert_eq!(ids(&r), vec![">ab"]);
}

#[test]
fn chunked_input_matches_single_stream() {
    let input = format!(">seq1\nAC\0GT\n>seq2 d\n{}N\n>seq1\nA", body(50));
    let whole = scan(input.as_bytes());
    for size in [1usize, 5, 64] {
        let chunks: Vec<Vec<u8>> = input.as_bytes().chunks(size).map(|c| c.to_vec()).collect();
        let r = scan_chunks(&chunks);
        assert_eq!(format!("{:?}", r.diagnostics), format!("{:?}", whole.diagnostics));
        assert_eq!(format!("{:?}", r.records), format!("{:?}", whole.records));
    }
    assert!(whole
        .diagnostics
        .iter()
        .any(|d| matches!(d, Diagnostic::InvalidChar { ch: '\0', line: 2, col: 3 })));
}

#[test]
fn no_chunks_is_empty_input() {
    let r = scan_chunks(&Vec::new());
    assert!(r.records.is_empty());
    assert!(r.diagnostics.is_empty());
}
