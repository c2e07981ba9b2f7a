//! The scanner as a mathematical state machine: one step per input byte.
use vstd::prelude::*;
use crate::report::DiagView;
use crate::rules::{
    duplicate_diags, fraction_diags, is_ambiguous, is_nucleotide, length_diags, MAX_LEN, MIN_LEN,
};
use crate::seqid::{defline_seqid, seqid_diags};

verus! {

/// The line break byte.
pub const NEWLINE: u8 = 0x0a;

/// The defline marker byte, `>`.
pub const MARKER: u8 = 0x3e;

/// The running context of one scan.
#[verifier::ext_equal]
pub struct ScanModel {
    /// Current line, counted from 1.
    pub line: int,
    /// Column within the current body line.
    pub col: int,
    /// The byte before the current one; `None` at the start of the stream.
    pub prev1: Option<u8>,
    /// The byte before `prev1`.
    pub prev2: Option<u8>,
    /// Whether the scanner is inside a defline.
    pub in_header: bool,
    /// The defline being read.
    pub defline: Seq<char>,
    /// The defline of the record whose body is being read.
    pub prev_defline: Seq<char>,
    /// Bases of the current body; `None` while no body has started.
    pub seq_len: Option<int>,
    /// `N`/`n` bases of the current body.
    pub n_count: int,
    /// Bytes consumed so far.
    pub consumed: int,
    /// Identifiers of the finished records, in order.
    pub records: Seq<Seq<char>>,
    /// Diagnostics emitted so far, in order.
    pub diags: Seq<DiagView>,
}

/// What a finished scan hands out: one identifier per record, and the diagnostics.
#[verifier::ext_equal]
pub struct ScanResult {
    pub records: Seq<Seq<char>>,
    pub diags: Seq<DiagView>,
}

/// The state before the first byte.
pub open spec fn initial_model() -> ScanModel {
    ScanModel {
        line: 1,
        col: 0,
        prev1: None,
        prev2: None,
        in_header: false,
        defline: Seq::empty(),
        prev_defline: Seq::empty(),
        seq_len: None,
        n_count: 0,
        consumed: 0,
        records: Seq::empty(),
        diags: Seq::empty(),
    }
}

/// The byte read as a character (Latin-1).
pub open spec fn byte_char(b: u8) -> char {
    b as char
}

/// Whether an optional byte is an ambiguous base.
pub open spec fn opt_ambiguous(b: Option<u8>) -> bool {
    match b {
        Some(x) => is_ambiguous(x),
        None => false,
    }
}

/// The diagnostics of the per-record rules, in the order they are checked.
pub open spec fn record_diags(seqid: Seq<char>, seq_len: Option<int>, n_count: int) -> Seq<DiagView> {
    seqid_diags(seqid) + length_diags(seqid, seq_len, MIN_LEN as int, MAX_LEN as int)
        + fraction_diags(seqid, seq_len, n_count)
}

/// A defline has ended and a body begins: the previous record, if any, is
/// finished and the defline just read becomes the current one.
pub open spec fn close_header(s: ScanModel) -> ScanModel {
    let id = defline_seqid(s.prev_defline);
    let finished = s.prev_defline.len() > 0;
    ScanModel {
        in_header: false,
        prev_defline: s.defline,
        defline: Seq::empty(),
        seq_len: Some(0),
        n_count: 0,
        records: if finished { s.records.push(id) } else { s.records },
        diags: if finished { s.diags + record_diags(id, s.seq_len, s.n_count) } else { s.diags },
        ..s
    }
}

/// A `>` byte: it opens a defline at the start of a line, else it is reported.
pub open spec fn marker_byte(s: ScanModel) -> ScanModel {
    if s.prev1 is None || s.prev1 == Some(NEWLINE) {
        ScanModel {
            in_header: true,
            defline: s.defline.push('>'),
            diags: if opt_ambiguous(s.prev2) {
                s.diags.push(DiagView::TrailingN { seqid: defline_seqid(s.prev_defline) })
            } else {
                s.diags
            },
            ..s
        }
    } else {
        ScanModel {
            col: s.col + 1,
            diags: s.diags.push(
                DiagView::StrayMarker {
                    line: s.line,
                    col: s.col + 1,
                    seqid: defline_seqid(s.prev_defline),
                },
            ),
            ..s
        }
    }
}

/// A byte of a sequence body.
pub open spec fn body_byte(s: ScanModel, b: u8) -> ScanModel {
    let col = s.col + 1;
    let seq_len = if b == NEWLINE {
        s.seq_len
    } else {
        Some(
            match s.seq_len {
                None => 1,
                Some(k) => k + 1,
            },
        )
    };
    let lead = if seq_len == Some(1int) && is_ambiguous(b) {
        seq![DiagView::LeadingN { seqid: defline_seqid(s.prev_defline) }]
    } else {
        Seq::empty()
    };
    let bad = if b == NEWLINE || is_nucleotide(b) {
        Seq::empty()
    } else {
        seq![DiagView::InvalidChar { ch: byte_char(b), line: s.line, col }]
    };
    ScanModel {
        col,
        seq_len,
        n_count: if is_ambiguous(b) { s.n_count + 1 } else { s.n_count },
        diags: s.diags + lead + bad,
        ..s
    }
}

/// A byte other than `>`.
pub open spec fn other_byte(s: ScanModel, b: u8) -> ScanModel {
    let s1 = if s.in_header && s.prev1 == Some(NEWLINE) { close_header(s) } else { s };
    if s1.in_header {
        ScanModel { defline: s1.defline.push(byte_char(b)), ..s1 }
    } else {
        body_byte(s1, b)
    }
}

/// One byte of input.
pub open spec fn step(s: ScanModel, b: u8) -> ScanModel {
    let s0 = ScanModel {
        line: if b == NEWLINE { s.line + 1 } else { s.line },
        col: if b == NEWLINE { 0 } else { s.col },
        consumed: s.consumed + 1,
        ..s
    };
    let s1 = if b == MARKER { marker_byte(s0) } else { other_byte(s0, b) };
    ScanModel { prev2: s.prev1, prev1: Some(b), ..s1 }
}

/// The state after reading `input`, starting from `s`.
pub open spec fn run(s: ScanModel, input: Seq<u8>) -> ScanModel
    decreases input.len(),
{
    if input.len() == 0 {
        s
    } else {
        step(run(s, input.drop_last()), input.last())
    }
}

/// The last byte before the end of input, skipping one final line break.
pub open spec fn trailing_byte(s: ScanModel) -> Option<u8> {
    if s.prev1 == Some(NEWLINE) {
        s.prev2
    } else {
        s.prev1
    }
}

/// The end of input.  A defline still being read is closed as at the start
/// of a body, so it yields its record too.  The last record, if a defline was
/// read at all, is then finished (with the trailing-base check where its body
/// was being read), and identifiers are checked for duplicates.
pub open spec fn finish_model(s: ScanModel) -> ScanResult {
    let s1 = if s.in_header { close_header(s) } else { s };
    let id = defline_seqid(s1.prev_defline);
    let has_record = s1.prev_defline.len() > 0;
    let trailing = if !s.in_header && opt_ambiguous(trailing_byte(s)) {
        seq![DiagView::TrailingN { seqid: id }]
    } else {
        Seq::empty()
    };
    let records = if has_record { s1.records.push(id) } else { s1.records };
    let last = if has_record {
        seqid_diags(id) + length_diags(id, s1.seq_len, MIN_LEN as int, MAX_LEN as int) + trailing
            + fraction_diags(id, s1.seq_len, s1.n_count)
    } else {
        Seq::empty()
    };
    ScanResult { records, diags: s1.diags + last + duplicate_diags(records) }
}

/// The result of scanning `input` in one pass.
pub open spec fn scan_spec(input: Seq<u8>) -> ScanResult {
    finish_model(run(initial_model(), input))
}

} // verus!
