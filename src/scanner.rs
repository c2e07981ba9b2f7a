//! The streaming scanner: consumes input chunk by chunk, keeps its state
//! across chunk boundaries, and collects records and diagnostics.
use vstd::prelude::*;
use crate::model::{
    body_byte, byte_char, close_header, finish_model, initial_model, marker_byte, other_byte,
    record_diags, run, scan_spec, step, ScanModel, ScanResult, MARKER, NEWLINE,
};
use crate::report::{Diagnostic, Report, diag_views, lemma_diag_views_push, report_seqids};
use crate::laws::{joined, lemma_run_append};
use crate::rules::{
    ambiguous_base, nucleotide_base, opt_int, validate_seq_len, validate_seq_n_pct,
    validate_seqid_unique, MAX_LEN, MIN_LEN,
};
use crate::seqid::{get_seqid, validate_seq_id};

verus! {

/// The records and diagnostics of a finished scan.
pub struct ValidationReport {
    /// One row per record, in input order.
    pub records: Vec<Report>,
    /// Every diagnostic, in emission order.
    pub diagnostics: Vec<Diagnostic>,
}

impl ValidationReport {
    /// The mathematical value: identifiers of the rows and views of the diagnostics.
    pub open spec fn result(&self) -> ScanResult {
        ScanResult {
            records: report_seqids(self.records@),
            diags: diag_views(self.diagnostics@),
        }
    }

    /// Every row carries the fixed metadata.
    pub open spec fn rows_have_metadata(&self) -> bool {
        forall|i: int| 0 <= i < self.records@.len() ==> #[trigger] self.records@[i].has_default_metadata()
    }
}

/// A scan in progress.
pub struct Scanner {
    line: u64,
    col: u64,
    prev1: Option<u8>,
    prev2: Option<u8>,
    in_header: bool,
    defline: Vec<char>,
    prev_defline: Vec<char>,
    seq_len: Option<u64>,
    n_count: u64,
    consumed: u64,
    records: Vec<Report>,
    diagnostics: Vec<Diagnostic>,
}

impl View for Scanner {
    type V = ScanModel;

    closed spec fn view(&self) -> ScanModel {
        ScanModel {
            line: self.line as int,
            col: self.col as int,
            prev1: self.prev1,
            prev2: self.prev2,
            in_header: self.in_header,
            defline: self.defline@,
            prev_defline: self.prev_defline@,
            seq_len: opt_int(self.seq_len),
            n_count: self.n_count as int,
            consumed: self.consumed as int,
            records: report_seqids(self.records@),
            diags: diag_views(self.diagnostics@),
        }
    }
}

impl Scanner {
    /// Counters stay within the bytes consumed, and every row has the fixed metadata.
    pub closed spec fn wf(&self) -> bool {
        &&& self.line <= self.consumed as int + 1
        &&& self.col <= self.consumed
        &&& match self.seq_len {
            Some(k) => k <= self.consumed && self.n_count <= k,
            None => self.n_count == 0,
        }
        &&& forall|i: int|
            0 <= i < self.records@.len() ==> #[trigger] self.records@[i].has_default_metadata()
    }

    /// Room for one more byte while a step is under way.
    closed spec fn mid_step(&self) -> bool {
        &&& self.line <= self.consumed as int + 1
        &&& self.col < self.consumed
        &&& match self.seq_len {
            Some(k) => k < self.consumed && self.n_count <= k,
            None => self.n_count == 0,
        }
        &&& forall|i: int|
            0 <= i < self.records@.len() ==> #[trigger] self.records@[i].has_default_metadata()
    }

    /// A scanner at the start of a stream.
    pub fn new() -> (r: Self)
        ensures
            r.wf(),
            r@ == initial_model(),
    {
        let r = Scanner {
            line: 1,
            col: 0,
            prev1: None,
            prev2: None,
            in_header: false,
            defline: Vec::new(),
            prev_defline: Vec::new(),
            seq_len: None,
            n_count: 0,
            consumed: 0,
            records: Vec::new(),
            diagnostics: Vec::new(),
        };
        assert(r@ =~= initial_model());
        r
    }

    /// The number of bytes consumed so far.
    pub fn bytes_consumed(&self) -> (r: u64)
        ensures
            r == self@.consumed,
    {
        self.consumed
    }

    fn push_diag(&mut self, d: Diagnostic)
        ensures
            diag_views(final(self).diagnostics@) == diag_views(old(self).diagnostics@).push(d@),
            final(self).records == old(self).records,
            final(self).line == old(self).line,
            final(self).col == old(self).col,
            final(self).prev1 == old(self).prev1,
            final(self).prev2 == old(self).prev2,
            final(self).in_header == old(self).in_header,
            final(self).defline == old(self).defline,
            final(self).prev_defline == old(self).prev_defline,
            final(self).seq_len == old(self).seq_len,
            final(self).n_count == old(self).n_count,
            final(self).consumed == old(self).consumed,
    {
        proof {
            lemma_diag_views_push(self.diagnostics@, d);
        }
        self.diagnostics.push(d);
    }

    fn close_header(&mut self)
        requires
            old(self).wf(),
        ensures
            final(self).wf(),
            old(self).mid_step() ==> final(self).mid_step(),
            final(self)@ == close_header(old(self)@),
    {
        let ghost s = self@;
        if self.prev_defline.len() > 0 {
            let id = get_seqid(&self.prev_defline);
            validate_seq_id(&id, &mut self.diagnostics);
            validate_seq_len(&id, self.seq_len, MIN_LEN, MAX_LEN, &mut self.diagnostics);
            let mut row = Report::new();
            row.seqid = id.clone();
            self.records.push(row);
            validate_seq_n_pct(self.seq_len, &id, self.n_count, &mut self.diagnostics);
            assert(report_seqids(self.records@) =~= s.records.push(id@));
            assert(diag_views(self.diagnostics@) =~= s.diags + record_diags(
                id@,
                s.seq_len,
                s.n_count,
            ));
        }
        self.in_header = false;
        std::mem::swap(&mut self.prev_defline, &mut self.defline);
        self.defline.clear();
        self.seq_len = Some(0);
        self.n_count = 0;
        assert(self@ =~= close_header(s));
    }

    fn marker_byte(&mut self)
        requires
            old(self).mid_step(),
        ensures
            final(self).wf(),
            final(self)@ == marker_byte(old(self)@),
    {
        let ghost s = self@;
        let at_line_start = match self.prev1 {
            None => true,
            Some(p) => p == NEWLINE,
        };
        if at_line_start {
            self.in_header = true;
            self.defline.push('>');
            let trailing = match self.prev2 {
                None => false,
                Some(p) => ambiguous_base(p),
            };
            if trailing {
                let id = get_seqid(&self.prev_defline);
                self.push_diag(Diagnostic::TrailingN { seqid: id });
            }
        } else {
            self.col = self.col + 1;
            let id = get_seqid(&self.prev_defline);
            self.push_diag(Diagnostic::StrayMarker { line: self.line, col: self.col, seqid: id });
        }
        assert(self@ =~= marker_byte(s));
    }

    fn body_byte(&mut self, b: u8)
        requires
            old(self).mid_step(),
        ensures
            final(self).wf(),
            final(self)@ == body_byte(old(self)@, b),
    {
        let ghost s = self@;
        self.col = self.col + 1;
        if b != NEWLINE {
            self.seq_len = match self.seq_len {
                None => Some(1),
                Some(k) => Some(k + 1),
            };
        }
        let first = match self.seq_len {
            None => false,
            Some(k) => k == 1,
        };
        let ambiguous = ambiguous_base(b);
        let ghost before = self.diagnostics@;
        if first && ambiguous {
            let id = get_seqid(&self.prev_defline);
            self.push_diag(Diagnostic::LeadingN { seqid: id });
        }
        let ghost lead = diag_views(self.diagnostics@).subrange(
            diag_views(before).len() as int,
            diag_views(self.diagnostics@).len() as int,
        );
        assert(diag_views(self.diagnostics@) =~= diag_views(before) + lead);
        if ambiguous {
            self.n_count = self.n_count + 1;
        }
        if !(b == NEWLINE || nucleotide_base(b)) {
            self.push_diag(Diagnostic::InvalidChar { ch: b as char, line: self.line, col: self.col });
        }
        assert(self@ =~= body_byte(s, b));
    }

    fn other_byte(&mut self, b: u8)
        requires
            old(self).mid_step(),
        ensures
            final(self).wf(),
            final(self)@ == other_byte(old(self)@, b),
    {
        let after_line = match self.prev1 {
            None => false,
            Some(p) => p == NEWLINE,
        };
        if self.in_header && after_line {
            self.close_header();
        }
        if self.in_header {
            let ghost s = self@;
            self.defline.push(b as char);
            assert(self@ =~= ScanModel { defline: s.defline.push(byte_char(b)), ..s });
        } else {
            self.body_byte(b);
        }
    }

    /// Reads one byte.
    pub fn step(&mut self, b: u8)
        requires
            old(self).wf(),
            old(self)@.consumed + 1 < u64::MAX,
        ensures
            final(self).wf(),
            final(self)@ == step(old(self)@, b),
    {
        let ghost s = self@;
        let prev1 = self.prev1;
        if b == NEWLINE {
            self.line = self.line + 1;
            self.col = 0;
        }
        self.consumed = self.consumed + 1;
        if b == MARKER {
            self.marker_byte();
        } else {
            self.other_byte(b);
        }
        self.prev2 = prev1;
        self.prev1 = Some(b);
        assert(self@ =~= step(s, b));
    }

    /// Reads one chunk of input.  The state carries over to the next chunk
    /// exactly as if the chunks were one stream.
    pub fn feed(&mut self, chunk: &[u8])
        requires
            old(self).wf(),
            old(self)@.consumed + chunk@.len() < u64::MAX,
        ensures
            final(self).wf(),
            final(self)@ == run(old(self)@, chunk@),
            final(self)@.consumed == old(self)@.consumed + chunk@.len(),
    {
        let mut i: usize = 0;
        assert(chunk@.subrange(0, 0) =~= Seq::<u8>::empty());
        while i < chunk.len()
            invariant
                0 <= i <= chunk@.len(),
                self.wf(),
                self@ == run(old(self)@, chunk@.subrange(0, i as int)),
                self@.consumed == old(self)@.consumed + i,
                old(self)@.consumed + chunk@.len() < u64::MAX,
            decreases chunk@.len() - i,
        {
            assert(chunk@.subrange(0, i + 1).drop_last() =~= chunk@.subrange(0, i as int));
            self.step(chunk[i]);
            i = i + 1;
        }
        assert(chunk@.subrange(0, i as int) =~= chunk@);
    }

    /// Ends the input: closes a defline still being read, finishes the last
    /// record where a defline was read, and reports duplicate identifiers.
    pub fn finish(self) -> (r: ValidationReport)
        requires
            self.wf(),
        ensures
            r.result() == finish_model(self@),
            r.rows_have_metadata(),
    {
        let ghost s = self@;
        let mut scanner = self;
        let was_header = scanner.in_header;
        if was_header {
            scanner.close_header();
        }
        let ghost s1 = scanner@;
        if scanner.prev_defline.len() > 0 {
            let id = get_seqid(&scanner.prev_defline);
            validate_seq_id(&id, &mut scanner.diagnostics);
            validate_seq_len(&id, scanner.seq_len, MIN_LEN, MAX_LEN, &mut scanner.diagnostics);
            let last = match scanner.prev1 {
                Some(p) => if p == NEWLINE { scanner.prev2 } else { scanner.prev1 },
                None => None,
            };
            let trailing = !was_header && match last {
                None => false,
                Some(p) => ambiguous_base(p),
            };
            let ghost before = scanner.diagnostics@;
            if trailing {
                scanner.push_diag(Diagnostic::TrailingN { seqid: id.clone() });
            }
            let ghost tail = diag_views(scanner.diagnostics@).subrange(
                diag_views(before).len() as int,
                diag_views(scanner.diagnostics@).len() as int,
            );
            assert(diag_views(scanner.diagnostics@) =~= diag_views(before) + tail);
            validate_seq_n_pct(scanner.seq_len, &id, scanner.n_count, &mut scanner.diagnostics);
            let mut row = Report::new();
            row.seqid = id;
            scanner.records.push(row);
            assert(report_seqids(scanner.records@) =~= s1.records.push(id@));
        } else {
            assert(diag_views(scanner.diagnostics@) =~= s1.diags + Seq::empty());
        }
        validate_seqid_unique(&scanner.records, &mut scanner.diagnostics);
        let r = ValidationReport { records: scanner.records, diagnostics: scanner.diagnostics };
        assert(r.result() =~= finish_model(s));
        r
    }
}

/// Scans a whole input held in memory.
pub fn scan(input: &[u8]) -> (r: ValidationReport)
    requires
        input@.len() < u64::MAX,
    ensures
        r.result() == scan_spec(input@),
        r.rows_have_metadata(),
{
    let mut scanner = Scanner::new();
    scanner.feed(input);
    scanner.finish()
}

/// The bytes of a list of chunks, as sequences.
pub open spec fn chunk_views(chunks: Seq<Vec<u8>>) -> Seq<Seq<u8>> {
    chunks.map_values(|c: Vec<u8>| c@)
}

/// Scans an input delivered as consecutive chunks: the result is that of the
/// chunks read as one stream, wherever the boundaries fall.
pub fn scan_chunks(chunks: &Vec<Vec<u8>>) -> (r: ValidationReport)
    requires
        joined(chunk_views(chunks@)).len() < u64::MAX,
    ensures
        r.result() == scan_spec(joined(chunk_views(chunks@))),
        r.rows_have_metadata(),
{
    let ghost all = chunk_views(chunks@);
    let mut scanner = Scanner::new();
    let mut i: usize = 0;
    assert(all.take(0) =~= Seq::<Seq<u8>>::empty());
    while i < chunks.len()
        invariant
            0 <= i <= chunks@.len(),
            all == chunk_views(chunks@),
            joined(all).len() < u64::MAX,
            scanner.wf(),
            scanner@ == run(initial_model(), joined(all.take(i as int))),
            scanner@.consumed == joined(all.take(i as int)).len(),
        decreases chunks@.len() - i,
    {
        let ghost pre = all.take(i as int);
        assert(all.take(i + 1).drop_last() =~= pre);
        assert(all.take(i + 1).last() == chunks@[i as int]@);
        proof {
            lemma_joined_prefix_len(all, i + 1);
            lemma_run_append(initial_model(), joined(pre), chunks@[i as int]@);
        }
        scanner.feed(chunks[i].as_slice());
        i = i + 1;
    }
    assert(all.take(i as int) =~= all);
    scanner.finish()
}

proof fn lemma_joined_prefix_len(all: Seq<Seq<u8>>, k: int)
    requires
        0 <= k <= all.len(),
    ensures
        joined(all.take(k)).len() <= joined(all).len(),
    decreases all.len() - k,
{
    if k < all.len() {
        lemma_joined_prefix_len(all, k + 1);
        assert(all.take(k + 1).drop_last() =~= all.take(k));
    } else {
        assert(all.take(k) =~= all);
    }
}

} // verus!
