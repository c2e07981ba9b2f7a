//! Per-record output rows and the diagnostics the validator emits.
use vstd::prelude::*;

verus! {

/// The class of a diagnostic, as shown in the first column of the message table.
#[derive(Clone, Copy, Debug, PartialEq, Eq, Structural)]
pub enum Category {
    Defline,
    Nucleotide,
    Sequence,
}

/// One finding about the input.  Every finding is advisory: the scan goes on.
#[derive(Debug)]
pub enum Diagnostic {
    /// The identifier has no character after the `>` marker.
    MissingSeqid { seqid: String },
    /// The first character after the marker is not alphabetic.
    SeqidStart { ch: char, seqid: String },
    /// A character of the identifier lies outside the permitted set.
    SeqidChar { ch: char, seqid: String },
    /// The identifier is longer than the permitted maximum.
    SeqidTooLong { len: u64, seqid: String },
    /// The sequence length lies outside `[min, max]`.
    LengthOutOfRange { seqid: String, min: u64, max: u64, len: u64 },
    /// At least half of the bases are `N` or `n`.
    AmbiguousFraction { seqid: String, n_count: u64, len: u64 },
    /// The sequence starts with `N` or `n`.
    LeadingN { seqid: String },
    /// The sequence ends with `N` or `n`.
    TrailingN { seqid: String },
    /// A `>` that does not open a line, usually a missing line break.
    StrayMarker { line: u64, col: u64, seqid: String },
    /// A byte of a sequence body outside the nucleotide alphabet.
    InvalidChar { ch: char, line: u64, col: u64 },
    /// An identifier that an earlier record already used.
    DuplicateSeqid { seqid: String },
}

/// The mathematical value of a [`Diagnostic`]: strings as character sequences.
pub enum DiagView {
    MissingSeqid { seqid: Seq<char> },
    SeqidStart { ch: char, seqid: Seq<char> },
    SeqidChar { ch: char, seqid: Seq<char> },
    SeqidTooLong { len: int, seqid: Seq<char> },
    LengthOutOfRange { seqid: Seq<char>, min: int, max: int, len: int },
    AmbiguousFraction { seqid: Seq<char>, n_count: int, len: int },
    LeadingN { seqid: Seq<char> },
    TrailingN { seqid: Seq<char> },
    StrayMarker { line: int, col: int, seqid: Seq<char> },
    InvalidChar { ch: char, line: int, col: int },
    DuplicateSeqid { seqid: Seq<char> },
}

impl DiagView {
    pub open spec fn category(self) -> Category {
        match self {
            DiagView::MissingSeqid { .. } => Category::Defline,
            DiagView::SeqidStart { .. } => Category::Defline,
            DiagView::SeqidChar { .. } => Category::Defline,
            DiagView::SeqidTooLong { .. } => Category::Defline,
            DiagView::LengthOutOfRange { .. } => Category::Sequence,
            DiagView::AmbiguousFraction { .. } => Category::Nucleotide,
            DiagView::LeadingN { .. } => Category::Nucleotide,
            DiagView::TrailingN { .. } => Category::Nucleotide,
            DiagView::StrayMarker { .. } => Category::Nucleotide,
            DiagView::InvalidChar { .. } => Category::Nucleotide,
            DiagView::DuplicateSeqid { .. } => Category::Defline,
        }
    }
}

impl View for Diagnostic {
    type V = DiagView;

    open spec fn view(&self) -> DiagView {
        match self {
            Diagnostic::MissingSeqid { seqid } => DiagView::MissingSeqid { seqid: seqid@ },
            Diagnostic::SeqidStart { ch, seqid } => DiagView::SeqidStart { ch: *ch, seqid: seqid@ },
            Diagnostic::SeqidChar { ch, seqid } => DiagView::SeqidChar { ch: *ch, seqid: seqid@ },
            Diagnostic::SeqidTooLong { len, seqid } => DiagView::SeqidTooLong {
                len: *len as int,
                seqid: seqid@,
            },
            Diagnostic::LengthOutOfRange { seqid, min, max, len } => DiagView::LengthOutOfRange {
                seqid: seqid@,
                min: *min as int,
                max: *max as int,
                len: *len as int,
            },
            Diagnostic::AmbiguousFraction { seqid, n_count, len } => DiagView::AmbiguousFraction {
                seqid: seqid@,
                n_count: *n_count as int,
                len: *len as int,
            },
            Diagnostic::LeadingN { seqid } => DiagView::LeadingN { seqid: seqid@ },
            Diagnostic::TrailingN { seqid } => DiagView::TrailingN { seqid: seqid@ },
            Diagnostic::StrayMarker { line, col, seqid } => DiagView::StrayMarker {
                line: *line as int,
                col: *col as int,
                seqid: seqid@,
            },
            Diagnostic::InvalidChar { ch, line, col } => DiagView::InvalidChar {
                ch: *ch,
                line: *line as int,
                col: *col as int,
            },
            Diagnostic::DuplicateSeqid { seqid } => DiagView::DuplicateSeqid { seqid: seqid@ },
        }
    }
}

impl Diagnostic {
    /// The category under which this diagnostic is listed.
    pub fn category(&self) -> (r: Category)
        ensures
            r == self@.category(),
    {
        match self {
            Diagnostic::MissingSeqid { .. } => Category::Defline,
            Diagnostic::SeqidStart { .. } => Category::Defline,
            Diagnostic::SeqidChar { .. } => Category::Defline,
            Diagnostic::SeqidTooLong { .. } => Category::Defline,
            Diagnostic::LengthOutOfRange { .. } => Category::Sequence,
            Diagnostic::AmbiguousFraction { .. } => Category::Nucleotide,
            Diagnostic::LeadingN { .. } => Category::Nucleotide,
            Diagnostic::TrailingN { .. } => Category::Nucleotide,
            Diagnostic::StrayMarker { .. } => Category::Nucleotide,
            Diagnostic::InvalidChar { .. } => Category::Nucleotide,
            Diagnostic::DuplicateSeqid { .. } => Category::Defline,
        }
    }
}

/// The views of a list of diagnostics, in order.
pub open spec fn diag_views(v: Seq<Diagnostic>) -> Seq<DiagView> {
    v.map_values(|d: Diagnostic| d@)
}

/// Appending a diagnostic appends its view.
pub proof fn lemma_diag_views_push(v: Seq<Diagnostic>, d: Diagnostic)
    ensures
        diag_views(v.push(d)) == diag_views(v).push(d@),
{
    assert(diag_views(v.push(d)) =~= diag_views(v).push(d@));
}

/// One output row: the identifier of a record and the fixed metadata of the
/// target organism.
#[derive(Debug)]
pub struct Report {
    pub seqid: String,
    pub organism: String,
    pub gcode: String,
    pub moltype: String,
    pub topology: String,
    pub strand: String,
}

impl Report {
    /// The metadata fields hold the fixed values for the target organism.
    pub open spec fn has_default_metadata(&self) -> bool {
        &&& self.organism@ == "Severe acute respiratory syndrome coronavirus 2"@
        &&& self.gcode@ == "1"@
        &&& self.moltype@ == "genomic RNA"@
        &&& self.topology@ == "linear"@
        &&& self.strand@ == "single"@
    }

    /// A row with an empty identifier and the fixed metadata.
    pub fn new() -> (r: Self)
        ensures
            r.seqid@ == Seq::<char>::empty(),
            r.has_default_metadata(),
    {
        Report {
            seqid: String::new(),
            organism: String::from_str("Severe acute respiratory syndrome coronavirus 2"),
            gcode: String::from_str("1"),
            moltype: String::from_str("genomic RNA"),
            topology: String::from_str("linear"),
            strand: String::from_str("single"),
        }
    }
}

/// The identifiers of a list of rows, in order.
pub open spec fn report_seqids(v: Seq<Report>) -> Seq<Seq<char>> {
    v.map_values(|r: Report| r.seqid@)
}

} // verus!
