//! Length, ambiguous-base and uniqueness rules, and the nucleotide alphabet.
use vstd::prelude::*;
use crate::report::{Diagnostic, DiagView, Report, diag_views, lemma_diag_views_push, report_seqids};

verus! {

/// The shortest sequence accepted.
pub const MIN_LEN: u64 = 50;

/// The longest sequence accepted.
pub const MAX_LEN: u64 = 30000;

/// An ambiguous base: `N` or `n`.
pub open spec fn is_ambiguous(b: u8) -> bool {
    b == 0x4e || b == 0x6e
}

/// A nucleotide or ambiguity code, in either case: `ATCG` and `RYMKSWHBVDN`.
pub open spec fn is_nucleotide(b: u8) -> bool {
    let u: u8 = if 0x61 <= b <= 0x7a { (b - 0x20) as u8 } else { b };
    u == 0x41 || u == 0x54 || u == 0x43 || u == 0x47 || u == 0x52 || u == 0x59 || u == 0x4d || u
        == 0x4b || u == 0x53 || u == 0x57 || u == 0x48 || u == 0x42 || u == 0x56 || u == 0x44 || u
        == 0x4e
}

/// Whether `b` is `N` or `n`.
pub fn ambiguous_base(b: u8) -> (r: bool)
    ensures
        r == is_ambiguous(b),
{
    b == 0x4e || b == 0x6e
}

/// Whether `b` belongs to the nucleotide alphabet (line breaks do not).
pub fn nucleotide_base(b: u8) -> (r: bool)
    ensures
        r == is_nucleotide(b),
{
    let u: u8 = if 0x61 <= b && b <= 0x7a { b - 0x20 } else { b };
    u == 0x41 || u == 0x54 || u == 0x43 || u == 0x47 || u == 0x52 || u == 0x59 || u == 0x4d || u
        == 0x4b || u == 0x53 || u == 0x57 || u == 0x48 || u == 0x42 || u == 0x56 || u == 0x44 || u
        == 0x4e
}

/// A length held in a machine integer, as a mathematical one.
pub open spec fn opt_int(o: Option<u64>) -> Option<int> {
    match o {
        None => None,
        Some(k) => Some(k as int),
    }
}

/// The diagnostics of the length rule: none while no sequence has been seen,
/// else one where the length lies outside `[min_len, max_len]`.
pub open spec fn length_diags(seqid: Seq<char>, seq_len: Option<int>, min_len: int, max_len: int) -> Seq<DiagView> {
    match seq_len {
        None => Seq::empty(),
        Some(k) => if k < min_len || k > max_len {
            seq![DiagView::LengthOutOfRange { seqid, min: min_len, max: max_len, len: k }]
        } else {
            Seq::empty()
        },
    }
}

/// Checks the length rule, appending its diagnostic, if any.  Returns
/// whether the length passed.
pub fn validate_seq_len(
    seqid: &String,
    seq_len: Option<u64>,
    min_len: u64,
    max_len: u64,
    msgs: &mut Vec<Diagnostic>,
) -> (r: bool)
    ensures
        diag_views(final(msgs)@) == diag_views(old(msgs)@) + length_diags(
            seqid@,
            opt_int(seq_len),
            min_len as int,
            max_len as int,
        ),
        r == (length_diags(
            seqid@,
            opt_int(seq_len),
            min_len as int,
            max_len as int,
        ).len() == 0),
{
    match seq_len {
        None => {
            assert(diag_views(msgs@) =~= diag_views(old(msgs)@) + Seq::<DiagView>::empty());
            true
        },
        Some(k) => {
            if k < min_len || k > max_len {
                let d = Diagnostic::LengthOutOfRange {
                    seqid: seqid.clone(),
                    min: min_len,
                    max: max_len,
                    len: k,
                };
                proof {
                    lemma_diag_views_push(msgs@, d);
                }
                msgs.push(d);
                assert(diag_views(msgs@) =~= diag_views(old(msgs)@) + seq![
                    DiagView::LengthOutOfRange {
                        seqid: seqid@,
                        min: min_len as int,
                        max: max_len as int,
                        len: k as int,
                    },
                ]);
                false
            } else {
                assert(diag_views(msgs@) =~= diag_views(old(msgs)@) + Seq::<DiagView>::empty());
                true
            }
        },
    }
}

/// The diagnostics of the ambiguous-base rule: one where a non-empty sequence
/// has at least half of its bases ambiguous.
pub open spec fn fraction_diags(seqid: Seq<char>, seq_len: Option<int>, n_count: int) -> Seq<DiagView> {
    match seq_len {
        Some(k) => if k > 0 && 2 * n_count >= k {
            seq![DiagView::AmbiguousFraction { seqid, n_count, len: k }]
        } else {
            Seq::empty()
        },
        None => Seq::empty(),
    }
}

/// Checks the ambiguous-base rule, appending its diagnostic, if any.
pub fn validate_seq_n_pct(
    seq_len: Option<u64>,
    seqid: &String,
    n_count: u64,
    msgs: &mut Vec<Diagnostic>,
)
    ensures
        diag_views(final(msgs)@) == diag_views(old(msgs)@) + fraction_diags(
            seqid@,
            opt_int(seq_len),
            n_count as int,
        ),
{
    match seq_len {
        Some(k) => {
            if k > 0 && 2 * (n_count as u128) >= k as u128 {
                let d = Diagnostic::AmbiguousFraction { seqid: seqid.clone(), n_count, len: k };
                proof {
                    lemma_diag_views_push(msgs@, d);
                }
                msgs.push(d);
                assert(diag_views(msgs@) =~= diag_views(old(msgs)@) + seq![
                    DiagView::AmbiguousFraction {
                        seqid: seqid@,
                        n_count: n_count as int,
                        len: k as int,
                    },
                ]);
            } else {
                assert(diag_views(msgs@) =~= diag_views(old(msgs)@) + Seq::<DiagView>::empty());
            }
        },
        None => {
            assert(diag_views(msgs@) =~= diag_views(old(msgs)@) + Seq::<DiagView>::empty());
        },
    }
}

/// One diagnostic for each identifier that occurs earlier in `ids`, in order.
pub open spec fn duplicate_diags(ids: Seq<Seq<char>>) -> Seq<DiagView>
    decreases ids.len(),
{
    if ids.len() == 0 {
        Seq::empty()
    } else {
        let rest = duplicate_diags(ids.drop_last());
        if ids.drop_last().contains(ids.last()) {
            rest.push(DiagView::DuplicateSeqid { seqid: ids.last() })
        } else {
            rest
        }
    }
}

/// Appends one diagnostic for each row whose identifier an earlier row has.
///
/// Each row is compared with the rows before it.  vstd gives `String` keys no
/// hashing model, so a hash set of identifiers would leave this unproved.
pub fn validate_seqid_unique(report_list: &Vec<Report>, msgs: &mut Vec<Diagnostic>)
    ensures
        diag_views(final(msgs)@) == diag_views(old(msgs)@) + duplicate_diags(
            report_seqids(report_list@),
        ),
{
    let ghost ids = report_seqids(report_list@);
    let mut i: usize = 0;
    assert(diag_views(msgs@) =~= diag_views(old(msgs)@) + duplicate_diags(ids.subrange(0, 0)));
    while i < report_list.len()
        invariant
            0 <= i <= report_list.len(),
            ids == report_seqids(report_list@),
            diag_views(msgs@) == diag_views(old(msgs)@) + duplicate_diags(
                ids.subrange(0, i as int),
            ),
        decreases report_list.len() - i,
    {
        let mut seen = false;
        let mut j: usize = 0;
        while j < i
            invariant
                0 <= j <= i < report_list.len(),
                ids == report_seqids(report_list@),
                seen == ids.subrange(0, j as int).contains(ids[i as int]),
            decreases i - j,
        {
            if report_list[j].seqid == report_list[i].seqid {
                seen = true;
                assert(ids.subrange(0, j + 1)[j as int] == ids[i as int]);
            } else if seen {
                proof {
                    let k = choose|k: int|
                        0 <= k < j && #[trigger] ids.subrange(0, j as int)[k] == ids[i as int];
                    assert(ids.subrange(0, j + 1)[k] == ids[i as int]);
                }
            }
            assert(seen == ids.subrange(0, j + 1).contains(ids[i as int])) by {
                if ids.subrange(0, j + 1).contains(ids[i as int]) {
                    let k = choose|k: int|
                        0 <= k < j + 1 && #[trigger] ids.subrange(0, j + 1)[k] == ids[i as int];
                    if k < j {
                        assert(ids.subrange(0, j as int)[k] == ids[i as int]);
                    }
                }
            }
            j = j + 1;
        }
        let ghost pre = ids.subrange(0, i + 1);
        assert(pre.drop_last() =~= ids.subrange(0, i as int));
        assert(pre.last() == ids[i as int]);
        if seen {
            let d = Diagnostic::DuplicateSeqid { seqid: report_list[i].seqid.clone() };
            proof {
                lemma_diag_views_push(msgs@, d);
            }
            msgs.push(d);
        }
        assert(diag_views(msgs@) =~= diag_views(old(msgs)@) + duplicate_diags(pre));
        i = i + 1;
    }
    assert(ids.subrange(0, i as int) =~= ids);
}

} // verus!
