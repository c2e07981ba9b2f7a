//! Properties of the scanner that relate several inputs or several calls.
use vstd::prelude::*;
use crate::model::{
    byte_char, finish_model, initial_model, opt_ambiguous, run, scan_spec, step, trailing_byte, ScanModel,
    MARKER, NEWLINE,
};
use crate::rules::{
    duplicate_diags, fraction_diags, is_ambiguous, is_nucleotide, length_diags, MAX_LEN, MIN_LEN,
};
use crate::seqid::{
    bad_char_diags, char_alphabetic, defline_seqid, is_space, seqid_char_ok, seqid_diags,
    space_index, MAX_SEQID_LEN,
};

verus! {

/// The bytes of a list of chunks, in order.
pub open spec fn joined(chunks: Seq<Seq<u8>>) -> Seq<u8>
    decreases chunks.len(),
{
    if chunks.len() == 0 {
        Seq::empty()
    } else {
        joined(chunks.drop_last()) + chunks.last()
    }
}

/// The state after feeding `chunks` one after the other, starting from `s`.
pub open spec fn feed_all(s: ScanModel, chunks: Seq<Seq<u8>>) -> ScanModel
    decreases chunks.len(),
{
    if chunks.len() == 0 {
        s
    } else {
        run(feed_all(s, chunks.drop_last()), chunks.last())
    }
}

/// Reading `a` and then `b` is reading `a + b`.
pub proof fn lemma_run_append(s: ScanModel, a: Seq<u8>, b: Seq<u8>)
    ensures
        run(s, a + b) == run(run(s, a), b),
    decreases b.len(),
{
    if b.len() == 0 {
        assert(a + b =~= a);
    } else {
        lemma_run_append(s, a, b.drop_last());
        assert((a + b).drop_last() =~= a + b.drop_last());
        assert((a + b).last() == b.last());
    }
}

/// Feeding chunks one by one is reading their concatenation.
pub proof fn lemma_feed_all(s: ScanModel, chunks: Seq<Seq<u8>>)
    ensures
        feed_all(s, chunks) == run(s, joined(chunks)),
    decreases chunks.len(),
{
    if chunks.len() > 0 {
        lemma_feed_all(s, chunks.drop_last());
        lemma_run_append(s, joined(chunks.drop_last()), chunks.last());
    }
}

/// Chunk boundaries do not matter: two ways of cutting the same input into
/// chunks give the same records and diagnostics as reading it in one piece.
pub proof fn lemma_chunking_invariant(c1: Seq<Seq<u8>>, c2: Seq<Seq<u8>>)
    requires
        joined(c1) == joined(c2),
    ensures
        finish_model(feed_all(initial_model(), c1)) == finish_model(feed_all(initial_model(), c2)),
        finish_model(feed_all(initial_model(), c1)) == scan_spec(joined(c1)),
{
    lemma_feed_all(initial_model(), c1);
    lemma_feed_all(initial_model(), c2);
}

/// Scanning is a function of the input alone: a second scan of the same
/// bytes from a fresh scanner gives the same records and diagnostics.
pub proof fn lemma_rescan_identical(input: Seq<u8>, first: ScanModel, second: ScanModel)
    requires
        first == initial_model(),
        second == initial_model(),
    ensures
        finish_model(run(first, input)) == finish_model(run(second, input)),
        finish_model(run(first, input)) == scan_spec(input),
{
}

/// A defline begins at `i`: a `>` at the start of the input or after a line break.
pub open spec fn header_start(input: Seq<u8>, i: int) -> bool {
    0 <= i < input.len() && input[i] == MARKER && (i == 0 || input[i - 1] == NEWLINE)
}

/// A line that is not a defline begins at `j`.
pub open spec fn body_start(input: Seq<u8>, j: int) -> bool {
    0 < j < input.len() && input[j - 1] == NEWLINE && input[j] != MARKER
}

/// The number of deflines in `input`.
pub open spec fn header_count(input: Seq<u8>) -> nat
    decreases input.len(),
{
    if input.len() == 0 {
        0
    } else {
        header_count(input.drop_last()) + if header_start(input, input.len() - 1) {
            1nat
        } else {
            0nat
        }
    }
}

/// Between any two deflines there is a line that is not a defline.
pub open spec fn no_adjacent_headers(input: Seq<u8>) -> bool {
    forall|i: int, k: int|
        #![trigger header_start(input, i), header_start(input, k)]
        header_start(input, i) && header_start(input, k) && i < k ==> exists|j: int|
            i < j < k && #[trigger] body_start(input, j)
}

/// Some defline is followed by no body line.
spec fn header_open(p: Seq<u8>) -> bool {
    exists|i: int| header_start(p, i) && forall|j: int| i < j ==> !#[trigger] body_start(p, j)
}

/// Some defline is followed by a body line.
spec fn header_closed(p: Seq<u8>) -> bool {
    exists|i: int, j: int| #[trigger] header_start(p, i) && i < j && #[trigger] body_start(p, j)
}

spec fn flag(b: bool) -> nat {
    if b {
        1
    } else {
        0
    }
}

proof fn lemma_header_accounting(p: Seq<u8>)
    requires
        no_adjacent_headers(p),
    ensures
        run(initial_model(), p).in_header == header_open(p),
        (run(initial_model(), p).prev_defline.len() > 0) == header_closed(p),
        run(initial_model(), p).in_header ==> run(initial_model(), p).defline.len() > 0,
        run(initial_model(), p).records.len() + flag(header_closed(p)) + flag(header_open(p))
            == header_count(p),
        p.len() > 0 ==> run(initial_model(), p).prev1 == Some(p.last()),
        p.len() == 0 ==> run(initial_model(), p).prev1 is None,
    decreases p.len(),
{
    if p.len() > 0 {
        let q = p.drop_last();
        let b = p.last();
        let k = q.len() as int;
        assert forall|i: int| 0 <= i < k implies header_start(p, i) == header_start(q, i)
            && body_start(p, i) == body_start(q, i) by {}
        assert(no_adjacent_headers(q)) by {
            assert forall|i: int, m: int|
                #![trigger header_start(q, i), header_start(q, m)]
                header_start(q, i) && header_start(q, m) && i < m implies exists|j: int|
                i < j < m && #[trigger] body_start(q, j) by {
                assert(header_start(p, i) && header_start(p, m));
                let j = choose|j: int| i < j < m && #[trigger] body_start(p, j);
                assert(body_start(q, j));
            }
        }
        lemma_header_accounting(q);
        let s = run(initial_model(), q);
        assert(p =~= q.push(b));
        if header_start(p, k) {
            assert(header_open(p)) by {
                assert forall|j: int| k < j implies !#[trigger] body_start(p, j) by {}
            }
            assert(!header_open(q)) by {
                if header_open(q) {
                    let i = choose|i: int|
                        header_start(q, i) && forall|j: int| i < j ==> !#[trigger] body_start(q, j);
                    assert(header_start(p, i));
                    let j = choose|j: int| i < j < k && #[trigger] body_start(p, j);
                    assert(body_start(q, j));
                }
            }
            assert(header_closed(p) == header_closed(q)) by {
                if header_closed(p) {
                    let (i, j) = choose|i: int, j: int|
                        #[trigger] header_start(p, i) && i < j && #[trigger] body_start(p, j);
                    assert(header_start(q, i) && body_start(q, j));
                }
                if header_closed(q) {
                    let (i, j) = choose|i: int, j: int|
                        #[trigger] header_start(q, i) && i < j && #[trigger] body_start(q, j);
                    assert(header_start(p, i) && body_start(p, j));
                }
            }
        } else if body_start(p, k) {
            assert(!header_open(p)) by {
                if header_open(p) {
                    let i = choose|i: int|
                        header_start(p, i) && forall|j: int| i < j ==> !#[trigger] body_start(p, j);
                    assert(!body_start(p, k));
                }
            }
            if header_open(q) {
                let i = choose|i: int|
                    header_start(q, i) && forall|j: int| i < j ==> !#[trigger] body_start(q, j);
                assert(header_start(p, i));
                assert(header_closed(p));
            } else {
                assert(header_closed(p) == header_closed(q)) by {
                    if header_closed(p) {
                        let (i, j) = choose|i: int, j: int|
                            #[trigger] header_start(p, i) && i < j && #[trigger] body_start(p, j);
                        assert(header_start(q, i));
                        if j < k {
                            assert(body_start(q, j));
                        } else {
                            let j2 = choose|j2: int| i < j2 && #[trigger] body_start(q, j2);
                        }
                    }
                    if header_closed(q) {
                        let (i, j) = choose|i: int, j: int|
                            #[trigger] header_start(q, i) && i < j && #[trigger] body_start(q, j);
                        assert(header_start(p, i) && body_start(p, j));
                    }
                }
            }
        } else {
            assert(header_open(p) == header_open(q)) by {
                if header_open(p) {
                    let i = choose|i: int|
                        header_start(p, i) && forall|j: int| i < j ==> !#[trigger] body_start(p, j);
                    assert(header_start(q, i));
                    assert forall|j: int| i < j implies !#[trigger] body_start(q, j) by {
                        assert(!body_start(p, j));
                    }
                }
                if header_open(q) {
                    let i = choose|i: int|
                        header_start(q, i) && forall|j: int| i < j ==> !#[trigger] body_start(q, j);
                    assert(header_start(p, i));
                    assert forall|j: int| i < j implies !#[trigger] body_start(p, j) by {
                        if j < k {
                            assert(!body_start(q, j));
                        }
                    }
                }
            }
            assert(header_closed(p) == header_closed(q)) by {
                if header_closed(p) {
                    let (i, j) = choose|i: int, j: int|
                        #[trigger] header_start(p, i) && i < j && #[trigger] body_start(p, j);
                    assert(header_start(q, i) && body_start(q, j));
                }
                if header_closed(q) {
                    let (i, j) = choose|i: int, j: int|
                        #[trigger] header_start(q, i) && i < j && #[trigger] body_start(q, j);
                    assert(header_start(p, i) && body_start(p, j));
                }
            }
        }
    }
}

/// Every defline yields exactly one record, provided no two deflines follow
/// each other without a body line between them (such deflines are read as
/// one).  An input without a defline yields no record.
pub proof fn lemma_one_record_per_header(input: Seq<u8>)
    requires
        no_adjacent_headers(input),
    ensures
        scan_spec(input).records.len() == header_count(input),
{
    lemma_header_accounting(input);
}

/// The bases of a body: its bytes other than line breaks.
pub open spec fn residue_count(body: Seq<u8>) -> nat
    decreases body.len(),
{
    if body.len() == 0 {
        0
    } else {
        residue_count(body.drop_last()) + if body.last() != NEWLINE {
            1nat
        } else {
            0nat
        }
    }
}

/// The `N`/`n` bases of a body.
pub open spec fn ambiguous_count(body: Seq<u8>) -> nat
    decreases body.len(),
{
    if body.len() == 0 {
        0
    } else {
        ambiguous_count(body.drop_last()) + if is_ambiguous(body.last()) {
            1nat
        } else {
            0nat
        }
    }
}

/// A defline: `>`, then text without `>` or line breaks, then a line break.
pub open spec fn plain_defline(header: Seq<u8>) -> bool {
    &&& header.len() >= 2
    &&& header[0] == MARKER
    &&& header.last() == NEWLINE
    &&& forall|i: int| 0 < i < header.len() - 1 ==> #[trigger] header[i] != NEWLINE && header[i] != MARKER
}

/// An identifier that every identifier rule accepts.
pub open spec fn valid_seqid(id: Seq<char>) -> bool {
    &&& 2 <= id.len() <= MAX_SEQID_LEN
    &&& char_alphabetic(id[1])
    &&& forall|i: int| 1 <= i < id.len() ==> seqid_char_ok(#[trigger] id[i])
}

/// A body that every sequence rule accepts: only bases and line breaks, a
/// length within bounds, fewer than half of the bases ambiguous, and no
/// ambiguous base first or last.
pub open spec fn valid_body(body: Seq<u8>) -> bool {
    &&& body.len() >= 1
    &&& forall|i: int| 0 <= i < body.len() ==> #[trigger] body[i] == NEWLINE || is_nucleotide(body[i])
    &&& MIN_LEN <= residue_count(body) <= MAX_LEN
    &&& 2 * ambiguous_count(body) < residue_count(body)
    &&& forall|i: int|
        0 <= i < body.len() && residue_count(body.take(i)) == 0 && body[i] != NEWLINE
            ==> !is_ambiguous(#[trigger] body[i])
    &&& if body.last() == NEWLINE {
        body.len() >= 2 ==> !is_ambiguous(body[body.len() - 2])
    } else {
        !is_ambiguous(body.last())
    }
}

proof fn lemma_nucleotide_not_marker(b: u8)
    ensures
        is_nucleotide(b) ==> b != MARKER && b != NEWLINE,
        is_ambiguous(b) ==> is_nucleotide(b) && b != NEWLINE,
{
}

proof fn lemma_header_phase(header: Seq<u8>, m: int)
    requires
        plain_defline(header),
        1 <= m <= header.len(),
    ensures
        ({
            let s = run(initial_model(), header.take(m));
            &&& s.in_header
            &&& s.defline == header.take(m).map_values(|b: u8| byte_char(b))
            &&& s.prev_defline.len() == 0
            &&& s.records.len() == 0
            &&& s.diags.len() == 0
            &&& s.seq_len is None
            &&& s.n_count == 0
            &&& s.prev1 == Some(header[m - 1])
        }),
    decreases m,
{
    assert(header.take(m).drop_last() =~= header.take(m - 1));
    if m == 1 {
        assert(header.take(0) =~= Seq::<u8>::empty());
        assert(byte_char(MARKER) == '>');
        assert(header.take(1).map_values(|b: u8| byte_char(b)) =~= seq!['>']);
    } else {
        lemma_header_phase(header, m - 1);
        assert(header[m - 2] != NEWLINE);
        assert(header.take(m).map_values(|b: u8| byte_char(b)) =~= header.take(m - 1).map_values(
            |b: u8| byte_char(b),
        ).push(byte_char(header[m - 1])));
    }
}

proof fn lemma_body_phase(header: Seq<u8>, body: Seq<u8>, m: int)
    requires
        plain_defline(header),
        valid_body(body),
        1 <= m <= body.len(),
    ensures
        ({
            let s = run(initial_model(), header + body.take(m));
            &&& !s.in_header
            &&& s.prev_defline == header.map_values(|b: u8| byte_char(b))
            &&& s.records.len() == 0
            &&& s.diags.len() == 0
            &&& s.seq_len == Some(residue_count(body.take(m)) as int)
            &&& s.n_count == ambiguous_count(body.take(m))
            &&& s.prev1 == Some(body[m - 1])
            &&& s.prev2 == Some(if m >= 2 { body[m - 2] } else { NEWLINE })
        }),
    decreases m,
{
    let b = body[m - 1];
    lemma_nucleotide_not_marker(b);
    assert(b == NEWLINE || is_nucleotide(b));
    assert((header + body.take(m)).drop_last() =~= header + body.take(m - 1));
    assert((header + body.take(m)).last() == b);
    assert(body.take(m).drop_last() =~= body.take(m - 1));
    assert(body.take(m).last() == b);
    if m == 1 {
        lemma_header_phase(header, header.len() as int);
        assert(header.take(header.len() as int) =~= header);
        assert(body.take(0) =~= Seq::<u8>::empty());
        assert(header + body.take(0) =~= header);
        if b != NEWLINE {
            assert(residue_count(body.take(0)) == 0);
        }
    } else {
        lemma_body_phase(header, body, m - 1);
        if b != NEWLINE && residue_count(body.take(m - 1)) == 0 {
            assert(!is_ambiguous(body[m - 1]));
        }
    }
    assert(residue_count(body.take(m)) == residue_count(body.take(m - 1)) + if b != NEWLINE {
        1nat
    } else {
        0nat
    });
    assert(ambiguous_count(body.take(m)) == ambiguous_count(body.take(m - 1)) + if is_ambiguous(b) {
        1nat
    } else {
        0nat
    });
    if m == 1 {
        assert(residue_count(body.take(0)) == 0);
        assert(ambiguous_count(body.take(0)) == 0);
    }
    let prev = run(initial_model(), header + body.take(m - 1));
    let s = run(initial_model(), header + body.take(m));
    assert(s == step(prev, b));
}

proof fn lemma_valid_seqid_clean(id: Seq<char>, tail: Seq<char>)
    requires
        forall|i: int| 0 <= i < tail.len() ==> seqid_char_ok(#[trigger] tail[i]),
    ensures
        bad_char_diags(id, tail).len() == 0,
    decreases tail.len(),
{
    if tail.len() > 0 {
        assert(seqid_char_ok(tail[tail.len() - 1]));
        lemma_valid_seqid_clean(id, tail.drop_last());
    }
}

/// A single record with a valid identifier and a valid body yields exactly
/// one record, under that identifier, and no diagnostic.
pub proof fn lemma_valid_record_is_clean(header: Seq<u8>, body: Seq<u8>)
    requires
        plain_defline(header),
        valid_seqid(defline_seqid(header.map_values(|b: u8| byte_char(b)))),
        valid_body(body),
    ensures
        scan_spec(header + body).diags.len() == 0,
        scan_spec(header + body).records == seq![defline_seqid(header.map_values(|b: u8| byte_char(b)))],
{
    let id = defline_seqid(header.map_values(|b: u8| byte_char(b)));
    lemma_body_phase(header, body, body.len() as int);
    assert(body.take(body.len() as int) =~= body);
    let s = run(initial_model(), header + body);
    lemma_valid_seqid_clean(id, id.subrange(1, id.len() as int));
    assert(seqid_diags(id) =~= Seq::empty());
    if body.last() == NEWLINE && body.len() < 2 {
        assert(trailing_byte(s) == Some(NEWLINE));
    }
    assert(s.records.push(id) =~= seq![id]);
    assert(seq![id].drop_last() =~= Seq::<Seq<char>>::empty());
    assert(duplicate_diags(Seq::<Seq<char>>::empty()) =~= Seq::empty());
    assert(duplicate_diags(seq![id]) =~= Seq::empty());
    assert(length_diags(id, s.seq_len, MIN_LEN as int, MAX_LEN as int) =~= Seq::empty());
    assert(fraction_diags(id, s.seq_len, s.n_count) =~= Seq::empty());
    assert(!opt_ambiguous(trailing_byte(s)));
}

/// An ASCII letter.
pub open spec fn ascii_letter(b: u8) -> bool {
    (0x61 <= b <= 0x7a) || (0x41 <= b <= 0x5a)
}

/// An ASCII byte that may follow the marker in an identifier: a letter, a
/// digit, or one of `_ * # . - :`.
pub open spec fn ascii_seqid_byte(b: u8) -> bool {
    ascii_letter(b) || (0x30 <= b <= 0x39) || b == 0x5f || b == 0x2a || b == 0x23 || b == 0x2e
        || b == 0x2d || b == 0x3a
}

proof fn lemma_space_index(d: Seq<char>, i: int, k: int)
    requires
        0 <= i <= k < d.len(),
        is_space(d[k]),
        forall|j: int| i <= j < k ==> !is_space(#[trigger] d[j]),
    ensures
        space_index(d, i) == k,
    decreases k - i,
{
    if i < k {
        lemma_space_index(d, i + 1, k);
    }
}

/// A single record whose defline is `>`, an ASCII identifier, and a line
/// break, followed by a valid body, yields exactly one record under that
/// identifier and no diagnostic.
pub proof fn lemma_ascii_record_is_clean(id: Seq<u8>, body: Seq<u8>)
    requires
        2 <= id.len() <= MAX_SEQID_LEN,
        id[0] == MARKER,
        ascii_letter(id[1]),
        forall|i: int| 1 <= i < id.len() ==> ascii_seqid_byte(#[trigger] id[i]),
        valid_body(body),
    ensures
        scan_spec(id.push(NEWLINE) + body).diags.len() == 0,
        scan_spec(id.push(NEWLINE) + body).records == seq![id.map_values(|b: u8| byte_char(b))],
{
    let header = id.push(NEWLINE);
    let hc = header.map_values(|b: u8| byte_char(b));
    let idc = id.map_values(|b: u8| byte_char(b));
    assert forall|i: int| 0 < i < header.len() - 1 implies #[trigger] header[i] != NEWLINE
        && header[i] != MARKER by {
        assert(header[i] == id[i]);
        assert(ascii_seqid_byte(id[i]));
    }
    assert(plain_defline(header));
    assert forall|j: int| 1 <= j < id.len() implies !is_space(#[trigger] hc[j]) by {
        assert(hc[j] == byte_char(id[j]));
        assert(ascii_seqid_byte(id[j]));
    }
    assert(hc[id.len() as int] == byte_char(NEWLINE));
    assert(byte_char(NEWLINE) == '\n');
    assert(hc[0] == '>');
    lemma_space_index(hc, 1, id.len() as int);
    assert(hc.take(id.len() as int) =~= idc);
    assert(defline_seqid(hc) == idc);
    assert(char_alphabetic(idc[1]));
    assert forall|i: int| 1 <= i < idc.len() implies seqid_char_ok(#[trigger] idc[i]) by {
        assert(idc[i] == byte_char(id[i]));
        assert(ascii_seqid_byte(id[i]));
    }
    lemma_valid_record_is_clean(header, body);
}

} // verus!
