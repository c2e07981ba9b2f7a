//! Identifier extraction from a defline and the identifier syntax rules.
use vstd::prelude::*;
use crate::report::{Diagnostic, DiagView, diag_views, lemma_diag_views_push};

verus! {

/// A character of the Unicode `White_Space` property: the class `\s`.
pub open spec fn is_space(c: char) -> bool {
    ('\t' <= c <= '\r') || c == ' ' || c == '\u{85}' || c == '\u{a0}' || c == '\u{1680}' || (
    '\u{2000}' <= c <= '\u{200a}') || c == '\u{2028}' || c == '\u{2029}' || c == '\u{202f}' || c
        == '\u{205f}' || c == '\u{3000}'
}

/// The first index at or after `i` that holds whitespace, or `-1`.
pub open spec fn space_index(d: Seq<char>, i: int) -> int
    decreases d.len() - i,
{
    if i < 0 || i >= d.len() {
        -1
    } else if is_space(d[i]) {
        i
    } else {
        space_index(d, i + 1)
    }
}

/// The identifier of a defline: from its leading `>` up to, not including,
/// the first whitespace; empty where the defline does not start with `>` or
/// holds no whitespace after it.
pub open spec fn defline_seqid(defline: Seq<char>) -> Seq<char> {
    if defline.len() > 0 && defline[0] == '>' && space_index(defline, 1) >= 1 {
        defline.take(space_index(defline, 1))
    } else {
        Seq::empty()
    }
}

/// Whether a non-ASCII character has the Unicode `Alphabetic` property.
pub uninterp spec fn unicode_alphabetic(c: char) -> bool;

/// Whether a non-ASCII character has a Unicode numeric general category.
pub uninterp spec fn unicode_numeric(c: char) -> bool;

/// An ASCII character.
pub open spec fn is_ascii_char(c: char) -> bool {
    (c as u32) < 128
}

/// Whether a character is alphabetic: among ASCII, exactly the letters.
pub open spec fn char_alphabetic(c: char) -> bool {
    if is_ascii_char(c) {
        ('a' <= c <= 'z') || ('A' <= c <= 'Z')
    } else {
        unicode_alphabetic(c)
    }
}

/// Whether a character is numeric: among ASCII, exactly the digits.
pub open spec fn char_numeric(c: char) -> bool {
    if is_ascii_char(c) {
        '0' <= c <= '9'
    } else {
        unicode_numeric(c)
    }
}

/// Relies on fancy_regex::Regex::captures: group 1 of `^(>.*?)\s`, the text
/// from a leading `>` up to the first whitespace; empty where the pattern
/// does not match.  `.` takes any character but a line break, which is
/// whitespace itself, so the match ends at the first whitespace.  `\s` is
/// handed to the regex crate, whose class is Unicode `White_Space`; the
/// pattern needs no backtracking VM, so `captures` never returns an error.
#[verifier::external_body]
pub(crate) fn get_seqid(defline: &Vec<char>) -> (r: String)
    ensures
        r@ == defline_seqid(defline@),
{
    let text: String = defline.iter().collect();
    let re = fancy_regex::Regex::new(r"^(>.*?)\s").unwrap();
    match re.captures(&text) {
        Ok(Some(caps)) => caps.get(1).map_or(String::new(), |m| m.as_str().to_string()),
        Ok(None) => String::new(),
        Err(_) => String::new(),
    }
}

/// Relies on char::is_alphabetic: the `Alphabetic` property, which among
/// ASCII characters holds of the letters alone.
#[verifier::external_body]
fn is_alphabetic(c: char) -> (r: bool)
    ensures
        r == char_alphabetic(c),
        !is_ascii_char(c) ==> r == unicode_alphabetic(c),
{
    c.is_alphabetic()
}

/// Relies on char::is_numeric: the general categories `Nd`, `Nl` and `No`,
/// which among ASCII characters hold of the digits alone.
#[verifier::external_body]
fn is_numeric(c: char) -> (r: bool)
    ensures
        r == char_numeric(c),
        !is_ascii_char(c) ==> r == unicode_numeric(c),
{
    c.is_numeric()
}

/// The longest identifier accepted, marker included.
pub const MAX_SEQID_LEN: u64 = 24;

/// A character that may follow the marker in an identifier.
pub open spec fn seqid_char_ok(c: char) -> bool {
    char_numeric(c) || char_alphabetic(c) || c == '_' || c == '*' || c == '#' || c == '.' || c
        == '-' || c == ':'
}

/// One diagnostic for each character of `tail` outside the permitted set, in order.
pub open spec fn bad_char_diags(seqid: Seq<char>, tail: Seq<char>) -> Seq<DiagView>
    decreases tail.len(),
{
    if tail.len() == 0 {
        Seq::empty()
    } else {
        let rest = bad_char_diags(seqid, tail.drop_last());
        if seqid_char_ok(tail.last()) {
            rest
        } else {
            rest.push(DiagView::SeqidChar { ch: tail.last(), seqid })
        }
    }
}

/// The diagnostics that the identifier rules give for `seqid`.
pub open spec fn seqid_diags(seqid: Seq<char>) -> Seq<DiagView> {
    if seqid.len() < 2 {
        seq![DiagView::MissingSeqid { seqid }]
    } else {
        let start = if char_alphabetic(seqid[1]) {
            Seq::empty()
        } else {
            seq![DiagView::SeqidStart { ch: seqid[1], seqid }]
        };
        let too_long = if seqid.len() > MAX_SEQID_LEN {
            seq![DiagView::SeqidTooLong { len: seqid.len() as int, seqid }]
        } else {
            Seq::empty()
        };
        start + bad_char_diags(seqid, seqid.subrange(1, seqid.len() as int)) + too_long
    }
}

/// Checks the identifier syntax and appends one diagnostic per broken rule;
/// an identifier without a character after its marker gets a single one.
/// Returns whether the identifier passed.
pub fn validate_seq_id(seqid: &String, msgs: &mut Vec<Diagnostic>) -> (r: bool)
    ensures
        diag_views(final(msgs)@) == diag_views(old(msgs)@) + seqid_diags(seqid@),
        r == (seqid_diags(seqid@).len() == 0),
{
    let ghost id = seqid@;
    let n = seqid.as_str().unicode_len();
    if n < 2 {
        let d = Diagnostic::MissingSeqid { seqid: seqid.clone() };
        proof {
            lemma_diag_views_push(msgs@, d);
        }
        msgs.push(d);
        assert(diag_views(msgs@) =~= diag_views(old(msgs)@) + seqid_diags(id));
        return false;
    }
    let mut ok = true;
    let first = seqid.as_str().get_char(1);
    if !is_alphabetic(first) {
        let d = Diagnostic::SeqidStart { ch: first, seqid: seqid.clone() };
        proof {
            lemma_diag_views_push(msgs@, d);
        }
        msgs.push(d);
        ok = false;
    }
    let ghost start = if char_alphabetic(id[1]) {
        Seq::<DiagView>::empty()
    } else {
        seq![DiagView::SeqidStart { ch: id[1], seqid: id }]
    };
    assert(diag_views(msgs@) =~= diag_views(old(msgs)@) + start);
    let mut k: usize = 1;
    while k < n
        invariant
            2 <= n == id.len(),
            1 <= k <= n,
            seqid@ == id,
            diag_views(msgs@) == diag_views(old(msgs)@) + start + bad_char_diags(
                id,
                id.subrange(1, k as int),
            ),
            ok == (start.len() == 0 && bad_char_diags(id, id.subrange(1, k as int)).len() == 0),
        decreases n - k,
    {
        let c = seqid.as_str().get_char(k);
        assert(id.subrange(1, k + 1).drop_last() =~= id.subrange(1, k as int));
        if !(is_numeric(c) || is_alphabetic(c) || c == '_' || c == '*' || c == '#' || c == '.'
            || c == '-' || c == ':') {
            let d = Diagnostic::SeqidChar { ch: c, seqid: seqid.clone() };
        proof {
            lemma_diag_views_push(msgs@, d);
        }
        msgs.push(d);
            ok = false;
        }
        k = k + 1;
    }
    if n as u64 > MAX_SEQID_LEN {
        let d = Diagnostic::SeqidTooLong { len: n as u64, seqid: seqid.clone() };
        proof {
            lemma_diag_views_push(msgs@, d);
        }
        msgs.push(d);
        ok = false;
    }
    assert(id.subrange(1, n as int) == id.subrange(1, id.len() as int));
    assert(diag_views(msgs@) =~= diag_views(old(msgs)@) + seqid_diags(id));
    ok
}

} // verus!
