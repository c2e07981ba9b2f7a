//! Choosing how to read an input file from its name.
use vstd::prelude::*;

verus! {

/// How the bytes of an input file are to be read.
#[derive(Clone, Copy, Debug, PartialEq, Eq, Structural)]
pub enum SourceKind {
    /// A gzip stream, decompressed while reading.
    Gzip,
    /// Plain text.
    Plain,
}

/// A character with ASCII upper case mapped to lower case.
pub open spec fn ascii_lower(c: char) -> char {
    if 'A' <= c <= 'Z' {
        ((c as u8) + 32) as char
    } else {
        c
    }
}

/// The text after the last `.`, or the whole text where there is none.
pub open spec fn last_suffix(s: Seq<char>) -> Seq<char>
    decreases s.len(),
{
    if s.len() == 0 {
        s
    } else if s.last() == '.' {
        Seq::empty()
    } else {
        last_suffix(s.drop_last()).push(s.last())
    }
}

/// The file suffix of `path`, compared without regard to ASCII case.
pub open spec fn lowered_suffix(path: Seq<char>) -> Seq<char> {
    last_suffix(path).map_values(|c: char| ascii_lower(c))
}

/// The reading mode that a file name selects: `.gz` is gzip; `.fa`, `.fsa`,
/// `.fna` and `.fasta` are plain; any other suffix is refused.
pub open spec fn source_kind_of(path: Seq<char>) -> Option<SourceKind> {
    let s = lowered_suffix(path);
    if s == seq!['g', 'z'] {
        Some(SourceKind::Gzip)
    } else if s == seq!['f', 'a'] || s == seq!['f', 's', 'a'] || s == seq!['f', 'n', 'a'] || s
        == seq!['f', 'a', 's', 't', 'a'] {
        Some(SourceKind::Plain)
    } else {
        None
    }
}

fn lower_char(c: char) -> (r: char)
    ensures
        r == ascii_lower(c),
{
    if 'A' <= c && c <= 'Z' {
        ((c as u8) + 32) as char
    } else {
        c
    }
}

fn chars_equal(v: &Vec<char>, t: &[char]) -> (r: bool)
    ensures
        r == (v@ == t@),
{
    if v.len() != t.len() {
        return false;
    }
    let mut i: usize = 0;
    while i < v.len()
        invariant
            v@.len() == t@.len(),
            0 <= i <= v@.len(),
            forall|k: int| 0 <= k < i ==> v@[k] == t@[k],
        decreases v@.len() - i,
    {
        if v[i] != t[i] {
            return false;
        }
        i = i + 1;
    }
    assert(v@ =~= t@);
    true
}

/// The reading mode that the name of an input file selects, or `None` for
/// a suffix that is not accepted.
pub fn source_kind(path: &str) -> (r: Option<SourceKind>)
    ensures
        r == source_kind_of(path@),
{
    let n = path.unicode_len();
    let mut start: usize = n;
    assert(path@.subrange(0, n as int) =~= path@);
    assert(last_suffix(path@) =~= last_suffix(path@.subrange(0, start as int)) + path@.subrange(
        start as int,
        n as int,
    ));
    while start > 0 && path.get_char(start - 1) != '.'
        invariant
            0 <= start <= n == path@.len(),
            last_suffix(path@) == last_suffix(path@.subrange(0, start as int)) + path@.subrange(
                start as int,
                n as int,
            ),
        decreases start,
    {
        let ghost pre = path@.subrange(0, start as int);
        assert(pre.drop_last() =~= path@.subrange(0, start - 1));
        assert(path@.subrange(start - 1, n as int) =~= seq![pre.last()] + path@.subrange(
            start as int,
            n as int,
        ));
        assert(last_suffix(pre.drop_last()).push(pre.last()) + path@.subrange(start as int, n as int)
            =~= last_suffix(pre.drop_last()) + path@.subrange(start - 1, n as int));
        start = start - 1;
    }
    assert(last_suffix(path@.subrange(0, start as int)) =~= Seq::<char>::empty());
    let mut suffix: Vec<char> = Vec::new();
    let mut i: usize = start;
    while i < n
        invariant
            0 <= start <= i <= n == path@.len(),
            last_suffix(path@) =~= path@.subrange(start as int, n as int),
            suffix@ =~= path@.subrange(start as int, i as int).map_values(|c: char| ascii_lower(c)),
        decreases n - i,
    {
        let c = lower_char(path.get_char(i));
        suffix.push(c);
        i = i + 1;
    }
    assert(suffix@ =~= lowered_suffix(path@));
    if chars_equal(&suffix, &['g', 'z']) {
        Some(SourceKind::Gzip)
    } else if chars_equal(&suffix, &['f', 'a']) || chars_equal(&suffix, &['f', 's', 'a'])
        || chars_equal(&suffix, &['f', 'n', 'a']) || chars_equal(&suffix, &['f', 'a', 's', 't', 'a']) {
        Some(SourceKind::Plain)
    } else {
        None
    }
}

} // verus!
