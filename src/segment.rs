//! The sentence segmenter: from transcript text to trimmed, non-empty
//! sentences, in a single forward scan.

use vstd::prelude::*;

verus! {

/// How the transcript is cut into sentences.
#[derive(Clone, Copy, Debug, PartialEq, Eq, Structural)]
pub enum SegmentPolicy {
    /// Cut at `.`, `?` and `!`; each sentence ends with the mark that closed
    /// it, and trailing text without a mark is closed with `.`.
    Punctuated,
    /// Cut at `.` only; the marks are dropped and `?` and `!` stay inside
    /// the sentences.
    PeriodOnly,
}

/// The characters with the Unicode White_Space property.
pub open spec fn is_white_space(c: char) -> bool {
    let u = c as u32;
    (0x9 <= u && u <= 0xd) || u == 0x20 || u == 0x85 || u == 0xa0 || u == 0x1680 || (0x2000 <= u
        && u <= 0x200a) || u == 0x2028 || u == 0x2029 || u == 0x202f || u == 0x205f || u == 0x3000
}

/// `s` without its leading white space.
pub open spec fn trim_start(s: Seq<char>) -> Seq<char>
    decreases s.len(),
{
    if s.len() > 0 && is_white_space(s[0]) {
        trim_start(s.drop_first())
    } else {
        s
    }
}

/// `s` without its trailing white space.
pub open spec fn trim_end(s: Seq<char>) -> Seq<char>
    decreases s.len(),
{
    if s.len() > 0 && is_white_space(s.last()) {
        trim_end(s.drop_last())
    } else {
        s
    }
}

/// `s` without white space at either end.
pub open spec fn trim(s: Seq<char>) -> Seq<char> {
    trim_end(trim_start(s))
}

/// Whether `c` closes a sentence under `policy`.
pub open spec fn is_terminal(c: char, policy: SegmentPolicy) -> bool {
    match policy {
        SegmentPolicy::Punctuated => c == '.' || c == '?' || c == '!',
        SegmentPolicy::PeriodOnly => c == '.',
    }
}

/// The sentence that `piece` becomes when `mark` closes it.
pub open spec fn finish_piece(piece: Seq<char>, mark: char, policy: SegmentPolicy) -> Seq<char> {
    match policy {
        SegmentPolicy::Punctuated => trim(piece).push(mark),
        SegmentPolicy::PeriodOnly => trim(piece),
    }
}

/// The scan's state after reading `text`: the sentences emitted so far and
/// the piece read since the last terminal mark.
pub open spec fn split_pieces(text: Seq<char>, policy: SegmentPolicy) -> (Seq<Seq<char>>, Seq<char>)
    decreases text.len(),
{
    if text.len() == 0 {
        (Seq::empty(), Seq::empty())
    } else {
        let prev = split_pieces(text.drop_last(), policy);
        let c = text.last();
        if is_terminal(c, policy) {
            if trim(prev.1).len() > 0 {
                (prev.0.push(finish_piece(prev.1, c, policy)), Seq::empty())
            } else {
                (prev.0, Seq::empty())
            }
        } else {
            (prev.0, prev.1.push(c))
        }
    }
}

/// The sentences of `text`: each piece between terminal marks, trimmed,
/// pieces that are empty once trimmed left out; a last piece without a mark
/// is closed as if by `.`.
pub open spec fn sentences(text: Seq<char>, policy: SegmentPolicy) -> Seq<Seq<char>> {
    let (done, rest) = split_pieces(text, policy);
    if trim(rest).len() > 0 {
        done.push(finish_piece(rest, '.', policy))
    } else {
        done
    }
}

/// Relies on char::is_whitespace: true exactly for the characters with the
/// Unicode White_Space property.
#[verifier::external_body]
fn char_is_white_space(c: char) -> (r: bool)
    ensures
        r == is_white_space(c),
{
    c.is_whitespace()
}

/// Relies on str::chars: the characters of `s`, in order.
#[verifier::external_body]
fn chars_of(s: &str) -> (r: Vec<char>)
    ensures
        r@ == s@,
{
    s.chars().collect()
}

/// Relies on String's FromIterator<&char>: the string of these characters, in
/// order.
#[verifier::external_body]
fn string_from_chars(v: &Vec<char>) -> (r: String)
    ensures
        r@ == v@,
{
    v.iter().collect()
}

/// The bounds of `v[start..end]` once white space is trimmed from both ends.
fn trim_range(v: &Vec<char>, start: usize, end: usize) -> (r: (usize, usize))
    requires
        start <= end <= v@.len(),
    ensures
        start <= r.0 <= r.1 <= end,
        v@.subrange(r.0 as int, r.1 as int) == trim(v@.subrange(start as int, end as int)),
{
    let mut lo: usize = start;
    while lo < end && char_is_white_space(v[lo])
        invariant
            start <= lo <= end <= v@.len(),
            trim_start(v@.subrange(start as int, end as int)) == trim_start(
                v@.subrange(lo as int, end as int),
            ),
        decreases end - lo,
    {
        assert(v@.subrange(lo as int, end as int).drop_first() =~= v@.subrange(
            lo + 1,
            end as int,
        ));
        lo = lo + 1;
    }
    let mut hi: usize = end;
    while hi > lo && char_is_white_space(v[hi - 1])
        invariant
            start <= lo <= hi <= end <= v@.len(),
            trim_end(v@.subrange(lo as int, end as int)) == trim_end(
                v@.subrange(lo as int, hi as int),
            ),
        decreases hi - lo,
    {
        assert(v@.subrange(lo as int, hi as int).drop_last() =~= v@.subrange(
            lo as int,
            hi - 1,
        ));
        hi = hi - 1;
    }
    (lo, hi)
}

/// The sentence made of `v[lo..hi]`, closed by `mark` where `policy` keeps
/// marks.
fn make_sentence(v: &Vec<char>, lo: usize, hi: usize, mark: char, policy: SegmentPolicy) -> (r:
    String)
    requires
        lo <= hi <= v@.len(),
    ensures
        r@ == (match policy {
            SegmentPolicy::Punctuated => v@.subrange(lo as int, hi as int).push(mark),
            SegmentPolicy::PeriodOnly => v@.subrange(lo as int, hi as int),
        }),
{
    let mut piece: Vec<char> = Vec::new();
    let mut j: usize = lo;
    while j < hi
        invariant
            lo <= j <= hi <= v@.len(),
            piece@ == v@.subrange(lo as int, j as int),
        decreases hi - j,
    {
        piece.push(v[j]);
        assert(piece@ =~= v@.subrange(lo as int, j + 1));
        j = j + 1;
    }
    if policy == SegmentPolicy::Punctuated {
        piece.push(mark);
    }
    string_from_chars(&piece)
}

/// Cuts `text` into sentences under `policy`.
pub fn segment(text: &str, policy: SegmentPolicy) -> (r: Vec<String>)
    ensures
        r@.map_values(|s: String| s@) == sentences(text@, policy),
{
    let v = chars_of(text);
    let mut out: Vec<String> = Vec::new();
    let mut piece_start: usize = 0;
    let mut i: usize = 0;
    while i < v.len()
        invariant
            v@ == text@,
            piece_start <= i <= v@.len(),
            split_pieces(v@.subrange(0, i as int), policy) == (
                out@.map_values(|s: String| s@),
                v@.subrange(piece_start as int, i as int),
            ),
        decreases v@.len() - i,
    {
        let ghost before = out@;
        proof {
            assert(v@.subrange(0, i + 1).drop_last() =~= v@.subrange(0, i as int));
        }
        let c = v[i];
        let terminal = match policy {
            SegmentPolicy::Punctuated => c == '.' || c == '?' || c == '!',
            SegmentPolicy::PeriodOnly => c == '.',
        };
        if terminal {
            let (lo, hi) = trim_range(&v, piece_start, i);
            if lo < hi {
                let sentence = make_sentence(&v, lo, hi, c, policy);
                out.push(sentence);
                assert(out@.map_values(|s: String| s@) =~= before.map_values(|s: String| s@).push(
                    sentence@,
                ));
            }
            piece_start = i + 1;
            assert(v@.subrange(piece_start as int, i + 1) =~= Seq::<char>::empty());
        } else {
            assert(v@.subrange(piece_start as int, i + 1) =~= v@.subrange(
                piece_start as int,
                i as int,
            ).push(c));
        }
        i = i + 1;
    }
    assert(v@.subrange(0, v@.len() as int) =~= v@);
    let (lo, hi) = trim_range(&v, piece_start, v.len());
    if lo < hi {
        let ghost before = out@;
        let sentence = make_sentence(&v, lo, hi, '.', policy);
        out.push(sentence);
        assert(out@.map_values(|s: String| s@) =~= before.map_values(|s: String| s@).push(
            sentence@,
        ));
    }
    out
}

} // verus!
