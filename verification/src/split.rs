//! Splitting a sequence at every occurrence of a separator.
//!
//! `split_on` is the mathematical definition; `split_bytes`, `split_after` and
//! `split_text` compute it on bytes and on text.

use vstd::prelude::*;
use vstd::string::*;
use crate::model::views;

verus! {

/// Index of the first occurrence of `sep` in `s`, or `s.len()` where there is none.
pub open spec fn first_sep<T>(s: Seq<T>, sep: T) -> int
    decreases s.len(),
{
    if s.len() == 0 || s[0] == sep {
        0
    } else {
        1 + first_sep(s.drop_first(), sep)
    }
}

/// The pieces between the occurrences of `sep`, in order. There is always at
/// least one piece; a separator at either end, or two in a row, gives an
/// empty piece.
pub open spec fn split_on<T>(s: Seq<T>, sep: T) -> Seq<Seq<T>>
    decreases s.len(),
{
    let i = first_sep(s, sep);
    if 0 <= i < s.len() {
        seq![s.subrange(0, i)] + split_on(s.subrange(i + 1, s.len() as int), sep)
    } else {
        seq![s]
    }
}

/// The pieces put together again, with `sep` between neighbours.
pub open spec fn join_with<T>(pieces: Seq<Seq<T>>, sep: T) -> Seq<T>
    decreases pieces.len(),
{
    if pieces.len() == 0 {
        Seq::empty()
    } else if pieces.len() == 1 {
        pieces[0]
    } else {
        pieces[0] + seq![sep] + join_with(pieces.drop_first(), sep)
    }
}

/// `first_sep` is in range, nothing before it is the separator, and where it
/// is inside the sequence it points at one.
pub proof fn lemma_first_sep<T>(s: Seq<T>, sep: T)
    ensures
        0 <= first_sep(s, sep) <= s.len(),
        forall|k: int| 0 <= k < first_sep(s, sep) ==> s[k] != sep,
        first_sep(s, sep) < s.len() ==> s[first_sep(s, sep)] == sep,
        first_sep(s, sep) == s.len() <==> !s.contains(sep),
    decreases s.len(),
{
    if s.len() > 0 && s[0] != sep {
        let t = s.drop_first();
        lemma_first_sep(t, sep);
        assert forall|k: int| 0 <= k < first_sep(s, sep) implies s[k] != sep by {
            if k > 0 {
                assert(s[k] == t[k - 1]);
            }
        }
    }
}

/// The first separator is where the caller found it.
pub proof fn lemma_first_sep_at<T>(s: Seq<T>, sep: T, i: int)
    requires
        0 <= i <= s.len(),
        forall|k: int| 0 <= k < i ==> s[k] != sep,
        i < s.len() ==> s[i] == sep,
    ensures
        first_sep(s, sep) == i,
{
    lemma_first_sep(s, sep);
}

/// A sequence without the separator is its own single piece.
pub proof fn lemma_split_none<T>(s: Seq<T>, sep: T)
    requires
        !s.contains(sep),
    ensures
        split_on(s, sep) == seq![s],
{
    lemma_first_sep(s, sep);
}

/// The first piece ends at the first separator; the rest is the split of what
/// follows it.
pub proof fn lemma_split_at<T>(s: Seq<T>, sep: T, i: int)
    requires
        0 <= i < s.len(),
        forall|k: int| 0 <= k < i ==> s[k] != sep,
        s[i] == sep,
    ensures
        split_on(s, sep) == seq![s.subrange(0, i)] + split_on(
            s.subrange(i + 1, s.len() as int),
            sep,
        ),
{
    lemma_first_sep_at(s, sep, i);
}

/// What `split_on` returns: at least one piece, none of which holds the
/// separator, and joining them gives the sequence back.
pub proof fn lemma_split_on_pieces<T>(s: Seq<T>, sep: T)
    ensures
        split_on(s, sep).len() >= 1,
        forall|j: int|
            0 <= j < split_on(s, sep).len() ==> !(#[trigger] split_on(s, sep)[j]).contains(sep),
        join_with(split_on(s, sep), sep) == s,
        split_on(s, sep).len() == 1 <==> !s.contains(sep),
    decreases s.len(),
{
    lemma_first_sep(s, sep);
    let i = first_sep(s, sep);
    if 0 <= i < s.len() {
        let tail = s.subrange(i + 1, s.len() as int);
        lemma_split_on_pieces(tail, sep);
        assert(split_on(s, sep).drop_first() =~= split_on(tail, sep));
    }
}

/// Splitting is the only way to cut a sequence into separator-free pieces:
/// joining such pieces and splitting the result gives the pieces back.
pub proof fn lemma_split_of_join<T>(pieces: Seq<Seq<T>>, sep: T)
    requires
        pieces.len() >= 1,
        forall|j: int| 0 <= j < pieces.len() ==> !(#[trigger] pieces[j]).contains(sep),
    ensures
        split_on(join_with(pieces, sep), sep) == pieces,
    decreases pieces.len(),
{
    if pieces.len() == 1 {
        lemma_split_none(pieces[0], sep);
    } else {
        let rest = pieces.drop_first();
        lemma_split_of_join(rest, sep);
        let s = join_with(pieces, sep);
        let n = pieces[0].len() as int;
        lemma_split_at(s, sep, n);
        assert(s.subrange(0, n) =~= pieces[0]);
        assert(s.subrange(n + 1, s.len() as int) =~= join_with(rest, sep));
    }
}

/// Splitting a concatenation: the last piece of the left part and the first
/// piece of the right part grow together, and nothing else changes.
pub proof fn lemma_split_concat<T>(a: Seq<T>, b: Seq<T>, sep: T)
    ensures
        split_on(a + b, sep) == split_on(a, sep).drop_last() + seq![
            split_on(a, sep).last() + split_on(b, sep).first(),
        ] + split_on(b, sep).drop_first(),
    decreases a.len(),
{
    lemma_first_sep(a, sep);
    lemma_first_sep(b, sep);
    lemma_split_on_pieces(b, sep);
    let i = first_sep(a, sep);
    let whole = a + b;
    if 0 <= i < a.len() {
        let tail = a.subrange(i + 1, a.len() as int);
        lemma_split_concat(tail, b, sep);
        lemma_split_on_pieces(tail, sep);
        lemma_split_at(whole, sep, i);
        assert(whole.subrange(0, i) =~= a.subrange(0, i));
        assert(whole.subrange(i + 1, whole.len() as int) =~= tail + b);
    } else {
        let j = first_sep(b, sep);
        if j < b.len() {
            lemma_split_at(whole, sep, a.len() + j);
            assert(whole.subrange(0, a.len() + j) =~= a + b.subrange(0, j));
            assert(whole.subrange(a.len() + j + 1, whole.len() as int) =~= b.subrange(
                j + 1,
                b.len() as int,
            ));
        } else {
            lemma_first_sep_at(whole, sep, whole.len() as int);
        }
    }
}

/// Splits `head` followed by `data` at every `sep`, where `head` is known to
/// hold none: the scan starts at `data`.
pub fn split_after(head: Vec<u8>, data: &[u8], sep: u8) -> (pieces: Vec<Vec<u8>>)
    requires
        !head@.contains(sep),
    ensures
        views(pieces@) == split_on(head@ + data@, sep),
{
    let ghost whole = head@ + data@;
    let ghost offset = head@.len() as int;
    let mut pieces: Vec<Vec<u8>> = Vec::new();
    let mut current: Vec<u8> = head;
    let ghost mut start: int = 0;
    let mut i: usize = 0;
    proof {
        assert(whole.subrange(0, whole.len() as int) =~= whole);
    }
    while i < data.len()
        invariant
            whole == head@ + data@,
            offset == head@.len(),
            0 <= i <= data.len(),
            0 <= start <= offset + i,
            current@ == whole.subrange(start, offset + i),
            !current@.contains(sep),
            split_on(whole, sep) == views(pieces@) + split_on(
                whole.subrange(start, whole.len() as int),
                sep,
            ),
        decreases data.len() - i,
    {
        let b = data[i];
        let ghost rest = whole.subrange(start, whole.len() as int);
        let ghost at = offset + i - start;
        if b == sep {
            proof {
                lemma_split_at(rest, sep, at);
                assert(rest.subrange(0, at) =~= current@);
                assert(rest.subrange(at + 1, rest.len() as int) =~= whole.subrange(
                    offset + i + 1,
                    whole.len() as int,
                ));
            }
            pieces.push(current);
            current = Vec::new();
            proof {
                start = offset + i + 1;
            }
        } else {
            current.push(b);
        }
        i += 1;
    }
    proof {
        lemma_split_none(current@, sep);
    }
    pieces.push(current);
    pieces
}

/// The pieces of `data` between the occurrences of `sep`.
pub fn split_bytes(data: &[u8], sep: u8) -> (pieces: Vec<Vec<u8>>)
    ensures
        views(pieces@) == split_on(data@, sep),
{
    let head: Vec<u8> = Vec::new();
    split_after(head, data, sep)
}

/// The characters of a string slice.
pub fn chars_of(s: &str) -> (chars: Vec<char>)
    ensures
        chars@ == s@,
{
    let mut chars: Vec<char> = Vec::new();
    for c in it: s.chars()
        invariant
            chars@ == it.seq().take(it.index() as int),
            it.seq() == s@,
    {
        chars.push(c);
    }
    chars
}

/// The pieces of `text` between the occurrences of `sep`, each as a string of
/// its own.
pub fn split_text(text: &str, sep: char) -> (pieces: Vec<String>)
    ensures
        views(pieces@) == split_on(text@, sep),
{
    let chars = chars_of(text);
    let mut pieces: Vec<String> = Vec::new();
    let mut start: usize = 0;
    let mut i: usize = 0;
    proof {
        assert(text@.subrange(0, text@.len() as int) =~= text@);
    }
    while i < chars.len()
        invariant
            chars@ == text@,
            0 <= start <= i <= chars.len(),
            forall|k: int| start <= k < i ==> text@[k] != sep,
            split_on(text@, sep) == views(pieces@) + split_on(
                text@.subrange(start as int, text@.len() as int),
                sep,
            ),
        decreases chars.len() - i,
    {
        if chars[i] == sep {
            let piece = text.substring_char(start, i).to_owned();
            proof {
                let rest = text@.subrange(start as int, text@.len() as int);
                let at = i - start;
                lemma_split_at(rest, sep, at);
                assert(rest.subrange(0, at) =~= piece@);
                assert(rest.subrange(at + 1, rest.len() as int) =~= text@.subrange(
                    i + 1,
                    text@.len() as int,
                ));
            }
            pieces.push(piece);
            start = i + 1;
        }
        i += 1;
    }
    let piece = text.substring_char(start, i).to_owned();
    proof {
        lemma_split_none(piece@, sep);
    }
    pieces.push(piece);
    pieces
}

} // verus!
