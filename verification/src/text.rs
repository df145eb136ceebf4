//! Low-level text helpers shared by the codec, the expander and the
//! resolver: character classes, string equality, and splitting and joining
//! on a separator character.

use vstd::prelude::*;
use vstd::string::StrSliceExecFns;

verus! {

/// Relies on `String::push`: appends the given character to the end of the
/// string.
#[verifier::external_body]
pub(crate) fn push_char(s: &mut String, c: char)
    ensures
        final(s)@ == old(s)@.push(c),
{
    s.push(c);
}

/// A word character: an ASCII letter, an ASCII digit, or an underscore.
pub open spec fn is_word_char(c: char) -> bool {
    let u = c as u32;
    ||| ('a' as u32) <= u <= ('z' as u32)
    ||| ('A' as u32) <= u <= ('Z' as u32)
    ||| ('0' as u32) <= u <= ('9' as u32)
    ||| u == ('_' as u32)
}

/// Decides `is_word_char`.
pub fn word_char(c: char) -> (r: bool)
    ensures
        r == is_word_char(c),
{
    let u = c as u32;
    ('a' as u32) <= u && u <= ('z' as u32) || ('A' as u32) <= u && u <= ('Z' as u32) || ('0'
        as u32) <= u && u <= ('9' as u32) || u == ('_' as u32)
}

/// Exact equality of two strings, decided character by character.
pub fn str_eq(a: &str, b: &str) -> (r: bool)
    ensures
        r == (a@ == b@),
{
    let alen = a.unicode_len();
    let blen = b.unicode_len();
    if alen != blen {
        return false;
    }
    let mut i: usize = 0;
    while i < alen
        invariant
            alen == a@.len(),
            blen == b@.len(),
            alen == blen,
            i <= alen,
            forall|j: int| 0 <= j < i ==> a@[j] == b@[j],
        decreases alen - i,
    {
        if a.get_char(i) != b.get_char(i) {
            return false;
        }
        i = i + 1;
    }
    proof {
        assert(a@ =~= b@);
    }
    true
}

/// The first position at or after `from` that does not hold a word
/// character, or the length of `s`.
pub open spec fn word_end(s: Seq<char>, from: int) -> int
    decreases s.len() - from,
{
    if from >= s.len() {
        s.len() as int
    } else if !is_word_char(s[from]) {
        from
    } else {
        word_end(s, from + 1)
    }
}

/// Bounds and characterization of `word_end`.
pub proof fn lemma_word_end(s: Seq<char>, from: int)
    requires
        0 <= from <= s.len(),
    ensures
        from <= word_end(s, from) <= s.len(),
        forall|t: int| from <= t < word_end(s, from) ==> is_word_char(s[t]),
        word_end(s, from) < s.len() ==> !is_word_char(s[word_end(s, from)]),
    decreases s.len() - from,
{
    if from < s.len() && is_word_char(s[from]) {
        lemma_word_end(s, from + 1);
    }
}

/// `word_end` is the only position with its characterization.
pub proof fn lemma_word_end_unique(s: Seq<char>, from: int, e: int)
    requires
        0 <= from <= e <= s.len(),
        forall|t: int| from <= t < e ==> is_word_char(s[t]),
        e < s.len() ==> !is_word_char(s[e]),
    ensures
        word_end(s, from) == e,
    decreases s.len() - from,
{
    if from < s.len() && is_word_char(s[from]) {
        lemma_word_end_unique(s, from + 1, e);
    }
}

/// Splitting a text on a separator, carrying the piece read so far.
///
/// The final piece is kept only if it is non-empty, so a text in which every
/// piece is terminated by the separator splits into exactly those pieces.
pub open spec fn spec_split_from(cur: Seq<char>, rest: Seq<char>, sep: char) -> Seq<Seq<char>>
    decreases rest.len(),
{
    if rest.len() == 0 {
        if cur.len() == 0 {
            seq![]
        } else {
            seq![cur]
        }
    } else if rest[0] == sep {
        seq![cur] + spec_split_from(Seq::empty(), rest.drop_first(), sep)
    } else {
        spec_split_from(cur.push(rest[0]), rest.drop_first(), sep)
    }
}

/// The pieces of `s` between occurrences of `sep`.
pub open spec fn spec_split(s: Seq<char>, sep: char) -> Seq<Seq<char>> {
    spec_split_from(Seq::empty(), s, sep)
}

/// Each piece of `pieces`, followed by one `sep`, concatenated.
pub open spec fn spec_join_terminated(pieces: Seq<Seq<char>>, sep: char) -> Seq<char>
    decreases pieces.len(),
{
    if pieces.len() == 0 {
        Seq::empty()
    } else {
        pieces[0] + seq![sep] + spec_join_terminated(pieces.drop_first(), sep)
    }
}

/// Reading one separator-free piece consumes it up to the separator.
proof fn lemma_split_one(cur: Seq<char>, piece: Seq<char>, rest: Seq<char>, sep: char)
    requires
        forall|i: int| 0 <= i < piece.len() ==> piece[i] != sep,
    ensures
        spec_split_from(cur, piece + seq![sep] + rest, sep) == seq![cur + piece]
            + spec_split_from(Seq::empty(), rest, sep),
    decreases piece.len(),
{
    if piece.len() == 0 {
        assert(piece + seq![sep] + rest =~= seq![sep] + rest);
        assert((seq![sep] + rest).drop_first() =~= rest);
        assert(cur + piece =~= cur);
    } else {
        let c = piece[0];
        assert((piece + seq![sep] + rest)[0] == c);
        assert((piece + seq![sep] + rest).drop_first() =~= piece.drop_first() + seq![sep] + rest);
        lemma_split_one(cur.push(c), piece.drop_first(), rest, sep);
        assert(cur.push(c) + piece.drop_first() =~= cur + piece);
    }
}

/// Splitting inverts joining, for pieces free of the separator.
pub proof fn lemma_split_join(pieces: Seq<Seq<char>>, sep: char)
    requires
        forall|i: int, j: int|
            0 <= i < pieces.len() && 0 <= j < pieces[i].len() ==> #[trigger] pieces[i][j] != sep,
    ensures
        spec_split(spec_join_terminated(pieces, sep), sep) == pieces,
    decreases pieces.len(),
{
    if pieces.len() == 0 {
        assert(spec_split(Seq::empty(), sep) =~= Seq::<Seq<char>>::empty());
        assert(pieces =~= Seq::<Seq<char>>::empty());
    } else {
        let head = pieces[0];
        let tail = pieces.drop_first();
        lemma_split_one(Seq::empty(), head, spec_join_terminated(tail, sep), sep);
        assert(Seq::empty() + head =~= head);
        assert(forall|i: int, j: int|
            0 <= i < tail.len() && 0 <= j < tail[i].len() ==> #[trigger] tail[i][j] != sep);
        lemma_split_join(tail, sep);
        assert(seq![head] + tail =~= pieces);
    }
}

/// Splits `s` into its pieces between occurrences of `sep`.
pub fn split_char(s: &str, sep: char) -> (r: Vec<String>)
    ensures
        r.deep_view() == spec_split(s@, sep),
{
    let len = s.unicode_len();
    let mut r: Vec<String> = Vec::new();
    let mut cur: String = String::new();
    let mut i: usize = 0;
    proof {
        assert(r.deep_view() =~= Seq::<Seq<char>>::empty());
        assert(s@.skip(0) =~= s@);
        assert(Seq::<Seq<char>>::empty() + spec_split_from(cur@, s@, sep) =~= spec_split_from(
            cur@,
            s@,
            sep,
        ));
    }
    while i < len
        invariant
            len == s@.len(),
            i <= len,
            spec_split(s@, sep) == r.deep_view() + spec_split_from(cur@, s@.skip(i as int), sep),
        decreases len - i,
    {
        let c = s.get_char(i);
        proof {
            assert(s@.skip(i as int)[0] == s@[i as int]);
            assert(s@.skip(i as int).drop_first() =~= s@.skip(i as int + 1));
        }
        if c == sep {
            let ghost dv0 = r.deep_view();
            let done = cur;
            cur = String::new();
            r.push(done);
            proof {
                assert(r.deep_view() =~= dv0.push(done@));
                assert(dv0 + (seq![done@] + spec_split_from(
                    Seq::empty(),
                    s@.skip(i as int + 1),
                    sep,
                )) =~= dv0.push(done@) + spec_split_from(Seq::empty(), s@.skip(i as int + 1), sep));
            }
        } else {
            push_char(&mut cur, c);
        }
        i = i + 1;
    }
    proof {
        assert(s@.skip(len as int) =~= Seq::empty());
    }
    if !cur.as_str().is_empty() {
        let ghost dv0 = r.deep_view();
        let ghost cv = cur@;
        r.push(cur);
        proof {
            assert(r.deep_view() =~= dv0.push(cv));
            assert(dv0 + seq![cv] =~= dv0.push(cv));
        }
    } else {
        proof {
            assert(r.deep_view() + Seq::<Seq<char>>::empty() =~= r.deep_view());
        }
    }
    r
}

} // verus!
