//! Text helpers that the other modules share.

use vstd::prelude::*;
use vstd::utf8::*;

verus! {

/// Whether two strings hold the same characters.
pub fn str_eq(a: &str, b: &str) -> (same: bool)
    ensures
        same == (a@ == b@),
{
    let x = a.as_bytes();
    let y = b.as_bytes();
    proof {
        // Decoding undoes encoding, so equal bytes mean equal characters.
        encode_utf8_decode_utf8(a@);
        encode_utf8_decode_utf8(b@);
    }
    if x.len() != y.len() {
        return false;
    }
    let mut i: usize = 0;
    while i < x.len()
        invariant
            i <= x.len(),
            x.len() == y.len(),
            x@ == encode_utf8(a@),
            y@ == encode_utf8(b@),
            decode_utf8(encode_utf8(a@)) == a@,
            decode_utf8(encode_utf8(b@)) == b@,
            forall|j: int| 0 <= j < i ==> x@[j] == y@[j],
        decreases x.len() - i,
    {
        if x[i] != y[i] {
            return false;
        }
        i = i + 1;
    }
    assert(x@ =~= y@);
    true
}

/// The index of the first `mark` in `text`, or the length of `text` where it
/// holds none.
pub open spec fn first_position(text: Seq<char>, mark: char) -> int
    decreases text.len(),
{
    if text.len() == 0 {
        0
    } else if text.first() == mark {
        0
    } else {
        1 + first_position(text.drop_first(), mark)
    }
}

/// `first_position` is the one index that holds the mark and has none before it.
pub proof fn lemma_first_position(text: Seq<char>, mark: char)
    ensures
        0 <= first_position(text, mark) <= text.len(),
        first_position(text, mark) < text.len() ==> text[first_position(text, mark)] == mark,
        forall|i: int| 0 <= i < first_position(text, mark) ==> text[i] != mark,
    decreases text.len(),
{
    if text.len() > 0 && text.first() != mark {
        let rest = text.drop_first();
        lemma_first_position(rest, mark);
        assert forall|i: int| 0 <= i < first_position(text, mark) implies text[i] != mark by {
            if i > 0 {
                assert(text[i] == rest[i - 1]);
            }
        }
    }
}

/// An index that holds the mark and has none before it is the first position.
pub proof fn lemma_first_position_is(text: Seq<char>, mark: char, at: int)
    requires
        0 <= at <= text.len(),
        at < text.len() ==> text[at] == mark,
        forall|i: int| 0 <= i < at ==> text[i] != mark,
    ensures
        first_position(text, mark) == at,
{
    lemma_first_position(text, mark);
}

/// The index of the first `mark` in `text`.
pub fn first_index_of(text: &str, mark: char) -> (found: Option<usize>)
    ensures
        match found {
            Some(i) => i == first_position(text@, mark) && i < text@.len(),
            None => first_position(text@, mark) == text@.len(),
        },
{
    let mut found: Option<usize> = None;
    let mut i: usize = 0;
    let count: usize = text.unicode_len();
    for c in it: text.chars()
        invariant
            i == it.index(),
            it.seq() == text@,
            count == text@.len(),
            i <= count,
            match found {
                Some(at) => at < i && text@[at as int] == mark && forall|j: int|
                    0 <= j < at ==> text@[j] != mark,
                None => forall|j: int| 0 <= j < i ==> text@[j] != mark,
            },
    {
        if found.is_none() && c == mark {
            found = Some(i);
        }
        i = i + 1;
    }
    proof {
        match found {
            Some(at) => lemma_first_position_is(text@, mark, at as int),
            None => lemma_first_position_is(text@, mark, text@.len() as int),
        }
    }
    found
}

} // verus!
