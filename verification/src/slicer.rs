//! A cursor over a byte buffer that hands out the pieces between delimiters.
//!
//! The cursor never copies: every slice it returns borrows from the buffer it
//! was started on, and what is left to read is always a suffix of that buffer.

use vstd::prelude::*;
use vstd::string::StringExecFns;

use crate::number::{decimal_string, decimal_text};

verus! {

/// Index of the first occurrence of `delim` in `s`, or `s.len()` if there is none.
pub open spec fn first_index(s: Seq<u8>, delim: u8) -> int
    decreases s.len(),
{
    if s.len() == 0 || s[0] == delim {
        0
    } else {
        1 + first_index(s.drop_first(), delim)
    }
}

/// The bytes of `s` before the first `delim`; all of `s` if there is none.
pub open spec fn token(s: Seq<u8>, delim: u8) -> Seq<u8> {
    s.take(first_index(s, delim))
}

/// The bytes of `s` after the first `delim`; nothing if there is none.
pub open spec fn after_token(s: Seq<u8>, delim: u8) -> Seq<u8> {
    if s.contains(delim) {
        s.skip(first_index(s, delim) + 1)
    } else {
        Seq::empty()
    }
}

/// The pieces of `s` between occurrences of `delim`, in order. There is always
/// at least one piece, and a piece may be empty.
pub open spec fn split(s: Seq<u8>, delim: u8) -> Seq<Seq<u8>>
    decreases s.len(),
{
    if s.contains(delim) {
        proof {
            lemma_first_index(s, delim);
        }
        seq![token(s, delim)] + split(after_token(s, delim), delim)
    } else {
        seq![s]
    }
}

/// The `n`-th piece of `s` between occurrences of `delim`, if there are that many.
pub open spec fn nth_piece(s: Seq<u8>, delim: u8, n: nat) -> Option<Seq<u8>> {
    if n < split(s, delim).len() {
        Some(split(s, delim)[n as int])
    } else {
        None
    }
}

/// `first_index` is in range, no byte before it is the delimiter, and the
/// byte at it is the delimiter exactly when the delimiter occurs at all.
pub proof fn lemma_first_index(s: Seq<u8>, delim: u8)
    ensures
        0 <= first_index(s, delim) <= s.len(),
        forall|j: int| 0 <= j < first_index(s, delim) ==> s[j] != delim,
        first_index(s, delim) < s.len() <==> s.contains(delim),
        s.contains(delim) ==> s[first_index(s, delim)] == delim,
    decreases s.len(),
{
    if s.len() == 0 {
        assert(!s.contains(delim));
    } else if s[0] == delim {
        assert(s.contains(delim));
    } else {
        let rest = s.drop_first();
        lemma_first_index(rest, delim);
        let k = first_index(rest, delim);
        assert forall|j: int| 0 <= j < 1 + k implies s[j] != delim by {
            if j > 0 {
                assert(s[j] == rest[j - 1]);
            }
        }
        if rest.contains(delim) {
            assert(rest[k] == s[k + 1]);
            assert(s.contains(delim));
        } else {
            assert forall|j: int| 0 <= j < s.len() implies s[j] != delim by {
                if j > 0 {
                    assert(rest[j - 1] == s[j]);
                }
            }
        }
    }
}

/// An index that holds the delimiter, with none before it, is the first index.
pub proof fn lemma_first_index_at(s: Seq<u8>, delim: u8, i: int)
    requires
        0 <= i <= s.len(),
        forall|j: int| 0 <= j < i ==> s[j] != delim,
        i < s.len() ==> s[i] == delim,
    ensures
        first_index(s, delim) == i,
{
    lemma_first_index(s, delim);
    let k = first_index(s, delim);
    if k < i {
        assert(s[k] == delim);
    } else if i < k {
        assert(s[i] == delim);
    }
}

/// A buffer that holds the delimiter is its first token, the delimiter, and
/// what follows; and the token is free of the delimiter.
pub proof fn lemma_token_splits(s: Seq<u8>, delim: u8)
    requires
        s.contains(delim),
    ensures
        s == token(s, delim) + seq![delim] + after_token(s, delim),
        !token(s, delim).contains(delim),
        after_token(s, delim).len() < s.len(),
{
    lemma_first_index(s, delim);
    let k = first_index(s, delim);
    assert(s =~= s.take(k) + seq![delim] + s.skip(k + 1));
}

/// Splitting is undone by joining: a delimiter-free head followed by the
/// delimiter and a tail splits into the head and the tail.
pub proof fn lemma_token_of_joined(head: Seq<u8>, delim: u8, tail: Seq<u8>)
    requires
        !head.contains(delim),
    ensures
        (head + seq![delim] + tail).contains(delim),
        token(head + seq![delim] + tail, delim) == head,
        after_token(head + seq![delim] + tail, delim) == tail,
{
    let s = head + seq![delim] + tail;
    let i = head.len() as int;
    assert(s[i] == delim);
    assert forall|j: int| 0 <= j < i implies s[j] != delim by {
        assert(s[j] == head[j]);
        if head[j] == delim {
            assert(head.contains(delim));
        }
    }
    lemma_first_index_at(s, delim, i);
    assert(s.take(i) =~= head);
    assert(s.skip(i + 1) =~= tail);
}

/// Why a cursor operation could not advance.
#[derive(Debug)]
pub enum SliceError {
    /// The delimiter does not occur in the unconsumed bytes.
    ExpectedToken(u8),
    /// The unconsumed bytes do not begin with the expected literal.
    UnexpectedTokens,
}

impl SliceError {
    /// What `message` says: which delimiter was expected, given as the
    /// number of its byte, or that the bytes at the cursor were not expected.
    pub open spec fn message_text(self) -> Seq<char> {
        match self {
            SliceError::ExpectedToken(token) => "expected '"@ + decimal_text(token as nat) + "'"@,
            SliceError::UnexpectedTokens => "unexpected tokens"@,
        }
    }

    /// Describes the error in words.
    pub fn message(&self) -> (r: String)
        ensures
            r@ == self.message_text(),
    {
        match self {
            SliceError::ExpectedToken(token) => {
                let mut text = String::from_str("expected '");
                let number = decimal_string(*token);
                text.append(number.as_str());
                text.append("'");
                text
            },
            SliceError::UnexpectedTokens => String::from_str("unexpected tokens"),
        }
    }
}

/// A view of the bytes of a buffer that have not been consumed yet.
pub struct Slicer<'a> {
    pub buffer: &'a [u8],
}

impl<'a> View for Slicer<'a> {
    type V = Seq<u8>;

    open spec fn view(&self) -> Seq<u8> {
        self.buffer@
    }
}

impl<'a> Slicer<'a> {
    /// Starts a cursor at the beginning of `s`.
    pub fn new(s: &'a [u8]) -> (slicer: Slicer<'a>)
        ensures
            slicer@ == s@,
    {
        Slicer { buffer: s }
    }

    /// Returns the bytes before the first `delim` and moves past that
    /// delimiter. Where `delim` does not occur, nothing is consumed.
    pub fn slice_to(&mut self, delim: u8) -> (r: Result<&'a [u8], SliceError>)
        ensures
            match r {
                Ok(piece) => {
                    &&& old(self)@.contains(delim)
                    &&& piece@ == token(old(self)@, delim)
                    &&& final(self)@ == after_token(old(self)@, delim)
                },
                Err(e) => {
                    &&& !old(self)@.contains(delim)
                    &&& e == SliceError::ExpectedToken(delim)
                    &&& final(self)@ == old(self)@
                },
            },
    {
        let buffer = self.buffer;
        let len = buffer.len();
        for i in 0..len
            invariant
                len == buffer@.len(),
                buffer@ == old(self)@,
                self.buffer@ == old(self)@,
                forall|j: int| 0 <= j < i ==> buffer@[j] != delim,
        {
            if buffer[i] == delim {
                let ret = &buffer[0..i];
                self.buffer = &buffer[i + 1..len];
                proof {
                    lemma_first_index_at(buffer@, delim, i as int);
                    lemma_first_index(buffer@, delim);
                }
                return Ok(ret);
            }
        }
        proof {
            lemma_first_index_at(buffer@, delim, len as int);
            lemma_first_index(buffer@, delim);
        }
        Err(SliceError::ExpectedToken(delim))
    }

    /// Like `slice_to`, but where `delim` does not occur, returns all that is
    /// left and leaves the cursor at the end.
    pub fn slice_to_or_remainder(&mut self, delim: u8) -> (piece: &'a [u8])
        ensures
            piece@ == token(old(self)@, delim),
            final(self)@ == after_token(old(self)@, delim),
    {
        match self.slice_to(delim) {
            Ok(slice) => slice,
            Err(_) => {
                let ret = self.buffer;
                let len = ret.len();
                self.buffer = &ret[len..len];
                proof {
                    lemma_first_index(ret@, delim);
                    assert(ret@.take(ret@.len() as int) =~= ret@);
                    assert(self.buffer@ =~= Seq::<u8>::empty());
                }
                ret
            },
        }
    }

    /// Moves past `s` if the unconsumed bytes begin with it. Otherwise
    /// nothing is consumed.
    pub fn discard(&mut self, s: &[u8]) -> (r: Result<(), SliceError>)
        ensures
            match r {
                Ok(_) => {
                    &&& s@.is_prefix_of(old(self)@)
                    &&& final(self)@ == old(self)@.skip(s@.len() as int)
                },
                Err(e) => {
                    &&& !s@.is_prefix_of(old(self)@)
                    &&& e == SliceError::UnexpectedTokens
                    &&& final(self)@ == old(self)@
                },
            },
    {
        let buffer = self.buffer;
        let len = buffer.len();
        let n = s.len();
        if len < n {
            return Err(SliceError::UnexpectedTokens);
        }
        for i in 0..n
            invariant
                n == s@.len(),
                len == buffer@.len(),
                n <= len,
                buffer@ == old(self)@,
                self.buffer@ == old(self)@,
                forall|j: int| 0 <= j < i ==> buffer@[j] == s@[j],
        {
            if buffer[i] != s[i] {
                return Err(SliceError::UnexpectedTokens);
            }
        }
        self.buffer = &buffer[n..len];
        proof {
            assert(buffer@.subrange(0, n as int) =~= s@);
        }
        Ok(())
    }
}

/// The pieces of a buffer that holds the delimiter are its first token
/// followed by the pieces of what comes after; a buffer without the
/// delimiter is its own single piece.
pub proof fn lemma_nth_piece(s: Seq<u8>, delim: u8, n: nat)
    ensures
        nth_piece(s, delim, 0) == Some(token(s, delim)),
        n > 0 && s.contains(delim) ==> nth_piece(s, delim, n) == nth_piece(
            after_token(s, delim),
            delim,
            (n - 1) as nat,
        ),
        n > 0 && !s.contains(delim) ==> nth_piece(s, delim, n) is None,
{
    lemma_first_index(s, delim);
    if s.contains(delim) {
        let rest = split(after_token(s, delim), delim);
        assert(split(s, delim) == seq![token(s, delim)] + rest);
        if 0 < n < split(s, delim).len() {
            assert(split(s, delim)[n as int] == rest[n - 1]);
        }
    } else {
        assert(s.take(s.len() as int) =~= s);
    }
}

/// The first piece of a buffer is its first token, and the other pieces are
/// those of what comes after that token: none, where the delimiter does not occur.
pub proof fn lemma_split_first(s: Seq<u8>, delim: u8)
    ensures
        split(s, delim).len() > 0,
        split(s, delim)[0] == token(s, delim),
        s.contains(delim) ==> split(s, delim).drop_first() == split(after_token(s, delim), delim),
        !s.contains(delim) ==> split(s, delim).len() == 1 && token(s, delim) == s,
{
    lemma_first_index(s, delim);
    if s.contains(delim) {
        assert(split(s, delim).drop_first() =~= split(after_token(s, delim), delim));
    } else {
        assert(s.take(s.len() as int) =~= s);
    }
}

/// Returns the `n`-th piece of `s` between occurrences of `delim`.
pub fn nth_token<'a>(s: &'a [u8], delim: u8, n: usize) -> (r: Option<&'a [u8]>)
    ensures
        match r {
            Some(piece) => nth_piece(s@, delim, n as nat) == Some(piece@),
            None => nth_piece(s@, delim, n as nat) is None,
        },
{
    let mut slicer = Slicer::new(s);
    let mut k: usize = 0;
    loop
        invariant
            k <= n,
            nth_piece(s@, delim, n as nat) == nth_piece(slicer@, delim, (n - k) as nat),
        decreases slicer@.len(),
    {
        proof {
            lemma_nth_piece(slicer@, delim, (n - k) as nat);
            lemma_first_index(slicer@, delim);
        }
        match slicer.slice_to(delim) {
            Ok(piece) => {
                if k == n {
                    return Some(piece);
                }
                k += 1;
            },
            Err(_) => {
                if k == n {
                    proof {
                        assert(slicer@.take(slicer@.len() as int) =~= slicer@);
                    }
                    return Some(slicer.buffer);
                }
                return None;
            },
        }
    }
}

} // verus!
