//! The byte-level counting model and the streaming scan state.
//!
//! Every scanner in this crate is specified against the four spec functions
//! below: a byte total is a sequence length, a line total counts line-feed
//! bytes, a word total counts maximal runs of non-whitespace bytes, and a
//! character total counts the bytes that are not UTF-8 continuation bytes
//! (for valid UTF-8 input that is exactly one byte per scalar value, the
//! lead byte).

use vstd::prelude::*;

verus! {

/// ASCII whitespace, the only word boundary this crate recognises:
/// space, horizontal tab, line feed, form feed, carriage return.
pub open spec fn is_ws(b: u8) -> bool {
    b == 32 || b == 9 || b == 10 || b == 12 || b == 13
}

/// How often the byte `t` occurs in `s`.
pub open spec fn count_occ(s: Seq<u8>, t: u8) -> nat
    decreases s.len(),
{
    if s.len() == 0 {
        0
    } else {
        (if s[0] == t { 1nat } else { 0nat }) + count_occ(s.skip(1), t)
    }
}

/// Lines are terminated by a line feed; the count is the number of line feeds.
pub open spec fn line_count(s: Seq<u8>) -> nat {
    count_occ(s, 10)
}

/// A UTF-8 continuation byte.
pub open spec fn is_cont(b: u8) -> bool {
    128 <= b && b < 192
}

/// The number of bytes in `s` that are not continuation bytes. For valid
/// UTF-8 this is the number of scalar values, since every scalar value is
/// encoded as one lead byte followed only by continuation bytes.
pub open spec fn char_count(s: Seq<u8>) -> nat
    decreases s.len(),
{
    if s.len() == 0 {
        0
    } else {
        (if is_cont(s[0]) { 0nat } else { 1nat }) + char_count(s.skip(1))
    }
}

/// The number of words closed while scanning `s`, starting with the flag
/// `in_word` saying whether a word was already open. A whitespace byte
/// closes an open word; a trailing open word is not counted here.
pub open spec fn wcount(s: Seq<u8>, in_word: bool) -> nat
    decreases s.len(),
{
    if s.len() == 0 {
        0
    } else if is_ws(s[0]) {
        (if in_word { 1nat } else { 0nat }) + wcount(s.skip(1), false)
    } else {
        wcount(s.skip(1), true)
    }
}

/// Whether a word is still open after scanning `s`, starting from `in_word`.
pub open spec fn wstate(s: Seq<u8>, in_word: bool) -> bool
    decreases s.len(),
{
    if s.len() == 0 {
        in_word
    } else {
        wstate(s.skip(1), !is_ws(s[0]))
    }
}

/// The number of maximal runs of non-whitespace bytes in `s`: the words
/// closed during the scan plus the trailing open word, if any.
pub open spec fn word_count(s: Seq<u8>) -> nat {
    wcount(s, false) + (if wstate(s, false) { 1nat } else { 0nat })
}

pub proof fn lemma_count_occ_push(s: Seq<u8>, b: u8, t: u8)
    ensures
        count_occ(s.push(b), t) == count_occ(s, t) + (if b == t { 1nat } else { 0nat }),
    decreases s.len(),
{
    if s.len() == 0 {
        assert(s.push(b)[0] == b);
        assert(s.push(b).skip(1) =~= Seq::<u8>::empty());
        assert(count_occ(s.push(b), t) == (if s.push(b)[0] == t { 1nat } else { 0nat })
            + count_occ(s.push(b).skip(1), t));
        assert(count_occ(s.push(b).skip(1), t) == 0);
        assert(count_occ(s, t) == 0);
    } else {
        assert(s.push(b)[0] == s[0]);
        assert(s.push(b).skip(1) =~= s.skip(1).push(b));
        lemma_count_occ_push(s.skip(1), b, t);
    }
}

pub proof fn lemma_char_count_push(s: Seq<u8>, b: u8)
    ensures
        char_count(s.push(b)) == char_count(s) + (if is_cont(b) { 0nat } else { 1nat }),
    decreases s.len(),
{
    if s.len() == 0 {
        assert(s.push(b)[0] == b);
        assert(s.push(b).skip(1) =~= Seq::<u8>::empty());
        assert(char_count(s.push(b).skip(1)) == 0);
        assert(char_count(s) == 0);
    } else {
        assert(s.push(b)[0] == s[0]);
        assert(s.push(b).skip(1) =~= s.skip(1).push(b));
        lemma_char_count_push(s.skip(1), b);
    }
}

pub proof fn lemma_words_push(s: Seq<u8>, b: u8, iw: bool)
    ensures
        wcount(s.push(b), iw) == wcount(s, iw) + (if is_ws(b) && wstate(s, iw) {
            1nat
        } else {
            0nat
        }),
        wstate(s.push(b), iw) == !is_ws(b),
    decreases s.len(),
{
    if s.len() == 0 {
        assert(s.push(b)[0] == b);
        assert(s.push(b).skip(1) =~= Seq::<u8>::empty());
        assert(wcount(s.push(b).skip(1), false) == 0);
        assert(wcount(s.push(b).skip(1), true) == 0);
        assert(wstate(s.push(b).skip(1), !is_ws(b)) == !is_ws(b));
        assert(wcount(s, iw) == 0);
        assert(wstate(s, iw) == iw);
    } else {
        assert(s.push(b)[0] == s[0]);
        assert(s.push(b).skip(1) =~= s.skip(1).push(b));
        lemma_words_push(s.skip(1), b, !is_ws(s[0]));
    }
}

pub proof fn lemma_count_occ_le(s: Seq<u8>, t: u8)
    ensures
        count_occ(s, t) <= s.len(),
    decreases s.len(),
{
    if s.len() > 0 {
        lemma_count_occ_le(s.skip(1), t);
    }
}

pub proof fn lemma_char_count_le(s: Seq<u8>)
    ensures
        char_count(s) <= s.len(),
    decreases s.len(),
{
    if s.len() > 0 {
        lemma_char_count_le(s.skip(1));
    }
}

pub proof fn lemma_wcount_le(s: Seq<u8>, iw: bool)
    ensures
        wcount(s, iw) <= s.len(),
    decreases s.len(),
{
    if s.len() > 0 {
        lemma_wcount_le(s.skip(1), false);
        lemma_wcount_le(s.skip(1), true);
    }
}

/// The closed words plus the trailing open word never exceed the length,
/// granting one extra for a word already open on entry.
pub proof fn lemma_word_total_le(s: Seq<u8>, iw: bool)
    ensures
        wcount(s, iw) + (if wstate(s, iw) { 1nat } else { 0nat }) <= s.len() + (if iw {
            1nat
        } else {
            0nat
        }),
    decreases s.len(),
{
    if s.len() > 0 {
        lemma_word_total_le(s.skip(1), false);
        lemma_word_total_le(s.skip(1), true);
    }
}

/// Splitting a scan at any point changes no count: each of the totals
/// composes over concatenation, threading the open-word flag through.
pub proof fn lemma_count_occ_add(a: Seq<u8>, b: Seq<u8>, t: u8)
    ensures
        count_occ(a + b, t) == count_occ(a, t) + count_occ(b, t),
    decreases a.len(),
{
    if a.len() == 0 {
        assert(a + b =~= b);
    } else {
        assert((a + b)[0] == a[0]);
        assert((a + b).skip(1) =~= a.skip(1) + b);
        lemma_count_occ_add(a.skip(1), b, t);
    }
}

pub proof fn lemma_char_count_add(a: Seq<u8>, b: Seq<u8>)
    ensures
        char_count(a + b) == char_count(a) + char_count(b),
    decreases a.len(),
{
    if a.len() == 0 {
        assert(a + b =~= b);
    } else {
        assert((a + b)[0] == a[0]);
        assert((a + b).skip(1) =~= a.skip(1) + b);
        lemma_char_count_add(a.skip(1), b);
    }
}

pub proof fn lemma_words_add(a: Seq<u8>, b: Seq<u8>, iw: bool)
    ensures
        wcount(a + b, iw) == wcount(a, iw) + wcount(b, wstate(a, iw)),
        wstate(a + b, iw) == wstate(b, wstate(a, iw)),
    decreases a.len(),
{
    if a.len() == 0 {
        assert(a + b =~= b);
    } else {
        assert((a + b)[0] == a[0]);
        assert((a + b).skip(1) =~= a.skip(1) + b);
        lemma_words_add(a.skip(1), b, !is_ws(a[0]));
    }
}

/// The running totals of one scan. The ghost field `hist` records every
/// byte fed so far; the well-formedness predicate ties each running total
/// to the model over `hist`.
pub struct ScanState {
    pub bytes: usize,
    pub chars: usize,
    pub words: usize,
    pub lines: usize,
    pub in_word: bool,
    pub hist: Ghost<Seq<u8>>,
}

impl ScanState {
    /// The running totals agree with the model over everything fed so far.
    pub open spec fn wf(self) -> bool {
        &&& self.bytes == self.hist@.len()
        &&& self.chars == char_count(self.hist@)
        &&& self.words == wcount(self.hist@, false)
        &&& self.lines == line_count(self.hist@)
        &&& self.in_word == wstate(self.hist@, false)
    }

    pub fn new() -> (st: ScanState)
        ensures
            st.wf(),
            st.hist@ == Seq::<u8>::empty(),
    {
        ScanState { bytes: 0, chars: 0, words: 0, lines: 0, in_word: false, hist: Ghost(Seq::empty()) }
    }

    /// Account one byte: a byte is counted, a non-continuation byte is a
    /// character, a line feed ends a line, whitespace closes an open word.
    pub fn step(&mut self, b: u8)
        requires
            old(self).wf(),
            old(self).bytes < usize::MAX,
        ensures
            final(self).wf(),
            final(self).hist@ == old(self).hist@.push(b),
    {
        proof {
            lemma_count_occ_push(self.hist@, b, 10);
            lemma_char_count_push(self.hist@, b);
            lemma_words_push(self.hist@, b, false);
            lemma_count_occ_le(self.hist@, 10);
            lemma_char_count_le(self.hist@);
            lemma_wcount_le(self.hist@, false);
        }
        self.bytes = self.bytes + 1;
        if !(128 <= b && b < 192) {
            self.chars = self.chars + 1;
        }
        if b == 10 {
            self.lines = self.lines + 1;
        }
        if b == 32 || b == 9 || b == 10 || b == 12 || b == 13 {
            if self.in_word {
                self.words = self.words + 1;
                self.in_word = false;
            }
        } else {
            self.in_word = true;
        }
        proof {
            self.hist@ = self.hist@.push(b);
        }
    }

    /// Account every byte of one chunk, in order.
    pub fn feed(&mut self, chunk: &[u8])
        requires
            old(self).wf(),
            old(self).bytes + chunk@.len() <= usize::MAX,
        ensures
            final(self).wf(),
            final(self).hist@ == old(self).hist@ + chunk@,
    {
        let ghost orig = self.hist@;
        let mut j: usize = 0;
        while j < chunk.len()
            invariant
                j <= chunk@.len(),
                self.wf(),
                self.hist@ == orig + chunk@.take(j as int),
                orig.len() + chunk@.len() <= usize::MAX,
            decreases chunk@.len() - j,
        {
            let b = chunk[j];
            self.step(b);
            proof {
                assert(orig + chunk@.take(j + 1) =~= (orig + chunk@.take(j as int)).push(b));
            }
            j = j + 1;
        }
        proof {
            assert(orig + chunk@.take(chunk@.len() as int) =~= orig + chunk@);
        }
    }

    /// The finished word total: the closed words plus a still-open word.
    pub fn total_words(&self) -> (w: usize)
        requires
            self.wf(),
        ensures
            w == word_count(self.hist@),
    {
        proof {
            lemma_word_total_le(self.hist@, false);
        }
        if self.in_word {
            self.words + 1
        } else {
            self.words
        }
    }
}

} // verus!
