//! The laws the scanners obey, stated over the contracts alone: any
//! results that meet the scanning contracts are pinned down by them, so
//! these hold of every run, whatever chunk sizes the runs used.

use vstd::prelude::*;

use crate::count::Error;
use crate::count::binary_matches;
use crate::count::fast_matches;
use crate::count::utf8_matches;
use crate::encoding::head_scalar_ok;
use crate::encoding::lead_len;
use crate::encoding::utf8_ok;
use crate::scan::char_count;
use crate::scan::line_count;
use crate::scan::wcount;
use crate::scan::word_count;
use crate::scan::wstate;

verus! {

/// Raw scans of the same bytes agree, whatever chunk sizes they used,
/// and the byte total is the length of the input.
pub proof fn lemma_binary_chunk_independent(
    r1: (usize, usize, usize),
    r2: (usize, usize, usize),
    s: Seq<u8>,
)
    requires
        binary_matches(r1, s),
        binary_matches(r2, s),
    ensures
        r1 == r2,
        r1.0 == s.len(),
{
}

/// Scanning the same immutable bytes twice under the decoding path
/// yields the identical outcome, counts and error alike.
pub proof fn lemma_scan_deterministic(
    r1: Result<(usize, usize, usize, usize), Error>,
    r2: Result<(usize, usize, usize, usize), Error>,
    s: Seq<u8>,
)
    requires
        utf8_matches(r1, s),
        utf8_matches(r2, s),
    ensures
        r1 == r2,
{
}

/// A sequence of bytes below 0x80 is valid UTF-8, with one scalar value
/// per byte.
pub proof fn lemma_ascii_valid(s: Seq<u8>)
    requires
        forall|i: int| 0 <= i < s.len() ==> s[i] < 128,
    ensures
        utf8_ok(s),
        char_count(s) == s.len(),
    decreases s.len(),
{
    if s.len() > 0 {
        assert(lead_len(s[0]) == 1);
        assert(head_scalar_ok(s));
        lemma_ascii_valid(s.skip(1));
    }
}

/// On ASCII input the raw path and the decoding path agree: the decode
/// succeeds, and its word and line totals equal the raw scan's.
pub proof fn lemma_ascii_path_parity(
    rb: (usize, usize, usize),
    ru: Result<(usize, usize, usize, usize), Error>,
    s: Seq<u8>,
)
    requires
        binary_matches(rb, s),
        utf8_matches(ru, s),
        forall|i: int| 0 <= i < s.len() ==> s[i] < 128,
    ensures
        ru matches Ok(c) && c.0 == rb.0 && c.1 == rb.0 && c.2 == rb.1 && c.3 == rb.2,
{
    lemma_ascii_valid(s);
}

/// The fast byte-and-line path is purely an optimization: restricted to
/// bytes and lines it reports exactly what the raw scan reports.
pub proof fn lemma_fast_line_parity(rf: (usize, usize), rb: (usize, usize, usize), s: Seq<u8>)
    requires
        fast_matches(rf, s),
        binary_matches(rb, s),
    ensures
        rf.0 == rb.0,
        rf.1 == rb.2,
{
}

/// An empty source yields zero for every metric, with no error.
pub proof fn lemma_empty_source(
    rb: (usize, usize, usize),
    ru: Result<(usize, usize, usize, usize), Error>,
    s: Seq<u8>,
)
    requires
        s.len() == 0,
        binary_matches(rb, s),
        utf8_matches(ru, s),
    ensures
        rb.0 == 0 && rb.1 == 0 && rb.2 == 0,
        ru matches Ok(c) && c.0 == 0 && c.1 == 0 && c.2 == 0 && c.3 == 0,
{
    assert(s =~= Seq::<u8>::empty());
    assert(utf8_ok(s));
    assert(char_count(s) == 0);
    assert(wcount(s, false) == 0);
    assert(!wstate(s, false));
    assert(word_count(s) == 0);
    assert(line_count(s) == 0);
}

} // verus!
