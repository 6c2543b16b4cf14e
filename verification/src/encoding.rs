//! Strict UTF-8 validation, and the scanner that carries a possibly
//! incomplete trailing multi-byte sequence across chunk boundaries.
//!
//! Validity is defined byte by byte: a lead byte fixes the length of its
//! scalar value and the admissible range of its first follow byte, which
//! rules out overlong encodings, surrogates and code points past U+10FFFF.

use vstd::prelude::*;

use crate::scan::ScanState;
use crate::scan::char_count;
use crate::scan::count_occ;
use crate::scan::is_cont;
use crate::scan::line_count;
use crate::scan::wcount;
use crate::scan::word_count;
use crate::scan::wstate;

verus! {

/// The encoded length of the scalar value that this lead byte opens,
/// or 0 if no valid scalar value starts with it.
pub open spec fn lead_len(b: u8) -> nat {
    if b < 128 {
        1
    } else if b < 194 {
        0
    } else if b < 224 {
        2
    } else if b < 240 {
        3
    } else if b < 245 {
        4
    } else {
        0
    }
}

/// Whether `b` is admissible as the `j`-th byte (1-based) after the lead
/// byte `lead`. The first follow byte is restricted for the leads 0xE0,
/// 0xED, 0xF0 and 0xF4; every other follow byte is any continuation byte.
pub open spec fn follow_ok(lead: u8, j: int, b: u8) -> bool {
    if j == 1 {
        if lead == 224 {
            160 <= b && b < 192
        } else if lead == 237 {
            128 <= b && b < 160
        } else if lead == 240 {
            144 <= b && b < 192
        } else if lead == 244 {
            128 <= b && b < 144
        } else {
            is_cont(b)
        }
    } else {
        is_cont(b)
    }
}

/// `s` starts with one complete, valid scalar value.
pub open spec fn head_scalar_ok(s: Seq<u8>) -> bool {
    &&& s.len() > 0
    &&& 1 <= lead_len(s[0])
    &&& lead_len(s[0]) <= s.len()
    &&& forall|j: int| 1 <= j < lead_len(s[0]) ==> follow_ok(s[0], j, s[j])
}

/// `s` is a concatenation of complete, valid scalar values: valid UTF-8.
pub open spec fn utf8_ok(s: Seq<u8>) -> bool
    decreases s.len(),
{
    if s.len() == 0 {
        true
    } else if !head_scalar_ok(s) {
        false
    } else {
        utf8_ok(s.skip(lead_len(s[0]) as int))
    }
}

/// `s` is a strict prefix of some valid scalar value: too short to judge,
/// but not yet wrong. The empty sequence counts as such a prefix.
pub open spec fn incomplete_prefix(s: Seq<u8>) -> bool {
    s.len() == 0 || {
        &&& s.len() < lead_len(s[0])
        &&& forall|j: int| 1 <= j < s.len() ==> follow_ok(s[0], j, s[j])
    }
}

/// `s` opens with a conclusive violation: an impossible lead byte, or a
/// follow byte outside its admissible range. No continuation of the
/// stream can make such a head valid.
pub open spec fn doomed(s: Seq<u8>) -> bool {
    s.len() > 0 && (lead_len(s[0]) == 0 || exists|j: int|
        1 <= j < s.len() && j < lead_len(s[0]) && !follow_ok(s[0], j, s[j]))
}

/// A conclusive violation stays one under any continuation of the stream.
pub proof fn lemma_doomed(s: Seq<u8>, ext: Seq<u8>)
    requires
        doomed(s),
    ensures
        !utf8_ok(s + ext),
{
    let t = s + ext;
    assert(t[0] == s[0]);
    if lead_len(s[0]) == 0 {
        assert(!head_scalar_ok(t));
    } else {
        let j = choose|j: int| 1 <= j < s.len() && j < lead_len(s[0]) && !follow_ok(s[0], j, s[j]);
        assert(t[j] == s[j]);
        assert(!head_scalar_ok(t));
    }
}

/// Decoding is prefix-compositional: once a prefix is known to be a whole
/// number of valid scalar values, the rest of the stream decodes on its
/// own terms.
pub proof fn lemma_utf8_concat(a: Seq<u8>, b: Seq<u8>)
    requires
        utf8_ok(a),
    ensures
        utf8_ok(a + b) == utf8_ok(b),
    decreases a.len(),
{
    if a.len() == 0 {
        assert(a + b =~= b);
    } else {
        let n = lead_len(a[0]) as int;
        assert(head_scalar_ok(a));
        let t = a + b;
        assert(t[0] == a[0]);
        assert(forall|j: int| 1 <= j < n ==> t[j] == a[j]);
        assert(head_scalar_ok(t));
        assert(t.skip(n) =~= a.skip(n) + b);
        lemma_utf8_concat(a.skip(n), b);
    }
}

/// One complete scalar value, standing alone, is valid UTF-8.
pub proof fn lemma_scalar_valid(c: Seq<u8>)
    requires
        head_scalar_ok(c),
        c.len() == lead_len(c[0]),
    ensures
        utf8_ok(c),
{
    assert(c.skip(c.len() as int) =~= Seq::<u8>::empty());
    assert(utf8_ok(Seq::<u8>::empty()));
    assert(utf8_ok(c) == utf8_ok(c.skip(lead_len(c[0]) as int)));
}

/// A non-empty incomplete prefix is not valid UTF-8 on its own: this is
/// what fails a stream that ends inside a multi-byte sequence.
pub proof fn lemma_incomplete_not_ok(s: Seq<u8>)
    requires
        incomplete_prefix(s),
        s.len() > 0,
    ensures
        !utf8_ok(s),
{
    assert(!head_scalar_ok(s));
}

fn lead_len_exec(b: u8) -> (n: usize)
    ensures
        n == lead_len(b),
{
    if b < 128 {
        1
    } else if b < 194 {
        0
    } else if b < 224 {
        2
    } else if b < 240 {
        3
    } else if b < 245 {
        4
    } else {
        0
    }
}

fn follow_ok_exec(lead: u8, j: usize, b: u8) -> (r: bool)
    requires
        j >= 1,
    ensures
        r == follow_ok(lead, j as int, b),
{
    if j == 1 {
        if lead == 224 {
            160 <= b && b < 192
        } else if lead == 237 {
            128 <= b && b < 160
        } else if lead == 240 {
            144 <= b && b < 192
        } else if lead == 244 {
            128 <= b && b < 144
        } else {
            128 <= b && b < 192
        }
    } else {
        128 <= b && b < 192
    }
}

/// Split `work` at the last boundary between complete scalar values: on
/// success the prefix up to that boundary is valid and the tail is an
/// incomplete prefix to carry; on failure no continuation of `work` can
/// be decoded at all.
fn utf8_boundary(work: &[u8]) -> (r: Result<usize, ()>)
    ensures
        match r {
            Ok(bdy) => {
                &&& bdy <= work@.len()
                &&& utf8_ok(work@.take(bdy as int))
                &&& incomplete_prefix(work@.skip(bdy as int))
            },
            Err(_) => forall|ext: Seq<u8>| !utf8_ok(work@ + ext),
        },
{
    let len = work.len();
    let mut i: usize = 0;
    loop
        invariant
            i <= len,
            len == work@.len(),
            utf8_ok(work@.take(i as int)),
        decreases len - i,
    {
        if i >= len {
            proof {
                assert(work@.take(len as int) =~= work@);
                assert(work@.skip(len as int) =~= Seq::<u8>::empty());
            }
            return Ok(i);
        }
        let b = work[i];
        let n = lead_len_exec(b);
        let ghost pre = work@.take(i as int);
        let ghost tail = work@.skip(i as int);
        if n == 0 {
            proof {
                assert(tail[0] == b);
                assert(doomed(tail));
                assert forall|ext: Seq<u8>| !utf8_ok(work@ + ext) by {
                    lemma_doomed(tail, ext);
                    assert(pre + (tail + ext) =~= work@ + ext);
                    lemma_utf8_concat(pre, tail + ext);
                }
            }
            return Err(());
        }
        let avail = len - i;
        let lim = if n <= avail {
            n
        } else {
            avail
        };
        let mut j: usize = 1;
        while j < lim
            invariant
                1 <= j <= lim,
                lim <= avail,
                avail == len - i,
                i < len,
                len == work@.len(),
                n == lead_len(b),
                b == work@[i as int],
                lim == (if n <= avail { n as int } else { avail as int }),
                utf8_ok(work@.take(i as int)),
                pre == work@.take(i as int),
                tail == work@.skip(i as int),
                forall|k: int| 1 <= k < j ==> follow_ok(b, k, #[trigger] work@[i + k]),
            decreases lim - j,
        {
            if !follow_ok_exec(b, j, work[i + j]) {
                proof {
                    assert(tail[0] == b);
                    assert(tail[j as int] == work@[i + j]);
                    assert(j < lead_len(tail[0]));
                    assert(doomed(tail));
                    assert forall|ext: Seq<u8>| !utf8_ok(work@ + ext) by {
                        lemma_doomed(tail, ext);
                        assert(pre + (tail + ext) =~= work@ + ext);
                        lemma_utf8_concat(pre, tail + ext);
                    }
                }
                return Err(());
            }
            j = j + 1;
        }
        if n <= avail {
            proof {
                let c = work@.subrange(i as int, i + n);
                assert(c[0] == b);
                assert(forall|k: int| 1 <= k < n ==> c[k] == work@[i + k]);
                assert(head_scalar_ok(c));
                lemma_scalar_valid(c);
                lemma_utf8_concat(pre, c);
                assert(pre + c =~= work@.take(i + n));
            }
            i = i + n;
        } else {
            proof {
                assert(tail[0] == b);
                assert(forall|k: int| 1 <= k < tail.len() ==> tail[k] == work@[i + k]);
                assert(incomplete_prefix(tail));
            }
            return Ok(i);
        }
    }
}

/// A scan that decodes strictly as UTF-8. The counting state covers
/// exactly the decoded bytes; `carry` holds the incomplete trailing
/// sequence waiting for the next chunk, and the ghost `fed` records
/// every byte handed to the scanner so far.
pub struct Utf8Scan {
    pub st: ScanState,
    pub carry: Vec<u8>,
    pub fed: Ghost<Seq<u8>>,
}

impl Utf8Scan {
    /// The bytes decoded so far: everything fed except the carried tail.
    pub open spec fn done(self) -> Seq<u8> {
        self.fed@.take(self.fed@.len() - self.carry@.len())
    }

    pub open spec fn wf(self) -> bool {
        &&& self.carry@.len() <= self.fed@.len()
        &&& self.carry@ == self.fed@.skip(self.fed@.len() - self.carry@.len())
        &&& self.st.wf()
        &&& self.st.hist@ == self.done()
        &&& utf8_ok(self.done())
        &&& incomplete_prefix(self.carry@)
    }

    pub fn new() -> (s: Utf8Scan)
        ensures
            s.wf(),
            s.fed@ == Seq::<u8>::empty(),
    {
        let s = Utf8Scan { st: ScanState::new(), carry: Vec::new(), fed: Ghost(Seq::empty()) };
        proof {
            assert(s.done() =~= Seq::<u8>::empty());
        }
        s
    }

    /// Decode and count one more chunk. On success the counts cover every
    /// complete scalar value seen so far; on failure the stream as fed,
    /// however it might continue, is conclusively not valid UTF-8.
    pub fn feed(&mut self, chunk: &[u8]) -> (ok: bool)
        requires
            old(self).wf(),
            old(self).st.bytes + old(self).carry@.len() + chunk@.len() <= usize::MAX,
        ensures
            ok ==> final(self).wf() && final(self).fed@ == old(self).fed@ + chunk@,
            !ok ==> forall|ext: Seq<u8>|
                !utf8_ok(old(self).fed@ + chunk@ + ext),
    {
        let ghost done0 = self.st.hist@;
        let mut work: Vec<u8> = Vec::new();
        let mut t: usize = 0;
        while t < self.carry.len()
            invariant
                t <= self.carry@.len(),
                work@ == self.carry@.take(t as int),
                self == old(self),
            decreases self.carry@.len() - t,
        {
            let b = self.carry[t];
            work.push(b);
            t = t + 1;
        }
        proof {
            assert(self.carry@.take(self.carry@.len() as int) =~= self.carry@);
        }
        let mut u: usize = 0;
        while u < chunk.len()
            invariant
                u <= chunk@.len(),
                work@ == self.carry@ + chunk@.take(u as int),
                self == old(self),
            decreases chunk@.len() - u,
        {
            let b = chunk[u];
            work.push(b);
            proof {
                assert(self.carry@ + chunk@.take(u + 1) =~= (self.carry@ + chunk@.take(
                    u as int,
                )).push(b));
            }
            u = u + 1;
        }
        proof {
            assert(self.carry@ + chunk@.take(chunk@.len() as int) =~= self.carry@ + chunk@);
            assert(work@ == self.carry@ + chunk@);
            // everything fed after this call is the decoded prefix plus `work`
            assert(done0 + self.carry@ =~= self.fed@);
            assert(done0 + work@ =~= self.fed@ + chunk@);
        }
        match utf8_boundary(work.as_slice()) {
            Err(_) => {
                proof {
                    assert forall|ext: Seq<u8>| !utf8_ok(old(self).fed@ + chunk@ + ext) by {
                        lemma_utf8_concat(done0, work@ + ext);
                        assert(done0 + (work@ + ext) =~= old(self).fed@ + chunk@ + ext);
                    }
                }
                false
            },
            Ok(bdy) => {
                let mut k: usize = 0;
                while k < bdy
                    invariant
                        k <= bdy,
                        bdy <= work@.len(),
                        self.st.wf(),
                        self.st.hist@ == done0 + work@.take(k as int),
                        done0.len() + work@.len() <= usize::MAX,
                        self.carry == old(self).carry,
                        self.fed == old(self).fed,
                    decreases bdy - k,
                {
                    let b = work[k];
                    self.st.step(b);
                    proof {
                        assert(done0 + work@.take(k + 1) =~= (done0 + work@.take(k as int)).push(
                            b,
                        ));
                    }
                    k = k + 1;
                }
                let mut nc: Vec<u8> = Vec::new();
                let mut q: usize = bdy;
                while q < work.len()
                    invariant
                        bdy <= q <= work@.len(),
                        nc@ == work@.subrange(bdy as int, q as int),
                        self.st.hist@ == done0 + work@.take(bdy as int),
                    decreases work@.len() - q,
                {
                    let b = work[q];
                    nc.push(b);
                    proof {
                        assert(work@.subrange(bdy as int, q + 1) =~= work@.subrange(
                            bdy as int,
                            q as int,
                        ).push(b));
                    }
                    q = q + 1;
                }
                self.carry = nc;
                proof {
                    self.fed@ = old(self).fed@ + chunk@;
                    assert(self.carry@ =~= work@.skip(bdy as int));
                    lemma_utf8_concat(done0, work@.take(bdy as int));
                    assert(self.fed@.len() - self.carry@.len() == done0.len() + bdy);
                    assert(self.done() =~= done0 + work@.take(bdy as int));
                    assert(self.carry@ =~= self.fed@.skip(
                        self.fed@.len() - self.carry@.len(),
                    ));
                }
                true
            },
        }
    }
}

} // verus!
