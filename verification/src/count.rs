//! The scanning drivers and the per-source result model.
//!
//! Each driver consumes its input in chunks of a caller-chosen size, so
//! every contract here holds for any chunk size of at least one byte:
//! the stated counts never depend on where the chunk boundaries fall.

use vstd::prelude::*;
use vstd::slice::slice_subrange;

use crate::config::Config;
use crate::encoding::Utf8Scan;
use crate::encoding::lemma_incomplete_not_ok;
use crate::encoding::lemma_utf8_concat;
use crate::encoding::utf8_ok;
use crate::scan::ScanState;
use crate::scan::char_count;
use crate::scan::count_occ;
use crate::scan::lemma_count_occ_add;
use crate::scan::lemma_count_occ_le;
use crate::scan::line_count;
use crate::scan::word_count;

verus! {

/// What a scan that counts bytes, words and lines must report.
pub open spec fn binary_matches(r: (usize, usize, usize), s: Seq<u8>) -> bool {
    &&& r.0 == s.len()
    &&& r.1 == word_count(s)
    &&& r.2 == line_count(s)
}

/// What a scan that counts only bytes and lines must report.
pub open spec fn fast_matches(r: (usize, usize), s: Seq<u8>) -> bool {
    &&& r.0 == s.len()
    &&& r.1 == line_count(s)
}

/// What a strictly decoding scan must report: full counts on valid
/// UTF-8, and the encoding error otherwise — never partial counts.
pub open spec fn utf8_matches(r: Result<(usize, usize, usize, usize), Error>, s: Seq<u8>) -> bool {
    if utf8_ok(s) {
        r matches Ok(c) && c.0 == s.len() && c.1 == char_count(s) && c.2 == word_count(s) && c.3
            == line_count(s)
    } else {
        r == Err::<(usize, usize, usize, usize), Error>(Error::NotUtf8EncodedFile)
    }
}

/// Count bytes, words and lines over raw bytes, without decoding, reading
/// `chunk` bytes at a time. High bytes count as word characters, so this
/// path never fails on arbitrary binary data.
pub fn binary(data: &Vec<u8>, chunk: usize) -> (r: (usize, usize, usize))
    requires
        chunk >= 1,
    ensures
        binary_matches(r, data@),
{
    let mut st = ScanState::new();
    let mut i: usize = 0;
    proof {
        assert(data@.take(0) =~= Seq::<u8>::empty());
    }
    while i < data.len()
        invariant
            i <= data@.len(),
            chunk >= 1,
            st.wf(),
            st.hist@ == data@.take(i as int),
        decreases data@.len() - i,
    {
        let end = if data.len() - i < chunk {
            data.len()
        } else {
            i + chunk
        };
        let sl = slice_subrange(data.as_slice(), i, end);
        st.feed(sl);
        proof {
            assert(data@.take(i as int) + data@.subrange(i as int, end as int) =~= data@.take(
                end as int,
            ));
        }
        i = end;
    }
    proof {
        assert(data@.take(data@.len() as int) =~= data@);
    }
    let words = st.total_words();
    (st.bytes, words, st.lines)
}

/// Count bytes, characters, words and lines while strictly decoding the
/// stream as UTF-8, reading `chunk` bytes at a time; a multi-byte scalar
/// value split across chunks is carried over, an invalid or incomplete
/// sequence fails the whole scan.
pub fn utf8(data: &Vec<u8>, chunk: usize) -> (r: Result<(usize, usize, usize, usize), Error>)
    requires
        chunk >= 1,
    ensures
        utf8_matches(r, data@),
{
    let mut sc = Utf8Scan::new();
    let mut i: usize = 0;
    proof {
        assert(data@.take(0) =~= Seq::<u8>::empty());
    }
    while i < data.len()
        invariant
            i <= data@.len(),
            chunk >= 1,
            sc.wf(),
            sc.fed@ == data@.take(i as int),
        decreases data@.len() - i,
    {
        let end = if data.len() - i < chunk {
            data.len()
        } else {
            i + chunk
        };
        let sl = slice_subrange(data.as_slice(), i, end);
        let ghost fed0 = sc.fed@;
        let ok = sc.feed(sl);
        if !ok {
            proof {
                let ext = data@.skip(end as int);
                assert(!utf8_ok(fed0 + data@.subrange(i as int, end as int) + ext));
                assert(fed0 + data@.subrange(i as int, end as int) + ext =~= data@);
            }
            return Err(Error::NotUtf8EncodedFile);
        }
        proof {
            assert(data@.take(i as int) + data@.subrange(i as int, end as int) =~= data@.take(
                end as int,
            ));
        }
        i = end;
    }
    proof {
        assert(data@.take(data@.len() as int) =~= data@);
    }
    if sc.carry.len() > 0 {
        proof {
            lemma_incomplete_not_ok(sc.carry@);
            lemma_utf8_concat(sc.done(), sc.carry@);
            assert(sc.done() + sc.carry@ =~= data@);
        }
        return Err(Error::NotUtf8EncodedFile);
    }
    proof {
        assert(sc.done() =~= data@);
    }
    let words = sc.st.total_words();
    Ok((sc.st.bytes, sc.st.chars, words, sc.st.lines))
}

/// Count bytes and lines only, reading `chunk` bytes at a time and
/// delegating the search for line feeds in each chunk to a bulk
/// occurrence count. Purely a narrower, faster path: restricted to bytes
/// and lines it reports exactly what the raw scan reports.
pub fn hyperscreamingcount(data: &Vec<u8>, chunk: usize) -> (r: (usize, usize))
    requires
        chunk >= 1,
    ensures
        fast_matches(r, data@),
{
    let mut bytes: usize = 0;
    let mut lines: usize = 0;
    let mut i: usize = 0;
    while i < data.len()
        invariant
            i <= data@.len(),
            chunk >= 1,
            bytes == i,
            lines == line_count(data@.take(i as int)),
        decreases data@.len() - i,
    {
        let end = if data.len() - i < chunk {
            data.len()
        } else {
            i + chunk
        };
        let sl = slice_subrange(data.as_slice(), i, end);
        proof {
            lemma_count_occ_le(data@.take(i as int), 10);
            lemma_count_occ_le(data@.subrange(i as int, end as int), 10);
            lemma_count_occ_add(data@.take(i as int), data@.subrange(i as int, end as int), 10);
            assert(data@.take(i as int) + data@.subrange(i as int, end as int) =~= data@.take(
                end as int,
            ));
        }
        bytes = bytes + sl.len();
        lines = lines + count_newlines(sl);
        i = end;
    }
    proof {
        assert(data@.take(data@.len() as int) =~= data@);
    }
    (bytes, lines)
}

/// Relies on bytecount::count: the number of occurrences of `needle` in
/// `haystack`, which can never exceed the slice length.
#[verifier::external_body]
fn count_newlines(haystack: &[u8]) -> (r: usize)
    ensures
        r == count_occ(haystack@, 10),
{
    bytecount::count(haystack, b'\n')
}

/// Where a batch entry came from.
#[derive(Debug, PartialEq, Eq)]
pub enum Context {
    File { path: String },
}

/// The outcome of one successful scan: a count is present exactly for
/// the metrics that were requested for that source.
#[derive(Debug, PartialEq, Eq)]
pub struct Count {
    pub context: Context,
    pub bytes: Option<usize>,
    pub chars: Option<usize>,
    pub words: Option<usize>,
    pub lines: Option<usize>,
}

/// The requested counts of `c`, in the fixed order bytes, chars, words,
/// lines, with the absent ones left out.
pub open spec fn counts_seq(c: Count) -> Seq<usize> {
    opt_seq(c.bytes) + opt_seq(c.chars) + opt_seq(c.words) + opt_seq(c.lines)
}

pub open spec fn opt_seq(o: Option<usize>) -> Seq<usize> {
    match o {
        Option::Some(x) => seq![x],
        Option::None => Seq::empty(),
    }
}

/// The name of the source this count belongs to.
pub open spec fn group_of(c: Count) -> Seq<char> {
    match c.context {
        Context::File { path } => path@,
    }
}

impl Count {
    /// The present counts in display order: bytes, chars, words, lines.
    pub fn to_counts_vec(&self) -> (v: Vec<usize>)
        ensures
            v@ == counts_seq(*self),
    {
        let mut v: Vec<usize> = Vec::new();
        if let Option::Some(bytes) = self.bytes {
            v.push(bytes);
        }
        if let Option::Some(chars) = self.chars {
            v.push(chars);
        }
        if let Option::Some(words) = self.words {
            v.push(words);
        }
        if let Option::Some(lines) = self.lines {
            v.push(lines);
        }
        proof {
            assert(v@ =~= counts_seq(*self));
        }
        v
    }

    /// The source name followed by the present counts rendered in decimal.
    pub fn to_str_vec(&self) -> (v: Vec<String>)
        ensures
            v@.len() == counts_seq(*self).len() + 1,
            v@[0]@ == group_of(*self),
            forall|i: int|
                1 <= i < v@.len() ==> (#[trigger] v@[i])@ == crate::render::dec_digits(
                    counts_seq(*self)[i - 1] as nat,
                ),
    {
        let mut v: Vec<String> = Vec::new();
        v.push(self.groupname());
        let counts = self.to_counts_vec();
        let mut i: usize = 0;
        while i < counts.len()
            invariant
                i <= counts@.len(),
                counts@ == counts_seq(*self),
                v@.len() == i + 1,
                v@[0]@ == group_of(*self),
                forall|k: int|
                    1 <= k < v@.len() ==> (#[trigger] v@[k])@ == crate::render::dec_digits(
                        counts_seq(*self)[k - 1] as nat,
                    ),
            decreases counts@.len() - i,
        {
            let s = crate::render::usize_to_string(counts[i]);
            v.push(s);
            i = i + 1;
        }
        v
    }

    /// The name of the source this count belongs to.
    pub fn groupname(&self) -> (s: String)
        ensures
            s@ == group_of(*self),
    {
        match &self.context {
            Context::File { path } => path.clone(),
        }
    }
}

/// Why a source produced no counts: its bytes are not valid UTF-8 under
/// a decoding scan, or it could not be read at all.
#[derive(Debug, PartialEq, Eq)]
pub enum Error {
    NotUtf8EncodedFile,
    Io,
}

/// The bytes of one source as handed to the engine: either its full
/// content, or the mark that reading it failed.
#[derive(Debug, PartialEq, Eq)]
pub enum SourceData {
    Content(Vec<u8>),
    Unreadable,
}

/// One input of a batch: a name to report under, and its bytes.
#[derive(Debug, PartialEq, Eq)]
pub struct Source {
    pub path: String,
    pub data: SourceData,
}

/// The exact outcome `file` owes for one source: the I/O error for an
/// unreadable source, the encoding error when characters were requested
/// of bytes that are not valid UTF-8, and otherwise a count holding
/// exactly the requested metrics.
pub open spec fn file_result_matches(src: Source, config: Config, r: Result<Count, Error>) -> bool {
    match src.data {
        SourceData::Unreadable => r == Err::<Count, Error>(Error::Io),
        SourceData::Content(d) => {
            if config.chars && !utf8_ok(d@) {
                r == Err::<Count, Error>(Error::NotUtf8EncodedFile)
            } else {
                r matches Ok(c) && group_of(c) == src.path@ && c.bytes == (if config.bytes {
                    Option::Some(d@.len() as usize)
                } else {
                    Option::None
                }) && c.chars == (if config.chars {
                    Option::Some(char_count(d@) as usize)
                } else {
                    Option::None
                }) && c.words == (if config.words {
                    Option::Some(word_count(d@) as usize)
                } else {
                    Option::None
                }) && c.lines == (if config.lines {
                    Option::Some(line_count(d@) as usize)
                } else {
                    Option::None
                })
            }
        },
    }
}

/// Scan one source under `config`: decode strictly when characters are
/// requested, otherwise scan raw bytes, skipping the per-byte loop when
/// only the byte total is wanted.
pub fn file(src: &Source, config: &Config) -> (r: Result<Count, Error>)
    ensures
        file_result_matches(*src, *config, r),
{
    match &src.data {
        SourceData::Unreadable => Err(Error::Io),
        SourceData::Content(d) => {
            if config.chars {
                match utf8(d, BUFFER_SIZE) {
                    Ok((bytes, chars, words, lines)) => Ok(Count {
                        context: Context::File { path: src.path.clone() },
                        bytes: if config.bytes {
                            Option::Some(bytes)
                        } else {
                            Option::None
                        },
                        chars: Option::Some(chars),
                        words: if config.words {
                            Option::Some(words)
                        } else {
                            Option::None
                        },
                        lines: if config.lines {
                            Option::Some(lines)
                        } else {
                            Option::None
                        },
                    }),
                    Err(e) => Err(e),
                }
            } else if !config.words && !config.lines {
                Ok(Count {
                    context: Context::File { path: src.path.clone() },
                    bytes: if config.bytes {
                        Option::Some(d.len())
                    } else {
                        Option::None
                    },
                    chars: Option::None,
                    words: Option::None,
                    lines: Option::None,
                })
            } else {
                let (bytes, words, lines) = binary(d, BUFFER_SIZE);
                Ok(Count {
                    context: Context::File { path: src.path.clone() },
                    bytes: if config.bytes {
                        Option::Some(bytes)
                    } else {
                        Option::None
                    },
                    chars: Option::None,
                    words: if config.words {
                        Option::Some(words)
                    } else {
                        Option::None
                    },
                    lines: if config.lines {
                        Option::Some(lines)
                    } else {
                        Option::None
                    },
                })
            }
        },
    }
}

/// Scan a batch of sources independently: one outcome per source, in
/// input order, a failed source never aborting the rest.
pub fn files(sources: &Vec<Source>, config: &Config) -> (r: Vec<Result<Count, Error>>)
    ensures
        r@.len() == sources@.len(),
        forall|i: int|
            0 <= i < r@.len() ==> file_result_matches(sources@[i], *config, #[trigger] r@[i]),
{
    let mut r: Vec<Result<Count, Error>> = Vec::new();
    let mut i: usize = 0;
    while i < sources.len()
        invariant
            i <= sources@.len(),
            r@.len() == i,
            forall|k: int|
                0 <= k < r@.len() ==> file_result_matches(sources@[k], *config, #[trigger] r@[k]),
        decreases sources@.len() - i,
    {
        let outcome = file(&sources[i], config);
        r.push(outcome);
        i = i + 1;
    }
    r
}

/// The chunk size the scanning drivers read with: a tuning constant, not
/// a correctness constraint — every contract above holds for any chunk
/// size of at least one byte.
pub const BUFFER_SIZE: usize = 1048576;

} // verus!
