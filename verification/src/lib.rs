//! A streaming counter of bytes, characters, words and lines.
//!
//! The engine scans a byte stream once, in fixed-size chunks, and
//! produces exact counts without loading the whole input at once,
//! carrying the state that spans chunk boundaries — a word split across
//! two reads, a multi-byte UTF-8 sequence split across two reads — and
//! strictly distinguishing valid UTF-8 text from arbitrary binary data.

use vstd::prelude::*;

pub mod config;
pub mod count;
pub mod encoding;
pub mod laws;
pub mod render;
pub mod scan;

pub use crate::config::Config;
pub use crate::count::file;
pub use crate::count::files;

use crate::count::BUFFER_SIZE;
use crate::count::Error;
use crate::count::binary;
use crate::count::hyperscreamingcount;
use crate::count::utf8;
use crate::encoding::utf8_ok;
use crate::scan::char_count;
use crate::scan::line_count;
use crate::scan::word_count;

verus! {

/// The four metrics of one finished scan, each present exactly when it
/// was requested.
#[derive(Debug, PartialEq, Eq)]
pub struct Counted {
    pub bytes: Option<usize>,
    pub chars: Option<usize>,
    pub words: Option<usize>,
    pub lines: Option<usize>,
}

/// The `Counted` owed for the byte sequence `s` when the four metrics
/// are requested as given.
pub open spec fn counted_of(bytes: bool, chars: bool, words: bool, lines: bool, s: Seq<u8>) -> Counted {
    Counted {
        bytes: if bytes {
            Option::Some(s.len() as usize)
        } else {
            Option::None
        },
        chars: if chars {
            Option::Some(char_count(s) as usize)
        } else {
            Option::None
        },
        words: if words {
            Option::Some(word_count(s) as usize)
        } else {
            Option::None
        },
        lines: if lines {
            Option::Some(line_count(s) as usize)
        } else {
            Option::None
        },
    }
}

/// The outcome owed for the byte sequence `s`: the encoding error when a
/// character count was requested of bytes that are not valid UTF-8, and
/// otherwise exactly the requested counts.
pub open spec fn scan_outcome(bytes: bool, chars: bool, words: bool, lines: bool, s: Seq<u8>) -> Result<Counted, Error> {
    if chars && !utf8_ok(s) {
        Result::Err(Error::NotUtf8EncodedFile)
    } else {
        Result::Ok(counted_of(bytes, chars, words, lines, s))
    }
}

/// A source that can run one scan and report the requested counts.
pub trait Count<T> {
    /// The exact outcome this counter owes.
    spec fn count_spec(self) -> Result<Counted, Error>;

    fn count(self) -> (r: Result<Counted, Error>)
        ensures
            r == self.count_spec(),
    ;
}

/// A source that can be turned into a counter with nothing requested yet.
pub trait Countable<T> {
    /// The data the counter will scan.
    spec fn as_counted_data(self) -> T;

    fn countable(self) -> (c: Counter<T>)
        ensures
            !c.bytes && !c.chars && !c.words && !c.lines,
            c.data == self.as_counted_data(),
    ;
}

/// A generic byte stream already in memory, scanned from the front with
/// no out-of-band length metadata: the stand-in for standard input, a
/// pipe, or an opened handle.
#[derive(Debug)]
pub struct MemSource {
    pub data: Vec<u8>,
}

/// A source addressed as a whole file, whose length is known without
/// scanning: the one source kind allowed to resolve a byte-only request
/// from metadata instead of reading the stream.
#[derive(Debug)]
pub struct FileSource {
    pub data: Vec<u8>,
}

/// A source paired with the set of metrics requested of it.
#[derive(Debug)]
pub struct Counter<T> {
    pub data: T,
    pub bytes: bool,
    pub chars: bool,
    pub words: bool,
    pub lines: bool,
}

impl Countable<MemSource> for MemSource {
    open spec fn as_counted_data(self) -> MemSource {
        self
    }

    fn countable(self) -> (c: Counter<MemSource>) {
        Counter { data: self, bytes: false, chars: false, words: false, lines: false }
    }
}

impl Countable<FileSource> for FileSource {
    open spec fn as_counted_data(self) -> FileSource {
        self
    }

    fn countable(self) -> (c: Counter<FileSource>) {
        Counter { data: self, bytes: false, chars: false, words: false, lines: false }
    }
}

impl<T> Counter<T> {
    pub fn bytes(self) -> (c: Counter<T>)
        ensures
            c.bytes == true,
            c.chars == self.chars,
            c.words == self.words,
            c.lines == self.lines,
            c.data == self.data,
    {
        Counter { bytes: true, ..self }
    }

    pub fn chars(self) -> (c: Counter<T>)
        ensures
            c.chars == true,
            c.bytes == self.bytes,
            c.words == self.words,
            c.lines == self.lines,
            c.data == self.data,
    {
        Counter { chars: true, ..self }
    }

    pub fn words(self) -> (c: Counter<T>)
        ensures
            c.words == true,
            c.bytes == self.bytes,
            c.chars == self.chars,
            c.lines == self.lines,
            c.data == self.data,
    {
        Counter { words: true, ..self }
    }

    pub fn lines(self) -> (c: Counter<T>)
        ensures
            c.lines == true,
            c.bytes == self.bytes,
            c.chars == self.chars,
            c.words == self.words,
            c.data == self.data,
    {
        Counter { lines: true, ..self }
    }
}

/// The four ways to resolve a request, picked by the first matching rule:
/// file length metadata for a byte-only request on a file; the decoding
/// scan whenever characters are requested; the bulk line search when
/// lines but no words are requested; and the raw byte scan otherwise.
#[derive(Debug, PartialEq, Eq, Structural)]
pub enum Strategy {
    Metadata,
    Utf8,
    FastLines,
    Binary,
}

/// The decision table: evaluated in priority order, first match wins.
/// Total over all requests, so the table is exhaustive, and each request
/// maps to exactly one path.
pub open spec fn strategy_of(bytes: bool, chars: bool, words: bool, lines: bool, is_file: bool) -> Strategy {
    if is_file && bytes && !chars && !words && !lines {
        Strategy::Metadata
    } else if chars {
        Strategy::Utf8
    } else if lines && !words {
        Strategy::FastLines
    } else {
        Strategy::Binary
    }
}

/// Pick the scan path for a request on a file (`is_file`) or on a
/// generic stream. Only a file may resolve from metadata.
pub fn select_strategy(bytes: bool, chars: bool, words: bool, lines: bool, is_file: bool) -> (s: Strategy)
    ensures
        s == strategy_of(bytes, chars, words, lines, is_file),
{
    if is_file && bytes && !chars && !words && !lines {
        Strategy::Metadata
    } else if chars {
        Strategy::Utf8
    } else if lines && !words {
        Strategy::FastLines
    } else {
        Strategy::Binary
    }
}

/// Scan an in-memory stream under the requested metrics, dispatching on
/// the strategy table with no metadata path available.
pub fn count_readable(counter: Counter<MemSource>) -> (r: Result<Counted, Error>)
    ensures
        r == scan_outcome(
            counter.bytes,
            counter.chars,
            counter.words,
            counter.lines,
            counter.data.data@,
        ),
{
    match select_strategy(counter.bytes, counter.chars, counter.words, counter.lines, false) {
        Strategy::Metadata => unreached(),
        Strategy::Utf8 => match utf8(&counter.data.data, BUFFER_SIZE) {
            Result::Ok((bytes, chars, words, lines)) => Ok(Counted {
                bytes: if counter.bytes {
                    Option::Some(bytes)
                } else {
                    Option::None
                },
                chars: Option::Some(chars),
                words: if counter.words {
                    Option::Some(words)
                } else {
                    Option::None
                },
                lines: if counter.lines {
                    Option::Some(lines)
                } else {
                    Option::None
                },
            }),
            Result::Err(e) => Err(e),
        },
        Strategy::FastLines => {
            let (bytes, lines) = hyperscreamingcount(&counter.data.data, BUFFER_SIZE);
            Ok(Counted {
                bytes: if counter.bytes {
                    Option::Some(bytes)
                } else {
                    Option::None
                },
                chars: Option::None,
                words: Option::None,
                lines: Option::Some(lines),
            })
        },
        Strategy::Binary => {
            let (bytes, words, lines) = binary(&counter.data.data, BUFFER_SIZE);
            Ok(Counted {
                bytes: if counter.bytes {
                    Option::Some(bytes)
                } else {
                    Option::None
                },
                chars: Option::None,
                words: if counter.words {
                    Option::Some(words)
                } else {
                    Option::None
                },
                lines: if counter.lines {
                    Option::Some(lines)
                } else {
                    Option::None
                },
            })
        },
    }
}

impl Count<MemSource> for Counter<MemSource> {
    open spec fn count_spec(self) -> Result<Counted, Error> {
        scan_outcome(self.bytes, self.chars, self.words, self.lines, self.data.data@)
    }

    fn count(self) -> (r: Result<Counted, Error>) {
        count_readable(self)
    }
}

impl Count<FileSource> for Counter<FileSource> {
    open spec fn count_spec(self) -> Result<Counted, Error> {
        scan_outcome(self.bytes, self.chars, self.words, self.lines, self.data.data@)
    }

    /// A byte-only request on a file is resolved from the file's length
    /// without scanning; every other request runs the full scan. Both
    /// branches meet the same outcome, so the two paths agree on the
    /// byte count.
    fn count(self) -> (r: Result<Counted, Error>) {
        if self.bytes && !(self.chars || self.words || self.lines) {
            let len = file_len(&self.data);
            Ok(Counted {
                bytes: Option::Some(len),
                chars: Option::None,
                words: Option::None,
                lines: Option::None,
            })
        } else {
            count_readable(Counter {
                data: MemSource { data: self.data.data },
                bytes: self.bytes,
                chars: self.chars,
                words: self.words,
                lines: self.lines,
            })
        }
    }
}

/// The file's length as metadata reports it: the number of bytes the
/// file holds, read without scanning the stream.
fn file_len(f: &FileSource) -> (n: usize)
    ensures
        n == f.data@.len(),
{
    f.data.len()
}

} // verus!
