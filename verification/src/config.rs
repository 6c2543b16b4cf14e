//! Which of the four metrics a scan is asked for.

use vstd::prelude::*;

verus! {

/// Four independent requests: any subset may be active. Immutable for
/// the duration of a scan.
#[derive(Debug, Clone, Copy)]
pub struct Config {
    pub bytes: bool,
    pub chars: bool,
    pub words: bool,
    pub lines: bool,
}

/// One name per requested metric, in the fixed order bytes, chars,
/// words, lines.
pub open spec fn names_of(c: Config) -> Seq<Seq<char>> {
    opt_name(c.bytes, "bytes"@) + opt_name(c.chars, "chars"@) + opt_name(c.words, "words"@)
        + opt_name(c.lines, "lines"@)
}

pub open spec fn opt_name(on: bool, name: Seq<char>) -> Seq<Seq<char>> {
    if on {
        seq![name]
    } else {
        Seq::empty()
    }
}

impl Config {
    /// The column headers for the requested metrics, left to right in
    /// the fixed order bytes, chars, words, lines.
    pub fn to_vec(&self) -> (v: Vec<&'static str>)
        ensures
            v@.len() == names_of(*self).len(),
            forall|i: int| 0 <= i < v@.len() ==> (#[trigger] v@[i])@ == names_of(*self)[i],
    {
        let mut v: Vec<&'static str> = Vec::new();
        if self.bytes {
            v.push("bytes");
        }
        proof {
            assert(v@.map_values(|s: &str| s@) =~= opt_name(self.bytes, "bytes"@));
        }
        if self.chars {
            v.push("chars");
        }
        proof {
            assert(v@.map_values(|s: &str| s@) =~= opt_name(self.bytes, "bytes"@) + opt_name(
                self.chars,
                "chars"@,
            ));
        }
        if self.words {
            v.push("words");
        }
        proof {
            assert(v@.map_values(|s: &str| s@) =~= opt_name(self.bytes, "bytes"@) + opt_name(
                self.chars,
                "chars"@,
            ) + opt_name(self.words, "words"@));
        }
        if self.lines {
            v.push("lines");
        }
        proof {
            assert(v@.map_values(|s: &str| s@) =~= names_of(*self));
            assert(forall|i: int|
                0 <= i < v@.len() ==> (#[trigger] v@[i])@ == v@.map_values(|s: &str| s@)[i]);
        }
        v
    }
}

} // verus!
