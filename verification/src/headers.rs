//! Request headers.

use vstd::prelude::*;

use crate::error::{Error, Result};
use crate::pairmap::{non_empty, render, set_all, spec_pair, Entries, PairMap};
use crate::text::{lines, lines_exec, split_once_exec};

verus! {

/// What separates the name of a header from its value: `": "`.
pub open spec fn header_sep() -> Seq<char> {
    seq![':', ' ']
}

/// Headers, by name.
pub struct Headers(pub PairMap);

impl View for Headers {
    type V = Entries;

    open spec fn view(&self) -> Entries {
        self.0@
    }
}

impl Default for Headers {
    fn default() -> (r: Self)
        ensures
            r@ == Seq::<(Seq<char>, Seq<char>)>::empty(),
    {
        Headers(PairMap::new())
    }
}

impl Headers {
    /// The file content read as headers: one `name: value` per line; empty
    /// lines are skipped. Fails on the first line without `": "`.
    pub fn parse(file_content: &str) -> (r: Result<Self>)
        ensures
            r is Ok == set_all(Seq::empty(), non_empty(lines(file_content@)), header_sep()).1,
            r matches Ok(h) ==> h@ == set_all(
                Seq::empty(),
                non_empty(lines(file_content@)),
                header_sep(),
            ).0,
            r is Err ==> r matches Err(Error::KeymapSet),
    {
        let mut headers = Headers::default();
        let ls = lines_exec(file_content);
        proof {
            reveal_strlit(": ");
            assert(": "@ =~= header_sep());
        }
        match headers.0.set_lines(&ls, ": ") {
            Ok(()) => Ok(headers),
            Err(e) => Err(e),
        }
    }

    /// Reads `input` as `name: value`.
    pub fn pair(input: &str) -> (r: Option<(String, String)>)
        ensures
            r matches Some((k, v)) ==> spec_pair(input@, header_sep()) == Some((k@, v@)),
            r is None ==> spec_pair(input@, header_sep()) is None,
    {
        proof {
            reveal_strlit(": ");
            assert(": "@ =~= header_sep());
        }
        split_once_exec(input, ": ")
    }

    /// Reads `input` as `name: value` and sets that header.
    pub fn set(&mut self, input: &str) -> (r: Result)
        ensures
            match spec_pair(input@, header_sep()) {
                Some((k, v)) => r is Ok && final(self)@ == crate::pairmap::pm_insert(old(self)@, k, v),
                None => r matches Err(Error::KeymapSet) && final(self)@ == old(self)@,
            },
    {
        proof {
            reveal_strlit(": ");
            assert(": "@ =~= header_sep());
        }
        self.0.set_pair(input, ": ")
    }

    /// One `name: value` line per header.
    pub fn to_string(&self) -> (r: String)
        ensures
            r@ == render(self@, header_sep()),
    {
        proof {
            reveal_strlit(": ");
            assert(": "@ =~= header_sep());
        }
        self.0.render(": ")
    }
}

} // verus!
