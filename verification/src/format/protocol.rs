use vstd::prelude::*;
use crate::codec::subtitle::{starts_with, starts_with_exec};
use crate::util::text::{chars_of, string_of_range};

verus! {

/// Whether `p` occurs in `s`.
pub open spec fn contains_seq(s: Seq<char>, p: Seq<char>) -> bool {
    exists|i: int| 0 <= i <= s.len() && #[trigger] starts_with(s.subrange(i, s.len() as int), p)
}

/// Whether `p` occurs in `cs`.
fn contains_exec(cs: &[char], p: &[char]) -> (r: bool)
    ensures r == contains_seq(cs@, p@),
{
    let n = cs.len();
    if p.len() == 0 {
        assert(cs@.subrange(0, n as int).take(0) =~= p@);
        assert(starts_with(cs@.subrange(0, n as int), p@));
        return true;
    }
    let mut i: usize = 0;
    while i < n
        invariant
            i <= n, n == cs@.len(), p@.len() > 0,
            forall|j: int| 0 <= j < i ==> !#[trigger] starts_with(cs@.subrange(j, n as int), p@),
        decreases n - i,
    {
        if starts_with_exec(cs, i, n, p) {
            return true;
        }
        i += 1;
    }
    assert forall|j: int| 0 <= j <= n implies !#[trigger] starts_with(cs@.subrange(j, n as int), p@) by {
        if j == n {
            assert(cs@.subrange(j, n as int).len() == 0);
        }
    }
    false
}

/// Whether the file protocol takes `url`: a plain path, or a `file://` URL.
pub open spec fn file_handles(url: Seq<char>) -> bool {
    !contains_seq(url, "://"@) || starts_with(url, "file://"@)
}

/// Whether the pipe protocol takes `url`: `pipe:`, `pipe:0`, `pipe:1`, or a
/// `pipe://` URL.
pub open spec fn pipe_handles(url: Seq<char>) -> bool {
    url == "pipe:"@ || url == "pipe:0"@ || url == "pipe:1"@ || starts_with(url, "pipe://"@)
}

/// Local file protocol.
#[derive(Debug, Clone, Copy)]
pub struct FileProtocol;

impl FileProtocol {
    pub fn new() -> (r: Self) {
        FileProtocol
    }

    /// The protocol's name, `file`.
    pub fn name(&self) -> (r: &'static str)
        ensures r@ == "file"@,
    {
        "file"
    }

    /// Whether this protocol takes `url` (see [`file_handles`]).
    pub fn can_handle(&self, url: &str) -> (r: bool)
        ensures r == file_handles(url@),
    {
        let cs = chars_of(url);
        let sep = chars_of("://");
        let scheme = chars_of("file://");
        assert(cs@.subrange(0, cs@.len() as int) =~= cs@);
        !contains_exec(cs.as_slice(), sep.as_slice()) || starts_with_exec(cs.as_slice(), 0, cs.len(), scheme.as_slice())
    }

    /// The path that `url` names: itself, without a leading `file://`.
    pub fn path(&self, url: &str) -> (r: String)
        ensures
            starts_with(url@, "file://"@) ==> r@ == url@.skip("file://"@.len() as int),
            !starts_with(url@, "file://"@) ==> r@ == url@,
    {
        let cs = chars_of(url);
        let scheme = chars_of("file://");
        assert(cs@.subrange(0, cs@.len() as int) =~= cs@);
        if starts_with_exec(cs.as_slice(), 0, cs.len(), scheme.as_slice()) {
            assert(cs@.subrange(scheme@.len() as int, cs@.len() as int) =~= url@.skip(scheme@.len() as int));
            string_of_range(cs.as_slice(), scheme.len(), cs.len())
        } else {
            string_of_range(cs.as_slice(), 0, cs.len())
        }
    }
}

impl Default for FileProtocol {
    fn default() -> (r: Self) {
        FileProtocol
    }
}

/// Pipe protocol: standard input or output, not seekable.
#[derive(Debug, Clone, Copy)]
pub struct PipeProtocol;

impl PipeProtocol {
    pub fn new() -> (r: Self) {
        PipeProtocol
    }

    /// The protocol's name, `pipe`.
    pub fn name(&self) -> (r: &'static str)
        ensures r@ == "pipe"@,
    {
        "pipe"
    }

    /// Whether this protocol takes `url` (see [`pipe_handles`]).
    pub fn can_handle(&self, url: &str) -> (r: bool)
        ensures r == pipe_handles(url@),
    {
        let cs = chars_of(url);
        let scheme = chars_of("pipe://");
        assert(cs@.subrange(0, cs@.len() as int) =~= cs@);
        crate::util::text::str_eq(url, "pipe:") || crate::util::text::str_eq(url, "pipe:0")
            || crate::util::text::str_eq(url, "pipe:1")
            || starts_with_exec(cs.as_slice(), 0, cs.len(), scheme.as_slice())
    }
}

impl Default for PipeProtocol {
    fn default() -> (r: Self) {
        PipeProtocol
    }
}

} // verus!
