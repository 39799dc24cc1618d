//! Resolution of the seed handed to the generator. An explicit checksum is
//! trimmed and checked for emptiness here; obtaining an ambient revision
//! hash (for example from version control) is the embedding program's job,
//! and its absence is reported as an error.

use vstd::prelude::*;
use vstd::string::StrSliceExecFns;
use vstd::string::StringExecFns;

use crate::generator::chars_to_string;

verus! {

/// Why no seed could be resolved.
#[derive(Clone, Copy, Debug, PartialEq, Eq, Structural)]
pub enum ResolveError {
    /// An explicit checksum was given but holds nothing besides whitespace.
    EmptyChecksum,
    /// No explicit checksum was given, and the library cannot query the
    /// ambient version-control system itself.
    ChecksumRequired,
}

impl ResolveError {
    /// A human-readable description of the failure.
    pub fn message(&self) -> (r: String)
        ensures
            *self == ResolveError::EmptyChecksum ==> r@
                == "--checksum must contain at least one hexadecimal character"@,
            *self == ResolveError::ChecksumRequired ==> r@
                == "--checksum required when no revision hash is available"@,
    {
        match self {
            ResolveError::EmptyChecksum => String::from_str(
                "--checksum must contain at least one hexadecimal character",
            ),
            ResolveError::ChecksumRequired => String::from_str(
                "--checksum required when no revision hash is available",
            ),
        }
    }
}

/// A character with the Unicode `White_Space` property, the set the standard
/// library's whitespace trimming removes.
pub open spec fn is_whitespace_char(c: char) -> bool {
    c == ' ' || ('\u{9}' <= c && c <= '\u{D}') || c == '\u{85}' || c == '\u{A0}' || c == '\u{1680}'
        || ('\u{2000}' <= c && c <= '\u{200A}') || c == '\u{2028}' || c == '\u{2029}' || c
        == '\u{202F}' || c == '\u{205F}' || c == '\u{3000}'
}

fn is_whitespace_exec(c: char) -> (r: bool)
    ensures
        r == is_whitespace_char(c),
{
    c == ' ' || ('\u{9}' <= c && c <= '\u{D}') || c == '\u{85}' || c == '\u{A0}' || c == '\u{1680}'
        || ('\u{2000}' <= c && c <= '\u{200A}') || c == '\u{2028}' || c == '\u{2029}' || c
        == '\u{202F}' || c == '\u{205F}' || c == '\u{3000}'
}

/// Drop leading whitespace.
pub open spec fn trim_start(s: Seq<char>) -> Seq<char>
    decreases s.len(),
{
    if s.len() > 0 && is_whitespace_char(s.first()) {
        trim_start(s.drop_first())
    } else {
        s
    }
}

/// Drop trailing whitespace.
pub open spec fn trim_end(s: Seq<char>) -> Seq<char>
    decreases s.len(),
{
    if s.len() > 0 && is_whitespace_char(s.last()) {
        trim_end(s.drop_last())
    } else {
        s
    }
}

/// Drop leading and trailing whitespace, keeping the middle untouched.
pub open spec fn spec_trim(s: Seq<char>) -> Seq<char> {
    trim_end(trim_start(s))
}

proof fn lemma_trim_start_skip(s: Seq<char>, i: int)
    requires
        0 <= i <= s.len(),
        forall|j: int| 0 <= j < i ==> is_whitespace_char(#[trigger] s[j]),
        i < s.len() ==> !is_whitespace_char(s[i]),
    ensures
        trim_start(s) == s.skip(i),
    decreases i,
{
    if i == 0 {
        assert(trim_start(s) =~= s.skip(0));
    } else {
        assert(is_whitespace_char(s[0]));
        let t = s.drop_first();
        assert(forall|j: int| 0 <= j < i - 1 ==> is_whitespace_char(#[trigger] t[j]));
        lemma_trim_start_skip(t, i - 1);
        assert(t.skip(i - 1) =~= s.skip(i));
    }
}

proof fn lemma_trim_end_take(s: Seq<char>, i: int)
    requires
        0 <= i <= s.len(),
        forall|j: int| i <= j < s.len() ==> is_whitespace_char(#[trigger] s[j]),
        i > 0 ==> !is_whitespace_char(s[i - 1]),
    ensures
        trim_end(s) == s.take(i),
    decreases s.len(),
{
    if i == s.len() {
        assert(trim_end(s) =~= s.take(i));
    } else {
        assert(is_whitespace_char(s.last()));
        let t = s.drop_last();
        lemma_trim_end_take(t, i);
        assert(t.take(i) =~= s.take(i));
    }
}

/// Trim whitespace from both ends of a string, as a character vector.
fn trim_chars(s: &str) -> (r: Vec<char>)
    ensures
        r@ == spec_trim(s@),
{
    let n = s.unicode_len();
    let mut start: usize = 0;
    while start < n && is_whitespace_exec(s.get_char(start))
        invariant
            n == s@.len(),
            start <= n,
            forall|j: int| 0 <= j < start ==> is_whitespace_char(#[trigger] s@[j]),
        decreases n - start,
    {
        start += 1;
    }
    let mut end: usize = n;
    while end > start && is_whitespace_exec(s.get_char(end - 1))
        invariant
            n == s@.len(),
            start <= end <= n,
            forall|j: int| end <= j < n ==> is_whitespace_char(#[trigger] s@[j]),
        decreases end,
    {
        end -= 1;
    }
    proof {
        lemma_trim_start_skip(s@, start as int);
        let t = s@.skip(start as int);
        assert forall|j: int| end - start <= j < t.len() implies is_whitespace_char(
            #[trigger] t[j],
        ) by {
            assert(t[j] == s@[j + start]);
        }
        if end > start {
            assert(!is_whitespace_char(t[end - start - 1]));
        }
        lemma_trim_end_take(t, end - start);
        assert(t.take(end - start) =~= s@.subrange(start as int, end as int));
    }
    let mut r: Vec<char> = Vec::new();
    let mut i: usize = start;
    while i < end
        invariant
            n == s@.len(),
            start <= i <= end <= n,
            r@ == s@.subrange(start as int, i as int),
        decreases end - i,
    {
        let c = s.get_char(i);
        r.push(c);
        proof {
            assert(r@ =~= s@.subrange(start as int, i + 1 as int));
        }
        i += 1;
    }
    r
}

/// Resolve the seed for generation. An explicit checksum is accepted once
/// trimmed of surrounding whitespace and found non-empty; with no explicit
/// checksum the caller is directed to supply one, since only the embedding
/// program can query the ambient version-control system for a revision hash.
pub fn resolve(checksum: Option<&str>) -> (r: Result<String, ResolveError>)
    ensures
        match checksum {
            Some(s) => {
                if spec_trim(s@).len() > 0 {
                    r is Ok && r->Ok_0@ == spec_trim(s@)
                } else {
                    r is Err && r->Err_0 == ResolveError::EmptyChecksum
                }
            },
            None => r is Err && r->Err_0 == ResolveError::ChecksumRequired,
        },
{
    match checksum {
        Some(custom) => {
            let trimmed = trim_chars(custom);
            if trimmed.len() == 0 {
                Err(ResolveError::EmptyChecksum)
            } else {
                Ok(chars_to_string(&trimmed))
            }
        },
        None => Err(ResolveError::ChecksumRequired),
    }
}

} // verus!
