//! Lines of source files, for the diagnostics that point into them.

use vstd::prelude::*;
use vstd::string::StringSliceAdditionalSpecFns;

verus! {

/// `std::path::PathBuf`, carried through as it is.
#[verifier::external_type_specification]
#[verifier::external_body]
pub struct ExPathBuf(std::path::PathBuf);

/// Why a question about a file of a database could not be answered.
#[derive(Debug, Clone, Copy, PartialEq, Eq, Structural)]
pub enum FileError {
    /// No file has the given id.
    FileMissing,
    /// The line index is past the last line; `max` is the last line index.
    LineTooLarge { given: usize, max: usize },
}

/// The byte indices just after each line feed of the UTF-8 bytes `b`, in
/// order.
pub open spec fn newline_ends(b: Seq<u8>) -> Seq<usize>
    decreases b.len(),
{
    if b.len() == 0 {
        Seq::empty()
    } else if b.last() == 10 {
        newline_ends(b.drop_last()).push(b.len() as usize)
    } else {
        newline_ends(b.drop_last())
    }
}

/// The byte index at which each line of a text with UTF-8 bytes `b`
/// starts: 0, then the index after each line feed.
pub open spec fn line_starts_spec(b: Seq<u8>) -> Seq<usize> {
    seq![0usize] + newline_ends(b)
}

/// Line starts as the files of a database keep them: the first line starts
/// at 0, each line after the one before, and none after the end of the text
/// of `len` bytes.
pub open spec fn line_starts_wf(ls: Seq<usize>, len: usize) -> bool {
    &&& ls.len() >= 1
    &&& ls[0] == 0
    &&& forall|i: int, j: int| 0 <= i < j < ls.len() ==> ls[i] < ls[j]
    &&& forall|i: int| 0 <= i < ls.len() ==> ls[i] <= len
}

/// `codespan_reporting::files::line_starts`, collected: the byte index of the
/// start of each line of `source`, which is 0 and then the index after each
/// line feed.
#[verifier::external_body]
fn codespan_line_starts(source: &str) -> (r: Vec<usize>)
    ensures
        r@ == line_starts_spec(source.spec_bytes()),
{
    codespan_reporting::files::line_starts(source).collect()
}

proof fn lemma_newline_ends(b: Seq<u8>)
    requires
        b.len() <= usize::MAX,
    ensures
        forall|i: int, j: int| 0 <= i < j < newline_ends(b).len() ==> newline_ends(b)[i] < newline_ends(b)[j],
        forall|i: int| 0 <= i < newline_ends(b).len() ==> 1 <= #[trigger] newline_ends(b)[i] <= b.len(),
    decreases b.len(),
{
    if b.len() > 0 {
        let p = b.drop_last();
        lemma_newline_ends(p);
        if b.last() == 10 {
            let n = newline_ends(b);
            assert(n == newline_ends(p).push(b.len() as usize));
            assert(b.len() as usize == b.len());
            assert forall|i: int, j: int| 0 <= i < j < n.len() implies n[i] < n[j] by {
                if j == n.len() - 1 {
                    assert(n[i] == newline_ends(p)[i]);
                    assert(n[i] <= p.len());
                } else {
                    assert(n[i] == newline_ends(p)[i]);
                    assert(n[j] == newline_ends(p)[j]);
                }
            }
        }
    }
}

/// The start of each line of `source`, and the length of `source` in bytes.
pub fn line_starts_of(source: &str) -> (r: (Vec<usize>, usize))
    ensures
        r.0@ == line_starts_spec(source.spec_bytes()),
        r.1 == source.spec_bytes().len(),
        line_starts_wf(r.0@, r.1),
{
    let ls = codespan_line_starts(source);
    let bytes = source.as_bytes();
    let len = bytes.len();
    assert(bytes@ == source.spec_bytes());
    proof {
        let b = source.spec_bytes();
        lemma_newline_ends(b);
        let n = newline_ends(b);
        assert forall|i: int, j: int| 0 <= i < j < ls@.len() implies ls@[i] < ls@[j] by {
            if i > 0 {
                assert(ls@[i] == n[i - 1]);
            }
            assert(ls@[j] == n[j - 1]);
        }
        assert forall|i: int| 0 <= i < ls@.len() implies ls@[i] <= len by {
            if i > 0 {
                assert(ls@[i] == n[i - 1]);
            }
        }
    }
    (ls, len)
}

/// The index of the line that byte `byte_index` lies on: the last line that
/// starts at or before it.
pub fn line_index_in(ls: &Vec<usize>, byte_index: usize) -> (r: usize)
    requires
        ls@.len() >= 1,
        ls@[0] == 0,
        forall|i: int, j: int| 0 <= i < j < ls@.len() ==> ls@[i] < ls@[j],
    ensures
        r < ls@.len(),
        ls@[r as int] <= byte_index,
        r + 1 == ls@.len() || ls@[r + 1] > byte_index,
{
    let mut lo: usize = 0;
    let mut hi: usize = ls.len();
    while hi - lo > 1
        invariant
            0 <= lo < hi <= ls@.len(),
            ls@[lo as int] <= byte_index,
            hi == ls@.len() || ls@[hi as int] > byte_index,
        decreases hi - lo,
    {
        let mid = lo + (hi - lo) / 2;
        if ls[mid] <= byte_index {
            lo = mid;
        } else {
            hi = mid;
        }
    }
    lo
}

/// The byte index at which line `line_index` starts; for the line just past
/// the last one, the length of the text.
pub fn line_start_in(ls: &Vec<usize>, len: usize, line_index: usize) -> (r: Result<usize, FileError>)
    requires
        ls@.len() >= 1,
    ensures
        line_index < ls@.len() ==> r == Ok::<usize, FileError>(ls@[line_index as int]),
        line_index == ls@.len() ==> r == Ok::<usize, FileError>(len),
        line_index > ls@.len() ==> r == Err::<usize, FileError>(FileError::LineTooLarge { given: line_index, max: (ls@.len() - 1) as usize }),
{
    if line_index < ls.len() {
        Ok(ls[line_index])
    } else if line_index == ls.len() {
        Ok(len)
    } else {
        Err(FileError::LineTooLarge { given: line_index, max: ls.len() - 1 })
    }
}

/// The bytes from the start of line `line_index` to the start of the next
/// one.
pub fn line_range_in(ls: &Vec<usize>, len: usize, line_index: usize) -> (r: Result<std::ops::Range<usize>, FileError>)
    requires
        ls@.len() >= 1,
        line_index < usize::MAX,
    ensures
        line_index < ls@.len() ==> (r matches Ok(range) && range.start == ls@[line_index as int]
            && range.end == if line_index + 1 < ls@.len() { ls@[line_index + 1] } else { len }),
        line_index > ls@.len() ==> r == Err::<std::ops::Range<usize>, FileError>(FileError::LineTooLarge {
            given: line_index,
            max: (ls@.len() - 1) as usize,
        }),
        line_index == ls@.len() ==> r == Err::<std::ops::Range<usize>, FileError>(FileError::LineTooLarge {
            given: (line_index + 1) as usize,
            max: (ls@.len() - 1) as usize,
        }),
{
    let line_start = match line_start_in(ls, len, line_index) {
        Ok(s) => s,
        Err(e) => {
            return Err(e);
        },
    };
    let next_line_start = match line_start_in(ls, len, line_index + 1) {
        Ok(s) => s,
        Err(e) => {
            return Err(e);
        },
    };
    Ok(line_start..next_line_start)
}

/// The line that the first byte of a line lies on is that line: what
/// [`line_index_in`] gives for the start of line `l`, as
/// [`line_start_in`] gives it, is `l`.
pub proof fn law_line_start_lies_on_its_line(ls: Seq<usize>, len: usize, l: int, r: int)
    requires
        line_starts_wf(ls, len),
        0 <= l < ls.len(),
        0 <= r < ls.len(),
        ls[r] <= ls[l],
        r + 1 == ls.len() || ls[r + 1] > ls[l],
    ensures
        r == l,
{
    if r < l {
        assert(ls[r + 1] <= ls[l]) by {
            if r + 1 < l {
                assert(ls[r + 1] < ls[l]);
            }
        }
    }
    if r > l {
        assert(ls[l] < ls[r]);
    }
}

} // verus!
