//! Source spans: a byte range in a file of the file database.

use vstd::prelude::*;
use crate::text::{decimal, push_decimal, string_of};

verus! {

/// A span `Span(start, end, file_id)`: the bytes `start..end` of the file
/// with id `file_id`.
#[derive(Eq, PartialEq, Clone, Copy, Structural, Debug)]
pub struct Span(pub usize, pub usize, pub usize);

/// The placeholder span of values that do not come from any source file.
pub open spec fn dummy_span() -> Span {
    Span(usize::MAX, usize::MAX, usize::MAX)
}

/// `max(0, a + n)` where `a` is read as an `isize`, the way `Span::shifted`
/// moves one end of a span.
pub open spec fn shift_offset(a: usize, n: isize) -> usize {
    let moved = (a as isize) as int + n as int;
    if moved < 0 {
        0
    } else {
        moved as usize
    }
}

/// Whether `Span::shifted(span, n)` stays within the range of `isize`.
pub open spec fn shift_in_range(span: Span, n: isize) -> bool {
    &&& isize::MIN <= (span.0 as isize) as int + n as int <= isize::MAX
    &&& isize::MIN <= (shift_offset(span.0, n) as isize) as int + n as int <= isize::MAX
}

/// The text that `Display` writes for a span: `DUMMY` or `start..end`.
pub open spec fn span_text(span: Span) -> Seq<char> {
    if span == dummy_span() {
        seq!['D', 'U', 'M', 'M', 'Y']
    } else {
        decimal(span.0 as nat) + seq!['.', '.'] + decimal(span.1 as nat)
    }
}

impl Span {
    /// The placeholder span of values that do not come from any source file.
    pub fn dummy() -> (s: Self)
        ensures
            s == dummy_span(),
    {
        Span(usize::MAX, usize::MAX, usize::MAX)
    }

    /// The empty span at `loc` in the file `file_id`.
    pub fn point(loc: usize, file_id: usize) -> (s: Self)
        ensures
            s == Span(loc, loc, file_id),
    {
        Span(loc, loc, file_id)
    }

    /// The span that includes this and the other span completely.
    /// Both spans must be in the same file.
    pub fn to(self, other: Span) -> (s: Self)
        requires
            other.2 == self.2,
        ensures
            s == Span(
                if self.0 <= other.0 { self.0 } else { other.0 },
                if self.1 >= other.1 { self.1 } else { other.1 },
                self.2,
            ),
    {
        let start = if self.0 <= other.0 { self.0 } else { other.0 };
        let end = if self.1 >= other.1 { self.1 } else { other.1 };
        Span(start, end, self.2)
    }

    /// This span, ending at `end`.
    pub fn ending_at(self, end: usize) -> (s: Self)
        ensures
            s == Span(self.0, end, self.2),
    {
        let mut s = self;
        s.1 = end;
        s
    }

    /// The empty span at the start of this span.
    pub fn point_span(self) -> (s: Self)
        ensures
            s == Span(self.0, self.0, self.2),
    {
        let mut s = self;
        s.1 = s.0;
        s
    }

    /// The empty span at the end of this span.
    pub fn point_span_at_end(self) -> (s: Self)
        ensures
            s == Span(self.1, self.1, self.2),
    {
        let mut s = self;
        s.0 = s.1;
        s
    }

    /// The span moved by `n`: the start becomes `max(0, start + n)`, and the
    /// end becomes `max(0, new_start + n)`, computed from the moved start.
    pub fn shifted(self, n: isize) -> (s: Self)
        requires
            shift_in_range(self, n),
        ensures
            s.0 == shift_offset(self.0, n),
            s.1 == shift_offset(s.0, n),
            s.2 == self.2,
    {
        let mut s = self;
        let a: isize = s.0 as isize + n;
        s.0 = if a < 0 { 0 } else { a as usize };
        let b: isize = s.0 as isize + n;
        s.1 = if b < 0 { 0 } else { b as usize };
        s
    }

    /// Whether this is the placeholder span `Span::DUMMY`.
    pub fn is_dummy(&self) -> (b: bool)
        ensures
            b == (*self == dummy_span()),
    {
        *self == Self::dummy()
    }

    /// The text `Display` writes for this span: `DUMMY`, or `start..end`.
    pub fn to_display_string(&self) -> (s: String)
        ensures
            s@ == span_text(*self),
    {
        let mut v: Vec<char> = Vec::new();
        if self.is_dummy() {
            v.push('D');
            v.push('U');
            v.push('M');
            v.push('M');
            v.push('Y');
        } else {
            push_decimal(&mut v, self.0 as u64);
            v.push('.');
            v.push('.');
            push_decimal(&mut v, self.1 as u64);
        }
        assert(v@ =~= span_text(*self));
        string_of(&v)
    }
}

/// Values that know the span of source text they were read from.
pub trait Spanned {
    fn span(&self) -> Span;
}

} // verus!
