//! Sizes and positions given in pixels or in percent of a container.

use vstd::prelude::*;
use crate::text::{chars_of, i64_to_string, int_decimal, lemma_decimal_digits, lemma_int_decimal_parses, parse_i32, parse_i32_spec, string_of};

verus! {

/// A number with a unit: percent of a container's size, or pixels.
#[derive(Clone, Copy, PartialEq, Eq, Structural, Debug)]
pub enum NumWithUnit {
    Percent(i32),
    Pixels(i32),
}

/// Why a number with a unit or a pair of coordinates could not be read.
#[derive(Debug, Clone, PartialEq, Eq)]
pub enum CoordsError {
    /// The text is not a number followed by `px`, `%` or nothing.
    InvalidNumWithUnit(String),
    /// The coordinates have no `x` or `*` between them.
    MissingSeparator,
}

/// `s` ends with `suffix`.
pub open spec fn ends_with(s: Seq<char>, suffix: Seq<char>) -> bool {
    s.len() >= suffix.len() && s.skip(s.len() - suffix.len()) == suffix
}

/// The number with a unit that `s` denotes: an optional `-`, ASCII digits
/// whose value fits in `i32`, then `px`, `%` or nothing (pixels).
pub open spec fn num_with_unit_spec(s: Seq<char>) -> Option<NumWithUnit> {
    let percent = !ends_with(s, seq!['p', 'x']) && ends_with(s, seq!['%']);
    let body = if ends_with(s, seq!['p', 'x']) {
        s.take(s.len() - 2)
    } else if percent {
        s.drop_last()
    } else {
        s
    };
    if body.len() > 0 && body[0] == '+' {
        None
    } else {
        match parse_i32_spec(body) {
            Some(v) => Some(if percent { NumWithUnit::Percent(v) } else { NumWithUnit::Pixels(v) }),
            None => None,
        }
    }
}

impl NumWithUnit {
    /// Reads a number with a unit, such as `55`, `55px` or `55%`.
    pub fn from_str(s: &str) -> (r: Result<NumWithUnit, CoordsError>)
        ensures
            match num_with_unit_spec(s@) {
                Some(v) => r == Ok::<NumWithUnit, CoordsError>(v),
                None => r matches Err(CoordsError::InvalidNumWithUnit(t)) && t@ == s@,
            },
    {
        let c = chars_of(s);
        let n = c.len();
        let px = n >= 2 && c[n - 2] == 'p' && c[n - 1] == 'x';
        let percent = !px && n >= 1 && c[n - 1] == '%';
        proof {
            if n >= 2 {
                assert(ends_with(s@, seq!['p', 'x']) == (c@[n - 2] == 'p' && c@[n - 1] == 'x')) by {
                    if c@[n - 2] == 'p' && c@[n - 1] == 'x' {
                        assert(s@.skip(n - 2) =~= seq!['p', 'x']);
                    }
                    if ends_with(s@, seq!['p', 'x']) {
                        assert(s@.skip(n - 2)[0] == s@[n - 2]);
                        assert(s@.skip(n - 2)[1] == s@[n - 1]);
                    }
                }
            }
            if n >= 1 {
                assert(ends_with(s@, seq!['%']) == (c@[n - 1] == '%')) by {
                    if c@[n - 1] == '%' {
                        assert(s@.skip(n - 1) =~= seq!['%']);
                    }
                    if ends_with(s@, seq!['%']) {
                        assert(s@.skip(n - 1)[0] == s@[n - 1]);
                    }
                }
            }
        }
        let body_len: usize = if px {
            n - 2
        } else if percent {
            n - 1
        } else {
            n
        };
        let mut body: Vec<char> = Vec::new();
        let mut i: usize = 0;
        while i < body_len
            invariant
                body_len <= c@.len(),
                0 <= i <= body_len,
                body@ == c@.take(i as int),
            decreases body_len - i,
        {
            body.push(c[i]);
            i = i + 1;
            assert(body@ =~= c@.take(i as int));
        }
        proof {
            if percent {
                assert(c@.take(body_len as int) =~= c@.drop_last());
            }
            if !px && !percent {
                assert(c@.take(body_len as int) =~= c@);
            }
        }
        if body.len() > 0 && body[0] == '+' {
            return Err(CoordsError::InvalidNumWithUnit(s.to_owned()));
        }
        match parse_i32(&body) {
            Some(v) => if percent {
                Ok(NumWithUnit::Percent(v))
            } else {
                Ok(NumWithUnit::Pixels(v))
            },
            None => Err(CoordsError::InvalidNumWithUnit(s.to_owned())),
        }
    }

    /// The number with its unit, such as `55%` or `55px`.
    pub fn to_display_string(&self) -> (s: String)
        ensures
            match self {
                NumWithUnit::Percent(n) => s@ == int_decimal(*n as int) + seq!['%'],
                NumWithUnit::Pixels(n) => s@ == int_decimal(*n as int) + seq!['p', 'x'],
            },
    {
        let (n, unit) = match self {
            NumWithUnit::Percent(n) => (*n, false),
            NumWithUnit::Pixels(n) => (*n, true),
        };
        let num = i64_to_string(n as i64);
        let mut c = chars_of(num.as_str());
        if unit {
            c.push('p');
            c.push('x');
        } else {
            c.push('%');
        }
        string_of(&c)
    }
}

impl Default for NumWithUnit {
    fn default() -> (r: NumWithUnit)
        ensures
            r == NumWithUnit::Pixels(0),
    {
        NumWithUnit::Pixels(0)
    }
}

/// A pair of numbers with units.
#[derive(Clone, Copy, PartialEq, Eq, Structural, Debug)]
pub struct Coords {
    pub x: NumWithUnit,
    pub y: NumWithUnit,
}

/// The position of the first `x`, `X` or `*` in `s`, if there is one.
pub open spec fn separator_at(s: Seq<char>) -> Option<int> {
    if exists|i: int| 0 <= i < s.len() && is_separator(#[trigger] s[i]) {
        Some(choose|i: int| 0 <= i < s.len() && is_separator(#[trigger] s[i]) && forall|j: int|
            0 <= j < i ==> !is_separator(#[trigger] s[j]))
    } else {
        None
    }
}

/// Whether `c` separates the two coordinates: `x`, in any case, or `*`.
pub open spec fn is_separator(c: char) -> bool {
    c == 'x' || c == 'X' || c == '*'
}

/// The coordinates that `s` denotes: a number with a unit before the first
/// `x`, `X` or `*`, and one after it.
pub open spec fn coords_spec(s: Seq<char>) -> Option<Coords> {
    match separator_at(s) {
        None => None,
        Some(i) => match (num_with_unit_spec(s.take(i)), num_with_unit_spec(s.skip(i + 1))) {
            (Some(a), Some(b)) => Some(Coords { x: a, y: b }),
            _ => None,
        },
    }
}

impl Coords {
    pub fn from_pixels(x: i32, y: i32) -> (c: Self)
        ensures
            c == (Coords { x: NumWithUnit::Pixels(x), y: NumWithUnit::Pixels(y) }),
    {
        Coords { x: NumWithUnit::Pixels(x), y: NumWithUnit::Pixels(y) }
    }

    /// parse a string for x and a string for y into a [`Coords`] object.
    pub fn from_strs(x: &str, y: &str) -> (r: Result<Coords, CoordsError>)
        ensures
            match (num_with_unit_spec(x@), num_with_unit_spec(y@)) {
                (Some(a), Some(b)) => r == Ok::<Coords, CoordsError>(Coords { x: a, y: b }),
                (None, _) => r matches Err(CoordsError::InvalidNumWithUnit(t)) && t@ == x@,
                (Some(_), None) => r matches Err(CoordsError::InvalidNumWithUnit(t)) && t@ == y@,
            },
    {
        let a = match NumWithUnit::from_str(x) {
            Ok(a) => a,
            Err(e) => {
                return Err(e);
            },
        };
        let b = match NumWithUnit::from_str(y) {
            Ok(b) => b,
            Err(e) => {
                return Err(e);
            },
        };
        Ok(Coords { x: a, y: b })
    }

    /// Reads coordinates such as `200x500`, `50%*20px` or `1X2`: the text
    /// before the first `x`, `X` or `*`, and the text after it.
    pub fn from_str(s: &str) -> (r: Result<Coords, CoordsError>)
        ensures
            r is Ok <==> coords_spec(s@) is Some,
            r matches Ok(c) ==> coords_spec(s@) == Some(c),
            match separator_at(s@) {
                None => r == Err::<Coords, CoordsError>(CoordsError::MissingSeparator),
                Some(i) => match (num_with_unit_spec(s@.take(i)), num_with_unit_spec(s@.skip(i + 1))) {
                    (Some(a), Some(b)) => r == Ok::<Coords, CoordsError>(Coords { x: a, y: b }),
                    (None, _) => r matches Err(CoordsError::InvalidNumWithUnit(t)) && t@ == s@.take(i),
                    (Some(_), None) => r matches Err(CoordsError::InvalidNumWithUnit(t)) && t@ == s@.skip(i + 1),
                },
            },
    {
        let c = chars_of(s);
        let mut i: usize = 0;
        while i < c.len() && !(c[i] == 'x' || c[i] == 'X' || c[i] == '*')
            invariant
                c@ == s@,
                0 <= i <= c@.len(),
                forall|j: int| 0 <= j < i ==> !is_separator(#[trigger] c@[j]),
            decreases c.len() - i,
        {
            i = i + 1;
        }
        if i == c.len() {
            return Err(CoordsError::MissingSeparator);
        }
        proof {
            assert(is_separator(s@[i as int]));
            let k = separator_at(s@)->0;
            assert(0 <= k < s@.len() && is_separator(s@[k]));
            if k < i {
                assert(!is_separator(c@[k]));
            }
            if (i as int) < k {
                assert(!is_separator(s@[i as int]));
            }
        }
        let mut left: Vec<char> = Vec::new();
        let mut j: usize = 0;
        while j < i
            invariant
                i < c@.len(),
                0 <= j <= i,
                left@ == c@.take(j as int),
            decreases i - j,
        {
            left.push(c[j]);
            j = j + 1;
            assert(left@ =~= c@.take(j as int));
        }
        let mut right: Vec<char> = Vec::new();
        let mut k: usize = i + 1;
        while k < c.len()
            invariant
                i < c@.len(),
                i + 1 <= k <= c@.len(),
                right@ == c@.subrange(i + 1, k as int),
            decreases c.len() - k,
        {
            right.push(c[k]);
            k = k + 1;
            assert(right@ =~= c@.subrange(i + 1, k as int));
        }
        assert(right@ =~= c@.skip(i + 1));
        let x = string_of(&left);
        let y = string_of(&right);
        Coords::from_strs(x.as_str(), y.as_str())
    }

    /// The coordinates as text, such as `50%*20px`.
    pub fn to_display_string(&self) -> (s: String)
        ensures
            s@ == self.x_text() + seq!['*'] + self.y_text(),
    {
        let x = self.x.to_display_string();
        let y = self.y.to_display_string();
        let mut c = chars_of(x.as_str());
        c.push('*');
        let yc = chars_of(y.as_str());
        let mut i: usize = 0;
        let ghost base = c@;
        while i < yc.len()
            invariant
                0 <= i <= yc@.len(),
                c@ == base + yc@.take(i as int),
            decreases yc.len() - i,
        {
            c.push(yc[i]);
            i = i + 1;
            assert(c@ =~= base + yc@.take(i as int));
        }
        assert(yc@.take(yc@.len() as int) =~= yc@);
        string_of(&c)
    }

    /// The text of the x coordinate.
    pub open spec fn x_text(&self) -> Seq<char> {
        unit_text(self.x)
    }

    /// The text of the y coordinate.
    pub open spec fn y_text(&self) -> Seq<char> {
        unit_text(self.y)
    }
}

/// The text of a number with its unit.
pub open spec fn unit_text(n: NumWithUnit) -> Seq<char> {
    match n {
        NumWithUnit::Percent(v) => int_decimal(v as int) + seq!['%'],
        NumWithUnit::Pixels(v) => int_decimal(v as int) + seq!['p', 'x'],
    }
}

impl Default for Coords {
    fn default() -> (r: Coords)
        ensures
            r == (Coords { x: NumWithUnit::Pixels(0), y: NumWithUnit::Pixels(0) }),
    {
        Coords { x: NumWithUnit::Pixels(0), y: NumWithUnit::Pixels(0) }
    }
}

/// Reading back the text of a number with a unit gives the number with
/// its unit: [`NumWithUnit::from_str`] of what
/// [`NumWithUnit::to_display_string`] gives for `n` is `n`.
pub proof fn law_num_with_unit_reads_back(n: NumWithUnit)
    ensures
        num_with_unit_spec(unit_text(n)) == Some(n),
{
    match n {
        NumWithUnit::Percent(v) => {
            lemma_int_decimal_parses(v);
            let d = int_decimal(v as int);
            let s = d + seq!['%'];
            assert(s.last() == '%');
            assert(!ends_with(s, seq!['p', 'x'])) by {
                if ends_with(s, seq!['p', 'x']) {
                    assert(s.skip(s.len() - 2)[1] == s.last());
                }
            }
            assert(s.skip(s.len() - 1) =~= seq!['%']);
            assert(s.drop_last() =~= d);
            if v >= 0 {
                lemma_decimal_digits(v as nat);
                assert(crate::text::is_ascii_digit(d[0]));
            }
        },
        NumWithUnit::Pixels(v) => {
            lemma_int_decimal_parses(v);
            let d = int_decimal(v as int);
            let s = d + seq!['p', 'x'];
            assert(s.skip(s.len() - 2) =~= seq!['p', 'x']);
            assert(s.take(s.len() - 2) =~= d);
            if v >= 0 {
                lemma_decimal_digits(v as nat);
                assert(crate::text::is_ascii_digit(d[0]));
            }
        },
    }
}

} // verus!
