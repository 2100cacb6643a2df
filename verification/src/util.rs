//! Small helpers on lists and strings.

use vstd::prelude::*;
use vstd::std_specs::cmp::PartialEqSpec;
use crate::text::{
    chars_of, is_whitespace, is_whitespace_char, join, join_with, lines, lines_of, string_of, trim,
    trim_end, trim_start,
};

verus! {

/// Some element of `s` equals `x`, as `==` of `T` decides.
pub open spec fn contains_eq<T: PartialEq>(s: Seq<T>, x: T) -> bool {
    exists|j: int| 0 <= j < s.len() && (#[trigger] s[j]).eq_spec(&x)
}

/// The elements of `a` that `b` does not contain, in their order in `a`.
pub open spec fn difference<T: PartialEq>(a: Seq<T>, b: Seq<T>) -> Seq<T>
    decreases a.len(),
{
    if a.len() == 0 {
        Seq::empty()
    } else if contains_eq(b, a.last()) {
        difference(a.drop_last(), b)
    } else {
        difference(a.drop_last(), b).push(a.last())
    }
}

/// Whether `b` contains `x`, as `<[T]>::contains`.
fn slice_contains<T: PartialEq>(b: &[T], x: &T) -> (r: bool)
    ensures
        T::obeys_eq_spec() ==> r == contains_eq(b@, *x),
{
    let mut j: usize = 0;
    while j < b.len()
        invariant
            0 <= j <= b@.len(),
            T::obeys_eq_spec() ==> forall|t: int| 0 <= t < j ==> !(#[trigger] b@[t]).eq_spec(x),
        decreases b.len() - j,
    {
        if b[j] == *x {
            return true;
        }
        j = j + 1;
    }
    false
}

/// The elements of `a` that `b` does not contain.
fn missing_from<'a, T: PartialEq>(a: &'a [T], b: &[T]) -> (r: Vec<&'a T>)
    ensures
        T::obeys_eq_spec() ==> r@.map_values(|x: &T| *x) == difference(a@, b@),
{
    let mut missing: Vec<&'a T> = Vec::new();
    let mut i: usize = 0;
    while i < a.len()
        invariant
            0 <= i <= a@.len(),
            T::obeys_eq_spec() ==> missing@.map_values(|x: &T| *x) == difference(a@.take(i as int), b@),
        decreases a.len() - i,
    {
        let elem = &a[i];
        let ghost before = missing@;
        proof {
            assert(a@.take(i as int + 1).drop_last() =~= a@.take(i as int));
        }
        if !slice_contains(b, elem) {
            missing.push(elem);
            proof {
                if T::obeys_eq_spec() {
                    assert(missing@.map_values(|x: &T| *x) =~= before.map_values(|x: &T| *x).push(*elem));
                }
            }
        }
        i = i + 1;
    }
    proof {
        assert(a@.take(a@.len() as int) =~= a@);
    }
    missing
}

/// Compute the difference of two lists, returning a tuple of
/// (
///   elements that where in a but not in b,
///   elements that where in b but not in a
/// ).
pub fn list_difference<'a, 'b, T: PartialEq>(a: &'a [T], b: &'b [T]) -> (r: (Vec<&'a T>, Vec<&'b T>))
    ensures
        T::obeys_eq_spec() ==> r.0@.map_values(|x: &T| *x) == difference(a@, b@),
        T::obeys_eq_spec() ==> r.1@.map_values(|x: &T| *x) == difference(b@, a@),
{
    let missing = missing_from(a, b);
    let new = missing_from(b, a);
    (missing, new)
}

/// Whether every character of `s` is whitespace: `s` is empty after
/// removing all line breaks and trimming whitespace.
pub fn is_blank(s: &str) -> (b: bool)
    ensures
        b == forall|i: int| 0 <= i < s@.len() ==> is_whitespace(#[trigger] s@[i]),
{
    let v = chars_of(s);
    let mut i: usize = 0;
    while i < v.len()
        invariant
            v@ == s@,
            0 <= i <= v@.len(),
            forall|t: int| 0 <= t < i ==> is_whitespace(#[trigger] v@[t]),
        decreases v.len() - i,
    {
        if !is_whitespace_char(v[i]) {
            return false;
        }
        i = i + 1;
    }
    true
}

proof fn lemma_trim_start(s: Seq<char>, a: int)
    requires
        0 <= a <= s.len(),
        forall|t: int| 0 <= t < a ==> is_whitespace(#[trigger] s[t]),
        a == s.len() || !is_whitespace(s[a]),
    ensures
        trim_start(s) == s.skip(a),
    decreases a,
{
    if a == 0 {
        assert(s.skip(0) =~= s);
    } else {
        assert forall|t: int| 0 <= t < a - 1 implies is_whitespace(#[trigger] s.drop_first()[t]) by {
            assert(s.drop_first()[t] == s[t + 1]);
        }
        lemma_trim_start(s.drop_first(), a - 1);
        assert(s.drop_first().skip(a - 1) =~= s.skip(a));
    }
}

proof fn lemma_trim_end(s: Seq<char>, b: int)
    requires
        0 <= b <= s.len(),
        forall|t: int| b <= t < s.len() ==> is_whitespace(#[trigger] s[t]),
        b == 0 || !is_whitespace(s[b - 1]),
    ensures
        trim_end(s) == s.take(b),
    decreases s.len() - b,
{
    if b == s.len() {
        assert(s.take(b) =~= s);
    } else {
        assert forall|t: int| b <= t < s.drop_last().len() implies is_whitespace(#[trigger] s.drop_last()[t]) by {
            assert(s.drop_last()[t] == s[t]);
        }
        lemma_trim_end(s.drop_last(), b);
        assert(s.drop_last().take(b) =~= s.take(b));
    }
}

/// `s` without leading and trailing whitespace, as `str::trim`.
fn trim_chars(s: &Vec<char>) -> (r: Vec<char>)
    ensures
        r@ == trim(s@),
{
    let mut a: usize = 0;
    while a < s.len() && is_whitespace_char(s[a])
        invariant
            0 <= a <= s@.len(),
            forall|t: int| 0 <= t < a ==> is_whitespace(#[trigger] s@[t]),
        decreases s.len() - a,
    {
        a = a + 1;
    }
    let mut b: usize = s.len();
    while b > a && is_whitespace_char(s[b - 1])
        invariant
            a <= b <= s@.len(),
            forall|t: int| b <= t < s@.len() ==> is_whitespace(#[trigger] s@[t]),
        decreases b,
    {
        b = b - 1;
    }
    let mut r: Vec<char> = Vec::new();
    let mut i: usize = a;
    while i < b
        invariant
            a <= i <= b,
            b <= s@.len(),
            r@ == s@.subrange(a as int, i as int),
        decreases b - i,
    {
        r.push(s[i]);
        i = i + 1;
        assert(r@ =~= s@.subrange(a as int, i as int));
    }
    proof {
        lemma_trim_start(s@, a as int);
        let t = s@.skip(a as int);
        assert forall|q: int| b - a <= q < t.len() implies is_whitespace(#[trigger] t[q]) by {
            assert(t[q] == s@[a + q]);
        }
        if b > a {
            assert(t[b - a - 1] == s@[b - 1]);
        }
        lemma_trim_end(t, b - a);
        assert(t.take(b - a) =~= s@.subrange(a as int, b as int));
    }
    r
}

/// Trim all lines in a string: each line of `s`, as `str::lines` gives
/// them, without leading and trailing whitespace, joined by line feeds.
pub fn trim_lines(s: &str) -> (r: String)
    ensures
        r@ == join(lines(s@).map_values(|l: Seq<char>| trim(l)), seq!['\n']),
{
    let v = chars_of(s);
    let ls = lines_of(&v);
    let mut trimmed: Vec<Vec<char>> = Vec::new();
    let mut i: usize = 0;
    while i < ls.len()
        invariant
            0 <= i <= ls@.len(),
            ls@.len() == lines(s@).len(),
            forall|k: int| 0 <= k < ls@.len() ==> (#[trigger] ls@[k])@ == lines(s@)[k],
            trimmed@.len() == i,
            forall|k: int| 0 <= k < i ==> (#[trigger] trimmed@[k])@ == trim(lines(s@)[k]),
        decreases ls.len() - i,
    {
        trimmed.push(trim_chars(&ls[i]));
        i = i + 1;
    }
    let joined = join_with(&trimmed, '\n');
    proof {
        assert(trimmed@.map_values(|p: Vec<char>| p@) =~= lines(s@).map_values(|l: Seq<char>| trim(l)));
    }
    string_of(&joined)
}

/// The number of spaces that `l` starts with.
pub open spec fn leading_spaces(l: Seq<char>) -> nat
    decreases l.len(),
{
    if l.len() > 0 && l[0] == ' ' {
        1 + leading_spaces(l.drop_first())
    } else {
        0
    }
}

/// `ls` without the empty lines it starts with.
pub open spec fn skip_empty_lines(ls: Seq<Seq<char>>) -> Seq<Seq<char>>
    decreases ls.len(),
{
    if ls.len() > 0 && ls[0].len() == 0 {
        skip_empty_lines(ls.drop_first())
    } else {
        ls
    }
}

/// The smallest number of spaces that a line of `ls` starts with; zero when
/// there are no lines.
pub open spec fn min_indent(ls: Seq<Seq<char>>) -> nat
    decreases ls.len(),
{
    if ls.len() == 0 {
        0
    } else if ls.len() == 1 {
        leading_spaces(ls[0])
    } else {
        let m = min_indent(ls.drop_last());
        let l = leading_spaces(ls.last());
        if l < m { l } else { m }
    }
}

/// What `unindent` gives for `text`: its lines, without the empty ones it
/// starts with, each without as many leading characters as the smallest
/// indentation of them, joined by line feeds.
pub open spec fn unindented(text: Seq<char>) -> Seq<char> {
    let ls = skip_empty_lines(lines(text));
    let m = min_indent(ls);
    join(ls.map_values(|l: Seq<char>| l.skip(m as int)), seq!['\n'])
}

proof fn lemma_leading_spaces(l: Seq<char>, n: int)
    requires
        0 <= n <= l.len(),
        forall|t: int| 0 <= t < n ==> #[trigger] l[t] == ' ',
        n == l.len() || l[n] != ' ',
    ensures
        leading_spaces(l) == n,
    decreases n,
{
    if n > 0 {
        assert forall|t: int| 0 <= t < n - 1 implies #[trigger] l.drop_first()[t] == ' ' by {
            assert(l.drop_first()[t] == l[t + 1]);
        }
        lemma_leading_spaces(l.drop_first(), n - 1);
    }
}

proof fn lemma_leading_spaces_bound(l: Seq<char>)
    ensures
        leading_spaces(l) <= l.len(),
        forall|t: int| 0 <= t < leading_spaces(l) ==> #[trigger] l[t] == ' ',
    decreases l.len(),
{
    if l.len() > 0 && l[0] == ' ' {
        lemma_leading_spaces_bound(l.drop_first());
        assert forall|t: int| 0 <= t < leading_spaces(l) implies #[trigger] l[t] == ' ' by {
            if t > 0 {
                assert(l[t] == l.drop_first()[t - 1]);
            }
        }
    }
}

/// The number of spaces that `l` starts with.
fn count_leading_spaces(l: &Vec<char>) -> (n: usize)
    ensures
        n == leading_spaces(l@),
{
    let mut n: usize = 0;
    while n < l.len() && l[n] == ' '
        invariant
            0 <= n <= l@.len(),
            forall|t: int| 0 <= t < n ==> #[trigger] l@[t] == ' ',
        decreases l.len() - n,
    {
        n = n + 1;
    }
    proof {
        lemma_leading_spaces(l@, n as int);
    }
    n
}

proof fn lemma_min_indent_bound(ls: Seq<Seq<char>>, k: int)
    requires
        0 <= k < ls.len(),
    ensures
        min_indent(ls) <= leading_spaces(ls[k]),
    decreases ls.len(),
{
    if ls.len() > 1 && k < ls.len() - 1 {
        lemma_min_indent_bound(ls.drop_last(), k);
    }
}

/// Removes the indentation that all lines of `text` share, after dropping
/// the empty lines it starts with.
pub fn unindent(text: &str) -> (r: String)
    ensures
        r@ == unindented(text@),
{
    let v = chars_of(text);
    let ls = lines_of(&v);
    let ghost all = lines(text@);
    let mut first: usize = 0;
    assert(all.skip(0) =~= all);
    while first < ls.len() && ls[first].len() == 0
        invariant
            0 <= first <= ls@.len(),
            ls@.len() == all.len(),
            forall|k: int| 0 <= k < ls@.len() ==> (#[trigger] ls@[k])@ == all[k],
            skip_empty_lines(all) == skip_empty_lines(all.skip(first as int)),
        decreases ls.len() - first,
    {
        proof {
            let t = all.skip(first as int);
            assert(t[0] == all[first as int]);
            assert(t.drop_first() =~= all.skip(first as int + 1));
        }
        first = first + 1;
    }
    let ghost kept = all.skip(first as int);
    proof {
        if first < ls.len() {
            assert(kept[0] == all[first as int]);
        }
        assert(skip_empty_lines(kept) == kept);
    }
    let mut min: usize = 0;
    let mut i: usize = first;
    while i < ls.len()
        invariant
            first <= i <= ls@.len(),
            ls@.len() == all.len(),
            forall|k: int| 0 <= k < ls@.len() ==> (#[trigger] ls@[k])@ == all[k],
            kept == all.skip(first as int),
            min == min_indent(kept.take(i - first)),
        decreases ls.len() - i,
    {
        let n = count_leading_spaces(&ls[i]);
        proof {
            let kk = i - first;
            assert(kept.take(kk + 1).drop_last() =~= kept.take(kk));
            assert(kept.take(kk + 1).last() == all[i as int]);
            if kk == 0 {
                assert(kept.take(1)[0] == all[i as int]);
            }
        }
        if i == first || n < min {
            min = n;
        }
        i = i + 1;
    }
    proof {
        assert(kept.take(ls@.len() - first) =~= kept);
    }
    let mut cut: Vec<Vec<char>> = Vec::new();
    let mut j: usize = first;
    while j < ls.len()
        invariant
            first <= j <= ls@.len(),
            ls@.len() == all.len(),
            forall|k: int| 0 <= k < ls@.len() ==> (#[trigger] ls@[k])@ == all[k],
            kept == all.skip(first as int),
            min == min_indent(kept),
            cut@.len() == j - first,
            forall|k: int| 0 <= k < j - first ==> (#[trigger] cut@[k])@ == kept[k].skip(min as int),
        decreases ls.len() - j,
    {
        let line = &ls[j];
        proof {
            lemma_min_indent_bound(kept, j - first);
            assert(kept[j - first] == all[j as int]);
            lemma_leading_spaces_bound(line@);
        }
        let mut rest: Vec<char> = Vec::new();
        let mut t: usize = min;
        while t < line.len()
            invariant
                min <= t <= line@.len(),
                rest@ == line@.subrange(min as int, t as int),
            decreases line.len() - t,
        {
            rest.push(line[t]);
            t = t + 1;
            assert(rest@ =~= line@.subrange(min as int, t as int));
        }
        assert(rest@ =~= line@.skip(min as int));
        cut.push(rest);
        j = j + 1;
    }
    let joined = join_with(&cut, '\n');
    proof {
        assert(cut@.map_values(|p: Vec<char>| p@) =~= kept.map_values(|l: Seq<char>| l.skip(min as int)));
    }
    string_of(&joined)
}

} // verus!

verus! {

/// The first position at or after `a` that holds whitespace or `}`, or the
/// length of `s` when there is none: where the name of a reference ends.
pub open spec fn name_end(s: Seq<char>, a: int) -> int
    decreases s.len() - a,
{
    if a >= s.len() || a < 0 || is_whitespace(s[a]) || s[a] == '}' {
        a
    } else {
        name_end(s, a + 1)
    }
}

/// Where the reference `${name}` that starts at `i` ends, if one starts
/// there: at the first `}` after `${`, with no whitespace before it. Each
/// reference ends at its own `}`, so `${A}${B}` holds two.
pub open spec fn reference_end(s: Seq<char>, i: int) -> Option<int> {
    if 0 <= i && i + 1 < s.len() && s[i] == '$' && s[i + 1] == '{' {
        let e = name_end(s, i + 2);
        if e < s.len() && s[e] == '}' {
            Some(e)
        } else {
            None
        }
    } else {
        None
    }
}

/// The names of the references in `s` from position `i` on, in order; the
/// search goes on after the end of each reference.
pub open spec fn references_from(s: Seq<char>, i: int) -> Seq<Seq<char>>
    decreases s.len() - i,
{
    if i < 0 || i >= s.len() {
        Seq::empty()
    } else {
        match reference_end(s, i) {
            Some(j) => if i < j < s.len() {
                seq![s.subrange(i + 2, j)] + references_from(s, j + 1)
            } else {
                Seq::empty()
            },
            None => references_from(s, i + 1),
        }
    }
}

/// `s` from position `i` on with the references replaced, in order, by
/// `vals`.
pub open spec fn replaced_from(s: Seq<char>, i: int, vals: Seq<Seq<char>>) -> Seq<char>
    decreases s.len() - i,
{
    if i < 0 || i >= s.len() {
        Seq::empty()
    } else {
        match reference_end(s, i) {
            Some(j) => if i < j < s.len() {
                vals[0] + replaced_from(s, j + 1, vals.drop_first())
            } else {
                Seq::empty()
            },
            None => seq![s[i]] + replaced_from(s, i + 1, vals),
        }
    }
}

proof fn lemma_name_end_bounds(s: Seq<char>, a: int)
    requires
        0 <= a <= s.len(),
    ensures
        a <= name_end(s, a) <= s.len(),
    decreases s.len() - a,
{
    if a < s.len() && !is_whitespace(s[a]) && s[a] != '}' {
        lemma_name_end_bounds(s, a + 1);
    }
}

/// Where the reference that starts at `i` ends, if one starts there.
fn find_reference_end(s: &Vec<char>, i: usize) -> (r: Option<usize>)
    requires
        i < s.len(),
    ensures
        match reference_end(s@, i as int) {
            Some(j) => r == Some(j as usize) && i + 2 <= j < s@.len(),
            None => r is None,
        },
{
    if !(i + 1 < s.len() && s[i] == '$' && s[i + 1] == '{') {
        return None;
    }
    let a = i + 2;
    let mut k: usize = a;
    while k < s.len() && !is_whitespace_char(s[k]) && s[k] != '}'
        invariant
            a <= k <= s@.len(),
            name_end(s@, a as int) == name_end(s@, k as int),
        decreases s.len() - k,
    {
        k = k + 1;
    }
    proof {
        lemma_name_end_bounds(s@, a as int);
    }
    if k < s.len() && s[k] == '}' {
        Some(k)
    } else {
        None
    }
}

/// The names of the environment variables that `input` references as
/// `${name}`, in order.
pub fn env_var_references(input: &str) -> (r: Vec<String>)
    ensures
        r@.map_values(|n: String| n@) == references_from(input@, 0),
{
    let s = chars_of(input);
    let mut names: Vec<String> = Vec::new();
    let mut i: usize = 0;
    while i < s.len()
        invariant
            s@ == input@,
            0 <= i <= s@.len(),
            names@.map_values(|n: String| n@) + references_from(s@, i as int) == references_from(s@, 0),
        decreases s.len() - i,
    {
        match find_reference_end(&s, i) {
            Some(j) => {
                let mut name: Vec<char> = Vec::new();
                let mut k: usize = i + 2;
                while k < j
                    invariant
                        i + 2 <= k <= j,
                        j < s@.len(),
                        name@ == s@.subrange(i + 2, k as int),
                    decreases j - k,
                {
                    name.push(s[k]);
                    k = k + 1;
                    assert(name@ =~= s@.subrange(i + 2, k as int));
                }
                let ghost before = names@.map_values(|n: String| n@);
                let n = string_of(&name);
                names.push(n);
                proof {
                    assert(names@.map_values(|n: String| n@) =~= before.push(n@));
                    assert(before.push(n@) + references_from(s@, j + 1) =~= before + (seq![s@.subrange(i + 2, j as int)]
                        + references_from(s@, j + 1)));
                }
                i = j + 1;
            },
            None => {
                i = i + 1;
            },
        }
    }
    proof {
        assert(names@.map_values(|n: String| n@) + references_from(s@, i as int) =~= names@.map_values(|n: String| n@));
    }
    names
}

/// Replace all env-var references of the format `"something ${foo}"` in a
/// string by the values `values` of the variables, given in the order of
/// [`env_var_references`].
pub fn replace_env_var_references(input: &str, values: &Vec<String>) -> (r: String)
    requires
        values@.len() == references_from(input@, 0).len(),
    ensures
        r@ == replaced_from(input@, 0, values@.map_values(|v: String| v@)),
{
    let ghost vals = values@.map_values(|v: String| v@);
    let s = chars_of(input);
    let mut out: Vec<char> = Vec::new();
    let mut i: usize = 0;
    let mut m: usize = 0;
    proof {
        assert(vals.skip(0) =~= vals);
        assert(references_from(s@, 0).skip(0) =~= references_from(s@, 0));
    }
    while i < s.len()
        invariant
            s@ == input@,
            vals == values@.map_values(|v: String| v@),
            0 <= i <= s@.len(),
            0 <= m <= vals.len(),
            references_from(s@, i as int) == references_from(s@, 0).skip(m as int),
            vals.len() == references_from(s@, 0).len(),
            out@ + replaced_from(s@, i as int, vals.skip(m as int)) == replaced_from(s@, 0, vals),
        decreases s.len() - i,
    {
        match find_reference_end(&s, i) {
            Some(j) => {
                proof {
                    assert(references_from(s@, 0).skip(m as int).len() > 0);
                }
                assert(m < values.len());
                let v = &values[m];
                let ghost before = out@;
                let vc = chars_of(v.as_str());
                let mut k: usize = 0;
                while k < vc.len()
                    invariant
                        0 <= k <= vc@.len(),
                        out@ == before + vc@.take(k as int),
                    decreases vc.len() - k,
                {
                    out.push(vc[k]);
                    k = k + 1;
                    assert(out@ =~= before + vc@.take(k as int));
                }
                proof {
                    assert(vc@.take(vc@.len() as int) =~= vc@);
                    assert(vals.skip(m as int)[0] == vc@);
                    assert(vals.skip(m as int).drop_first() =~= vals.skip(m + 1));
                    assert(references_from(s@, 0).skip(m as int).drop_first() =~= references_from(s@, 0).skip(m + 1));
                    assert(out@ + replaced_from(s@, j + 1, vals.skip(m + 1)) =~= before + (vals.skip(m as int)[0]
                        + replaced_from(s@, j + 1, vals.skip(m as int).drop_first())));
                }
                i = j + 1;
                m = m + 1;
            },
            None => {
                let ghost before = out@;
                out.push(s[i]);
                proof {
                    assert(out@ + replaced_from(s@, i + 1, vals.skip(m as int)) =~= before + (seq![s@[i as int]]
                        + replaced_from(s@, i + 1, vals.skip(m as int))));
                }
                i = i + 1;
            },
        }
    }
    proof {
        assert(out@ + replaced_from(s@, i as int, vals.skip(m as int)) =~= out@);
    }
    string_of(&out)
}

} // verus!
