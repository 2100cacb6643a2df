//! System values that widgets can show.

use std::time::{Duration, Instant};
use vstd::prelude::*;
use crate::text::{chars_of, first_index, i64_to_string, int_decimal, is_ascii_digit, push_str, string_of};

verus! {

/// `std::time::Instant`.
#[verifier::external_type_specification]
#[verifier::external_body]
pub struct ExInstant(Instant);

/// The time from `earlier` to `later`, as `Instant::duration_since` of std
/// gives it.
pub uninterp spec fn duration_between(later: Instant, earlier: Instant) -> Duration;

/// `Instant::now` of std: the current instant; nothing is known of it.
#[verifier::external_body]
fn instant_now() -> Instant {
    Instant::now()
}

/// `Instant::duration_since` of std: the time from `earlier` to `later`.
#[verifier::external_body]
fn duration_since(later: &Instant, earlier: &Instant) -> (d: Duration)
    ensures
        d == duration_between(*later, *earlier),
{
    later.duration_since(*earlier)
}

/// The instant of the last refresh of a value that is measured per time.
pub struct RefreshTime(pub Instant);

impl RefreshTime {
    /// Starts at the current instant.
    pub fn new() -> Self {
        RefreshTime(instant_now())
    }

    /// Moves to the current instant, and returns the time since the
    /// previous one.
    pub fn next_refresh(&mut self) -> (d: Duration)
        ensures
            d == duration_between(final(self).0, old(self).0),
    {
        let now = instant_now();
        let duration = duration_since(&now, &self.0);
        self.0 = now;
        duration
    }
}

/// The text of the time `t`, in seconds since the Unix epoch, in decimal:
/// what the magic variable of the current time shows.
pub fn time_string(t: i64) -> (s: String)
    ensures
        s@ == int_decimal(t as int),
{
    i64_to_string(t)
}

/// Where the run of ASCII digits that ends at `p` starts.
pub open spec fn digit_run_start(s: Seq<char>, p: int) -> int
    decreases p,
{
    if p > 0 && is_ascii_digit(s[p - 1]) {
        digit_run_start(s, p - 1)
    } else {
        p
    }
}

/// The second of the pieces of `s` between `;`: what lies between the first
/// `;` and the next one, or the end.
pub open spec fn second_piece(s: Seq<char>) -> Seq<char> {
    let a = first_index(s, ';')->0;
    let rest = s.subrange(a + 1, s.len() as int);
    match first_index(rest, ';') {
        Some(b) => rest.subrange(0, b),
        None => rest,
    }
}

proof fn lemma_digit_run_start(s: Seq<char>, p: int)
    requires
        0 <= p <= s.len(),
    ensures
        0 <= digit_run_start(s, p) <= p,
        forall|i: int| digit_run_start(s, p) <= i < p ==> is_ascii_digit(#[trigger] s[i]),
        digit_run_start(s, p) == 0 || !is_ascii_digit(s[digit_run_start(s, p) - 1]),
    decreases p,
{
    if p > 0 && is_ascii_digit(s[p - 1]) {
        lemma_digit_run_start(s, p - 1);
    }
}

/// The battery values that `pmset -g batt` prints, as JSON: the number
/// before the first `%` (the digits right before it, as the pattern
/// `[0-9]*%` finds them) and the second piece between `;`.
pub open spec fn pmset_battery_json(s: Seq<char>) -> Seq<char> {
    let p = first_index(s, '%')->0;
    let number = s.subrange(digit_run_start(s, p), p);
    "{ \"BAT0\": { \"capacity\": \""@ + number + "\", \"status\": \""@ + second_piece(s) + "\" }}"@
}

proof fn lemma_first_occurrence(s: Seq<char>, c: char, n: int) -> (p: int)
    requires
        0 <= n <= s.len(),
        exists|i: int| 0 <= i < n && s[i] == c,
    ensures
        0 <= p < n,
        s[p] == c,
        forall|j: int| 0 <= j < p ==> s[j] != c,
        first_index(s, c) == Some(p),
    decreases n,
{
    if exists|i: int| 0 <= i < n - 1 && s[i] == c {
        lemma_first_occurrence(s, c, n - 1)
    } else {
        lemma_first_index(s, c, n - 1);
        n - 1
    }
}

/// The capacity in the battery JSON is the number right before the first
/// `%` of what `pmset` printed: a run of ASCII digits that ends at that `%`
/// and that no further digit precedes.
pub proof fn law_pmset_capacity_is_the_digits_before_percent(s: Seq<char>)
    requires
        exists|i: int| 0 <= i < s.len() && s[i] == '%',
    ensures
        exists|p: int, q: int|
            0 <= q <= p < s.len() && s[p] == '%' && (forall|j: int| 0 <= j < p ==> s[j] != '%')
            && (forall|i: int| q <= i < p ==> is_ascii_digit(#[trigger] s[i]))
            && (q == 0 || !is_ascii_digit(s[q - 1]))
            && pmset_battery_json(s) == "{ \"BAT0\": { \"capacity\": \""@ + #[trigger] s.subrange(q, p)
                + "\", \"status\": \""@ + second_piece(s) + "\" }}"@,
{
    let w = choose|i: int| 0 <= i < s.len() && s[i] == '%';
    let p = lemma_first_occurrence(s, '%', w + 1);
    lemma_digit_run_start(s, p);
    let q = digit_run_start(s, p);
    assert(pmset_battery_json(s) == "{ \"BAT0\": { \"capacity\": \""@ + s.subrange(q, p) + "\", \"status\": \""@
        + second_piece(s) + "\" }}"@);
}

/// The position of the first `c` in `s` at or after `from`, or the length
/// of `s` when there is none.
fn find_char(s: &Vec<char>, c: char, from: usize) -> (r: usize)
    requires
        from <= s@.len(),
    ensures
        from <= r <= s@.len(),
        forall|j: int| from <= j < r ==> s@[j] != c,
        r < s@.len() ==> s@[r as int] == c,
{
    let mut i: usize = from;
    while i < s.len() && s[i] != c
        invariant
            from <= i <= s@.len(),
            forall|j: int| from <= j < i ==> s@[j] != c,
        decreases s.len() - i,
    {
        i = i + 1;
    }
    i
}

proof fn lemma_first_index(s: Seq<char>, c: char, i: int)
    requires
        0 <= i <= s.len(),
        forall|j: int| 0 <= j < i ==> s[j] != c,
        i < s.len() ==> s[i] == c,
    ensures
        i < s.len() ==> first_index(s, c) == Some(i),
        i == s.len() ==> first_index(s, c) is None,
{
    if i < s.len() {
        let k = first_index(s, c)->0;
        assert(s[i] == c);
        if k < i {
            assert(s[k] != c);
        }
        if i < k {
            assert(s[i] != c);
        }
    }
}

/// Appends `s[from..to]` to `out`.
fn push_range(out: &mut Vec<char>, s: &Vec<char>, from: usize, to: usize)
    requires
        from <= to <= s.len(),
    ensures
        final(out)@ == old(out)@ + s@.subrange(from as int, to as int),
{
    let mut i: usize = from;
    while i < to
        invariant
            from <= i <= to,
            to <= s@.len(),
            out@ == old(out)@ + s@.subrange(from as int, i as int),
        decreases to - i,
    {
        out.push(s[i]);
        i = i + 1;
        assert(out@ =~= old(out)@ + s@.subrange(from as int, i as int));
    }
}

#[verifier::rlimit(50)]
proof fn lemma_second_piece(s: Seq<char>, a: int, b: int)
    requires
        first_index(s, ';') == Some(a),
        0 <= a < s.len(),
        a + 1 <= b <= s.len(),
        forall|j: int| a + 1 <= j < b ==> s[j] != ';',
        b < s.len() ==> s[b] == ';',
    ensures
        second_piece(s) == s.subrange(a + 1, b),
{
    let rest = s.subrange(a + 1, s.len() as int);
    let k = b - (a + 1);
    assert forall|j: int| 0 <= j < k implies #[trigger] rest[j] != ';' by {
        assert(rest[j] == s[a + 1 + j]);
        assert(a + 1 <= a + 1 + j < b);
    }
    if b < s.len() {
        assert(rest[k] == s[b]);
    }
    lemma_first_index(rest, ';', k);
    if b < s.len() {
        assert(rest.subrange(0, k) =~= s.subrange(a + 1, b));
    } else {
        assert(rest =~= s.subrange(a + 1, b));
    }
}

/// The battery values of macOS from the output of `pmset -g batt`, as JSON:
/// the capacity and the status. The output holds a `%` and a `;`.
#[verifier::rlimit(30)]
pub fn battery_from_pmset(capacity: &str) -> (r: String)
    requires
        first_index(capacity@, '%') is Some,
        first_index(capacity@, ';') is Some,
    ensures
        r@ == pmset_battery_json(capacity@),
{
    let s = chars_of(capacity);
    let p = find_char(&s, '%', 0);
    proof {
        lemma_first_index(s@, '%', p as int);
    }
    let mut q: usize = p;
    while q > 0 && '0' <= s[q - 1] && s[q - 1] <= '9'
        invariant
            q <= p < s@.len(),
            digit_run_start(s@, p as int) == digit_run_start(s@, q as int),
        decreases q,
    {
        q = q - 1;
    }
    let a = find_char(&s, ';', 0);
    proof {
        lemma_first_index(s@, ';', a as int);
    }
    let b = find_char(&s, ';', a + 1);
    proof {
        lemma_second_piece(s@, a as int, b as int);
    }
    let mut out: Vec<char> = Vec::new();
    push_str(&mut out, "{ \"BAT0\": { \"capacity\": \"");
    push_range(&mut out, &s, q, p);
    push_str(&mut out, "\", \"status\": \"");
    push_range(&mut out, &s, a + 1, b);
    push_str(&mut out, "\" }}");
    proof {
        assert(out@ =~= pmset_battery_json(capacity@));
    }
    string_of(&out)
}

} // verus!
