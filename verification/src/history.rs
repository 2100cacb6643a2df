//! The points that the graph widgets draw: each with the time it was taken,
//! the newest last, and only as many as the time range of the graph shows.
//! Times are milliseconds of a monotonic clock; the values are whatever the
//! graph draws.

use vstd::prelude::*;
use std::collections::VecDeque;

verus! {

/// How many milliseconds before `now` the time `t` lies: none when `t` is
/// not earlier.
pub open spec fn age(now: u64, t: u64) -> nat {
    if now >= t {
        (now - t) as nat
    } else {
        0
    }
}

/// How many points at the start of `s` lie further back than `time_range`
/// milliseconds before `now`.
pub open spec fn expired_prefix<T>(s: Seq<(u64, T)>, now: u64, time_range: u64) -> nat
    decreases s.len(),
{
    if s.len() > 0 && age(now, s[0].0) > time_range {
        1 + expired_prefix(s.drop_first(), now, time_range)
    } else {
        0
    }
}

proof fn lemma_expired_prefix_len<T>(s: Seq<(u64, T)>, now: u64, time_range: u64)
    ensures
        expired_prefix(s, now, time_range) <= s.len(),
    decreases s.len(),
{
    if s.len() > 0 {
        lemma_expired_prefix_len(s.drop_first(), now, time_range);
    }
}

proof fn lemma_expired_prefix_stops<T>(s: Seq<(u64, T)>, now: u64, time_range: u64)
    ensures
        expired_prefix(s, now, time_range) <= s.len(),
        forall|i: int| 0 <= i < expired_prefix(s, now, time_range) ==> age(now, #[trigger] s[i].0) > time_range,
        expired_prefix(s, now, time_range) < s.len() ==> age(now, s[expired_prefix(s, now, time_range) as int].0)
            <= time_range,
    decreases s.len(),
{
    if s.len() > 0 && age(now, s[0].0) > time_range {
        let t = s.drop_first();
        lemma_expired_prefix_stops(t, now, time_range);
        assert forall|i: int| 0 <= i < expired_prefix(s, now, time_range) implies age(now, #[trigger] s[i].0) > time_range by {
            if i > 0 {
                assert(s[i] == t[i - 1]);
            }
        }
    }
}

/// When the points came in the order of their times, none later than
/// `now`, the points that stay after an update at `now` all lie within the
/// time range.
pub proof fn law_history_stays_in_range<T>(s: Seq<(u64, T)>, now: u64, time_range: u64)
    requires
        forall|i: int, j: int| 0 <= i <= j < s.len() ==> #[trigger] s[i].0 <= #[trigger] s[j].0,
        forall|i: int| 0 <= i < s.len() ==> #[trigger] s[i].0 <= now,
    ensures
        forall|j: int| 0 <= j < s.skip(expired_prefix(s, now, time_range) as int).len()
            ==> age(now, #[trigger] s.skip(expired_prefix(s, now, time_range) as int)[j].0) <= time_range,
{
    lemma_expired_prefix_stops(s, now, time_range);
    let k = expired_prefix(s, now, time_range) as int;
    let rest = s.skip(k);
    assert forall|j: int| 0 <= j < rest.len() implies age(now, #[trigger] rest[j].0) <= time_range by {
        assert(rest[j] == s[k + j]);
        assert(rest[0] == s[k]);
        assert(s[k].0 <= s[k + j].0);
    }
}

/// The points of a graph.
#[derive(Debug)]
pub struct History<T> {
    /// The points within the time range, the newest last.
    pub history: VecDeque<(u64, T)>,
    /// The newest point that left the time range: the graph draws its line
    /// from it to the first point of the history.
    pub extra_point: Option<(u64, T)>,
    /// When the history was last updated.
    pub last_updated_at: u64,
}

impl<T> History<T> {
    /// An empty history, last updated at `now`.
    pub fn new(now: u64) -> (h: Self)
        ensures
            h.history@ == Seq::<(u64, T)>::empty(),
            h.extra_point is None,
            h.last_updated_at == now,
    {
        History { history: VecDeque::new(), extra_point: None, last_updated_at: now }
    }

    /// Adds the point `v` at `now`, after the points that lie further back
    /// than `time_range` milliseconds are dropped from the front; the last
    /// of those becomes the extra point.
    pub fn update_history(&mut self, now: u64, time_range: u64, v: (u64, T))
        ensures
            ({
                let k = expired_prefix(old(self).history@, now, time_range);
                &&& final(self).history@ == old(self).history@.skip(k as int).push(v)
                &&& final(self).extra_point == if k > 0 {
                    Some(old(self).history@[k - 1])
                } else {
                    old(self).extra_point
                }
                &&& final(self).last_updated_at == now
            }),
    {
        self.last_updated_at = now;
        let ghost s = self.history@;
        let ghost e = self.extra_point;
        let ghost mut i: int = 0;
        proof {
            lemma_expired_prefix_len(s, now, time_range);
            assert(s.skip(0) =~= s);
        }
        loop
            invariant
                0 <= i <= s.len(),
                self.history@ == s.skip(i),
                expired_prefix(s, now, time_range) == i + expired_prefix(s.skip(i), now, time_range),
                self.extra_point == if i > 0 { Some(s[i - 1]) } else { e },
                self.last_updated_at == now,
            ensures
                i == expired_prefix(s, now, time_range),
                self.history@ == s.skip(i),
                self.extra_point == if i > 0 { Some(s[i - 1]) } else { e },
                self.last_updated_at == now,
            decreases self.history@.len(),
        {
            if self.history.len() == 0 {
                break;
            }
            let front = self.history[0].0;
            if !(now >= front && now - front > time_range) {
                break;
            }
            let ghost before = self.history@;
            self.extra_point = self.history.pop_front();
            proof {
                assert(before.drop_first() =~= s.skip(i + 1));
                assert(before[0] == s[i]);
                i = i + 1;
            }
        }
        self.history.push_back(v);
    }
}

} // verus!
