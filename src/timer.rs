use vstd::prelude::*;
use vstd::string::StringExecFns;
use crate::chars::{decimal, push_decimal};

verus! {

#[verifier::external_type_specification]
#[verifier::external_body]
pub struct ExInstant(std::time::Instant);

/// Relies on `std::time::Instant::now`: a reading of the monotonic clock.
#[verifier::external_body]
fn clock_now() -> (r: std::time::Instant) {
    std::time::Instant::now()
}

/// Relies on `std::time::Instant::elapsed`: the time since `start`, in whole nanoseconds.
#[verifier::external_body]
fn nanos_since(start: &std::time::Instant) -> (r: u128) {
    start.elapsed().as_nanos()
}

/// The sum of the recorded times.
pub open spec fn sum(s: Seq<u128>) -> int
    decreases s.len(),
{
    if s.len() == 0 {
        0
    } else {
        sum(s.drop_last()) + s.last()
    }
}

proof fn lemma_sum_prefix(s: Seq<u128>, i: int)
    requires
        0 <= i <= s.len(),
    ensures
        0 <= sum(s.subrange(0, i)) <= sum(s),
    decreases s.len() - i,
{
    if i == s.len() {
        assert(s.subrange(0, i) =~= s);
        lemma_sum_nonneg(s);
    } else {
        assert(s.drop_last().subrange(0, i) =~= s.subrange(0, i));
        lemma_sum_prefix(s.drop_last(), i);
    }
}

proof fn lemma_sum_nonneg(s: Seq<u128>)
    ensures
        sum(s) >= 0,
    decreases s.len(),
{
    if s.len() > 0 {
        lemma_sum_nonneg(s.drop_last());
    }
}

/// A timer that times several calls and keeps each time, in nanoseconds.
pub struct Timer {
    times: Vec<u128>,
}

impl Timer {
    /// The recorded times, in order.
    pub closed spec fn times(&self) -> Seq<u128> {
        self.times@
    }

    /// A timer with no times recorded.
    pub fn new() -> (r: Timer)
        ensures
            r.times() == Seq::<u128>::empty(),
    {
        Timer { times: Vec::new() }
    }

    /// Calls `function`, records how long it took, and returns that time with its result.
    pub fn time<F, R>(&mut self, function: F) -> (r: (u128, R))
        where
            F: FnOnce() -> R,
        requires
            function.requires(()),
        ensures
            function.ensures((), r.1),
            final(self).times() == old(self).times().push(r.0),
    {
        let start = clock_now();
        let result = function();
        let elapsed = nanos_since(&start);
        self.times.push(elapsed);
        (elapsed, result)
    }

    /// The sum of all recorded times.
    pub fn total_time(&self) -> (r: u128)
        requires
            sum(self.times()) <= u128::MAX,
        ensures
            r == sum(self.times()),
    {
        let mut total: u128 = 0;
        let mut i: usize = 0;
        assert(self.times@.subrange(0, 0) =~= Seq::<u128>::empty());
        while i < self.times.len()
            invariant
                i <= self.times@.len(),
                sum(self.times@) <= u128::MAX,
                total == sum(self.times@.subrange(0, i as int)),
            decreases self.times.len() - i,
        {
            assert(self.times@.subrange(0, i + 1).drop_last() =~= self.times@.subrange(0, i as int));
            proof {
                lemma_sum_prefix(self.times@, i + 1);
            }
            total = total + self.times[i];
            i = i + 1;
        }
        assert(self.times@.subrange(0, i as int) =~= self.times@);
        total
    }
}

/// The length in nanoseconds of unit `i`, from years (a year of 365.25 days, a month of a
/// twelfth of that) down to nanoseconds.
pub open spec fn unit_nanos(i: int) -> int {
    if i == 0 {
        31_557_600_000_000_000
    } else if i == 1 {
        2_629_800_000_000_000
    } else if i == 2 {
        86_400_000_000_000
    } else if i == 3 {
        3_600_000_000_000
    } else if i == 4 {
        60_000_000_000
    } else if i == 5 {
        1_000_000_000
    } else if i == 6 {
        1_000_000
    } else if i == 7 {
        1_000
    } else {
        1
    }
}

pub open spec fn unit_name(i: int) -> Seq<char> {
    if i == 0 {
        "year"@
    } else if i == 1 {
        "month"@
    } else if i == 2 {
        "day"@
    } else if i == 3 {
        "hour"@
    } else if i == 4 {
        "minute"@
    } else if i == 5 {
        "second"@
    } else if i == 6 {
        "millisecond"@
    } else if i == 7 {
        "microsecond"@
    } else {
        "nanosecond"@
    }
}

/// `count` of unit `i`, in words: "1 day", "3 hours".
pub open spec fn part(count: nat, i: int) -> Seq<char> {
    decimal(count) + seq![' '] + unit_name(i) + if count > 1 { seq!['s'] } else { seq![] }
}

/// The parts, from unit `i` on, of a time of `n` nanoseconds: each unit that is not zero,
/// largest first, after the larger units have taken their share.
pub open spec fn parts(n: nat, i: int) -> Seq<Seq<char>>
    decreases 9 - i,
{
    if i >= 9 || i < 0 {
        seq![]
    } else {
        let c = n / (unit_nanos(i) as nat);
        (if c > 0 { seq![part(c, i)] } else { seq![] }) + parts(n % (unit_nanos(i) as nat), i + 1)
    }
}

/// The parts joined by ", ".
pub open spec fn comma_join(ps: Seq<Seq<char>>) -> Seq<char>
    decreases ps.len(),
{
    if ps.len() == 0 {
        seq![]
    } else if ps.len() == 1 {
        ps[0]
    } else {
        comma_join(ps.drop_last()) + ", "@ + ps.last()
    }
}

/// The parts in a list: "a", "a, b", "a, b, and c".
pub open spec fn listed(ps: Seq<Seq<char>>) -> Seq<char> {
    if ps.len() <= 1 {
        comma_join(ps)
    } else {
        comma_join(ps.drop_last()) + (if ps.len() >= 3 { ", and "@ } else { ", "@ }) + ps.last()
    }
}

/// A time in words: `format_time` of `n` nanoseconds.
pub open spec fn time_in_words(n: nat) -> Seq<char> {
    listed(parts(n, 0))
}

fn unit_of(i: usize) -> (r: (u128, &'static str))
    requires
        i < 9,
    ensures
        r.0 as int == unit_nanos(i as int),
        r.1@ == unit_name(i as int),
{
    if i == 0 {
        (31_557_600_000_000_000, "year")
    } else if i == 1 {
        (2_629_800_000_000_000, "month")
    } else if i == 2 {
        (86_400_000_000_000, "day")
    } else if i == 3 {
        (3_600_000_000_000, "hour")
    } else if i == 4 {
        (60_000_000_000, "minute")
    } else if i == 5 {
        (1_000_000_000, "second")
    } else if i == 6 {
        (1_000_000, "millisecond")
    } else if i == 7 {
        (1_000, "microsecond")
    } else {
        (1, "nanosecond")
    }
}

/// Formats a time in nanoseconds in words, largest unit first, leaving out units that are
/// zero: "1 day, 2 hours, and 5 nanoseconds". A time of zero gives an empty string.
pub fn format_time(nanos: u128) -> (r: String)
    ensures
        r@ == time_in_words(nanos as nat),
{
    let mut rest = nanos;
    let mut words: Vec<String> = Vec::new();
    let mut i: usize = 0;
    while i < 9
        invariant
            i <= 9,
            parts(nanos as nat, 0) == words@.map_values(|w: String| w@) + parts(rest as nat, i as int),
        decreases 9 - i,
    {
        let (size, name) = unit_of(i);
        let count = rest / size;
        let ghost before = words@.map_values(|w: String| w@);
        if count > 0 {
            let mut w = String::new();
            push_decimal(&mut w, count);
            w.append(" ");
            w.append(name);
            if count > 1 {
                w.append("s");
            }
            proof {
                reveal_strlit(" ");
                reveal_strlit("s");
                assert(w@ =~= part(count as nat, i as int));
            }
            words.push(w);
        }
        proof {
            let after = words@.map_values(|w: String| w@);
            if count > 0 {
                assert(after =~= before.push(part(count as nat, i as int)));
            } else {
                assert(after =~= before);
            }
            assert(before + parts(rest as nat, i as int) =~= after + parts((rest % size) as nat, i + 1));
        }
        rest = rest % size;
        i = i + 1;
    }
    let ghost ws = words@.map_values(|w: String| w@);
    assert(ws =~= parts(nanos as nat, 0));
    let n = words.len();
    let mut r = String::new();
    if n == 0 {
        return r;
    }
    let mut k: usize = 0;
    while k < n - 1
        invariant
            n == words@.len(),
            ws == words@.map_values(|w: String| w@),
            k <= n - 1,
            r@ == comma_join(ws.subrange(0, k as int)),
        decreases n - 1 - k,
    {
        if k > 0 {
            r.append(", ");
        }
        r.append(words[k].as_str());
        proof {
            let pre = ws.subrange(0, k + 1);
            assert(pre.drop_last() =~= ws.subrange(0, k as int));
            assert(r@ =~= comma_join(pre));
        }
        k = k + 1;
    }
    if n >= 2 {
        if n >= 3 {
            r.append(", and ");
        } else {
            r.append(", ");
        }
    }
    r.append(words[n - 1].as_str());
    proof {
        assert(ws.drop_last() =~= ws.subrange(0, n - 1));
        if n == 1 {
            assert(r@ =~= comma_join(ws));
        }
    }
    r
}

} // verus!
