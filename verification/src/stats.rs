//! Statistics of measured round trips, in whole microseconds.
use vstd::prelude::*;

verus! {

/// The sum of the first `n` timings.
pub open spec fn sum_upto(timings: Seq<u128>, n: nat) -> nat
    decreases n,
{
    if n == 0 {
        0
    } else {
        sum_upto(timings, (n - 1) as nat) + timings[n - 1] as nat
    }
}

/// The sum of all timings.
pub open spec fn sum(timings: Seq<u128>) -> nat {
    sum_upto(timings, timings.len())
}

/// The average, rounded down.
pub open spec fn mean(timings: Seq<u128>) -> nat {
    sum(timings) / timings.len()
}

/// The square of the distance of a timing from `center`.
pub open spec fn squared_distance(timing: u128, center: nat) -> nat {
    ((timing - center) * (timing - center)) as nat
}

/// The sum of the squared distances of the first `n` timings from `center`.
pub open spec fn spread_upto(timings: Seq<u128>, center: nat, n: nat) -> nat
    decreases n,
{
    if n == 0 {
        0
    } else {
        spread_upto(timings, center, (n - 1) as nat) + squared_distance(timings[n - 1], center)
    }
}

/// The average squared distance from the average, rounded down.
pub open spec fn variance(timings: Seq<u128>) -> nat {
    spread_upto(timings, mean(timings), timings.len()) / timings.len()
}

/// Whether no timing is larger than a later one.
pub open spec fn ascending(timings: Seq<u128>) -> bool {
    forall|i: int, j: int|
        0 <= i <= j < timings.len() ==> #[trigger] timings[i] <= #[trigger] timings[j]
}

/// Whether the timings can be summarised in 128 bits.
pub open spec fn summable(timings: Seq<u128>) -> bool {
    &&& timings.len() > 0
    &&& sum(timings) <= u128::MAX
    &&& forall|i: int|
        0 <= i < timings.len() ==> (#[trigger] timings[i]) <= i128::MAX && squared_distance(
            timings[i],
            mean(timings),
        ) <= i128::MAX
    &&& spread_upto(timings, mean(timings), timings.len()) <= u128::MAX
}

/// The sum of fewer timings is no larger.
proof fn sums_grow(timings: Seq<u128>, n: nat)
    requires
        n <= timings.len(),
    ensures
        sum_upto(timings, n) <= sum(timings),
    decreases timings.len() - n,
{
    if n < timings.len() {
        sums_grow(timings, n + 1);
    }
}

/// The spread of fewer timings is no larger.
proof fn spreads_grow(timings: Seq<u128>, center: nat, n: nat)
    requires
        n <= timings.len(),
    ensures
        spread_upto(timings, center, n) <= spread_upto(timings, center, timings.len()),
    decreases timings.len() - n,
{
    if n < timings.len() {
        spreads_grow(timings, center, n + 1);
    }
}

/// A sum lies between the counts of its least and its largest timing.
proof fn sum_is_bounded(timings: Seq<u128>, low: nat, high: nat, n: nat)
    requires
        n <= timings.len(),
        forall|i: int| 0 <= i < timings.len() ==> low <= (#[trigger] timings[i]) <= high,
    ensures
        n * low <= sum_upto(timings, n) <= n * high,
    decreases n,
{
    if n > 0 {
        let m = (n - 1) as nat;
        sum_is_bounded(timings, low, high, m);
        assert(low <= timings[n - 1] <= high);
        assert(n * low == m * low + low) by (nonlinear_arith)
            requires
                n == m + 1,
        ;
        assert(n * high == m * high + high) by (nonlinear_arith)
            requires
                n == m + 1,
        ;
    } else {
        assert(n * low == 0 && n * high == 0) by (nonlinear_arith)
            requires
                n == 0,
        ;
    }
}

/// The average lies between the least and the largest timing.
pub proof fn mean_is_between(timings: Seq<u128>)
    requires
        timings.len() > 0,
        ascending(timings),
    ensures
        timings[0] <= mean(timings) <= timings[timings.len() - 1],
{
    let n = timings.len();
    let low = timings[0] as nat;
    let high = timings[n - 1] as nat;
    assert forall|i: int| 0 <= i < n implies low <= (#[trigger] timings[i]) <= high by {
        assert(timings[0] <= timings[i]);
        assert(timings[i] <= timings[n - 1]);
    }
    sum_is_bounded(timings, low, high, n);
    let s = sum(timings);
    assert(low <= s / n <= high) by (nonlinear_arith)
        requires
            n > 0,
            n * low <= s <= n * high,
    ;
}

/// `sort` on a slice puts its elements in ascending order.
#[verifier::external_body]
fn sort_slice(timings: &mut Vec<u128>)
    ensures
        final(timings)@.to_multiset() == old(timings)@.to_multiset(),
        ascending(final(timings)@),
{
    timings.sort()
}

/// Puts timings in ascending order.
pub fn sort(timings: &mut Vec<u128>)
    ensures
        final(timings)@.to_multiset() == old(timings)@.to_multiset(),
        ascending(final(timings)@),
{
    sort_slice(timings);
}

/// What a run of measurements comes to.
#[derive(Clone, Copy, Debug, PartialEq, Eq, Structural)]
pub struct Summary {
    pub med: u128,
    pub avg: u128,
    /// The variance: the root that would make it a deviation is not taken.
    pub std_dev: u128,
    pub min: u128,
    pub max: u128,
}

/// The sum of the timings, or nothing when it does not fit in 128 bits.
pub fn checked_sum(timings: &Vec<u128>) -> (r: Option<u128>)
    ensures
        r is Some <==> sum(timings@) <= u128::MAX,
        r matches Some(total) ==> total == sum(timings@),
{
    let mut total: u128 = 0;
    let mut i: usize = 0;
    while i < timings.len()
        invariant
            i <= timings@.len(),
            total == sum_upto(timings@, i as nat),
        decreases timings@.len() - i,
    {
        proof {
            sums_grow(timings@, (i + 1) as nat);
        }
        match total.checked_add(timings[i]) {
            Some(next) => {
                total = next;
            },
            None => {
                return None;
            },
        }
        i += 1;
    }
    Some(total)
}

/// Whether the timings can be summarised in 128 bits.
pub fn can_summarise(timings: &Vec<u128>) -> (r: bool)
    ensures
        r == summable(timings@),
{
    let n: usize = timings.len();
    if n == 0 {
        return false;
    }
    if checked_sum(timings).is_none() {
        return false;
    }
    let mut i: usize = 0;
    while i < n
        invariant
            i <= n,
            n == timings@.len(),
            forall|k: int| 0 <= k < i ==> (#[trigger] timings@[k]) <= i128::MAX,
        decreases n - i,
    {
        if timings[i] > i128::MAX as u128 {
            return false;
        }
        i += 1;
    }
    proof {
        let s = sum(timings@);
        let m = n as nat;
        let high = i128::MAX as nat;
        sum_is_bounded(timings@, 0, high, m);
        assert(s / m <= high) by (nonlinear_arith)
            requires
                m > 0,
                s <= m * high,
        ;
    }
    let center: i128 = average(timings) as i128;
    let mut spread: u128 = 0;
    let mut j: usize = 0;
    while j < n
        invariant
            j <= n,
            n == timings@.len(),
            0 <= center,
            center == mean(timings@),
            forall|k: int| 0 <= k < n ==> (#[trigger] timings@[k]) <= i128::MAX,
            forall|k: int|
                0 <= k < j ==> squared_distance(#[trigger] timings@[k], center as nat) <= i128::MAX,
            spread == spread_upto(timings@, center as nat, j as nat),
        decreases n - j,
    {
        let t: u128 = timings[j];
        let distance: i128 = t as i128 - center;
        assert(distance * distance >= 0) by (nonlinear_arith);
        assert(squared_distance(t, center as nat) == distance * distance);
        let square: u128 = match distance.checked_mul(distance) {
            Some(square) => square as u128,
            None => {
                return false;
            },
        };
        proof {
            spreads_grow(timings@, center as nat, (j + 1) as nat);
        }
        match spread.checked_add(square) {
            Some(next) => {
                spread = next;
            },
            None => {
                return false;
            },
        }
        j += 1;
    }
    true
}

/// The average timing.
pub fn average(timings: &Vec<u128>) -> (r: u128)
    requires
        timings@.len() > 0,
        sum(timings@) <= u128::MAX,
    ensures
        r == mean(timings@),
{
    match checked_sum(timings) {
        Some(total) => total / timings.len() as u128,
        None => 0,
    }
}

/// Summarises timings in ascending order. What is called the deviation is the
/// average squared distance from the average.
pub fn summarise(timings: &Vec<u128>) -> (r: Summary)
    requires
        summable(timings@),
        ascending(timings@),
    ensures
        r.min == timings@[0],
        r.max == timings@[timings@.len() - 1],
        r.med == timings@[timings@.len() as int / 2],
        r.avg == mean(timings@),
        r.std_dev == variance(timings@),
        r.min <= r.med <= r.max,
        r.min <= r.avg <= r.max,
{
    let n: usize = timings.len();
    let avg: u128 = average(timings);
    proof {
        mean_is_between(timings@);
    }
    let center: i128 = avg as i128;
    let mut spread: u128 = 0;
    let mut i: usize = 0;
    while i < n
        invariant
            i <= n,
            n == timings@.len(),
            summable(timings@),
            avg == mean(timings@),
            center == avg,
            spread == spread_upto(timings@, avg as nat, i as nat),
        decreases n - i,
    {
        proof {
            spreads_grow(timings@, avg as nat, (i + 1) as nat);
        }
        let t: u128 = timings[i];
        let distance: i128 = t as i128 - center;
        assert(squared_distance(t, avg as nat) <= i128::MAX);
        assert(distance * distance >= 0) by (nonlinear_arith);
        let square: i128 = distance * distance;
        spread = spread + square as u128;
        i += 1;
    }
    Summary {
        med: timings[n / 2],
        avg,
        std_dev: spread / n as u128,
        min: timings[0],
        max: timings[n - 1],
    }
}

/// The points of the percentile graph: for each percent, the timing that so
/// many percent of the timings, in ascending order, come before.
pub fn percentiles(timings: &Vec<u128>) -> (r: Vec<(u128, u128)>)
    requires
        timings@.len() > 0,
        timings@.len() * 99 <= usize::MAX,
    ensures
        r@.len() == 100,
        forall|i: int|
            0 <= i < 100 ==> (#[trigger] r@[i]).0 == i && r@[i].1 == timings@[timings@.len() * i
                / 100],
{
    let n: usize = timings.len();
    let mut r: Vec<(u128, u128)> = Vec::new();
    let mut i: usize = 0;
    while i < 100
        invariant
            i <= 100,
            n == timings@.len(),
            n > 0,
            n * 99 <= usize::MAX,
            r@.len() == i,
            forall|k: int|
                0 <= k < i ==> (#[trigger] r@[k]).0 == k && r@[k].1 == timings@[n * k / 100],
        decreases 100 - i,
    {
        assert(n * i <= n * 99) by (nonlinear_arith)
            requires
                i <= 99,
                n > 0,
        ;
        assert(n * i / 100 < n) by (nonlinear_arith)
            requires
                i <= 99,
                n > 0,
        ;
        r.push((i as u128, timings[n * i / 100]));
        i += 1;
    }
    r
}

/// Where the upright axis of the percentile graph ends: at the timing that
/// 99.99 percent of the timings, in ascending order, come before.
pub fn percentile_height(timings: &Vec<u128>) -> (r: u128)
    requires
        timings@.len() > 0,
        ascending(timings@),
    ensures
        r == timings@[timings@.len() as int * 9999 / 10000],
{
    let n: usize = timings.len();
    let at: usize = (n as u128 * 9999 / 10000) as usize;
    timings[at]
}

/// The points of the line graph: each timing with its number.
pub fn line_points(timings: &Vec<u128>) -> (r: Vec<(u128, u128)>)
    ensures
        r@.len() == timings@.len(),
        forall|i: int|
            0 <= i < r@.len() ==> (#[trigger] r@[i]).0 == i && r@[i].1 == timings@[i],
{
    let mut r: Vec<(u128, u128)> = Vec::new();
    let mut i: usize = 0;
    while i < timings.len()
        invariant
            i <= timings@.len(),
            r@.len() == i,
            forall|k: int| 0 <= k < i ==> (#[trigger] r@[k]).0 == k && r@[k].1 == timings@[k],
        decreases timings@.len() - i,
    {
        r.push((i as u128, timings[i]));
        i += 1;
    }
    r
}

/// The largest timing.
pub fn largest(timings: &Vec<u128>) -> (r: u128)
    requires
        timings@.len() > 0,
    ensures
        timings@.contains(r),
        forall|i: int| 0 <= i < timings@.len() ==> (#[trigger] timings@[i]) <= r,
{
    let mut r: u128 = timings[0];
    let mut i: usize = 1;
    while i < timings.len()
        invariant
            1 <= i <= timings@.len(),
            timings@.contains(r),
            forall|k: int| 0 <= k < i ==> (#[trigger] timings@[k]) <= r,
        decreases timings@.len() - i,
    {
        if timings[i] > r {
            r = timings[i];
        }
        i += 1;
    }
    r
}

/// A horizontal line across the line graph, at a height.
pub fn level_line(count: usize, height: u128) -> (r: [(u128, u128); 2])
    ensures
        r@ == seq![(0u128, height), (count as u128, height)],
{
    let r = [(0u128, height), (count as u128, height)];
    assert(r@ =~= seq![(0u128, height), (count as u128, height)]);
    r
}

/// What the line graph shows: the extent of its axes, of which the upright one
/// ends ten above the largest timing, the timings in the order
/// in which they were taken, and a line each at the average and at one
/// deviation below and above it.
pub struct LineGraph {
    pub width: u128,
    pub height: u128,
    pub points: Vec<(u128, u128)>,
    pub average: [(u128, u128); 2],
    pub below: [(u128, u128); 2],
    pub above: [(u128, u128); 2],
}

/// Lays out the line graph, given the deviation of the timings.
pub fn line_graph(timings: &Vec<u128>, deviation: u128) -> (r: LineGraph)
    requires
        timings@.len() > 0,
        sum(timings@) <= u128::MAX,
        deviation <= mean(timings@),
        mean(timings@) + deviation <= u128::MAX,
        forall|i: int| 0 <= i < timings@.len() ==> (#[trigger] timings@[i]) + 10 <= u128::MAX,
    ensures
        r.width == timings@.len(),
        exists|i: int| 0 <= i < timings@.len() && (#[trigger] timings@[i]) + 10 == r.height,
        forall|i: int| 0 <= i < timings@.len() ==> (#[trigger] timings@[i]) + 10 <= r.height,
        r.points@.len() == timings@.len(),
        forall|i: int|
            0 <= i < r.points@.len() ==> (#[trigger] r.points@[i]).0 == i && r.points@[i].1
                == timings@[i],
        r.average@ == seq![(0u128, mean(timings@) as u128), (r.width, mean(timings@) as u128)],
        r.below@ == seq![
            (0u128, (mean(timings@) - deviation) as u128),
            (r.width, (mean(timings@) - deviation) as u128),
        ],
        r.above@ == seq![
            (0u128, (mean(timings@) + deviation) as u128),
            (r.width, (mean(timings@) + deviation) as u128),
        ],
{
    let n: usize = timings.len();
    let avg: u128 = average(timings);
    LineGraph {
        width: n as u128,
        height: largest(timings) + 10,
        points: line_points(timings),
        average: level_line(n, avg),
        below: level_line(n, avg - deviation),
        above: level_line(n, avg + deviation),
    }
}

/// The percentile graph of timings in ascending order never falls.
pub proof fn percentiles_never_fall(timings: Seq<u128>, i: int, j: int)
    requires
        timings.len() > 0,
        ascending(timings),
        0 <= i <= j < 100,
    ensures
        timings[timings.len() * i / 100] <= timings[timings.len() * j / 100],
{
    let n = timings.len() as int;
    assert(0 <= n * i / 100 <= n * j / 100 < n) by (nonlinear_arith)
        requires
            n > 0,
            0 <= i <= j < 100,
    ;
}

/// Sums add up: nothing sums to nothing, a single timing to itself, and two runs
/// of timings to the sum of their sums.
pub proof fn sums_add_up(a: Seq<u128>, b: Seq<u128>, timing: u128)
    ensures
        sum(Seq::empty()) == 0,
        sum(seq![timing]) == timing,
        sum(a + b) == sum(a) + sum(b),
{
    reveal_with_fuel(sum_upto, 2);
    sum_of_front(a, b, a.len());
    sum_of_rest(a, b, b.len());
}

proof fn sum_of_front(a: Seq<u128>, b: Seq<u128>, n: nat)
    requires
        n <= a.len(),
    ensures
        sum_upto(a + b, n) == sum_upto(a, n),
    decreases n,
{
    if n > 0 {
        sum_of_front(a, b, (n - 1) as nat);
        assert((a + b)[n - 1] == a[n - 1]);
    }
}

proof fn sum_of_rest(a: Seq<u128>, b: Seq<u128>, n: nat)
    requires
        n <= b.len(),
    ensures
        sum_upto(a + b, a.len() + n) == sum(a) + sum_upto(b, n),
    decreases n,
{
    if n == 0 {
        sum_of_front(a, b, a.len());
    } else {
        sum_of_rest(a, b, (n - 1) as nat);
        assert((a + b)[a.len() + n - 1] == b[n - 1]);
    }
}

/// Spreads add up in the same way; that of a single timing is its distance from
/// the center, taken twice as a factor.
pub proof fn spreads_add_up(a: Seq<u128>, b: Seq<u128>, center: nat, timing: u128)
    ensures
        spread_upto(Seq::empty(), center, 0) == 0,
        timing >= center ==> spread_upto(seq![timing], center, 1) == (timing - center) * (timing
            - center),
        timing < center ==> spread_upto(seq![timing], center, 1) == (center - timing) * (center
            - timing),
        spread_upto(a + b, center, (a + b).len()) == spread_upto(a, center, a.len())
            + spread_upto(b, center, b.len()),
{
    reveal_with_fuel(spread_upto, 2);
    let d = timing - center;
    assert(d * d >= 0 && d * d == (-d) * (-d)) by (nonlinear_arith);
    assert(seq![timing][0] == timing);
    assert(spread_upto(seq![timing], center, 0) == 0);
    spread_of_front(a, b, center, a.len());
    spread_of_rest(a, b, center, b.len());
}

proof fn spread_of_front(a: Seq<u128>, b: Seq<u128>, center: nat, n: nat)
    requires
        n <= a.len(),
    ensures
        spread_upto(a + b, center, n) == spread_upto(a, center, n),
    decreases n,
{
    if n > 0 {
        spread_of_front(a, b, center, (n - 1) as nat);
        assert((a + b)[n - 1] == a[n - 1]);
    }
}

proof fn spread_of_rest(a: Seq<u128>, b: Seq<u128>, center: nat, n: nat)
    requires
        n <= b.len(),
    ensures
        spread_upto(a + b, center, a.len() + n) == spread_upto(a, center, a.len()) + spread_upto(
            b,
            center,
            n,
        ),
    decreases n,
{
    if n == 0 {
        spread_of_front(a, b, center, a.len());
    } else {
        spread_of_rest(a, b, center, (n - 1) as nat);
        assert((a + b)[a.len() + n - 1] == b[n - 1]);
    }
}

/// The average and the variance are what remains of the sum and of the spread
/// for each timing, rounded down.
pub proof fn averages_are_rounded_down(timings: Seq<u128>)
    requires
        timings.len() > 0,
    ensures
        mean(timings) * timings.len() <= sum(timings) < (mean(timings) + 1) * timings.len(),
        variance(timings) * timings.len() <= spread_upto(timings, mean(timings), timings.len()) < (
        variance(timings) + 1) * timings.len(),
{
    let n = timings.len();
    let s = sum(timings);
    let p = spread_upto(timings, mean(timings), n);
    assert((s / n) * n <= s < (s / n + 1) * n) by (nonlinear_arith)
        requires
            n > 0,
    ;
    assert((p / n) * n <= p < (p / n + 1) * n) by (nonlinear_arith)
        requires
            n > 0,
    ;
}

/// Timings are in ascending order exactly when no timing is above the next one.
pub proof fn ascending_goes_step_by_step(timings: Seq<u128>)
    ensures
        ascending(timings) <==> forall|i: int, j: int|
            0 <= i && j == i + 1 && j < timings.len() ==> #[trigger] timings[i]
                <= #[trigger] timings[j],
{
    if forall|i: int, j: int|
        0 <= i && j == i + 1 && j < timings.len() ==> #[trigger] timings[i]
            <= #[trigger] timings[j] {
        assert forall|i: int, j: int| 0 <= i <= j < timings.len() implies #[trigger] timings[i]
            <= #[trigger] timings[j] by {
            steps_ascend(timings, i, j);
        }
    }
}

proof fn steps_ascend(timings: Seq<u128>, i: int, j: int)
    requires
        forall|i: int, j: int|
            0 <= i && j == i + 1 && j < timings.len() ==> #[trigger] timings[i]
                <= #[trigger] timings[j],
        0 <= i <= j < timings.len(),
    ensures
        timings[i] <= timings[j],
    decreases j - i,
{
    if i < j {
        steps_ascend(timings, i, j - 1);
        assert(timings[j - 1] <= timings[j]);
    }
}

/// Timings can be summarised exactly when there is one, and their sum, the
/// distances from their average, the squares of these and the sum of the squares
/// fit in the numbers that hold them.
pub proof fn summable_is_what_fits(timings: Seq<u128>)
    ensures
        summable(timings) <==> timings.len() > 0 && sum(timings) <= u128::MAX && spread_upto(
            timings,
            mean(timings),
            timings.len(),
        ) <= u128::MAX && forall|i: int|
            0 <= i < timings.len() ==> (#[trigger] timings[i]) <= i128::MAX && (timings[i]
                - mean(timings)) * (timings[i] - mean(timings)) <= i128::MAX,
{
    assert forall|i: int| 0 <= i < timings.len() implies squared_distance(
        #[trigger] timings[i],
        mean(timings),
    ) == (timings[i] - mean(timings)) * (timings[i] - mean(timings)) by {
        let d = timings[i] - mean(timings);
        assert(d * d >= 0) by (nonlinear_arith);
    }
}

} // verus!
