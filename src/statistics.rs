use crate::decoder::{PowerEvent, VoltcraftError};
use crate::timestamp::{date_of, LocalDate, Timestamp};
use vstd::prelude::*;

verus! {

/// A numeric quantity of a reading that statistics are taken over.
#[derive(Clone, Copy, Debug, PartialEq, Eq, Structural)]
pub enum Quantity {
    Power,
    ApparentPower,
    Voltage,
}

pub open spec fn value_of(e: PowerEvent, q: Quantity) -> int {
    match q {
        Quantity::Power => e.power as int,
        Quantity::ApparentPower => e.apparent_power as int,
        Quantity::Voltage => e.voltage as int,
    }
}

/// The sum of quantity `q` over all readings of `s`.
pub open spec fn sum_of(s: Seq<PowerEvent>, q: Quantity) -> int
    decreases s.len(),
{
    if s.len() == 0 {
        0
    } else {
        sum_of(s.drop_last(), q) + value_of(s.last(), q)
    }
}

/// `s[i]` is the first reading of `s` with the largest value of `q`.
pub open spec fn is_first_max(s: Seq<PowerEvent>, i: int, q: Quantity) -> bool {
    &&& 0 <= i < s.len()
    &&& forall|j: int| 0 <= j < s.len() ==> value_of(#[trigger] s[j], q) <= value_of(s[i], q)
    &&& forall|j: int| 0 <= j < i ==> value_of(#[trigger] s[j], q) < value_of(s[i], q)
}

/// `s[i]` is the first reading of `s` with the smallest value of `q`.
pub open spec fn is_first_min(s: Seq<PowerEvent>, i: int, q: Quantity) -> bool {
    &&& 0 <= i < s.len()
    &&& forall|j: int| 0 <= j < s.len() ==> value_of(s[i], q) <= value_of(#[trigger] s[j], q)
    &&& forall|j: int| 0 <= j < i ==> value_of(s[i], q) < value_of(#[trigger] s[j], q)
}

/// Aggregates over a non-empty sequence of readings.
///
/// Each reading stands for one minute of constant power, so the total active
/// energy in kWh is `active_power_sum / 60` (in the units of `PowerEvent`,
/// nanokilowatt-minutes) and the average active power is
/// `active_power_sum / count`; likewise for apparent power and voltage.
#[derive(Clone, Copy, Debug, PartialEq, Eq, Structural)]
pub struct PowerStats {
    pub count: usize,
    pub active_power_sum: u128,
    pub max_active_power: PowerEvent,
    pub apparent_power_sum: u128,
    pub max_apparent_power: PowerEvent,
    pub min_voltage: PowerEvent,
    pub max_voltage: PowerEvent,
    pub voltage_sum: u128,
}

/// `st` holds the aggregates of `s`; maxima and minima are the first reading
/// that reaches them.
pub open spec fn is_stats_of(st: PowerStats, s: Seq<PowerEvent>) -> bool {
    &&& st.count == s.len()
    &&& st.active_power_sum == sum_of(s, Quantity::Power)
    &&& st.apparent_power_sum == sum_of(s, Quantity::ApparentPower)
    &&& st.voltage_sum == sum_of(s, Quantity::Voltage)
    &&& exists|i: int| is_first_max(s, i, Quantity::Power) && st.max_active_power == s[i]
    &&& exists|i: int| is_first_max(s, i, Quantity::ApparentPower) && st.max_apparent_power == s[i]
    &&& exists|i: int| is_first_min(s, i, Quantity::Voltage) && st.min_voltage == s[i]
    &&& exists|i: int| is_first_max(s, i, Quantity::Voltage) && st.max_voltage == s[i]
}

proof fn lemma_sum_step(s: Seq<PowerEvent>, i: int, q: Quantity)
    requires
        0 <= i < s.len(),
    ensures
        sum_of(s.take(i + 1), q) == sum_of(s.take(i), q) + value_of(s[i], q),
{
    assert(s.take(i + 1).drop_last() =~= s.take(i));
}

proof fn lemma_sum_bound(s: Seq<PowerEvent>, q: Quantity)
    ensures
        0 <= sum_of(s, q) <= s.len() * 0xFFFF_FFFF_FFFF_FFFF,
    decreases s.len(),
{
    if s.len() > 0 {
        lemma_sum_bound(s.drop_last(), q);
    }
}

fn value(e: &PowerEvent, q: Quantity) -> (r: u64)
    ensures
        r == value_of(*e, q),
{
    match q {
        Quantity::Power => e.power,
        Quantity::ApparentPower => e.apparent_power,
        Quantity::Voltage => e.voltage as u64,
    }
}

/// The index of the first reading with the largest (or, where `largest` is
/// false, the smallest) value of `q`.
fn first_extreme(items: &Vec<PowerEvent>, q: Quantity, largest: bool) -> (r: usize)
    requires
        items.len() > 0,
    ensures
        largest ==> is_first_max(items@, r as int, q),
        !largest ==> is_first_min(items@, r as int, q),
{
    let mut best: usize = 0;
    let mut best_value = value(&items[0], q);
    let mut i: usize = 1;
    while i < items.len()
        invariant
            1 <= i <= items.len(),
            best < i,
            best_value == value_of(items@[best as int], q),
            largest ==> is_first_max(items@.take(i as int), best as int, q),
            !largest ==> is_first_min(items@.take(i as int), best as int, q),
        decreases items.len() - i,
    {
        let v = value(&items[i], q);
        if (largest && v > best_value) || (!largest && v < best_value) {
            best = i;
            best_value = v;
        }
        i = i + 1;
        assert(forall|j: int| 0 <= j < i ==> items@.take(i as int)[j] == items@[j]);
        assert(forall|j: int| 0 <= j < i - 1 ==> items@.take(i - 1)[j] == items@[j]);
    }
    assert(items@.take(i as int) =~= items@);
    best
}

/// The sum of `q` over all of `items`.
fn sum_values(items: &Vec<PowerEvent>, q: Quantity) -> (r: u128)
    ensures
        r == sum_of(items@, q),
{
    let mut sum: u128 = 0;
    let mut i: usize = 0;
    while i < items.len()
        invariant
            0 <= i <= items.len(),
            sum == sum_of(items@.take(i as int), q),
        decreases items.len() - i,
    {
        proof {
            lemma_sum_step(items@, i as int, q);
            lemma_sum_bound(items@.take(i as int + 1), q);
            assert((i + 1) * 0xFFFF_FFFF_FFFF_FFFF <= 0x1_0000_0000_0000_0000 * 0xFFFF_FFFF_FFFF_FFFF)
                by (nonlinear_arith)
                requires i + 1 <= 0xFFFF_FFFF_FFFF_FFFF;
        }
        sum = sum + value(&items[i], q) as u128;
        i = i + 1;
    }
    assert(items@.take(i as int) =~= items@);
    sum
}

/// The readings of `s` that fall on day `d`, in their order in `s`.
pub open spec fn on_day(s: Seq<PowerEvent>, d: LocalDate) -> Seq<PowerEvent>
    decreases s.len(),
{
    if s.len() == 0 {
        Seq::empty()
    } else if date_of(s.last().timestamp) == d {
        on_day(s.drop_last(), d).push(s.last())
    } else {
        on_day(s.drop_last(), d)
    }
}

/// Day `d` is the date of some reading of `s`.
pub open spec fn has_day(s: Seq<PowerEvent>, d: LocalDate) -> bool {
    exists|k: int| 0 <= k < s.len() && date_of(#[trigger] s[k].timestamp) == d
}

/// `days` lists each date of a reading of `s` once, in ascending order.
pub open spec fn is_day_list(days: Seq<LocalDate>, s: Seq<PowerEvent>) -> bool {
    &&& forall|i: int, j: int| 0 <= i < j < days.len() ==> (#[trigger] days[i]).days < (#[trigger] days[j]).days
    &&& forall|i: int| 0 <= i < days.len() ==> has_day(s, #[trigger] days[i])
    &&& forall|k: int| 0 <= k < s.len() ==> days.contains(date_of(#[trigger] s[k].timestamp))
}

/// The dates of a list of daily statistics, in order.
pub open spec fn dates_of(r: Seq<PowerInterval>) -> Seq<LocalDate> {
    r.map_values(|p: PowerInterval| p.date)
}

proof fn lemma_on_day_nonempty(s: Seq<PowerEvent>, d: LocalDate, k: int)
    requires
        0 <= k < s.len(),
        date_of(s[k].timestamp) == d,
    ensures
        on_day(s, d).len() > 0,
    decreases s.len(),
{
    if k < s.len() - 1 {
        lemma_on_day_nonempty(s.drop_last(), d, k);
    }
}

/// An inferred power outage: it starts one minute after the last reading
/// before the gap and lasts as long as the gap, in minutes.
#[derive(Clone, Copy, Debug, PartialEq, Eq, Structural)]
pub struct PowerBlackout {
    pub timestamp: Timestamp,
    pub duration: u64,
}

/// The blackouts found in the first `k` pairs `(s[0], s[1]), (s[2], s[3]), ...`:
/// one for each pair whose readings lie more than a minute apart.
pub open spec fn blackouts_upto(s: Seq<PowerEvent>, k: nat) -> Seq<PowerBlackout>
    decreases k,
{
    if k == 0 {
        Seq::empty()
    } else {
        let prev = blackouts_upto(s, (k - 1) as nat);
        let a = s[2 * k - 2].timestamp.minutes as int;
        let b = s[2 * k - 1].timestamp.minutes as int;
        if b - a > 1 {
            prev.push(PowerBlackout { timestamp: Timestamp { minutes: (a + 1) as i64 }, duration: (b - a) as u64 })
        } else {
            prev
        }
    }
}

/// The blackouts of `s`, pairing its readings two by two (a last unpaired
/// reading is left out).
pub open spec fn blackouts_of(s: Seq<PowerEvent>) -> Seq<PowerBlackout> {
    blackouts_upto(s, s.len() / 2)
}

/// The statistics of one calendar day.
#[derive(Clone, Copy, Debug, PartialEq, Eq, Structural)]
pub struct PowerInterval {
    pub date: LocalDate,
    pub stats: PowerStats,
}

/// A read-only view of a sequence of readings that statistics are drawn from.
pub struct VoltcraftStatistics<'a> {
    power_data: &'a Vec<PowerEvent>,
}

impl<'a> View for VoltcraftStatistics<'a> {
    type V = Seq<PowerEvent>;

    closed spec fn view(&self) -> Seq<PowerEvent> {
        self.power_data@
    }
}

impl<'a> VoltcraftStatistics<'a> {
    pub fn new(power_data: &'a Vec<PowerEvent>) -> (r: VoltcraftStatistics<'a>)
        ensures
            r@ == power_data@,
    {
        VoltcraftStatistics { power_data }
    }

    /// The readings that fall on `day`, in their order.
    pub fn filter_power_data(&self, day: &LocalDate) -> (r: Vec<PowerEvent>)
        ensures
            r@ == on_day(self@, *day),
    {
        let items = self.power_data;
        let mut r: Vec<PowerEvent> = Vec::new();
        let mut i: usize = 0;
        while i < items.len()
            invariant
                0 <= i <= items.len(),
                items@ == self@,
                r@ == on_day(items@.take(i as int), *day),
            decreases items.len() - i,
        {
            assert(items@.take(i + 1).drop_last() =~= items@.take(i as int));
            let e = items[i];
            let d = e.timestamp.date();
            if d == *day {
                r.push(e);
            }
            i = i + 1;
        }
        assert(items@.take(i as int) =~= items@);
        r
    }

    /// Each date on which a reading falls, once, in ascending order.
    pub fn distinct_days(&self) -> (r: Vec<LocalDate>)
        ensures
            is_day_list(r@, self@),
    {
        let items = self.power_data;
        let ghost s = items@;
        let mut days: Vec<LocalDate> = Vec::new();
        let mut k: usize = 0;
        while k < items.len()
            invariant
                0 <= k <= items.len(),
                s == items@,
                s == self@,
                is_day_list(days@, s.take(k as int)),
            decreases items.len() - k,
        {
            let d = items[k].timestamp.date();
            let mut j: usize = 0;
            while j < days.len() && days[j].days < d.days
                invariant
                    0 <= j <= days.len(),
                    forall|x: int| 0 <= x < j ==> (#[trigger] days@[x]).days < d.days,
                decreases days.len() - j,
            {
                j = j + 1;
            }
            let ghost old_days = days@;
            proof {
                assert forall|x: int| 0 <= x < old_days.len() implies has_day(s.take(k + 1), #[trigger] old_days[x]) by {
                    let w = choose|w: int| 0 <= w < k && date_of(#[trigger] s.take(k as int)[w].timestamp) == old_days[x];
                    assert(s.take(k + 1)[w] == s.take(k as int)[w]);
                }
                assert(s.take(k + 1)[k as int] == s[k as int]);
                assert(forall|w: int| 0 <= w < k ==> s.take(k + 1)[w] == #[trigger] s.take(k as int)[w]);
            }
            let known = j < days.len() && days[j] == d;
            if !known {
                days.insert(j, d);
                proof {
                    assert(days@[j as int] == d);
                    assert forall|x: int| 0 <= x < old_days.len() implies days@.contains(#[trigger] old_days[x]) by {
                        if x < j {
                            assert(days@[x] == old_days[x]);
                        } else {
                            assert(days@[x + 1] == old_days[x]);
                        }
                    }
                }
            }
            k = k + 1;
        }
        assert(s.take(k as int) =~= s);
        days
    }

    /// The aggregates of `items`; fails with `EmptyInput` on an empty sequence.
    pub fn compute_stats(items: &Vec<PowerEvent>) -> (r: Result<PowerStats, VoltcraftError>)
        ensures
            items.len() == 0 ==> r == Err::<PowerStats, VoltcraftError>(VoltcraftError::EmptyInput),
            items.len() > 0 ==> (r matches Ok(st) && is_stats_of(st, items@)),
    {
        if items.len() == 0 {
            return Err(VoltcraftError::EmptyInput);
        }
        let max_p = first_extreme(items, Quantity::Power, true);
        let max_a = first_extreme(items, Quantity::ApparentPower, true);
        let min_v = first_extreme(items, Quantity::Voltage, false);
        let max_v = first_extreme(items, Quantity::Voltage, true);
        Ok(PowerStats {
            count: items.len(),
            active_power_sum: sum_values(items, Quantity::Power),
            max_active_power: items[max_p],
            apparent_power_sum: sum_values(items, Quantity::ApparentPower),
            max_apparent_power: items[max_a],
            min_voltage: items[min_v],
            max_voltage: items[max_v],
            voltage_sum: sum_values(items, Quantity::Voltage),
        })
    }

    /// The blackouts of `items`: for each pair `(items[0], items[1]),
    /// (items[2], items[3]), ...` whose readings lie more than a minute apart,
    /// one that starts a minute after the first and lasts the gap.
    pub fn compute_blackouts(items: &Vec<PowerEvent>) -> (r: Vec<PowerBlackout>)
        ensures
            r@ == blackouts_of(items@),
    {
        let mut r: Vec<PowerBlackout> = Vec::new();
        let mut i: usize = 0;
        while i + 1 < items.len()
            invariant
                i % 2 == 0,
                i <= items.len(),
                r@ == blackouts_upto(items@, (i / 2) as nat),
            decreases items.len() - i,
        {
            let a = items[i].timestamp.minutes;
            let b = items[i + 1].timestamp.minutes;
            let gap: i128 = b as i128 - a as i128;
            if gap > 1 {
                r.push(PowerBlackout { timestamp: Timestamp { minutes: a + 1 }, duration: gap as u64 });
            }
            i = i + 2;
        }
        r
    }

    /// The aggregates of all readings; fails with `EmptyInput` where there are
    /// none.
    pub fn overall_stats(&self) -> (r: Result<PowerStats, VoltcraftError>)
        ensures
            self@.len() == 0 ==> r == Err::<PowerStats, VoltcraftError>(VoltcraftError::EmptyInput),
            self@.len() > 0 ==> (r matches Ok(st) && is_stats_of(st, self@)),
    {
        Self::compute_stats(self.power_data)
    }

    /// The blackouts found by pairing the readings two by two.
    pub fn blackout_stats(&self) -> (r: Vec<PowerBlackout>)
        ensures
            r@ == blackouts_of(self@),
    {
        Self::compute_blackouts(self.power_data)
    }

    /// The statistics of each date on which a reading falls, in ascending
    /// order of date, each over that date's readings alone.
    pub fn daily_stats(&self) -> (r: Vec<PowerInterval>)
        ensures
            is_day_list(dates_of(r@), self@),
            forall|i: int| 0 <= i < r.len() ==> is_stats_of(#[trigger] r@[i].stats, on_day(self@, r@[i].date)),
    {
        let days = self.distinct_days();
        let mut r: Vec<PowerInterval> = Vec::new();
        let mut i: usize = 0;
        while i < days.len()
            invariant
                0 <= i <= days.len(),
                is_day_list(days@, self@),
                r.len() == i,
                dates_of(r@) =~= days@.take(i as int),
                forall|x: int| 0 <= x < r.len() ==> is_stats_of(#[trigger] r@[x].stats, on_day(self@, r@[x].date)),
            decreases days.len() - i,
        {
            let d = days[i];
            let filtered = self.filter_power_data(&d);
            proof {
                assert(has_day(self@, d));
                let k = choose|k: int| 0 <= k < self@.len() && date_of(#[trigger] self@[k].timestamp) == d;
                lemma_on_day_nonempty(self@, d, k);
            }
            let ghost old_r = r@;
            match Self::compute_stats(&filtered) {
                Ok(st) => {
                    r.push(PowerInterval { date: d, stats: st });
                },
                Err(_) => {
                    assert(false);
                },
            }
            assert forall|x: int| 0 <= x < i + 1 implies #[trigger] dates_of(r@)[x] == days@.take(i + 1)[x] by {
                if x < i {
                    assert(r@[x] == old_r[x]);
                    assert(dates_of(old_r)[x] == days@.take(i as int)[x]);
                }
            }
            assert(dates_of(r@) =~= days@.take(i + 1));
            i = i + 1;
        }
        assert(days@.take(i as int) =~= days@);
        r
    }
}

} // verus!
