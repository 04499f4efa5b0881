//! Turning a range of days into the timestamps it asks for.

use vstd::prelude::*;
use crate::calendar::{lemma_order_by_day_number, lemma_next_day, Date};
use crate::work_item::Timestamp;

verus! {

/// The number of hours that are fetched of each day unless the caller says
/// otherwise: the hours 0 to 22. Hour 23 is left out by this default; pass 24
/// for whole days.
pub const DEFAULT_HOURS_PER_DAY: u32 = 23;

/// The first `hours` hours of one day, in order.
pub open spec fn day_stamps(date: Date, hours: nat) -> Seq<Timestamp> {
    Seq::new(hours, |h: int| Timestamp { date, hour: h as u32 })
}

/// The first `hours` hours of each of the `days` days from `start` on, day by
/// day.
pub open spec fn range_stamps(start: Date, days: nat, hours: nat) -> Seq<Timestamp>
    decreases days,
{
    if days == 0 {
        Seq::empty()
    } else {
        range_stamps(start, (days - 1) as nat, hours) + day_stamps(
            start.plus_days((days - 1) as nat),
            hours,
        )
    }
}

/// The number of days from `start` to `end`, both counted; none if `end`
/// comes first.
pub open spec fn days_spanned(start: Date, end: Date) -> nat {
    if end.day_number() < start.day_number() {
        0
    } else {
        (end.day_number() - start.day_number() + 1) as nat
    }
}

/// Going `n` days on from a valid day, without passing the last day, gives a
/// valid day whose day number is `n` higher.
pub proof fn lemma_plus_days(start: Date, n: nat)
    requires
        start.valid(),
        start.day_number() + n <= Date::last().day_number(),
    ensures
        start.plus_days(n).valid(),
        start.plus_days(n).day_number() == start.day_number() + n,
    decreases n,
{
    if n > 0 {
        lemma_plus_days(start, (n - 1) as nat);
        let d = start.plus_days((n - 1) as nat);
        lemma_order_by_day_number(d, Date::last());
        lemma_next_day(d);
    }
}

/// The timestamps of a range: their number is days times hours; the one at
/// position `i` is hour `i % hours` of day `i / hours` of the range; all are
/// valid; and they stand in strictly increasing order, so none occurs twice.
pub proof fn lemma_range_stamps(start: Date, days: nat, hours: nat)
    requires
        start.valid(),
        start.day_number() + days <= Date::last().day_number() + 1,
        hours <= 24,
    ensures
        range_stamps(start, days, hours).len() == days * hours,
        forall|i: int|
            0 <= i < days * hours ==> (#[trigger] range_stamps(start, days, hours)[i]) == (
            Timestamp { date: start.plus_days((i / hours as int) as nat), hour: (i % hours as int) as u32 }),
        forall|i: int|
            0 <= i < days * hours ==> (#[trigger] range_stamps(start, days, hours)[i]).valid()
                && start.day_number() <= range_stamps(start, days, hours)[i].date.day_number()
                < start.day_number() + days,
        forall|i: int, j: int|
            0 <= i < j < days * hours ==> (#[trigger] range_stamps(start, days, hours)[i]).is_before(
                #[trigger] range_stamps(start, days, hours)[j],
            ),
    decreases days,
{
    if days == 0 {
        assert(days * hours == 0) by (nonlinear_arith)
            requires
                days == 0,
        ;
    } else {
        let before = (days - 1) as nat;
        lemma_range_stamps(start, before, hours);
        lemma_plus_days(start, before);
        let day = start.plus_days(before);
        let head = range_stamps(start, before, hours);
        let all = range_stamps(start, days, hours);
        assert(before * hours + hours == days * hours) by (nonlinear_arith)
            requires
                before + 1 == days,
        ;
        assert(all == head + day_stamps(day, hours));
        assert forall|i: int| 0 <= i < days * hours implies (#[trigger] all[i]) == (Timestamp {
            date: start.plus_days((i / hours as int) as nat),
            hour: (i % hours as int) as u32,
        }) && all[i].valid() && start.day_number() <= all[i].date.day_number()
            < start.day_number() + days by {
            if i < before * hours {
                assert(all[i] == head[i]);
            } else {
                let h = i - before * hours;
                assert(all[i] == day_stamps(day, hours)[h]);
                vstd::arithmetic::div_mod::lemma_fundamental_div_mod_converse(
                    i,
                    hours as int,
                    before as int,
                    h,
                );
            }
        }
        assert forall|i: int, j: int| 0 <= i < j < days * hours implies (#[trigger] all[i]).is_before(
            #[trigger] all[j],
        ) by {
            if j < before * hours {
                assert(all[i] == head[i]);
                assert(all[j] == head[j]);
            } else if i < before * hours {
                assert(all[i] == head[i]);
                assert(all[j] == day_stamps(day, hours)[j - before * hours]);
            } else {
                assert(all[i] == day_stamps(day, hours)[i - before * hours]);
                assert(all[j] == day_stamps(day, hours)[j - before * hours]);
            }
        }
    }
}

/// Appends the first `hours` hours of `date`.
fn push_day(out: &mut Vec<Timestamp>, date: Date, hours: u32)
    ensures
        final(out)@ == old(out)@ + day_stamps(date, hours as nat),
{
    let mut h: u32 = 0;
    while h < hours
        invariant
            h <= hours,
            out@ == old(out)@ + day_stamps(date, h as nat),
        decreases hours - h,
    {
        out.push(Timestamp { date, hour: h });
        h = h + 1;
        assert(out@ =~= old(out)@ + day_stamps(date, h as nat));
    }
}

/// Every day from `start` to `end`, both included, and of each day the hours
/// `0` to `hours_per_day - 1`: day by day, and within a day hour by hour.
/// Nothing if `end` comes before `start`.
pub fn enumerate_timestamps(start: Date, end: Date, hours_per_day: u32) -> (out: Vec<Timestamp>)
    requires
        start.valid(),
        end.valid(),
        hours_per_day <= 24,
    ensures
        out@ == range_stamps(start, days_spanned(start, end), hours_per_day as nat),
        out@.len() == days_spanned(start, end) * hours_per_day,
        forall|i: int|
            0 <= i < out@.len() ==> (#[trigger] out@[i]) == (Timestamp {
                date: start.plus_days((i / hours_per_day as int) as nat),
                hour: (i % hours_per_day as int) as u32,
            }),
        forall|i: int| 0 <= i < out@.len() ==> (#[trigger] out@[i]).valid(),
        forall|i: int, j: int|
            0 <= i < j < out@.len() ==> (#[trigger] out@[i]).is_before(#[trigger] out@[j]),
{
    let mut out: Vec<Timestamp> = Vec::new();
    proof {
        lemma_order_by_day_number(end, Date::last());
        lemma_range_stamps(start, days_spanned(start, end), hours_per_day as nat);
    }
    if end.before(start) {
        assert(out@ =~= range_stamps(start, 0, hours_per_day as nat));
        return out;
    }
    let mut cur = start;
    let ghost mut k: nat = 0;
    assert(out@ =~= range_stamps(start, 0, hours_per_day as nat));
    while cur.before(end)
        invariant
            start.valid(),
            end.valid(),
            cur.valid(),
            cur == start.plus_days(k),
            cur.day_number() == start.day_number() + k,
            cur.day_number() <= end.day_number(),
            out@ == range_stamps(start, k, hours_per_day as nat),
        decreases end.day_number() - cur.day_number(),
    {
        push_day(&mut out, cur, hours_per_day);
        match cur.successor() {
            Some(next) => {
                cur = next;
            },
            None => {
                proof {
                    lemma_order_by_day_number(end, Date::last());
                    assert(false);
                }
            },
        }
        proof {
            k = k + 1;
        }
    }
    push_day(&mut out, cur, hours_per_day);
    assert(days_spanned(start, end) == k + 1);
    out
}

} // verus!
