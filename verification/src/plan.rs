//! The configuration of a run and the list of items that it has to fetch.

use vstd::prelude::*;
use crate::calendar::{lemma_order_by_day_number, Date};
use crate::enumerate::{
    days_spanned, enumerate_timestamps, lemma_range_stamps, range_stamps, DEFAULT_HOURS_PER_DAY,
};
use crate::existing::ExistingFileIndex;
use crate::work_item::{
    file_name_text, lemma_file_name_injective, local_file_name, remote_url, work_item_text,
    Timestamp, WorkItem, WorkItemText,
};

verus! {

/// Why a configuration was refused.
#[derive(Clone, Copy, Debug, PartialEq, Eq, Structural)]
pub enum ConfigError {
    /// The start or the end is no day of the calendar.
    InvalidDate,
    /// The end comes before the start.
    EndBeforeStart,
    /// The start hour is above 23.
    InvalidStartHour,
    /// More than 24 hours per day were asked for.
    InvalidHourCount,
}

/// What one run is asked to do. It is built once and only read afterwards.
#[derive(Debug)]
pub struct RunConfig {
    pub site: String,
    pub image_type: String,
    /// The first day, included.
    pub start: Date,
    /// The last day, included.
    pub end: Date,
    /// Kept as given. It does not narrow the first day: every day of the
    /// range is fetched from hour 0 on.
    pub start_hour: u32,
    /// Of each day, the hours from 0 up to this number, itself left out.
    pub hours_per_day: u32,
    pub directory: String,
}

impl RunConfig {
    /// Both days exist, the end does not come before the start, and the
    /// hours are in range.
    pub open spec fn valid(&self) -> bool {
        &&& self.start.valid()
        &&& self.end.valid()
        &&& !self.end.is_before(self.start)
        &&& self.start_hour <= 23
        &&& self.hours_per_day <= 24
    }

    /// The error of the first rule that the values break, if any: the dates
    /// are looked at first, then their order, then the start hour, then the
    /// number of hours.
    pub open spec fn check(start: Date, end: Date, start_hour: u32, hours_per_day: u32) -> Option<
        ConfigError,
    > {
        if !start.valid() || !end.valid() {
            Some(ConfigError::InvalidDate)
        } else if end.is_before(start) {
            Some(ConfigError::EndBeforeStart)
        } else if start_hour > 23 {
            Some(ConfigError::InvalidStartHour)
        } else if hours_per_day > 24 {
            Some(ConfigError::InvalidHourCount)
        } else {
            None
        }
    }

    /// A configuration that fetches the default hours of each day.
    pub fn new(
        site: String,
        image_type: String,
        start: Date,
        end: Date,
        start_hour: u32,
        directory: String,
    ) -> (r: Result<RunConfig, ConfigError>)
        ensures
            match r {
                Ok(config) => RunConfig::check(start, end, start_hour, DEFAULT_HOURS_PER_DAY)
                    is None && config.valid() && config.site == site && config.image_type
                    == image_type && config.start == start && config.end == end
                    && config.start_hour == start_hour && config.hours_per_day
                    == DEFAULT_HOURS_PER_DAY && config.directory == directory,
                Err(e) => RunConfig::check(start, end, start_hour, DEFAULT_HOURS_PER_DAY) == Some(
                    e,
                ),
            },
    {
        RunConfig::with_hours_per_day(
            site,
            image_type,
            start,
            end,
            start_hour,
            DEFAULT_HOURS_PER_DAY,
            directory,
        )
    }

    /// A configuration that fetches the hours below `hours_per_day` of each
    /// day.
    pub fn with_hours_per_day(
        site: String,
        image_type: String,
        start: Date,
        end: Date,
        start_hour: u32,
        hours_per_day: u32,
        directory: String,
    ) -> (r: Result<RunConfig, ConfigError>)
        ensures
            match r {
                Ok(config) => RunConfig::check(start, end, start_hour, hours_per_day) is None
                    && config.valid() && config.site == site && config.image_type == image_type
                    && config.start == start && config.end == end && config.start_hour
                    == start_hour && config.hours_per_day == hours_per_day && config.directory
                    == directory,
                Err(e) => RunConfig::check(start, end, start_hour, hours_per_day) == Some(e),
            },
    {
        if Date::from_ymd(start.year, start.month, start.day).is_none() {
            return Err(ConfigError::InvalidDate);
        }
        if Date::from_ymd(end.year, end.month, end.day).is_none() {
            return Err(ConfigError::InvalidDate);
        }
        if end.before(start) {
            return Err(ConfigError::EndBeforeStart);
        }
        if start_hour > 23 {
            return Err(ConfigError::InvalidStartHour);
        }
        if hours_per_day > 24 {
            return Err(ConfigError::InvalidHourCount);
        }
        Ok(RunConfig { site, image_type, start, end, start_hour, hours_per_day, directory })
    }

    /// The timestamps that the run covers, in order.
    pub open spec fn stamps(&self) -> Seq<Timestamp> {
        range_stamps(self.start, days_spanned(self.start, self.end), self.hours_per_day as nat)
    }

    /// The timestamps that the run covers, in order.
    pub fn timestamps(&self) -> (out: Vec<Timestamp>)
        requires
            self.valid(),
        ensures
            out@ == self.stamps(),
            forall|i: int| 0 <= i < out@.len() ==> (#[trigger] out@[i]).valid(),
    {
        enumerate_timestamps(self.start, self.end, self.hours_per_day)
    }
}

/// The texts of a list of work items.
pub open spec fn item_texts(items: Seq<WorkItem>) -> Seq<WorkItemText> {
    items.map_values(|item: WorkItem| item@)
}

/// The names of the files that a list of work items would write.
pub open spec fn file_names(items: Seq<WorkItemText>) -> Set<Seq<char>> {
    Set::new(
        |name: Seq<char>|
            exists|i: int| 0 <= i < items.len() && (#[trigger] items[i]).local_file_name == name,
    )
}

/// The work items of those timestamps whose file is not there yet, in the
/// order of the timestamps.
pub open spec fn pending(
    site: Seq<char>,
    image_type: Seq<char>,
    stamps: Seq<Timestamp>,
    existing: Set<Seq<char>>,
) -> Seq<WorkItemText>
    decreases stamps.len(),
{
    if stamps.len() == 0 {
        Seq::empty()
    } else {
        let earlier = pending(site, image_type, stamps.drop_last(), existing);
        if existing.contains(file_name_text(site, image_type, stamps.last())) {
            earlier
        } else {
            earlier.push(work_item_text(site, image_type, stamps.last()))
        }
    }
}

/// The work items of the given timestamps, without those whose file is in
/// the index.
pub fn pending_items(
    site: &str,
    image_type: &str,
    stamps: &Vec<Timestamp>,
    existing: &ExistingFileIndex,
) -> (items: Vec<WorkItem>)
    requires
        forall|i: int| 0 <= i < stamps@.len() ==> (#[trigger] stamps@[i]).valid(),
    ensures
        item_texts(items@) == pending(site@, image_type@, stamps@, existing@),
{
    let mut items: Vec<WorkItem> = Vec::new();
    let mut i: usize = 0;
    assert(stamps@.take(0) =~= Seq::<Timestamp>::empty());
    assert(item_texts(items@) =~= pending(site@, image_type@, stamps@.take(0), existing@));
    while i < stamps.len()
        invariant
            i <= stamps@.len(),
            forall|j: int| 0 <= j < stamps@.len() ==> (#[trigger] stamps@[j]).valid(),
            item_texts(items@) == pending(site@, image_type@, stamps@.take(i as int), existing@),
        decreases stamps@.len() - i,
    {
        let t = stamps[i];
        let name = local_file_name(site, image_type, t);
        proof {
            let next = stamps@.take(i + 1);
            assert(next.drop_last() =~= stamps@.take(i as int));
            assert(next.last() == t);
        }
        let ghost before = items@;
        if !existing.contains(name.as_str()) {
            let url = remote_url(site, image_type, t);
            items.push(WorkItem { remote_url: url, local_file_name: name });
            assert(item_texts(items@) =~= item_texts(before).push(
                work_item_text(site@, image_type@, t),
            ));
        }
        i = i + 1;
    }
    assert(stamps@.take(i as int) =~= stamps@);
    items
}

/// The work items of a run: one for each timestamp of the range whose file
/// is not in the index, in the order of the timestamps.
pub fn plan_downloads(config: &RunConfig, existing: &ExistingFileIndex) -> (items: Vec<WorkItem>)
    requires
        config.valid(),
    ensures
        item_texts(items@) == pending(
            config.site@,
            config.image_type@,
            config.stamps(),
            existing@,
        ),
        items@.len() <= config.stamps().len(),
        forall|k: int|
            0 <= k < items@.len() ==> !existing@.contains((#[trigger] items@[k]).local_file_name@),
        forall|k: int, l: int|
            0 <= k < l < items@.len() ==> (#[trigger] items@[k]).local_file_name@ != (
            #[trigger] items@[l]).local_file_name@,
{
    let stamps = config.timestamps();
    let items = pending_items(config.site.as_str(), config.image_type.as_str(), &stamps, existing);
    proof {
        let texts = item_texts(items@);
        lemma_order_by_day_number(config.end, Date::last());
        lemma_order_by_day_number(config.start, config.end);
        lemma_range_stamps(
            config.start,
            days_spanned(config.start, config.end),
            config.hours_per_day as nat,
        );
        lemma_pending_covers(config.site@, config.image_type@, stamps@, existing@);
        lemma_pending_names_distinct(config.site@, config.image_type@, stamps@, existing@);
        assert forall|k: int| 0 <= k < items@.len() implies !existing@.contains(
            (#[trigger] items@[k]).local_file_name@,
        ) by {
            assert(texts[k].local_file_name == items@[k].local_file_name@);
        }
        assert forall|k: int, l: int| 0 <= k < l < items@.len() implies (#[trigger] items@[k]).local_file_name@
            != (#[trigger] items@[l]).local_file_name@ by {
            assert(texts[k].local_file_name == items@[k].local_file_name@);
            assert(texts[l].local_file_name == items@[l].local_file_name@);
        }
    }
    items
}

/// Every timestamp's file is either in the index or among the pending items,
/// and every pending item belongs to a timestamp whose file is not in the
/// index.
pub proof fn lemma_pending_covers(
    site: Seq<char>,
    image_type: Seq<char>,
    stamps: Seq<Timestamp>,
    existing: Set<Seq<char>>,
)
    ensures
        pending(site, image_type, stamps, existing).len() <= stamps.len(),
        forall|i: int|
            0 <= i < stamps.len() ==> existing.contains(
                file_name_text(site, image_type, #[trigger] stamps[i]),
            ) || file_names(pending(site, image_type, stamps, existing)).contains(
                file_name_text(site, image_type, stamps[i]),
            ),
        forall|k: int|
            0 <= k < pending(site, image_type, stamps, existing).len() ==> !existing.contains(
                (#[trigger] pending(site, image_type, stamps, existing)[k]).local_file_name,
            ) && exists|i: int|
                0 <= i < stamps.len() && pending(site, image_type, stamps, existing)[k]
                    == work_item_text(site, image_type, #[trigger] stamps[i]),
    decreases stamps.len(),
{
    if stamps.len() > 0 {
        let front = stamps.drop_last();
        let last = stamps.last();
        lemma_pending_covers(site, image_type, front, existing);
        let earlier = pending(site, image_type, front, existing);
        let all = pending(site, image_type, stamps, existing);
        let last_name = file_name_text(site, image_type, last);
        assert forall|i: int| 0 <= i < stamps.len() implies existing.contains(
            file_name_text(site, image_type, #[trigger] stamps[i]),
        ) || file_names(all).contains(file_name_text(site, image_type, stamps[i])) by {
            let name = file_name_text(site, image_type, stamps[i]);
            if i < front.len() {
                assert(stamps[i] == front[i]);
                if !existing.contains(name) {
                    let k = choose|k: int|
                        0 <= k < earlier.len() && (#[trigger] earlier[k]).local_file_name == name;
                    assert(all[k] == earlier[k]);
                }
            } else if !existing.contains(name) {
                assert(all[all.len() - 1].local_file_name == name);
            }
        }
        assert forall|k: int| 0 <= k < all.len() implies !existing.contains(
            (#[trigger] all[k]).local_file_name,
        ) && exists|i: int|
            0 <= i < stamps.len() && all[k] == work_item_text(site, image_type, #[trigger] stamps[i]) by {
            if k < earlier.len() {
                assert(all[k] == earlier[k]);
                let i = choose|i: int|
                    0 <= i < front.len() && earlier[k] == work_item_text(
                        site,
                        image_type,
                        #[trigger] front[i],
                    );
                assert(stamps[i] == front[i]);
            } else {
                assert(all[k] == work_item_text(site, image_type, stamps[stamps.len() - 1]));
            }
        }
    }
}

/// Where every timestamp's file is in the index, nothing is pending.
pub proof fn lemma_nothing_pending(
    site: Seq<char>,
    image_type: Seq<char>,
    stamps: Seq<Timestamp>,
    existing: Set<Seq<char>>,
)
    requires
        forall|i: int|
            0 <= i < stamps.len() ==> existing.contains(
                file_name_text(site, image_type, #[trigger] stamps[i]),
            ),
    ensures
        pending(site, image_type, stamps, existing) == Seq::<WorkItemText>::empty(),
    decreases stamps.len(),
{
    if stamps.len() > 0 {
        let front = stamps.drop_last();
        assert forall|i: int| 0 <= i < front.len() implies existing.contains(
            file_name_text(site, image_type, #[trigger] front[i]),
        ) by {
            assert(front[i] == stamps[i]);
        }
        lemma_nothing_pending(site, image_type, front, existing);
        assert(existing.contains(file_name_text(site, image_type, stamps[stamps.len() - 1])));
    }
}

/// The names in the destination directory after a run in which every
/// pending item was saved: those that were there and those of the pending
/// items.
pub open spec fn after_full_run(
    site: Seq<char>,
    image_type: Seq<char>,
    stamps: Seq<Timestamp>,
    existing: Set<Seq<char>>,
) -> Set<Seq<char>> {
    existing.union(file_names(pending(site, image_type, stamps, existing)))
}

/// A second run fetches nothing and adds no file: once the files of all
/// pending items of a run have joined those that were there, the same
/// timestamps leave nothing pending, and the set of names stays as it is.
pub proof fn lemma_second_run_fetches_nothing(
    site: Seq<char>,
    image_type: Seq<char>,
    stamps: Seq<Timestamp>,
    existing: Set<Seq<char>>,
)
    ensures
        pending(site, image_type, stamps, after_full_run(site, image_type, stamps, existing))
            == Seq::<WorkItemText>::empty(),
        after_full_run(
            site,
            image_type,
            stamps,
            after_full_run(site, image_type, stamps, existing),
        ) == after_full_run(site, image_type, stamps, existing),
{
    let after = after_full_run(site, image_type, stamps, existing);
    lemma_pending_covers(site, image_type, stamps, existing);
    lemma_nothing_pending(site, image_type, stamps, after);
    assert(after_full_run(site, image_type, stamps, after) =~= after);
}

/// A file that was there is never fetched again: no pending item has its
/// name, whatever the timestamps.
pub proof fn lemma_existing_never_pending(
    site: Seq<char>,
    image_type: Seq<char>,
    stamps: Seq<Timestamp>,
    existing: Set<Seq<char>>,
    name: Seq<char>,
)
    requires
        existing.contains(name),
    ensures
        !file_names(pending(site, image_type, stamps, existing)).contains(name),
{
    lemma_pending_covers(site, image_type, stamps, existing);
}

/// No two pending items of a run share a file name.
pub proof fn lemma_pending_names_distinct(
    site: Seq<char>,
    image_type: Seq<char>,
    stamps: Seq<Timestamp>,
    existing: Set<Seq<char>>,
)
    requires
        forall|i: int| 0 <= i < stamps.len() ==> (#[trigger] stamps[i]).valid(),
        forall|i: int, j: int|
            0 <= i < j < stamps.len() ==> (#[trigger] stamps[i]) != (#[trigger] stamps[j]),
    ensures
        forall|k: int, l: int|
            0 <= k < l < pending(site, image_type, stamps, existing).len() ==> (#[trigger] pending(
                site,
                image_type,
                stamps,
                existing,
            )[k]).local_file_name != (#[trigger] pending(
                site,
                image_type,
                stamps,
                existing,
            )[l]).local_file_name,
    decreases stamps.len(),
{
    if stamps.len() > 0 {
        let front = stamps.drop_last();
        let last = stamps.last();
        assert forall|i: int| 0 <= i < front.len() implies (#[trigger] front[i]).valid() by {
            assert(front[i] == stamps[i]);
        }
        assert forall|i: int, j: int| 0 <= i < j < front.len() implies (#[trigger] front[i]) != (
        #[trigger] front[j]) by {
            assert(front[i] == stamps[i]);
            assert(front[j] == stamps[j]);
        }
        lemma_pending_names_distinct(site, image_type, front, existing);
        lemma_pending_covers(site, image_type, front, existing);
        let earlier = pending(site, image_type, front, existing);
        let all = pending(site, image_type, stamps, existing);
        assert forall|k: int, l: int| 0 <= k < l < all.len() implies (#[trigger] all[k]).local_file_name
            != (#[trigger] all[l]).local_file_name by {
            if l < earlier.len() {
                assert(all[k] == earlier[k]);
                assert(all[l] == earlier[l]);
            } else {
                assert(all[k] == earlier[k]);
                assert(all[l] == work_item_text(site, image_type, last));
                let i = choose|i: int|
                    0 <= i < front.len() && earlier[k] == work_item_text(
                        site,
                        image_type,
                        #[trigger] front[i],
                    );
                assert(front[i] == stamps[i]);
                assert(stamps[i] != stamps[stamps.len() - 1]);
                if all[k].local_file_name == all[l].local_file_name {
                    lemma_file_name_injective(site, image_type, stamps[i], last);
                }
            }
        }
    }
}

} // verus!
