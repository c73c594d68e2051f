//! The record store: break records ordered by start time, the per-day
//! rollup cache ordered by date, and the settings row.  This is the model
//! the analytics engine is verified against; a persistence adapter outside
//! the library mirrors it row for row into durable storage.

use vstd::prelude::*;
use crate::date::spec_day_number;
use crate::state::BreakRecord;
use crate::state::DailyStats;
use crate::state::UserSettings;
use crate::state::is_default_settings;
use crate::state::settings_eqv;

verus! {

/// Records are held in nondecreasing start-time order.
pub open spec fn records_sorted(rs: Seq<BreakRecord>) -> bool {
    forall|i: int, j: int|
        0 <= i < j < rs.len() ==> rs[i].started_at <= rs[j].started_at
}

/// Record identifiers are the integers 1 through the record count, each
/// used once.
pub open spec fn record_ids_wf(rs: Seq<BreakRecord>) -> bool {
    &&& forall|i: int| 0 <= i < rs.len() ==> 1 <= #[trigger] rs[i].id <= rs.len()
    &&& forall|i: int, j: int| 0 <= i < j < rs.len() ==> rs[i].id != rs[j].id
}

/// Cache rows carry valid dates and are strictly ordered by day, so each
/// calendar day appears at most once.
pub open spec fn cache_sorted(cs: Seq<DailyStats>) -> bool {
    &&& forall|i: int| 0 <= i < cs.len() ==> (#[trigger] cs[i].date).valid()
    &&& forall|i: int, j: int|
        0 <= i < j < cs.len() ==> spec_day_number(cs[i].date) < spec_day_number(cs[j].date)
}

/// How an upsert relates the cache before and after: the day's row is
/// replaced in place if present, otherwise the new row is inserted at its
/// ordered position.
pub open spec fn cache_upserted(old_cs: Seq<DailyStats>, new_cs: Seq<DailyStats>, s: DailyStats) -> bool {
    let day = spec_day_number(s.date);
    if exists|k: int| 0 <= k < old_cs.len() && spec_day_number(old_cs[k].date) == day {
        exists|k: int|
            {
                &&& 0 <= k < old_cs.len()
                &&& spec_day_number(old_cs[k].date) == day
                &&& new_cs == old_cs.update(k, s)
            }
    } else {
        exists|p: int|
            {
                &&& 0 <= p <= old_cs.len()
                &&& new_cs == old_cs.insert(p, s)
                &&& forall|j: int| 0 <= j < p ==> spec_day_number(old_cs[j].date) < day
                &&& forall|j: int| p <= j < old_cs.len() ==> spec_day_number(old_cs[j].date) > day
            }
    }
}

/// In-memory store of everything the timer persists.
pub struct BreakStore {
    records: Vec<BreakRecord>,
    cache: Vec<DailyStats>,
    settings: UserSettings,
}

impl BreakStore {
    /// The persisted break records, in start-time order.
    pub closed spec fn records_seq(self) -> Seq<BreakRecord> {
        self.records@
    }

    /// The cached daily rollups, in date order.
    pub closed spec fn cache_seq(self) -> Seq<DailyStats> {
        self.cache@
    }

    /// The persisted settings row.
    pub closed spec fn settings_row(self) -> UserSettings {
        self.settings
    }

    pub open spec fn wf(self) -> bool {
        &&& records_sorted(self.records_seq())
        &&& record_ids_wf(self.records_seq())
        &&& cache_sorted(self.cache_seq())
    }

    /// An empty store with default settings.
    pub fn new() -> (s: Self)
        ensures
            s.wf(),
            s.records_seq().len() == 0,
            s.cache_seq().len() == 0,
            is_default_settings(s.settings_row()),
    {
        BreakStore { records: Vec::new(), cache: Vec::new(), settings: UserSettings::default() }
    }

    /// Opens a break record at the start of a break.  The record starts in
    /// progress (neither completed nor skipped, zero duration) and receives
    /// the next free identifier, which is returned.
    pub fn insert_break_record(&mut self, started_at: u64, preceding_work_seconds: u32) -> (id:
        i64)
        requires
            old(self).wf(),
            old(self).records_seq().len() < 0x7fff_ffff_ffff_ffff,
        ensures
            final(self).wf(),
            id == old(self).records_seq().len() + 1,
            final(self).cache_seq() == old(self).cache_seq(),
            final(self).settings_row() == old(self).settings_row(),
            exists|pos: int|
                {
                    &&& 0 <= pos <= old(self).records_seq().len()
                    &&& final(self).records_seq() == old(self).records_seq().insert(
                        pos,
                        BreakRecord {
                            id,
                            started_at,
                            duration_seconds: 0,
                            completed: false,
                            skipped: false,
                            preceding_work_seconds,
                        },
                    )
                    &&& forall|j: int|
                        0 <= j < pos ==> old(self).records_seq()[j].started_at <= started_at
                    &&& forall|j: int|
                        pos <= j < old(self).records_seq().len() ==> old(
                            self,
                        ).records_seq()[j].started_at > started_at
                },
    {
        let id = self.records.len() as i64 + 1;
        let rec = BreakRecord {
            id,
            started_at,
            duration_seconds: 0,
            completed: false,
            skipped: false,
            preceding_work_seconds,
        };
        let mut pos: usize = 0;
        while pos < self.records.len() && self.records[pos].started_at <= started_at
            invariant
                0 <= pos <= self.records.len(),
                forall|j: int| 0 <= j < pos ==> self.records@[j].started_at <= started_at,
                records_sorted(self.records@),
            decreases self.records.len() - pos,
        {
            pos = pos + 1;
        }
        proof {
            assert forall|j: int| pos <= j < self.records@.len() implies self.records@[j].started_at
                > started_at by {
                if pos < self.records@.len() {
                    assert(self.records@[pos as int].started_at <= self.records@[j].started_at);
                }
            }
        }
        self.records.insert(pos, rec);
        id
    }

    /// Finalizes (or otherwise rewrites) the record with the given
    /// identifier; a record that does not exist leaves the store unchanged,
    /// as an update matching no row would.
    pub fn update_break_completion(
        &mut self,
        id: i64,
        duration_seconds: u32,
        completed: bool,
        skipped: bool,
    )
        requires
            old(self).wf(),
        ensures
            final(self).wf(),
            final(self).cache_seq() == old(self).cache_seq(),
            final(self).settings_row() == old(self).settings_row(),
            final(self).records_seq().len() == old(self).records_seq().len(),
            forall|i: int|
                0 <= i < old(self).records_seq().len() ==> final(self).records_seq()[i] == (if old(
                    self,
                ).records_seq()[i].id == id {
                    BreakRecord {
                        duration_seconds,
                        completed,
                        skipped,
                        ..old(self).records_seq()[i]
                    }
                } else {
                    old(self).records_seq()[i]
                }),
    {
        let mut i: usize = 0;
        while i < self.records.len()
            invariant
                0 <= i <= self.records.len(),
                old(self).wf(),
                self.cache@ == old(self).cache_seq(),
                self.settings == old(self).settings_row(),
                self.records@.len() == old(self).records_seq().len(),
                forall|k: int|
                    0 <= k < i ==> self.records@[k] == (if old(self).records_seq()[k].id == id {
                        BreakRecord {
                            duration_seconds,
                            completed,
                            skipped,
                            ..old(self).records_seq()[k]
                        }
                    } else {
                        old(self).records_seq()[k]
                    }),
                forall|k: int| i <= k < self.records@.len() ==> self.records@[k] == old(self).records_seq()[k],
            decreases self.records.len() - i,
        {
            if self.records[i].id == id {
                let updated = BreakRecord {
                    duration_seconds,
                    completed,
                    skipped,
                    ..self.records[i]
                };
                self.records.set(i, updated);
            }
            i = i + 1;
        }
        proof {
            assert forall|a: int, b: int|
                0 <= a < b < self.records@.len() implies self.records@[a].started_at
                <= self.records@[b].started_at by {
                assert(self.records@[a].started_at == old(self).records_seq()[a].started_at);
                assert(self.records@[b].started_at == old(self).records_seq()[b].started_at);
            }
            assert forall|a: int|
                0 <= a < self.records@.len() implies 1 <= #[trigger] self.records@[a].id
                <= self.records@.len() by {
                assert(self.records@[a].id == old(self).records_seq()[a].id);
            }
            assert forall|a: int, b: int|
                0 <= a < b < self.records@.len() implies self.records@[a].id
                != self.records@[b].id by {
                assert(self.records@[a].id == old(self).records_seq()[a].id);
                assert(self.records@[b].id == old(self).records_seq()[b].id);
            }
        }
    }

    /// A page of break records, newest first.
    pub fn get_break_records(&self, limit: u32, offset: u32) -> (r: Vec<BreakRecord>)
        requires
            self.wf(),
        ensures
            r@.len() == (if offset < self.records_seq().len() {
                let available = self.records_seq().len() - offset;
                if limit <= available {
                    limit as int
                } else {
                    available
                }
            } else {
                0
            }),
            forall|i: int|
                0 <= i < r@.len() ==> r@[i] == self.records_seq()[self.records_seq().len() - 1
                    - offset - i],
    {
        let len = self.records.len();
        let mut out: Vec<BreakRecord> = Vec::new();
        let mut i: usize = 0;
        while (i as u64) < (limit as u64) && (offset as u64) + (i as u64) < (len as u64)
            invariant
                len == self.records@.len(),
                i <= limit,
                out@.len() == i as int,
                i > 0 ==> offset as int + i as int - 1 < len as int,
                forall|k: int|
                    0 <= k < i ==> offset as int + k < len as int && out@[k] == self.records_seq()[
                        len - 1 - offset - k
                    ],
            decreases limit - i,
        {
            out.push(self.records[len - 1 - (offset as usize) - i]);
            i = i + 1;
        }
        out
    }

    /// The settings row, as stored.
    pub fn load_settings(&self) -> (s: UserSettings)
        ensures
            settings_eqv(s, self.settings_row()),
    {
        self.settings.duplicate()
    }

    /// Overwrites the settings row.
    pub fn save_settings(&mut self, s: &UserSettings)
        requires
            old(self).wf(),
        ensures
            final(self).wf(),
            settings_eqv(final(self).settings_row(), *s),
            final(self).records_seq() == old(self).records_seq(),
            final(self).cache_seq() == old(self).cache_seq(),
    {
        self.settings = s.duplicate();
    }

    /// Wipes records and cache and resets the settings row to defaults.
    pub fn clear_all_data(&mut self)
        ensures
            final(self).wf(),
            final(self).records_seq().len() == 0,
            final(self).cache_seq().len() == 0,
            is_default_settings(final(self).settings_row()),
    {
        self.records = Vec::new();
        self.cache = Vec::new();
        self.settings = UserSettings::default();
    }

    /// Borrow of the records for read-only scans.
    pub fn records_all(&self) -> (r: &Vec<BreakRecord>)
        ensures
            r@ == self.records_seq(),
    {
        &self.records
    }

    /// Borrow of the cache rows for read-only scans.
    pub fn cache_all(&self) -> (r: &Vec<DailyStats>)
        ensures
            r@ == self.cache_seq(),
    {
        &self.cache
    }

    /// Inserts or replaces the cache row of one day.
    pub fn upsert_daily_stats(&mut self, stats: DailyStats)
        requires
            old(self).wf(),
            stats.date.valid(),
        ensures
            final(self).wf(),
            final(self).records_seq() == old(self).records_seq(),
            final(self).settings_row() == old(self).settings_row(),
            cache_upserted(old(self).cache_seq(), final(self).cache_seq(), stats),
    {
        let day = stats.date.day_number();
        let mut pos: usize = 0;
        while pos < self.cache.len() && self.cache[pos].date.day_number() < day
            invariant
                0 <= pos <= self.cache.len(),
                cache_sorted(self.cache@),
                stats.date.valid(),
                day == spec_day_number(stats.date),
                forall|j: int| 0 <= j < pos ==> spec_day_number(self.cache@[j].date) < day,
            decreases self.cache.len() - pos,
        {
            pos = pos + 1;
        }
        if pos < self.cache.len() && self.cache[pos].date.day_number() == day {
            self.cache.set(pos, stats);
            proof {
                assert(cache_sorted(self.cache@));
            }
        } else {
            proof {
                assert forall|j: int| pos <= j < self.cache@.len() implies spec_day_number(
                    self.cache@[j].date,
                ) > day by {
                    if pos < self.cache@.len() {
                        assert(spec_day_number(self.cache@[pos as int].date) >= spec_day_number(
                            self.cache@[j].date,
                        ) || spec_day_number(self.cache@[pos as int].date) <= spec_day_number(
                            self.cache@[j].date,
                        ));
                    }
                }
                assert forall|k: int|
                    0 <= k < self.cache@.len() implies spec_day_number(self.cache@[k].date)
                    != day by {}
            }
            self.cache.insert(pos, stats);
        }
    }
}

} // verus!
